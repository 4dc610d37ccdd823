//! Extraction of the strings of a container in the order in which its
//! bytecode refers to them.
use vstd::prelude::*;
use crate::bytes::{field_u32, read_le_u32};
use crate::container::{raw_container, unwrap_container, package_status, PackageStatus};
use crate::error::PsbError;
use crate::reconcile::{first_seen, unseen, reference_order, is_permutation, order_references,
    lemma_reference_order_is_permutation, pick, lemma_pick_permutation_multiset};
use crate::str_man::{string_table, texts, PSBStrMan, lemma_string_table_len};
use crate::walker::{walk_region, walk_bytecode};

verus! {

/// Offset of the field that gives where the bytecode starts.
pub const BYTECODE_START_FIELD: u64 = 0x24;

/// Offset of the field that gives where the bytecode ends.
pub const BYTECODE_END_FIELD: u64 = 0x10;

/// Where the bytecode of a raw container starts.
pub open spec fn bytecode_start(raw: Seq<u8>) -> nat {
    field_u32(raw, BYTECODE_START_FIELD as int, 4)
}

/// Where the bytecode of a raw container ends, exclusive.
pub open spec fn bytecode_end(raw: Seq<u8>) -> nat {
    field_u32(raw, BYTECODE_END_FIELD as int, 4)
}

/// The bytecode region lies within the buffer and is not negative.
pub open spec fn bytecode_bounds_valid(raw: Seq<u8>) -> bool {
    bytecode_start(raw) <= bytecode_end(raw) <= raw.len()
}

/// Why a buffer cannot be analysed, or nothing where it can.
pub open spec fn setup_error(s: Seq<u8>) -> Option<PsbError> {
    match raw_container(s) {
        Err(e) => Some(e),
        Ok(raw) => if bytecode_bounds_valid(raw) { None } else { Some(PsbError::CorruptedBytecodeBounds) },
    }
}

/// The outcome of an import.
pub struct Extraction {
    /// The strings, in reference order.
    pub strings: Seq<Seq<char>>,
    /// The table index of each of them.
    pub order: Seq<u32>,
    /// The table indices that the bytecode never names, ascending.
    pub unused: Seq<u32>,
    /// An embedded-resource reference was seen.
    pub embedded: bool,
    /// An unknown opcode was seen.
    pub warning: bool,
}

/// The import of a raw container whose bytecode lies in `start..end`: its
/// string table is read, its bytecode walked, and the strings put in
/// reference order.
pub open spec fn extraction(raw: Seq<u8>, start: int, end: int) -> Result<Extraction, PsbError> {
    match string_table(raw) {
        Err(e) => Err(e),
        Ok(table) => match walk_region(raw, start, end) {
            Err(e) => Err(e),
            Ok(w) => {
                let n = table.len();
                let order = reference_order(w.ids, n);
                Ok(Extraction {
                    strings: Seq::new(order.len(), |i: int| table[order[i] as int]),
                    order,
                    unused: unseen(first_seen(w.ids, n), n),
                    embedded: w.embedded,
                    warning: w.warning,
                })
            },
        },
    }
}

/// An import puts every string of the table in its output exactly once: the
/// output is as long as the table and is the table under a permutation.
pub proof fn lemma_extraction_is_permutation(raw: Seq<u8>, start: int, end: int)
    requires
        extraction(raw, start, end) is Ok,
    ensures
        ({
            let x = extraction(raw, start, end)->Ok_0;
            let table = string_table(raw)->Ok_0;
            &&& x.strings.len() == table.len()
            &&& is_permutation(x.order, table.len())
            &&& forall|i: int| 0 <= i < x.strings.len() ==> #[trigger] x.strings[i] == table[x.order[i] as int]
            &&& x.strings.to_multiset() == table.to_multiset()
        }),
{
    let table = string_table(raw)->Ok_0;
    let w = walk_region(raw, start, end)->Ok_0;
    let x = extraction(raw, start, end)->Ok_0;
    lemma_string_table_len(raw);
    lemma_reference_order_is_permutation(w.ids, table.len());
    lemma_index_permutation_multiset(table, x.order);
    assert(x.strings =~= pick(table, Seq::new(x.order.len(), |i: int| x.order[i] as int)));
}

/// Listing a sequence in an order that names each of its indices once keeps
/// its multiset of elements.
proof fn lemma_index_permutation_multiset<T>(a: Seq<T>, order: Seq<u32>)
    requires
        is_permutation(order, a.len()),
    ensures
        pick(a, Seq::new(order.len(), |i: int| order[i] as int)).to_multiset() == a.to_multiset(),
{
    let p = Seq::new(order.len(), |i: int| order[i] as int);
    assert forall|i: int, k: int| 0 <= i < k < p.len() implies p[i] != p[k] by {
        assert(order[i] != order[k]);
    }
    assert forall|i: int| 0 <= i < p.len() implies 0 <= #[trigger] p[i] < a.len() by {
        assert((order[i] as nat) < a.len());
    }
    lemma_pick_permutation_multiset(a, p);
}

/// Finds the strings of a script container that its bytecode uses.
pub struct PSBAnalyzer {
    /// The raw container.
    pub script: Vec<u8>,
    /// Reader of its string table.
    pub psb_str_man: PSBStrMan,
    /// Handed to the string table reader as its offset-width setting; kept,
    /// not used by the extraction.
    pub extend_string_limit: bool,
    /// The last import saw an embedded-resource reference.
    pub embeded_referenced: bool,
    /// The last import saw an unknown opcode.
    pub warning: bool,
    /// Where the bytecode starts.
    pub byte_code_start: u32,
    /// Length of the bytecode.
    pub byte_code_len: u32,
    /// The table indices that the last import found unused, ascending.
    pub unused: Vec<u32>,
}

impl PSBAnalyzer {
    /// The analyzer holds a raw container with its bytecode region, and a
    /// reader of the same container.
    pub open spec fn wf(&self) -> bool {
        &&& package_status(self.script@) == PackageStatus::PSB
        &&& self.psb_str_man.script@ == self.script@
        &&& self.byte_code_start == bytecode_start(self.script@)
        &&& self.byte_code_start + self.byte_code_len == bytecode_end(self.script@)
        &&& bytecode_bounds_valid(self.script@)
    }

    /// What an import of this analyzer gives.
    pub open spec fn extraction(&self) -> Result<Extraction, PsbError> {
        extraction(self.script@, self.byte_code_start as int, self.byte_code_start + self.byte_code_len)
    }

    /// The `length`-byte little-endian field at `offset`, low 32 bits, zero
    /// past the end of `script`.
    fn read_offset(script: &[u8], offset: u64, length: u64) -> (r: u32)
        ensures
            r as nat == field_u32(script@, offset as int, length as nat),
    {
        read_le_u32(script, offset, length)
    }

    /// Takes a raw container: checks its magic and its bytecode region.
    pub fn from_raw(script: Vec<u8>) -> (r: Result<PSBAnalyzer, PsbError>)
        ensures
            match r {
                Ok(a) => a.wf() && a.script@ == script@ && !a.extend_string_limit
                    && !a.embeded_referenced && !a.warning && a.unused@.len() == 0,
                Err(e) => if package_status(script@) != PackageStatus::PSB {
                    e == PsbError::InvalidPackage
                } else {
                    !bytecode_bounds_valid(script@) && e == PsbError::CorruptedBytecodeBounds
                },
            },
            r is Ok <==> package_status(script@) == PackageStatus::PSB && bytecode_bounds_valid(script@),
    {
        if PSBStrMan::get_package_status(script.clone()) != PackageStatus::PSB {
            return Err(PsbError::InvalidPackage);
        }
        let extend_string_limit: bool = false;
        let mut psb_str_man = PSBStrMan::new(script.clone());
        psb_str_man.set_compress_package(true);
        psb_str_man.set_force_max_offset_length(extend_string_limit);
        let byte_code_start: u32 = PSBAnalyzer::read_offset(script.as_slice(), BYTECODE_START_FIELD, 4);
        let byte_code_end: u32 = PSBAnalyzer::read_offset(script.as_slice(), BYTECODE_END_FIELD, 4);
        if byte_code_end < byte_code_start || byte_code_end as u64 > script.len() as u64 {
            return Err(PsbError::CorruptedBytecodeBounds);
        }
        Ok(PSBAnalyzer {
            script,
            psb_str_man,
            extend_string_limit,
            embeded_referenced: false,
            warning: false,
            byte_code_start,
            byte_code_len: byte_code_end - byte_code_start,
            unused: Vec::new(),
        })
    }

    /// Takes a container, wrapped or raw: unwraps it, checks its magic and
    /// its bytecode region.
    pub fn new(script: Vec<u8>) -> (r: Result<PSBAnalyzer, PsbError>)
        ensures
            match r {
                Ok(a) => a.wf() && raw_container(script@) == Ok::<Seq<u8>, PsbError>(a.script@)
                    && !a.extend_string_limit && !a.embeded_referenced && !a.warning && a.unused@.len() == 0,
                Err(e) => setup_error(script@) == Some(e),
            },
            r is Ok <==> setup_error(script@) is None,
    {
        let raw = match unwrap_container(script) {
            Ok(raw) => raw,
            Err(e) => return Err(e),
        };
        PSBAnalyzer::from_raw(raw)
    }

    /// Lists `strings` in the order `calls`.
    fn desort(strings: Vec<String>, calls: Vec<u32>) -> (r: Vec<String>)
        requires
            calls@.len() == strings@.len(),
            forall|i: int| 0 <= i < calls@.len() ==> (#[trigger] calls@[i] as int) < strings@.len(),
        ensures
            r@.len() == calls@.len(),
            forall|i: int| 0 <= i < calls@.len() ==> #[trigger] r@[i] == strings@[calls@[i] as int],
            is_permutation(calls@, strings@.len()) ==> r@.to_multiset() == strings@.to_multiset(),
    {
        let mut sorted: Vec<String> = Vec::new();
        let mut i: usize = 0;
        while i < calls.len()
            invariant
                i <= calls@.len(),
                calls@.len() == strings@.len(),
                forall|j: int| 0 <= j < calls@.len() ==> (#[trigger] calls@[j] as int) < strings@.len(),
                sorted@.len() == i,
                forall|j: int| 0 <= j < i ==> #[trigger] sorted@[j] == strings@[calls@[j] as int],
            decreases calls@.len() - i,
        {
            sorted.push(strings[calls[i] as usize].clone());
            i = i + 1;
        }
        proof {
            if is_permutation(calls@, strings@.len()) {
                lemma_index_permutation_multiset(strings@, calls@);
                assert(sorted@ =~= pick(strings@, Seq::new(calls@.len(), |i: int| calls@[i] as int)));
            }
        }
        sorted
    }

    /// Reads the string table, walks the bytecode region, and returns the
    /// strings in the order in which the bytecode first names them, followed
    /// by those it never names in table order. The diagnostics of this
    /// import replace those of the last one.
    pub fn import(&mut self) -> (r: Result<Vec<String>, PsbError>)
        requires
            old(self).wf(),
        ensures
            final(self).wf(),
            final(self).script@ == old(self).script@,
            final(self).byte_code_start == old(self).byte_code_start,
            final(self).byte_code_len == old(self).byte_code_len,
            final(self).extraction() == old(self).extraction(),
            match r {
                Ok(v) => old(self).extraction() is Ok && ({
                    let x = old(self).extraction()->Ok_0;
                    &&& texts(v@) == x.strings
                    &&& final(self).unused@ == x.unused
                    &&& final(self).embeded_referenced == x.embedded
                    &&& final(self).warning == x.warning
                }),
                Err(e) => old(self).extraction() == Err::<Extraction, PsbError>(e),
            },
    {
        self.embeded_referenced = false;
        self.warning = false;
        let strings: Vec<String> = match self.psb_str_man.import() {
            Ok(v) => v,
            Err(e) => return Err(e),
        };
        let start: u64 = self.byte_code_start as u64;
        let end: u64 = self.byte_code_start as u64 + self.byte_code_len as u64;
        let walked = match walk_bytecode(self.script.as_slice(), start, end) {
            Ok(w) => w,
            Err(e) => return Err(e),
        };
        let n: u32 = strings.len() as u32;
        let (calls, referenced) = order_references(walked.ids.as_slice(), n);
        let mut unused: Vec<u32> = Vec::new();
        let mut k: usize = referenced;
        while k < calls.len()
            invariant
                referenced <= k <= calls@.len(),
                unused@ == calls@.subrange(referenced as int, k as int),
            decreases calls@.len() - k,
        {
            proof {
                assert(calls@.subrange(referenced as int, k + 1) =~= calls@.subrange(referenced as int, k as int).push(calls@[k as int]));
            }
            unused.push(calls[k]);
            k = k + 1;
        }
        let sorted = PSBAnalyzer::desort(strings, calls);
        proof {
            let x = self.extraction()->Ok_0;
            assert(unused@ =~= x.unused);
            assert(texts(sorted@) =~= x.strings);
        }
        self.unused = unused;
        self.embeded_referenced = walked.embedded_referenced;
        self.warning = walked.warning;
        Ok(sorted)
    }
}

} // verus!
