//! The header and the string table of a raw container.
use vstd::prelude::*;
use vstd::utf8::{valid_utf8, decode_utf8};
use crate::bytes::{le_value, read_le_u32, lemma_le_value_bound, radix};
use crate::container::{raw_container, unwrap_container, package_status, PackageStatus, mdf_payload,
    zlib_inflated, inflate_zlib, MDF_MAGIC, PSB_MAGIC, MDF_PREFIX_LEN};
use crate::error::PsbError;

verus! {

/// Length of the fixed header.
pub const HEADER_LEN: usize = 40;

/// The signed 32-bit little-endian header field at `off`.
pub open spec fn header_field(s: Seq<u8>, off: int) -> int {
    (le_value(s, off, 4) as i32) as int
}

/// The fixed header: ten signed 32-bit little-endian fields.
#[derive(Debug, Clone, Copy, PartialEq, Eq, Structural)]
pub struct PSBHeader {
    pub signature: i32,
    pub version: i32,
    pub unk: i32,
    pub unk2: i32,
    pub str_off_pos: i32,
    pub str_data_pos: i32,
    pub res_off_pos: i32,
    pub res_len_pos: i32,
    pub res_data_pos: i32,
    pub res_index_tree: i32,
}

impl PSBHeader {
    /// Decodes the header from the first 40 bytes of a raw container.
    pub fn new(script: &[u8]) -> (r: PSBHeader)
        requires
            script@.len() >= HEADER_LEN,
        ensures
            r.signature == header_field(script@, 0),
            r.version == header_field(script@, 4),
            r.unk == header_field(script@, 8),
            r.unk2 == header_field(script@, 12),
            r.str_off_pos == header_field(script@, 16),
            r.str_data_pos == header_field(script@, 20),
            r.res_off_pos == header_field(script@, 24),
            r.res_len_pos == header_field(script@, 28),
            r.res_data_pos == header_field(script@, 32),
            r.res_index_tree == header_field(script@, 36),
    {
        PSBHeader {
            signature: read_le_u32(script, 0, 4) as i32,
            version: read_le_u32(script, 4, 4) as i32,
            unk: read_le_u32(script, 8, 4) as i32,
            unk2: read_le_u32(script, 12, 4) as i32,
            str_off_pos: read_le_u32(script, 16, 4) as i32,
            str_data_pos: read_le_u32(script, 20, 4) as i32,
            res_off_pos: read_le_u32(script, 24, 4) as i32,
            res_len_pos: read_le_u32(script, 28, 4) as i32,
            res_data_pos: read_le_u32(script, 32, 4) as i32,
            res_index_tree: read_le_u32(script, 36, 4) as i32,
        }
    }
}

/// The width that a size code gives: `0x0D`..=`0x10` stand for 1..=4 bytes.
pub open spec fn code_width(b: u8) -> Option<nat> {
    if 0x0D <= b <= 0x10 { Some((b - 0x0C) as nat) } else { None }
}

/// Where the string table lies.
pub struct TableLayout {
    /// Number of strings.
    pub count: nat,
    /// Width of each entry of the offset array.
    pub width: nat,
    /// Position of the offset array.
    pub offsets_pos: int,
    /// Position from which string offsets count.
    pub data_pos: int,
}

/// The layout of the string table of a raw container: at the header's
/// string-offset position a size code, the count in that width, a second
/// size code and the array of offsets in its width, all within the buffer.
pub open spec fn table_layout(s: Seq<u8>) -> Result<TableLayout, PsbError> {
    if s.len() < HEADER_LEN {
        Err(PsbError::TruncatedHeader)
    } else {
        let p = header_field(s, 16);
        if p < 0 || p >= s.len() {
            Err(PsbError::TruncatedStringTable)
        } else {
            match code_width(s[p]) {
                None => Err(PsbError::InvalidSizeCode),
                Some(w1) => if p + 1 + w1 >= s.len() {
                    Err(PsbError::TruncatedStringTable)
                } else {
                    match code_width(s[p + 1 + w1]) {
                        None => Err(PsbError::InvalidSizeCode),
                        Some(w2) => {
                            let count = le_value(s, p + 1, w1);
                            let q = p + 2 + w1;
                            if q + count * w2 > s.len() {
                                Err(PsbError::TruncatedStringTable)
                            } else {
                                Ok(TableLayout { count, width: w2, offsets_pos: q, data_pos: header_field(s, 20) })
                            }
                        },
                    }
                },
            }
        }
    }
}

/// The bytes from `pos` up to, not including, the first zero byte; none
/// where the buffer ends first.
pub open spec fn c_string(s: Seq<u8>, pos: int) -> Option<Seq<u8>>
    decreases s.len() - pos,
{
    if pos < 0 || pos >= s.len() {
        None
    } else if s[pos] == 0 {
        Some(seq![])
    } else {
        match c_string(s, pos + 1) {
            Some(t) => Some(seq![s[pos]] + t),
            None => None,
        }
    }
}

/// The zero-terminated UTF-8 string at `pos`.
pub open spec fn string_at(s: Seq<u8>, pos: int) -> Result<Seq<char>, PsbError> {
    match c_string(s, pos) {
        None => Err(PsbError::TruncatedStringTable),
        Some(b) => if valid_utf8(b) { Ok(decode_utf8(b)) } else { Err(PsbError::InvalidStringEncoding) },
    }
}

/// The offset of string `i`, relative to the data position.
pub open spec fn string_offset(s: Seq<u8>, l: TableLayout, i: int) -> int {
    le_value(s, l.offsets_pos + i * l.width, l.width) as int
}

/// The first `k` strings of the table, read in table order; the first
/// failure decides the error.
pub open spec fn strings_upto(s: Seq<u8>, l: TableLayout, k: nat) -> Result<Seq<Seq<char>>, PsbError>
    decreases k,
{
    if k == 0 {
        Ok(seq![])
    } else {
        match strings_upto(s, l, (k - 1) as nat) {
            Err(e) => Err(e),
            Ok(v) => match string_at(s, l.data_pos + string_offset(s, l, k - 1)) {
                Err(e) => Err(e),
                Ok(t) => Ok(v.push(t)),
            },
        }
    }
}

/// The strings of the table of a raw container, in table order.
pub open spec fn string_table(s: Seq<u8>) -> Result<Seq<Seq<char>>, PsbError> {
    match table_layout(s) {
        Err(e) => Err(e),
        Ok(l) => strings_upto(s, l, l.count),
    }
}

/// The texts of a sequence of strings.
pub open spec fn texts(v: Seq<String>) -> Seq<Seq<char>> {
    v.map_values(|t: String| t@)
}

/// Relies on `String::from_utf8`: it accepts exactly the valid UTF-8 byte
/// sequences and keeps the characters that they encode.
#[verifier::external_body]
fn utf8_to_string(bytes: Vec<u8>) -> (r: Option<String>)
    ensures
        match r {
            Some(t) => valid_utf8(bytes@) && t@ == decode_utf8(bytes@),
            None => !valid_utf8(bytes@),
        },
{
    match String::from_utf8(bytes) {
        Ok(t) => Some(t),
        Err(_) => None,
    }
}

/// Reads the bytes from `pos` up to the first zero byte.
fn read_c_string(script: &[u8], pos: usize) -> (r: Option<Vec<u8>>)
    ensures
        match r {
            Some(v) => c_string(script@, pos as int) == Some(v@),
            None => c_string(script@, pos as int) is None,
        },
{
    let mut bytes: Vec<u8> = Vec::new();
    let mut j: usize = pos;
    while j < script.len() && script[j] != 0
        invariant
            pos <= j,
            c_string(script@, pos as int) == match c_string(script@, j as int) {
                Some(t) => Some(bytes@ + t),
                None => None::<Seq<u8>>,
            },
        decreases script@.len() - j,
    {
        proof {
            if let Some(t) = c_string(script@, j + 1) {
                assert(bytes@ + (seq![script@[j as int]] + t) =~= bytes@.push(script@[j as int]) + t);
            }
        }
        bytes.push(script[j]);
        j = j + 1;
    }
    if j >= script.len() {
        return None;
    }
    assert(bytes@ + Seq::<u8>::empty() =~= bytes@);
    Some(bytes)
}

/// Reads the zero-terminated UTF-8 string at `pos`.
fn read_string(script: &[u8], pos: usize) -> (r: Result<String, PsbError>)
    ensures
        match r {
            Ok(t) => string_at(script@, pos as int) == Ok::<Seq<char>, PsbError>(t@),
            Err(e) => string_at(script@, pos as int) == Err::<Seq<char>, PsbError>(e),
        },
{
    match read_c_string(script, pos) {
        None => Err(PsbError::TruncatedStringTable),
        Some(b) => match utf8_to_string(b) {
            Some(t) => Ok(t),
            None => Err(PsbError::InvalidStringEncoding),
        },
    }
}

proof fn lemma_strings_upto_err(s: Seq<u8>, l: TableLayout, k: nat, m: nat)
    requires
        k <= m,
        strings_upto(s, l, k) is Err,
    ensures
        strings_upto(s, l, m) == strings_upto(s, l, k),
    decreases m - k,
{
    if k < m {
        lemma_strings_upto_err(s, l, k, (m - 1) as nat);
    }
}

proof fn lemma_strings_upto_len(s: Seq<u8>, l: TableLayout, k: nat)
    requires
        strings_upto(s, l, k) is Ok,
    ensures
        strings_upto(s, l, k)->Ok_0.len() == k,
    decreases k,
{
    if k > 0 {
        lemma_strings_upto_len(s, l, (k - 1) as nat);
    }
}

/// A string table has fewer than `2^32` strings: its count is a field of at
/// most four bytes.
pub proof fn lemma_string_table_len(s: Seq<u8>)
    requires
        string_table(s) is Ok,
    ensures
        string_table(s)->Ok_0.len() <= u32::MAX,
{
    let l = table_layout(s)->Ok_0;
    let p = header_field(s, 16);
    let w1 = code_width(s[p])->Some_0;
    lemma_strings_upto_len(s, l, l.count);
    lemma_le_value_bound(s, p + 1, w1);
    assert(radix(w1) <= radix(4)) by {
        reveal_with_fuel(radix, 5);
    }
    assert(radix(4) == 0x1_0000_0000) by {
        reveal_with_fuel(radix, 5);
    }
}

/// The strings of a container, wrapped or raw, in table order.
pub open spec fn container_strings(s: Seq<u8>) -> Result<Seq<Seq<char>>, PsbError> {
    match raw_container(s) {
        Err(e) => Err(e),
        Ok(raw) => string_table(raw),
    }
}

/// Reads the string table of a container.
pub struct PSBStrMan {
    /// The container; after an import, the raw container.
    pub script: Vec<u8>,
    /// Whether the container came, or is to be taken, compressed; kept, not
    /// used by the extraction. An import of a wrapped container sets it.
    pub compress_package: bool,
    /// Whether offsets are to be taken at their largest width; kept, not used
    /// by the extraction.
    pub force_max_offset_length: bool,
}

impl PSBStrMan {
    pub fn new(script: Vec<u8>) -> (r: PSBStrMan)
        ensures
            r.script@ == script@,
            r.compress_package,
            !r.force_max_offset_length,
    {
        PSBStrMan { script, compress_package: true, force_max_offset_length: false }
    }

    /// Decompresses the zlib stream that follows the prefix of a wrapped container.
    pub fn extract_mdf(mdf: Vec<u8>) -> (r: Result<Vec<u8>, PsbError>)
        ensures
            match r {
                Ok(v) => zlib_inflated(mdf_payload(mdf@)) == Some(v@),
                Err(e) => e == PsbError::InvalidCompressedData && zlib_inflated(mdf_payload(mdf@)) is None,
            },
    {
        let mut zlib: Vec<u8> = Vec::new();
        let mut i: usize = MDF_PREFIX_LEN;
        while i < mdf.len()
            invariant
                MDF_PREFIX_LEN <= i,
                i <= mdf@.len() || mdf@.len() <= MDF_PREFIX_LEN,
                mdf@.len() > MDF_PREFIX_LEN ==> zlib@ == mdf@.subrange(MDF_PREFIX_LEN as int, i as int),
                mdf@.len() <= MDF_PREFIX_LEN ==> zlib@.len() == 0,
            decreases mdf@.len() - i,
        {
            proof {
                assert(mdf@.subrange(MDF_PREFIX_LEN as int, i + 1) =~= mdf@.subrange(MDF_PREFIX_LEN as int, i as int).push(mdf@[i as int]));
            }
            zlib.push(mdf[i]);
            i = i + 1;
        }
        assert(zlib@ =~= mdf_payload(mdf@));
        match inflate_zlib(zlib.as_slice()) {
            Some(raw) => Ok(raw),
            None => Err(PsbError::InvalidCompressedData),
        }
    }

    /// The form of a container, from its first three bytes read as a
    /// little-endian field (bytes past the end count as zero).
    pub fn get_package_status(script: Vec<u8>) -> (r: PackageStatus)
        ensures
            r == package_status(script@),
    {
        let m: u32 = read_le_u32(script.as_slice(), 0, 3);
        if m == MDF_MAGIC {
            PackageStatus::MDF
        } else if m == PSB_MAGIC {
            PackageStatus::PSB
        } else {
            PackageStatus::Invalid
        }
    }

    /// The width that a size code gives.
    fn convert_size(&self, b: u8) -> (r: Result<usize, PsbError>)
        ensures
            match code_width(b) {
                Some(w) => r == Ok::<usize, PsbError>(w as usize),
                None => r == Err::<usize, PsbError>(PsbError::InvalidSizeCode),
            },
    {
        if b == 0xD {
            Ok(1)
        } else if b == 0xE {
            Ok(2)
        } else if b == 0xF {
            Ok(3)
        } else if b == 0x10 {
            Ok(4)
        } else {
            Err(PsbError::InvalidSizeCode)
        }
    }

    /// The unsigned little-endian field of `length` bytes, at most four, at `offset`.
    fn read_offset(script: &[u8], offset: usize, length: usize) -> (r: u32)
        requires
            length <= 4,
        ensures
            r as nat == le_value(script@, offset as int, length as nat),
    {
        read_le_u32(script, offset as u64, length as u64)
    }

    /// Reads the string table of the raw container held, in table order.
    pub fn read_strings(&self) -> (r: Result<Vec<String>, PsbError>)
        ensures
            match r {
                Ok(v) => string_table(self.script@) == Ok::<Seq<Seq<char>>, PsbError>(texts(v@))
                    && v@.len() <= u32::MAX,
                Err(e) => string_table(self.script@) == Err::<Seq<Seq<char>>, PsbError>(e),
            },
    {
        let script: &[u8] = self.script.as_slice();
        let len: usize = script.len();
        if len < HEADER_LEN {
            return Err(PsbError::TruncatedHeader);
        }
        let header = PSBHeader::new(script);
        if header.str_off_pos < 0 || header.str_off_pos as u64 >= len as u64 {
            return Err(PsbError::TruncatedStringTable);
        }
        let p: usize = header.str_off_pos as usize;
        let w1: usize = match self.convert_size(script[p]) {
            Ok(w) => w,
            Err(e) => return Err(e),
        };
        if p as u128 + 1 + w1 as u128 >= len as u128 {
            return Err(PsbError::TruncatedStringTable);
        }
        let w2: usize = match self.convert_size(script[p + 1 + w1]) {
            Ok(w) => w,
            Err(e) => return Err(e),
        };
        let count: u32 = PSBStrMan::read_offset(script, p + 1, w1);
        let q: usize = p + 2 + w1;
        assert(count as u128 * w2 as u128 <= 4 * 0xFFFF_FFFF) by (nonlinear_arith)
            requires count <= 0xFFFF_FFFF, w2 <= 4;
        if q as u128 + count as u128 * w2 as u128 > len as u128 {
            return Err(PsbError::TruncatedStringTable);
        }
        let d: i32 = header.str_data_pos;
        let ghost l = TableLayout { count: count as nat, width: w2 as nat, offsets_pos: q as int, data_pos: d as int };
        assert(table_layout(script@) == Ok::<TableLayout, PsbError>(l));
        let mut strings: Vec<String> = Vec::new();
        assert(texts(strings@) =~= Seq::<Seq<char>>::empty());
        let mut i: u32 = 0;
        while i < count
            invariant
                i <= count,
                strings@.len() == i,
                w2 <= 4,
                q + count * w2 <= len,
                len == script@.len(),
                script@ == self.script@,
                l == (TableLayout { count: count as nat, width: w2 as nat, offsets_pos: q as int, data_pos: d as int }),
                table_layout(script@) == Ok::<TableLayout, PsbError>(l),
                strings_upto(script@, l, i as nat) == Ok::<Seq<Seq<char>>, PsbError>(texts(strings@)),
            decreases count - i,
        {
            assert(i * w2 <= count * w2) by (nonlinear_arith)
                requires i <= count;
            let off: u32 = PSBStrMan::read_offset(script, q + i as usize * w2, w2);
            let pos: i64 = d as i64 + off as i64;
            assert(pos == l.data_pos + string_offset(script@, l, i as int));
            if pos < 0 || pos as u128 >= len as u128 {
                proof {
                    lemma_strings_upto_err(script@, l, (i + 1) as nat, count as nat);
                }
                return Err(PsbError::TruncatedStringTable);
            }
            let t: String = match read_string(script, pos as usize) {
                Ok(t) => t,
                Err(e) => {
                    proof {
                        lemma_strings_upto_err(script@, l, (i + 1) as nat, count as nat);
                    }
                    return Err(e);
                },
            };
            proof {
                assert(texts(strings@.push(t)) =~= texts(strings@).push(t@));
            }
            strings.push(t);
            i = i + 1;
        }
        Ok(strings)
    }

    /// Strips the wrapping of the container held, if it has one, keeps the
    /// raw container, and reads its string table in table order.
    pub fn import(&mut self) -> (r: Result<Vec<String>, PsbError>)
        ensures
            match r {
                Ok(v) => container_strings(old(self).script@) == Ok::<Seq<Seq<char>>, PsbError>(texts(v@))
                    && v@.len() <= u32::MAX,
                Err(e) => container_strings(old(self).script@) == Err::<Seq<Seq<char>>, PsbError>(e),
            },
            final(self).force_max_offset_length == old(self).force_max_offset_length,
            match raw_container(old(self).script@) {
                Ok(raw) => final(self).script@ == raw
                    && final(self).compress_package == (old(self).compress_package
                        || package_status(old(self).script@) == PackageStatus::MDF),
                Err(_) => final(self).script@ == old(self).script@
                    && final(self).compress_package == old(self).compress_package,
            },
    {
        let wrapped: bool = PSBStrMan::get_package_status(self.script.clone()) == PackageStatus::MDF;
        let raw = match unwrap_container(self.script.clone()) {
            Ok(raw) => raw,
            Err(e) => return Err(e),
        };
        if wrapped {
            self.compress_package = true;
        }
        self.script = raw;
        self.read_strings()
    }

    pub fn set_compress_package(&mut self, compress_package: bool)
        ensures
            final(self).compress_package == compress_package,
            final(self).script@ == old(self).script@,
            final(self).force_max_offset_length == old(self).force_max_offset_length,
    {
        self.compress_package = compress_package;
    }

    pub fn set_force_max_offset_length(&mut self, force_max_offset_length: bool)
        ensures
            final(self).force_max_offset_length == force_max_offset_length,
            final(self).script@ == old(self).script@,
            final(self).compress_package == old(self).compress_package,
    {
        self.force_max_offset_length = force_max_offset_length;
    }
}

} // verus!
