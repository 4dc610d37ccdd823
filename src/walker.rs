//! The bytecode walker: decodes one instruction at a time and collects the
//! string indices that the instructions name.
//!
//! A unary compound (`0x20`) owes one sub-expression and a binary compound
//! (`0x21`) owes two. Sub-expressions follow their compound in the stream, so
//! the walk keeps a count of the expressions still owed in place of a call
//! stack: nesting depth costs no native stack.
use vstd::prelude::*;
use crate::bytes::{field_u32, le_value, read_le_u32, read_le_u64};
use crate::error::PsbError;

verus! {

/// One decoded instruction.
#[derive(Debug, Clone, Copy, PartialEq, Eq)]
pub struct Instr {
    /// Bytes taken by the instruction, the opcode included.
    pub width: u64,
    /// The string index it names, if it is a string reference.
    pub id: Option<u32>,
    /// Sub-expressions that follow it: 1 for `0x20`, 2 for `0x21`, else 0.
    pub operands: u8,
    /// It refers to an embedded resource (`0x19`..=`0x1C`).
    pub embedded: bool,
    /// Its opcode is not in the table.
    pub unknown: bool,
}

/// An instruction with no string index, no operand and no flag.
pub open spec fn plain(width: int) -> Instr {
    Instr { width: width as u64, id: None, operands: 0, embedded: false, unknown: false }
}

/// Width of every opcode whose width does not depend on what follows it
/// (all but the typed arrays `0x0D`..=`0x14`).
pub open spec fn fixed_width(op: u8) -> int {
    if op <= 0x03 {
        1
    } else if op <= 0x0C {
        1 + (op - 0x04)
    } else if 0x15 <= op <= 0x18 {
        1 + (op - 0x14)
    } else if 0x19 <= op <= 0x1C {
        1 + (op - 0x18)
    } else if op == 0x1E {
        5
    } else if op == 0x1F {
        9
    } else {
        1
    }
}

/// The instruction at `pos` of `s`. Every byte that it takes, its payload
/// included, must lie in the buffer.
pub open spec fn instr_at(s: Seq<u8>, pos: int) -> Result<Instr, PsbError> {
    if pos < 0 || pos >= s.len() {
        Err(PsbError::TruncatedBytecode)
    } else {
        let op = s[pos];
        if 0x0D <= op <= 0x14 {
            let c = op - 0x0C;
            let count = le_value(s, pos + 1, c as nat);
            let e_pos = pos + 1 + c;
            if e_pos >= s.len() {
                Err(PsbError::TruncatedBytecode)
            } else if s[e_pos] < 0x0C {
                Err(PsbError::InvalidSizeCode)
            } else {
                let w = 2 + c + (s[e_pos] - 0x0C) * count;
                if pos + w > s.len() { Err(PsbError::TruncatedBytecode) } else { Ok(plain(w)) }
            }
        } else if pos + fixed_width(op) > s.len() {
            Err(PsbError::TruncatedBytecode)
        } else if 0x15 <= op <= 0x18 {
            Ok(Instr { id: Some(field_u32(s, pos + 1, (op - 0x14) as nat) as u32), ..plain(fixed_width(op)) })
        } else if 0x19 <= op <= 0x1C {
            Ok(Instr { embedded: true, ..plain(fixed_width(op)) })
        } else if op == 0x20 || op == 0x21 {
            Ok(Instr { operands: (op - 0x1F) as u8, ..plain(1) })
        } else if op <= 0x1F {
            Ok(plain(fixed_width(op)))
        } else {
            Ok(Instr { unknown: true, ..plain(1) })
        }
    }
}

/// Decodes the instruction at `pos`.
pub fn decode_instr(script: &[u8], pos: u64) -> (r: Result<Instr, PsbError>)
    ensures
        r == instr_at(script@, pos as int),
        r matches Ok(i) ==> i.width >= 1 && i.operands <= 2 && pos + i.width <= script@.len(),
{
    let len: u128 = script.len() as u128;
    if pos as u128 >= len {
        return Err(PsbError::TruncatedBytecode);
    }
    let op: u8 = script[pos as usize];
    if 0x0D <= op && op <= 0x14 {
        let c: u64 = (op - 0x0C) as u64;
        let count: u64 = read_le_u64(script, pos + 1, c);
        let e_pos: u128 = pos as u128 + 1 + c as u128;
        if e_pos >= len {
            return Err(PsbError::TruncatedBytecode);
        }
        let eb: u8 = script[e_pos as usize];
        if eb < 0x0C {
            return Err(PsbError::InvalidSizeCode);
        }
        let e: u128 = (eb - 0x0C) as u128;
        assert(e * (count as u128) <= 243 * 0xFFFF_FFFF_FFFF_FFFF) by (nonlinear_arith)
            requires e <= 243, count <= 0xFFFF_FFFF_FFFF_FFFF;
        let w: u128 = 2 + c as u128 + e * count as u128;
        if pos as u128 + w > len {
            return Err(PsbError::TruncatedBytecode);
        }
        return Ok(Instr { width: w as u64, id: None, operands: 0, embedded: false, unknown: false });
    }
    let w: u64 = if op <= 0x03 || op == 0x1D || op == 0x20 || op == 0x21 || op >= 0x22 {
        1
    } else if op <= 0x0C {
        1 + (op - 0x04) as u64
    } else if op <= 0x18 {
        1 + (op - 0x14) as u64
    } else if op <= 0x1C {
        1 + (op - 0x18) as u64
    } else if op == 0x1E {
        5
    } else {
        9
    };
    assert(w == fixed_width(op));
    if pos as u128 + w as u128 > len {
        return Err(PsbError::TruncatedBytecode);
    }
    if 0x15 <= op && op <= 0x18 {
        let id: u32 = read_le_u32(script, pos + 1, w - 1);
        Ok(Instr { width: w, id: Some(id), operands: 0, embedded: false, unknown: false })
    } else if 0x19 <= op && op <= 0x1C {
        Ok(Instr { width: w, id: None, operands: 0, embedded: true, unknown: false })
    } else if op == 0x20 || op == 0x21 {
        Ok(Instr { width: 1, id: None, operands: op - 0x1F, embedded: false, unknown: false })
    } else if op <= 0x1F {
        Ok(Instr { width: w, id: None, operands: 0, embedded: false, unknown: false })
    } else {
        Ok(Instr { width: 1, id: None, operands: 0, embedded: false, unknown: true })
    }
}

/// Every opcode falls under exactly one row of the table, and an instruction
/// takes the width that its row gives: the fixed width for all opcodes but
/// the typed arrays, and for a typed array its header and a payload of
/// `count` elements, the count read at the full width of its field. An
/// instruction that would reach past the buffer is a truncation.
pub proof fn lemma_instruction_width(s: Seq<u8>, pos: int)
    requires
        0 <= pos < s.len(),
        s.len() <= usize::MAX,
    ensures
        !(0x0D <= s[pos] <= 0x14) ==> if pos + fixed_width(s[pos]) <= s.len() {
            instr_at(s, pos) is Ok && instr_at(s, pos)->Ok_0.width == fixed_width(s[pos])
        } else {
            instr_at(s, pos) == Err::<Instr, PsbError>(PsbError::TruncatedBytecode)
        },
        0x0D <= s[pos] <= 0x14 && pos + 1 + (s[pos] - 0x0C) < s.len()
            && s[pos + 1 + (s[pos] - 0x0C)] >= 0x0C ==> ({
            let w = 2 + (s[pos] - 0x0C)
                + (s[pos + 1 + (s[pos] - 0x0C)] - 0x0C) * le_value(s, pos + 1, (s[pos] - 0x0C) as nat);
            if pos + w <= s.len() {
                instr_at(s, pos) is Ok && instr_at(s, pos)->Ok_0.width == w
            } else {
                instr_at(s, pos) == Err::<Instr, PsbError>(PsbError::TruncatedBytecode)
            }
        }),
        instr_at(s, pos) matches Ok(i) ==> pos + i.width <= s.len(),
        (instr_at(s, pos) matches Ok(i) && i.id is Some) ==> 0x15 <= s[pos] <= 0x18,
        (instr_at(s, pos) matches Ok(i) && i.embedded) ==> 0x19 <= s[pos] <= 0x1C,
        (instr_at(s, pos) matches Ok(i) && i.unknown) ==> s[pos] >= 0x22,
{
}

/// What a walk has gathered.
pub struct Walk {
    /// The string indices named, in stream order, repeats included.
    pub ids: Seq<u32>,
    /// Where the cursor stops.
    pub cursor: int,
    /// An embedded-resource reference was seen.
    pub embedded: bool,
    /// An unknown opcode was seen.
    pub warning: bool,
}

/// The string indices an instruction names.
pub open spec fn ids_of(i: Instr) -> Seq<u32> {
    match i.id {
        Some(x) => seq![x],
        None => seq![],
    }
}

/// `acc` followed by the outcome `r` of the rest of a walk.
pub open spec fn prepend(acc: Walk, r: Result<Walk, PsbError>) -> Result<Walk, PsbError> {
    match r {
        Ok(w) => Ok(Walk {
            ids: acc.ids + w.ids,
            cursor: w.cursor,
            embedded: acc.embedded || w.embedded,
            warning: acc.warning || w.warning,
        }),
        Err(e) => Err(e),
    }
}

/// The walk from cursor `pos` with `pending` sub-expressions still owed. Once
/// nothing is owed it stops at the first cursor at or past `end`; while
/// something is owed it decodes on, whatever `end` is.
pub open spec fn walk(s: Seq<u8>, end: int, pos: int, pending: nat) -> Result<Walk, PsbError>
    decreases s.len() - pos,
{
    if pending == 0 && pos >= end {
        Ok(Walk { ids: seq![], cursor: pos, embedded: false, warning: false })
    } else if pos < 0 || pos >= s.len() {
        Err(PsbError::TruncatedBytecode)
    } else {
        match instr_at(s, pos) {
            Err(e) => Err(e),
            Ok(i) => {
                if i.width == 0 {
                    Err(PsbError::TruncatedBytecode)
                } else {
                    let owed = (if pending == 0 { 0 } else { pending - 1 }) + i.operands;
                    prepend(
                        Walk { ids: ids_of(i), cursor: pos, embedded: i.embedded, warning: i.unknown },
                        walk(s, end, pos + i.width, owed as nat),
                    )
                }
            }
        }
    }
}

/// The walk of a whole bytecode region: top-level expressions from `start`
/// until the cursor reaches `end`.
pub open spec fn walk_region(s: Seq<u8>, start: int, end: int) -> Result<Walk, PsbError> {
    walk(s, end, start, 0)
}

/// The result of walking a bytecode region.
#[derive(Debug)]
pub struct WalkOutput {
    /// The string indices named, in stream order, repeats included.
    pub ids: Vec<u32>,
    /// Where the cursor stopped.
    pub cursor: u64,
    /// An embedded-resource reference was seen.
    pub embedded_referenced: bool,
    /// An unknown opcode was seen.
    pub warning: bool,
}

impl View for WalkOutput {
    type V = Walk;

    open spec fn view(&self) -> Walk {
        Walk {
            ids: self.ids@,
            cursor: self.cursor as int,
            embedded: self.embedded_referenced,
            warning: self.warning,
        }
    }
}

proof fn lemma_prepend_twice(a: Walk, b: Walk, r: Result<Walk, PsbError>)
    ensures
        prepend(a, prepend(b, r)) == prepend(
            Walk { ids: a.ids + b.ids, cursor: b.cursor, embedded: a.embedded || b.embedded, warning: a.warning || b.warning },
            r,
        ),
{
    if let Ok(w) = r {
        assert(a.ids + (b.ids + w.ids) =~= (a.ids + b.ids) + w.ids);
    }
}

/// Walks the bytecode from `start`, decoding top-level expressions with
/// their sub-expressions until the cursor reaches `end`.
pub fn walk_bytecode(script: &[u8], start: u64, end: u64) -> (r: Result<WalkOutput, PsbError>)
    ensures
        match r {
            Ok(o) => walk_region(script@, start as int, end as int) == Ok::<Walk, PsbError>(o@),
            Err(e) => walk_region(script@, start as int, end as int) == Err::<Walk, PsbError>(e),
        },
{
    let mut pos: u64 = start;
    let mut pending: u128 = 0;
    let mut ids: Vec<u32> = Vec::new();
    let mut embedded: bool = false;
    let mut warning: bool = false;
    loop
        invariant
            start <= pos,
            pending <= pos - start + 1,
            walk_region(script@, start as int, end as int) == prepend(
                Walk { ids: ids@, cursor: start as int, embedded: embedded, warning: warning },
                walk(script@, end as int, pos as int, pending as nat),
            ),
        decreases u64::MAX - pos,
    {
        if pending == 0 && pos >= end {
            let out = WalkOutput { ids, cursor: pos, embedded_referenced: embedded, warning };
            assert(out@.ids =~= out@.ids + Seq::<u32>::empty());
            return Ok(out);
        }
        let i = match decode_instr(script, pos) {
            Ok(i) => i,
            Err(e) => return Err(e),
        };
        proof {
            let owed = (if pending == 0 { 0 } else { pending - 1 }) + i.operands;
            lemma_prepend_twice(
                Walk { ids: ids@, cursor: start as int, embedded: embedded, warning: warning },
                Walk { ids: ids_of(i), cursor: pos as int, embedded: i.embedded, warning: i.unknown },
                walk(script@, end as int, pos + i.width, owed as nat),
            );
        }
        let ghost old_ids = ids@;
        if let Some(x) = i.id {
            ids.push(x);
        }
        assert(ids@ =~= old_ids + ids_of(i));
        embedded = embedded || i.embedded;
        warning = warning || i.unknown;
        pending = (if pending == 0 { 0 } else { pending - 1 }) + i.operands as u128;
        let len: usize = script.len();
        assert(len as int <= u64::MAX);
        pos = pos + i.width;
    }
}

} // verus!
