use psb_extract::bytes::{read_le_u32, read_le_u64};
use psb_extract::walker::{decode_instr, walk_bytecode};
use psb_extract::PsbError;

fn table_width(op: u8) -> u64 {
    match op {
        0x00..=0x03 => 1,
        0x04..=0x0C => 1 + (op as u64 - 0x04),
        0x15..=0x18 => 1 + (op as u64 - 0x14),
        0x19..=0x1C => 1 + (op as u64 - 0x18),
        0x1D => 1,
        0x1E => 5,
        0x1F => 9,
        _ => 1,
    }
}

#[test]
fn compound_expression_refs_in_order() {
    let code = [0x21u8, 0x15, 0x00, 0x15, 0x01];
    let w = walk_bytecode(&code, 0, 5).unwrap();
    assert_eq!(w.ids, vec![0, 1]);
    assert_eq!(w.cursor, 5);
    assert!(!w.embedded_referenced);
    assert!(!w.warning);
}

#[test]
fn nested_unary_inside_binary() {
    // 0x21 ( 0x20 ( 0x16 0x0203 ) , 0x17 0x000001 )
    let code = [0x21u8, 0x20, 0x16, 0x03, 0x02, 0x17, 0x01, 0x00, 0x00];
    let w = walk_bytecode(&code, 0, 9).unwrap();
    assert_eq!(w.ids, vec![0x0203, 1]);
    assert_eq!(w.cursor, 9);
}

#[test]
fn every_opcode_has_its_table_width() {
    for op in 0u8..=0xFF {
        if (0x0D..=0x14).contains(&op) {
            let c = (op - 0x0C) as usize;
            let mut buf = vec![op, 2];
            buf.extend(std::iter::repeat(0u8).take(c - 1));
            buf.push(0x0E);
            let width = 2 + c as u64 + 2 * 2;
            assert_eq!(decode_instr(&buf, 0).unwrap_err(), PsbError::TruncatedBytecode, "opcode {:#x}", op);
            buf.extend_from_slice(&[0xAA; 4]);
            let i = decode_instr(&buf, 0).unwrap();
            assert_eq!(i.width, width, "opcode {:#x}", op);
            let w = walk_bytecode(&buf, 0, 1).unwrap();
            assert_eq!(w.cursor, width);
        } else {
            let width = table_width(op);
            let mut buf = vec![op];
            buf.extend(std::iter::repeat(0u8).take(width as usize - 1));
            let i = decode_instr(&buf, 0).unwrap();
            assert_eq!(i.width, width, "opcode {:#x}", op);
            let w = walk_bytecode(&buf, 0, 1);
            if op == 0x20 || op == 0x21 {
                assert_eq!(w.unwrap_err(), PsbError::TruncatedBytecode);
            } else {
                assert_eq!(w.unwrap().cursor, width, "opcode {:#x}", op);
            }
            if width > 1 {
                buf.pop();
                assert_eq!(decode_instr(&buf, 0).unwrap_err(), PsbError::TruncatedBytecode, "opcode {:#x}", op);
            }
        }
    }
}

#[test]
fn wide_array_count_is_read_in_full() {
    // Five-byte count of 2^32 one-byte elements: far past the buffer.
    let code = [0x11u8, 0x00, 0x00, 0x00, 0x00, 0x01, 0x0D, 0x15, 0x03];
    assert_eq!(walk_bytecode(&code, 0, 9).unwrap_err(), PsbError::TruncatedBytecode);
    // Five-byte count of one element, then a string reference.
    let code = [0x11u8, 0x01, 0x00, 0x00, 0x00, 0x00, 0x0D, 0xAA, 0x15, 0x03];
    let w = walk_bytecode(&code, 0, 10).unwrap();
    assert_eq!(w.ids, vec![3]);
    assert_eq!(w.cursor, 10);
    assert_eq!(decode_instr(&code, 0).unwrap().width, 8);
}

#[test]
fn array_payload_past_buffer_is_truncated() {
    let code = [0x0Du8, 0x03, 0x0D, 0x00, 0x00];
    assert_eq!(walk_bytecode(&code, 0, 5).unwrap_err(), PsbError::TruncatedBytecode);
}

#[test]
fn string_reference_widths() {
    let code = [0x15u8, 0x07, 0x16, 0x34, 0x12, 0x17, 0x03, 0x02, 0x01, 0x18, 0x04, 0x03, 0x02, 0x01];
    let w = walk_bytecode(&code, 0, code.len() as u64).unwrap();
    assert_eq!(w.ids, vec![7, 0x1234, 0x010203, 0x01020304]);
    assert_eq!(w.cursor, 14);
}

#[test]
fn array_skips_payload() {
    // 0x0E: two-byte count 3, element code 0x0D (one byte each), then a string ref.
    let code = [0x0Eu8, 0x03, 0x00, 0x0D, 0x15, 0x15, 0x15, 0x15, 0x09];
    let w = walk_bytecode(&code, 0, code.len() as u64).unwrap();
    assert_eq!(w.ids, vec![9]);
}

#[test]
fn array_with_bad_element_code() {
    let code = [0x0Du8, 0x01, 0x05];
    assert_eq!(walk_bytecode(&code, 0, 3).unwrap_err(), PsbError::InvalidSizeCode);
}

#[test]
fn array_code_past_end() {
    let code = [0x0Fu8, 0x01];
    assert_eq!(walk_bytecode(&code, 0, 2).unwrap_err(), PsbError::TruncatedBytecode);
}

#[test]
fn embedded_and_unknown_flags() {
    let code = [0x19u8, 0x00, 0x1C, 0, 0, 0, 0];
    let w = walk_bytecode(&code, 0, 7).unwrap();
    assert!(w.embedded_referenced);
    assert!(!w.warning);
    assert_eq!(w.cursor, 7);
    let code = [0x22u8, 0xFF, 0x1D];
    let w = walk_bytecode(&code, 0, 3).unwrap();
    assert!(w.warning);
    assert!(!w.embedded_referenced);
    assert_eq!(w.cursor, 3);
}

#[test]
fn pending_operand_past_region_is_decoded() {
    // The region ends after the compound, but its operand still follows.
    let code = [0x20u8, 0x15, 0x04];
    let w = walk_bytecode(&code, 0, 1).unwrap();
    assert_eq!(w.ids, vec![4]);
    assert_eq!(w.cursor, 3);
}

#[test]
fn operand_past_buffer_is_truncated() {
    let code = [0x21u8, 0x15, 0x00];
    assert_eq!(walk_bytecode(&code, 0, 3).unwrap_err(), PsbError::TruncatedBytecode);
}

#[test]
fn payload_past_buffer_is_truncated() {
    let code = [0x16u8, 0x05];
    assert_eq!(walk_bytecode(&code, 0, 2).unwrap_err(), PsbError::TruncatedBytecode);
    let code = [0x1Fu8, 0, 0, 0, 0, 0, 0, 0];
    assert_eq!(walk_bytecode(&code, 0, 8).unwrap_err(), PsbError::TruncatedBytecode);
    let code = [0x1Au8, 0];
    assert_eq!(walk_bytecode(&code, 0, 2).unwrap_err(), PsbError::TruncatedBytecode);
}

#[test]
fn empty_region() {
    let w = walk_bytecode(&[0x15u8, 0x00], 2, 2).unwrap();
    assert!(w.ids.is_empty());
    assert_eq!(w.cursor, 2);
}

#[test]
fn le_fields_zero_pad() {
    let b = [0x01u8, 0x02, 0x03, 0x04, 0x05];
    assert_eq!(read_le_u32(&b, 0, 4), 0x04030201);
    assert_eq!(read_le_u32(&b, 0, 3), 0x030201);
    assert_eq!(read_le_u32(&b, 3, 4), 0x0504);
    assert_eq!(read_le_u32(&b, 10, 4), 0);
    assert_eq!(read_le_u32(&b, 1, 8), 0x05040302);
    assert_eq!(read_le_u32(&b, 0, 0), 0);
    assert_eq!(read_le_u32(&b, u64::MAX, 4), 0);
    assert_eq!(read_le_u64(&b, 0, 8), 0x0504030201);
    assert_eq!(read_le_u64(&[0xFFu8; 8], 0, 8), u64::MAX);
    assert_eq!(read_le_u64(&b, 4, 2), 0x05);
}
