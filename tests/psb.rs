use std::io::Write;

use psb_extract::reconcile::order_references;
use psb_extract::{PSBAnalyzer, PSBStrMan, PackageStatus, PsbError};

fn put_u32(buf: &mut [u8], at: usize, v: u32) {
    buf[at..at + 4].copy_from_slice(&v.to_le_bytes());
}

/// A raw container: header, bytecode, string table (one-byte count and
/// offsets), string data.
fn build_psb(code: &[u8], strings: &[&str]) -> Vec<u8> {
    let mut buf = vec![0u8; 40];
    buf[0..3].copy_from_slice(b"PSB");
    buf.extend_from_slice(code);
    let table_pos = buf.len();
    buf.push(0x0D);
    buf.push(strings.len() as u8);
    buf.push(0x0D);
    let mut off = 0usize;
    for s in strings {
        buf.push(off as u8);
        off += s.len() + 1;
    }
    let data_pos = buf.len();
    for s in strings {
        buf.extend_from_slice(s.as_bytes());
        buf.push(0);
    }
    put_u32(&mut buf, 0x24, 40);
    put_u32(&mut buf, 0x10, table_pos as u32);
    put_u32(&mut buf, 20, data_pos as u32);
    buf
}

fn wrap_mdf(raw: &[u8]) -> Vec<u8> {
    let mut enc = flate2::write::ZlibEncoder::new(Vec::new(), flate2::Compression::default());
    enc.write_all(raw).unwrap();
    let z = enc.finish().unwrap();
    let mut out = b"mdf\0".to_vec();
    out.extend_from_slice(&(raw.len() as u32).to_le_bytes());
    out.extend_from_slice(&z);
    out
}

#[test]
fn unreferenced_strings_follow_in_table_order() {
    let raw = build_psb(&[0x15, 0x01], &["zero", "one", "two"]);
    let mut a = PSBAnalyzer::new(raw).unwrap();
    let out = a.import().unwrap();
    assert_eq!(out, vec!["one", "zero", "two"]);
    assert_eq!(a.unused, vec![0, 2]);
    assert!(!a.embeded_referenced);
    assert!(!a.warning);
}

#[test]
fn reference_order_with_repeats_and_out_of_range() {
    let code = [0x15, 0x02, 0x21, 0x15, 0x00, 0x15, 0x02, 0x15, 0x09, 0x16, 0x01, 0x00];
    let raw = build_psb(&code, &["a", "b", "c", "d"]);
    let mut a = PSBAnalyzer::new(raw).unwrap();
    assert_eq!(a.import().unwrap(), vec!["c", "a", "b", "d"]);
    assert_eq!(a.unused, vec![3]);
}

#[test]
fn import_twice_gives_same_result() {
    let raw = build_psb(&[0x19, 0x00, 0x15, 0x01, 0xF0], &["x", "y"]);
    let mut a = PSBAnalyzer::new(raw).unwrap();
    let first = a.import().unwrap();
    let flags = (a.embeded_referenced, a.warning, a.unused.clone());
    let second = a.import().unwrap();
    assert_eq!(first, second);
    assert_eq!(first, vec!["y", "x"]);
    assert_eq!(flags, (a.embeded_referenced, a.warning, a.unused.clone()));
    assert_eq!(flags, (true, true, vec![0]));
}

#[test]
fn output_is_permutation_of_table() {
    let strings = ["s0", "s1", "s2", "s3", "s4"];
    let code = [0x15, 0x04, 0x15, 0x01, 0x15, 0x04];
    let raw = build_psb(&code, &strings);
    let mut a = PSBAnalyzer::new(raw).unwrap();
    let out = a.import().unwrap();
    assert_eq!(out.len(), strings.len());
    let mut sorted = out.clone();
    sorted.sort();
    assert_eq!(sorted, strings.to_vec());
    assert_eq!(out, vec!["s4", "s1", "s0", "s2", "s3"]);
}

#[test]
fn order_references_exact() {
    let (order, named) = order_references(&[3, 3, 7, 1, 0, 1], 5);
    assert_eq!(order, vec![3, 1, 0, 2, 4]);
    assert_eq!(named, 3);
    let (order, named) = order_references(&[], 3);
    assert_eq!(order, vec![0, 1, 2]);
    assert_eq!(named, 0);
    let (order, named) = order_references(&[1, 2], 0);
    assert!(order.is_empty());
    assert_eq!(named, 0);
}

#[test]
fn empty_table_and_bytecode() {
    let raw = build_psb(&[], &[]);
    let mut a = PSBAnalyzer::new(raw).unwrap();
    assert!(a.import().unwrap().is_empty());
    assert!(a.unused.is_empty());
}

#[test]
fn utf8_strings_are_decoded() {
    let raw = build_psb(&[0x15, 0x01], &["ascii", "日本語"]);
    let mut a = PSBAnalyzer::new(raw).unwrap();
    assert_eq!(a.import().unwrap(), vec!["日本語", "ascii"]);
}

#[test]
fn invalid_magic_is_rejected() {
    let mut raw = build_psb(&[0x15, 0x00], &["a"]);
    raw[0] = b'X';
    assert_eq!(PSBAnalyzer::new(raw).err(), Some(PsbError::InvalidPackage));
    assert_eq!(PSBAnalyzer::new(vec![]).err(), Some(PsbError::InvalidPackage));
    assert_eq!(PSBAnalyzer::new(b"PS".to_vec()).err(), Some(PsbError::InvalidPackage));
}

#[test]
fn corrupted_bytecode_bounds_are_rejected() {
    let mut raw = build_psb(&[0x15, 0x00], &["a"]);
    let len = raw.len() as u32;
    put_u32(&mut raw, 0x10, len + 1);
    assert_eq!(PSBAnalyzer::new(raw.clone()).err(), Some(PsbError::CorruptedBytecodeBounds));
    put_u32(&mut raw, 0x10, 30);
    assert_eq!(PSBAnalyzer::new(raw).err(), Some(PsbError::CorruptedBytecodeBounds));
}

#[test]
fn bounds_field_values_are_kept() {
    let raw = build_psb(&[0x15, 0x00, 0x1D], &["a"]);
    let a = PSBAnalyzer::from_raw(raw).unwrap();
    assert_eq!(a.byte_code_start, 40);
    assert_eq!(a.byte_code_len, 3);
}

#[test]
fn wrapped_container_is_inflated() {
    let raw = build_psb(&[0x15, 0x01, 0x15, 0x00], &["first", "second"]);
    let mdf = wrap_mdf(&raw);
    assert_eq!(PSBStrMan::get_package_status(mdf.clone()), PackageStatus::MDF);
    assert_eq!(PSBStrMan::extract_mdf(mdf.clone()).unwrap(), raw);
    let mut a = PSBAnalyzer::new(mdf).unwrap();
    assert_eq!(a.script, raw);
    assert_eq!(a.import().unwrap(), vec!["second", "first"]);
}

#[test]
fn wrapped_container_with_bad_stream() {
    let mut mdf = b"mdf\0\0\0\0\0".to_vec();
    mdf.extend_from_slice(&[1, 2, 3, 4, 5]);
    assert_eq!(PSBStrMan::extract_mdf(mdf.clone()).err(), Some(PsbError::InvalidCompressedData));
    assert_eq!(PSBAnalyzer::new(mdf).err(), Some(PsbError::InvalidCompressedData));
}

#[test]
fn wrapped_container_holding_no_psb() {
    let mdf = wrap_mdf(b"not a psb container at all");
    assert_eq!(PSBAnalyzer::new(mdf).err(), Some(PsbError::InvalidPackage));
}

#[test]
fn package_status_of_magics() {
    assert_eq!(PSBStrMan::get_package_status(b"PSB\0".to_vec()), PackageStatus::PSB);
    assert_eq!(PSBStrMan::get_package_status(b"mdf".to_vec()), PackageStatus::MDF);
    assert_eq!(PSBStrMan::get_package_status(b"psb".to_vec()), PackageStatus::Invalid);
    assert_eq!(PSBStrMan::get_package_status(vec![]), PackageStatus::Invalid);
}

#[test]
fn str_man_reads_table_order() {
    let raw = build_psb(&[0x15, 0x01], &["p", "q", "r"]);
    let mut m = PSBStrMan::new(raw.clone());
    assert_eq!(m.import().unwrap(), vec!["p", "q", "r"]);
    assert_eq!(m.script, raw);
}

#[test]
fn str_man_import_of_wrapped_sets_compression() {
    let raw = build_psb(&[], &["only"]);
    let mut m = PSBStrMan::new(wrap_mdf(&raw));
    m.set_compress_package(false);
    assert_eq!(m.import().unwrap(), vec!["only"]);
    assert!(m.compress_package);
    assert_eq!(m.script, raw);
}

#[test]
fn setters_change_flags() {
    let mut m = PSBStrMan::new(vec![]);
    assert!(m.compress_package);
    assert!(!m.force_max_offset_length);
    m.set_compress_package(false);
    m.set_force_max_offset_length(true);
    assert!(!m.compress_package);
    assert!(m.force_max_offset_length);
}

#[test]
fn two_byte_count_and_offsets() {
    let mut raw = build_psb(&[0x15, 0x01], &[]);
    let table_pos = raw.len() - 3;
    raw.truncate(table_pos);
    raw.extend_from_slice(&[0x0E, 0x02, 0x00, 0x0E, 0x00, 0x00, 0x03, 0x00]);
    let data_pos = raw.len() as u32;
    raw.extend_from_slice(b"ab\0cd\0");
    put_u32(&mut raw, 20, data_pos);
    let mut a = PSBAnalyzer::new(raw).unwrap();
    assert_eq!(a.import().unwrap(), vec!["cd", "ab"]);
}

#[test]
fn invalid_size_code_is_rejected() {
    let mut raw = build_psb(&[], &["a"]);
    let table_pos = 40;
    raw[table_pos] = 0x11;
    let mut a = PSBAnalyzer::new(raw).unwrap();
    assert_eq!(a.import().err(), Some(PsbError::InvalidSizeCode));
}

#[test]
fn truncated_header_is_rejected() {
    let mut raw = b"PSB".to_vec();
    raw.resize(39, 0);
    let mut a = PSBAnalyzer::from_raw(raw).unwrap();
    assert_eq!(a.import().err(), Some(PsbError::TruncatedHeader));
}

#[test]
fn string_without_terminator_is_truncated() {
    let mut raw = build_psb(&[], &["abc"]);
    raw.pop();
    let mut a = PSBAnalyzer::new(raw).unwrap();
    assert_eq!(a.import().err(), Some(PsbError::TruncatedStringTable));
}

#[test]
fn offset_table_past_end_is_truncated() {
    let mut raw = build_psb(&[], &[]);
    raw[41] = 5;
    let mut a = PSBAnalyzer::new(raw).unwrap();
    assert_eq!(a.import().err(), Some(PsbError::TruncatedStringTable));
}

#[test]
fn invalid_utf8_is_rejected() {
    let mut raw = build_psb(&[], &["ab"]);
    let n = raw.len();
    raw[n - 2] = 0xFF;
    let mut a = PSBAnalyzer::new(raw).unwrap();
    assert_eq!(a.import().err(), Some(PsbError::InvalidStringEncoding));
}

#[test]
fn truncated_bytecode_is_rejected() {
    // A binary compound ends the region: its first operand is the array
    // opcode that opens the string table, its second would lie past the end.
    let raw = build_psb(&[0x21], &[]);
    let mut a = PSBAnalyzer::new(raw).unwrap();
    assert_eq!(a.import().err(), Some(PsbError::TruncatedBytecode));
}
