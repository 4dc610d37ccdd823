//! The outer container: a raw PSB, or a zlib stream wrapped behind an `mdf`
//! prefix of eight bytes.
use vstd::prelude::*;
use crate::bytes::field_u32;
use crate::str_man::PSBStrMan;
use crate::error::PsbError;

verus! {

/// The magic of the wrapped form, "mdf" read as a little-endian field.
pub const MDF_MAGIC: u32 = 0x66646D;

/// The magic of the raw form, "PSB" read as a little-endian field.
pub const PSB_MAGIC: u32 = 0x425350;

/// Length of the prefix before the zlib stream of the wrapped form.
pub const MDF_PREFIX_LEN: usize = 8;

/// The form of a container, as its first three bytes give it.
#[derive(Debug, Clone, Copy, PartialEq, Eq, Structural)]
pub enum PackageStatus {
    MDF,
    PSB,
    Invalid,
}

/// The form that the first three bytes of `s` give.
pub open spec fn package_status(s: Seq<u8>) -> PackageStatus {
    let m = field_u32(s, 0, 3);
    if m == MDF_MAGIC as nat {
        PackageStatus::MDF
    } else if m == PSB_MAGIC as nat {
        PackageStatus::PSB
    } else {
        PackageStatus::Invalid
    }
}

/// The zlib stream of a wrapped container: all that follows its prefix.
pub open spec fn mdf_payload(s: Seq<u8>) -> Seq<u8> {
    if s.len() <= MDF_PREFIX_LEN { seq![] } else { s.subrange(MDF_PREFIX_LEN as int, s.len() as int) }
}

/// What a complete zlib stream decompresses to; none where `data` does not
/// begin with a complete, valid zlib stream.
pub uninterp spec fn zlib_inflated(data: Seq<u8>) -> Option<Seq<u8>>;

/// Relies on flate2's `read::ZlibDecoder` read to its end: the decompressed
/// bytes of the zlib stream, or an error where the stream is invalid or cut
/// short. Both depend on the input bytes alone.
#[verifier::external_body]
pub(crate) fn inflate_zlib(data: &[u8]) -> (r: Option<Vec<u8>>)
    ensures
        match r {
            Some(v) => zlib_inflated(data@) == Some(v@),
            None => zlib_inflated(data@) is None,
        },
{
    let mut out: Vec<u8> = Vec::new();
    let mut decoder = flate2::read::ZlibDecoder::new(data);
    match std::io::Read::read_to_end(&mut decoder, &mut out) {
        Ok(_) => Some(out),
        Err(_) => None,
    }
}

/// The raw container that `s` holds: `s` itself in the raw form, the
/// decompressed payload in the wrapped form, and `InvalidPackage` where the
/// magic is neither, before or after decompression.
pub open spec fn raw_container(s: Seq<u8>) -> Result<Seq<u8>, PsbError> {
    match package_status(s) {
        PackageStatus::PSB => Ok(s),
        PackageStatus::MDF => match zlib_inflated(mdf_payload(s)) {
            None => Err(PsbError::InvalidCompressedData),
            Some(raw) => if package_status(raw) == PackageStatus::PSB {
                Ok(raw)
            } else {
                Err(PsbError::InvalidPackage)
            },
        },
        PackageStatus::Invalid => Err(PsbError::InvalidPackage),
    }
}

/// Strips the wrapping of a container, if it has one, and checks that what
/// remains is a raw container.
pub fn unwrap_container(script: Vec<u8>) -> (r: Result<Vec<u8>, PsbError>)
    ensures
        match r {
            Ok(v) => raw_container(script@) == Ok::<Seq<u8>, PsbError>(v@),
            Err(e) => raw_container(script@) == Err::<Seq<u8>, PsbError>(e),
        },
{
    let status = PSBStrMan::get_package_status(script.clone());
    if status == PackageStatus::PSB {
        return Ok(script);
    }
    if status == PackageStatus::Invalid {
        return Err(PsbError::InvalidPackage);
    }
    let raw = match PSBStrMan::extract_mdf(script) {
        Ok(raw) => raw,
        Err(e) => return Err(e),
    };
    if PSBStrMan::get_package_status(raw.clone()) != PackageStatus::PSB {
        return Err(PsbError::InvalidPackage);
    }
    Ok(raw)
}

} // verus!
