use vstd::prelude::*;

use crate::error::Error;

verus! {

/// The fixed PES file header: the four version characters and the offset of
/// the PEC section.
#[derive(Debug)]
pub struct PesHeader {
    pub version: [u8; 4],
    pub pec_offset: u32,
}

/// The bytes `#PES` that open every PES file.
pub open spec fn pes_magic() -> Seq<u8> {
    seq![0x23u8, 0x50u8, 0x45u8, 0x53u8]
}

/// The PES header of `data`, or the error: too short under 12 bytes, a wrong
/// magic, else the version bytes 4..8 and the little-endian PEC offset in
/// bytes 8..12.
pub open spec fn pes_header_spec(data: Seq<u8>) -> Result<PesHeader, Error> {
    if data.len() < 12 {
        Err(Error::TooShort { expected: 12, actual: data.len() as usize })
    } else if data.subrange(0, 4) != pes_magic() {
        Err(Error::InvalidMagic([data[0], data[1], data[2], data[3]]))
    } else {
        Ok(
            PesHeader {
                version: [data[4], data[5], data[6], data[7]],
                pec_offset: crate::bytes::le_u32(data[8], data[9], data[10], data[11]) as u32,
            },
        )
    }
}

/// Parse the 12-byte PES file header.
pub fn parse_header(data: &[u8]) -> (r: Result<PesHeader, Error>)
    ensures
        r == pes_header_spec(data@),
{
    if data.len() < 12 {
        return Err(Error::TooShort { expected: 12, actual: data.len() });
    }
    if !(data[0] == 0x23 && data[1] == 0x50 && data[2] == 0x45 && data[3] == 0x53) {
        proof {
            if data@.subrange(0, 4) == pes_magic() {
                assert(data@.subrange(0, 4)[1] == data@[1]);
            }
        }
        return Err(Error::InvalidMagic([data[0], data[1], data[2], data[3]]));
    }
    assert(data@.subrange(0, 4) =~= pes_magic());
    let version = [data[4], data[5], data[6], data[7]];
    let pec_offset: u32 = data[8] as u32 + data[9] as u32 * 256 + data[10] as u32 * 65536
        + data[11] as u32 * 16777216;
    Ok(PesHeader { version, pec_offset })
}

} // verus!
