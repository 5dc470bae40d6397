//! The file header of an SHP file, read with `byteorder`.
use byteorder::ByteOrder;
use vstd::prelude::*;
use crate::errors::{unexpected_eof, Ra2Error};

verus! {

pub struct ShpHeader {
    //Unused reserved header.
    pub _reserved: u16,
    //The animation width.
    pub width: u16,
    //The animation height.
    pub height: u16,
    //The animation frames.
    pub number_of_frames: u16,
}

/// The little-endian `u16` at `at`.
pub open spec fn le_u16_at(s: Seq<u8>, at: int) -> u16 {
    (s[at] as int + 256 * s[at + 1] as int) as u16
}

/// The file header that the first 8 bytes hold: four little-endian `u16`
/// values, the first reserved.
pub open spec fn shp_file_header_of(s: Seq<u8>) -> ShpHeader {
    ShpHeader {
        _reserved: le_u16_at(s, 0),
        width: le_u16_at(s, 2),
        height: le_u16_at(s, 4),
        number_of_frames: le_u16_at(s, 6),
    }
}

/// `<LittleEndian as ByteOrder>::read_u16`: the first two bytes of `buf`,
/// low byte first. It panics on fewer than two bytes, which `requires`
/// rules out.
#[verifier::external_body]
fn read_u16_le(buf: &[u8]) -> (r: u16)
    requires
        buf@.len() >= 2,
    ensures
        r == le_u16_at(buf@, 0),
{
    byteorder::LittleEndian::read_u16(buf)
}

/// Reads the 8-byte file header: four little-endian `u16` values. A file
/// shorter than 8 bytes gives an I/O error, as a read past its end does.
pub fn read_shp_header(bytes: &[u8]) -> (r: Result<ShpHeader, Ra2Error>)
    ensures
        r is Err <==> bytes@.len() < 8,
        r matches Err(e) ==> e is Io,
        r matches Ok(h) ==> h == shp_file_header_of(bytes@),
{
    if bytes.len() < 8 {
        return Err(Ra2Error::Io(unexpected_eof()));
    }
    let reserved = read_u16_le(&bytes[0..2]);
    let width = read_u16_le(&bytes[2..4]);
    let height = read_u16_le(&bytes[4..6]);
    let number_of_frames = read_u16_le(&bytes[6..8]);
    Ok(ShpHeader { _reserved: reserved, width, height, number_of_frames })
}

impl ShpHeader {
    /// How many frames are turned into images: half of them when the second
    /// half holds shadows that are left out, else all.
    pub fn frames_to_decode(&self, is_half: bool) -> (r: u16)
        ensures
            r == if is_half { self.number_of_frames / 2 } else { self.number_of_frames },
    {
        if is_half {
            self.number_of_frames / 2
        } else {
            self.number_of_frames
        }
    }
}

} // verus!
