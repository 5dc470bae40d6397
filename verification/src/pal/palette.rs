//! A palette of 256 colours, decoded from the bytes of a PAL file.
use vstd::prelude::*;
use crate::errors::Ra2Error;
use super::pal_color::PalColor;

verus! {

pub struct Palette {
    /// The 256 colors in palette
    pub colors: [PalColor; 256],
}

/// The size of a PAL file: 256 entries of three bytes.
pub open spec fn pal_len() -> nat {
    768
}

/// Entry `i` of a PAL file: its three bytes, red first.
pub open spec fn pal_entry(bytes: Seq<u8>, i: int) -> PalColor {
    PalColor { red: bytes[3 * i], green: bytes[3 * i + 1], blue: bytes[3 * i + 2] }
}

/// The 256 entries that a PAL file holds.
pub open spec fn palette_from_bytes(bytes: Seq<u8>) -> Seq<PalColor> {
    Seq::new(256, |i: int| pal_entry(bytes, i))
}

/// The message of the error that a PAL file of the wrong size gives.
pub open spec fn wrong_size_message() -> Seq<char> {
    "The byte array length is incorrect; the PAL file should be 256 * 3 bytes."@
}

impl Palette {
    /// The colour at `index`; every `u8` indexes one of the 256 entries, so
    /// this never fails.
    pub fn get_color(&self, index: u8) -> (r: Result<PalColor, Ra2Error>)
        ensures
            r matches Ok(c) && c == self.colors@[index as int],
    {
        let i = index as usize;
        if i < 256 {
            Ok(self.colors[i])
        } else {
            Err(Ra2Error::InvalidFormat { message: "Out of range.".to_string() })
        }
    }

    /// Decodes the bytes of a PAL file: 256 entries of three bytes each.
    /// Any other length is refused with an `InvalidFormat` error.
    pub fn decode(bytes: &[u8]) -> (r: Result<Self, Ra2Error>)
        ensures
            bytes@.len() != pal_len() <==> r is Err,
            r matches Err(e) ==> (e matches Ra2Error::InvalidFormat { message } && message@ == wrong_size_message()),
            r matches Ok(p) ==> p.colors@ == palette_from_bytes(bytes@),
    {
        broadcast use vstd::string::to_string_from_display_ensures_for_str;
        if bytes.len() != 256 * 3 {
            return Err(Ra2Error::InvalidFormat {
                message: "The byte array length is incorrect; the PAL file should be 256 * 3 bytes.".to_string(),
            });
        }
        let mut colors: [PalColor; 256] = [PalColor { red: 0, green: 0, blue: 0 }; 256];
        for i in 0..256usize
            invariant
                bytes@.len() == 768,
                forall|j: int| 0 <= j < i ==> colors@[j] == pal_entry(bytes@, j),
        {
            colors[i] = PalColor { red: bytes[i * 3], green: bytes[i * 3 + 1], blue: bytes[i * 3 + 2] };
        }
        assert(colors@ =~= palette_from_bytes(bytes@));
        Ok(Palette { colors })
    }
}

/// What `get_color` gives back of a decoded palette: entry `i` of the
/// palette holds bytes `3 i`, `3 i + 1` and `3 i + 2` of the file.
pub proof fn lemma_decoded_color(p: Palette, bytes: Seq<u8>, i: u8)
    requires
        bytes.len() == pal_len(),
        p.colors@ == palette_from_bytes(bytes),
    ensures
        p.colors@[i as int] == (PalColor { red: bytes[3 * i], green: bytes[3 * i + 1], blue: bytes[3 * i + 2] }),
{
}

} // verus!
