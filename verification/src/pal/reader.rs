//! The colour table that frames are drawn with: a palette packed as ARGB
//! words, with the team colour applied to the house-colour entries.
use vstd::prelude::*;
use crate::shp::paint::argb_px;

verus! {

/// The colours that the house-colour entries of a palette can be turned to.
#[derive(Clone, Copy, Debug, PartialEq, Eq, Structural)]
pub enum UnitColor {
    Red,
    Blue,
    Green,
    Yellow,
    Purple,
    LightBlue,
    Orange,
    Gray,
}

/// Clears the alpha byte of an ARGB word.
pub fn del_alpha(color: u32) -> (r: u32)
    ensures
        r == color & 0x00FF_FFFF,
        r == color % 0x0100_0000,
{
    assert(color & 0x00FF_FFFF == color % 0x0100_0000) by (bit_vector);
    color & 0x00FF_FFFF
}

/// Sets the alpha byte of an ARGB word to opaque.
pub fn add_alpha(color: u32) -> (r: u32)
    ensures
        r == color | 0xFF00_0000,
        r % 0x0100_0000 == color % 0x0100_0000,
        r / 0x0100_0000 == 0xFF,
{
    assert((color | 0xFF00_0000) % 0x0100_0000 == color % 0x0100_0000) by (bit_vector);
    assert((color | 0xFF00_0000) / 0x0100_0000 == 0xFF) by (bit_vector);
    color | 0xFF00_0000
}

/// Moves the red byte into the blue byte.
pub fn turn_blue(ori: u32) -> (r: u32)
    ensures
        r == ori >> 16,
        r == ori / 0x1_0000,
{
    assert(ori >> 16 == ori / 0x1_0000) by (bit_vector);
    ori >> 16
}

/// Moves the red byte into the green byte (and the green into the blue).
pub fn turn_green(ori: u32) -> (r: u32)
    ensures
        r == ori >> 8,
        r == ori / 0x100,
{
    assert(ori >> 8 == ori / 0x100) by (bit_vector);
    ori >> 8
}

/// Red plus its copy in the green byte.
pub fn turn_yellow(ori: u32) -> (r: u32)
    ensures
        r == ori | (ori >> 8),
{
    ori | turn_green(ori)
}

/// Red plus its copy in the blue byte.
pub fn turn_purple(ori: u32) -> (r: u32)
    ensures
        r == ori | (ori >> 16),
{
    ori | turn_blue(ori)
}

/// The copies of red in the green and the blue bytes.
pub fn turn_light_blue(ori: u32) -> (r: u32)
    ensures
        r == (ori >> 8) | (ori >> 16),
{
    turn_green(ori) | turn_blue(ori)
}

/// Red plus its copies in the green and the blue bytes.
pub fn turn_gray(ori: u32) -> (r: u32)
    ensures
        r == ori | (ori >> 8) | (ori >> 16),
{
    ori | turn_green(ori) | turn_blue(ori)
}

/// The green part that orange adds: `124 / 255` of the byte above bit 16,
/// rounded down.
pub open spec fn orange_part(ori: u32) -> u32 {
    ((ori >> 16) as int * 124 / 255) as u32
}

/// Red plus `124 / 255` of it in the green byte.
pub fn turn_orange(ori: u32) -> (r: u32)
    ensures
        r == ori | (orange_part(ori) << 8),
{
    let a = ori >> 16;
    assert(a <= 0xFFFF) by (bit_vector)
        requires a == ori >> 16;
    let b = (124 * a) / 255;
    let d = b << 8;
    ori | d
}

/// The colour that `color` turns a house-colour word (alpha cleared) into.
pub open spec fn team_turn(color: UnitColor, da: u32) -> u32 {
    match color {
        UnitColor::Red => da,
        UnitColor::Blue => da >> 16,
        UnitColor::Green => da >> 8,
        UnitColor::Yellow => da | (da >> 8),
        UnitColor::Purple => da | (da >> 16),
        UnitColor::LightBlue => (da >> 8) | (da >> 16),
        UnitColor::Orange => da | (orange_part(da) << 8),
        UnitColor::Gray => da | (da >> 8) | (da >> 16),
    }
}

fn apply_team(color: UnitColor, da: u32) -> (r: u32)
    ensures
        r == team_turn(color, da),
{
    match color {
        UnitColor::Red => da,
        UnitColor::Blue => turn_blue(da),
        UnitColor::Green => turn_green(da),
        UnitColor::Yellow => turn_yellow(da),
        UnitColor::Purple => turn_purple(da),
        UnitColor::LightBlue => turn_light_blue(da),
        UnitColor::Orange => turn_orange(da),
        UnitColor::Gray => turn_gray(da),
    }
}

/// An opaque ARGB word from the three bytes of a palette entry, each
/// multiplied by four (the six-bit channels widened to eight bits).
pub open spec fn packed_entry(r: u8, g: u8, b: u8) -> u32 {
    0xFF00_0000u32 | (((r as int * 4) as u32) << 16) | (((g as int * 4) as u32) << 8) | ((b as int * 4) as u32)
}

/// Entry `i` of the table before the team colour and the transparent
/// entry are applied.
pub open spec fn base_entry(pal: Seq<u8>, i: int) -> u32 {
    packed_entry(pal[3 * i], pal[3 * i + 1], pal[3 * i + 2])
}

/// The entries that take the team colour.
pub open spec fn is_house_entry(i: int) -> bool {
    17 <= i < 32
}

/// The colour table of a palette: entry 0 is transparent (zero); with a
/// team colour, entries 17 to 31 are turned to it and made opaque; every
/// other entry is the packed palette entry.
pub open spec fn color_table(pal: Seq<u8>, team: Option<UnitColor>) -> Seq<u32> {
    Seq::new(256, |i: int|
        if i == 0 {
            0u32
        } else if team is Some && is_house_entry(i) {
            team_turn(team->0, base_entry(pal, i) & 0x00FF_FFFF) | 0xFF00_0000
        } else {
            base_entry(pal, i)
        })
}

/// Builds the colour table from the 768 bytes of a PAL file.
pub fn color_array_from_pal(pal: &[u8; 768], team: Option<UnitColor>) -> (r: [u32; 256])
    ensures
        r@ == color_table(pal@, team),
{
    let mut color_array: [u32; 256] = [0u32; 256];
    for i in 0..256usize
        invariant
            pal@.len() == 768,
            forall|j: int| 0 <= j < i ==> color_array@[j] == base_entry(pal@, j),
    {
        let r: u32 = (pal[i * 3] as u32) * 4;
        let g: u32 = (pal[i * 3 + 1] as u32) * 4;
        let b: u32 = (pal[i * 3 + 2] as u32) * 4;
        color_array[i] = (0xFFu32 << 24) | (r << 16) | (g << 8) | b;
        assert(0xFFu32 << 24 == 0xFF00_0000u32) by (bit_vector);
    }
    if let Some(color) = team {
        for i in 17..32usize
            invariant
                pal@.len() == 768,
                team == Some(color),
                forall|j: int| 0 <= j < 256 && !(17 <= j < i) ==> color_array@[j] == base_entry(pal@, j),
                forall|j: int| 17 <= j < i ==> color_array@[j] == team_turn(color, base_entry(pal@, j) & 0x00FF_FFFF) | 0xFF00_0000,
        {
            let da = del_alpha(color_array[i]);
            let mc = apply_team(color, da);
            color_array[i] = add_alpha(mc);
        }
    }
    color_array[0] = 0;
    assert(color_array@ =~= color_table(pal@, team));
    color_array
}

/// A packed entry unpacks to its channels times four, opaque, when the
/// channels are the six-bit values that PAL files hold.
pub proof fn lemma_packed_entry_channels(r: u8, g: u8, b: u8)
    requires
        r <= 63,
        g <= 63,
        b <= 63,
    ensures
        argb_px(packed_entry(r, g, b)) == ((4 * r) as u8, (4 * g) as u8, (4 * b) as u8, 255u8),
{
    let x = packed_entry(r, g, b);
    let r32 = (r as int * 4) as u32;
    let g32 = (g as int * 4) as u32;
    let b32 = (b as int * 4) as u32;
    assert(x == 0xFF00_0000u32 | (r32 << 16) | (g32 << 8) | b32);
    assert(r32 <= 252 && g32 <= 252 && b32 <= 252);
    assert({
        let y = 0xFF00_0000u32 | (r32 << 16) | (g32 << 8) | b32;
        &&& y / 0x1_0000 % 0x100 == r32
        &&& y / 0x100 % 0x100 == g32
        &&& y % 0x100 == b32
        &&& y / 0x100_0000 % 0x100 == 0xFF
    }) by (bit_vector)
        requires r32 <= 252, g32 <= 252, b32 <= 252;
}

/// The colours a palette of six-bit channels draws with: entry 0 is
/// transparent, and every other entry that the team colour leaves alone is
/// the file's entry widened to eight bits, opaque.
pub proof fn lemma_color_table_channels(pal: Seq<u8>, team: Option<UnitColor>, i: int)
    requires
        pal.len() == 768,
        forall|j: int| 0 <= j < 768 ==> pal[j] <= 63,
        0 <= i < 256,
        !(team is Some && is_house_entry(i)),
    ensures
        i == 0 ==> argb_px(color_table(pal, team)[i]) == (0u8, 0u8, 0u8, 0u8),
        i != 0 ==> argb_px(color_table(pal, team)[i])
            == ((4 * pal[3 * i]) as u8, (4 * pal[3 * i + 1]) as u8, (4 * pal[3 * i + 2]) as u8, 255u8),
{
    if i != 0 {
        lemma_packed_entry_channels(pal[3 * i], pal[3 * i + 1], pal[3 * i + 2]);
    }
}

/// Whatever the team colour, the house-colour entries stay opaque.
pub proof fn lemma_house_entries_opaque(pal: Seq<u8>, color: UnitColor, i: int)
    requires
        pal.len() == 768,
        is_house_entry(i),
    ensures
        argb_px(color_table(pal, Some(color))[i]).3 == 255,
{
    let v = team_turn(color, base_entry(pal, i) & 0x00FF_FFFF);
    assert((v | 0xFF00_0000u32) / 0x100_0000 % 0x100 == 0xFF) by (bit_vector);
}

/// The red team changes nothing: house colours are red to begin with.
pub proof fn lemma_red_team_is_identity(pal: Seq<u8>)
    requires
        pal.len() == 768,
    ensures
        color_table(pal, Some(UnitColor::Red)) == color_table(pal, None),
{
    assert forall|i: int| 0 <= i < 256 implies #[trigger] color_table(pal, Some(UnitColor::Red))[i]
        == color_table(pal, None)[i] by {
        if i != 0 && is_house_entry(i) {
            let r32 = (pal[3 * i] as int * 4) as u32;
            let g32 = (pal[3 * i + 1] as int * 4) as u32;
            let b32 = (pal[3 * i + 2] as int * 4) as u32;
            let x = 0xFF00_0000u32 | (r32 << 16) | (g32 << 8) | b32;
            assert((x & 0x00FF_FFFF) | 0xFF00_0000 == x) by (bit_vector)
                requires x == 0xFF00_0000u32 | (r32 << 16) | (g32 << 8) | b32;
        }
    }
    assert(color_table(pal, Some(UnitColor::Red)) =~= color_table(pal, None));
}

/// The bytes of each team colour turn of the word `da = r:g:b`, with the
/// alpha byte set: red, green and blue of the result.
proof fn lemma_turn_bytes(r8: u8, g8: u8, b8: u8, o8: u8, da: u32)
    by (bit_vector)
    requires
        da == ((r8 as u32) << 16) | ((g8 as u32) << 8) | (b8 as u32),
    ensures
        da >> 16 == r8 as u32,
        (da | 0xFF00_0000u32) / 0x1_0000 % 0x100 == r8 as u32,
        (da | 0xFF00_0000u32) / 0x100 % 0x100 == g8 as u32,
        (da | 0xFF00_0000u32) % 0x100 == b8 as u32,
        ((da >> 16) | 0xFF00_0000u32) / 0x1_0000 % 0x100 == 0,
        ((da >> 16) | 0xFF00_0000u32) / 0x100 % 0x100 == 0,
        ((da >> 16) | 0xFF00_0000u32) % 0x100 == r8 as u32,
        ((da >> 8) | 0xFF00_0000u32) / 0x1_0000 % 0x100 == 0,
        ((da >> 8) | 0xFF00_0000u32) / 0x100 % 0x100 == r8 as u32,
        ((da >> 8) | 0xFF00_0000u32) % 0x100 == g8 as u32,
        ((da | (da >> 8)) | 0xFF00_0000u32) / 0x1_0000 % 0x100 == r8 as u32,
        ((da | (da >> 8)) | 0xFF00_0000u32) / 0x100 % 0x100 == (g8 | r8) as u32,
        ((da | (da >> 8)) | 0xFF00_0000u32) % 0x100 == (b8 | g8) as u32,
        ((da | (da >> 16)) | 0xFF00_0000u32) / 0x1_0000 % 0x100 == r8 as u32,
        ((da | (da >> 16)) | 0xFF00_0000u32) / 0x100 % 0x100 == g8 as u32,
        ((da | (da >> 16)) | 0xFF00_0000u32) % 0x100 == (b8 | r8) as u32,
        (((da >> 8) | (da >> 16)) | 0xFF00_0000u32) / 0x1_0000 % 0x100 == 0,
        (((da >> 8) | (da >> 16)) | 0xFF00_0000u32) / 0x100 % 0x100 == r8 as u32,
        (((da >> 8) | (da >> 16)) | 0xFF00_0000u32) % 0x100 == (g8 | r8) as u32,
        ((da | ((o8 as u32) << 8)) | 0xFF00_0000u32) / 0x1_0000 % 0x100 == r8 as u32,
        ((da | ((o8 as u32) << 8)) | 0xFF00_0000u32) / 0x100 % 0x100 == (g8 | o8) as u32,
        ((da | ((o8 as u32) << 8)) | 0xFF00_0000u32) % 0x100 == b8 as u32,
        ((da | (da >> 8) | (da >> 16)) | 0xFF00_0000u32) / 0x1_0000 % 0x100 == r8 as u32,
        ((da | (da >> 8) | (da >> 16)) | 0xFF00_0000u32) / 0x100 % 0x100 == (g8 | r8) as u32,
        ((da | (da >> 8) | (da >> 16)) | 0xFF00_0000u32) % 0x100 == (b8 | g8 | r8) as u32,
{
}

/// What each team colour does to a house-colour entry, channel by channel.
/// With `r`, `g` and `b` the channels of the file's entry times four (a
/// palette of six-bit channels), the entry is drawn opaque as:
/// red `(r, g, b)`; blue `(0, 0, r)`; green `(0, r, g)`; yellow
/// `(r, g | r, b | g)`; purple `(r, g, b | r)`; light blue `(0, r, g | r)`;
/// orange `(r, g | r * 124 / 255, b)`; gray `(r, g | r, b | g | r)`.
pub proof fn lemma_team_colour_channels(pal: Seq<u8>, c: UnitColor, i: int)
    requires
        pal.len() == 768,
        forall|j: int| 0 <= j < 768 ==> pal[j] <= 63,
        17 <= i < 32,
    ensures
        ({
            let r = (4 * pal[3 * i]) as u8;
            let g = (4 * pal[3 * i + 1]) as u8;
            let b = (4 * pal[3 * i + 2]) as u8;
            let px = argb_px(color_table(pal, Some(c))[i]);
            &&& px.3 == 255
            &&& (px.0, px.1, px.2) == match c {
                UnitColor::Red => (r, g, b),
                UnitColor::Blue => (0u8, 0u8, r),
                UnitColor::Green => (0u8, r, g),
                UnitColor::Yellow => (r, g | r, b | g),
                UnitColor::Purple => (r, g, b | r),
                UnitColor::LightBlue => (0u8, r, g | r),
                UnitColor::Orange => (r, g | ((r as int * 124 / 255) as u8), b),
                UnitColor::Gray => (r, g | r, b | g | r),
            }
        }),
{
    lemma_house_entries_opaque(pal, c, i);
    let r8 = (4 * pal[3 * i]) as u8;
    let g8 = (4 * pal[3 * i + 1]) as u8;
    let b8 = (4 * pal[3 * i + 2]) as u8;
    let r32 = (pal[3 * i] as int * 4) as u32;
    let g32 = (pal[3 * i + 1] as int * 4) as u32;
    let b32 = (pal[3 * i + 2] as int * 4) as u32;
    assert(pal[3 * i] <= 63 && pal[3 * i + 1] <= 63 && pal[3 * i + 2] <= 63);
    assert(r32 == r8 as u32 && g32 == g8 as u32 && b32 == b8 as u32);
    let base = base_entry(pal, i);
    assert(base == 0xFF00_0000u32 | (r32 << 16) | (g32 << 8) | b32);
    let da = ((r8 as u32) << 16) | ((g8 as u32) << 8) | (b8 as u32);
    assert(base & 0x00FF_FFFF == da) by (bit_vector)
        requires
            base == 0xFF00_0000u32 | (r32 << 16) | (g32 << 8) | b32,
            r32 == r8 as u32,
            g32 == g8 as u32,
            b32 == b8 as u32,
            da == ((r8 as u32) << 16) | ((g8 as u32) << 8) | (b8 as u32);
    let o8 = (r8 as int * 124 / 255) as u8;
    lemma_turn_bytes(r8, g8, b8, o8, da);
    assert(orange_part(da) == o8 as u32);
    assert(color_table(pal, Some(c))[i] == team_turn(c, da) | 0xFF00_0000);
}

} // verus!
