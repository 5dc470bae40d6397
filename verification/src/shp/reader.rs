//! Decoding the frames of an SHP file.
//!
//! The file is read front to back as a stream: an 8-byte header, one 24-byte
//! header per frame, then the data of the frames one after the other, each
//! padded to a multiple of 8 bytes from the start of the file.
use vstd::prelude::*;
use crate::errors::unexpected_eof;
use crate::pixels::{blank, frame_image_view, img_height, img_pixels, img_width, FrameImage, Px};
use super::enums::scene_type::{scene_pal_prefix, SceneType};
use super::paint::{
    argb_px, draw_pixel_row, lemma_last_row_wins, row_points, lemma_paint_rows_len, lemma_pixel_index,
    lemma_rows_points_inside, paint_rows, points_view, row_covers, row_fits, rows_fit, rows_points,
};
use super::rows::{
    frame_rows, lemma_frame_rows_descend, lemma_rows_type01_complete, rows_read, read_le_u16, read_le_u32, read_rows_type01,
    read_rows_type03, le_u32_at, rows_type01, rows_view, RowDraw, RowSpec, bytes_at,
};
use super::shp_header::{le_u16_at, shp_file_header_of};
use super::types::{ColorPoint, FrameHeader, ShapeUnitFrame, ShpHeader};

verus! {

// ---------------------------------------------------------------------------
// Headers

/// `pos` moved up to the next multiple of 8.
pub open spec fn align8(pos: int) -> int {
    if pos % 8 == 0 { pos } else { pos + (8 - pos % 8) }
}

/// The 8-byte file header: width, height and frame count at offsets 2, 4
/// and 6 (the first two bytes are reserved).
pub open spec fn header_of(s: Seq<u8>) -> ShpHeader {
    ShpHeader { width: le_u16_at(s, 2), height: le_u16_at(s, 4), frames: le_u16_at(s, 6) }
}

/// Reads the file header. A file shorter than 8 bytes gives an I/O error.
pub fn parse_header(bytes: &[u8]) -> (r: Result<ShpHeader, std::io::Error>)
    ensures
        r is Err <==> bytes@.len() < 8,
        r matches Ok(h) ==> h == header_of(bytes@),
{
    if bytes.len() < 8 {
        return Err(unexpected_eof());
    }
    Ok(ShpHeader {
        width: read_le_u16(bytes, 2),
        height: read_le_u16(bytes, 4),
        frames: read_le_u16(bytes, 6),
    })
}

/// The two readers of the file header agree: on a file of at least 8
/// bytes, the header that `parse_header` gives (`header_of`) and the one that
/// `read_shp_header` gives (`shp_file_header_of`) hold the same width, height
/// and frame count.
pub proof fn lemma_header_readers_agree(s: Seq<u8>)
    requires
        s.len() >= 8,
    ensures
        header_of(s).width == shp_file_header_of(s).width,
        header_of(s).height == shp_file_header_of(s).height,
        header_of(s).frames == shp_file_header_of(s).number_of_frames,
{
}

/// Where the header of frame `k` starts: after the file header, 24 bytes each.
pub open spec fn frame_header_offset(k: int) -> int {
    8 + 24 * k
}

/// The 24-byte frame header at `at`: four `u16` values (position and size of
/// the drawn part), the frame type, and at byte 20 the data offset.
pub open spec fn frame_header_at(s: Seq<u8>, at: int) -> FrameHeader {
    FrameHeader {
        min_x: le_u16_at(s, at),
        min_y: le_u16_at(s, at + 2),
        width: le_u16_at(s, at + 4),
        height: le_u16_at(s, at + 6),
        frame_type: le_u32_at(s, at + 8),
        data_offset: le_u32_at(s, at + 20),
    }
}

/// The headers of the first `n` frames.
pub open spec fn frame_headers(s: Seq<u8>, n: nat) -> Seq<FrameHeader> {
    Seq::new(n, |k: int| frame_header_at(s, frame_header_offset(k)))
}

/// Reads the headers of `frame` frames, which follow the file header. A
/// file too short to hold them all gives an I/O error.
pub fn parse_all_frame_header(bytes: &[u8], frame: u16) -> (r: Result<Vec<FrameHeader>, std::io::Error>)
    ensures
        r is Err <==> (frame > 0 && bytes@.len() < frame_header_offset(frame as int)),
        r matches Ok(v) ==> v@ == frame_headers(bytes@, frame as nat),
{
    let mut list: Vec<FrameHeader> = Vec::new();
    let mut k: usize = 0;
    while k < frame as usize
        invariant
            k <= frame,
            list@ == frame_headers(bytes@, k as nat),
            k > 0 ==> bytes@.len() >= frame_header_offset(k as int),
        decreases frame - k,
    {
        let at = 8 + 24 * k;
        if bytes.len() < at + 24 {
            return Err(unexpected_eof());
        }
        let header = FrameHeader {
            min_x: read_le_u16(bytes, at),
            min_y: read_le_u16(bytes, at + 2),
            width: read_le_u16(bytes, at + 4),
            height: read_le_u16(bytes, at + 6),
            frame_type: read_le_u32(bytes, at + 8),
            data_offset: read_le_u32(bytes, at + 20),
        };
        list.push(header);
        k = k + 1;
        assert(list@ =~= frame_headers(bytes@, k as nat));
    }
    Ok(list)
}

/// How many frames are decoded: all of them with shadows; a single frame
/// alone; half of them (the shadows left out) when `half` is set.
pub open spec fn read_size_of(frame_size: int, is_use_shadow: bool, half: bool) -> int {
    if is_use_shadow {
        frame_size
    } else if frame_size == 1 {
        1
    } else if half {
        frame_size / 2
    } else {
        frame_size
    }
}

pub fn decide_read_size(frame_header: &mut Vec<FrameHeader>, is_use_shadow: bool, half: bool) -> (r: usize)
    ensures
        r == read_size_of(old(frame_header)@.len() as int, is_use_shadow, half),
        r <= old(frame_header)@.len(),
        final(frame_header)@ == old(frame_header)@,
{
    let frame_size = frame_header.len();
    if is_use_shadow {
        frame_size
    } else if frame_size == 1 {
        1
    } else if half {
        frame_size / 2
    } else {
        frame_size
    }
}

// ---------------------------------------------------------------------------
// Frames

/// Whether two strings hold the same characters.
pub(crate) fn str_eq(a: &str, b: &str) -> (r: bool)
    ensures
        r == (a@ == b@),
{
    let n = a.unicode_len();
    if n != b.unicode_len() {
        return false;
    }
    let mut i: usize = 0;
    while i < n
        invariant
            n == a@.len(),
            n == b@.len(),
            i <= n,
            forall|j: int| 0 <= j < i ==> a@[j] == b@[j],
        decreases n - i,
    {
        if a.get_char(i) != b.get_char(i) {
            return false;
        }
        i = i + 1;
    }
    assert(a@ =~= b@);
    true
}

/// The unit palettes: those of the theatres that units fight in, whose
/// house-colour pixels are recorded.
pub open spec fn is_unit_palette(p: Seq<char>) -> bool {
    p == "unitsno"@ || p == "unittem"@ || p == "uniturb"@
}

/// A frame as decoding gives it: the canvas, the bounds of the drawn part,
/// and the recorded house-colour pixels.
pub struct SpecFrame {
    pub width: u32,
    pub height: u32,
    pub pixels: Seq<Px>,
    pub min_x: int,
    pub min_y: int,
    pub max_x: int,
    pub max_y: int,
    pub real_part_width: int,
    pub real_part_height: int,
    pub color_points: Option<Seq<ColorPoint>>,
}

/// A decoded frame is what the spec says it is.
pub open spec fn frame_is(f: ShapeUnitFrame, g: SpecFrame) -> bool {
    &&& frame_image_view(f.image) == (g.width, g.height, g.pixels)
    &&& f.min_x == g.min_x
    &&& f.min_y == g.min_y
    &&& f.max_x == g.max_x
    &&& f.max_y == g.max_y
    &&& f.real_part_width == g.real_part_width
    &&& f.real_part_height == g.real_part_height
    &&& points_view(f.color_points) == g.color_points
}

/// A `w` x `h` RGBA canvas fits in memory: the byte count of a row fits
/// `usize`, and that of the whole canvas fits `isize`, the most that a
/// buffer can hold.
pub open spec fn canvas_fits(w: int, h: int) -> bool {
    4 * w <= usize::MAX && 4 * w * h <= isize::MAX
}

/// The last column and row of the drawn part can be computed: the part does
/// not sit at 0 with size 0 (which would make `min + size - 1` negative).
pub open spec fn part_bounds_valid(fh: FrameHeader) -> bool {
    fh.min_x as int + fh.width as int >= 1 && fh.min_y as int + fh.height as int >= 1
}

/// A blank `w` x `h` canvas.
pub open spec fn blank_canvas(w: int, h: int) -> Seq<Px> {
    Seq::new((w * h) as nat, |i: int| blank())
}

/// The frame with header `fh` whose data starts at `pos`, on the canvas of
/// the file header `hdr`, and the position the stream ends at; `None` when
/// the frame cannot be decoded without indexing out of range: a canvas too
/// large, part bounds that cannot be computed, a malformed row, or a row
/// that falls outside the canvas.
pub open spec fn decode_frame_spec(
    s: Seq<u8>,
    pos: int,
    hdr: ShpHeader,
    fh: FrameHeader,
    unit: bool,
    ca: Seq<u32>,
) -> Option<(SpecFrame, int)> {
    let w = hdr.width as int;
    let h = hdr.height as int;
    if !canvas_fits(w, h) || !part_bounds_valid(fh) {
        None
    } else {
        match frame_rows(s, pos, fh) {
            None => None,
            Some(r) => if !rows_fit(r.0, w, h) {
                None
            } else {
                Some((SpecFrame {
                    width: hdr.width as u32,
                    height: hdr.height as u32,
                    pixels: paint_rows(blank_canvas(w, h), w, ca, r.0),
                    min_x: fh.min_x as int,
                    min_y: fh.min_y as int,
                    max_x: fh.min_x as int + fh.width as int - 1,
                    max_y: fh.min_y as int + fh.height as int - 1,
                    real_part_width: fh.width as int,
                    real_part_height: fh.height as int,
                    color_points: if unit { Some(rows_points(r.0)) } else { None },
                }, r.1))
            },
        }
    }
}

/// A frame on the canvas `target_image`, with the bounds of the header's
/// drawn part and no house-colour pixels recorded; also the frame type.
pub fn build_shape_unit_frame(head: &FrameHeader, target_image: FrameImage) -> (r: (ShapeUnitFrame, u32))
    requires
        part_bounds_valid(*head),
    ensures
        r.0.image == target_image,
        r.0.min_x == head.min_x,
        r.0.min_y == head.min_y,
        r.0.max_x == head.min_x as int + head.width as int - 1,
        r.0.max_y == head.min_y as int + head.height as int - 1,
        r.0.real_part_width == head.width,
        r.0.real_part_height == head.height,
        r.0.color_points is None,
        r.1 == head.frame_type,
{
    let min_x = head.min_x as usize;
    let min_y = head.min_y as usize;
    let max_x = min_x + head.width as usize - 1;
    let max_y = min_y + head.height as usize - 1;
    let real_part_width = head.width as usize;
    let real_part_height = head.height as usize;
    let frame_type = head.frame_type;
    (
        ShapeUnitFrame {
            image: target_image,
            min_x,
            min_y,
            max_x,
            max_y,
            real_part_width,
            real_part_height,
            color_points: None,
        },
        frame_type,
    )
}

/// Starts recording house-colour pixels (with an empty list) when the
/// palette is a unit palette; says whether it did.
pub fn enable_unit_color(pal_prefix: &str, shape_unit_frame: &mut ShapeUnitFrame) -> (r: bool)
    ensures
        r == is_unit_palette(pal_prefix@),
        points_view(final(shape_unit_frame).color_points)
            == if r { Some(Seq::<ColorPoint>::empty()) } else { points_view(old(shape_unit_frame).color_points) },
        final(shape_unit_frame).image == old(shape_unit_frame).image,
        final(shape_unit_frame).min_x == old(shape_unit_frame).min_x,
        final(shape_unit_frame).min_y == old(shape_unit_frame).min_y,
        final(shape_unit_frame).max_x == old(shape_unit_frame).max_x,
        final(shape_unit_frame).max_y == old(shape_unit_frame).max_y,
        final(shape_unit_frame).real_part_width == old(shape_unit_frame).real_part_width,
        final(shape_unit_frame).real_part_height == old(shape_unit_frame).real_part_height,
{
    if str_eq(SceneType::Snow.info().pal_prefix, pal_prefix) || str_eq(SceneType::Tem.info().pal_prefix, pal_prefix)
        || str_eq(SceneType::Urban.info().pal_prefix, pal_prefix) {
        shape_unit_frame.color_points = Some(Vec::new());
        assert(points_view(shape_unit_frame.color_points) == Some(Seq::<ColorPoint>::empty()));
        true
    } else {
        false
    }
}

/// Where drawing starts: column 0 and the top row of the drawn part; `None`
/// for a frame without size.
pub fn init_draw_position(frame_header: &FrameHeader, shape_unit_frame: &ShapeUnitFrame) -> (r: Option<(usize, usize)>)
    ensures
        r is None <==> (shape_unit_frame.real_part_width == 0 && shape_unit_frame.real_part_height == 0),
        r matches Some(p) ==> p == (0usize, frame_header.min_y as usize),
{
    let cur_x: usize = 0;
    let cur_y = frame_header.min_y as usize;
    if shape_unit_frame.real_part_width == 0 && shape_unit_frame.real_part_height == 0 {
        None
    } else {
        Some((cur_x, cur_y))
    }
}

/// Whether every row lies inside a `w` x `h` canvas.
fn all_rows_fit(rows: &Vec<RowDraw>, w: usize, h: usize) -> (r: bool)
    ensures
        r == rows_fit(rows_view(rows@), w as int, h as int),
{
    let n = rows.len();
    let mut k: usize = 0;
    while k < n
        invariant
            k <= n,
            n == rows@.len(),
            forall|j: int| 0 <= j < k ==> row_fits(#[trigger] rows_view(rows@)[j], w as int, h as int),
        decreases n - k,
    {
        let row = &rows[k];
        let len = row.indices.len();
        if !(len == 0 || (row.y < h && row.x <= w && len <= w - row.x)) {
            assert(!row_fits(rows_view(rows@)[k as int], w as int, h as int));
            return false;
        }
        k = k + 1;
    }
    true
}

/// Draws the rows of a frame on its canvas in order, with the colours of
/// `color_array`, recording house-colour pixels when `is_use_unit_color` is
/// set and a list of them is kept.
pub fn draw_frame_rows(
    rows: &Vec<RowDraw>,
    shape_unit_frame: &mut ShapeUnitFrame,
    color_array: &[u32; 256],
    is_use_unit_color: bool,
)
    requires
        rows_fit(rows_view(rows@), img_width(old(shape_unit_frame).image) as int,
            img_height(old(shape_unit_frame).image) as int),
        img_pixels(old(shape_unit_frame).image).len()
            == img_width(old(shape_unit_frame).image) as int * img_height(old(shape_unit_frame).image) as int,
    ensures
        frame_image_view(final(shape_unit_frame).image) == (
            img_width(old(shape_unit_frame).image),
            img_height(old(shape_unit_frame).image),
            paint_rows(img_pixels(old(shape_unit_frame).image), img_width(old(shape_unit_frame).image) as int,
                color_array@, rows_view(rows@)),
        ),
        points_view(final(shape_unit_frame).color_points) == match points_view(old(shape_unit_frame).color_points) {
            Some(l) => if is_use_unit_color { Some(l + rows_points(rows_view(rows@))) } else { Some(l) },
            None => None,
        },
        final(shape_unit_frame).min_x == old(shape_unit_frame).min_x,
        final(shape_unit_frame).min_y == old(shape_unit_frame).min_y,
        final(shape_unit_frame).max_x == old(shape_unit_frame).max_x,
        final(shape_unit_frame).max_y == old(shape_unit_frame).max_y,
        final(shape_unit_frame).real_part_width == old(shape_unit_frame).real_part_width,
        final(shape_unit_frame).real_part_height == old(shape_unit_frame).real_part_height,
{
    let ghost w = img_width(old(shape_unit_frame).image) as int;
    let ghost h = img_height(old(shape_unit_frame).image) as int;
    let ghost px0 = img_pixels(old(shape_unit_frame).image);
    let ghost cp0 = points_view(old(shape_unit_frame).color_points);
    let ghost ca = color_array@;
    let ghost rv = rows_view(rows@);
    let n = rows.len();
    let mut j: usize = 0;
    assert(rv.take(0) =~= Seq::<RowSpec>::empty());
    assert(cp0 matches Some(l) ==> l + rows_points(rv.take(0)) =~= l);
    while j < n
        invariant
            j <= n,
            n == rows@.len(),
            rv == rows_view(rows@),
            rows_fit(rv, w, h),
            px0.len() == w * h,
            w == img_width(old(shape_unit_frame).image) as int,
            h == img_height(old(shape_unit_frame).image) as int,
            frame_image_view(shape_unit_frame.image) == (w as u32, h as u32, paint_rows(px0, w, ca, rv.take(j as int))),
            points_view(shape_unit_frame.color_points) == match cp0 {
                Some(l) => if is_use_unit_color { Some(l + rows_points(rv.take(j as int))) } else { Some(l) },
                None => None,
            },
            ca == color_array@,
            shape_unit_frame.min_x == old(shape_unit_frame).min_x,
            shape_unit_frame.min_y == old(shape_unit_frame).min_y,
            shape_unit_frame.max_x == old(shape_unit_frame).max_x,
            shape_unit_frame.max_y == old(shape_unit_frame).max_y,
            shape_unit_frame.real_part_width == old(shape_unit_frame).real_part_width,
            shape_unit_frame.real_part_height == old(shape_unit_frame).real_part_height,
        decreases n - j,
    {
        assert(rv.take(j + 1).drop_last() =~= rv.take(j as int));
        assert(rv.take(j + 1).last() == rv[j as int]);
        assert(row_fits(rv[j as int], w, h));
        proof { lemma_paint_rows_len(px0, w, ca, rv.take(j as int)); }
        draw_pixel_row(&rows[j], shape_unit_frame, color_array, is_use_unit_color);
        proof {
            match cp0 {
                Some(l) => {
                    if is_use_unit_color {
                        assert(l + rows_points(rv.take(j + 1)) =~= (l + rows_points(rv.take(j as int)))
                            + row_points(rv[j as int], rv[j as int].idx.len()));
                    }
                },
                None => {},
            }
        }
        j = j + 1;
    }
    assert(rv.take(n as int) =~= rv);
}

/// Decodes one frame whose data starts at `pos`: its canvas, its rows drawn
/// on it, and the position the stream ends at; `None` exactly when
/// `decode_frame_spec` says the frame cannot be decoded.
pub fn decode_frame(
    bytes: &[u8],
    pos: usize,
    header: &ShpHeader,
    head: &FrameHeader,
    pal_prefix: &str,
    color_array: &[u32; 256],
) -> (r: Option<(ShapeUnitFrame, usize)>)
    ensures
        r is None <==> decode_frame_spec(bytes@, pos as int, *header, *head, is_unit_palette(pal_prefix@), color_array@) is None,
        r matches Some(v) ==> {
            let g = decode_frame_spec(bytes@, pos as int, *header, *head, is_unit_palette(pal_prefix@), color_array@)->0;
            &&& frame_is(v.0, g.0)
            &&& v.1 == g.1
            &&& (v.1 <= pos || v.1 <= bytes@.len())
        },
{
    let w = header.width as usize;
    let h = header.height as usize;
    let w64 = header.width as u64;
    let h64 = header.height as u64;
    assert(w64 * h64 <= 0xFFFF * 0xFFFF) by (nonlinear_arith)
        requires w64 <= 0xFFFF, h64 <= 0xFFFF;
    assert(w64 * h64 * 4 == 4 * (w as int) * (h as int)) by (nonlinear_arith)
        requires w64 == w, h64 == h;
    if !(w64 * h64 * 4 <= isize::MAX as u64) {
        return None;
    }
    assert(4 * (w as int) <= usize::MAX) by {
        assert(usize::MAX >= 0xFFFF_FFFF);
    }
    if !(head.min_x as usize + head.width as usize >= 1 && head.min_y as usize + head.height as usize >= 1) {
        return None;
    }
    let target_image = FrameImage::new(header.width as u32, header.height as u32);
    let (mut shape_unit_frame, frame_type) = build_shape_unit_frame(head, target_image);
    let is_use_unit_color = enable_unit_color(pal_prefix, &mut shape_unit_frame);
    let (rows, end) = match init_draw_position(head, &shape_unit_frame) {
        None => (Vec::new(), pos),
        Some(_) => {
            // A frame whose data runs out keeps the rows read before; the
            // error that says so is not needed here.
            if frame_type == 0 || frame_type == 1 {
                let (rows, end, _ran_out) = read_rows_type01(bytes, pos, head);
                (rows, end)
            } else {
                match read_rows_type03(bytes, pos, head) {
                    Some((rows, end, _ran_out)) => (rows, end),
                    None => return None,
                }
            }
        },
    };
    assert(frame_rows(bytes@, pos as int, *head) == Some((rows_view(rows@), end as int)));
    if !all_rows_fit(&rows, w, h) {
        return None;
    }
    assert(blank_canvas(w as int, h as int).len() == w as int * h as int) by {
        assert((w as int * h as int) as nat == w as int * h as int) by (nonlinear_arith)
            requires 0 <= w, 0 <= h;
    }
    draw_frame_rows(&rows, &mut shape_unit_frame, color_array, is_use_unit_color);
    assert(Seq::<ColorPoint>::empty() + rows_points(rows_view(rows@)) =~= rows_points(rows_view(rows@)));
    Some((shape_unit_frame, end))
}

// ---------------------------------------------------------------------------
// Files

/// Frames `i` up to `n` (exclusive), the first with data at `pos`, each
/// following one starting at the next multiple of 8 after the previous;
/// `None` when one of them cannot be decoded.
pub open spec fn decode_frames_spec(
    s: Seq<u8>,
    pos: int,
    hdr: ShpHeader,
    heads: Seq<FrameHeader>,
    i: int,
    n: int,
    unit: bool,
    ca: Seq<u32>,
) -> Option<Seq<SpecFrame>>
    decreases n - i,
{
    if i >= n {
        Some(Seq::empty())
    } else {
        match decode_frame_spec(s, pos, hdr, heads[i], unit, ca) {
            None => None,
            Some(fr) => match decode_frames_spec(s, align8(fr.1), hdr, heads, i + 1, n, unit, ca) {
                None => None,
                Some(rest) => Some(seq![fr.0] + rest),
            },
        }
    }
}

/// Where the stream stands after frames `i` up to `n` (exclusive), the first
/// with data at `pos`: after each frame it moves up to the next multiple of
/// 8, so past the last one it stands on one.
pub open spec fn decode_frames_end(
    s: Seq<u8>,
    pos: int,
    hdr: ShpHeader,
    heads: Seq<FrameHeader>,
    i: int,
    n: int,
    unit: bool,
    ca: Seq<u32>,
) -> int
    decreases n - i,
{
    if i >= n {
        pos
    } else {
        match decode_frame_spec(s, pos, hdr, heads[i], unit, ca) {
            None => pos,
            Some(fr) => decode_frames_end(s, align8(fr.1), hdr, heads, i + 1, n, unit, ca),
        }
    }
}

/// Decoded frames are what the spec says they are, one for one.
pub open spec fn frames_are(v: Seq<ShapeUnitFrame>, g: Seq<SpecFrame>) -> bool {
    &&& v.len() == g.len()
    &&& forall|k: int| 0 <= k < v.len() ==> frame_is(#[trigger] v[k], g[k])
}

pub open spec fn after_frames(done: Seq<SpecFrame>, o: Option<Seq<SpecFrame>>) -> Option<Seq<SpecFrame>> {
    match o {
        None => None,
        Some(r) => Some(done + r),
    }
}

/// Decodes the first `read_size` frames of `head_list`, the data of the first
/// at `pos`, and leaves `pos` where the stream stands after the last frame;
/// `None` exactly when `decode_frames_spec` says that one of them
/// cannot be decoded.
pub fn decode_frames_checked(
    bytes: &[u8],
    pos: &mut usize,
    read_size: usize,
    header: ShpHeader,
    head_list: &mut Vec<FrameHeader>,
    pal_prefix: &str,
    color_array: [u32; 256],
) -> (r: Option<Vec<ShapeUnitFrame>>)
    requires
        read_size <= old(head_list)@.len(),
        *old(pos) + 8 * read_size <= usize::MAX,
        bytes@.len() + 8 * read_size <= usize::MAX,
    ensures
        final(head_list)@ == old(head_list)@,
        r is None <==> decode_frames_spec(bytes@, *old(pos) as int, header, old(head_list)@, 0, read_size as int,
            is_unit_palette(pal_prefix@), color_array@) is None,
        r matches Some(v) ==> frames_are(v@, decode_frames_spec(bytes@, *old(pos) as int, header, old(head_list)@, 0,
            read_size as int, is_unit_palette(pal_prefix@), color_array@)->0),
        r is Some ==> *final(pos) == decode_frames_end(bytes@, *old(pos) as int, header, old(head_list)@, 0,
            read_size as int, is_unit_palette(pal_prefix@), color_array@),
        r is Some && read_size >= 1 ==> *final(pos) % 8 == 0,
{
    let ghost pos0: int = *old(pos) as int;
    let ghost heads = head_list@;
    let ghost unit = is_unit_palette(pal_prefix@);
    let ghost ca = color_array@;
    let ghost total = decode_frames_spec(bytes@, pos0, header, heads, 0, read_size as int, unit, ca);
    let mut shape_unit_list: Vec<ShapeUnitFrame> = Vec::new();
    let ghost mut done: Seq<SpecFrame> = Seq::empty();
    let mut cur: usize = *pos;
    let mut i: usize = 0;
    assert(after_frames(done, total) =~= total) by {
        match total {
            None => {},
            Some(t) => { assert(Seq::<SpecFrame>::empty() + t =~= t); },
        }
    }
    while i < read_size
        invariant
            i <= read_size,
            read_size <= heads.len(),
            head_list@ == heads,
            pos0 == *old(pos) as int,
            pos0 + 8 * read_size <= usize::MAX,
            bytes@.len() + 8 * read_size <= usize::MAX,
            cur <= pos0 + 8 * i || cur <= bytes@.len() + 8 * i,
            decode_frames_end(bytes@, pos0, header, heads, 0, read_size as int, unit, ca)
                == decode_frames_end(bytes@, cur as int, header, heads, i as int, read_size as int, unit, ca),
            i > 0 ==> cur % 8 == 0,
            unit == is_unit_palette(pal_prefix@),
            ca == color_array@,
            total == decode_frames_spec(bytes@, pos0, header, heads, 0, read_size as int, unit, ca),
            total == after_frames(done, decode_frames_spec(bytes@, cur as int, header, heads, i as int, read_size as int, unit, ca)),
            frames_are(shape_unit_list@, done),
        decreases read_size - i,
    {
        let head = &head_list[i];
        match decode_frame(bytes, cur, &header, head, pal_prefix, &color_array) {
            None => {
                return None;
            },
            Some((shape_unit_frame, end)) => {
                let ghost fr = decode_frame_spec(bytes@, cur as int, header, heads[i as int], unit, ca)->0;
                let mut next = end;
                let e = 8 - (end % 8);
                if e != 8 {
                    next = end + e;
                }
                assert(next as int == align8(end as int));
                proof {
                    lemma_align8(end as int);
                    assert(decode_frames_end(bytes@, cur as int, header, heads, i as int, read_size as int, unit, ca)
                        == decode_frames_end(bytes@, next as int, header, heads, i + 1, read_size as int, unit, ca));
                    let rest = decode_frames_spec(bytes@, next as int, header, heads, i + 1, read_size as int, unit, ca);
                    match rest {
                        None => {},
                        Some(r) => {
                            assert(done + (seq![fr.0] + r) =~= done.push(fr.0) + r);
                        },
                    }
                    done = done.push(fr.0);
                }
                shape_unit_list.push(shape_unit_frame);
                cur = next;
            },
        }
        i = i + 1;
    }
    assert(done + Seq::<SpecFrame>::empty() =~= done);
    *pos = cur;
    Some(shape_unit_list)
}

/// Decodes the first `read_size` frames of `head_list`, the data of the first
/// at `pos`, for inputs on which every one of them can be decoded; `pos` is
/// left where the stream stands after the last frame.
pub fn decode_frames(
    bytes: &[u8],
    pos: &mut usize,
    read_size: usize,
    header: ShpHeader,
    head_list: &mut Vec<FrameHeader>,
    pal_prefix: &str,
    color_array: [u32; 256],
) -> (r: Vec<ShapeUnitFrame>)
    requires
        read_size <= old(head_list)@.len(),
        *old(pos) + 8 * read_size <= usize::MAX,
        bytes@.len() + 8 * read_size <= usize::MAX,
        decode_frames_spec(bytes@, *old(pos) as int, header, old(head_list)@, 0, read_size as int,
            is_unit_palette(pal_prefix@), color_array@) is Some,
    ensures
        final(head_list)@ == old(head_list)@,
        frames_are(r@, decode_frames_spec(bytes@, *old(pos) as int, header, old(head_list)@, 0, read_size as int,
            is_unit_palette(pal_prefix@), color_array@)->0),
        *final(pos) == decode_frames_end(bytes@, *old(pos) as int, header, old(head_list)@, 0, read_size as int,
            is_unit_palette(pal_prefix@), color_array@),
        read_size >= 1 ==> *final(pos) % 8 == 0,
{
    match decode_frames_checked(bytes, pos, read_size, header, head_list, pal_prefix, color_array) {
        Some(v) => v,
        None => Vec::new(),
    }
}

/// The frames that `parse_all_frame_data` decodes: as many as
/// `decide_read_size` says, from the data at `pos`.
pub open spec fn frame_data_spec(
    s: Seq<u8>,
    pos: int,
    hdr: ShpHeader,
    heads: Seq<FrameHeader>,
    is_use_shadow: bool,
    half: bool,
    pal_prefix: Seq<char>,
    ca: Seq<u32>,
) -> Option<Seq<SpecFrame>> {
    decode_frames_spec(s, pos, hdr, heads, 0, read_size_of(heads.len() as int, is_use_shadow, half),
        is_unit_palette(pal_prefix), ca)
}

/// Decodes the frame data that follows the frame headers at `pos`: as many
/// frames as `decide_read_size` says, for inputs on which every one of them
/// can be decoded.
pub fn parse_all_frame_data(
    bytes: &[u8],
    pos: &mut usize,
    shp_header: ShpHeader,
    frame_header: &mut Vec<FrameHeader>,
    is_use_shadow: bool,
    half: bool,
    pal_prefix: &str,
    color_array: [u32; 256],
) -> (r: Option<Vec<ShapeUnitFrame>>)
    requires
        *old(pos) + 8 * old(frame_header)@.len() <= usize::MAX,
        bytes@.len() + 8 * old(frame_header)@.len() <= usize::MAX,
        frame_data_spec(bytes@, *old(pos) as int, shp_header, old(frame_header)@, is_use_shadow, half, pal_prefix@,
            color_array@) is Some,
    ensures
        final(frame_header)@ == old(frame_header)@,
        r matches Some(v) && frames_are(v@, frame_data_spec(bytes@, *old(pos) as int, shp_header, old(frame_header)@,
            is_use_shadow, half, pal_prefix@, color_array@)->0),
        *final(pos) == decode_frames_end(bytes@, *old(pos) as int, shp_header, old(frame_header)@, 0,
            read_size_of(old(frame_header)@.len() as int, is_use_shadow, half), is_unit_palette(pal_prefix@),
            color_array@),
{
    let read_size = decide_read_size(frame_header, is_use_shadow, half);
    Some(decode_frames(bytes, pos, read_size, shp_header, frame_header, pal_prefix, color_array))
}

/// What reading a whole SHP file gives: an error when the file is too short
/// for its header or its frame headers; otherwise the decoded frames (half
/// of them when `half` is set), or `None` when one of them cannot be
/// decoded.
pub open spec fn read_shp_spec(s: Seq<u8>, pal_prefix: Seq<char>, half: bool, ca: Seq<u32>) -> Result<Option<Seq<SpecFrame>>, ()> {
    if s.len() < 8 {
        Err(())
    } else {
        let hdr = header_of(s);
        let n = hdr.frames as int;
        if n > 0 && s.len() < frame_header_offset(n) {
            Err(())
        } else {
            Ok(frame_data_spec(s, frame_header_offset(n), hdr, frame_headers(s, n as nat), false, half, pal_prefix, ca))
        }
    }
}

/// Reads a whole SHP file: its header, its frame headers, then its frames,
/// drawn with the colour table `color_array`. `Ok(None)` stands for the
/// inputs whose frames cannot be decoded without indexing out of range.
pub fn read_shp_checked(
    bytes: &[u8],
    pal_prefix: &str,
    half: bool,
    color_array: [u32; 256],
) -> (r: Result<Option<Vec<ShapeUnitFrame>>, std::io::Error>)
    requires
        bytes@.len() <= isize::MAX,
    ensures
        r is Err <==> read_shp_spec(bytes@, pal_prefix@, half, color_array@) is Err,
        r matches Ok(o) ==> (o is None <==> read_shp_spec(bytes@, pal_prefix@, half, color_array@)->Ok_0 is None),
        r matches Ok(Some(v)) ==> frames_are(v@, read_shp_spec(bytes@, pal_prefix@, half, color_array@)->Ok_0->0),
{
    let shp_header = parse_header(bytes)?;
    let mut frame_header = parse_all_frame_header(bytes, shp_header.frames)?;
    let mut pos = 8 + 24 * shp_header.frames as usize;
    let read_size = decide_read_size(&mut frame_header, false, half);
    Ok(decode_frames_checked(bytes, &mut pos, read_size, shp_header, &mut frame_header, pal_prefix, color_array))
}

// ---------------------------------------------------------------------------
// Laws

/// Frame data starts on 8-byte boundaries: alignment moves a position up to
/// the nearest multiple of 8, by less than 8.
pub proof fn lemma_align8(pos: int)
    requires
        0 <= pos,
    ensures
        align8(pos) % 8 == 0,
        pos <= align8(pos) < pos + 8,
        pos % 8 == 0 ==> align8(pos) == pos,
{
}

/// Decoding gives one frame for each frame asked for, each on a canvas of
/// the file header's size.
pub proof fn lemma_frames_shape(
    s: Seq<u8>,
    pos: int,
    hdr: ShpHeader,
    heads: Seq<FrameHeader>,
    i: int,
    n: int,
    unit: bool,
    ca: Seq<u32>,
)
    requires
        0 <= i <= n,
        decode_frames_spec(s, pos, hdr, heads, i, n, unit, ca) is Some,
    ensures
        ({
            let fs = decode_frames_spec(s, pos, hdr, heads, i, n, unit, ca)->0;
            &&& fs.len() == n - i
            &&& forall|k: int| 0 <= k < fs.len() ==> {
                &&& (#[trigger] fs[k]).width == hdr.width
                &&& fs[k].height == hdr.height
                &&& fs[k].pixels.len() == hdr.width as int * hdr.height as int
            }
        }),
    decreases n - i,
{
    if i < n {
        let fr = decode_frame_spec(s, pos, hdr, heads[i], unit, ca)->0;
        lemma_frames_shape(s, align8(fr.1), hdr, heads, i + 1, n, unit, ca);
        let w = hdr.width as int;
        let h = hdr.height as int;
        let r = frame_rows(s, pos, heads[i])->0;
        lemma_paint_rows_len(blank_canvas(w, h), w, ca, r.0);
        assert((w * h) as nat == w * h) by (nonlinear_arith)
            requires 0 <= w, 0 <= h;
    }
}

/// Every house-colour pixel that decoding records lies inside the frame's canvas.
pub proof fn lemma_frame_points_inside(s: Seq<u8>, pos: int, hdr: ShpHeader, fh: FrameHeader, unit: bool, ca: Seq<u32>)
    requires
        decode_frame_spec(s, pos, hdr, fh, unit, ca) is Some,
    ensures
        ({
            let f = decode_frame_spec(s, pos, hdr, fh, unit, ca)->0;
            let f = f.0;
            f.color_points matches Some(pts) ==> forall|j: int| 0 <= j < pts.len() ==> {
                &&& (#[trigger] pts[j]).x < f.width
                &&& pts[j].y < f.height
            }
        }),
{
    let r = frame_rows(s, pos, fh)->0;
    lemma_rows_points_inside(r.0, hdr.width as int, hdr.height as int);
}

/// What a complete type-0 or type-1 frame draws: the pixel at column `c` and
/// row `r` of its drawn part shows the colour of byte `r * width + c` of its
/// data.
pub proof fn lemma_type01_pixels(
    s: Seq<u8>,
    pos: int,
    hdr: ShpHeader,
    fh: FrameHeader,
    unit: bool,
    ca: Seq<u32>,
    r: int,
    c: int,
)
    requires
        0 <= pos,
        fh.frame_type == 0 || fh.frame_type == 1,
        pos + fh.width as int * fh.height as int <= s.len(),
        decode_frame_spec(s, pos, hdr, fh, unit, ca) is Some,
        0 <= r < fh.height,
        0 <= c < fh.width,
    ensures
        ({
            let f = decode_frame_spec(s, pos, hdr, fh, unit, ca)->0;
            let f = f.0;
            f.pixels[(fh.min_y + r) * hdr.width + fh.min_x + c] == argb_px(ca[s[pos + r * fh.width + c] as int])
        }),
{
    let w = fh.width as int;
    let h = fh.height as int;
    let cw = hdr.width as int;
    let ch = hdr.height as int;
    let x0 = fh.min_x as int;
    let y0 = fh.min_y as int;
    assert(w * h == h * w) by (nonlinear_arith);
    lemma_rows_type01_complete(s, pos, x0, y0, w, h as nat);
    let rows = rows_type01(s, pos, x0, y0, w, h as nat).0;
    assert(frame_rows(s, pos, fh) == Some(rows_type01(s, pos, x0, y0, w, h as nat)));
    assert(rows_fit(rows, cw, ch));
    let d = rows[r];
    assert(d == RowSpec { x: x0, y: y0 + r, idx: bytes_at(s, pos + r * w, w) });
    assert(r * w + w <= h * w) by (nonlinear_arith)
        requires 0 <= r < h, 0 <= w;
    assert(0 <= r * w) by (nonlinear_arith)
        requires 0 <= r, 0 <= w;
    assert(d.idx.len() == w);
    assert(row_fits(d, cw, ch));
    let i = (y0 + r) * cw + x0 + c;
    assert(row_covers(d, cw, i));
    assert(d.idx[i - (d.y * cw + d.x)] == s[pos + r * w + c]);
    assert forall|m: int| r < m < rows.len() implies !row_covers(#[trigger] rows[m], cw, i) by {
        assert(rows[m].y == y0 + m);
        assert(row_fits(rows[m], cw, ch));
        assert((y0 + r + 1) * cw <= (y0 + m) * cw) by (nonlinear_arith)
            requires r < m, 0 <= cw, 0 <= y0, 0 <= r;
        assert((y0 + r + 1) * cw == (y0 + r) * cw + cw) by (nonlinear_arith);
    }
    let canvas = blank_canvas(cw, ch);
    lemma_pixel_index(x0 + c, y0 + r, cw, ch);
    assert(canvas.len() == cw * ch) by {
        assert((cw * ch) as nat == cw * ch) by (nonlinear_arith)
            requires 0 <= cw, 0 <= ch;
    }
    lemma_last_row_wins(canvas, cw, ca, rows, r, i);
}


/// What decoding draws: every pixel of every row that a frame's data holds
/// shows, on the decoded canvas, the colour of its palette index.
pub proof fn lemma_rows_drawn(
    s: Seq<u8>,
    pos: int,
    hdr: ShpHeader,
    fh: FrameHeader,
    unit: bool,
    ca: Seq<u32>,
    k: int,
    c: int,
)
    requires
        decode_frame_spec(s, pos, hdr, fh, unit, ca) is Some,
        0 <= k < rows_read(frame_rows(s, pos, fh)).len(),
        0 <= c < rows_read(frame_rows(s, pos, fh))[k].idx.len(),
    ensures
        ({
            let f = decode_frame_spec(s, pos, hdr, fh, unit, ca)->0;
            let f = f.0;
            let d = rows_read(frame_rows(s, pos, fh))[k];
            f.pixels[d.y * hdr.width + d.x + c] == argb_px(ca[d.idx[c] as int])
        }),
{
    let rows = rows_read(frame_rows(s, pos, fh));
    let cw = hdr.width as int;
    let ch = hdr.height as int;
    let d = rows[k];
    lemma_frame_rows_descend(s, pos, fh);
    assert(rows_fit(rows, cw, ch));
    assert(row_fits(d, cw, ch));
    let i = d.y * cw + d.x + c;
    assert(row_covers(d, cw, i));
    assert forall|m: int| k < m < rows.len() implies !row_covers(#[trigger] rows[m], cw, i) by {
        assert(rows[k].y < rows[m].y);
        assert((d.y + 1) * cw <= rows[m].y * cw) by (nonlinear_arith)
            requires d.y < rows[m].y, 0 <= cw;
        assert((d.y + 1) * cw == d.y * cw + cw) by (nonlinear_arith);
        assert(row_fits(rows[m], cw, ch));
    }
    let canvas = blank_canvas(cw, ch);
    lemma_pixel_index(d.x + c, d.y, cw, ch);
    assert(canvas.len() == cw * ch) by {
        assert((cw * ch) as nat == cw * ch) by (nonlinear_arith)
            requires 0 <= cw, 0 <= ch;
    }
    lemma_last_row_wins(canvas, cw, ca, rows, k, i);
}

/// House-colour pixels are recorded for the unit palettes of the three
/// theatres that units fight in (snow, temperate and urban) and for no
/// other palette: not for the animation palette, nor for any other name.
pub proof fn lemma_unit_palettes(p: Seq<char>)
    ensures
        is_unit_palette(p) <==> (p == scene_pal_prefix(SceneType::Snow) || p == scene_pal_prefix(SceneType::Tem)
            || p == scene_pal_prefix(SceneType::Urban)),
        is_unit_palette(scene_pal_prefix(SceneType::Snow)),
        is_unit_palette(scene_pal_prefix(SceneType::Tem)),
        is_unit_palette(scene_pal_prefix(SceneType::Urban)),
        !is_unit_palette(scene_pal_prefix(SceneType::Anim)),
{
    reveal_strlit("anim");
    reveal_strlit("unitsno");
    reveal_strlit("unittem");
    reveal_strlit("uniturb");
    assert("anim"@.len() != "unitsno"@.len());
    assert("anim"@.len() != "unittem"@.len());
    assert("anim"@.len() != "uniturb"@.len());
}

} // verus!
