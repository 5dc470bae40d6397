//! The frame data of an SHP file as a stream of rows.
//!
//! Frame data is read front to back: a read of `n` bytes at a position
//! either finds them or consumes what is left and ends the frame. Each row
//! becomes a `RowDraw`: the palette indices of consecutive pixels and where
//! the first of them goes.
use vstd::prelude::*;
use crate::errors::unexpected_eof;
use super::shp_header::le_u16_at;
use super::types::FrameHeader;

verus! {

// ---------------------------------------------------------------------------
// Bytes and the stream model

/// The little-endian `u32` at `at`.
pub open spec fn le_u32_at(s: Seq<u8>, at: int) -> u32 {
    (s[at] as int + 0x100 * s[at + 1] as int + 0x1_0000 * s[at + 2] as int
        + 0x100_0000 * s[at + 3] as int) as u32
}

/// A read of `n` bytes at `pos` succeeds: it asks for nothing, or the bytes
/// are there.
pub open spec fn can_read(len: int, pos: int, n: int) -> bool {
    n == 0 || pos + n <= len
}

/// Where the stream stands after a read at `pos` that ran out of bytes:
/// it consumed what was left.
pub open spec fn after_short_read(len: int, pos: int) -> int {
    if pos < len { len } else { pos }
}

pub(crate) fn read_le_u16(bytes: &[u8], at: usize) -> (r: u16)
    requires
        at + 2 <= bytes@.len(),
    ensures
        r == le_u16_at(bytes@, at as int),
{
    bytes[at] as u16 + (bytes[at + 1] as u16) * 256
}

pub(crate) fn read_le_u32(bytes: &[u8], at: usize) -> (r: u32)
    requires
        at + 4 <= bytes@.len(),
    ensures
        r == le_u32_at(bytes@, at as int),
{
    bytes[at] as u32 + (bytes[at + 1] as u32) * 0x100 + (bytes[at + 2] as u32) * 0x1_0000
        + (bytes[at + 3] as u32) * 0x100_0000
}

fn can_read_exec(len: usize, pos: usize, n: usize) -> (r: bool)
    ensures
        r == can_read(len as int, pos as int, n as int),
{
    n == 0 || (pos <= len && n <= len - pos)
}

fn after_short_read_exec(len: usize, pos: usize) -> (r: usize)
    ensures
        r == after_short_read(len as int, pos as int),
{
    if pos < len { len } else { pos }
}

// ---------------------------------------------------------------------------
// Run-length encoded rows

/// The palette indices of a row of type-3 pixel data, left to right: a zero
/// followed by a non-zero count `n` stands for `n` transparent pixels (index
/// 0); any other byte is the index of one pixel.
pub open spec fn expand_rle(p: Seq<u8>) -> Seq<u8>
    decreases p.len(),
{
    if p.len() == 0 {
        Seq::empty()
    } else if p[0] == 0 && p.len() > 1 && p[1] > 0 {
        Seq::new(p[1] as nat, |k: int| 0u8) + expand_rle(p.skip(2))
    } else {
        seq![p[0]] + expand_rle(p.skip(1))
    }
}

/// Expands the run-length encoded pixel bytes of a row.
pub fn expand_pixel_row(pixel_bytes: &[u8]) -> (r: Vec<u8>)
    ensures
        r@ == expand_rle(pixel_bytes@),
        r@.len() <= 255 * pixel_bytes@.len(),
{
    let mut out: Vec<u8> = Vec::new();
    let mut i: usize = 0;
    let n = pixel_bytes.len();
    proof {
        lemma_expand_rle_len(pixel_bytes@);
        assert(pixel_bytes@.skip(0) =~= pixel_bytes@);
    }
    while i < n
        invariant
            n == pixel_bytes@.len(),
            i <= n,
            expand_rle(pixel_bytes@) == out@ + expand_rle(pixel_bytes@.skip(i as int)),
        decreases n - i,
    {
        let ghost rest = pixel_bytes@.skip(i as int);
        if pixel_bytes[i] == 0 && i + 1 < n && pixel_bytes[i + 1] > 0 {
            let ntime0 = pixel_bytes[i + 1];
            let ghost before = out@;
            let mut k: u8 = 0;
            while k < ntime0
                invariant
                    k <= ntime0,
                    out@ == before + Seq::new(k as nat, |j: int| 0u8),
                decreases ntime0 - k,
            {
                out.push(0u8);
                k = k + 1;
                assert(out@ =~= before + Seq::new(k as nat, |j: int| 0u8));
            }
            assert(rest.skip(2) =~= pixel_bytes@.skip(i + 2));
            i = i + 2;
            assert(expand_rle(pixel_bytes@) =~= out@ + expand_rle(pixel_bytes@.skip(i as int)));
        } else {
            out.push(pixel_bytes[i]);
            assert(rest.skip(1) =~= pixel_bytes@.skip(i + 1));
            i = i + 1;
            assert(expand_rle(pixel_bytes@) =~= out@ + expand_rle(pixel_bytes@.skip(i as int)));
        }
    }
    assert(pixel_bytes@.skip(n as int) =~= Seq::<u8>::empty());
    out
}

/// A run-length encoded row expands to at most 255 pixels per byte.
pub proof fn lemma_expand_rle_len(p: Seq<u8>)
    ensures
        expand_rle(p).len() <= 255 * p.len(),
    decreases p.len(),
{
    if p.len() == 0 {
    } else if p[0] == 0 && p.len() > 1 && p[1] > 0 {
        lemma_expand_rle_len(p.skip(2));
    } else {
        lemma_expand_rle_len(p.skip(1));
    }
}

/// Pixel bytes without a zero followed by a count are their own indices.
pub proof fn lemma_expand_rle_plain(p: Seq<u8>)
    requires
        forall|i: int| 0 <= i < p.len() ==> p[i] != 0,
    ensures
        expand_rle(p) == p,
    decreases p.len(),
{
    if p.len() > 0 {
        lemma_expand_rle_plain(p.skip(1));
        assert(seq![p[0]] + p.skip(1) =~= p);
    }
}

// ---------------------------------------------------------------------------
// Rows of frame data

/// A row to be drawn: the palette indices of consecutive pixels, the first
/// at `(x, y)`.
pub struct RowSpec {
    pub x: int,
    pub y: int,
    pub idx: Seq<u8>,
}

/// A row to be drawn, as the decoder holds it.
pub struct RowDraw {
    pub x: usize,
    pub y: usize,
    pub indices: Vec<u8>,
}

impl View for RowDraw {
    type V = RowSpec;

    open spec fn view(&self) -> RowSpec {
        RowSpec { x: self.x as int, y: self.y as int, idx: self.indices@ }
    }
}

pub open spec fn rows_view(v: Seq<RowDraw>) -> Seq<RowSpec> {
    v.map_values(|r: RowDraw| r@)
}

/// The `n` bytes at `pos`, when they are there (none when `n` is 0).
pub open spec fn bytes_at(s: Seq<u8>, pos: int, n: int) -> Seq<u8> {
    if n == 0 { Seq::empty() } else { s.subrange(pos, pos + n) }
}

/// The rows of a type-0 or type-1 frame: `rows` rows of `w` raw palette
/// indices each, starting at `pos`, drawn from `(x0, y)` downwards. A row
/// whose bytes run past the end of the data ends the frame there; the
/// result holds the rows read and the position the stream ends at.
pub open spec fn rows_type01(s: Seq<u8>, pos: int, x0: int, y: int, w: int, rows: nat) -> (Seq<RowSpec>, int)
    decreases rows,
{
    if rows == 0 {
        (Seq::empty(), pos)
    } else if !can_read(s.len() as int, pos, w) {
        (Seq::empty(), after_short_read(s.len() as int, pos))
    } else {
        let rest = rows_type01(s, pos + w, x0, y + 1, w, (rows - 1) as nat);
        (seq![RowSpec { x: x0, y, idx: bytes_at(s, pos, w) }] + rest.0, rest.1)
    }
}

/// Whether the data of a type-0 or type-1 frame runs out before its last
/// row: one of the `rows` rows of `w` bytes from `pos` is not all there.
pub open spec fn rows_type01_short(s: Seq<u8>, pos: int, w: int, rows: nat) -> bool
    decreases rows,
{
    if rows == 0 {
        false
    } else if !can_read(s.len() as int, pos, w) {
        true
    } else {
        rows_type01_short(s, pos + w, w, (rows - 1) as nat)
    }
}

/// What reading one row of a type-3 frame gives.
pub enum RowRead {
    /// The data ran out; the stream stands at the position given.
    Stop(int),
    /// The row is malformed in a way that the decoder cannot index.
    Malformed,
    /// An empty row: nothing is drawn and the next row is one lower.
    Skip(int),
    /// A row to draw, and the position after it.
    Row(int, RowSpec),
}

/// One row of a type-3 frame at `pos`: a little-endian length `e` that
/// counts itself, then `e - 2` bytes. A length of 4 marks an empty row of two
/// more bytes. Otherwise the bytes are optionally led by a zero and a count
/// of transparent pixels to skip, and optionally ended by a zero byte and
/// one more byte, and between them lie the run-length encoded pixels.
/// Lengths below 2, and rows too short for the layout they announce, are
/// malformed.
pub open spec fn row_type03(s: Seq<u8>, pos: int, x0: int, y: int) -> RowRead {
    let len = s.len() as int;
    if !can_read(len, pos, 2) {
        RowRead::Stop(after_short_read(len, pos))
    } else {
        let e = le_u16_at(s, pos) as int;
        let p1 = pos + 2;
        if e == 4 {
            if !can_read(len, p1, 2) {
                RowRead::Stop(after_short_read(len, p1))
            } else {
                RowRead::Skip(p1 + 2)
            }
        } else if e < 2 {
            RowRead::Malformed
        } else {
            let n = e - 2;
            if !can_read(len, p1, n) {
                RowRead::Stop(after_short_read(len, p1))
            } else if n < 2 {
                RowRead::Malformed
            } else {
                let rest = bytes_at(s, p1, n);
                let lead = rest[0] == 0;
                let tail = rest[n - 2] == 0;
                if lead && tail {
                    if n < 4 {
                        RowRead::Malformed
                    } else {
                        RowRead::Row(p1 + n, RowSpec { x: x0 + rest[1], y, idx: expand_rle(rest.subrange(2, n - 2)) })
                    }
                } else if tail {
                    RowRead::Row(p1 + n, RowSpec { x: x0, y, idx: expand_rle(rest.subrange(0, n - 2)) })
                } else if lead {
                    RowRead::Row(p1 + n, RowSpec { x: x0 + rest[1], y, idx: expand_rle(rest.subrange(2, n)) })
                } else {
                    RowRead::Row(p1 + n, RowSpec { x: x0, y, idx: expand_rle(rest) })
                }
            }
        }
    }
}

/// The rows of a type-3 frame: `rows` rows from `pos`, drawn from `(x0, y)`
/// downwards; `None` when a row is malformed before the data runs out.
pub open spec fn rows_type03(s: Seq<u8>, pos: int, x0: int, y: int, rows: nat) -> Option<(Seq<RowSpec>, int)>
    decreases rows,
{
    if rows == 0 {
        Some((Seq::empty(), pos))
    } else {
        match row_type03(s, pos, x0, y) {
            RowRead::Stop(p) => Some((Seq::empty(), p)),
            RowRead::Malformed => None,
            RowRead::Skip(p) => rows_type03(s, p, x0, y + 1, (rows - 1) as nat),
            RowRead::Row(p, d) => match rows_type03(s, p, x0, y + 1, (rows - 1) as nat) {
                None => None,
                Some(r) => Some((seq![d] + r.0, r.1)),
            },
        }
    }
}

/// Whether the data of a type-3 frame runs out before its last row is read.
pub open spec fn rows_type03_short(s: Seq<u8>, pos: int, x0: int, y: int, rows: nat) -> bool
    decreases rows,
{
    if rows == 0 {
        false
    } else {
        match row_type03(s, pos, x0, y) {
            RowRead::Stop(_) => true,
            RowRead::Malformed => false,
            RowRead::Skip(p) => rows_type03_short(s, p, x0, y + 1, (rows - 1) as nat),
            RowRead::Row(p, _) => rows_type03_short(s, p, x0, y + 1, (rows - 1) as nat),
        }
    }
}

/// The rows of a frame with header `h` whose data starts at `pos`: none for
/// a frame without size; raw rows for types 0 and 1; run-length encoded rows
/// for the other types.
pub open spec fn frame_rows(s: Seq<u8>, pos: int, h: FrameHeader) -> Option<(Seq<RowSpec>, int)> {
    if h.width == 0 && h.height == 0 {
        Some((Seq::empty(), pos))
    } else if h.frame_type == 0 || h.frame_type == 1 {
        Some(rows_type01(s, pos, h.min_x as int, h.min_y as int, h.width as int, h.height as nat))
    } else {
        rows_type03(s, pos, h.min_x as int, h.min_y as int, h.height as nat)
    }
}

/// Prepends the rows already read to what the rest of the frame gives.
pub open spec fn after_rows(done: Seq<RowSpec>, o: Option<(Seq<RowSpec>, int)>) -> Option<(Seq<RowSpec>, int)> {
    match o {
        None => None,
        Some(r) => Some((done + r.0, r.1)),
    }
}

fn copy_bytes(bytes: &[u8], pos: usize, n: usize) -> (r: Vec<u8>)
    requires
        can_read(bytes@.len() as int, pos as int, n as int),
    ensures
        r@ == bytes_at(bytes@, pos as int, n as int),
{
    let mut out: Vec<u8> = Vec::new();
    if n == 0 {
        return out;
    }
    let blen = bytes.len();
    let mut i: usize = 0;
    while i < n
        invariant
            i <= n,
            blen == bytes@.len(),
            pos + n <= bytes@.len(),
            out@ == bytes@.subrange(pos as int, pos + i),
        decreases n - i,
    {
        out.push(bytes[pos + i]);
        i = i + 1;
        assert(out@ =~= bytes@.subrange(pos as int, pos + i));
    }
    out
}

/// Reads the rows of a type-0 or type-1 frame: the rows read, the position
/// the stream ends at, and an I/O error when the data ran out before the
/// last row (the rows before it are read all the same).
pub fn read_rows_type01(bytes: &[u8], pos: usize, frame_header: &FrameHeader) -> (r: (Vec<RowDraw>, usize, Result<(), std::io::Error>))
    ensures
        (rows_view(r.0@), r.1 as int) == rows_type01(bytes@, pos as int, frame_header.min_x as int,
            frame_header.min_y as int, frame_header.width as int, frame_header.height as nat),
        r.2 is Err <==> rows_type01_short(bytes@, pos as int, frame_header.width as int, frame_header.height as nat),
        r.2 is Err ==> r.0@.len() < frame_header.height && r.1 >= bytes@.len(),
        r.2 is Ok ==> r.0@.len() == frame_header.height,
        r.1 <= pos || r.1 <= bytes@.len(),
        forall|k: int| 0 <= k < r.0@.len() ==> row_bounded(#[trigger] r.0@[k]@),
{
    let x0 = frame_header.min_x as usize;
    let y0 = frame_header.min_y as usize;
    let w = frame_header.width as usize;
    let h = frame_header.height as usize;
    let mut rows: Vec<RowDraw> = Vec::new();
    let mut cur: usize = pos;
    let mut cur_y: usize = y0;
    let mut i: usize = 0;
    while i < h
        invariant
            i <= h,
            h <= 0xFFFF,
            y0 <= 0xFFFF,
            cur_y == y0 + i,
            x0 <= 0xFFFF,
            w <= 0xFFFF,
            x0 == frame_header.min_x,
            y0 == frame_header.min_y,
            w == frame_header.width,
            h == frame_header.height,
            cur <= pos || cur <= bytes@.len(),
            rows@.len() == i,
            rows_type01_short(bytes@, pos as int, w as int, h as nat)
                == rows_type01_short(bytes@, cur as int, w as int, (h - i) as nat),
            forall|k: int| 0 <= k < rows@.len() ==> row_bounded(#[trigger] rows@[k]@),
            rows_type01(bytes@, pos as int, x0 as int, y0 as int, w as int, h as nat)
                == (rows_view(rows@) + rows_type01(bytes@, cur as int, x0 as int, cur_y as int, w as int, (h - i) as nat).0,
                    rows_type01(bytes@, cur as int, x0 as int, cur_y as int, w as int, (h - i) as nat).1),
        decreases h - i,
    {
        if !can_read_exec(bytes.len(), cur, w) {
            let end = after_short_read_exec(bytes.len(), cur);
            assert(rows_view(rows@) + Seq::<RowSpec>::empty() =~= rows_view(rows@));
            return (rows, end, Err(unexpected_eof()));
        }
        let indices = copy_bytes(bytes, cur, w);
        let ghost old_rows = rows@;
        rows.push(RowDraw { x: x0, y: cur_y, indices });
        assert(rows_view(rows@) =~= rows_view(old_rows).push(rows@.last()@));
        let ghost next = rows_type01(bytes@, (cur + w) as int, x0 as int, (cur_y + 1) as int, w as int, (h - i - 1) as nat);
        assert(rows_view(old_rows) + (seq![rows@.last()@] + next.0) =~= rows_view(rows@) + next.0);
        cur = cur + w;
        cur_y = cur_y + 1;
        i = i + 1;
    }
    assert(rows_view(rows@) + Seq::<RowSpec>::empty() =~= rows_view(rows@));
    (rows, cur, Ok(()))
}

/// What reading one row of a type-3 frame gives, as the decoder holds it.
pub enum RowReadExec {
    Stop(usize),
    Malformed,
    Skip(usize),
    Row(usize, RowDraw),
}

impl View for RowReadExec {
    type V = RowRead;

    open spec fn view(&self) -> RowRead {
        match self {
            RowReadExec::Stop(p) => RowRead::Stop(*p as int),
            RowReadExec::Malformed => RowRead::Malformed,
            RowReadExec::Skip(p) => RowRead::Skip(*p as int),
            RowReadExec::Row(p, d) => RowRead::Row(*p as int, d@),
        }
    }
}

/// The bounds that every row read from a frame keeps to.
pub open spec fn row_bounded(d: RowSpec) -> bool {
    &&& 0 <= d.x <= 0xFFFF + 0xFF
    &&& 0 <= d.y
    &&& d.idx.len() <= 255 * 0xFFFF
}

/// Reads one row of a type-3 frame.
pub fn read_row_type03(bytes: &[u8], pos: usize, x0: u16, y: usize) -> (r: RowReadExec)
    ensures
        r@ == row_type03(bytes@, pos as int, x0 as int, y as int),
        r matches RowReadExec::Row(_, d) ==> row_bounded(d@),
        r matches RowReadExec::Row(p, _) ==> p <= bytes@.len(),
        r matches RowReadExec::Skip(p) ==> p <= bytes@.len(),
        r matches RowReadExec::Stop(p) ==> (p <= pos || p <= bytes@.len()) && p >= bytes@.len(),
{
    let len = bytes.len();
    if !can_read_exec(len, pos, 2) {
        return RowReadExec::Stop(after_short_read_exec(len, pos));
    }
    let effect_len = read_le_u16(bytes, pos);
    let p1 = pos + 2;
    if effect_len == 4 {
        if !can_read_exec(len, p1, 2) {
            return RowReadExec::Stop(after_short_read_exec(len, p1));
        }
        return RowReadExec::Skip(p1 + 2);
    }
    if effect_len < 2 {
        return RowReadExec::Malformed;
    }
    let n = (effect_len - 2) as usize;
    if !can_read_exec(len, p1, n) {
        return RowReadExec::Stop(after_short_read_exec(len, p1));
    }
    if n < 2 {
        return RowReadExec::Malformed;
    }
    let ghost rest = bytes_at(bytes@, p1 as int, n as int);
    assert(rest[0] == bytes@[p1 as int]);
    assert(rest[n - 2] == bytes@[p1 + n - 2]);
    assert(rest[1] == bytes@[p1 + 1]);
    let lead = bytes[p1] == 0;
    let tail = bytes[p1 + n - 2] == 0;
    let end = p1 + n;
    if lead && tail {
        if n < 4 {
            return RowReadExec::Malformed;
        }
        let x = x0 as usize + bytes[p1 + 1] as usize;
        let pix = &bytes[p1 + 2..p1 + n - 2];
        assert(pix@ =~= rest.subrange(2, n - 2));
        let indices = expand_pixel_row(pix);
        RowReadExec::Row(end, RowDraw { x, y, indices })
    } else if tail {
        let pix = &bytes[p1..p1 + n - 2];
        assert(pix@ =~= rest.subrange(0, n - 2));
        let indices = expand_pixel_row(pix);
        RowReadExec::Row(end, RowDraw { x: x0 as usize, y, indices })
    } else if lead {
        let x = x0 as usize + bytes[p1 + 1] as usize;
        let pix = &bytes[p1 + 2..p1 + n];
        assert(pix@ =~= rest.subrange(2, n as int));
        let indices = expand_pixel_row(pix);
        RowReadExec::Row(end, RowDraw { x, y, indices })
    } else {
        let pix = &bytes[p1..p1 + n];
        assert(pix@ =~= rest);
        let indices = expand_pixel_row(pix);
        RowReadExec::Row(end, RowDraw { x: x0 as usize, y, indices })
    }
}

/// Reads the rows of a type-3 frame: the rows read, the position the stream
/// ends at, and an I/O error when the data ran out before the last row (the
/// rows before it are read all the same); `None` when a row is malformed.
pub fn read_rows_type03(bytes: &[u8], pos: usize, frame_header: &FrameHeader) -> (r: Option<(Vec<RowDraw>, usize, Result<(), std::io::Error>)>)
    ensures
        r matches Some(v) ==> rows_type03(bytes@, pos as int, frame_header.min_x as int, frame_header.min_y as int,
            frame_header.height as nat) == Some((rows_view(v.0@), v.1 as int)),
        r matches Some(v) ==> (v.2 is Err <==> rows_type03_short(bytes@, pos as int, frame_header.min_x as int,
            frame_header.min_y as int, frame_header.height as nat)),
        r matches Some(v) ==> (v.2 is Err ==> v.1 >= bytes@.len()),
        r is None ==> rows_type03(bytes@, pos as int, frame_header.min_x as int, frame_header.min_y as int,
            frame_header.height as nat) is None,
        r matches Some(v) ==> forall|k: int| 0 <= k < v.0@.len() ==> row_bounded(#[trigger] v.0@[k]@),
        r matches Some(v) ==> v.1 <= pos || v.1 <= bytes@.len(),
{
    let x0 = frame_header.min_x;
    let y0 = frame_header.min_y as usize;
    let h = frame_header.height as usize;
    let mut rows: Vec<RowDraw> = Vec::new();
    let mut cur: usize = pos;
    let mut cur_y: usize = y0;
    let mut i: usize = 0;
    assert(after_rows(rows_view(rows@), rows_type03(bytes@, cur as int, x0 as int, cur_y as int, h as nat))
        =~= rows_type03(bytes@, pos as int, x0 as int, y0 as int, h as nat)) by {
        assert(rows_view(rows@) =~= Seq::<RowSpec>::empty());
        match rows_type03(bytes@, pos as int, x0 as int, y0 as int, h as nat) {
            None => {},
            Some(r) => { assert(Seq::<RowSpec>::empty() + r.0 =~= r.0); },
        }
    }
    while i < h
        invariant
            i <= h,
            h <= 0xFFFF,
            y0 <= 0xFFFF,
            x0 == frame_header.min_x,
            y0 == frame_header.min_y,
            h == frame_header.height,
            cur_y == y0 + i,
            cur <= pos || cur <= bytes@.len(),
            rows_type03_short(bytes@, pos as int, x0 as int, y0 as int, h as nat)
                == rows_type03_short(bytes@, cur as int, x0 as int, cur_y as int, (h - i) as nat),
            rows_type03(bytes@, pos as int, x0 as int, y0 as int, h as nat)
                == after_rows(rows_view(rows@), rows_type03(bytes@, cur as int, x0 as int, cur_y as int, (h - i) as nat)),
            forall|k: int| 0 <= k < rows@.len() ==> row_bounded(#[trigger] rows@[k]@),
        decreases h - i,
    {
        let ghost old_rows = rows@;
        let ghost tail_rows = rows_type03(bytes@, cur as int, x0 as int, cur_y as int, (h - i) as nat);
        match read_row_type03(bytes, cur, x0, cur_y) {
            RowReadExec::Stop(p) => {
                assert(rows_view(rows@) + Seq::<RowSpec>::empty() =~= rows_view(rows@));
                return Some((rows, p, Err(unexpected_eof())));
            },
            RowReadExec::Malformed => {
                return None;
            },
            RowReadExec::Skip(p) => {
                cur = p;
            },
            RowReadExec::Row(p, d) => {
                rows.push(d);
                assert(rows_view(rows@) =~= rows_view(old_rows).push(rows@.last()@));
                proof {
                    let next = rows_type03(bytes@, p as int, x0 as int, (cur_y + 1) as int, (h - i - 1) as nat);
                    match next {
                        None => {},
                        Some(nr) => {
                            assert(rows_view(old_rows) + (seq![rows@.last()@] + nr.0) =~= rows_view(rows@) + nr.0);
                        },
                    }
                }
                cur = p;
            },
        }
        cur_y = cur_y + 1;
        i = i + 1;
    }
    assert(rows_view(rows@) + Seq::<RowSpec>::empty() =~= rows_view(rows@));
    Some((rows, cur, Ok(())))
}

/// With all its data present, a type-0 or type-1 frame reads as `rows` rows
/// of `w` bytes, row `k` at `pos + k * w`.
pub proof fn lemma_rows_type01_complete(s: Seq<u8>, pos: int, x0: int, y: int, w: int, rows: nat)
    requires
        0 <= pos,
        0 <= w,
        pos + w * rows <= s.len(),
    ensures
        ({
            let r = rows_type01(s, pos, x0, y, w, rows);
            &&& r.0.len() == rows
            &&& r.1 == pos + w * rows
            &&& forall|k: int| 0 <= k < rows ==> #[trigger] r.0[k] == (RowSpec { x: x0, y: y + k, idx: bytes_at(s, pos + k * w, w) })
        }),
    decreases rows,
{
    if rows == 0 {
        assert(w * rows == 0) by (nonlinear_arith)
            requires rows == 0;
    } else {
        assert(w * rows == w + w * (rows - 1)) by (nonlinear_arith)
            requires rows > 0;
        assert(w * (rows - 1) >= 0) by (nonlinear_arith)
            requires w >= 0, rows > 0;
        assert(can_read(s.len() as int, pos, w));
        lemma_rows_type01_complete(s, pos + w, x0, y + 1, w, (rows - 1) as nat);
        let r = rows_type01(s, pos, x0, y, w, rows);
        assert(r.1 == pos + w * rows);
        assert(r.0.len() == rows);
        let rest = rows_type01(s, pos + w, x0, y + 1, w, (rows - 1) as nat);
        assert forall|k: int| 0 <= k < rows implies #[trigger] r.0[k] == (RowSpec { x: x0, y: y + k, idx: bytes_at(s, pos + k * w, w) }) by {
            if k > 0 {
                assert(r.0[k] == rest.0[k - 1]);
                assert(pos + w + (k - 1) * w == pos + k * w) by (nonlinear_arith);
            } else {
                assert(pos + k * w == pos) by (nonlinear_arith)
                    requires k == 0;
            }
        }
    }
}


/// The rows that a read of rows gave (none when it failed).
pub open spec fn rows_read(o: Option<(Seq<RowSpec>, int)>) -> Seq<RowSpec> {
    match o {
        Some(r) => r.0,
        None => Seq::empty(),
    }
}

/// Rows lie on distinct lines, top to bottom, none above `y`.
pub open spec fn rows_descend_from(rows: Seq<RowSpec>, y: int) -> bool {
    &&& forall|i: int| 0 <= i < rows.len() ==> (#[trigger] rows[i]).y >= y
    &&& forall|i: int, j: int| 0 <= i < j < rows.len() ==> (#[trigger] rows[i]).y < (#[trigger] rows[j]).y
}

/// Each row of a type-0 or type-1 frame is drawn one line below the last.
pub proof fn lemma_rows_type01_descend(s: Seq<u8>, pos: int, x0: int, y: int, w: int, rows: nat)
    ensures
        rows_descend_from(rows_type01(s, pos, x0, y, w, rows).0, y),
    decreases rows,
{
    if rows > 0 && can_read(s.len() as int, pos, w) {
        lemma_rows_type01_descend(s, pos + w, x0, y + 1, w, (rows - 1) as nat);
        let r = rows_type01(s, pos, x0, y, w, rows).0;
        let rest = rows_type01(s, pos + w, x0, y + 1, w, (rows - 1) as nat).0;
        assert forall|i: int| 0 < i < r.len() implies r[i] == rest[i - 1] by {}
    }
}

/// Each row of a type-3 frame is drawn below the rows before it.
pub proof fn lemma_rows_type03_descend(s: Seq<u8>, pos: int, x0: int, y: int, rows: nat)
    requires
        rows_type03(s, pos, x0, y, rows) is Some,
    ensures
        rows_descend_from(rows_read(rows_type03(s, pos, x0, y, rows)), y),
    decreases rows,
{
    if rows > 0 {
        match row_type03(s, pos, x0, y) {
            RowRead::Stop(p) => {},
            RowRead::Malformed => {},
            RowRead::Skip(p) => {
                lemma_rows_type03_descend(s, p, x0, y + 1, (rows - 1) as nat);
            },
            RowRead::Row(p, d) => {
                lemma_rows_type03_descend(s, p, x0, y + 1, (rows - 1) as nat);
                let r = rows_read(rows_type03(s, pos, x0, y, rows));
                let rest = rows_read(rows_type03(s, p, x0, y + 1, (rows - 1) as nat));
                assert forall|i: int| 0 < i < r.len() implies r[i] == rest[i - 1] by {}
                assert(r[0] == d);
            },
        }
    }
}

/// The rows of any frame lie on distinct lines, top to bottom.
pub proof fn lemma_frame_rows_descend(s: Seq<u8>, pos: int, h: FrameHeader)
    requires
        frame_rows(s, pos, h) is Some,
    ensures
        rows_descend_from(rows_read(frame_rows(s, pos, h)), h.min_y as int),
{
    if h.width == 0 && h.height == 0 {
    } else if h.frame_type == 0 || h.frame_type == 1 {
        lemma_rows_type01_descend(s, pos, h.min_x as int, h.min_y as int, h.width as int, h.height as nat);
    } else {
        lemma_rows_type03_descend(s, pos, h.min_x as int, h.min_y as int, h.height as nat);
    }
}


/// How a type-3 row is laid out, in terms of the file's bytes. With `e` the
/// little-endian length at `pos` (which counts its own two bytes):
/// - a length below 2 is malformed, and a length of 4 with its two bytes
///   present is an empty row, after which the stream stands at `pos + 4`;
/// - a row that is drawn lies on line `y`, and the next row follows its `e`
///   bytes;
/// - a body that begins with a zero and a count `k` is drawn from column
///   `x0 + k`, whatever its last bytes are; any other body from column `x0`;
/// - the pixels are the run-length encoded bytes between the leading zero and
///   count (when present) and a closing zero and its byte (when the
///   second-to-last byte is zero).
pub proof fn lemma_row_type03_layout(s: Seq<u8>, pos: int, x0: int, y: int)
    requires
        0 <= pos,
    ensures
        pos + 2 <= s.len() && (s[pos] as int + 256 * s[pos + 1] as int) < 2 ==> row_type03(s, pos, x0, y) is Malformed,
        pos + 4 <= s.len() && s[pos] == 4 && s[pos + 1] == 0 ==> row_type03(s, pos, x0, y) == RowRead::Skip(pos + 4),
        row_type03(s, pos, x0, y) matches RowRead::Row(p, d) ==> {
            let e = s[pos] as int + 256 * s[pos + 1] as int;
            let lead = s[pos + 2] == 0;
            let tail = s[pos + e - 2] == 0;
            &&& pos + 4 <= pos + e <= s.len()
            &&& p == pos + e
            &&& d.y == y
            &&& (lead ==> d.x == x0 + s[pos + 3])
            &&& (!lead ==> d.x == x0)
            &&& (lead && tail ==> d.idx == expand_rle(s.subrange(pos + 4, pos + e - 2)))
            &&& (!lead && tail ==> d.idx == expand_rle(s.subrange(pos + 2, pos + e - 2)))
            &&& (lead && !tail ==> d.idx == expand_rle(s.subrange(pos + 4, pos + e)))
            &&& (!lead && !tail ==> d.idx == expand_rle(s.subrange(pos + 2, pos + e)))
        },
{
    if pos + 2 <= s.len() {
        let e = s[pos] as int + 256 * s[pos + 1] as int;
        assert(le_u16_at(s, pos) as int == e);
        if let RowRead::Row(p, d) = row_type03(s, pos, x0, y) {
            let n = e - 2;
            let p1 = pos + 2;
            let rest = bytes_at(s, p1, n);
            assert(rest == s.subrange(p1, p1 + n));
            assert(rest[0] == s[pos + 2]);
            assert(rest[1] == s[pos + 3]);
            assert(rest[n - 2] == s[pos + e - 2]);
            if n >= 4 {
                assert(rest.subrange(2, n - 2) =~= s.subrange(pos + 4, pos + e - 2));
            }
            assert(rest.subrange(0, n - 2) =~= s.subrange(pos + 2, pos + e - 2));
            assert(rest.subrange(2, n) =~= s.subrange(pos + 4, pos + e));
            assert(rest =~= s.subrange(pos + 2, pos + e));
        }
    }
}

/// What run-length encoding means, one step at a time: a zero followed by a
/// non-zero count `n` is `n` transparent pixels (index 0); a zero followed by
/// another zero, or at the end of the row, is one transparent pixel; any
/// other byte is one pixel of that index; and an empty row is no pixels.
pub proof fn lemma_expand_rle_steps(q: Seq<u8>, b: u8, n: u8)
    ensures
        expand_rle(Seq::empty()) == Seq::<u8>::empty(),
        1 <= n ==> expand_rle(seq![0u8, n] + q) == Seq::new(n as nat, |k: int| 0u8) + expand_rle(q),
        b != 0 ==> expand_rle(seq![b] + q) == seq![b] + expand_rle(q),
        expand_rle(seq![0u8, 0u8] + q) == seq![0u8] + expand_rle(seq![0u8] + q),
        expand_rle(seq![0u8]) == seq![0u8],
{
    let a = seq![0u8, n] + q;
    assert(a[0] == 0u8 && a[1] == n && a.len() > 1);
    assert(a.skip(2) =~= q);
    let c = seq![b] + q;
    assert(c[0] == b);
    assert(c.skip(1) =~= q);
    let z = seq![0u8, 0u8] + q;
    assert(z[0] == 0u8 && z[1] == 0u8);
    assert(z.skip(1) =~= seq![0u8] + q);
    let one = seq![0u8];
    assert(one.skip(1) =~= Seq::<u8>::empty());
    assert(expand_rle(one.skip(1)) == Seq::<u8>::empty());
    assert(seq![0u8] + Seq::<u8>::empty() =~= seq![0u8]);
}

} // verus!
