//! Painting rows of palette indices onto a frame's canvas.
use vstd::prelude::*;
use crate::pixels::{frame_image_view, img_height, img_pixels, img_width, Px};
use super::rows::{RowDraw, RowSpec};
use super::types::{ColorPoint, ShapeUnitFrame};

verus! {

// ---------------------------------------------------------------------------
// Colours

/// An ARGB word as RGBA channels.
pub open spec fn argb_px(argb: u32) -> (u8, u8, u8, u8) {
    (
        (argb as int / 0x1_0000 % 0x100) as u8,
        (argb as int / 0x100 % 0x100) as u8,
        (argb as int % 0x100) as u8,
        (argb as int / 0x100_0000 % 0x100) as u8,
    )
}

/// Splits an ARGB word into its bytes, in RGBA order.
pub fn argb_to_rgba(argb: u32) -> (r: [u8; 4])
    ensures
        (r[0], r[1], r[2], r[3]) == argb_px(argb),
{
    assert(((argb >> 24) & 0xFF) == argb / 0x100_0000 % 0x100) by (bit_vector);
    assert(((argb >> 16) & 0xFF) == argb / 0x1_0000 % 0x100) by (bit_vector);
    assert(((argb >> 8) & 0xFF) == argb / 0x100 % 0x100) by (bit_vector);
    assert((argb & 0xFF) == argb % 0x100) by (bit_vector);
    let a = ((argb >> 24) & 0xFF) as u8;
    let r = ((argb >> 16) & 0xFF) as u8;
    let g = ((argb >> 8) & 0xFF) as u8;
    let b = (argb & 0xFF) as u8;
    [r, g, b, a]
}

// ---------------------------------------------------------------------------
// Drawing rows

/// A row lies inside a `w` x `h` canvas (an empty row draws nothing and
/// always fits).
pub open spec fn row_fits(d: RowSpec, w: int, h: int) -> bool {
    d.idx.len() == 0 || (0 <= d.y < h && 0 <= d.x && d.x + d.idx.len() <= w)
}

pub open spec fn rows_fit(rows: Seq<RowSpec>, w: int, h: int) -> bool {
    forall|k: int| 0 <= k < rows.len() ==> row_fits(#[trigger] rows[k], w, h)
}

/// The canvas `px` (of width `w`) with the first `k` pixels of row `d`
/// painted in the colours that `ca` gives their indices.
pub open spec fn paint_row(px: Seq<Px>, w: int, ca: Seq<u32>, d: RowSpec, k: int) -> Seq<Px> {
    Seq::new(px.len(), |i: int| {
        let base = d.y * w + d.x;
        if base <= i < base + k { argb_px(ca[d.idx[i - base] as int]) } else { px[i] }
    })
}

/// The canvas with the rows painted in order, later rows over earlier ones.
pub open spec fn paint_rows(px: Seq<Px>, w: int, ca: Seq<u32>, rows: Seq<RowSpec>) -> Seq<Px>
    decreases rows.len(),
{
    if rows.len() == 0 {
        px
    } else {
        paint_row(paint_rows(px, w, ca, rows.drop_last()), w, ca, rows.last(), rows.last().idx.len() as int)
    }
}

/// The palette indices that show the house colour.
pub open spec fn is_house_index(i: u8) -> bool {
    16 <= i < 32
}

/// Painting keeps the canvas size.
pub proof fn lemma_paint_rows_len(px: Seq<Px>, w: int, ca: Seq<u32>, rows: Seq<RowSpec>)
    ensures
        paint_rows(px, w, ca, rows).len() == px.len(),
    decreases rows.len(),
{
    if rows.len() > 0 {
        lemma_paint_rows_len(px, w, ca, rows.drop_last());
    }
}

/// The house-colour pixels among the first `k` pixels of row `d`, left to right.
pub open spec fn row_points(d: RowSpec, k: nat) -> Seq<ColorPoint>
    decreases k,
{
    if k == 0 {
        Seq::empty()
    } else {
        row_points(d, (k - 1) as nat) + if is_house_index(d.idx[k - 1]) {
            seq![ColorPoint { x: (d.x + k - 1) as usize, y: d.y as usize }]
        } else {
            Seq::empty()
        }
    }
}

/// The house-colour pixels of all rows, in the order they are drawn.
pub open spec fn rows_points(rows: Seq<RowSpec>) -> Seq<ColorPoint>
    decreases rows.len(),
{
    if rows.len() == 0 {
        Seq::empty()
    } else {
        rows_points(rows.drop_last()) + row_points(rows.last(), rows.last().idx.len())
    }
}

pub open spec fn points_view(o: Option<Vec<ColorPoint>>) -> Option<Seq<ColorPoint>> {
    match o {
        Some(v) => Some(v@),
        None => None,
    }
}

/// A pixel inside a `w` x `h` canvas has a row-major index inside it.
pub proof fn lemma_pixel_index(x: int, y: int, w: int, h: int)
    requires
        0 <= x < w,
        0 <= y < h,
    ensures
        0 <= y * w + x < w * h,
{
    assert(y * w + x < w * h) by (nonlinear_arith)
        requires 0 <= x < w, 0 <= y < h;
    assert(0 <= y * w) by (nonlinear_arith)
        requires 0 <= y, 0 <= w;
}

/// Draws one row on the frame's canvas in the colours of `color_array`,
/// and, when house colours are tracked, records its house-colour pixels.
pub fn draw_pixel_row(
    row: &RowDraw,
    shape_unit_frame: &mut ShapeUnitFrame,
    color_array: &[u32; 256],
    is_use_unit_color: bool,
)
    requires
        row_fits(row@, img_width(old(shape_unit_frame).image) as int, img_height(old(shape_unit_frame).image) as int),
        img_pixels(old(shape_unit_frame).image).len()
            == img_width(old(shape_unit_frame).image) as int * img_height(old(shape_unit_frame).image) as int,
    ensures
        frame_image_view(final(shape_unit_frame).image) == (
            img_width(old(shape_unit_frame).image),
            img_height(old(shape_unit_frame).image),
            paint_row(img_pixels(old(shape_unit_frame).image), img_width(old(shape_unit_frame).image) as int,
                color_array@, row@, row@.idx.len() as int),
        ),
        points_view(final(shape_unit_frame).color_points) == match points_view(old(shape_unit_frame).color_points) {
            Some(l) => if is_use_unit_color { Some(l + row_points(row@, row@.idx.len())) } else { Some(l) },
            None => None,
        },
        final(shape_unit_frame).min_x == old(shape_unit_frame).min_x,
        final(shape_unit_frame).min_y == old(shape_unit_frame).min_y,
        final(shape_unit_frame).max_x == old(shape_unit_frame).max_x,
        final(shape_unit_frame).max_y == old(shape_unit_frame).max_y,
        final(shape_unit_frame).real_part_width == old(shape_unit_frame).real_part_width,
        final(shape_unit_frame).real_part_height == old(shape_unit_frame).real_part_height,
{
    let ghost w = img_width(old(shape_unit_frame).image) as int;
    let ghost h = img_height(old(shape_unit_frame).image) as int;
    let ghost px0 = img_pixels(old(shape_unit_frame).image);
    let ghost cp0 = points_view(old(shape_unit_frame).color_points);
    let n = row.indices.len();
    let mut k: usize = 0;
    assert(paint_row(px0, w, color_array@, row@, 0) =~= px0);
    while k < n
        invariant
            k <= n,
            n == row@.idx.len(),
            row_fits(row@, w, h),
            px0.len() == w * h,
            frame_image_view(shape_unit_frame.image) == (w as u32, h as u32, paint_row(px0, w, color_array@, row@, k as int)),
            w == img_width(old(shape_unit_frame).image) as int,
            h == img_height(old(shape_unit_frame).image) as int,
            points_view(shape_unit_frame.color_points) == match cp0 {
                Some(l) => if is_use_unit_color { Some(l + row_points(row@, k as nat)) } else { Some(l) },
                None => None,
            },
            shape_unit_frame.min_x == old(shape_unit_frame).min_x,
            shape_unit_frame.min_y == old(shape_unit_frame).min_y,
            shape_unit_frame.max_x == old(shape_unit_frame).max_x,
            shape_unit_frame.max_y == old(shape_unit_frame).max_y,
            shape_unit_frame.real_part_width == old(shape_unit_frame).real_part_width,
            shape_unit_frame.real_part_height == old(shape_unit_frame).real_part_height,
        decreases n - k,
    {
        let cur_x = row.x + k;
        let cur_y = row.y;
        let color_index = row.indices[k] as usize;
        proof { lemma_pixel_index(cur_x as int, cur_y as int, w, h); }
        let ghost before = img_pixels(shape_unit_frame.image);
        shape_unit_frame.image.put_pixel(cur_x as u32, cur_y as u32, argb_to_rgba(color_array[color_index]));
        assert(img_pixels(shape_unit_frame.image) =~= paint_row(px0, w, color_array@, row@, k + 1));
        if is_use_unit_color && 16 <= color_index && color_index < 32 {
            if let Some(list) = &mut shape_unit_frame.color_points {
                list.push(ColorPoint { x: cur_x, y: cur_y });
            }
        }
        proof {
            match cp0 {
                Some(l) => {
                    if is_use_unit_color {
                        assert(l + row_points(row@, (k + 1) as nat) =~= (l + row_points(row@, k as nat))
                            + if is_house_index(row@.idx[k as int]) {
                                seq![ColorPoint { x: cur_x, y: cur_y }]
                            } else {
                                Seq::empty()
                            });
                    }
                },
                None => {},
            }
        }
        k = k + 1;
    }
}

// ---------------------------------------------------------------------------
// Laws
/// The house-colour pixels of a row that fits lie inside the canvas.
pub proof fn lemma_row_points_inside(d: RowSpec, k: nat, w: int, h: int)
    requires
        row_fits(d, w, h),
        k <= d.idx.len(),
        w <= 0xFFFF,
        h <= 0xFFFF,
    ensures
        forall|j: int| 0 <= j < row_points(d, k).len() ==> {
            &&& (#[trigger] row_points(d, k)[j]).x < w
            &&& row_points(d, k)[j].y < h
        },
    decreases k,
{
    if k > 0 {
        lemma_row_points_inside(d, (k - 1) as nat, w, h);
        let a = row_points(d, (k - 1) as nat);
        let b = if is_house_index(d.idx[k - 1]) {
            seq![ColorPoint { x: (d.x + k - 1) as usize, y: d.y as usize }]
        } else {
            Seq::empty()
        };
        assert(row_points(d, k) == a + b);
        assert forall|j: int| 0 <= j < row_points(d, k).len() implies {
            &&& (#[trigger] row_points(d, k)[j]).x < w
            &&& row_points(d, k)[j].y < h
        } by {
            if j < a.len() {
                assert(row_points(d, k)[j] == a[j]);
            } else {
                assert(row_points(d, k)[j] == b[j - a.len()]);
            }
        }
    }
}

/// The house-colour pixels of rows that fit lie inside the canvas.
pub proof fn lemma_rows_points_inside(rows: Seq<RowSpec>, w: int, h: int)
    requires
        rows_fit(rows, w, h),
        w <= 0xFFFF,
        h <= 0xFFFF,
    ensures
        forall|j: int| 0 <= j < rows_points(rows).len() ==> {
            &&& (#[trigger] rows_points(rows)[j]).x < w
            &&& rows_points(rows)[j].y < h
        },
    decreases rows.len(),
{
    if rows.len() > 0 {
        let last = rows.last();
        assert(row_fits(rows[rows.len() - 1], w, h));
        assert(rows_fit(rows.drop_last(), w, h)) by {
            assert forall|k: int| 0 <= k < rows.drop_last().len() implies row_fits(#[trigger] rows.drop_last()[k], w, h) by {
                assert(rows.drop_last()[k] == rows[k]);
            }
        }
        lemma_rows_points_inside(rows.drop_last(), w, h);
        lemma_row_points_inside(last, last.idx.len(), w, h);
        let a = rows_points(rows.drop_last());
        let b = row_points(last, last.idx.len());
        assert forall|j: int| 0 <= j < rows_points(rows).len() implies {
            &&& (#[trigger] rows_points(rows)[j]).x < w
            &&& rows_points(rows)[j].y < h
        } by {
            if j < a.len() {
                assert(rows_points(rows)[j] == a[j]);
            } else {
                assert(rows_points(rows)[j] == b[j - a.len()]);
            }
        }
    }
}

/// The canvas index `i` lies in the span of row `d` on a canvas of width `w`.
pub open spec fn row_covers(d: RowSpec, w: int, i: int) -> bool {
    d.y * w + d.x <= i < d.y * w + d.x + d.idx.len()
}

/// Painting leaves alone every pixel that no row covers.
pub proof fn lemma_uncovered_unchanged(px: Seq<Px>, w: int, ca: Seq<u32>, rows: Seq<RowSpec>, i: int)
    requires
        0 <= i < px.len(),
        forall|k: int| 0 <= k < rows.len() ==> !row_covers(#[trigger] rows[k], w, i),
    ensures
        paint_rows(px, w, ca, rows)[i] == px[i],
    decreases rows.len(),
{
    if rows.len() > 0 {
        assert forall|k: int| 0 <= k < rows.drop_last().len() implies !row_covers(#[trigger] rows.drop_last()[k], w, i) by {
            assert(rows.drop_last()[k] == rows[k]);
        }
        lemma_uncovered_unchanged(px, w, ca, rows.drop_last(), i);
        lemma_paint_rows_len(px, w, ca, rows.drop_last());
        assert(!row_covers(rows[rows.len() - 1], w, i));
    }
}

/// The pixel a row paints last: the pixel at index `i` of a row's span shows
/// the colour of the palette index at that place in the row, unless a later
/// row covers it.
pub proof fn lemma_last_row_wins(px: Seq<Px>, w: int, ca: Seq<u32>, rows: Seq<RowSpec>, k: int, i: int)
    requires
        0 <= i < px.len(),
        0 <= k < rows.len(),
        row_covers(rows[k], w, i),
        forall|m: int| k < m < rows.len() ==> !row_covers(#[trigger] rows[m], w, i),
    ensures
        paint_rows(px, w, ca, rows)[i] == argb_px(ca[rows[k].idx[i - (rows[k].y * w + rows[k].x)] as int]),
    decreases rows.len(),
{
    lemma_paint_rows_len(px, w, ca, rows.drop_last());
    if k == rows.len() - 1 {
    } else {
        assert forall|m: int| k < m < rows.drop_last().len() implies !row_covers(#[trigger] rows.drop_last()[m], w, i) by {
            assert(rows.drop_last()[m] == rows[m]);
        }
        assert(rows.drop_last()[k] == rows[k]);
        lemma_last_row_wins(px, w, ca, rows.drop_last(), k, i);
        assert(!row_covers(rows[rows.len() - 1], w, i));
    }
}

/// The house-colour pixels among the first `m` pixels of row `d` lie in its
/// columns `d.x .. d.x + m`, on its line.
proof fn lemma_row_points_span(d: RowSpec, m: nat)
    requires
        0 <= d.x,
        d.x + m <= usize::MAX,
        0 <= d.y <= usize::MAX,
        m <= d.idx.len(),
    ensures
        forall|j: int| 0 <= j < row_points(d, m).len() ==> {
            &&& d.x <= (#[trigger] row_points(d, m)[j]).x < d.x + m
            &&& row_points(d, m)[j].y == d.y
        },
    decreases m,
{
    if m > 0 {
        lemma_row_points_span(d, (m - 1) as nat);
        let a = row_points(d, (m - 1) as nat);
        let b = if is_house_index(d.idx[m - 1]) {
            seq![ColorPoint { x: (d.x + m - 1) as usize, y: d.y as usize }]
        } else {
            Seq::empty()
        };
        assert(row_points(d, m) == a + b);
        assert forall|j: int| 0 <= j < row_points(d, m).len() implies {
            &&& d.x <= (#[trigger] row_points(d, m)[j]).x < d.x + m
            &&& row_points(d, m)[j].y == d.y
        } by {
            if j < a.len() {
                assert(row_points(d, m)[j] == a[j]);
            } else {
                assert(row_points(d, m)[j] == b[j - a.len()]);
            }
        }
    }
}

proof fn lemma_row_points_prefix(d: RowSpec, m: nat, k: int)
    requires
        0 <= d.x,
        d.x + m <= usize::MAX,
        0 <= d.y <= usize::MAX,
        m <= d.idx.len(),
        0 <= k < m,
    ensures
        row_points(d, m).contains(ColorPoint { x: (d.x + k) as usize, y: d.y as usize })
            <==> (16 <= d.idx[k] && d.idx[k] < 32),
    decreases m,
{
    let pt = ColorPoint { x: (d.x + k) as usize, y: d.y as usize };
    let a = row_points(d, (m - 1) as nat);
    let b = if is_house_index(d.idx[m - 1]) {
        seq![ColorPoint { x: (d.x + m - 1) as usize, y: d.y as usize }]
    } else {
        Seq::empty()
    };
    let r = row_points(d, m);
    assert(r == a + b);
    lemma_row_points_span(d, (m - 1) as nat);
    if k == m - 1 {
        // `pt` lies right of every point of `a`.
        assert(!a.contains(pt)) by {
            if a.contains(pt) {
                let j = choose|j: int| 0 <= j < a.len() && a[j] == pt;
                assert(a[j].x < d.x + m - 1);
            }
        }
        if 16 <= d.idx[k] && d.idx[k] < 32 {
            assert(r[a.len() as int] == pt);
        } else {
            assert(r =~= a);
        }
    } else {
        lemma_row_points_prefix(d, (m - 1) as nat, k);
        if a.contains(pt) {
            let j = choose|j: int| 0 <= j < a.len() && a[j] == pt;
            assert(r[j] == pt);
        }
        if r.contains(pt) {
            let j = choose|j: int| 0 <= j < r.len() && r[j] == pt;
            if j >= a.len() {
                assert(r[j] == b[j - a.len()]);
                assert(false);
            } else {
                assert(a[j] == pt);
            }
        }
    }
}

/// A pixel of a row is recorded in the house-colour pixels exactly when its
/// palette index lies in 16..=31: for every place `k` of row `d`, the point
/// `(d.x + k, d.y)` is among `row_points(d, len)` if and only if
/// `16 <= d.idx[k] < 32`.
pub proof fn lemma_row_points_exact(d: RowSpec, k: int)
    requires
        0 <= d.x,
        d.x + d.idx.len() <= usize::MAX,
        0 <= d.y <= usize::MAX,
        0 <= k < d.idx.len(),
    ensures
        row_points(d, d.idx.len()).contains(ColorPoint { x: (d.x + k) as usize, y: d.y as usize })
            <==> (16 <= d.idx[k] && d.idx[k] < 32),
{
    lemma_row_points_prefix(d, d.idx.len(), k);
}

} // verus!
