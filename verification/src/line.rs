use crate::arith::{div_ceil, lemma_div_ceil_bounds, lemma_div_ge, lemma_div_le, lemma_div_mul_le};
use crate::geom::{
    abs_i, in_coord_range, max_i, min_i, rect_wf, tr_pt, tr_rect, Point, Rect, COORD_MAX,
};
use crate::sqrt::{isqrt, lemma_sqrt_floor_ge, lemma_sqrt_floor_le, sqrt_floor};
use vstd::prelude::*;

verus! {

/// Upper bound, in square pixels, on the area one interior block should
/// cover; it keeps each rectangle's per-pixel distance evaluation bounded in
/// screen size.
pub const AREA_BUDGET: i64 = 300;

/// One rectangle of a stroke decomposition, together with the segment's
/// endpoints translated into the rectangle's local coordinate space.
#[derive(Clone, Copy, Debug, PartialEq, Eq, Structural)]
pub struct StrokeRect {
    pub rect: Rect,
    pub line_start_local: Point,
    pub line_end_local: Point,
}

/// The transposed stroke rectangle (axes exchanged everywhere).
pub open spec fn tr_stroke_rect(sr: StrokeRect) -> StrokeRect {
    StrokeRect {
        rect: tr_rect(sr.rect),
        line_start_local: tr_pt(sr.line_start_local),
        line_end_local: tr_pt(sr.line_end_local),
    }
}

/// The segment shares an x or a y coordinate (this includes zero length).
pub open spec fn axis_aligned(s: Point, e: Point) -> bool {
    s.x == e.x || s.y == e.y
}

/// The x span dominates (ties go to x).
pub open spec fn x_dominant(s: Point, e: Point) -> bool {
    abs_i(e.x - s.x) >= abs_i(e.y - s.y)
}

/// The rectangle's local endpoints are the segment endpoints translated by
/// the rectangle's origin.
pub open spec fn locals_ok(sr: StrokeRect, s: Point, e: Point) -> bool {
    &&& sr.line_start_local.x == s.x - sr.rect.pos.x
    &&& sr.line_start_local.y == s.y - sr.rect.pos.y
    &&& sr.line_end_local.x == e.x - sr.rect.pos.x
    &&& sr.line_end_local.y == e.y - sr.rect.pos.y
}

/// The single rectangle of the axis-aligned case: the segment's bounding box
/// padded by the half width on every side.
pub open spec fn is_axis_rect(sr: StrokeRect, s: Point, e: Point, hw: int) -> bool {
    &&& sr.rect.pos.x == min_i(s.x as int, e.x as int) - hw
    &&& sr.rect.pos.y == min_i(s.y as int, e.y as int) - hw
    &&& sr.rect.size.x == abs_i(e.x - s.x) + 2 * hw
    &&& sr.rect.size.y == abs_i(e.y - s.y) + 2 * hw
    &&& locals_ok(sr, s, e)
}

/// The endpoint with the smaller x coordinate.
pub open spec fn ord_a(s: Point, e: Point) -> Point {
    if s.x <= e.x { s } else { e }
}

/// The endpoint with the larger x coordinate.
pub open spec fn ord_b(s: Point, e: Point) -> Point {
    if s.x <= e.x { e } else { s }
}

/// Dominant-axis extent (positive in the x-dominant, non-axis-aligned case).
pub open spec fn adx(s: Point, e: Point) -> int {
    ord_b(s, e).x - ord_a(s, e).x
}

/// Signed secondary extent, from the ordered start.
pub open spec fn ady(s: Point, e: Point) -> int {
    ord_b(s, e).y - ord_a(s, e).y
}

pub open spec fn ady_mag(s: Point, e: Point) -> int {
    abs_i(ady(s, e))
}

/// Rounded-down segment length.
pub open spec fn seg_len(s: Point, e: Point) -> int {
    sqrt_floor((adx(s, e) * adx(s, e) + ady(s, e) * ady(s, e)) as nat) as int
}

/// Half the stroke band's vertical extent: the half width divided by the
/// cosine of the slope angle, rounded up.
pub open spec fn band_half(s: Point, e: Point, hw: int) -> int {
    div_ceil(hw * seg_len(s, e), adx(s, e))
}

/// How far an end cap reaches past its endpoint along the dominant axis: the
/// half width times the slope's tangent, rounded up, and held back so the two
/// caps never overlap.
pub open spec fn cap_reach(s: Point, e: Point, hw: int) -> int {
    min_i(div_ceil(hw * ady_mag(s, e), adx(s, e)), (adx(s, e) - 1) / 2)
}

/// The centerline's y at offset `t` from the ordered start along x.
pub open spec fn y_on_line(s: Point, e: Point, t: int) -> int {
    if ady(s, e) >= 0 {
        ord_a(s, e).y + (ady_mag(s, e) * t) / adx(s, e)
    } else {
        ord_a(s, e).y - (ady_mag(s, e) * t) / adx(s, e)
    }
}

pub open spec fn cap_ys(s: Point, e: Point, hw: int) -> int {
    y_on_line(s, e, cap_reach(s, e, hw))
}

pub open spec fn cap_ye(s: Point, e: Point, hw: int) -> int {
    y_on_line(s, e, adx(s, e) - cap_reach(s, e, hw))
}

pub open spec fn cap_s_y0(s: Point, e: Point, hw: int) -> int {
    min_i(ord_a(s, e).y as int, cap_ys(s, e, hw)) - band_half(s, e, hw)
}

pub open spec fn cap_s_y1(s: Point, e: Point, hw: int) -> int {
    max_i(ord_a(s, e).y as int, cap_ys(s, e, hw)) + band_half(s, e, hw)
}

pub open spec fn cap_e_y0(s: Point, e: Point, hw: int) -> int {
    min_i(ord_b(s, e).y as int, cap_ye(s, e, hw)) - band_half(s, e, hw)
}

pub open spec fn cap_e_y1(s: Point, e: Point, hw: int) -> int {
    max_i(ord_b(s, e).y as int, cap_ye(s, e, hw)) + band_half(s, e, hw)
}

/// Vertical span bounded by the two end caps; interior blocks are clipped to
/// it so no block extends beyond the stroke.
pub open spec fn clip_lo(s: Point, e: Point, hw: int) -> int {
    min_i(cap_s_y0(s, e, hw), cap_e_y0(s, e, hw))
}

pub open spec fn clip_hi(s: Point, e: Point, hw: int) -> int {
    max_i(cap_s_y1(s, e, hw), cap_e_y1(s, e, hw))
}

/// The start cap: a rectangle from half a width before the ordered start to
/// the cap's reach past it, covering the band.
pub open spec fn is_cap_start(sr: StrokeRect, s: Point, e: Point, hw: int) -> bool {
    &&& sr.rect.pos.x == ord_a(s, e).x - hw
    &&& sr.rect.pos.y == cap_s_y0(s, e, hw)
    &&& sr.rect.size.x == hw + cap_reach(s, e, hw)
    &&& sr.rect.size.y == cap_s_y1(s, e, hw) - cap_s_y0(s, e, hw)
    &&& locals_ok(sr, s, e)
}

/// The end cap, mirrored at the ordered end.
pub open spec fn is_cap_end(sr: StrokeRect, s: Point, e: Point, hw: int) -> bool {
    &&& sr.rect.pos.x == ord_b(s, e).x - cap_reach(s, e, hw)
    &&& sr.rect.pos.y == cap_e_y0(s, e, hw)
    &&& sr.rect.size.x == hw + cap_reach(s, e, hw)
    &&& sr.rect.size.y == cap_e_y1(s, e, hw) - cap_e_y0(s, e, hw)
    &&& locals_ok(sr, s, e)
}

/// The span between the two end caps.
pub open spec fn inner_w(s: Point, e: Point, hw: int) -> int {
    adx(s, e) - 2 * cap_reach(s, e, hw)
}

/// Target block width, chosen so one block covers at most `AREA_BUDGET`
/// square pixels at the band's height.
pub open spec fn block_target(s: Point, e: Point, hw: int) -> int {
    max_i(1, (AREA_BUDGET as int) / (2 * band_half(s, e, hw)))
}

/// Number of interior blocks.
pub open spec fn n_blocks(s: Point, e: Point, hw: int) -> int {
    div_ceil(inner_w(s, e, hw), block_target(s, e, hw))
}

pub open spec fn block_base(s: Point, e: Point, hw: int) -> int {
    inner_w(s, e, hw) / n_blocks(s, e, hw)
}

pub open spec fn block_rem(s: Point, e: Point, hw: int) -> int {
    inner_w(s, e, hw) % n_blocks(s, e, hw)
}

/// Width of block `i`: the blocks share the inner span as evenly as integers
/// allow.
pub open spec fn block_w(s: Point, e: Point, hw: int, i: int) -> int {
    block_base(s, e, hw) + if i < block_rem(s, e, hw) { 1int } else { 0int }
}

/// Offset of block `i`'s left edge from the ordered start.
pub open spec fn block_t0(s: Point, e: Point, hw: int, i: int) -> int {
    cap_reach(s, e, hw) + i * block_base(s, e, hw) + min_i(i, block_rem(s, e, hw))
}

pub open spec fn block_t1(s: Point, e: Point, hw: int, i: int) -> int {
    block_t0(s, e, hw, i) + block_w(s, e, hw, i)
}

pub open spec fn block_raw_y0(s: Point, e: Point, hw: int, i: int) -> int {
    min_i(
        y_on_line(s, e, block_t0(s, e, hw, i)),
        y_on_line(s, e, block_t1(s, e, hw, i)),
    ) - band_half(s, e, hw)
}

pub open spec fn block_raw_y1(s: Point, e: Point, hw: int, i: int) -> int {
    max_i(
        y_on_line(s, e, block_t0(s, e, hw, i)),
        y_on_line(s, e, block_t1(s, e, hw, i)),
    ) + band_half(s, e, hw)
}

/// Interior block `i`: spans its share of the inner width, covers the band
/// around the centerline, clipped to the caps' vertical span.
pub open spec fn is_block(sr: StrokeRect, s: Point, e: Point, hw: int, i: int) -> bool {
    &&& sr.rect.pos.x == ord_a(s, e).x + block_t0(s, e, hw, i)
    &&& sr.rect.size.x == block_w(s, e, hw, i)
    &&& sr.rect.pos.y == max_i(block_raw_y0(s, e, hw, i), clip_lo(s, e, hw))
    &&& sr.rect.size.y == max_i(
        min_i(block_raw_y1(s, e, hw, i), clip_hi(s, e, hw)) - max_i(
            block_raw_y0(s, e, hw, i),
            clip_lo(s, e, hw),
        ),
        0,
    )
    &&& locals_ok(sr, s, e)
}

/// A full x-dominant decomposition: start cap, end cap, then the interior
/// blocks in order.
pub open spec fn is_x_decomposition(res: Seq<StrokeRect>, s: Point, e: Point, hw: int) -> bool {
    &&& res.len() == 2 + n_blocks(s, e, hw)
    &&& is_cap_start(res[0], s, e, hw)
    &&& is_cap_end(res[1], s, e, hw)
    &&& forall|i: int|
        0 <= i < n_blocks(s, e, hw) ==> is_block(#[trigger] res[2 + i], s, e, hw, i)
}

/// What `decompose_line` returns: the padded bounding box for an
/// axis-aligned segment, the cap-and-block decomposition along the dominant
/// axis otherwise (the y-dominant case is the transpose of the x-dominant
/// one).
pub open spec fn is_line_decomposition(res: Seq<StrokeRect>, s: Point, e: Point, hw: int) -> bool {
    if axis_aligned(s, e) {
        res.len() == 1 && is_axis_rect(res[0], s, e, hw)
    } else if x_dominant(s, e) {
        is_x_decomposition(res, s, e, hw)
    } else {
        is_x_decomposition(
            res.map_values(|sr: StrokeRect| tr_stroke_rect(sr)),
            tr_pt(s),
            tr_pt(e),
            hw,
        )
    }
}

/// Interior-subdivision law for a non-axis-aligned, x-dominant segment:
/// there is always at least one interior block, the blocks tile the span
/// between the two end caps exactly — the first starts at the start cap's
/// reach, each further one starts where its predecessor ends, the last ends
/// at the end cap — and the common width times the block count matches the
/// inner width to within one block's rounding.
pub proof fn lemma_block_partition(s: Point, e: Point, hw: int)
    requires
        in_coord_range(s),
        in_coord_range(e),
        !axis_aligned(s, e),
        x_dominant(s, e),
        0 < hw <= COORD_MAX,
    ensures
        n_blocks(s, e, hw) >= 1,
        block_t0(s, e, hw, 0) == cap_reach(s, e, hw),
        block_t1(s, e, hw, n_blocks(s, e, hw) - 1) == cap_reach(s, e, hw) + inner_w(s, e, hw),
        forall|i: int|
            0 <= i < n_blocks(s, e, hw) - 1 ==> #[trigger] block_t1(s, e, hw, i) == block_t0(
                s,
                e,
                hw,
                i + 1,
            ),
        n_blocks(s, e, hw) * block_base(s, e, hw) <= inner_w(s, e, hw) < n_blocks(s, e, hw) * (
        block_base(s, e, hw) + 1),
{
    let dx = adx(s, e);
    let capw = cap_reach(s, e, hw);
    let inner = inner_w(s, e, hw);
    let target = block_target(s, e, hw);
    let nb = n_blocks(s, e, hw);
    let base = block_base(s, e, hw);
    let rem = block_rem(s, e, hw);
    assert(dx >= 1);
    assert(2 * ((dx - 1) / 2) <= dx - 1 && 0 <= (dx - 1) / 2) by (nonlinear_arith)
        requires dx >= 1;
    lemma_div_ceil_bounds(hw * ady_mag(s, e), dx);
    assert(hw * ady_mag(s, e) >= 0) by (nonlinear_arith)
        requires hw > 0 && ady_mag(s, e) >= 0;
    assert(0 <= capw && 2 * capw <= dx - 1);
    assert(inner >= 1);
    assert(target >= 1);
    lemma_div_ge(inner + target - 1, target, 1);
    assert(nb >= 1);
    assert(nb * base + rem == inner && 0 <= rem < nb && nb * base <= inner && inner < nb * (base
        + 1)) by (nonlinear_arith)
        requires base == inner / nb && rem == inner % nb && 1 <= nb && 1 <= inner;
    assert(block_t0(s, e, hw, 0) == capw + 0 * base + min_i(0, rem));
    assert(0 * base == 0) by (nonlinear_arith);
    assert(block_t1(s, e, hw, nb - 1) == capw + inner) by {
        assert((nb - 1) * base + base == nb * base) by (nonlinear_arith);
        assert(min_i(nb - 1, rem) == rem);
    }
    assert forall|i: int| 0 <= i < nb - 1 implies #[trigger] block_t1(s, e, hw, i) == block_t0(
        s,
        e,
        hw,
        i + 1,
    ) by {
        assert((i + 1) * base == i * base + base) by (nonlinear_arith);
        if i < rem {
            assert(min_i(i + 1, rem) == min_i(i, rem) + 1);
        } else {
            assert(min_i(i + 1, rem) == min_i(i, rem));
        }
    }
}

/// Centerline y at an offset, computed in magnitudes: `ay` plus or minus
/// `(m * t) / adxu`.
fn y_at_exec(ay: i64, neg: bool, m: u64, adxu: u64, t: u64) -> (r: i64)
    requires
        1 <= adxu <= 2 * COORD_MAX,
        m <= adxu,
        t <= adxu,
        -COORD_MAX <= ay <= COORD_MAX,
    ensures
        neg ==> r == ay - (m * t) / (adxu as int),
        !neg ==> r == ay + (m * t) / (adxu as int),
        ay - adxu <= r <= ay + adxu,
{
    proof {
        assert(m * t <= 0x4_0000_0000_0000) by (nonlinear_arith)
            requires m <= 0x20_0000u64 && t <= 0x20_0000u64;
        assert((m * t) as int == m as int * t as int);
        assert(m * t < (m + 1) * adxu) by (nonlinear_arith)
            requires m <= adxu && adxu >= 1 && t <= adxu;
        lemma_div_mul_le(m as int * t as int, adxu as int);
        lemma_div_le(m as int * t as int, adxu as int, m as int);
    }
    let q: u64 = (m * t) / adxu;
    if neg {
        ay - (q as i64)
    } else {
        ay + (q as i64)
    }
}

/// Covers the stroke of the segment `start`–`end` with half width
/// `half_width` by axis-aligned rectangles, each carrying the segment's
/// endpoints in its own local space for the distance-field evaluator.
///
/// An axis-aligned segment yields exactly one rectangle, its bounding box
/// padded by the half width. Any other segment yields the two end caps
/// followed by at least one interior block along the dominant axis.
pub fn decompose_line(start: Point, end: Point, half_width: i64) -> (res: Vec<StrokeRect>)
    requires
        in_coord_range(start),
        in_coord_range(end),
        0 < half_width <= COORD_MAX,
    ensures
        is_line_decomposition(res@, start, end, half_width as int),
        res@.len() >= 1,
        axis_aligned(start, end) <==> res@.len() == 1,
        forall|j: int| 0 <= j < res@.len() ==> rect_wf(#[trigger] res@[j].rect),
        forall|j: int| 0 <= j < res@.len() ==> locals_ok(#[trigger] res@[j], start, end),
{
    let hw: i64 = half_width;
    if start.x == end.x || start.y == end.y {
        let px = (if start.x <= end.x { start.x } else { end.x }) - hw;
        let py = (if start.y <= end.y { start.y } else { end.y }) - hw;
        let sx = (if start.x <= end.x { end.x - start.x } else { start.x - end.x }) + 2 * hw;
        let sy = (if start.y <= end.y { end.y - start.y } else { start.y - end.y }) + 2 * hw;
        let pos = Point { x: px, y: py };
        let sr = StrokeRect {
            rect: Rect { pos, size: Point { x: sx, y: sy } },
            line_start_local: Point { x: start.x - px, y: start.y - py },
            line_end_local: Point { x: end.x - px, y: end.y - py },
        };
        let mut res: Vec<StrokeRect> = Vec::new();
        res.push(sr);
        return res;
    }
    let adx_s: i64 = if start.x <= end.x { end.x - start.x } else { start.x - end.x };
    let ady_s: i64 = if start.y <= end.y { end.y - start.y } else { start.y - end.y };
    if adx_s >= ady_s {
        decompose_x(start, end, hw)
    } else {
        let ts = Point { x: start.y, y: start.x };
        let te = Point { x: end.y, y: end.x };
        let inner = decompose_x(ts, te, hw);
        let mut res: Vec<StrokeRect> = Vec::new();
        let n: usize = inner.len();
        let mut i: usize = 0;
        while i < n
            invariant
                n == inner@.len(),
                i <= n,
                res@.len() == i,
                forall|j: int| 0 <= j < i ==> #[trigger] res@[j] == tr_stroke_rect(inner@[j]),
            decreases n - i,
        {
            let sr = inner[i];
            res.push(StrokeRect {
                rect: Rect {
                    pos: Point { x: sr.rect.pos.y, y: sr.rect.pos.x },
                    size: Point { x: sr.rect.size.y, y: sr.rect.size.x },
                },
                line_start_local: Point {
                    x: sr.line_start_local.y,
                    y: sr.line_start_local.x,
                },
                line_end_local: Point { x: sr.line_end_local.y, y: sr.line_end_local.x },
            });
            i = i + 1;
        }
        proof {
            let m = res@.map_values(|sr: StrokeRect| tr_stroke_rect(sr));
            assert forall|j: int| 0 <= j < m.len() implies m[j] == inner@[j] by {
                assert(res@[j] == tr_stroke_rect(inner@[j]));
            }
            assert(m =~= inner@);
            assert forall|j: int| 0 <= j < res@.len() implies rect_wf(#[trigger] res@[j].rect)
                && locals_ok(#[trigger] res@[j], start, end) by {
                assert(rect_wf(inner@[j].rect));
                assert(locals_ok(inner@[j], ts, te));
            }
            assert(n_blocks(ts, te, half_width as int) >= 0);
        }
        res
    }
}


/// The scalar parameters of an x-dominant decomposition.
#[derive(Clone, Copy)]
struct XParams {
    adxu: u64,
    m: u64,
    neg: bool,
    len: u64,
    hh: u64,
    capw: u64,
    inner: u64,
    target: u64,
    nb: u64,
    base: u64,
    rem: u64,
}

/// Each field equals its defining quantity, with the bounds the construction
/// needs.
spec fn x_params_ok(p: XParams, s: Point, e: Point, hw: int) -> bool {
    &&& p.adxu == adx(s, e) && 1 <= p.adxu <= 2 * COORD_MAX
    &&& p.m == ady_mag(s, e) && 1 <= p.m <= p.adxu
    &&& (p.neg <==> ady(s, e) < 0)
    &&& p.len == seg_len(s, e)
    &&& p.hh == band_half(s, e, hw) && 1 <= p.hh <= 2 * hw
    &&& p.capw == cap_reach(s, e, hw) && 0 <= p.capw <= hw && 2 * p.capw <= p.adxu - 1
    &&& p.inner == inner_w(s, e, hw) && 1 <= p.inner <= p.adxu
    &&& p.target == block_target(s, e, hw) && 1 <= p.target <= 300
    &&& p.nb == n_blocks(s, e, hw) && 1 <= p.nb <= p.inner
    &&& p.base == block_base(s, e, hw) && 1 <= p.base
    &&& p.rem == block_rem(s, e, hw) && 0 <= p.rem < p.nb
    &&& p.nb * p.base + p.rem == p.inner
}

/// Computes the scalar parameters of the x-dominant case.
fn x_params(s: Point, e: Point, half_width: i64) -> (p: XParams)
    requires
        in_coord_range(s),
        in_coord_range(e),
        !axis_aligned(s, e),
        x_dominant(s, e),
        0 < half_width <= COORD_MAX,
    ensures
        x_params_ok(p, s, e, half_width as int),
{
    let ghost hwi: int = half_width as int;
    let (a, b): (Point, Point) = if s.x <= e.x { (s, e) } else { (e, s) };
    proof {
        assert(a == ord_a(s, e) && b == ord_b(s, e));
    }
    let adxu: u64 = (b.x - a.x) as u64;
    let adyi: i64 = b.y - a.y;
    let neg: bool = adyi < 0;
    let m: u64 = if neg { (-adyi) as u64 } else { adyi as u64 };
    proof {
        assert(1 <= adxu <= 2 * COORD_MAX);
        assert(1 <= m <= adxu);
        assert(adxu as int == adx(s, e) && m as int == ady_mag(s, e));
        assert(neg <==> ady(s, e) < 0);
        assert(adxu * adxu + m * m <= 0x8_0000_0000_0000) by (nonlinear_arith)
            requires adxu <= 0x20_0000u64 && m <= 0x20_0000u64;
    }
    let sq: u64 = adxu * adxu + m * m;
    let len: u64 = isqrt(sq);
    proof {
        assert(m as int == ady(s, e) || m as int == -ady(s, e));
        assert(sq as int == adx(s, e) * adx(s, e) + ady(s, e) * ady(s, e)) by (nonlinear_arith)
            requires
                adxu as int == adx(s, e) && (m as int == ady(s, e) || m as int == -ady(s, e))
                    && sq == adxu * adxu + m * m;
        assert(len as int == seg_len(s, e));
        assert(adxu * adxu <= sq) by (nonlinear_arith)
            requires sq == adxu * adxu + m * m;
        lemma_sqrt_floor_ge(sq as nat, adxu as nat);
        assert(sq < (2 * adxu - 1 + 1) * (2 * adxu - 1 + 1)) by (nonlinear_arith)
            requires sq == adxu * adxu + m * m && 1 <= m <= adxu;
        assert(((2 * adxu - 1) as nat + 1) * ((2 * adxu - 1) as nat + 1) == (2 * adxu - 1 + 1) * (
        2 * adxu - 1 + 1));
        lemma_sqrt_floor_le(sq as nat, (2 * adxu - 1) as nat);
        assert(adxu <= len <= 2 * adxu - 1);
    }
    let hwu: u64 = half_width as u64;
    proof {
        assert(hwu * len <= 0x10_0000_0000_0000) by (nonlinear_arith)
            requires hwu <= 0x10_0000u64 && len <= 0x40_0000u64;
    }
    let hwl: u64 = hwu * len;
    let hh: u64 = (hwl + adxu - 1) / adxu;
    proof {
        assert(hh as int == band_half(s, e, hwi));
        assert(hwl + adxu - 1 < (2 * hwu + 1) * adxu) by (nonlinear_arith)
            requires hwl == hwu * len && len <= 2 * adxu - 1 && adxu >= 1 && hwu >= 1;
        lemma_div_le((hwl + adxu - 1) as int, adxu as int, 2 * hwu as int);
        assert(adxu <= hwl) by (nonlinear_arith)
            requires hwl == hwu * len && hwu >= 1 && len >= adxu;
        lemma_div_ge((hwl + adxu - 1) as int, adxu as int, 1);
        assert(1 <= hh <= 2 * hwu);
        assert(hwu * m <= 0x10_0000_0000_0000) by (nonlinear_arith)
            requires hwu <= 0x10_0000u64 && m <= 0x20_0000u64;
    }
    let capw_r: u64 = (hwu * m + adxu - 1) / adxu;
    let half_span: u64 = (adxu - 1) / 2;
    let capw: u64 = if capw_r <= half_span { capw_r } else { half_span };
    proof {
        assert(hwu * m + adxu - 1 < (hwu + 1) * adxu) by (nonlinear_arith)
            requires m <= adxu && adxu >= 1 && hwu >= 1;
        lemma_div_le((hwu * m + adxu - 1) as int, adxu as int, hwu as int);
        lemma_div_ge((hwu * m + adxu - 1) as int, adxu as int, 0);
        assert(capw_r <= hwu);
        assert(2 * half_span <= adxu - 1) by (nonlinear_arith)
            requires adxu >= 1 && half_span == (adxu - 1) / 2;
        assert(capw as int == cap_reach(s, e, hwi));
        assert(2 * capw <= adxu - 1);
    }
    let inner: u64 = adxu - 2 * capw;
    let bh0: u64 = 2 * hh;
    let tq: u64 = 300 / bh0;
    let target: u64 = if tq >= 1 { tq } else { 1 };
    proof {
        lemma_div_mul_le(300, bh0 as int);
        assert(inner as int == inner_w(s, e, hwi));
        assert(target as int == block_target(s, e, hwi));
        assert(1 <= inner <= adxu);
        assert(1 <= target <= 300);
    }
    let nb: u64 = (inner + target - 1) / target;
    proof {
        assert(nb as int == n_blocks(s, e, hwi));
        lemma_div_ge((inner + target - 1) as int, target as int, 1);
        assert(inner + target - 1 < (inner + 1) * target) by (nonlinear_arith)
            requires inner >= 1 && target >= 1;
        lemma_div_le((inner + target - 1) as int, target as int, inner as int);
        assert(1 <= nb <= inner);
    }
    let base: u64 = inner / nb;
    let rem: u64 = inner % nb;
    proof {
        assert(base as int == block_base(s, e, hwi) && rem as int == block_rem(s, e, hwi));
        assert(nb * base + rem == inner && 0 <= rem < nb && base >= 1) by (nonlinear_arith)
            requires
                base == inner / nb && rem == inner % nb && 1 <= nb <= inner;
    }
    XParams { adxu, m, neg, len, hh, capw, inner, target, nb, base, rem }
}

/// Builds the two end caps and proves their shape.
fn x_caps(s: Point, e: Point, half_width: i64, p: XParams) -> (caps: (StrokeRect, StrokeRect))
    requires
        in_coord_range(s),
        in_coord_range(e),
        !axis_aligned(s, e),
        x_dominant(s, e),
        0 < half_width <= COORD_MAX,
        x_params_ok(p, s, e, half_width as int),
    ensures
        is_cap_start(caps.0, s, e, half_width as int),
        is_cap_end(caps.1, s, e, half_width as int),
        rect_wf(caps.0.rect),
        rect_wf(caps.1.rect),
        -8 * COORD_MAX <= caps.0.rect.pos.y,
        caps.0.rect.pos.y + caps.0.rect.size.y <= 8 * COORD_MAX,
        -8 * COORD_MAX <= caps.1.rect.pos.y,
        caps.1.rect.pos.y + caps.1.rect.size.y <= 8 * COORD_MAX,
{
    let ghost hwi: int = half_width as int;
    let (a, b): (Point, Point) = if s.x <= e.x { (s, e) } else { (e, s) };
    proof {
        assert(a == ord_a(s, e) && b == ord_b(s, e));
    }
    let ycs: i64 = y_at_exec(a.y, p.neg, p.m, p.adxu, p.capw);
    let yce: i64 = y_at_exec(a.y, p.neg, p.m, p.adxu, p.adxu - p.capw);
    proof {
        assert(ycs as int == cap_ys(s, e, hwi));
        assert(yce as int == cap_ye(s, e, hwi));
    }
    let hh_i: i64 = p.hh as i64;
    let capw_i: i64 = p.capw as i64;
    let cs_y0: i64 = (if a.y <= ycs { a.y } else { ycs }) - hh_i;
    let cs_y1: i64 = (if a.y >= ycs { a.y } else { ycs }) + hh_i;
    let cap_s_pos = Point { x: a.x - half_width, y: cs_y0 };
    let sr0 = StrokeRect {
        rect: Rect {
            pos: cap_s_pos,
            size: Point { x: half_width + capw_i, y: cs_y1 - cs_y0 },
        },
        line_start_local: Point { x: s.x - cap_s_pos.x, y: s.y - cap_s_pos.y },
        line_end_local: Point { x: e.x - cap_s_pos.x, y: e.y - cap_s_pos.y },
    };
    let ce_y0: i64 = (if b.y <= yce { b.y } else { yce }) - hh_i;
    let ce_y1: i64 = (if b.y >= yce { b.y } else { yce }) + hh_i;
    let cap_e_pos = Point { x: b.x - capw_i, y: ce_y0 };
    let sr1 = StrokeRect {
        rect: Rect {
            pos: cap_e_pos,
            size: Point { x: half_width + capw_i, y: ce_y1 - ce_y0 },
        },
        line_start_local: Point { x: s.x - cap_e_pos.x, y: s.y - cap_e_pos.y },
        line_end_local: Point { x: e.x - cap_e_pos.x, y: e.y - cap_e_pos.y },
    };
    proof {
        assert(is_cap_start(sr0, s, e, hwi));
        assert(is_cap_end(sr1, s, e, hwi));
    }
    (sr0, sr1)
}

/// Builds interior block `i` and proves its shape.
fn x_block(
    s: Point,
    e: Point,
    half_width: i64,
    p: XParams,
    i: usize,
    vy_lo: i64,
    vy_hi: i64,
) -> (sr: StrokeRect)
    requires
        in_coord_range(s),
        in_coord_range(e),
        !axis_aligned(s, e),
        x_dominant(s, e),
        0 < half_width <= COORD_MAX,
        x_params_ok(p, s, e, half_width as int),
        i < p.nb,
        vy_lo == clip_lo(s, e, half_width as int),
        vy_hi == clip_hi(s, e, half_width as int),
        -8 * COORD_MAX <= vy_lo <= 8 * COORD_MAX,
        -8 * COORD_MAX <= vy_hi <= 8 * COORD_MAX,
    ensures
        is_block(sr, s, e, half_width as int, i as int),
        rect_wf(sr.rect),
{
    let ghost hwi: int = half_width as int;
    let (a, b): (Point, Point) = if s.x <= e.x { (s, e) } else { (e, s) };
    proof {
        assert(a == ord_a(s, e) && b == ord_b(s, e));
    }
    let iu: u64 = i as u64;
    proof {
        assert(iu * p.base <= p.nb * p.base) by (nonlinear_arith)
            requires iu < p.nb && p.base >= 0;
    }
    let minir: u64 = if iu <= p.rem { iu } else { p.rem };
    let off0: u64 = p.capw + iu * p.base + minir;
    let bw: u64 = p.base + (if iu < p.rem { 1 } else { 0 });
    let off1: u64 = off0 + bw;
    proof {
        assert(iu * p.base + minir + bw <= p.nb * p.base + p.rem) by (nonlinear_arith)
            requires
                iu < p.nb && p.base >= 1 && 0 <= p.rem < p.nb
                    && minir == (if iu <= p.rem { iu } else { p.rem })
                    && bw == p.base + (if iu < p.rem { 1u64 } else { 0u64 });
        assert(off1 <= p.capw + p.inner);
        assert(off1 <= p.adxu - p.capw);
        assert(off0 as int == block_t0(s, e, hwi, i as int));
        assert(bw as int == block_w(s, e, hwi, i as int));
        assert(off1 as int == block_t1(s, e, hwi, i as int));
    }
    let y0l: i64 = y_at_exec(a.y, p.neg, p.m, p.adxu, off0);
    let y1l: i64 = y_at_exec(a.y, p.neg, p.m, p.adxu, off1);
    let hh_i: i64 = p.hh as i64;
    let raw_lo: i64 = (if y0l <= y1l { y0l } else { y1l }) - hh_i;
    let raw_hi: i64 = (if y0l >= y1l { y0l } else { y1l }) + hh_i;
    let cy0: i64 = if raw_lo >= vy_lo { raw_lo } else { vy_lo };
    let cy1: i64 = if raw_hi <= vy_hi { raw_hi } else { vy_hi };
    let h: i64 = if cy1 - cy0 >= 0 { cy1 - cy0 } else { 0 };
    let bx: i64 = a.x + (off0 as i64);
    let pos = Point { x: bx, y: cy0 };
    let sr = StrokeRect {
        rect: Rect { pos, size: Point { x: bw as i64, y: h } },
        line_start_local: Point { x: s.x - pos.x, y: s.y - pos.y },
        line_end_local: Point { x: e.x - pos.x, y: e.y - pos.y },
    };
    proof {
        assert(raw_lo as int == block_raw_y0(s, e, hwi, i as int));
        assert(raw_hi as int == block_raw_y1(s, e, hwi, i as int));
        assert(is_block(sr, s, e, hwi, i as int));
    }
    sr
}

/// The x-dominant decomposition proper.
#[verifier::loop_isolation(false)]
fn decompose_x(s: Point, e: Point, half_width: i64) -> (res: Vec<StrokeRect>)
    requires
        in_coord_range(s),
        in_coord_range(e),
        !axis_aligned(s, e),
        x_dominant(s, e),
        0 < half_width <= COORD_MAX,
    ensures
        is_x_decomposition(res@, s, e, half_width as int),
        n_blocks(s, e, half_width as int) >= 1,
        forall|j: int| 0 <= j < res@.len() ==> rect_wf(#[trigger] res@[j].rect),
        forall|j: int| 0 <= j < res@.len() ==> locals_ok(#[trigger] res@[j], s, e),
{
    let ghost hwi: int = half_width as int;
    let p = x_params(s, e, half_width);
    let (sr0, sr1) = x_caps(s, e, half_width, p);
    let vy_lo: i64 = if sr0.rect.pos.y <= sr1.rect.pos.y { sr0.rect.pos.y } else { sr1.rect.pos.y };
    let cs_top: i64 = sr0.rect.pos.y + sr0.rect.size.y;
    let ce_top: i64 = sr1.rect.pos.y + sr1.rect.size.y;
    let vy_hi: i64 = if cs_top >= ce_top { cs_top } else { ce_top };
    proof {
        assert(vy_lo as int == clip_lo(s, e, hwi));
        assert(vy_hi as int == clip_hi(s, e, hwi));
    }
    let mut res: Vec<StrokeRect> = Vec::new();
    res.push(sr0);
    res.push(sr1);
    let nbu: usize = p.nb as usize;
    let mut i: usize = 0;
    while i < nbu
        invariant
            i <= nbu,
            res@.len() == 2 + i,
            res@[0] == sr0,
            res@[1] == sr1,
            forall|j: int| 0 <= j < i ==> is_block(#[trigger] res@[2 + j], s, e, hwi, j),
            forall|j: int| 0 <= j < res@.len() ==> rect_wf(#[trigger] res@[j].rect),
        decreases nbu - i,
    {
        let sr = x_block(s, e, half_width, p, i, vy_lo, vy_hi);
        res.push(sr);
        i = i + 1;
    }
    proof {
        assert(is_x_decomposition(res@, s, e, hwi));
        assert forall|j: int| 0 <= j < res@.len() implies locals_ok(#[trigger] res@[j], s, e) by {
            if j == 0 {
                assert(is_cap_start(res@[0], s, e, hwi));
            } else if j == 1 {
                assert(is_cap_end(res@[1], s, e, hwi));
            } else {
                assert(is_block(res@[2 + (j - 2)], s, e, hwi, j - 2));
                assert(res@[2 + (j - 2)] == res@[j]);
            }
        }
    }
    res
}

} // verus!
