use crate::arith::{lemma_div_le, lemma_div_mul_le};
use crate::geom::{Point, COORD_MAX};
use crate::line::{locals_ok, StrokeRect};
use crate::sqrt::{isqrt, sqrt_floor};
use vstd::prelude::*;

verus! {

/// Fixed-point scale of the projection parameter along the segment.
pub const PROJ_SCALE: i64 = 1024;

/// Full coverage: the value an entirely inside pixel receives.
pub const COV_ONE: i64 = 256;

/// Coordinates the evaluator accepts: every rectangle the decomposer emits
/// keeps its local endpoints inside this bound.
pub open spec fn eval_range(v: int) -> bool {
    -8 * COORD_MAX <= v <= 8 * COORD_MAX
}

pub open spec fn clamp_i(v: int, lo: int, hi: int) -> int {
    if v <= lo {
        lo
    } else if v >= hi {
        hi
    } else {
        v
    }
}

/// Offset magnitude of the clamped projection along one axis.
pub open spec fn off_mag(h: int, dmag: int) -> int {
    (h * dmag) / (PROJ_SCALE as int)
}

/// Signed offset of the clamped projection along one axis.
pub open spec fn off_signed(h: int, d: int) -> int {
    if d >= 0 {
        off_mag(h, d)
    } else {
        -off_mag(h, -d)
    }
}

/// The squared distance from `w` (the pixel relative to the segment start)
/// to the projection of `w` onto the segment direction `d`, with the
/// projection parameter clamped to the segment and held in `PROJ_SCALE`ths.
pub open spec fn seg_dist_sq_wd(wx: int, wy: int, dx: int, dy: int) -> int {
    let ll = dx * dx + dy * dy;
    let tc = clamp_i(wx * dx + wy * dy, 0, ll);
    let h = (tc * PROJ_SCALE) / ll;
    let ox = off_signed(h, dx);
    let oy = off_signed(h, dy);
    (wx - ox) * (wx - ox) + (wy - oy) * (wy - oy)
}

/// Rounded distance from pixel `p` to the segment `a`–`b`. It depends only
/// on the differences `p - a` and `b - a`, so it reads the same in any
/// translated coordinate frame.
pub open spec fn seg_dist(px: int, py: int, ax: int, ay: int, bx: int, by: int) -> int {
    sqrt_floor(seg_dist_sq_wd(px - ax, py - ay, bx - ax, by - ay) as nat) as int
}

/// Anti-aliased coverage: full inside `hw - 1`, zero outside `hw`, a linear
/// ramp across the one-pixel band between.
pub open spec fn coverage_of(dist: int, hw: int) -> int {
    clamp_i((hw - dist) * (COV_ONE as int), 0, COV_ONE as int)
}

/// The distance field is translation invariant: evaluating against a
/// translated segment at the translated pixel gives the same value.
pub proof fn lemma_seg_dist_translation(
    px: int,
    py: int,
    ax: int,
    ay: int,
    bx: int,
    by: int,
    ox: int,
    oy: int,
)
    ensures
        seg_dist(px - ox, py - oy, ax - ox, ay - oy, bx - ox, by - oy) == seg_dist(
            px,
            py,
            ax,
            ay,
            bx,
            by,
        ),
{
}

/// The distance field read through any rectangle of a stroke decomposition
/// is the distance field of the original segment: local pixel against local
/// endpoints equals global pixel against the segment itself.
pub proof fn lemma_local_eval_matches(sr: StrokeRect, s: Point, e: Point, px: int, py: int)
    requires
        locals_ok(sr, s, e),
    ensures
        seg_dist(
            px - sr.rect.pos.x,
            py - sr.rect.pos.y,
            sr.line_start_local.x as int,
            sr.line_start_local.y as int,
            sr.line_end_local.x as int,
            sr.line_end_local.y as int,
        ) == seg_dist(px, py, s.x as int, s.y as int, e.x as int, e.y as int),
{
    lemma_seg_dist_translation(
        px,
        py,
        s.x as int,
        s.y as int,
        e.x as int,
        e.y as int,
        sr.rect.pos.x as int,
        sr.rect.pos.y as int,
    );
}

/// Offset of the clamped projection along one axis, by magnitude and sign.
fn off_exec(h: u64, d: i64) -> (r: i64)
    requires
        h <= PROJ_SCALE,
        -32 * COORD_MAX <= d <= 32 * COORD_MAX,
    ensures
        r == off_signed(h as int, d as int),
        -32 * COORD_MAX <= r <= 32 * COORD_MAX,
        d >= 0 ==> 0 <= r <= d,
        d < 0 ==> d <= r <= 0,
{
    let dm: u64 = if d >= 0 { d as u64 } else { (-d) as u64 };
    proof {
        assert(h * dm <= 0x2000_0000_0000) by (nonlinear_arith)
            requires h <= 0x400u64 && dm <= 0x200_0000u64;
        assert(h * dm < (dm + 1) * 1024) by (nonlinear_arith)
            requires h <= 1024u64;
        lemma_div_le((h * dm) as int, 1024, dm as int);
        lemma_div_mul_le((h * dm) as int, 1024);
    }
    let q: u64 = (h * dm) / 1024;
    if d >= 0 {
        q as i64
    } else {
        -(q as i64)
    }
}

/// Distance and anti-aliased coverage of one pixel against the segment
/// `a`–`b` with half width `hw`: the pixel is projected onto the segment,
/// clamped to it, and its rounded distance to that projection is thresholded
/// across the one-pixel band at the stroke's edge.
pub fn line_eval(p: Point, a: Point, b: Point, hw: i64) -> (r: (i64, i64))
    requires
        eval_range(p.x as int) && eval_range(p.y as int),
        eval_range(a.x as int) && eval_range(a.y as int),
        eval_range(b.x as int) && eval_range(b.y as int),
        a != b,
        0 < hw <= COORD_MAX,
    ensures
        r.0 == seg_dist(p.x as int, p.y as int, a.x as int, a.y as int, b.x as int, b.y as int),
        r.1 == coverage_of(r.0 as int, hw as int),
        0 <= r.1 <= COV_ONE,
        r.1 == COV_ONE <==> r.0 <= hw - 1,
        r.1 == 0 <==> r.0 >= hw,
{
    let wx: i64 = p.x - a.x;
    let wy: i64 = p.y - a.y;
    let dx: i64 = b.x - a.x;
    let dy: i64 = b.y - a.y;
    proof {
        assert(wx * dx <= 0x1_0000_0000_0000 && wx * dx >= -0x1_0000_0000_0000 && wy * dy
            <= 0x1_0000_0000_0000 && wy * dy >= -0x1_0000_0000_0000 && dx * dx
            <= 0x1_0000_0000_0000 && dy * dy <= 0x1_0000_0000_0000 && dx * dx >= 0 && dy * dy
            >= 0) by (nonlinear_arith)
            requires
                -0x100_0000 <= wx <= 0x100_0000 && -0x100_0000 <= wy <= 0x100_0000 && -0x100_0000
                    <= dx <= 0x100_0000 && -0x100_0000 <= dy <= 0x100_0000;
        assert(dx * dx + dy * dy > 0) by (nonlinear_arith)
            requires dx != 0 || dy != 0;
    }
    let t: i64 = wx * dx + wy * dy;
    let ll: i64 = dx * dx + dy * dy;
    let tc: i64 = if t <= 0 {
        0
    } else if t >= ll {
        ll
    } else {
        t
    };
    let tcu: u64 = tc as u64;
    let llu: u64 = ll as u64;
    proof {
        assert(tcu * 1024 < (1024 + 1) * llu) by (nonlinear_arith)
            requires tcu <= llu && llu >= 1;
        lemma_div_le((tcu * 1024) as int, llu as int, 1024);
        lemma_div_mul_le((tcu * 1024) as int, llu as int);
    }
    let h: u64 = (tcu * 1024) / llu;
    let ox: i64 = off_exec(h, dx);
    let oy: i64 = off_exec(h, dy);
    let ex: i64 = wx - ox;
    let ey: i64 = wy - oy;
    proof {
        assert(ex * ex + ey * ey <= 0x10_0000_0000_0000 && ex * ex >= 0 && ey * ey >= 0)
            by (nonlinear_arith)
            requires -0x200_0000 <= ex <= 0x200_0000 && -0x200_0000 <= ey <= 0x200_0000;
    }
    let dsq: i64 = ex * ex + ey * ey;
    let distu: u64 = isqrt(dsq as u64);
    proof {
        assert(distu * distu <= dsq);
        assert(distu <= 0x400_0000) by (nonlinear_arith)
            requires distu >= 0 && distu * distu <= 0x10_0000_0000_0000;
    }
    let dist: i64 = distu as i64;
    proof {
        assert(dist as int == sqrt_floor(dsq as nat));
        assert(dsq == seg_dist_sq_wd(wx as int, wy as int, dx as int, dy as int));
        assert(dist as int == seg_dist(
            p.x as int,
            p.y as int,
            a.x as int,
            a.y as int,
            b.x as int,
            b.y as int,
        ));
    }
    let band: i64 = (hw - dist) * 256;
    let cov: i64 = if band <= 0 {
        0
    } else if band >= 256 {
        256
    } else {
        band
    };
    proof {
        assert(cov == coverage_of(dist as int, hw as int));
        assert(cov == 256 ==> dist <= hw - 1);
        assert(dist <= hw - 1 ==> band >= 256);
        assert(cov == 0 ==> dist >= hw);
        assert(dist >= hw ==> band <= 0);
    }
    (dist, cov)
}

} // verus!
