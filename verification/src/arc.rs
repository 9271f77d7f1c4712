use crate::geom::{in_coord_range, Point, Rect, COORD_MAX};
use crate::sqrt::{isqrt, sqrt_floor};
use crate::stroke::{coverage_of, COV_ONE};
use vstd::prelude::*;

verus! {

/// An arc described exactly: the center, the rounded radius, and the two
/// endpoint directions (endpoint minus center). The directions carry the
/// start and end angles without rounding them to any angular unit; the
/// rendering backend may take their arctangents when it needs radians.
#[derive(Clone, Copy, Debug, PartialEq, Eq, Structural)]
pub struct ArcParams {
    pub radius: i64,
    pub start_dir: Point,
    pub end_dir: Point,
    pub center_local: Point,
}

pub open spec fn sq_norm(x: int, y: int) -> int {
    x * x + y * y
}

/// Rounded Euclidean norm.
pub open spec fn norm(x: int, y: int) -> int {
    sqrt_floor(sq_norm(x, y) as nat) as int
}

pub open spec fn cross(ax: int, ay: int, bx: int, by: int) -> int {
    ax * by - ay * bx
}

/// Whether direction `u` lies inside the sweep that goes counterclockwise
/// from `v1` to `v2`.
pub open spec fn in_sweep(
    ux: int,
    uy: int,
    v1x: int,
    v1y: int,
    v2x: int,
    v2y: int,
) -> bool {
    if cross(v1x, v1y, v2x, v2y) >= 0 {
        cross(v1x, v1y, ux, uy) >= 0 && cross(ux, uy, v2x, v2y) >= 0
    } else {
        cross(v1x, v1y, ux, uy) >= 0 || cross(ux, uy, v2x, v2y) >= 0
    }
}

/// Distance from a pixel (relative to the arc center) to the capped arc:
/// inside the sweep, the distance to the circle; outside it, the distance to
/// the nearer endpoint.
pub open spec fn arc_dist_spec(px: int, py: int, radius: int, sdx: int, sdy: int, edx: int, edy: int) -> int {
    if in_sweep(px, py, sdx, sdy, edx, edy) {
        let r = norm(px, py);
        if r >= radius {
            r - radius
        } else {
            radius - r
        }
    } else {
        let ds = norm(px - sdx, py - sdy);
        let de = norm(px - edx, py - edy);
        if ds <= de {
            ds
        } else {
            de
        }
    }
}

/// Computes the parameters of the arc through `start` and `end` around
/// `center`, inside the allocated rectangle `slot`: the radius is the
/// rounded distance from the center to the start point, the two directions
/// are the endpoints relative to the center, and the center is translated
/// into the rectangle's local space.
pub fn compute_arc_params(start: Point, end: Point, center: Point, slot: Rect) -> (r: ArcParams)
    requires
        in_coord_range(start),
        in_coord_range(end),
        in_coord_range(center),
        in_coord_range(slot.pos),
    ensures
        r.radius == norm(start.x - center.x, start.y - center.y),
        r.start_dir.x == start.x - center.x,
        r.start_dir.y == start.y - center.y,
        r.end_dir.x == end.x - center.x,
        r.end_dir.y == end.y - center.y,
        r.center_local.x == center.x - slot.pos.x,
        r.center_local.y == center.y - slot.pos.y,
        0 <= r.radius <= 4 * COORD_MAX,
{
    let sdx: i64 = start.x - center.x;
    let sdy: i64 = start.y - center.y;
    proof {
        assert(sdx * sdx + sdy * sdy <= 0x800_0000_0000 && sdx * sdx >= 0 && sdy * sdy >= 0)
            by (nonlinear_arith)
            requires -0x20_0000 <= sdx <= 0x20_0000 && -0x20_0000 <= sdy <= 0x20_0000;
    }
    let sq: i64 = sdx * sdx + sdy * sdy;
    let radu: u64 = isqrt(sq as u64);
    proof {
        assert(radu * radu <= sq);
        assert(radu <= 0x40_0000) by (nonlinear_arith)
            requires radu >= 0 && radu * radu <= 0x800_0000_0000;
    }
    ArcParams {
        radius: radu as i64,
        start_dir: Point { x: sdx, y: sdy },
        end_dir: Point { x: end.x - center.x, y: end.y - center.y },
        center_local: Point { x: center.x - slot.pos.x, y: center.y - slot.pos.y },
    }
}

/// Whether the pixel direction `u` falls inside the arc's angular sweep.
pub fn in_arc_sweep(u: Point, v1: Point, v2: Point) -> (r: bool)
    requires
        -8 * COORD_MAX <= u.x <= 8 * COORD_MAX,
        -8 * COORD_MAX <= u.y <= 8 * COORD_MAX,
        -8 * COORD_MAX <= v1.x <= 8 * COORD_MAX,
        -8 * COORD_MAX <= v1.y <= 8 * COORD_MAX,
        -8 * COORD_MAX <= v2.x <= 8 * COORD_MAX,
        -8 * COORD_MAX <= v2.y <= 8 * COORD_MAX,
    ensures
        r == in_sweep(u.x as int, u.y as int, v1.x as int, v1.y as int, v2.x as int, v2.y as int),
{
    proof {
        let lim: int = 0x80_0000_0000_0000;
        assert(-lim <= v1.x * v2.y <= lim && -lim <= v1.y * v2.x <= lim && -lim <= v1.x * u.y
            <= lim && -lim <= v1.y * u.x <= lim && -lim <= u.x * v2.y <= lim && -lim <= u.y * v2.x
            <= lim) by (nonlinear_arith)
            requires
                lim == 0x80_0000_0000_0000 && -0x800_0000 <= u.x <= 0x800_0000 && -0x800_0000 <= u.y
                    <= 0x800_0000 && -0x800_0000 <= v1.x <= 0x800_0000 && -0x800_0000 <= v1.y
                    <= 0x800_0000 && -0x800_0000 <= v2.x <= 0x800_0000 && -0x800_0000 <= v2.y
                    <= 0x800_0000;
    }
    let c12: i64 = v1.x * v2.y - v1.y * v2.x;
    let c1u: i64 = v1.x * u.y - v1.y * u.x;
    let cu2: i64 = u.x * v2.y - u.y * v2.x;
    if c12 >= 0 {
        c1u >= 0 && cu2 >= 0
    } else {
        c1u >= 0 || cu2 >= 0
    }
}

/// Distance of a pixel, given relative to the arc center, to the capped arc,
/// together with its anti-aliased coverage for half width `hw`.
pub fn arc_eval(p_rel: Point, params: &ArcParams, hw: i64) -> (r: (i64, i64))
    requires
        -8 * COORD_MAX <= p_rel.x <= 8 * COORD_MAX,
        -8 * COORD_MAX <= p_rel.y <= 8 * COORD_MAX,
        -8 * COORD_MAX <= params.start_dir.x <= 8 * COORD_MAX,
        -8 * COORD_MAX <= params.start_dir.y <= 8 * COORD_MAX,
        -8 * COORD_MAX <= params.end_dir.x <= 8 * COORD_MAX,
        -8 * COORD_MAX <= params.end_dir.y <= 8 * COORD_MAX,
        0 <= params.radius <= 4 * COORD_MAX,
        0 < hw <= COORD_MAX,
    ensures
        r.0 == arc_dist_spec(
            p_rel.x as int,
            p_rel.y as int,
            params.radius as int,
            params.start_dir.x as int,
            params.start_dir.y as int,
            params.end_dir.x as int,
            params.end_dir.y as int,
        ),
        r.1 == coverage_of(r.0 as int, hw as int),
        0 <= r.1 <= COV_ONE,
{
    let dist: i64 = if in_arc_sweep(p_rel, params.start_dir, params.end_dir) {
        let rr: i64 = norm_exec(p_rel.x, p_rel.y);
        if rr >= params.radius {
            rr - params.radius
        } else {
            params.radius - rr
        }
    } else {
        let ds: i64 = norm_exec(p_rel.x - params.start_dir.x, p_rel.y - params.start_dir.y);
        let de: i64 = norm_exec(p_rel.x - params.end_dir.x, p_rel.y - params.end_dir.y);
        if ds <= de {
            ds
        } else {
            de
        }
    };
    let band: i64 = (hw - dist) * 256;
    let cov: i64 = if band <= 0 {
        0
    } else if band >= 256 {
        256
    } else {
        band
    };
    proof {
        assert(cov == coverage_of(dist as int, hw as int));
    }
    (dist, cov)
}

/// Rounded Euclidean norm of a vector.
fn norm_exec(x: i64, y: i64) -> (r: i64)
    requires
        -16 * COORD_MAX <= x <= 16 * COORD_MAX,
        -16 * COORD_MAX <= y <= 16 * COORD_MAX,
    ensures
        r == norm(x as int, y as int),
        0 <= r <= 0x800_0000,
{
    proof {
        assert(x * x + y * y <= 0x2_0000_0000_0000 && x * x >= 0 && y * y >= 0)
            by (nonlinear_arith)
            requires -0x100_0000 <= x <= 0x100_0000 && -0x100_0000 <= y <= 0x100_0000;
    }
    let sq: i64 = x * x + y * y;
    let ru: u64 = isqrt(sq as u64);
    proof {
        assert(ru * ru <= sq);
        assert(ru <= 0x800_0000) by (nonlinear_arith)
            requires ru >= 0 && ru * ru <= 0x2_0000_0000_0000;
    }
    ru as i64
}

} // verus!
