use vstd::prelude::*;

verus! {

/// Largest coordinate magnitude, in pixels, that the geometry accepts.
/// Keeping inputs inside this bound keeps every intermediate product of the
/// decomposition and of the distance evaluator well inside `i64`.
pub const COORD_MAX: i64 = 0x10_0000;

/// A point, vector or size in integer pixel units.
#[derive(Clone, Copy, Debug, PartialEq, Eq, Structural)]
pub struct Point {
    pub x: i64,
    pub y: i64,
}

/// An axis-aligned rectangle: origin plus size.
#[derive(Clone, Copy, Debug, PartialEq, Eq, Structural)]
pub struct Rect {
    pub pos: Point,
    pub size: Point,
}

/// Both coordinates within the accepted range.
pub open spec fn in_coord_range(p: Point) -> bool {
    &&& -COORD_MAX <= p.x <= COORD_MAX
    &&& -COORD_MAX <= p.y <= COORD_MAX
}

/// A rectangle is well formed when both size components are non-negative.
pub open spec fn rect_wf(r: Rect) -> bool {
    r.size.x >= 0 && r.size.y >= 0
}

/// The point with the axes exchanged.
pub open spec fn tr_pt(p: Point) -> Point {
    Point { x: p.y, y: p.x }
}

/// The rectangle with the axes exchanged.
pub open spec fn tr_rect(r: Rect) -> Rect {
    Rect { pos: tr_pt(r.pos), size: tr_pt(r.size) }
}

pub open spec fn min_i(a: int, b: int) -> int {
    if a <= b { a } else { b }
}

pub open spec fn max_i(a: int, b: int) -> int {
    if a >= b { a } else { b }
}

pub open spec fn abs_i(a: int) -> int {
    if a >= 0 { a } else { -a }
}

} // verus!
