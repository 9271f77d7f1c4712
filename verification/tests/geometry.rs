use listbox::arc::{compute_arc_params, arc_eval, in_arc_sweep};
use listbox::geom::{Point, Rect};
use listbox::line::decompose_line;
use listbox::sqrt::isqrt;
use listbox::stroke::line_eval;

fn pt(x: i64, y: i64) -> Point {
    Point { x, y }
}

#[test]
fn isqrt_small_values() {
    assert_eq!(isqrt(0), 0);
    assert_eq!(isqrt(1), 1);
    assert_eq!(isqrt(2), 1);
    assert_eq!(isqrt(3), 1);
    assert_eq!(isqrt(4), 2);
    assert_eq!(isqrt(20000), 141);
    assert_eq!(isqrt(10100), 100);
    assert_eq!(isqrt(50), 7);
}

#[test]
fn axis_aligned_horizontal_single_rect() {
    // Segment (0,0) -> (100,0), half width 5: exactly one rectangle,
    // pos (-5,-5), size (110,10).
    let res = decompose_line(pt(0, 0), pt(100, 0), 5);
    assert_eq!(res.len(), 1);
    assert_eq!(res[0].rect.pos, pt(-5, -5));
    assert_eq!(res[0].rect.size, pt(110, 10));
    assert_eq!(res[0].line_start_local, pt(5, 5));
    assert_eq!(res[0].line_end_local, pt(105, 5));
}

#[test]
fn axis_aligned_vertical_single_rect() {
    let res = decompose_line(pt(3, -10), pt(3, 30), 2);
    assert_eq!(res.len(), 1);
    assert_eq!(res[0].rect.pos, pt(1, -12));
    assert_eq!(res[0].rect.size, pt(4, 44));
}

#[test]
fn zero_length_segment_single_rect() {
    let res = decompose_line(pt(7, 7), pt(7, 7), 4);
    assert_eq!(res.len(), 1);
    assert_eq!(res[0].rect.pos, pt(3, 3));
    assert_eq!(res[0].rect.size, pt(8, 8));
}

#[test]
fn diagonal_two_caps_and_blocks() {
    // Segment (0,0) -> (100,100), half width 5: x-dominant (ties go to x),
    // two end caps plus ceil(innerWidth / blockSize) = 5 interior blocks.
    let res = decompose_line(pt(0, 0), pt(100, 100), 5);
    assert_eq!(res.len(), 7);
    // start cap
    assert_eq!(res[0].rect.pos, pt(-5, -8));
    assert_eq!(res[0].rect.size, pt(10, 21));
    // end cap
    assert_eq!(res[1].rect.pos, pt(95, 87));
    assert_eq!(res[1].rect.size, pt(10, 21));
    // first and last interior blocks
    assert_eq!(res[2].rect.pos, pt(5, -3));
    assert_eq!(res[2].rect.size, pt(18, 34));
    assert_eq!(res[6].rect.pos, pt(77, 69));
    assert_eq!(res[6].rect.size, pt(18, 34));
    // every rectangle carries the segment in its own local space
    for sr in res.iter() {
        assert_eq!(sr.line_start_local.x, 0 - sr.rect.pos.x);
        assert_eq!(sr.line_start_local.y, 0 - sr.rect.pos.y);
        assert_eq!(sr.line_end_local.x, 100 - sr.rect.pos.x);
        assert_eq!(sr.line_end_local.y, 100 - sr.rect.pos.y);
    }
}

#[test]
fn blocks_tile_the_inner_span() {
    let res = decompose_line(pt(0, 0), pt(100, 100), 5);
    // blocks abut: each starts where its predecessor ends, spanning from
    // the start cap's reach to the end cap
    let mut x = 5;
    for sr in res.iter().skip(2) {
        assert_eq!(sr.rect.pos.x, x);
        x += sr.rect.size.x;
    }
    assert_eq!(x, 95);
}

#[test]
fn uneven_inner_span_splits_within_one_pixel() {
    // inner width 41 over two blocks: widths 21 and 20, tiling the span
    // between the caps exactly
    let res = decompose_line(pt(0, 0), pt(47, 40), 3);
    assert_eq!(res.len(), 4);
    assert_eq!(res[2].rect.pos.x, 3);
    assert_eq!(res[2].rect.size.x, 21);
    assert_eq!(res[3].rect.pos.x, 24);
    assert_eq!(res[3].rect.size.x, 20);
    assert_eq!(res[3].rect.pos.x + res[3].rect.size.x, 44);
}

#[test]
fn y_dominant_is_the_transpose() {
    let res = decompose_line(pt(0, 0), pt(10, 100), 2);
    assert_eq!(res.len(), 4);
    assert_eq!(res[0].rect.pos, pt(-2, -2));
    assert_eq!(res[0].rect.size, pt(4, 3));
    for sr in res.iter() {
        assert_eq!(sr.line_start_local.x, 0 - sr.rect.pos.x);
        assert_eq!(sr.line_end_local.y, 100 - sr.rect.pos.y);
    }
}

#[test]
fn steep_segment_is_y_dominant() {
    // |dx| = 3 < |dy| = 4: decomposition runs along y
    let res = decompose_line(pt(0, 0), pt(3, 4), 2);
    assert!(res.len() >= 3);
    // the caps' dominant extent is vertical: cap width spans the full band
    assert!(res[0].rect.size.y < res[0].rect.size.x);
}

#[test]
fn line_eval_on_and_off_the_segment() {
    let a = pt(0, 0);
    let b = pt(10, 0);
    // right on the segment: distance 0, full coverage
    let (d, c) = line_eval(pt(5, 0), a, b, 5);
    assert_eq!(d, 0);
    assert_eq!(c, 256);
    // at the stroke's edge: distance 5, zero coverage
    let (d, c) = line_eval(pt(0, 5), a, b, 5);
    assert_eq!(d, 5);
    assert_eq!(c, 0);
    // inside the band
    let (d, c) = line_eval(pt(5, 4), a, b, 5);
    assert_eq!(d, 4);
    assert_eq!(c, 256);
    // outside
    let (d, c) = line_eval(pt(5, 6), a, b, 5);
    assert_eq!(d, 6);
    assert_eq!(c, 0);
    // beyond the end cap, the distance is to the endpoint
    let (d, _) = line_eval(pt(13, 4), a, b, 5);
    assert_eq!(d, 5);
}

#[test]
fn local_space_evaluation_matches_global() {
    // the distance field read through any emitted rectangle's local frame
    // equals the field of the original segment
    let s = pt(0, 0);
    let e = pt(100, 100);
    let res = decompose_line(s, e, 5);
    let samples = [pt(50, 50), pt(10, 0), pt(0, 10), pt(97, 93), pt(-4, -6)];
    for sr in res.iter() {
        for p in samples.iter() {
            let local_p = pt(p.x - sr.rect.pos.x, p.y - sr.rect.pos.y);
            let (dl, cl) = line_eval(local_p, sr.line_start_local, sr.line_end_local, 5);
            let (dg, cg) = line_eval(*p, s, e, 5);
            assert_eq!(dl, dg);
            assert_eq!(cl, cg);
        }
    }
}

#[test]
fn arc_params_radius_and_locals() {
    let slot = Rect { pos: pt(-20, -20), size: pt(40, 40) };
    let params = compute_arc_params(pt(10, 0), pt(0, 10), pt(0, 0), slot);
    assert_eq!(params.radius, 10);
    assert_eq!(params.start_dir, pt(10, 0));
    assert_eq!(params.end_dir, pt(0, 10));
    assert_eq!(params.center_local, pt(20, 20));
}

#[test]
fn arc_sweep_membership() {
    // quarter arc from +x to +y, counterclockwise
    assert!(in_arc_sweep(pt(5, 5), pt(10, 0), pt(0, 10)));
    assert!(!in_arc_sweep(pt(-5, -5), pt(10, 0), pt(0, 10)));
    // reflex sweep from +y to +x covers everything but the first quadrant's
    // interior path
    assert!(in_arc_sweep(pt(-5, -5), pt(0, 10), pt(10, 0)));
}

#[test]
fn arc_eval_distance_and_caps() {
    let slot = Rect { pos: pt(-20, -20), size: pt(40, 40) };
    let params = compute_arc_params(pt(10, 0), pt(0, 10), pt(0, 0), slot);
    // inside the sweep: distance to the circle
    let (d, c) = arc_eval(pt(5, 5), &params, 5);
    assert_eq!(d, 3);
    assert_eq!(c, 256);
    // outside the sweep: distance to the nearer endpoint (capped arc)
    let (d, c) = arc_eval(pt(-5, -5), &params, 5);
    assert_eq!(d, 15);
    assert_eq!(c, 0);
    // on the arc
    let (d, c) = arc_eval(pt(10, 0), &params, 5);
    assert_eq!(d, 0);
    assert_eq!(c, 256);
}
