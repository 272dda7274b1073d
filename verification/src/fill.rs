use vstd::prelude::*;
use vstd::std_specs::cmp::PartialOrdSpec;

use crate::framebuffer::{lemma_get_after_set, lemma_set_keeps_others, FrameView, Framebuffer};
use crate::rasterizer::{before, scan_start, Fragment, ScanState, TriangleScan};
use crate::zbuffer::{closer_than, lemma_depth_after_set, DepthView, ZBuffer};

verus! {

/// The colour of a `[r, g, b]` array as a pixel value.
pub open spec fn rgb(color: [u8; 3]) -> (u8, u8, u8) {
    (color[0], color[1], color[2])
}

/// The depth test at one pixel, with incoming depth `z`: either the pixel
/// took `color` and its depth became `z` (and, where the comparison of `D`
/// is specified, `z` was closer), or neither changed (and `z` was not
/// closer).
pub open spec fn depth_tested<D: PartialOrd>(
    old_px: (u8, u8, u8),
    new_px: (u8, u8, u8),
    old_d: D,
    new_d: D,
    z: D,
    color: (u8, u8, u8),
) -> bool {
    ||| new_px == color && new_d == z && (D::obeys_partial_cmp_spec() ==> closer_than(z, old_d))
    ||| new_px == old_px && new_d == old_d && (D::obeys_partial_cmp_spec() ==> !closer_than(
        z,
        old_d,
    ))
}

/// What filling the triangle of scan `s` does to pixel `(x, y)`: a pixel
/// the triangle draws went through the depth test with the depth `depth`
/// gives for its fragment; every other pixel kept its colour and depth.
pub open spec fn filled_pixel<D: PartialOrd, F: Fn(Fragment) -> D>(
    s: ScanState,
    depth: F,
    color: (u8, u8, u8),
    old_fb: FrameView,
    new_fb: FrameView,
    old_zb: DepthView<D>,
    new_zb: DepthView<D>,
    x: usize,
    y: usize,
) -> bool {
    if s.draws(x as int, y as int) {
        exists|z: D|
            #[trigger] call_ensures(depth, (s.fragment_at(x as int, y as int),), z) && depth_tested(
                old_fb.pixel(x as int, y as int),
                new_fb.pixel(x as int, y as int),
                old_zb.depth_at(x, y),
                new_zb.depth_at(x, y),
                z,
                color,
            )
    } else {
        new_fb.pixel(x as int, y as int) == old_fb.pixel(x as int, y as int) && new_zb.depth_at(x, y)
            == old_zb.depth_at(x, y)
    }
}

/// Filling is under way, the scan being at `cur`: the pixels already
/// examined are as `filled_pixel` says, the others are untouched.
pub open spec fn fill_progress<D: PartialOrd, F: Fn(Fragment) -> D>(
    s: ScanState,
    cur: ScanState,
    depth: F,
    color: (u8, u8, u8),
    old_fb: FrameView,
    new_fb: FrameView,
    old_zb: DepthView<D>,
    new_zb: DepthView<D>,
    x: usize,
    y: usize,
) -> bool {
    if s.in_box(x as int, y as int) && !cur.pending(x as int, y as int) {
        filled_pixel(s, depth, color, old_fb, new_fb, old_zb, new_zb, x, y)
    } else {
        new_fb.pixel(x as int, y as int) == old_fb.pixel(x as int, y as int) && new_zb.depth_at(x, y)
            == old_zb.depth_at(x, y)
    }
}

/// Fill the counter-clockwise triangle `v0, v1, v2` with a solid colour,
/// depth tested.
///
/// Clockwise and degenerate triangles are culled; the triangle is clipped
/// to the image. Each covered pixel gets the depth `depth` computes from its
/// fragment (its position and barycentric edge values), and takes `color`
/// exactly when that depth is closer than the one stored for it.
pub fn fill_triangle<D: Copy + PartialOrd, F: Fn(Fragment) -> D>(
    fb: &mut Framebuffer,
    zb: &mut ZBuffer<D>,
    v0: (i32, i32),
    v1: (i32, i32),
    v2: (i32, i32),
    color: [u8; 3],
    depth: F,
)
    requires
        old(fb)@.wf(),
        old(zb)@.wf(),
        old(zb)@.width == old(fb)@.width,
        old(zb)@.height == old(fb)@.height,
        forall|f: Fragment| call_requires(depth, (f,)),
    ensures
        final(fb)@.wf(),
        final(fb)@.width == old(fb)@.width,
        final(fb)@.height == old(fb)@.height,
        final(zb)@.wf(),
        final(zb)@.width == old(zb)@.width,
        final(zb)@.height == old(zb)@.height,
        forall|x: usize, y: usize|
            #![trigger final(fb)@.pixel(x as int, y as int)]
            #![trigger final(zb)@.depth_at(x, y)]
            old(fb)@.in_bounds(x as int, y as int) ==> filled_pixel(
                scan_start(
                    v0.0 as int,
                    v0.1 as int,
                    v1.0 as int,
                    v1.1 as int,
                    v2.0 as int,
                    v2.1 as int,
                    old(fb)@.width as int,
                    old(fb)@.height as int,
                ),
                depth,
                rgb(color),
                old(fb)@,
                final(fb)@,
                old(zb)@,
                final(zb)@,
                x,
                y,
            ),
{
    let ghost s0 = scan_start(
        v0.0 as int,
        v0.1 as int,
        v1.0 as int,
        v1.1 as int,
        v2.0 as int,
        v2.1 as int,
        old(fb)@.width as int,
        old(fb)@.height as int,
    );
    let ghost fb0 = fb@;
    let ghost zb0 = zb@;
    let width = fb.width();
    let height = fb.height();
    let mut scan = match TriangleScan::new(v0.0, v0.1, v1.0, v1.1, v2.0, v2.1, width, height) {
        Some(scan) => scan,
        None => {
            assert forall|x: usize, y: usize| #[trigger]
                fb0.in_bounds(x as int, y as int) implies filled_pixel(
                s0,
                depth,
                rgb(color),
                fb0,
                fb@,
                zb0,
                zb@,
                x,
                y,
            ) by {}
            return;
        },
    };
    loop
        invariant
            scan@.wf(),
            scan@.same_scan(s0),
            s0.wf(),
            forall|px: int, py: int| #[trigger] scan@.pending(px, py) ==> s0.in_box(px, py),
            forall|f: Fragment| call_requires(depth, (f,)),
            fb@.wf(),
            fb@.width == fb0.width,
            fb@.height == fb0.height,
            zb@.wf(),
            zb@.width == zb0.width,
            zb@.height == zb0.height,
            zb0.width == fb0.width,
            zb0.height == fb0.height,
            s0.width == fb0.width,
            s0.height == fb0.height,
            fb0 == old(fb)@,
            zb0 == old(zb)@,
            s0 == scan_start(
                v0.0 as int,
                v0.1 as int,
                v1.0 as int,
                v1.1 as int,
                v2.0 as int,
                v2.1 as int,
                fb0.width as int,
                fb0.height as int,
            ),
            forall|x: usize, y: usize|
                fb0.in_bounds(x as int, y as int) ==> #[trigger] fill_progress(
                    s0,
                    scan@,
                    depth,
                    rgb(color),
                    fb0,
                    fb@,
                    zb0,
                    zb@,
                    x,
                    y,
                ),
        decreases scan@.max_y - scan@.y + 1, scan@.max_x - scan@.x,
    {
        let ghost before_scan = scan@;
        let ghost before_fb = fb@;
        let ghost before_zb = zb@;
        match scan.next_fragment() {
            None => {
                assert forall|x: usize, y: usize| #[trigger]
                    fb0.in_bounds(x as int, y as int) implies filled_pixel(
                    s0,
                    depth,
                    rgb(color),
                    fb0,
                    fb@,
                    zb0,
                    zb@,
                    x,
                    y,
                ) by {
                    assert(fill_progress(s0, before_scan, depth, rgb(color), fb0, fb@, zb0, zb@, x, y));
                    assert(!scan@.pending(x as int, y as int));
                    if before_scan.pending(x as int, y as int) {
                        assert(!before_scan.covers(x as int, y as int));
                    }
                }
                return;
            },
            Some(f) => {
                let z = depth(f);
                let closer = zb.test_and_set(f.x, f.y, z);
                if closer {
                    fb.set_pixel(f.x, f.y, color[0], color[1], color[2]);
                }
                proof {
                    lemma_depth_after_set(before_zb, f.x, f.y, z, f.x, f.y);
                    assert forall|x: usize, y: usize|
                        fb0.in_bounds(x as int, y as int) implies #[trigger] fill_progress(
                        s0,
                        scan@,
                        depth,
                        rgb(color),
                        fb0,
                        fb@,
                        zb0,
                        zb@,
                        x,
                        y,
                    ) by {
                        assert(fill_progress(s0, before_scan, depth, rgb(color), fb0, before_fb, zb0, before_zb, x, y));
                        if x == f.x && y == f.y {
                            lemma_get_after_set(before_fb, x as int, y as int, rgb(color));
                            assert(call_ensures(depth, (s0.fragment_at(x as int, y as int),), z));
                        } else {
                            if before_scan.pending(x as int, y as int) && !scan@.pending(x as int, y as int) {
                                assert(before(x as int, y as int, f.x as int, f.y as int));
                                assert(!before_scan.covers(x as int, y as int));
                            }
                            lemma_depth_after_set(before_zb, f.x, f.y, z, x, y);
                            lemma_set_keeps_others(
                                before_fb,
                                f.x as int,
                                f.y as int,
                                rgb(color),
                                x as int,
                                y as int,
                            );
                        }
                    }
                }
            },
        }
    }
}

/// Where the comparison of the depth type is specified, the depth test
/// decides: a closer depth paints the pixel and is stored, any other leaves
/// pixel and depth as they were.
pub proof fn lemma_depth_test_decides<D: PartialOrd>(
    old_px: (u8, u8, u8),
    new_px: (u8, u8, u8),
    old_d: D,
    new_d: D,
    z: D,
    color: (u8, u8, u8),
)
    requires
        D::obeys_partial_cmp_spec(),
        depth_tested(old_px, new_px, old_d, new_d, z, color),
    ensures
        closer_than(z, old_d) ==> new_px == color && new_d == z,
        !closer_than(z, old_d) ==> new_px == old_px && new_d == old_d,
{
}

} // verus!
