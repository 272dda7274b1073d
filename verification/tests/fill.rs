use softraster::fill::fill_triangle;
use softraster::rasterizer::edge_wide;
use softraster::{Fragment, Framebuffer, ZBuffer};

/// The depth of a fragment of the triangle `v0, v1, v2` whose vertices have
/// depths `z`: the vertex depths weighted by the barycentric coordinates.
fn interpolate(v: [(i32, i32); 3], z: [f32; 3]) -> impl Fn(Fragment) -> f32 {
    let area = edge_wide(v[0].0, v[0].1, v[1].0, v[1].1, v[2].0, v[2].1) as f32;
    move |f: Fragment| {
        let (w0, w1, w2) = (f.w0 as f32 / area, f.w1 as f32 / area, f.w2 as f32 / area);
        w0 * z[0] + w1 * z[1] + w2 * z[2]
    }
}

fn fill(
    fb: &mut Framebuffer,
    zb: &mut ZBuffer<f32>,
    v: [(i32, i32, f32); 3],
    color: [u8; 3],
) {
    let xy = [(v[0].0, v[0].1), (v[1].0, v[1].1), (v[2].0, v[2].1)];
    let depth = interpolate(xy, [v[0].2, v[1].2, v[2].2]);
    fill_triangle(fb, zb, xy[0], xy[1], xy[2], color, depth);
}

#[test]
fn test_fill_triangle_center_pixel_inside() {
    let mut fb = Framebuffer::new(10, 10).unwrap();
    // A large triangle that covers the center of the framebuffer.
    fill(
        &mut fb,
        &mut ZBuffer::new(10, 10, f32::INFINITY),
        [(0, 0, 0.0), (9, 0, 0.0), (4, 9, 0.0)],
        [255, 0, 0],
    );
    // The centroid (~4, 3) should be red.
    assert_eq!(fb.get_pixel(4, 3), (255, 0, 0));
}

#[test]
fn test_fill_triangle_corner_pixel_outside() {
    let mut fb = Framebuffer::new(10, 10).unwrap();
    let mut zb = ZBuffer::new(10, 10, f32::INFINITY);
    fill(&mut fb, &mut zb, [(0, 0, 0.0), (9, 0, 0.0), (4, 9, 0.0)], [255, 0, 0]);
    // Bottom-right corner should be untouched.
    assert_eq!(fb.get_pixel(9, 9), (0, 0, 0));
}

#[test]
fn test_fill_triangle_degenerate_skipped() {
    let mut fb = Framebuffer::new(10, 10).unwrap();
    let mut zb = ZBuffer::new(10, 10, f32::INFINITY);
    // Three collinear points — should draw nothing.
    fill(&mut fb, &mut zb, [(0, 0, 0.0), (5, 0, 0.0), (9, 0, 0.0)], [255, 0, 0]);
    assert_eq!(fb.get_pixel(5, 0), (0, 0, 0));
}

#[test]
fn test_fill_triangle_clockwise_skipped() {
    let mut fb = Framebuffer::new(10, 10).unwrap();
    let mut zb = ZBuffer::new(10, 10, f32::INFINITY);
    // Same triangle as the first test but with vertices in clockwise order.
    fill(&mut fb, &mut zb, [(4, 9, 0.0), (9, 0, 0.0), (0, 0, 0.0)], [255, 0, 0]);
    assert_eq!(fb.get_pixel(4, 3), (0, 0, 0));
}

#[test]
fn test_fill_triangle_zbuffer() {
    let mut fb = Framebuffer::new(10, 10).unwrap();
    let mut zb = ZBuffer::new(10, 10, f32::INFINITY);
    // Two overlapping triangles with different depths.
    fill(&mut fb, &mut zb, [(0, 0, 0.5), (9, 0, 0.5), (4, 9, 0.5)], [255, 0, 0]);
    fill(&mut fb, &mut zb, [(0, 0, 0.0), (9, 0, 0.0), (4, 9, 0.0)], [0, 255, 0]);
    // The second triangle is closer and should overwrite the first.
    assert_eq!(fb.get_pixel(4, 3), (0, 255, 0));
}

#[test]
fn farther_triangle_does_not_overwrite() {
    let mut fb = Framebuffer::new(10, 10).unwrap();
    let mut zb = ZBuffer::new(10, 10, f32::INFINITY);
    fill(&mut fb, &mut zb, [(0, 0, 0.0), (9, 0, 0.0), (4, 9, 0.0)], [0, 255, 0]);
    fill(&mut fb, &mut zb, [(0, 0, 0.5), (9, 0, 0.5), (4, 9, 0.5)], [255, 0, 0]);
    assert_eq!(fb.get_pixel(4, 3), (0, 255, 0));
    assert_eq!(zb.get_depth(4, 3), 0.0);
}

#[test]
fn integer_depths_and_huge_triangle() {
    // the edge values of this triangle overflow i32; it is drawn all the same
    let mut fb = Framebuffer::new(4, 3).unwrap();
    let mut zb = ZBuffer::new(4, 3, u32::MAX);
    fill_triangle(
        &mut fb,
        &mut zb,
        (i32::MIN, i32::MIN),
        (i32::MAX, i32::MIN),
        (0, i32::MAX),
        [1, 2, 3],
        |f: Fragment| f.x as u32,
    );
    for y in 0..3 {
        for x in 0..4 {
            assert_eq!(fb.get_pixel(x, y), (1, 2, 3));
            assert_eq!(zb.get_depth(x, y), x as u32);
        }
    }
    // a second fill at depth 2 only wins where the stored depth is larger
    fill_triangle(&mut fb, &mut zb, (-10, -10), (10, -10), (0, 10), [9, 9, 9], |_: Fragment| 2);
    assert_eq!(fb.get_pixel(3, 1), (9, 9, 9));
    assert_eq!(fb.get_pixel(1, 1), (1, 2, 3));
}
