use softraster::rasterizer::edge_wide;
use softraster::{edge_function, Fragment, TriangleScan};

type Point = (i32, i32);

/// Every fragment of a scan, or the overflow that stopped it.
fn fragments(v0: Point, v1: Point, v2: Point, width: usize, height: usize) -> Option<Vec<Fragment>> {
    let mut scan = TriangleScan::new(v0.0, v0.1, v1.0, v1.1, v2.0, v2.1, width, height)?;
    let mut out = Vec::new();
    while let Some(f) = scan.next_fragment() {
        out.push(f);
    }
    Some(out)
}

fn covers(frags: &[Fragment], x: usize, y: usize) -> bool {
    frags.iter().any(|f| f.x == x && f.y == y)
}

#[test]
fn edge_function_signs() {
    // p to the left of a -> b (in y-down screen space: counter-clockwise)
    assert_eq!(edge_function(0, 0, 9, 0, 4, 9), 81);
    assert_eq!(edge_function(0, 0, 9, 0, 4, -9), -81);
    assert_eq!(edge_function(0, 0, 9, 0, 5, 0), 0);
    assert_eq!(edge_function(1, 2, 4, 6, 3, 1), (4 - 1) * (1 - 2) - (6 - 2) * (3 - 1));
}

#[test]
fn scan_covers_center_pixel() {
    let frags = fragments((0, 0), (9, 0), (4, 9), 10, 10).unwrap();
    assert!(covers(&frags, 4, 3));
}

#[test]
fn scan_leaves_corner_pixel() {
    let frags = fragments((0, 0), (9, 0), (4, 9), 10, 10).unwrap();
    assert!(!covers(&frags, 9, 9));
}

#[test]
fn degenerate_triangle_is_culled() {
    assert!(fragments((0, 0), (5, 0), (9, 0), 10, 10).is_none());
}

#[test]
fn clockwise_triangle_is_culled() {
    assert!(fragments((4, 9), (9, 0), (0, 0), 10, 10).is_none());
}

#[test]
fn fragments_come_in_row_major_order_with_weights() {
    let frags = fragments((0, 0), (9, 0), (4, 9), 10, 10).unwrap();
    for pair in frags.windows(2) {
        assert!((pair[0].y, pair[0].x) < (pair[1].y, pair[1].x));
    }
    for f in &frags {
        assert!(f.x < 10 && f.y < 10);
        assert!(f.w0 >= 0 && f.w1 >= 0 && f.w2 >= 0);
        assert_eq!(f.w0 + f.w1 + f.w2, 81);
        let (x, y) = (f.x as i32, f.y as i32);
        assert_eq!(f.w0, edge_function(9, 0, 4, 9, x, y) as i128);
        assert_eq!(f.w1, edge_function(4, 9, 0, 0, x, y) as i128);
        assert_eq!(f.w2, edge_function(0, 0, 9, 0, x, y) as i128);
    }
    // the vertices are covered
    assert!(covers(&frags, 0, 0) && covers(&frags, 9, 0) && covers(&frags, 4, 9));
}

#[test]
fn exactly_the_inside_pixels_are_produced() {
    let frags = fragments((0, 0), (9, 0), (4, 9), 10, 10).unwrap();
    for y in 0..10i32 {
        for x in 0..10i32 {
            let inside = edge_function(9, 0, 4, 9, x, y) >= 0
                && edge_function(4, 9, 0, 0, x, y) >= 0
                && edge_function(0, 0, 9, 0, x, y) >= 0;
            assert_eq!(covers(&frags, x as usize, y as usize), inside, "pixel ({x}, {y})");
        }
    }
}

#[test]
fn scan_is_clipped_to_the_image() {
    // a triangle much larger than a 4x3 image covers all of it
    let frags = fragments((-100, -100), (100, -100), (0, 100), 4, 3).unwrap();
    assert_eq!(frags.len(), 12);
    assert_eq!((frags[0].x, frags[0].y), (0, 0));
    assert_eq!((frags[11].x, frags[11].y), (3, 2));
}

#[test]
fn triangle_outside_the_image_yields_nothing() {
    let frags = fragments((20, 20), (29, 20), (24, 29), 10, 10).unwrap();
    assert!(frags.is_empty());
    let frags = fragments((-20, -20), (-11, -20), (-16, -11), 10, 10).unwrap();
    assert!(frags.is_empty());
}

#[test]
fn area_is_reported() {
    let scan = TriangleScan::new(0, 0, 9, 0, 4, 9, 10, 10).unwrap();
    assert_eq!(scan.area(), 81);
}

#[test]
fn wide_edges_do_not_overflow() {
    assert_eq!(
        edge_wide(i32::MIN, i32::MIN, i32::MAX, i32::MIN, i32::MIN, i32::MAX),
        ((1i128 << 32) - 1) * ((1i128 << 32) - 1)
    );
}

#[test]
fn huge_triangles_are_scanned() {
    // doubled areas and edge values far beyond i32
    let frags = fragments((i32::MIN, 0), (1, 0), (0, 1), 10, 10).unwrap();
    assert!(covers(&frags, 0, 0) && covers(&frags, 1, 0) && covers(&frags, 0, 1));
    assert_eq!(frags.len(), 3);
    let frags = fragments((-1, 0), (i32::MIN, -5), (0, 0), 3, 3).unwrap();
    assert_eq!(frags.len(), 1);
    let frags = fragments((i32::MIN, i32::MIN), (i32::MAX, i32::MIN), (0, i32::MAX), 4, 3).unwrap();
    assert_eq!(frags.len(), 12);
    // an image wider than i32 coordinates reach
    let mut scan = TriangleScan::new(0, 0, i32::MAX, 0, 0, 1, usize::MAX, 2).unwrap();
    let first = scan.next_fragment().unwrap();
    assert_eq!((first.x, first.y), (0, 0));
    let second = scan.next_fragment().unwrap();
    assert_eq!((second.x, second.y), (1, 0));
}
