use vstd::prelude::*;

verus! {

/// Twice the signed area of the triangle `a, b, p`: positive when `p` lies to
/// the left of the edge `a -> b`, negative when it lies to the right, zero
/// when the three points are collinear.
pub open spec fn edge(ax: int, ay: int, bx: int, by: int, px: int, py: int) -> int {
    (bx - ax) * (py - ay) - (by - ay) * (px - ax)
}

pub open spec fn fits_i32(v: int) -> bool {
    i32::MIN <= v <= i32::MAX
}

/// Every intermediate value of the edge function, evaluated in `i32`
/// arithmetic, is representable.
pub open spec fn edge_fits(ax: int, ay: int, bx: int, by: int, px: int, py: int) -> bool {
    &&& fits_i32(bx - ax)
    &&& fits_i32(py - ay)
    &&& fits_i32(by - ay)
    &&& fits_i32(px - ax)
    &&& fits_i32((bx - ax) * (py - ay))
    &&& fits_i32((by - ay) * (px - ax))
    &&& fits_i32(edge(ax, ay, bx, by, px, py))
}

/// The edge function in checked `i32` arithmetic: `None` exactly when one of
/// its intermediate values overflows.
fn checked_edge(ax: i32, ay: i32, bx: i32, by: i32, px: i32, py: i32) -> (r: Option<i32>)
    ensures
        r is Some <==> edge_fits(ax as int, ay as int, bx as int, by as int, px as int, py as int),
        r matches Some(v) ==> v == edge(ax as int, ay as int, bx as int, by as int, px as int, py as int),
{
    let bx_ax = match bx.checked_sub(ax) { Some(v) => v, None => return None };
    let py_ay = match py.checked_sub(ay) { Some(v) => v, None => return None };
    let by_ay = match by.checked_sub(ay) { Some(v) => v, None => return None };
    let px_ax = match px.checked_sub(ax) { Some(v) => v, None => return None };
    let a = match bx_ax.checked_mul(py_ay) { Some(v) => v, None => return None };
    let b = match by_ay.checked_mul(px_ax) { Some(v) => v, None => return None };
    a.checked_sub(b)
}

/// Compute the edge function for two vertices `a`, `b` and a point `p`.
///
/// Returns a positive value if `p` is to the left of the edge a→b,
/// negative if to the right, and zero if exactly on the edge.
pub fn edge_function(ax: i32, ay: i32, bx: i32, by: i32, px: i32, py: i32) -> (r: i32)
    requires
        edge_fits(ax as int, ay as int, bx as int, by as int, px as int, py as int),
    ensures
        r == edge(ax as int, ay as int, bx as int, by as int, px as int, py as int),
{
    match checked_edge(ax, ay, bx, by, px, py) {
        Some(v) => v,
        // Unreachable: the precondition rules out every overflow.
        None => 0,
    }
}

/// Swapping the endpoints of an edge negates the edge function.
pub proof fn lemma_edge_antisymmetric(ax: int, ay: int, bx: int, by: int, px: int, py: int)
    by (nonlinear_arith)
    ensures
        edge(bx, by, ax, ay, px, py) == -edge(ax, ay, bx, by, px, py),
{
}

/// Both endpoints of an edge lie on it.
pub proof fn lemma_edge_endpoints(ax: int, ay: int, bx: int, by: int)
    by (nonlinear_arith)
    ensures
        edge(ax, ay, bx, by, ax, ay) == 0,
        edge(ax, ay, bx, by, bx, by) == 0,
{
}

/// The doubled area of a triangle does not depend on which vertex is listed
/// first, as long as the cyclic order is kept.
pub proof fn lemma_area_rotation(x0: int, y0: int, x1: int, y1: int, x2: int, y2: int)
    by (nonlinear_arith)
    ensures
        edge(x1, y1, x2, y2, x0, y0) == edge(x0, y0, x1, y1, x2, y2),
        edge(x2, y2, x0, y0, x1, y1) == edge(x0, y0, x1, y1, x2, y2),
{
}

/// Listing the vertices in the opposite order negates the doubled area, so
/// of a triangle and its mirror-wound twin at most one is counter-clockwise
/// (and drawn).
pub proof fn lemma_reversed_winding(x0: int, y0: int, x1: int, y1: int, x2: int, y2: int)
    by (nonlinear_arith)
    ensures
        edge(x2, y2, x1, y1, x0, y0) == -edge(x0, y0, x1, y1, x2, y2),
{
}

/// At every point the three edge functions add up to the doubled area: the
/// barycentric weights `w0 / area`, `w1 / area`, `w2 / area` sum to one.
pub proof fn lemma_weights_sum_to_area(
    x0: int,
    y0: int,
    x1: int,
    y1: int,
    x2: int,
    y2: int,
    px: int,
    py: int,
)
    ensures
        edge(x1, y1, x2, y2, px, py) + edge(x2, y2, x0, y0, px, py) + edge(x0, y0, x1, y1, px, py)
            == edge(x0, y0, x1, y1, x2, y2),
{
    let (ax, ay) = (x0 - px, y0 - py);
    let (bx, by) = (x1 - px, y1 - py);
    let (cx, cy) = (x2 - px, y2 - py);
    lemma_edge_from_point(px, py, bx, by, cx, cy);
    lemma_edge_from_point(px, py, cx, cy, ax, ay);
    lemma_edge_from_point(px, py, ax, ay, bx, by);
    lemma_area_as_crosses(ax, ay, bx, by, cx, cy);
    assert(edge(x0, y0, x1, y1, x2, y2) == edge(ax, ay, bx, by, cx, cy));
}

/// The edge function seen from `p`: the cross product of the endpoints'
/// offsets from `p`.
proof fn lemma_edge_from_point(px: int, py: int, ux: int, uy: int, vx: int, vy: int)
    by (nonlinear_arith)
    ensures
        edge(px + ux, py + uy, px + vx, py + vy, px, py) == ux * vy - uy * vx,
{
}

proof fn lemma_area_as_crosses(ax: int, ay: int, bx: int, by: int, cx: int, cy: int)
    ensures
        edge(ax, ay, bx, by, cx, cy) == (bx * cy - by * cx) + (cx * ay - cy * ax) + (ax * by - ay * bx),
{
    lemma_expand_product(bx, ax, cy, ay);
    lemma_expand_product(by, ay, cx, ax);
    assert(ax * by == by * ax) by (nonlinear_arith);
    assert(ay * bx == bx * ay) by (nonlinear_arith);
    assert(cx * ay == ay * cx) by (nonlinear_arith);
    assert(cy * ax == ax * cy) by (nonlinear_arith);
}

proof fn lemma_expand_product(a: int, b: int, c: int, d: int)
    by (nonlinear_arith)
    ensures
        (a - b) * (c - d) == a * c - a * d - b * c + b * d,
{
}

proof fn lemma_product_bound(a: int, b: int)
    by (nonlinear_arith)
    requires
        -0x1_0000_0000 <= a <= 0x1_0000_0000,
        -0x1_0000_0000 <= b <= 0x1_0000_0000,
    ensures
        -0x1_0000_0000_0000_0000 <= a * b <= 0x1_0000_0000_0000_0000,
{
    assert(-0x1_0000_0000 * 0x1_0000_0000 <= a * b) by {
        if a >= 0 && b >= 0 {
        } else if a < 0 && b < 0 {
        } else if a < 0 {
            assert(a * b >= -0x1_0000_0000 * b);
        } else {
            assert(a * b >= a * -0x1_0000_0000);
        }
    }
    assert(a * b <= 0x1_0000_0000 * 0x1_0000_0000) by {
        if a >= 0 && b >= 0 {
            assert(a * b <= 0x1_0000_0000 * b);
        } else if a < 0 && b < 0 {
            assert(a * b <= -0x1_0000_0000 * b);
        }
    }
}

/// The edge function evaluated in `i128`, wide enough that it never
/// overflows for `i32` coordinates.
pub fn edge_wide(ax: i32, ay: i32, bx: i32, by: i32, px: i32, py: i32) -> (r: i128)
    ensures
        r == edge(ax as int, ay as int, bx as int, by as int, px as int, py as int),
{
    let bx_ax = bx as i128 - ax as i128;
    let py_ay = py as i128 - ay as i128;
    let by_ay = by as i128 - ay as i128;
    let px_ax = px as i128 - ax as i128;
    proof {
        lemma_product_bound(bx_ax as int, py_ay as int);
        lemma_product_bound(by_ay as int, px_ax as int);
    }
    bx_ax * py_ay - by_ay * px_ax
}

/// A pixel covered by the triangle being scanned, with the three edge
/// function values at it (the unnormalised barycentric weights of the
/// vertices opposite each edge).
#[derive(Debug, Clone, Copy, PartialEq, Eq, Structural)]
pub struct Fragment {
    pub x: usize,
    pub y: usize,
    /// Edge `v1 -> v2`: the weight of `v0`.
    pub w0: i128,
    /// Edge `v2 -> v0`: the weight of `v1`.
    pub w1: i128,
    /// Edge `v0 -> v1`: the weight of `v2`.
    pub w2: i128,
}

/// The state of a scan: the triangle, its clipped bounding box, and the next
/// pixel of the box, in row-major order, still to be examined.
pub struct ScanState {
    pub x0: int,
    pub y0: int,
    pub x1: int,
    pub y1: int,
    pub x2: int,
    pub y2: int,
    pub area: int,
    pub min_x: int,
    pub max_x: int,
    pub min_y: int,
    pub max_y: int,
    pub x: int,
    pub y: int,
    pub width: int,
    pub height: int,
}

/// `(ax, ay)` comes strictly before `(bx, by)` in row-major order.
pub open spec fn before(ax: int, ay: int, bx: int, by: int) -> bool {
    ay < by || (ay == by && ax < bx)
}

pub open spec fn max3(a: int, b: int, c: int) -> int {
    let m = if a >= b { a } else { b };
    if m >= c { m } else { c }
}

pub open spec fn min3(a: int, b: int, c: int) -> int {
    let m = if a <= b { a } else { b };
    if m <= c { m } else { c }
}

pub open spec fn min2(a: int, b: int) -> int {
    if a <= b { a } else { b }
}

pub open spec fn max2(a: int, b: int) -> int {
    if a >= b { a } else { b }
}

impl ScanState {
    /// Twice the signed area of the triangle.
    pub open spec fn triangle_area(self) -> int {
        edge(self.x0, self.y0, self.x1, self.y1, self.x2, self.y2)
    }

    pub open spec fn in_box(self, px: int, py: int) -> bool {
        self.min_x <= px <= self.max_x && self.min_y <= py <= self.max_y
    }

    /// Pixel `(px, py)` of the box has not been examined yet.
    pub open spec fn pending(self, px: int, py: int) -> bool {
        self.in_box(px, py) && !before(px, py, self.x, self.y)
    }

    /// The weight of `v0` at `(px, py)`: the edge function of `v1 -> v2`.
    pub open spec fn w0(self, px: int, py: int) -> int {
        edge(self.x1, self.y1, self.x2, self.y2, px, py)
    }

    /// The weight of `v1` at `(px, py)`: the edge function of `v2 -> v0`.
    pub open spec fn w1(self, px: int, py: int) -> int {
        edge(self.x2, self.y2, self.x0, self.y0, px, py)
    }

    /// The weight of `v2` at `(px, py)`: the edge function of `v0 -> v1`.
    pub open spec fn w2(self, px: int, py: int) -> int {
        edge(self.x0, self.y0, self.x1, self.y1, px, py)
    }

    /// `(px, py)` lies inside the triangle or on its boundary.
    pub open spec fn covers(self, px: int, py: int) -> bool {
        self.w0(px, py) >= 0 && self.w1(px, py) >= 0 && self.w2(px, py) >= 0
    }

    /// `(px, py)` is a pixel the whole scan draws: the triangle is
    /// counter-clockwise, and the pixel lies inside the clipped box and is
    /// covered by the triangle.
    pub open spec fn draws(self, px: int, py: int) -> bool {
        self.area > 0 && self.in_box(px, py) && self.covers(px, py)
    }

    /// The fragment the scan yields at `(px, py)`.
    pub open spec fn fragment_at(self, px: int, py: int) -> Fragment {
        Fragment {
            x: px as usize,
            y: py as usize,
            w0: self.w0(px, py) as i128,
            w1: self.w1(px, py) as i128,
            w2: self.w2(px, py) as i128,
        }
    }

    /// Same triangle, same box, same clipping limits.
    pub open spec fn same_scan(self, other: ScanState) -> bool {
        &&& self.x0 == other.x0 && self.y0 == other.y0
        &&& self.x1 == other.x1 && self.y1 == other.y1
        &&& self.x2 == other.x2 && self.y2 == other.y2
        &&& self.area == other.area
        &&& self.min_x == other.min_x && self.max_x == other.max_x
        &&& self.min_y == other.min_y && self.max_y == other.max_y
        &&& self.width == other.width && self.height == other.height
    }

    pub open spec fn wf(self) -> bool {
        &&& self.area == self.triangle_area()
        &&& 0 < self.area
        &&& 0 <= self.min_x
        &&& 0 <= self.min_y
        &&& self.max_x < self.width
        &&& self.max_y < self.height
        &&& self.max_x <= i32::MAX
        &&& self.max_y <= i32::MAX
        &&& self.min_x <= i32::MAX
        &&& self.min_y <= i32::MAX
        &&& self.y <= self.max_y ==> self.min_x <= self.x <= self.max_x && self.min_y <= self.y
        &&& self.y <= self.max_y + 1
        &&& fits_i32(self.x0) && fits_i32(self.y0)
        &&& fits_i32(self.x1) && fits_i32(self.y1)
        &&& fits_i32(self.x2) && fits_i32(self.y2)
    }
}

/// The state in which the scan of the triangle `(x0, y0), (x1, y1),
/// (x2, y2)` over an image `width` by `height` pixels starts: the bounding
/// box of the triangle clipped to the image, with its first pixel (or, when
/// the box is empty, none) still to be examined.
pub open spec fn scan_start(
    x0: int,
    y0: int,
    x1: int,
    y1: int,
    x2: int,
    y2: int,
    width: int,
    height: int,
) -> ScanState {
    let min_x = max2(min3(x0, x1, x2), 0);
    let max_x = min2(max3(x0, x1, x2), width - 1);
    let min_y = max2(min3(y0, y1, y2), 0);
    let max_y = min2(max3(y0, y1, y2), height - 1);
    ScanState {
        x0,
        y0,
        x1,
        y1,
        x2,
        y2,
        area: edge(x0, y0, x1, y1, x2, y2),
        min_x,
        max_x,
        min_y,
        max_y,
        x: min_x,
        y: if min_x <= max_x && min_y <= max_y { min_y } else { max_y + 1 },
        width,
        height,
    }
}

proof fn lemma_cross_identity(ax: int, bx: int, cx: int, ay: int, by: int, cy: int, d: int, e: int, f: int)
    requires
        d == ax,
        e == bx,
        f == cx,
    ensures
        (bx * cy - by * cx) * d + (cx * ay - cy * ax) * e + (ax * by - ay * bx) * f == 0,
{
    assert((bx * cy - by * cx) * ax == bx * cy * ax - by * cx * ax) by (nonlinear_arith);
    assert((cx * ay - cy * ax) * bx == cx * ay * bx - cy * ax * bx) by (nonlinear_arith);
    assert((ax * by - ay * bx) * cx == ax * by * cx - ay * bx * cx) by (nonlinear_arith);
    assert(bx * cy * ax == cy * ax * bx) by (nonlinear_arith);
    assert(by * cx * ax == ax * by * cx) by (nonlinear_arith);
    assert(cx * ay * bx == ay * bx * cx) by (nonlinear_arith);
}

proof fn lemma_cross_identity_y(ax: int, bx: int, cx: int, ay: int, by: int, cy: int)
    ensures
        (bx * cy - by * cx) * ay + (cx * ay - cy * ax) * by + (ax * by - ay * bx) * cy == 0,
{
    assert((bx * cy - by * cx) * ay == bx * cy * ay - by * cx * ay) by (nonlinear_arith);
    assert((cx * ay - cy * ax) * by == cx * ay * by - cy * ax * by) by (nonlinear_arith);
    assert((ax * by - ay * bx) * cy == ax * by * cy - ay * bx * cy) by (nonlinear_arith);
    assert(bx * cy * ay == ay * bx * cy) by (nonlinear_arith);
    assert(by * cx * ay == cx * ay * by) by (nonlinear_arith);
    assert(cy * ax * by == ax * by * cy) by (nonlinear_arith);
}

/// Seen from any point `p`, the vertices weighted by the edge functions
/// balance out: `w0 (v0 - p) + w1 (v1 - p) + w2 (v2 - p) == 0`, so `p` is
/// the weighted average of the vertices.
pub proof fn lemma_barycentric_balance(
    x0: int,
    y0: int,
    x1: int,
    y1: int,
    x2: int,
    y2: int,
    px: int,
    py: int,
)
    ensures
        edge(x1, y1, x2, y2, px, py) * (x0 - px) + edge(x2, y2, x0, y0, px, py) * (x1 - px) + edge(
            x0,
            y0,
            x1,
            y1,
            px,
            py,
        ) * (x2 - px) == 0,
        edge(x1, y1, x2, y2, px, py) * (y0 - py) + edge(x2, y2, x0, y0, px, py) * (y1 - py) + edge(
            x0,
            y0,
            x1,
            y1,
            px,
            py,
        ) * (y2 - py) == 0,
{
    let (ax, ay) = (x0 - px, y0 - py);
    let (bx, by) = (x1 - px, y1 - py);
    let (cx, cy) = (x2 - px, y2 - py);
    lemma_edge_from_point(px, py, bx, by, cx, cy);
    lemma_edge_from_point(px, py, cx, cy, ax, ay);
    lemma_edge_from_point(px, py, ax, ay, bx, by);
    lemma_cross_identity(ax, bx, cx, ay, by, cy, ax, bx, cx);
    lemma_cross_identity_y(ax, bx, cx, ay, by, cy);
}

proof fn lemma_weighted_sign(w: int, d: int)
    by (nonlinear_arith)
    requires
        w >= 0,
        d < 0,
    ensures
        w * d <= 0,
        w * d == 0 ==> w == 0,
{
}

/// Non-negative weights with a positive total that balance the offsets
/// `d0, d1, d2` cannot all multiply offsets of one strict sign.
proof fn lemma_balance_spans(w0: int, w1: int, w2: int, d0: int, d1: int, d2: int)
    requires
        w0 >= 0,
        w1 >= 0,
        w2 >= 0,
        w0 + w1 + w2 > 0,
        w0 * d0 + w1 * d1 + w2 * d2 == 0,
    ensures
        !(d0 < 0 && d1 < 0 && d2 < 0),
        !(d0 > 0 && d1 > 0 && d2 > 0),
{
    if d0 < 0 && d1 < 0 && d2 < 0 {
        lemma_weighted_sign(w0, d0);
        lemma_weighted_sign(w1, d1);
        lemma_weighted_sign(w2, d2);
    }
    if d0 > 0 && d1 > 0 && d2 > 0 {
        lemma_weighted_sign(w0, -d0);
        lemma_weighted_sign(w1, -d1);
        lemma_weighted_sign(w2, -d2);
        assert(w0 * -d0 == -(w0 * d0)) by (nonlinear_arith);
        assert(w1 * -d1 == -(w1 * d1)) by (nonlinear_arith);
        assert(w2 * -d2 == -(w2 * d2)) by (nonlinear_arith);
    }
}

/// A point inside a counter-clockwise triangle (all three edge functions
/// non-negative) lies within the triangle's bounding box.
pub proof fn lemma_covered_in_bounding_box(
    x0: int,
    y0: int,
    x1: int,
    y1: int,
    x2: int,
    y2: int,
    px: int,
    py: int,
)
    requires
        edge(x0, y0, x1, y1, x2, y2) > 0,
        edge(x1, y1, x2, y2, px, py) >= 0,
        edge(x2, y2, x0, y0, px, py) >= 0,
        edge(x0, y0, x1, y1, px, py) >= 0,
    ensures
        min3(x0, x1, x2) <= px <= max3(x0, x1, x2),
        min3(y0, y1, y2) <= py <= max3(y0, y1, y2),
{
    lemma_weights_sum_to_area(x0, y0, x1, y1, x2, y2, px, py);
    lemma_barycentric_balance(x0, y0, x1, y1, x2, y2, px, py);
    let w0 = edge(x1, y1, x2, y2, px, py);
    let w1 = edge(x2, y2, x0, y0, px, py);
    let w2 = edge(x0, y0, x1, y1, px, py);
    lemma_balance_spans(w0, w1, w2, x0 - px, x1 - px, x2 - px);
    lemma_balance_spans(w0, w1, w2, y0 - py, y1 - py, y2 - py);
}

/// The scan of a triangle over an image draws exactly the pixels of the
/// image that the triangle covers, when it is counter-clockwise, and none
/// otherwise: clipping to the bounding box loses no covered pixel.
pub proof fn lemma_scan_draws_exactly_covered(
    x0: int,
    y0: int,
    x1: int,
    y1: int,
    x2: int,
    y2: int,
    width: int,
    height: int,
    px: int,
    py: int,
)
    ensures
        scan_start(x0, y0, x1, y1, x2, y2, width, height).draws(px, py) <==> {
            &&& edge(x0, y0, x1, y1, x2, y2) > 0
            &&& 0 <= px < width
            &&& 0 <= py < height
            &&& edge(x1, y1, x2, y2, px, py) >= 0
            &&& edge(x2, y2, x0, y0, px, py) >= 0
            &&& edge(x0, y0, x1, y1, px, py) >= 0
        },
        scan_start(x0, y0, x1, y1, x2, y2, width, height).draws(px, py)
            ==> scan_start(x0, y0, x1, y1, x2, y2, width, height).pending(px, py),
{
    if edge(x0, y0, x1, y1, x2, y2) > 0 && edge(x1, y1, x2, y2, px, py) >= 0 && edge(
        x2,
        y2,
        x0,
        y0,
        px,
        py,
    ) >= 0 && edge(x0, y0, x1, y1, px, py) >= 0 {
        lemma_covered_in_bounding_box(x0, y0, x1, y1, x2, y2, px, py);
    }
}

/// Visits, in row-major order, the pixels of a counter-clockwise triangle's
/// bounding box (clipped to the image) and yields those the triangle covers.
pub struct TriangleScan {
    x0: i32,
    y0: i32,
    x1: i32,
    y1: i32,
    x2: i32,
    y2: i32,
    area: i128,
    min_x: i64,
    max_x: i64,
    min_y: i64,
    max_y: i64,
    x: i64,
    y: i64,
    width: usize,
    height: usize,
}

impl View for TriangleScan {
    type V = ScanState;

    closed spec fn view(&self) -> ScanState {
        ScanState {
            x0: self.x0 as int,
            y0: self.y0 as int,
            x1: self.x1 as int,
            y1: self.y1 as int,
            x2: self.x2 as int,
            y2: self.y2 as int,
            area: self.area as int,
            min_x: self.min_x as int,
            max_x: self.max_x as int,
            min_y: self.min_y as int,
            max_y: self.max_y as int,
            x: self.x as int,
            y: self.y as int,
            width: self.width as int,
            height: self.height as int,
        }
    }
}

/// Moving the cursor one pixel forward in row-major order.
pub open spec fn advanced(cur: ScanState, next: ScanState) -> bool {
    &&& next.same_scan(cur)
    &&& cur.x < cur.max_x ==> next.x == cur.x + 1 && next.y == cur.y
    &&& cur.x >= cur.max_x ==> next.x == cur.min_x && next.y == cur.y + 1
}

proof fn lemma_advance(cur: ScanState, next: ScanState)
    requires
        cur.wf(),
        cur.y <= cur.max_y,
        advanced(cur, next),
    ensures
        next.wf(),
        cur.pending(cur.x, cur.y),
        forall|px: int, py: int|
            #[trigger] next.pending(px, py) <==> cur.pending(px, py) && before(cur.x, cur.y, px, py),
{
}

/// Every vertex of a counter-clockwise triangle is covered by it, and at
/// every covered point each edge function lies between zero and the doubled
/// area (each barycentric weight is between 0 and 1).
pub proof fn lemma_covered_weights(s: ScanState, px: int, py: int)
    requires
        s.wf(),
    ensures
        s.covers(s.x0, s.y0),
        s.covers(s.x1, s.y1),
        s.covers(s.x2, s.y2),
        s.covers(px, py) ==> {
            &&& s.w0(px, py) <= s.area
            &&& s.w1(px, py) <= s.area
            &&& s.w2(px, py) <= s.area
        },
{
    lemma_area_rotation(s.x0, s.y0, s.x1, s.y1, s.x2, s.y2);
    lemma_edge_endpoints(s.x0, s.y0, s.x1, s.y1);
    lemma_edge_endpoints(s.x1, s.y1, s.x2, s.y2);
    lemma_edge_endpoints(s.x2, s.y2, s.x0, s.y0);
    lemma_weights_sum_to_area(s.x0, s.y0, s.x1, s.y1, s.x2, s.y2, px, py);
}

fn max_i32(a: i32, b: i32) -> (r: i32)
    ensures
        r == max2(a as int, b as int),
{
    if a >= b { a } else { b }
}

fn min_i32(a: i32, b: i32) -> (r: i32)
    ensures
        r == min2(a as int, b as int),
{
    if a <= b { a } else { b }
}

/// The last column (or row) of an image `extent` pixels wide (or high),
/// capped at `i32::MAX`, which no `i32` coordinate exceeds.
fn last_index(extent: usize) -> (r: i64)
    ensures
        r == min2(extent - 1, i32::MAX as int),
{
    if extent > (i32::MAX as usize) {
        i32::MAX as i64
    } else {
        extent as i64 - 1
    }
}

impl TriangleScan {
    /// Set up the scan of the triangle `v0, v1, v2` over an image `width` by
    /// `height` pixels. Degenerate (zero-area) and clockwise triangles yield
    /// `None`: they are culled.
    pub fn new(x0: i32, y0: i32, x1: i32, y1: i32, x2: i32, y2: i32, width: usize, height: usize)
        -> (res: Option<TriangleScan>)
        ensures
            res is None <==> edge(x0 as int, y0 as int, x1 as int, y1 as int, x2 as int, y2 as int) <= 0,
            res matches Some(scan) ==> {
                &&& scan@.wf()
                &&& scan@ == scan_start(
                    x0 as int,
                    y0 as int,
                    x1 as int,
                    y1 as int,
                    x2 as int,
                    y2 as int,
                    width as int,
                    height as int,
                )
                &&& forall|px: int, py: int| scan@.pending(px, py) <==> scan@.in_box(px, py)
            },
    {
        let area = edge_wide(x0, y0, x1, y1, x2, y2);
        if area <= 0 {
            return None;
        }
        let max_x = min_i32(max_i32(max_i32(x0, x1), x2), i32::MAX) as i64;
        let max_x = if max_x <= last_index(width) { max_x } else { last_index(width) };
        let max_y = min_i32(max_i32(max_i32(y0, y1), y2), i32::MAX) as i64;
        let max_y = if max_y <= last_index(height) { max_y } else { last_index(height) };
        let min_x = max_i32(min_i32(min_i32(x0, x1), x2), 0) as i64;
        let min_y = max_i32(min_i32(min_i32(y0, y1), y2), 0) as i64;
        // An empty box starts the scan already finished.
        let y = if min_x <= max_x && min_y <= max_y { min_y } else { max_y + 1 };
        Some(TriangleScan {
            x0, y0, x1, y1, x2, y2, area, min_x, max_x, min_y, max_y, x: min_x, y, width, height,
        })
    }

    /// Twice the triangle's area; positive.
    pub fn area(&self) -> (a: i128)
        ensures
            a == self@.area,
    {
        self.area
    }

    /// Examine the pending pixels in row-major order and return the first
    /// one the triangle covers, with its edge function values; `None` once
    /// the box is exhausted.
    pub fn next_fragment(&mut self) -> (res: Option<Fragment>)
        requires
            old(self)@.wf(),
        ensures
            final(self)@.wf(),
            final(self)@.same_scan(old(self)@),
            res is Some ==> before(old(self)@.x, old(self)@.y, final(self)@.x, final(self)@.y),
            res matches Some(f) ==> {
                &&& old(self)@.pending(f.x as int, f.y as int)
                &&& old(self)@.covers(f.x as int, f.y as int)
                &&& f == old(self)@.fragment_at(f.x as int, f.y as int)
                &&& f.x < old(self)@.width && f.y < old(self)@.height
                &&& forall|px: int, py: int|
                    old(self)@.pending(px, py) && before(px, py, f.x as int, f.y as int)
                        ==> !#[trigger] old(self)@.covers(px, py)
                &&& forall|px: int, py: int|
                    #[trigger] final(self)@.pending(px, py)
                        <==> old(self)@.pending(px, py) && before(f.x as int, f.y as int, px, py)
            },
            res is None ==> {
                &&& forall|px: int, py: int|
                    old(self)@.pending(px, py) ==> !#[trigger] old(self)@.covers(px, py)
                &&& forall|px: int, py: int| !#[trigger] final(self)@.pending(px, py)
            },
    {
        loop
            invariant
                self@.wf(),
                self@.same_scan(old(self)@),
                (self@.x == old(self)@.x && self@.y == old(self)@.y) || before(
                    old(self)@.x,
                    old(self)@.y,
                    self@.x,
                    self@.y,
                ),
                forall|px: int, py: int| #[trigger] self@.pending(px, py) ==> old(self)@.pending(px, py),
                forall|px: int, py: int|
                    old(self)@.pending(px, py) && !self@.pending(px, py)
                        ==> !#[trigger] old(self)@.covers(px, py),
                forall|px: int, py: int|
                    old(self)@.pending(px, py) && !self@.pending(px, py)
                        ==> #[trigger] before(px, py, self@.x, self@.y),
            decreases self@.max_y - self@.y + 1, self@.max_x - self@.x,
        {
            if self.y > self.max_y {
                return None;
            }
            let px = self.x;
            let py = self.y;
            let ghost cur = self@;
            if self.x < self.max_x {
                self.x = self.x + 1;
            } else {
                self.x = self.min_x;
                self.y = self.y + 1;
            }
            proof {
                lemma_advance(cur, self@);
                assert(old(self)@.pending(px as int, py as int));
                assert forall|qx: int, qy: int|
                    old(self)@.pending(qx, qy) && before(qx, qy, px as int, py as int)
                        implies !#[trigger] old(self)@.covers(qx, qy) by {
                    assert(!cur.pending(qx, qy));
                }
            }
            let (cx, cy) = (px as i32, py as i32);
            let w0 = edge_wide(self.x1, self.y1, self.x2, self.y2, cx, cy);
            let w1 = edge_wide(self.x2, self.y2, self.x0, self.y0, cx, cy);
            let w2 = edge_wide(self.x0, self.y0, self.x1, self.y1, cx, cy);
            if w0 >= 0 && w1 >= 0 && w2 >= 0 {
                return Some(Fragment { x: px as usize, y: py as usize, w0, w1, w2 });
            }
        }
    }
}

} // verus!
