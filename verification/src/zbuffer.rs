use core::cmp::Ordering;
use vstd::prelude::*;
use vstd::std_specs::cmp::PartialOrdSpec;

verus! {

/// What a depth buffer holds: its dimensions and one depth per pixel, row by
/// row from the top-left corner.
pub struct DepthView<D> {
    pub width: nat,
    pub height: nat,
    pub depths: Seq<D>,
}

impl<D> DepthView<D> {
    /// One depth for each pixel, and a pixel count that fits in `usize`.
    pub open spec fn wf(self) -> bool {
        &&& self.depths.len() == self.width * self.height
        &&& self.width * self.height <= usize::MAX
    }

    /// `(x, y)` is a pixel of the image.
    pub open spec fn in_bounds(self, x: usize, y: usize) -> bool {
        x < self.width && y < self.height
    }

    /// The position of `(x, y)` in `depths`.
    pub open spec fn index(self, x: usize, y: usize) -> int {
        y * self.width + x
    }

    /// The depth stored at pixel `(x, y)`.
    pub open spec fn depth_at(self, x: usize, y: usize) -> D {
        self.depths[self.index(x, y)]
    }

    /// The buffer after `(x, y)` is overwritten with `depth`.
    pub open spec fn with_depth(self, x: usize, y: usize, depth: D) -> DepthView<D> {
        DepthView {
            width: self.width,
            height: self.height,
            depths: self.depths.update(self.index(x, y), depth),
        }
    }

    /// The buffer with every depth set to `depth`.
    pub open spec fn filled(self, depth: D) -> DepthView<D> {
        DepthView {
            width: self.width,
            height: self.height,
            depths: Seq::new(self.depths.len(), |i: int| depth),
        }
    }
}

/// `z` is closer than (compares below) `d`.
pub open spec fn closer_than<D: PartialOrd>(z: D, d: D) -> bool {
    z.partial_cmp_spec(&d) == Some(Ordering::Less)
}

/// A per-pixel depth buffer for hidden-surface removal. The depth type is
/// left to the caller: the buffer only stores, reads and overwrites depths.
pub struct ZBuffer<D> {
    data: Vec<D>,
    width: usize,
    height: usize,
}

impl<D> View for ZBuffer<D> {
    type V = DepthView<D>;

    closed spec fn view(&self) -> DepthView<D> {
        DepthView { width: self.width as nat, height: self.height as nat, depths: self.data@ }
    }
}

/// A pixel of the image has its depth inside the buffer, and distinct pixels
/// have distinct depths.
pub proof fn lemma_pixel_index<D>(v: DepthView<D>, x: usize, y: usize, qx: usize, qy: usize)
    requires
        v.wf(),
        v.in_bounds(x, y),
    ensures
        0 <= v.index(x, y) < v.depths.len(),
        v.in_bounds(qx, qy) && (qx != x || qy != y) ==> v.index(qx, qy) != v.index(x, y),
{
    lemma_index_in_grid(v.width as int, v.height as int, x as int, y as int);
    if v.in_bounds(qx, qy) && (qx != x || qy != y) {
        lemma_index_distinct(v.width as int, x as int, y as int, qx as int, qy as int);
    }
}

/// Reading a depth back after writing it gives the depth written; every
/// other pixel keeps its depth, and the buffer keeps its shape.
pub proof fn lemma_depth_after_set<D>(v: DepthView<D>, x: usize, y: usize, depth: D, qx: usize, qy: usize)
    requires
        v.wf(),
        v.in_bounds(x, y),
    ensures
        v.with_depth(x, y, depth).wf(),
        v.with_depth(x, y, depth).depth_at(x, y) == depth,
        v.in_bounds(qx, qy) && (qx != x || qy != y)
            ==> v.with_depth(x, y, depth).depth_at(qx, qy) == v.depth_at(qx, qy),
{
    lemma_pixel_index(v, x, y, qx, qy);
    if v.in_bounds(qx, qy) {
        lemma_pixel_index(v, qx, qy, x, y);
    }
}

/// After a reset every pixel has the reset depth.
pub proof fn lemma_depth_after_clear<D>(v: DepthView<D>, far: D, x: usize, y: usize)
    requires
        v.wf(),
        v.in_bounds(x, y),
    ensures
        v.filled(far).wf(),
        v.filled(far).depth_at(x, y) == far,
{
    lemma_pixel_index(v, x, y, x, y);
}

proof fn lemma_index_in_grid(w: int, h: int, x: int, y: int)
    by (nonlinear_arith)
    requires
        0 <= x < w,
        0 <= y < h,
    ensures
        0 <= y * w,
        y * w + x < w * h,
{
    assert(y * w + x < (y + 1) * w);
    assert((y + 1) * w <= h * w);
}

proof fn lemma_index_distinct(w: int, x: int, y: int, qx: int, qy: int)
    by (nonlinear_arith)
    requires
        0 <= x < w,
        0 <= qx < w,
        0 <= y,
        0 <= qy,
        qx != x || qy != y,
    ensures
        qy * w + qx != y * w + x,
{
    if qy < y {
        assert(qy * w + qx < (qy + 1) * w);
        assert((qy + 1) * w <= y * w);
    } else if y < qy {
        assert(y * w + x < (y + 1) * w);
        assert((y + 1) * w <= qy * w);
    }
}

impl<D: Copy> ZBuffer<D> {
    /// Create a buffer of `width * height` depths, all set to `far`.
    pub fn new(width: usize, height: usize, far: D) -> (zb: Self)
        requires
            width * height <= usize::MAX,
        ensures
            zb@ == (DepthView {
                width: width as nat,
                height: height as nat,
                depths: Seq::new((width * height) as nat, |i: int| far),
            }),
    {
        let size = width * height;
        let mut data: Vec<D> = Vec::new();
        let mut i: usize = 0;
        while i < size
            invariant
                i <= size,
                data@.len() == i,
                forall|j: int| 0 <= j < i ==> data@[j] == far,
            decreases size - i,
        {
            data.push(far);
            i = i + 1;
        }
        let zb = ZBuffer { data, width, height };
        assert(zb@.depths =~= Seq::new((width * height) as nat, |i: int| far));
        zb
    }

    /// The width in pixels.
    pub fn width(&self) -> (w: usize)
        ensures
            w == self@.width,
    {
        self.width
    }

    /// The height in pixels.
    pub fn height(&self) -> (h: usize)
        ensures
            h == self@.height,
    {
        self.height
    }

    /// Whether `(x, y)` is a pixel of the buffer, so that reading or writing
    /// its depth is allowed.
    pub fn contains(&self, x: usize, y: usize) -> (b: bool)
        ensures
            b == self@.in_bounds(x, y),
    {
        x < self.width && y < self.height
    }

    /// The depth stored at `(x, y)`.
    pub fn get_depth(&self, x: usize, y: usize) -> (d: D)
        requires
            self@.wf(),
            self@.in_bounds(x, y),
        ensures
            d == self@.depth_at(x, y),
    {
        proof {
            lemma_index_in_grid(self.width as int, self.height as int, x as int, y as int);
        }
        self.data[y * self.width + x]
    }

    /// Store `depth` at `(x, y)`.
    pub fn set_depth(&mut self, x: usize, y: usize, depth: D)
        requires
            old(self)@.wf(),
            old(self)@.in_bounds(x, y),
        ensures
            final(self)@ == old(self)@.with_depth(x, y, depth),
    {
        proof {
            lemma_index_in_grid(self.width as int, self.height as int, x as int, y as int);
        }
        self.data.set(y * self.width + x, depth);
    }

    /// Reset every depth to `far`.
    pub fn clear(&mut self, far: D)
        ensures
            final(self)@ == old(self)@.filled(far),
    {
        let len = self.data.len();
        let mut i: usize = 0;
        while i < len
            invariant
                i <= len,
                len == self.data@.len(),
                self.width == old(self).width,
                self.height == old(self).height,
                forall|j: int| 0 <= j < i ==> self.data@[j] == far,
            decreases len - i,
        {
            self.data.set(i, far);
            i = i + 1;
        }
        assert(self@.depths =~= old(self)@.filled(far).depths);
    }
}

impl<D: Copy + PartialOrd> ZBuffer<D> {
    /// If `z` is closer (smaller) than the depth stored at `(x, y)`, store
    /// it and return `true`; otherwise leave the buffer as it is and return
    /// `false`.
    pub fn test_and_set(&mut self, x: usize, y: usize, z: D) -> (closer: bool)
        requires
            old(self)@.wf(),
            old(self)@.in_bounds(x, y),
        ensures
            closer ==> final(self)@ == old(self)@.with_depth(x, y, z),
            !closer ==> final(self)@ == old(self)@,
            D::obeys_partial_cmp_spec() ==> (closer <==> closer_than(z, old(self)@.depth_at(x, y))),
    {
        if z < self.get_depth(x, y) {
            self.set_depth(x, y, z);
            true
        } else {
            false
        }
    }
}

} // verus!
