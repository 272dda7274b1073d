use vstd::prelude::*;
use vstd::string::StringExecFns;

use crate::decimal::{
    decimal_chars, decimal_digits, digits_value, is_digit, lemma_decimal_digits_denote, push_decimal,
};

verus! {

/// A packed RGB image: `width * height` pixels, three bytes each,
/// stored row by row starting at the top-left corner.
pub struct Framebuffer {
    pub width: usize,
    pub height: usize,
    data: Vec<u8>,
}

/// What a framebuffer holds: its dimensions and its packed bytes
/// `[R, G, B, R, G, B, ...]`.
pub struct FrameView {
    pub width: nat,
    pub height: nat,
    pub bytes: Seq<u8>,
}

impl FrameView {
    /// The byte sequence holds exactly three bytes for each pixel, and their
    /// count fits in `usize`.
    pub open spec fn wf(self) -> bool {
        &&& self.bytes.len() == self.width * self.height * 3
        &&& self.width * self.height * 3 <= usize::MAX
    }

    pub open spec fn in_bounds(self, x: int, y: int) -> bool {
        0 <= x < self.width && 0 <= y < self.height
    }

    /// The colour of pixel `(x, y)`.
    pub open spec fn pixel(self, x: int, y: int) -> (u8, u8, u8) {
        rgb_at(self.bytes, pixel_offset(self.width as int, x, y))
    }

    /// The colour reported for `(x, y)`: black outside the image.
    pub open spec fn pixel_or_black(self, x: int, y: int) -> (u8, u8, u8) {
        if self.in_bounds(x, y) {
            self.pixel(x, y)
        } else {
            (0, 0, 0)
        }
    }

    /// The image with pixel `(x, y)` painted `rgb`; unchanged when `(x, y)`
    /// lies outside it.
    pub open spec fn with_pixel(self, x: int, y: int, rgb: (u8, u8, u8)) -> FrameView {
        if self.in_bounds(x, y) {
            let o = pixel_offset(self.width as int, x, y);
            FrameView {
                width: self.width,
                height: self.height,
                bytes: self.bytes.update(o, rgb.0).update(o + 1, rgb.1).update(o + 2, rgb.2),
            }
        } else {
            self
        }
    }

    /// The image with every pixel painted `rgb`.
    pub open spec fn filled(self, rgb: (u8, u8, u8)) -> FrameView {
        FrameView {
            width: self.width,
            height: self.height,
            bytes: Seq::new(self.bytes.len(), |i: int| channel(rgb, i % 3)),
        }
    }

    /// An all-black image of the given size.
    pub open spec fn black(width: nat, height: nat) -> FrameView {
        FrameView { width, height, bytes: Seq::new(width * height * 3, |i: int| 0u8) }
    }
}

/// Channel `c` (0 red, 1 green, 2 blue) of a colour.
pub open spec fn channel(rgb: (u8, u8, u8), c: int) -> u8 {
    if c == 0 {
        rgb.0
    } else if c == 1 {
        rgb.1
    } else {
        rgb.2
    }
}

impl View for Framebuffer {
    type V = FrameView;

    closed spec fn view(&self) -> FrameView {
        FrameView { width: self.width as nat, height: self.height as nat, bytes: self.data@ }
    }
}

/// Byte offset of the red channel of pixel `(x, y)` in an image `width` wide.
pub open spec fn pixel_offset(width: int, x: int, y: int) -> int {
    (y * width + x) * 3
}

/// The pixel at offset `i` of a packed RGB byte sequence.
pub open spec fn rgb_at(bytes: Seq<u8>, i: int) -> (u8, u8, u8) {
    (bytes[i], bytes[i + 1], bytes[i + 2])
}

proof fn lemma_pixel_in_buffer(w: int, h: int, x: int, y: int)
    by (nonlinear_arith)
    requires
        0 <= x < w,
        0 <= y < h,
    ensures
        0 <= y * w,
        y * w + x < w * h,
        0 <= pixel_offset(w, x, y),
        pixel_offset(w, x, y) + 2 < w * h * 3,
{
    assert(y * w + x < (y + 1) * w);
    assert((y + 1) * w <= h * w);
}

/// The message with which `Framebuffer::new` refuses dimensions whose byte
/// count does not fit in `usize`.
pub open spec fn overflow_message(width: nat, height: nat) -> Seq<char> {
    "Framebuffer dimensions "@ + decimal_chars(width) + "x"@ + decimal_chars(height)
        + " overflow usize"@
}

/// `usize::to_string`: the `Display` form of a `usize`, which is its plain
/// decimal digits (no sign, padding or leading zeros).
#[verifier::external_body]
fn usize_to_string(n: usize) -> (s: String)
    ensures
        s@ == decimal_chars(n as nat),
{
    n.to_string()
}

/// The overflow message of `Framebuffer::new`.
fn overflow_message_string(width: usize, height: usize) -> (msg: String)
    ensures
        msg@ == overflow_message(width as nat, height as nat),
{
    let mut msg = "Framebuffer dimensions ".to_owned();
    let w = usize_to_string(width);
    msg.append(w.as_str());
    msg.append("x");
    let h = usize_to_string(height);
    msg.append(h.as_str());
    msg.append(" overflow usize");
    msg
}

/// The header of a binary PPM (P6) image: magic number, dimensions and the
/// maximum channel value, each on a line of its own.
pub open spec fn ppm_header(width: nat, height: nat) -> Seq<u8> {
    seq![80u8, 54u8, 10u8] + decimal_digits(width) + seq![32u8] + decimal_digits(height)
        + seq![10u8, 50u8, 53u8, 53u8, 10u8]
}

impl Framebuffer {
    /// Create a new framebuffer filled with black.
    ///
    /// Fails when `width * height * 3` overflows `usize`.
    pub fn new(width: usize, height: usize) -> (res: Result<Self, String>)
        ensures
            res is Ok <==> width * height * 3 <= usize::MAX,
            res matches Ok(fb) ==> fb@ == FrameView::black(width as nat, height as nat),
            res matches Err(msg) ==> msg@ == overflow_message(width as nat, height as nat),
    {
        let len = match width.checked_mul(height) {
            Some(n) => n.checked_mul(3),
            None => None,
        };
        match len {
            Some(len) => {
                let data = vec![0u8; len];
                let fb = Framebuffer { width, height, data };
                assert(fb@.bytes =~= FrameView::black(width as nat, height as nat).bytes);
                Ok(fb)
            },
            None => {
                proof {
                    if width * height <= usize::MAX {
                        assert(width * height * 3 > usize::MAX);
                    } else {
                        lemma_product_grows(width as int, height as int);
                    }
                }
                Err(overflow_message_string(width, height))
            },
        }
    }

    /// Set a pixel at (x, y) to the given RGB colour; (0, 0) is the top-left
    /// corner. Out-of-bounds coordinates leave the image unchanged.
    pub fn set_pixel(&mut self, x: usize, y: usize, r: u8, g: u8, b: u8)
        requires
            old(self)@.wf(),
        ensures
            final(self)@ == old(self)@.with_pixel(x as int, y as int, (r, g, b)),
            final(self)@.wf(),
    {
        if x >= self.width || y >= self.height {
            return;
        }
        proof {
            lemma_pixel_in_buffer(self.width as int, self.height as int, x as int, y as int);
        }
        let index = (y * self.width + x) * 3;
        self.data.set(index, r);
        self.data.set(index + 1, g);
        self.data.set(index + 2, b);
    }

    /// Read the RGB colour at (x, y); (0, 0, 0) when out of bounds.
    pub fn get_pixel(&self, x: usize, y: usize) -> (rgb: (u8, u8, u8))
        requires
            self@.wf(),
        ensures
            rgb == self@.pixel_or_black(x as int, y as int),
    {
        if x >= self.width || y >= self.height {
            return (0, 0, 0);
        }
        proof {
            lemma_pixel_in_buffer(self.width as int, self.height as int, x as int, y as int);
        }
        let index = (y * self.width + x) * 3;
        (self.data[index], self.data[index + 1], self.data[index + 2])
    }

    /// Fill the entire framebuffer with a single colour.
    pub fn clear(&mut self, r: u8, g: u8, b: u8)
        requires
            old(self)@.wf(),
        ensures
            final(self)@ == old(self)@.filled((r, g, b)),
            final(self)@.wf(),
    {
        let n = self.data.len() / 3;
        let mut i: usize = 0;
        while i < n
            invariant
                self@.wf(),
                self.width == old(self).width,
                self.height == old(self).height,
                n * 3 == self.data@.len(),
                n * 3 <= usize::MAX,
                i <= n,
                forall|k: int| 0 <= k < 3 * i ==> #[trigger] self.data@[k] == channel((r, g, b), k % 3),
            decreases n - i,
        {
            let k = 3 * i;
            let ghost before = self.data@;
            self.data.set(k, r);
            self.data.set(k + 1, g);
            self.data.set(k + 2, b);
            assert forall|k: int| 0 <= k < 3 * i + 3 implies #[trigger] self.data@[k] == channel((r, g, b), k % 3) by {
                if k < 3 * i {
                    assert(before[k] == channel((r, g, b), k % 3));
                }
            }
            i = i + 1;
        }
        assert(self@.bytes =~= old(self)@.filled((r, g, b)).bytes);
    }

    /// The width in pixels.
    pub fn width(&self) -> (w: usize)
        ensures
            w == self@.width,
    {
        self.width
    }

    /// The height in pixels.
    pub fn height(&self) -> (h: usize)
        ensures
            h == self@.height,
    {
        self.height
    }

    /// The packed RGB bytes, row by row from the top-left corner.
    pub fn data(&self) -> (bytes: &[u8])
        ensures
            bytes@ == self@.bytes,
    {
        self.data.as_slice()
    }

    /// The image encoded as a binary PPM (P6) file: the header followed by the
    /// raw RGB bytes.
    pub fn ppm_bytes(&self) -> (out: Vec<u8>)
        ensures
            out@ == ppm_header(self@.width, self@.height) + self@.bytes,
    {
        let mut out: Vec<u8> = Vec::new();
        out.push(80);
        out.push(54);
        out.push(10);
        push_decimal(&mut out, self.width);
        out.push(32);
        push_decimal(&mut out, self.height);
        out.push(10);
        out.push(50);
        out.push(53);
        out.push(53);
        out.push(10);
        let ghost header = out@;
        assert(header == ppm_header(self@.width, self@.height));
        let len = self.data.len();
        let mut i: usize = 0;
        while i < len
            invariant
                len == self.data@.len(),
                i <= len,
                out@ == header + self.data@.subrange(0, i as int),
            decreases len - i,
        {
            out.push(self.data[i]);
            i = i + 1;
            assert(self.data@.subrange(0, i as int) == self.data@.subrange(0, i - 1).push(self.data@[i - 1]));
        }
        assert(self.data@.subrange(0, len as int) == self.data@);
        out
    }

    /// The image as RGBA bytes, four per pixel, every pixel fully opaque
    /// (alpha 255), in the same order as the RGB data.
    pub fn as_rgba(&self) -> (out: Vec<u8>)
        requires
            self@.wf(),
            self@.width * self@.height * 4 <= usize::MAX,
        ensures
            out@.len() == self@.width * self@.height * 4,
            forall|i: int|
                #![trigger out@[4 * i]]
                0 <= i < self@.width * self@.height ==> {
                    &&& out@[4 * i] == self@.bytes[3 * i]
                    &&& out@[4 * i + 1] == self@.bytes[3 * i + 1]
                    &&& out@[4 * i + 2] == self@.bytes[3 * i + 2]
                    &&& out@[4 * i + 3] == 255
                },
    {
        let n = self.data.len() / 3;
        let mut out: Vec<u8> = Vec::new();
        let mut i: usize = 0;
        while i < n
            invariant
                self@.wf(),
                n * 3 == self.data@.len(),
                n * 4 <= usize::MAX,
                i <= n,
                out@.len() == 4 * i,
                forall|j: int|
                    #![trigger out@[4 * j]]
                    0 <= j < i ==> {
                        &&& out@[4 * j] == self.data@[3 * j]
                        &&& out@[4 * j + 1] == self.data@[3 * j + 1]
                        &&& out@[4 * j + 2] == self.data@[3 * j + 2]
                        &&& out@[4 * j + 3] == 255
                    },
            decreases n - i,
        {
            let k = 3 * i;
            let ghost before = out@;
            out.push(self.data[k]);
            out.push(self.data[k + 1]);
            out.push(self.data[k + 2]);
            out.push(255);
            assert forall|j: int| 0 <= j <= i implies {
                &&& #[trigger] out@[4 * j] == self.data@[3 * j]
                &&& out@[4 * j + 1] == self.data@[3 * j + 1]
                &&& out@[4 * j + 2] == self.data@[3 * j + 2]
                &&& out@[4 * j + 3] == 255
            } by {
                if j < i {
                    assert(before[4 * j] == self.data@[3 * j]);
                }
            }
            i = i + 1;
        }
        out
    }
}

/// The packed layout is row-major with three bytes per pixel: pixel
/// `(x, y)` is bytes `3 * (y * width + x) .. + 3` of the image, and writing
/// it changes exactly those bytes, to the colour's red, green and blue.
pub proof fn lemma_row_major_layout(v: FrameView, x: int, y: int, rgb: (u8, u8, u8))
    requires
        v.wf(),
        v.in_bounds(x, y),
    ensures
        0 <= 3 * (y * v.width + x),
        3 * (y * v.width + x) + 3 <= v.bytes.len(),
        v.pixel(x, y) == (
            v.bytes[3 * (y * v.width + x)],
            v.bytes[3 * (y * v.width + x) + 1],
            v.bytes[3 * (y * v.width + x) + 2],
        ),
        v.with_pixel(x, y, rgb).bytes.len() == v.bytes.len(),
        v.with_pixel(x, y, rgb).bytes[3 * (y * v.width + x)] == rgb.0,
        v.with_pixel(x, y, rgb).bytes[3 * (y * v.width + x) + 1] == rgb.1,
        v.with_pixel(x, y, rgb).bytes[3 * (y * v.width + x) + 2] == rgb.2,
        forall|i: int|
            0 <= i < v.bytes.len() && !(3 * (y * v.width + x) <= i < 3 * (y * v.width + x) + 3)
                ==> #[trigger] v.with_pixel(x, y, rgb).bytes[i] == v.bytes[i],
{
    lemma_pixel_in_buffer(v.width as int, v.height as int, x, y);
    assert(pixel_offset(v.width as int, x, y) == 3 * (y * v.width + x));
}

/// A sequence of ASCII digits, without a leading zero, that denotes `n`.
pub open spec fn denotes(digits: Seq<u8>, n: nat) -> bool {
    &&& digits.len() > 0
    &&& forall|i: int| 0 <= i < digits.len() ==> is_digit(#[trigger] digits[i])
    &&& digits_value(digits) == n
    &&& n > 0 ==> digits[0] != 48
}

/// The PPM header is `P6`, newline, the width and the height in decimal
/// separated by a space, newline, `255`, newline: its dimension fields read
/// back as the image's width and height.
pub proof fn lemma_ppm_header_dimensions(width: nat, height: nat)
    ensures
        exists|w: Seq<u8>, h: Seq<u8>|
            {
                &&& #[trigger] denotes(w, width)
                &&& #[trigger] denotes(h, height)
                &&& ppm_header(width, height) == seq![80u8, 54u8, 10u8] + w + seq![32u8] + h
                    + seq![10u8, 50u8, 53u8, 53u8, 10u8]
            },
{
    lemma_decimal_digits_denote(width);
    lemma_decimal_digits_denote(height);
    let w = decimal_digits(width);
    let h = decimal_digits(height);
    assert(denotes(w, width));
    assert(denotes(h, height));
    assert(ppm_header(width, height) == seq![80u8, 54u8, 10u8] + w + seq![32u8] + h
        + seq![10u8, 50u8, 53u8, 53u8, 10u8]);
}

/// Reading a pixel back after writing it gives the colour written.
pub proof fn lemma_get_after_set(v: FrameView, x: int, y: int, rgb: (u8, u8, u8))
    requires
        v.wf(),
        v.in_bounds(x, y),
    ensures
        v.with_pixel(x, y, rgb).pixel_or_black(x, y) == rgb,
{
    lemma_pixel_in_buffer(v.width as int, v.height as int, x, y);
}

/// Writing a pixel keeps the image's size and well-formedness, and leaves
/// every other pixel, inside or outside the image, as it was.
pub proof fn lemma_set_keeps_others(
    v: FrameView,
    x: int,
    y: int,
    rgb: (u8, u8, u8),
    px: int,
    py: int,
)
    requires
        v.wf(),
        px != x || py != y,
    ensures
        v.with_pixel(x, y, rgb).wf(),
        v.with_pixel(x, y, rgb).width == v.width,
        v.with_pixel(x, y, rgb).height == v.height,
        v.with_pixel(x, y, rgb).pixel_or_black(px, py) == v.pixel_or_black(px, py),
{
    if v.in_bounds(x, y) {
        lemma_pixel_in_buffer(v.width as int, v.height as int, x, y);
        if v.in_bounds(px, py) {
            lemma_pixel_in_buffer(v.width as int, v.height as int, px, py);
            lemma_distinct_pixels(v.width as int, v.height as int, x, y, px, py);
        }
    }
}

/// Writing outside the image changes nothing.
pub proof fn lemma_set_out_of_bounds(v: FrameView, x: int, y: int, rgb: (u8, u8, u8))
    requires
        !v.in_bounds(x, y),
    ensures
        v.with_pixel(x, y, rgb) == v,
{
}

/// A second write to the same pixel replaces the first.
pub proof fn lemma_set_twice(v: FrameView, x: int, y: int, first: (u8, u8, u8), second: (u8, u8, u8))
    requires
        v.wf(),
    ensures
        v.with_pixel(x, y, first).with_pixel(x, y, second) == v.with_pixel(x, y, second),
{
    if v.in_bounds(x, y) {
        lemma_pixel_in_buffer(v.width as int, v.height as int, x, y);
        assert(v.with_pixel(x, y, first).with_pixel(x, y, second).bytes =~= v.with_pixel(x, y, second).bytes);
    }
}

/// After clearing, every pixel of the image has the clear colour, and the
/// image keeps its size.
pub proof fn lemma_clear_then_get(v: FrameView, rgb: (u8, u8, u8), x: int, y: int)
    requires
        v.wf(),
        v.in_bounds(x, y),
    ensures
        v.filled(rgb).wf(),
        v.filled(rgb).width == v.width,
        v.filled(rgb).height == v.height,
        v.filled(rgb).pixel_or_black(x, y) == rgb,
{
    lemma_pixel_in_buffer(v.width as int, v.height as int, x, y);
    let o = pixel_offset(v.width as int, x, y);
    assert(o % 3 == 0 && (o + 1) % 3 == 1 && (o + 2) % 3 == 2);
}

/// Clearing twice is the same as clearing once with the second colour.
pub proof fn lemma_clear_twice(v: FrameView, first: (u8, u8, u8), second: (u8, u8, u8))
    ensures
        v.filled(first).filled(second) == v.filled(second),
{
    assert(v.filled(first).filled(second).bytes =~= v.filled(second).bytes);
}

/// A new framebuffer is well formed and black everywhere.
pub proof fn lemma_new_is_black(width: nat, height: nat, x: int, y: int)
    requires
        width * height * 3 <= usize::MAX,
    ensures
        FrameView::black(width, height).wf(),
        FrameView::black(width, height).pixel_or_black(x, y) == (0u8, 0u8, 0u8),
{
    let v = FrameView::black(width, height);
    if v.in_bounds(x, y) {
        lemma_pixel_in_buffer(width as int, height as int, x, y);
    }
}

proof fn lemma_product_grows(w: int, h: int)
    by (nonlinear_arith)
    requires
        0 <= w,
        0 <= h,
    ensures
        w * h <= w * h * 3,
{
}

proof fn lemma_distinct_pixels(w: int, h: int, x: int, y: int, px: int, py: int)
    by (nonlinear_arith)
    requires
        0 <= x < w,
        0 <= y < h,
        0 <= px < w,
        0 <= py < h,
        px != x || py != y,
    ensures
        pixel_offset(w, px, py) + 3 <= pixel_offset(w, x, y)
            || pixel_offset(w, x, y) + 3 <= pixel_offset(w, px, py),
{
    if py == y {
    } else if py < y {
        assert(py * w + px < (py + 1) * w);
        assert((py + 1) * w <= y * w);
    } else {
        assert(y * w + x < (y + 1) * w);
        assert((y + 1) * w <= py * w);
    }
}

} // verus!
