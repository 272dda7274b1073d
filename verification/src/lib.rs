//! A small software rasterizer: an RGB framebuffer, a depth buffer and a
//! triangle scan converter, with their contracts proved by Verus.
use vstd::prelude::*;

pub mod decimal;
pub mod fill;
pub mod framebuffer;
pub mod palette;
pub mod rasterizer;
pub mod zbuffer;

pub use framebuffer::Framebuffer;
pub use rasterizer::{edge_function, Fragment, TriangleScan};
pub use zbuffer::ZBuffer;

verus! {

/// A frame of `width * height` RGBA pixels, every byte of it zero.
///
/// Fails when `width * height * 4` overflows `u32`.
pub fn solid_frame(width: u32, height: u32) -> (res: Result<Vec<u8>, String>)
    ensures
        res is Ok <==> width * height * 4 <= u32::MAX,
        res matches Ok(buffer) ==> {
            &&& buffer@.len() == width * height * 4
            &&& forall|i: int| 0 <= i < buffer@.len() ==> #[trigger] buffer@[i] == 0
        },
        res matches Err(msg) ==> msg@ == "buffer size overflowed"@,
{
    let size = match width.checked_mul(height) {
        Some(n) => n.checked_mul(4),
        None => None,
    };
    let size = match size {
        Some(s) => s,
        None => {
            proof {
                if width * height <= u32::MAX {
                    assert(width * height * 4 > u32::MAX);
                } else {
                    lemma_times_four_grows(width as int * height as int);
                }
            }
            return Err("buffer size overflowed".to_owned());
        },
    };
    Ok(vec![0u8; size as usize])
}

proof fn lemma_times_four_grows(n: int)
    requires
        0 <= n,
    ensures
        n <= n * 4,
{
}

} // verus!
