//! Tray icon pixel data.
//!
//! A StatusNotifier item sends its icon pixmaps as ARGB32 words in network
//! byte order: each pixel is four bytes, alpha first. The drawing side wants
//! the alpha byte last, so each pixel's bytes are rotated left by one.
use vstd::prelude::*;

verus! {

/// Where the byte that ends up at index `i` comes from: within its pixel of
/// four bytes, from the next byte, and the last byte from the pixel's first.
pub open spec fn rgba_source(i: int) -> int {
    if i % 4 == 3 {
        i - 3
    } else {
        i + 1
    }
}

/// `new` is `old` with the bytes of each pixel rotated: R, G, B, then A.
pub open spec fn is_rgba_of(old: Seq<u8>, new: Seq<u8>) -> bool {
    &&& new.len() == old.len()
    &&& forall|i: int| 0 <= i < new.len() ==> #[trigger] new[i] == old[rgba_source(i)]
}

/// Turns ARGB pixel bytes into RGBA in place. The data must hold whole
/// pixels: a trailing partial pixel has no byte to rotate in.
pub fn argb_to_rgba(pixels: &mut Vec<u8>)
    requires
        old(pixels)@.len() % 4 == 0,
    ensures
        is_rgba_of(old(pixels)@, final(pixels)@),
{
    let ghost orig = pixels@;
    let len = pixels.len();
    let mut i: usize = 0;
    while i < len
        invariant
            len == pixels@.len(),
            orig.len() == len,
            len % 4 == 0,
            i % 4 == 0,
            i <= len,
            forall|j: int| 0 <= j < i ==> #[trigger] pixels@[j] == orig[rgba_source(j)],
            forall|j: int| i <= j < len ==> #[trigger] pixels@[j] == orig[j],
        decreases len - i,
    {
        let alpha = pixels[i];
        let r = pixels[i + 1];
        let g = pixels[i + 2];
        let b = pixels[i + 3];
        pixels.set(i, r);
        pixels.set(i + 1, g);
        pixels.set(i + 2, b);
        pixels.set(i + 3, alpha);
        proof {
            assert forall|j: int| i <= j < i + 4 implies #[trigger] pixels@[j] == orig[rgba_source(j)] by {
                assert(j % 4 == j - i);
            }
        }
        i = i + 4;
    }
}

} // verus!
