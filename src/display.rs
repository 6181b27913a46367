//! Turning the one-bit display into the pixel formats hosts draw with.
use vstd::prelude::*;

use crate::machine::DISPLAY_SIZE;

verus! {

/// A pixel as 0RGB: black when off, white when on.
pub open spec fn rgb_of(px: u8) -> u32 {
    if px == 0 { 0 } else { 0xFFFFFF }
}

/// One channel of a pixel as RGBA: 0 when off, 255 when on; alpha always 255.
pub open spec fn rgba_byte_of(px: u8, channel: int) -> u8 {
    if channel == 3 { 255 } else if px == 0 { 0 } else { 255 }
}

/// Writes each pixel of `src` as 0RGB into the front of `dest`.
pub fn convert_display_buffer(src: &[u8; 2048], dest: &mut [u32])
    requires
        old(dest)@.len() >= DISPLAY_SIZE,
        forall|p: int| 0 <= p < DISPLAY_SIZE ==> #[trigger] src@[p] <= 1,
    ensures
        final(dest)@.len() == old(dest)@.len(),
        forall|p: int| 0 <= p < DISPLAY_SIZE ==> #[trigger] final(dest)@[p] == rgb_of(src@[p]),
        forall|p: int| DISPLAY_SIZE <= p < old(dest)@.len() ==> #[trigger] final(dest)@[p] == old(dest)@[p],
{
    let mut p: usize = 0;
    while p < DISPLAY_SIZE
        invariant
            p <= DISPLAY_SIZE,
            old(dest)@.len() >= DISPLAY_SIZE,
            dest@.len() == old(dest)@.len(),
            forall|q: int| 0 <= q < p ==> #[trigger] dest@[q] == rgb_of(src@[q]),
            forall|q: int| p <= q < old(dest)@.len() ==> #[trigger] dest@[q] == old(dest)@[q],
        decreases DISPLAY_SIZE - p,
    {
        dest[p] = if src[p] == 0 { 0 } else { 0xFFFFFF };
        p = p + 1;
    }
}

/// Writes each pixel of `src` as four RGBA bytes into `frame`, as many pixels as
/// `frame` holds whole.
pub fn draw_chip8(src: &[u8; 2048], frame: &mut [u8])
    requires
        old(frame)@.len() <= 4 * DISPLAY_SIZE,
    ensures
        final(frame)@.len() == old(frame)@.len(),
        forall|b: int|
            0 <= b < old(frame)@.len() / 4 * 4 ==> #[trigger] final(frame)@[b] == rgba_byte_of(
                src@[b / 4],
                b % 4,
            ),
        forall|b: int|
            old(frame)@.len() / 4 * 4 <= b < old(frame)@.len() ==> #[trigger] final(frame)@[b]
                == old(frame)@[b],
{
    let pixels: usize = frame.len() / 4;
    let mut p: usize = 0;
    while p < pixels
        invariant
            pixels == old(frame)@.len() / 4,
            pixels <= DISPLAY_SIZE,
            p <= pixels,
            frame@.len() == old(frame)@.len(),
            forall|b: int| 0 <= b < 4 * p ==> #[trigger] frame@[b] == rgba_byte_of(src@[b / 4], b % 4),
            forall|b: int| 4 * p <= b < old(frame)@.len() ==> #[trigger] frame@[b] == old(frame)@[b],
        decreases pixels - p,
    {
        let color: u8 = if src[p] == 0 { 0 } else { 255 };
        frame[4 * p] = color;
        frame[4 * p + 1] = color;
        frame[4 * p + 2] = color;
        frame[4 * p + 3] = 255;
        assert forall|b: int| 4 * p <= b < 4 * p + 4 implies (#[trigger] (b / 4) == p && b % 4 == b - 4 * p) by {
            vstd::arithmetic::div_mod::lemma_fundamental_div_mod_converse(b, 4, p as int, b - 4 * p);
        }
        p = p + 1;
    }
}

} // verus!
