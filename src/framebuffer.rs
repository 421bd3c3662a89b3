use vstd::prelude::*;

use crate::decoder::{decoded, drain, initial_state, QoiDecoder};
use crate::header::{lemma_area_fits, parse_result, HeaderError};
use crate::pixel::{rgb565_be_bytes, rgb565_hi, rgb565_lo, Pixel};

verus! {

/// What a filled framebuffer holds.
#[derive(Clone, Copy, Debug, PartialEq, Eq, Structural)]
pub struct FrameInfo {
    /// Declared width, in pixels: the stride of the rows in the buffer.
    pub width: u32,
    /// Declared height, in pixels.
    pub height: u32,
    /// Pixels actually decoded and written; fewer than `width * height`
    /// when the stream ends early.
    pub pixels: usize,
}

/// Why a stream could not be put into the framebuffer.
#[derive(Clone, Copy, Debug, PartialEq, Eq, Structural)]
pub enum FrameError {
    /// The header was rejected.
    Header(HeaderError),
    /// The declared image has more pixels than the buffer holds.
    TooLarge,
}

/// The buffer holds the RGB565 big-endian bytes of `pixels` at its start.
pub open spec fn holds_pixels(buf: Seq<u8>, pixels: Seq<Pixel>) -> bool {
    &&& 2 * pixels.len() <= buf.len()
    &&& forall|i: int|
        0 <= i < pixels.len() ==> #[trigger] buf[2 * i] == rgb565_hi(pixels[i]) && buf[2 * i + 1]
            == rgb565_lo(pixels[i])
}

/// Decodes `data` into `buf` as row-major RGB565 big-endian pixels.
///
/// The image must fit: its declared `width * height` may not exceed
/// `buf.len() / 2`. Bytes after the decoded pixels are left as they were.
pub fn decode_qoi_image(data: &[u8], buf: &mut [u8]) -> (r: Result<FrameInfo, FrameError>)
    ensures
        final(buf)@.len() == old(buf)@.len(),
        match parse_result(data@) {
            Err(e) => r == Err::<FrameInfo, FrameError>(FrameError::Header(e)) && final(buf)@
                == old(buf)@,
            Ok(h) => if h.width * h.height > old(buf)@.len() / 2 {
                r == Err::<FrameInfo, FrameError>(FrameError::TooLarge) && final(buf)@ == old(
                    buf,
                )@
            } else {
                r matches Ok(info) && info.width == h.width && info.height == h.height
                    && info.pixels == decoded(data@).len() && holds_pixels(
                    final(buf)@,
                    decoded(data@),
                ) && final(buf)@.subrange(2 * info.pixels, final(buf)@.len() as int) == old(
                    buf,
                )@.subrange(2 * info.pixels, old(buf)@.len() as int)
            },
        },
{
    let (h, mut dec) = match QoiDecoder::start(data) {
        Ok(x) => x,
        Err(e) => return Err(FrameError::Header(e)),
    };
    proof {
        lemma_area_fits(h);
    }
    let total: u64 = (h.width as u64) * (h.height as u64);
    let capacity: usize = buf.len() / 2;
    if total > capacity as u64 {
        return Err(FrameError::TooLarge);
    }
    let ghost st0 = dec.state();
    let ghost n = total as nat;
    let ghost mut emitted: Seq<Pixel> = Seq::empty();
    let mut i: usize = 0;
    assert(drain(data@, st0, n) == emitted + drain(data@, dec.state(), n));
    loop
        invariant
            dec.wf(),
            dec.data() == data@,
            st0 == initial_state(h),
            n == h.width * h.height,
            n <= capacity,
            capacity == old(buf)@.len() / 2,
            buf@.len() == old(buf)@.len(),
            buf@.len() <= usize::MAX,
            i <= n,
            i == emitted.len(),
            dec.state().remaining == n - i,
            drain(data@, st0, n) == emitted + drain(data@, dec.state(), (n - i) as nat),
            holds_pixels(buf@, emitted),
            buf@.subrange(2 * i, buf@.len() as int) == old(buf)@.subrange(
                2 * i,
                old(buf)@.len() as int,
            ),
        ensures
            buf@.len() == old(buf)@.len(),
            i == emitted.len(),
            drain(data@, st0, n) == emitted,
            holds_pixels(buf@, emitted),
            buf@.subrange(2 * i, buf@.len() as int) == old(buf)@.subrange(
                2 * i,
                old(buf)@.len() as int,
            ),
        decreases n - i,
    {
        let ghost cur = dec.state();
        match dec.next() {
            None => {
                assert(drain(data@, cur, (n - i) as nat) =~= Seq::<Pixel>::empty());
                assert(emitted + Seq::<Pixel>::empty() =~= emitted);
                break ;
            },
            Some(p) => {
                assert(i < n);
                let bytes = rgb565_be_bytes(&p);
                let ghost before = buf@;
                buf[2 * i] = bytes[0];
                buf[2 * i + 1] = bytes[1];
                proof {
                    assert(drain(data@, cur, (n - i) as nat) == seq![p] + drain(
                        data@,
                        dec.state(),
                        (n - i - 1) as nat,
                    ));
                    assert(emitted + (seq![p] + drain(data@, dec.state(), (n - i - 1) as nat))
                        =~= emitted.push(p) + drain(data@, dec.state(), (n - i - 1) as nat));
                    let old_emitted = emitted;
                    emitted = emitted.push(p);
                    assert forall|k: int| 0 <= k < emitted.len() implies #[trigger] buf@[2 * k]
                        == rgb565_hi(emitted[k]) && buf@[2 * k + 1] == rgb565_lo(emitted[k]) by {
                        if k < i {
                            assert(before[2 * k] == rgb565_hi(old_emitted[k]));
                        }
                    }
                    assert(buf@.subrange(2 * (i + 1), buf@.len() as int) =~= before.subrange(
                        2 * i,
                        before.len() as int,
                    ).subrange(2, before.len() - 2 * i));
                }
                i = i + 1;
            },
        }
    }
    assert(decoded(data@) == emitted);
    Ok(FrameInfo { width: h.width, height: h.height, pixels: i })
}

} // verus!
