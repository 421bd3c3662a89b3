use vstd::prelude::*;

use crate::header::{lemma_area_fits, parse_header, parse_result, HeaderError, QoiHeader, HEADER_LEN};
use crate::pixel::{hash, pixel_hash, Pixel};

verus! {

/// Tag of a chunk holding red, green and blue.
pub const OP_RGB: u8 = 0xFE;

/// Tag of a chunk holding red, green, blue and alpha.
pub const OP_RGBA: u8 = 0xFF;

/// The decoder's state, as a mathematical value.
pub struct DecState {
    /// Position of the next unread byte of the stream.
    pub pos: int,
    /// The last emitted pixel.
    pub previous: Pixel,
    /// The 64-entry index cache.
    pub index: Seq<Pixel>,
    /// Copies of `previous` still owed by the current run chunk.
    pub run: int,
    /// Pixels still to be emitted before the declared size is reached.
    pub remaining: int,
}

/// A pixel with all four channels zero: the initial cache entry.
pub open spec fn zero_pixel() -> Pixel {
    Pixel { r: 0, g: 0, b: 0, a: 0 }
}

/// The state in which decoding of a stream with header `h` begins.
pub open spec fn initial_state(h: QoiHeader) -> DecState {
    DecState {
        pos: HEADER_LEN as int,
        previous: Pixel { r: 0, g: 0, b: 0, a: 255 },
        index: Seq::new(64, |i: int| zero_pixel()),
        run: 0,
        remaining: h.width as int * h.height as int,
    }
}

/// Reduction of a channel value modulo 256 (8-bit wrap-around).
pub open spec fn wrap(x: int) -> u8 {
    (x % 256) as u8
}

/// A run tag: top bits `11`, other than the two full-byte tags.
pub open spec fn is_run_tag(t: u8) -> bool {
    t >> 6u8 == 3 && t != OP_RGB && t != OP_RGBA
}

/// Length in bytes of the chunk that starts with tag `t`.
pub open spec fn chunk_len(t: u8) -> int {
    if t == OP_RGBA {
        5
    } else if t == OP_RGB {
        4
    } else if t >> 6u8 == 2 {
        2
    } else {
        1
    }
}

/// Number of pixels that the chunk with tag `t` emits.
pub open spec fn chunk_count(t: u8) -> int {
    if is_run_tag(t) {
        (t & 63u8) + 1
    } else {
        1
    }
}

/// Red delta of a difference chunk, in `-2..=1`.
pub open spec fn diff_dr(t: u8) -> int {
    ((t >> 4u8) & 3u8) - 2
}

/// Green delta of a difference chunk, in `-2..=1`.
pub open spec fn diff_dg(t: u8) -> int {
    ((t >> 2u8) & 3u8) - 2
}

/// Blue delta of a difference chunk, in `-2..=1`.
pub open spec fn diff_db(t: u8) -> int {
    (t & 3u8) - 2
}

/// Green delta of a luma chunk, in `-32..=31`.
pub open spec fn luma_dg(t: u8) -> int {
    (t & 63u8) - 32
}

/// Red-minus-green delta of a luma chunk's second byte, in `-8..=7`.
pub open spec fn luma_dr_dg(n: u8) -> int {
    (n >> 4u8) - 8
}

/// Blue-minus-green delta of a luma chunk's second byte, in `-8..=7`.
pub open spec fn luma_db_dg(n: u8) -> int {
    (n & 15u8) - 8
}

/// The pixel that the chunk starting at `st.pos` emits first.
pub open spec fn chunk_pixel(data: Seq<u8>, st: DecState) -> Pixel {
    let t = data[st.pos];
    let prev = st.previous;
    if t == OP_RGBA {
        Pixel { r: data[st.pos + 1], g: data[st.pos + 2], b: data[st.pos + 3], a: data[st.pos + 4] }
    } else if t == OP_RGB {
        Pixel { r: data[st.pos + 1], g: data[st.pos + 2], b: data[st.pos + 3], a: prev.a }
    } else if t >> 6u8 == 0 {
        st.index[t as int]
    } else if t >> 6u8 == 1 {
        Pixel {
            r: wrap(prev.r + diff_dr(t)),
            g: wrap(prev.g + diff_dg(t)),
            b: wrap(prev.b + diff_db(t)),
            a: prev.a,
        }
    } else if t >> 6u8 == 2 {
        let n = data[st.pos + 1];
        Pixel {
            r: wrap(prev.r + luma_dg(t) + luma_dr_dg(n)),
            g: wrap(prev.g + luma_dg(t)),
            b: wrap(prev.b + luma_dg(t) + luma_db_dg(n)),
            a: prev.a,
        }
    } else {
        prev
    }
}

/// State after emitting `p`: it becomes the previous pixel and enters the
/// cache at its hash slot.
pub open spec fn emit(st: DecState, p: Pixel, pos: int, run: int) -> DecState {
    DecState {
        pos,
        previous: p,
        index: st.index.update(pixel_hash(p), p),
        run,
        remaining: st.remaining - 1,
    }
}

/// One decoding step: the next pixel and the state after it, or `None`
/// when the declared size is reached or the stream ends before a whole chunk.
pub open spec fn step(data: Seq<u8>, st: DecState) -> Option<(Pixel, DecState)> {
    if st.remaining <= 0 {
        None
    } else if st.run > 0 {
        Some((st.previous, emit(st, st.previous, st.pos, st.run - 1)))
    } else if st.pos < 0 || st.pos >= data.len() || st.pos + chunk_len(data[st.pos]) > data.len() {
        None
    } else {
        let t = data[st.pos];
        let p = chunk_pixel(data, st);
        Some((p, emit(st, p, st.pos + chunk_len(t), chunk_count(t) - 1)))
    }
}

/// The pixels that at most `fuel` steps from `st` emit.
pub open spec fn drain(data: Seq<u8>, st: DecState, fuel: nat) -> Seq<Pixel>
    decreases fuel,
{
    if fuel == 0 {
        Seq::empty()
    } else {
        match step(data, st) {
            None => Seq::empty(),
            Some((p, next)) => seq![p] + drain(data, next, (fuel - 1) as nat),
        }
    }
}

/// The state after at most `fuel` steps from `st`.
pub open spec fn after(data: Seq<u8>, st: DecState, fuel: nat) -> DecState
    decreases fuel,
{
    if fuel == 0 {
        st
    } else {
        match step(data, st) {
            None => st,
            Some((_, next)) => after(data, next, (fuel - 1) as nat),
        }
    }
}

/// Every pixel that decoding `data` emits; empty when the header is invalid.
pub open spec fn decoded(data: Seq<u8>) -> Seq<Pixel> {
    match parse_result(data) {
        Ok(h) => drain(data, initial_state(h), (h.width * h.height) as nat),
        Err(_) => Seq::empty(),
    }
}

proof fn lemma_wrap_shift(x: int)
    ensures
        wrap(x + 256) == wrap(x),
{
    vstd::arithmetic::div_mod::lemma_mod_add_multiples_vanish(x, 256);
}

/// A lazy, single-pass decoder over a borrowed stream.
///
/// It emits pixels while whole chunks remain, and stops once the
/// `width * height` pixels that the header declares have been emitted, so
/// the end marker is never read as chunks. It allocates nothing.
pub struct QoiDecoder<'a> {
    data: &'a [u8],
    pos: usize,
    previous: Pixel,
    index: [Pixel; 64],
    run: u8,
    remaining: u64,
}

impl<'a> QoiDecoder<'a> {
    /// The decoder's state.
    pub closed spec fn state(&self) -> DecState {
        DecState {
            pos: self.pos as int,
            previous: self.previous,
            index: self.index@,
            run: self.run as int,
            remaining: self.remaining as int,
        }
    }

    /// The stream being decoded.
    pub closed spec fn data(&self) -> Seq<u8> {
        self.data@
    }

    /// The decoder's internal invariant.
    pub closed spec fn wf(&self) -> bool {
        self.pos <= self.data@.len() && self.run < 64
    }

    /// Parses the header and prepares to decode the chunks that follow it.
    pub fn start(data: &'a [u8]) -> (r: Result<(QoiHeader, QoiDecoder<'a>), HeaderError>)
        ensures
            match parse_result(data@) {
                Err(e) => r == Err::<(QoiHeader, QoiDecoder<'a>), HeaderError>(e),
                Ok(h) => r matches Ok((h2, d)) && h2 == h && d.wf() && d.data() == data@
                    && d.state() == initial_state(h),
            },
    {
        let h = match parse_header(data) {
            Ok(h) => h,
            Err(e) => return Err(e),
        };
        proof {
            lemma_area_fits(h);
        }
        let zero = Pixel { r: 0, g: 0, b: 0, a: 0 };
        let index = [zero; 64];
        let d = QoiDecoder {
            data,
            pos: HEADER_LEN,
            previous: Pixel { r: 0, g: 0, b: 0, a: 255 },
            index,
            run: 0,
            remaining: (h.width as u64) * (h.height as u64),
        };
        assert(d.state().index =~= initial_state(h).index);
        Ok((h, d))
    }

    fn emit_pixel(&mut self, p: Pixel)
        requires
            old(self).remaining > 0,
        ensures
            final(self).data == old(self).data,
            final(self).pos == old(self).pos,
            final(self).run == old(self).run,
            final(self).state() == emit(
                old(self).state(),
                p,
                old(self).pos as int,
                old(self).run as int,
            ),
    {
        let h = hash(&p);
        self.index[h] = p;
        self.previous = p;
        self.remaining = self.remaining - 1;
    }

    fn chunk_pixel_at(&self, pos: usize, t: u8) -> (p: Pixel)
        requires
            pos < self.data@.len(),
            t == self.data@[pos as int],
            pos == self.pos,
            pos + chunk_len(t) <= self.data@.len(),
        ensures
            p == chunk_pixel(self.data(), self.state()),
    {
        assert(t >> 6u8 == 0 ==> t < 64) by (bit_vector);
        let data_len = self.data.len();
        assert(pos + chunk_len(t) <= data_len);
        let prev = self.previous;
        if t == OP_RGBA {
            Pixel { r: self.data[pos + 1], g: self.data[pos + 2], b: self.data[pos + 3], a: self.data[pos + 4] }
        } else if t == OP_RGB {
            Pixel { r: self.data[pos + 1], g: self.data[pos + 2], b: self.data[pos + 3], a: prev.a }
        } else if t >> 6u8 == 0 {
            self.index[t as usize]
        } else if t >> 6u8 == 1 {
            proof {
                lemma_wrap_shift(prev.r + diff_dr(t));
                lemma_wrap_shift(prev.g + diff_dg(t));
                lemma_wrap_shift(prev.b + diff_db(t));
            }
            Pixel {
                r: ((prev.r as u32 + ((t >> 4u8) & 3u8) as u32 + 254) % 256) as u8,
                g: ((prev.g as u32 + ((t >> 2u8) & 3u8) as u32 + 254) % 256) as u8,
                b: ((prev.b as u32 + (t & 3u8) as u32 + 254) % 256) as u8,
                a: prev.a,
            }
        } else if t >> 6u8 == 2 {
            assert(chunk_len(t) == 2);
            let n = self.data[pos + 1];
            proof {
                lemma_wrap_shift(prev.r + luma_dg(t) + luma_dr_dg(n));
                lemma_wrap_shift(prev.g + luma_dg(t));
                lemma_wrap_shift(prev.b + luma_dg(t) + luma_db_dg(n));
            }
            Pixel {
                r: ((prev.r as u32 + (t & 63u8) as u32 + (n >> 4u8) as u32 + 216) % 256) as u8,
                g: ((prev.g as u32 + (t & 63u8) as u32 + 224) % 256) as u8,
                b: ((prev.b as u32 + (t & 63u8) as u32 + (n & 15u8) as u32 + 216) % 256) as u8,
                a: prev.a,
            }
        } else {
            prev
        }
    }

    /// Decodes the next pixel, or returns `None` once the declared number of
    /// pixels has been emitted or the stream ends before a whole chunk.
    pub fn next(&mut self) -> (r: Option<Pixel>)
        requires
            old(self).wf(),
        ensures
            final(self).wf(),
            final(self).data() == old(self).data(),
            match step(old(self).data(), old(self).state()) {
                None => r is None && final(self).state() == old(self).state(),
                Some((p, s)) => r == Some(p) && final(self).state() == s,
            },
            r matches Some(p) ==> final(self).state().previous == p
                && final(self).state().index[pixel_hash(p)] == p,
    {
        if self.remaining == 0 {
            return None;
        }
        if self.run > 0 {
            let p = self.previous;
            self.run = self.run - 1;
            self.emit_pixel(p);
            return Some(p);
        }
        let pos = self.pos;
        if pos >= self.data.len() {
            return None;
        }
        let t = self.data[pos];
        let len: usize = if t == OP_RGBA {
            5
        } else if t == OP_RGB {
            4
        } else if t >> 6u8 == 2 {
            2
        } else {
            1
        };
        if len > self.data.len() - pos {
            return None;
        }
        let p = self.chunk_pixel_at(pos, t);
        assert(t & 63u8 < 64) by (bit_vector);
        let run: u8 = if t != OP_RGB && t != OP_RGBA && t >> 6u8 == 3 {
            t & 63u8
        } else {
            0
        };
        self.pos = pos + len;
        self.run = run;
        self.emit_pixel(p);
        Some(p)
    }
}

} // verus!
