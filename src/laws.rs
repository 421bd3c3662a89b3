use vstd::prelude::*;

use crate::decoder::{
    after, chunk_count, chunk_len, decoded, diff_db, diff_dg, diff_dr, drain, initial_state,
    is_run_tag, luma_db_dg, luma_dg, luma_dr_dg, step, DecState, OP_RGB, OP_RGBA,
};
use crate::header::{parse_result, HEADER_LEN};
use crate::pixel::{pixel_hash, Pixel};

verus! {

/// The chunks from `pos` on are whole and together emit at least `n` pixels.
pub open spec fn chunks_cover(data: Seq<u8>, pos: int, n: int) -> bool
    decreases n,
{
    if n <= 0 {
        true
    } else if pos < 0 || pos >= data.len() {
        false
    } else {
        let t = data[pos];
        let c = chunk_count(t);
        pos + chunk_len(t) <= data.len() && (c >= n || chunks_cover(data, pos + chunk_len(t), n - c))
    }
}

/// A stream whose header is valid and whose chunks emit the pixels it declares.
pub open spec fn well_formed(data: Seq<u8>) -> bool {
    match parse_result(data) {
        Ok(h) => chunks_cover(data, HEADER_LEN as int, h.width * h.height),
        Err(_) => false,
    }
}

/// What every reachable state satisfies.
pub open spec fn valid_state(st: DecState) -> bool {
    st.index.len() == 64 && 0 <= st.run < 64
}

proof fn lemma_step_valid(data: Seq<u8>, st: DecState)
    requires
        valid_state(st),
    ensures
        step(data, st) matches Some((p, next)) ==> valid_state(next) && next.remaining
            == st.remaining - 1,
{
    if st.run == 0 && 0 <= st.pos < data.len() {
        let t = data[st.pos];
        assert(t & 63u8 < 64) by (bit_vector);
    }
}

proof fn lemma_drain_full(data: Seq<u8>, st: DecState, fuel: nat)
    requires
        valid_state(st),
        st.remaining == fuel,
        chunks_cover(data, st.pos, st.remaining - st.run),
    ensures
        drain(data, st, fuel).len() == fuel,
    decreases fuel,
{
    if fuel > 0 {
        lemma_step_valid(data, st);
        let (p, next) = step(data, st)->Some_0;
        if st.run == 0 {
            let t = data[st.pos];
            assert(next.run == chunk_count(t) - 1);
        }
        lemma_drain_full(data, next, (fuel - 1) as nat);
    }
}

proof fn lemma_drain_bound(data: Seq<u8>, st: DecState, fuel: nat)
    requires
        valid_state(st),
    ensures
        drain(data, st, fuel).len() <= fuel,
        drain(data, st, fuel).len() <= if st.remaining < 0 { 0 } else { st.remaining },
    decreases fuel,
{
    if fuel > 0 {
        lemma_step_valid(data, st);
        if let Some((p, next)) = step(data, st) {
            lemma_drain_bound(data, next, (fuel - 1) as nat);
        }
    }
}

/// Pixel count: a well-formed stream declaring `width` by `height` decodes
/// to exactly `width * height` pixels, and no stream decodes to more.
pub proof fn lemma_pixel_count(data: Seq<u8>)
    ensures
        parse_result(data) matches Ok(h) ==> decoded(data).len() <= h.width * h.height,
        well_formed(data) ==> decoded(data).len() == parse_result(data)->Ok_0.width
            * parse_result(data)->Ok_0.height,
{
    if let Ok(h) = parse_result(data) {
        let st = initial_state(h);
        let n = (h.width * h.height) as nat;
        assert(h.width * h.height >= 0) by (nonlinear_arith)
            requires
                h.width >= 0,
                h.height >= 0,
        ;
        assert(valid_state(st));
        lemma_drain_bound(data, st, n);
        if well_formed(data) {
            lemma_drain_full(data, st, n);
        }
    }
}

/// Cache and previous pixel: after a step emits `p`, `p` is the previous
/// pixel and sits in the cache slot of its hash.
pub proof fn lemma_emit_updates_state(data: Seq<u8>, st: DecState)
    requires
        valid_state(st),
    ensures
        step(data, st) matches Some((p, next)) ==> next.previous == p && next.index[pixel_hash(
            p,
        )] == p,
{
}

proof fn lemma_run_tail(data: Seq<u8>, st: DecState, j: nat)
    requires
        valid_state(st),
        st.run == j,
        st.remaining >= j,
        st.index[pixel_hash(st.previous)] == st.previous,
    ensures
        drain(data, st, j) == Seq::new(j, |i: int| st.previous),
        after(data, st, j).run == 0,
        after(data, st, j).pos == st.pos,
        after(data, st, j).previous == st.previous,
    decreases j,
{
    if j > 0 {
        let (p, next) = step(data, st)->Some_0;
        assert(next.index =~= st.index);
        lemma_run_tail(data, next, (j - 1) as nat);
        assert(drain(data, st, j) =~= Seq::new(j, |i: int| st.previous));
    } else {
        assert(drain(data, st, j) =~= Seq::new(j, |i: int| st.previous));
    }
}

/// Run expansion: a run chunk with low six bits `k` emits exactly `k + 1`
/// copies of the previous pixel, after which the next chunk is read.
pub proof fn lemma_run_expansion(data: Seq<u8>, st: DecState)
    requires
        valid_state(st),
        st.run == 0,
        0 <= st.pos < data.len(),
        is_run_tag(data[st.pos]),
        st.remaining >= (data[st.pos] & 63u8) + 1,
    ensures
        drain(data, st, ((data[st.pos] & 63u8) + 1) as nat) == Seq::new(
            ((data[st.pos] & 63u8) + 1) as nat,
            |i: int| st.previous,
        ),
        after(data, st, ((data[st.pos] & 63u8) + 1) as nat).run == 0,
        after(data, st, ((data[st.pos] & 63u8) + 1) as nat).pos == st.pos + 1,
{
    let t = data[st.pos];
    let k = (t & 63u8) as nat;
    assert(t & 63u8 < 64) by (bit_vector);
    let (p, next) = step(data, st)->Some_0;
    assert(p == st.previous);
    lemma_run_tail(data, next, k);
    assert(drain(data, st, k + 1) =~= Seq::new(k + 1, |i: int| st.previous));
}

/// Delta wrap: a difference chunk adds deltas in `-2..=1` and a luma chunk
/// adds its green delta and the two green-relative deltas, each channel
/// wrapping around modulo 256.
pub proof fn lemma_delta_wrap(data: Seq<u8>, st: DecState)
    requires
        valid_state(st),
        st.run == 0,
        st.remaining > 0,
        0 <= st.pos < data.len(),
    ensures
        data[st.pos] >> 6u8 == 1 ==> ({
            let t = data[st.pos];
            let prev = st.previous;
            &&& -2 <= diff_dr(t) <= 1 && -2 <= diff_dg(t) <= 1 && -2 <= diff_db(t) <= 1
            &&& step(data, st) matches Some((p, _)) && p == (Pixel {
                r: ((prev.r + diff_dr(t)) % 256) as u8,
                g: ((prev.g + diff_dg(t)) % 256) as u8,
                b: ((prev.b + diff_db(t)) % 256) as u8,
                a: prev.a,
            })
        }),
        data[st.pos] >> 6u8 == 2 && st.pos + 2 <= data.len() ==> ({
            let t = data[st.pos];
            let n = data[st.pos + 1];
            let prev = st.previous;
            &&& -32 <= luma_dg(t) <= 31 && -8 <= luma_dr_dg(n) <= 7 && -8 <= luma_db_dg(n) <= 7
            &&& step(data, st) matches Some((p, _)) && p == (Pixel {
                r: ((prev.r + luma_dg(t) + luma_dr_dg(n)) % 256) as u8,
                g: ((prev.g + luma_dg(t)) % 256) as u8,
                b: ((prev.b + luma_dg(t) + luma_db_dg(n)) % 256) as u8,
                a: prev.a,
            })
        }),
{
    let t = data[st.pos];
    let n = data[st.pos + 1];
    assert((t >> 4u8) & 3u8 <= 3 && (t >> 2u8) & 3u8 <= 3 && t & 3u8 <= 3 && t & 63u8 <= 63)
        by (bit_vector);
    assert(n >> 4u8 <= 15 && n & 15u8 <= 15) by (bit_vector);
    assert(t >> 6u8 == 1 ==> t != OP_RGB && t != OP_RGBA) by (bit_vector);
    assert(t >> 6u8 == 2 ==> t != OP_RGB && t != OP_RGBA) by (bit_vector);
}

} // verus!
