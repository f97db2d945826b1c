//! Reproducible random streams. A generator is held as its plain state (the
//! pair that oorandom's `Rand32` saves and restores), so every draw is a
//! function of the state it starts from, whatever else runs meanwhile.
use vstd::prelude::*;

verus! {

/// The state of a generator built from `seed`.
pub uninterp spec fn pcg_seeded(seed: u64) -> (u64, u64);

/// The value drawn from `[start, end)` by a generator in `state`, and the
/// state it is left in.
pub uninterp spec fn pcg_range(state: (u64, u64), start: u32, end: u32) -> (u32, (u64, u64));

/// Relies on `oorandom::Rand32::new` and `Rand32::state`: the generator built
/// from a seed depends on the seed alone, and its increment is odd
/// (`new_inc` sets it to `increment.wrapping_shl(1) | 1`).
#[verifier::external_body]
fn seeded_state(seed: u64) -> (r: (u64, u64))
    ensures
        r == pcg_seeded(seed),
        r.1 % 2 == 1,
{
    oorandom::Rand32::new(seed).state()
}

/// Relies on `oorandom::Rand32::rand_range` (with `from_state` and `state` to
/// restore and save the generator): for `start < end` and an odd increment
/// (with which the generator runs through every state, so the rejection loop
/// ends) it returns a value in `[start, end)`; the value and the next state
/// depend on the state and the bounds alone, and drawing never changes the
/// increment.
#[verifier::external_body]
pub(crate) fn draw_in_range(state: (u64, u64), start: u32, end: u32) -> (r: (u32, (u64, u64)))
    requires
        start < end,
        state.1 % 2 == 1,
    ensures
        r == pcg_range(state, start, end),
        start <= r.0 < end,
        r.1.1 == state.1,
{
    let mut g = oorandom::Rand32::from_state(state);
    let v = g.rand_range(start..end);
    (v, g.state())
}

/// The seed of the stream of cell `index` at tick `tick`, for a universe
/// built with `seed`: distinct cells and ticks get distinct seeds.
pub open spec fn stream_seed(seed: u64, index: u32, tick: u32) -> u64 {
    seed ^ (((index as u64) << 32u64) | (tick as u64))
}

/// The state of the stream of cell `index` at tick `tick`.
pub open spec fn spec_stream(seed: u64, index: u32, tick: u32) -> (u64, u64) {
    pcg_seeded(stream_seed(seed, index, tick))
}

/// The generator state that `seed` gives.
pub fn seeded(seed: u64) -> (r: (u64, u64))
    ensures
        r == pcg_seeded(seed),
        r.1 % 2 == 1,
{
    seeded_state(seed)
}

/// The stream of cell `index` at tick `tick`: it depends on these three
/// numbers only, never on the order in which cells are processed.
pub fn cell_stream(seed: u64, index: u32, tick: u32) -> (r: (u64, u64))
    ensures
        r == spec_stream(seed, index, tick),
        r.1 % 2 == 1,
{
    let key: u64 = seed ^ (((index as u64) << 32u64) | (tick as u64));
    seeded_state(key)
}

/// `n` draws from `[0, end)`, one after the other, from `state`, and the
/// state after the last one.
pub open spec fn draws(state: (u64, u64), n: nat, end: u32) -> (Seq<u32>, (u64, u64))
    decreases n,
{
    if n == 0 {
        (Seq::empty(), state)
    } else {
        let (prev, st) = draws(state, (n - 1) as nat, end);
        let (v, next) = pcg_range(st, 0, end);
        (prev.push(v), next)
    }
}

/// `n` draws make a sequence of `n` values.
pub proof fn lemma_draws_len(state: (u64, u64), n: nat, end: u32)
    ensures
        draws(state, n, end).0.len() == n,
    decreases n,
{
    if n > 0 {
        lemma_draws_len(state, (n - 1) as nat, end);
    }
}

/// Draws `n` values from `[0, end)` in turn, starting from `state`, whose
/// increment must be odd, as that of every generator built from a seed is.
pub fn draw_many(state: (u64, u64), n: u32, end: u32) -> (r: (Vec<u32>, (u64, u64)))
    requires
        0 < end,
        state.1 % 2 == 1,
    ensures
        r.0@ == draws(state, n as nat, end).0,
        r.1.1 == state.1,
        r.1 == draws(state, n as nat, end).1,
        r.0.len() == n,
        forall|i: int| 0 <= i < n ==> #[trigger] r.0@[i] < end,
{
    let mut out: Vec<u32> = Vec::new();
    let mut st = state;
    let mut i: u32 = 0;
    while i < n
        invariant
            0 < end,
            st.1 == state.1,
            state.1 % 2 == 1,
            i <= n,
            out.len() == i,
            out@ == draws(state, i as nat, end).0,
            st == draws(state, i as nat, end).1,
            forall|j: int| 0 <= j < i ==> #[trigger] out@[j] < end,
        decreases n - i,
    {
        let (v, next) = draw_in_range(st, 0, end);
        out.push(v);
        st = next;
        i = i + 1;
    }
    (out, st)
}

} // verus!
