//! Deterministic pseudo-random numbers (SplitMix64): the same seed always
//! gives the same sequence, on every machine.

use vstd::prelude::*;

verus! {

/// Increment added to the state at every step.
pub const GOLDEN_GAMMA: u64 = 0x9E37_79B9_7F4A_7C15;

/// First mixing multiplier.
pub const MIX_MULTIPLIER_A: u64 = 0xBF58_476D_1CE4_E5B9;

/// Second mixing multiplier.
pub const MIX_MULTIPLIER_B: u64 = 0x94D0_49BB_1331_11EB;

/// The state after one step.
pub open spec fn spec_step(state: u64) -> u64 {
    vstd::wrapping::u64_specs::wrapping_add(state, GOLDEN_GAMMA)
}

/// The number produced from the stepped state `z`.
pub open spec fn spec_mix(z: u64) -> u64 {
    let a = vstd::wrapping::u64_specs::wrapping_mul(z ^ (z >> 30u64), MIX_MULTIPLIER_A);
    let b = vstd::wrapping::u64_specs::wrapping_mul(a ^ (a >> 27u64), MIX_MULTIPLIER_B);
    b ^ (b >> 31u64)
}

/// `s` with the entries at `i` and `j` exchanged.
pub open spec fn swapped<T>(s: Seq<T>, i: int, j: int) -> Seq<T> {
    s.update(i, s[j]).update(j, s[i])
}

/// Fisher-Yates from index `i` down to index 1: entry `i` is exchanged
/// with a uniformly drawn entry at or below it. Returns the sequence and
/// the generator state afterwards.
pub open spec fn spec_shuffle_down<T>(s: Seq<T>, state: u64, i: int) -> (Seq<T>, u64)
    decreases i,
{
    if i <= 0 {
        (s, state)
    } else {
        let next = spec_step(state);
        let j = (spec_mix(next) % ((i + 1) as u64)) as int;
        spec_shuffle_down(swapped(s, i, j), next, i - 1)
    }
}

/// The result of shuffling all of `s` starting from generator state
/// `state`, with the state afterwards.
pub open spec fn spec_shuffled<T>(s: Seq<T>, state: u64) -> (Seq<T>, u64) {
    spec_shuffle_down(s, state, s.len() - 1)
}

/// Exchanging two entries keeps the multiset of entries.
pub proof fn lemma_swapped_permutes<T>(s: Seq<T>, i: int, j: int)
    requires
        0 <= i < s.len(),
        0 <= j < s.len(),
    ensures
        swapped(s, i, j).to_multiset() == s.to_multiset(),
        swapped(s, i, j).len() == s.len(),
{
    broadcast use vstd::multiset::group_multiset_axioms;
    broadcast use vstd::seq_lib::group_to_multiset_ensures;
    let a = s[i];
    let b = s[j];
    vstd::seq_lib::to_multiset_update(s, i, b);
    vstd::seq_lib::to_multiset_update(s.update(i, b), j, a);
    if i != j {
        assert(s.contains(a));
        assert(s.contains(b));
        assert(s.to_multiset().insert(b).remove(a).insert(a).remove(b) =~= s.to_multiset());
    } else {
        assert(swapped(s, i, j) =~= s);
    }
}

/// Shuffling only rearranges: the multiset of entries is kept.
pub proof fn lemma_shuffled_permutes<T>(s: Seq<T>, state: u64)
    requires
        s.len() <= u64::MAX,
    ensures
        spec_shuffled(s, state).0.to_multiset() == s.to_multiset(),
        spec_shuffled(s, state).0.len() == s.len(),
{
    lemma_shuffle_down_permutes(s, state, s.len() - 1);
}

proof fn lemma_shuffle_down_permutes<T>(s: Seq<T>, state: u64, i: int)
    requires
        i < s.len(),
        s.len() <= u64::MAX,
    ensures
        spec_shuffle_down(s, state, i).0.to_multiset() == s.to_multiset(),
        spec_shuffle_down(s, state, i).0.len() == s.len(),
    decreases i,
{
    if i > 0 {
        let next = spec_step(state);
        let j = (spec_mix(next) % ((i + 1) as u64)) as int;
        assert(0 <= j <= i);
        lemma_swapped_permutes(s, i, j);
        lemma_shuffle_down_permutes(swapped(s, i, j), next, i - 1);
    }
}

/// A SplitMix64 generator.
pub struct Rng {
    state: u64,
}

impl View for Rng {
    type V = u64;

    closed spec fn view(&self) -> u64 {
        self.state
    }
}

impl Rng {
    /// A generator whose sequence is determined by `seed` alone.
    pub fn new(seed: u64) -> (rng: Self)
        ensures
            rng@ == seed,
    {
        Rng { state: seed }
    }

    /// The next 64-bit number.
    pub fn next_u64(&mut self) -> (x: u64)
        ensures
            final(self)@ == spec_step(old(self)@),
            x == spec_mix(spec_step(old(self)@)),
    {
        self.state = self.state.wrapping_add(GOLDEN_GAMMA);
        let z = self.state;
        let a = (z ^ (z >> 30u64)).wrapping_mul(MIX_MULTIPLIER_A);
        let b = (a ^ (a >> 27u64)).wrapping_mul(MIX_MULTIPLIER_B);
        b ^ (b >> 31u64)
    }

    /// A number in `0..bound`: the next 64-bit number reduced modulo
    /// `bound`.
    pub fn gen_range(&mut self, bound: usize) -> (x: usize)
        requires
            bound > 0,
        ensures
            final(self)@ == spec_step(old(self)@),
            x == spec_mix(spec_step(old(self)@)) % (bound as u64),
            x < bound,
    {
        let raw = self.next_u64();
        (raw % (bound as u64)) as usize
    }

    /// Shuffles `items` in place (Fisher-Yates from the back). The result
    /// is a permutation of the input, determined by the input and the
    /// generator state alone.
    pub fn shuffle<T: Copy>(&mut self, items: &mut Vec<T>)
        ensures
            (final(items)@, final(self)@) == spec_shuffled(old(items)@, old(self)@),
            final(items)@.to_multiset() == old(items)@.to_multiset(),
            final(items)@.len() == old(items)@.len(),
    {
        let len = items.len();
        if len <= 1 {
            return;
        }
        let ghost initial = items@;
        let ghost initial_state = self@;
        let mut i: usize = len - 1;
        while i > 0
            invariant
                items@.len() == len,
                i < len,
                spec_shuffle_down(items@, self@, i as int) == spec_shuffled(initial, initial_state),
                items@.to_multiset() == initial.to_multiset(),
            decreases i,
        {
            let j = self.gen_range(i + 1);
            let ghost before = items@;
            let a = items[i];
            let b = items[j];
            items.set(i, b);
            items.set(j, a);
            proof {
                assert(items@ == swapped(before, i as int, j as int));
                vstd::seq_lib::to_multiset_update(before, i as int, b);
                vstd::seq_lib::to_multiset_update(before.update(i as int, b), j as int, a);
                assert(items@.to_multiset() =~= initial.to_multiset()) by {
                    let m = before.to_multiset();
                    if i == j {
                        assert(items@ == before);
                    } else {
                        assert(before[j as int] == b);
                        assert(before[i as int] == a);
                        broadcast use vstd::multiset::group_multiset_axioms;
                        broadcast use vstd::seq_lib::group_to_multiset_ensures;
                        assert(before.contains(a));
                        assert(before.contains(b));
                        assert(m.count(a) > 0);
                        assert(m.count(b) > 0);
                        assert(m.insert(b).remove(a).insert(a).remove(b) =~= m);
                    }
                }
            }
            i -= 1;
        }
    }
}

} // verus!
