//! Subsampling: a small deterministic PRNG, a uniform pick of distinct ray
//! indices (Floyd's algorithm) and reservoir sampling over a stream
//! (Algorithm R). Deterministic for a given seed.

use std::collections::HashSet;
use vstd::prelude::*;
use vstd::std_specs::hash::{builds_valid_hashers, obeys_key_model};

use crate::ray::{decode_spec, Ray, RayView};

verus! {

/// Fixed point of SplitMix64 replaced by a non-zero state (xorshift has no
/// zero state).
pub const NONZERO_STATE: u64 = 0x2545_F491_4F6C_DD1D;

/// The multiplier of xorshift64*.
pub const OUTPUT_MULTIPLIER: u64 = 0x2545_F491_4F6C_DD1D;

/// The state SplitMix64 derives from a seed, spreading poor seeds (0, 1,
/// ...) over the state space.
pub open spec fn seed_state(seed: u64) -> u64 {
    let z0 = seed.wrapping_add(0x9E37_79B9_7F4A_7C15);
    let z1 = (z0 ^ (z0 >> 30u64)).wrapping_mul(0xBF58_476D_1CE4_E5B9);
    let z2 = (z1 ^ (z1 >> 27u64)).wrapping_mul(0x94D0_49BB_1331_11EB);
    let z3 = z2 ^ (z2 >> 31u64);
    if z3 == 0 {
        NONZERO_STATE
    } else {
        z3
    }
}

/// One xorshift64 step of the state.
pub open spec fn next_state(x: u64) -> u64 {
    let a = x ^ (x >> 12u64);
    let b = a ^ (a << 25u64);
    b ^ (b >> 27u64)
}

/// The number drawn from a state (xorshift64*).
pub open spec fn output(x: u64) -> u64 {
    x.wrapping_mul(OUTPUT_MULTIPLIER)
}

/// Draws below this bound are accepted for a range of size `n`: it is a
/// multiple of `n`, so `v % n` is unbiased on it.
pub open spec fn zone(n: u64) -> u64 {
    (u64::MAX - u64::MAX % n) as u64
}

/// Rejection sampling from state `s` with at most `budget` draws: the new
/// state and the first accepted draw reduced modulo `n` (the last draw when
/// the budget runs out).
pub open spec fn below_from(s: u64, n: u64, budget: nat) -> (u64, u64)
    decreases budget,
{
    let s1 = next_state(s);
    let v = output(s1);
    if v < zone(n) || budget <= 1 {
        (s1, v % n)
    } else {
        below_from(s1, n, (budget - 1) as nat)
    }
}

/// A uniform draw in `0..n` from state `s`: the new state and the number.
/// The search gives up after `u64::MAX` rejected draws, which xorshift64*
/// (whose outputs run through every non-zero value) never reaches.
#[verifier::opaque]
pub open spec fn below_spec(s: u64, n: u64) -> (u64, u64) {
    below_from(s, n, u64::MAX as nat)
}

/// A draw in `0..n` is below `n`, and the draws accepted before reduction
/// are a whole number of runs of `n` (`zone(n)` is a multiple of `n`), so
/// every residue is equally likely: there is no modulo bias. Fewer than
/// `n` of the 2^64 raw outputs are rejected.
pub proof fn lemma_below_range(s: u64, n: u64)
    requires
        n > 0,
    ensures
        below_spec(s, n).1 < n,
        zone(n) % n == 0,
        u64::MAX - n < zone(n),
{
    reveal(below_spec);
    lemma_below_from_range(s, n, u64::MAX as nat);
    let m = u64::MAX as int;
    vstd::arithmetic::div_mod::lemma_fundamental_div_mod(m, n as int);
    vstd::arithmetic::div_mod::lemma_mod_multiples_basic(m / (n as int), n as int);
    assert(zone(n) == n * (m / (n as int))) by (nonlinear_arith)
        requires
            m == n * (m / (n as int)) + m % (n as int),
            zone(n) == m - m % (n as int),
    ;
    assert(zone(n) % n == 0) by {
        vstd::arithmetic::div_mod::lemma_mod_multiples_basic(m / (n as int), n as int);
        assert((m / (n as int)) * (n as int) == n * (m / (n as int))) by (nonlinear_arith);
    }
}

/// Rejection sampling: a first draw inside the accepted zone is the
/// result, reduced modulo `n`, and the generator has moved one step; a
/// first draw outside it is dropped and the search goes on from the next
/// state with one draw fewer to spend.
pub proof fn lemma_below_rejects(s: u64, n: u64)
    requires
        n > 0,
    ensures
        output(next_state(s)) < zone(n) ==> below_spec(s, n) == (
            next_state(s),
            output(next_state(s)) % n,
        ),
        output(next_state(s)) >= zone(n) ==> below_spec(s, n) == below_from(
            next_state(s),
            n,
            (u64::MAX - 1) as nat,
        ),
{
    reveal(below_spec);
}

proof fn lemma_below_from_range(s: u64, n: u64, budget: nat)
    requires
        n > 0,
    ensures
        below_from(s, n, budget).1 < n,
    decreases budget,
{
    if budget > 1 {
        lemma_below_from_range(next_state(s), n, (budget - 1) as nat);
    }
}

/// Small deterministic PRNG (xorshift64*, seeded through SplitMix64).
#[derive(Clone, Debug)]
pub struct Rng64(u64);

impl Rng64 {
    /// The generator's state.
    pub closed spec fn state(&self) -> u64 {
        self.0
    }

    pub fn new(seed: u64) -> (r: Self)
        ensures
            r.state() == seed_state(seed),
    {
        let mut z = seed.wrapping_add(0x9E37_79B9_7F4A_7C15);
        z = (z ^ (z >> 30)).wrapping_mul(0xBF58_476D_1CE4_E5B9);
        z = (z ^ (z >> 27)).wrapping_mul(0x94D0_49BB_1331_11EB);
        z = z ^ (z >> 31);
        Rng64(
            if z == 0 {
                NONZERO_STATE
            } else {
                z
            },
        )
    }

    pub fn next_u64(&mut self) -> (r: u64)
        ensures
            final(self).state() == next_state(old(self).state()),
            r == output(final(self).state()),
    {
        let mut x = self.0;
        x = x ^ (x >> 12);
        x = x ^ (x << 25);
        x = x ^ (x >> 27);
        self.0 = x;
        x.wrapping_mul(OUTPUT_MULTIPLIER)
    }

    /// Uniform in `0..n` (n > 0), by rejection to avoid modulo bias.
    pub fn below(&mut self, n: u64) -> (r: u64)
        requires
            n > 0,
        ensures
            (final(self).state(), r) == below_spec(old(self).state(), n),
            r < n,
    {
        let accept = u64::MAX - (u64::MAX % n);
        let ghost start = self.0;
        let mut budget: u64 = u64::MAX;
        proof {
            reveal(below_spec);
        }
        loop
            invariant
                n > 0,
                accept == zone(n),
                1 <= budget,
                start == old(self).0,
                below_from(self.0, n, budget as nat) == below_spec(start, n),
            decreases budget,
        {
            let ghost before = self.0;
            let v = self.next_u64();
            assert(below_from(before, n, budget as nat) == (if v < zone(n) || budget <= 1 {
                (self.0, v % n)
            } else {
                below_from(self.0, n, (budget - 1) as nat)
            }));
            if v < accept || budget == 1 {
                return v % n;
            }
            budget = budget - 1;
        }
    }
}

// ---------------------------------------------------------------------
// Picking indices.

/// Floyd's algorithm over `j .. end` from state `state` with the indices
/// `chosen` so far: at each `j`, draw `t` in `0..=j` and keep `t` if it is
/// new, `j` otherwise.
#[verifier::opaque]
pub open spec fn floyd_from(state: u64, j: nat, end: nat, chosen: Set<usize>) -> (Set<usize>, u64)
    decreases end - j,
{
    if j >= end {
        (chosen, state)
    } else {
        let (s1, t) = below_spec(state, (j + 1) as u64);
        let c1 = if chosen.contains(t as usize) {
            chosen.insert(j as usize)
        } else {
            chosen.insert(t as usize)
        };
        floyd_from(s1, j + 1, end, c1)
    }
}

/// One step of Floyd's algorithm.
proof fn lemma_floyd_step(s0: u64, s1: u64, t: u64, j: nat, end: nat, before: Set<usize>)
    requires
        j < end,
        (s1, t) == below_spec(s0, (j + 1) as u64),
    ensures
        floyd_from(s0, j, end, before) == floyd_from(
            s1,
            j + 1,
            end,
            if before.contains(t as usize) {
                before.insert(j as usize)
            } else {
                before.insert(t as usize)
            },
        ),
{
    reveal(floyd_from);
}

/// Floyd's algorithm has nothing left to do past the end.
proof fn lemma_floyd_end(state: u64, j: nat, end: nat, chosen: Set<usize>)
    requires
        j >= end,
    ensures
        floyd_from(state, j, end, chosen) == (chosen, state),
{
    reveal(floyd_from);
}

/// The `n` indices out of `0..len` (`n < len`) picked for a seed.
pub open spec fn floyd_pick(len: nat, n: nat, seed: u64) -> Set<usize> {
    floyd_from(seed_state(seed), (len - n) as nat, len, Set::empty()).0
}

/// `s` is strictly increasing.
pub open spec fn increasing(s: Seq<usize>) -> bool {
    forall|a: int, b: int| 0 <= a < b < s.len() ==> s[a] < s[b]
}

/// Pick `n` distinct indices out of `0..len` uniformly at random (Floyd's
/// algorithm), in increasing order; all of `0..len` when `n >= len`.
pub fn subsample_indices(len: usize, n: usize, seed: u64) -> (r: Vec<usize>)
    ensures
        n >= len ==> r@ == Seq::new(len as nat, |i: int| i as usize),
        n < len ==> r@.len() == n && increasing(r@) && (forall|k: int|
            0 <= k < r@.len() ==> r@[k] < len) && r@.to_set() == floyd_pick(
            len as nat,
            n as nat,
            seed,
        ),
{
    proof {
        broadcast use {
            vstd::std_specs::hash::axiom_usize_obeys_hash_table_key_model,
            vstd::std_specs::hash::axiom_random_state_builds_valid_hashers,
        };
        assert(obeys_key_model::<usize>());
        assert(builds_valid_hashers::<std::hash::RandomState>());
    }
    if n >= len {
        let mut all: Vec<usize> = Vec::new();
        let mut i: usize = 0;
        while i < len
            invariant
                i <= len,
                all@ =~= Seq::new(i as nat, |k: int| k as usize),
            decreases len - i,
        {
            all.push(i);
            i = i + 1;
        }
        return all;
    }
    let mut rng = Rng64::new(seed);
    let mut chosen: HashSet<usize> = HashSet::with_capacity(n);
    let mut j: usize = len - n;
    while j < len
        invariant
            obeys_key_model::<usize>(),
            builds_valid_hashers::<std::hash::RandomState>(),
            n < len,
            len - n <= j <= len,
            chosen@.finite(),
            chosen@.len() == j - (len - n),
            forall|x: usize| #[trigger] chosen@.contains(x) ==> x < j,
            floyd_from(rng.state(), j as nat, len as nat, chosen@) == floyd_from(
                seed_state(seed),
                (len - n) as nat,
                len as nat,
                Set::empty(),
            ),
        decreases len - j,
    {
        let ghost before = chosen@;
        let ghost s0 = rng.state();
        let t64 = rng.below(j as u64 + 1);
        let t = t64 as usize;
        proof {
            lemma_floyd_step(s0, rng.state(), t64, j as nat, len as nat, before);
        }
        if !chosen.insert(t) {
            chosen.insert(j);
        }
        proof {
            assert(!before.contains(j));
            assert(t <= j);
            assert(t64 as usize == t);
            assert(chosen@ == (if before.contains(t) {
                before.insert(j)
            } else {
                before.insert(t)
            }));
            assert(floyd_from(s0, j as nat, len as nat, before) == floyd_from(
                rng.state(),
                (j + 1) as nat,
                len as nat,
                chosen@,
            ));
        }
        j = j + 1;
    }
    let ghost picked = chosen@;
    proof {
        lemma_floyd_end(rng.state(), j as nat, len as nat, picked);
        assert(picked == floyd_pick(len as nat, n as nat, seed));
    }
    let mut out: Vec<usize> = Vec::new();
    let mut i: usize = 0;
    while i < len
        invariant
            obeys_key_model::<usize>(),
            builds_valid_hashers::<std::hash::RandomState>(),
            i <= len,
            chosen@ == picked,
            forall|x: usize| #[trigger] picked.contains(x) ==> x < len,
            increasing(out@),
            forall|k: int| 0 <= k < out@.len() ==> out@[k] < i,
            forall|x: usize| out@.contains(x) <==> (picked.contains(x) && x < i),
        decreases len - i,
    {
        if chosen.contains(&i) {
            let ghost prev = out@;
            out.push(i);
            proof {
                assert(out@ == prev.push(i));
                assert forall|x: usize| out@.contains(x) <==> (picked.contains(x) && x < i + 1) by {
                    if x == i {
                        assert(out@[out@.len() - 1] == i);
                    }
                    if out@.contains(x) && x != i {
                        let k = choose|k: int| 0 <= k < out@.len() && out@[k] == x;
                        assert(prev[k] == x);
                    }
                    if picked.contains(x) && x < i {
                        assert(prev.contains(x));
                        let k = choose|k: int| 0 <= k < prev.len() && prev[k] == x;
                        assert(out@[k] == x);
                    }
                }
            }
        } else {
            proof {
                assert forall|x: usize| out@.contains(x) <==> (picked.contains(x) && x < i + 1) by {
                    if x == i && out@.contains(x) {
                        let k = choose|k: int| 0 <= k < out@.len() && out@[k] == x;
                    }
                }
            }
        }
        i = i + 1;
    }
    proof {
        assert(out@.to_set() =~= picked);
        assert(out@.no_duplicates());
        out@.unique_seq_to_set();
    }
    out
}

/// The rays of a subsample, before any flux rescaling: all rays when
/// `n >= len`, otherwise the `n` rays at the indices picked for the seed,
/// in file order.
pub fn subsample_rays(view: &RayView<'_>, n: usize, seed: u64) -> (r: Vec<Ray>)
    requires
        view.record_size_spec() >= 24,
    ensures
        n >= view.len_spec() ==> r@.len() == view.len_spec() && forall|i: int|
            0 <= i < view.len_spec() ==> r@[i] == decode_spec(
                view.columns_spec(),
                #[trigger] view.record(i),
            ),
        n < view.len_spec() ==> exists|idx: Seq<usize>|
            {
                &&& idx.len() == n
                &&& increasing(idx)
                &&& idx.to_set() == floyd_pick(view.len_spec(), n as nat, seed)
                &&& r@.len() == n
                &&& forall|k: int|
                    0 <= k < n ==> idx[k] < view.len_spec() && #[trigger] r@[k] == decode_spec(
                        view.columns_spec(),
                        view.record(idx[k] as int),
                    )
            },
{
    let len = view.len();
    if n >= len {
        return view.to_vec();
    }
    let idx = subsample_indices(len, n, seed);
    let mut out: Vec<Ray> = Vec::new();
    let mut k: usize = 0;
    while k < idx.len()
        invariant
            view.record_size_spec() >= 24,
            len == view.len_spec(),
            k <= idx@.len(),
            forall|j: int| 0 <= j < idx@.len() ==> idx@[j] < len,
            out@.len() == k,
            forall|j: int|
                0 <= j < k ==> #[trigger] out@[j] == decode_spec(
                    view.columns_spec(),
                    view.record(idx@[j] as int),
                ),
        decreases idx@.len() - k,
    {
        match view.get(idx[k]) {
            Some(ray) => out.push(ray),
            None => {},
        }
        k = k + 1;
    }
    assert(idx@.len() == n);
    out
}

// ---------------------------------------------------------------------
// Reservoir sampling.

/// The slots of a reservoir sampler (Algorithm R) for streams: keeps at
/// most `capacity` rays, each pushed ray replacing a kept one with the
/// right probability.
#[derive(Clone, Debug)]
pub struct ReservoirSlots {
    capacity: usize,
    rng: Rng64,
    kept: Vec<Ray>,
    seen: u64,
}

/// How many rays a reservoir of `capacity` slots holds after `seen`
/// offers.
pub open spec fn filled(seen: nat, capacity: usize) -> nat {
    if seen < capacity {
        seen
    } else {
        capacity as nat
    }
}

/// The slot a ray lands in when the reservoir is full: a draw in
/// `0..seen` (with `seen` counting the new ray), kept only below the
/// capacity.
pub open spec fn replace_slot(state: u64, seen: u64, capacity: usize) -> (u64, Option<usize>) {
    let (s1, j) = below_spec(state, seen);
    (s1, if j < capacity { Some(j as usize) } else { None })
}

/// Algorithm R once the reservoir is full: the ray offered as number
/// `seen` takes the slot the generator draws uniformly in `0..seen`,
/// exactly when that draw is below the capacity, and the generator moves on
/// past that draw. Of the `seen` equally likely draws, `capacity` keep the
/// ray, so it is kept with probability `capacity / seen`.
pub proof fn lemma_replacement(state: u64, seen: u64, capacity: usize)
    requires
        0 < capacity <= seen,
    ensures
        replace_slot(state, seen, capacity).0 == below_spec(state, seen).0,
        below_spec(state, seen).1 < seen,
        below_spec(state, seen).1 < capacity ==> replace_slot(state, seen, capacity).1 == Some(
            below_spec(state, seen).1 as usize,
        ),
        below_spec(state, seen).1 >= capacity ==> replace_slot(state, seen, capacity).1 is None,
        vstd::set_lib::set_int_range(0, seen as int).filter(|j: int| j < capacity).len()
            == capacity,
{
    lemma_below_range(state, seen);
    vstd::set_lib::lemma_int_range(0, capacity as int);
    assert(vstd::set_lib::set_int_range(0, seen as int).filter(|j: int| j < capacity)
        =~= vstd::set_lib::set_int_range(0, capacity as int));
}

impl ReservoirSlots {
    pub closed spec fn capacity_spec(&self) -> usize {
        self.capacity
    }

    pub closed spec fn state_spec(&self) -> u64 {
        self.rng.state()
    }

    pub closed spec fn kept_spec(&self) -> Seq<Ray> {
        self.kept@
    }

    pub closed spec fn seen_spec(&self) -> nat {
        self.seen as nat
    }

    pub fn new(capacity: usize, seed: u64) -> (r: Self)
        ensures
            r.capacity_spec() == capacity,
            r.state_spec() == seed_state(seed),
            r.kept_spec() == Seq::<Ray>::empty(),
            r.seen_spec() == 0,
    {
        ReservoirSlots { capacity, rng: Rng64::new(seed), kept: Vec::new(), seen: 0 }
    }

    /// Offer one ray. While the reservoir is not full the ray is kept; once
    /// it is, a draw in `0..seen` picks the slot it replaces, if any.
    pub fn push(&mut self, ray: Ray)
        requires
            old(self).seen_spec() < u64::MAX,
        ensures
            final(self).seen_spec() == old(self).seen_spec() + 1,
            final(self).capacity_spec() == old(self).capacity_spec(),
            old(self).kept_spec().len() == filled(old(self).seen_spec(), old(self).capacity_spec())
                ==> final(self).kept_spec().len() == filled(
                final(self).seen_spec(),
                final(self).capacity_spec(),
            ),
            old(self).kept_spec().len() < old(self).capacity_spec() ==> {
                &&& final(self).kept_spec() == old(self).kept_spec().push(ray)
                &&& final(self).state_spec() == old(self).state_spec()
            },
            old(self).kept_spec().len() >= old(self).capacity_spec() ==> {
                let (s1, slot) = replace_slot(
                    old(self).state_spec(),
                    (old(self).seen_spec() + 1) as u64,
                    old(self).capacity_spec(),
                );
                &&& final(self).state_spec() == s1
                &&& final(self).kept_spec() == match slot {
                    Some(j) => old(self).kept_spec().update(j as int, ray),
                    None => old(self).kept_spec(),
                }
            },
            old(self).kept_spec().len() >= old(self).capacity_spec() ==> {
                let (s1, j) = below_spec(old(self).state_spec(), (old(self).seen_spec() + 1) as u64);
                &&& j <= old(self).seen_spec()
                &&& final(self).state_spec() == s1
                &&& j < old(self).capacity_spec() ==> final(self).kept_spec() == old(
                    self,
                ).kept_spec().update(j as int, ray)
                &&& j >= old(self).capacity_spec() ==> final(self).kept_spec() == old(
                    self,
                ).kept_spec()
            },
    {
        self.seen = self.seen + 1;
        proof {
            lemma_below_range(self.rng.state(), self.seen);
        }
        if self.kept.len() < self.capacity {
            self.kept.push(ray);
        } else {
            let j = self.rng.below(self.seen);
            if j < self.capacity as u64 {
                assert(self.kept@.len() >= self.capacity);
                self.kept.set(j as usize, ray);
            }
        }
    }

    /// Rays offered so far.
    pub fn seen(&self) -> (r: u64)
        ensures
            r == self.seen_spec(),
    {
        self.seen
    }

    /// The kept rays, unscaled.
    pub fn kept(&self) -> (r: &Vec<Ray>)
        ensures
            r@ == self.kept_spec(),
    {
        &self.kept
    }

    /// Give up the kept rays, unscaled.
    pub fn into_kept(self) -> (r: Vec<Ray>)
        ensures
            r@ == self.kept_spec(),
    {
        self.kept
    }
}

} // verus!
