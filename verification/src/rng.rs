//! A small deterministic PRNG (SplitMix64).

use vstd::prelude::*;

verus! {

/// The SplitMix64 increment (the 64-bit golden ratio).
pub const GOLDEN_GAMMA: u64 = 0x9E37_79B9_7F4A_7C15;

/// The SplitMix64 output function applied to an advanced state.
#[verifier::opaque]
pub open spec fn splitmix_mix(z: u64) -> u64 {
    let z1 = vstd::wrapping::u64_specs::wrapping_mul(z ^ (z >> 30u64), 0xBF58_476D_1CE4_E5B9u64);
    let z2 = vstd::wrapping::u64_specs::wrapping_mul(z1 ^ (z1 >> 27u64), 0x94D0_49BB_1331_11EBu64);
    z2 ^ (z2 >> 31u64)
}

/// The state after one draw.
pub open spec fn advance_state(s: u64) -> u64 {
    vstd::wrapping::u64_specs::wrapping_add(s, GOLDEN_GAMMA)
}

/// The value drawn from state `s`.
pub open spec fn draw(s: u64) -> u64 {
    splitmix_mix(advance_state(s))
}

/// The state a generator seeded with `seed` starts in.
pub open spec fn seed_state(seed: u64) -> u64 {
    if seed == 0 { GOLDEN_GAMMA } else { seed }
}

/// A deterministic SplitMix64 generator; its whole state is one `u64`.
pub struct SeededRng {
    state: u64,
}

impl View for SeededRng {
    type V = u64;

    closed spec fn view(&self) -> u64 {
        self.state
    }
}

impl SeededRng {
    pub fn new(seed: u64) -> (r: SeededRng)
        ensures
            r@ == seed_state(seed),
    {
        SeededRng { state: if seed == 0 { GOLDEN_GAMMA } else { seed } }
    }

    /// Next raw 64-bit value.
    pub fn next_u64(&mut self) -> (v: u64)
        ensures
            final(self)@ == advance_state(old(self)@),
            v == draw(old(self)@),
    {
        reveal(splitmix_mix);
        self.state = self.state.wrapping_add(GOLDEN_GAMMA);
        let mut z = self.state;
        z = (z ^ (z >> 30)).wrapping_mul(0xBF58_476D_1CE4_E5B9);
        z = (z ^ (z >> 27)).wrapping_mul(0x94D0_49BB_1331_11EB);
        z ^ (z >> 31)
    }

    /// Uniform integer in `0..n`: the next draw reduced modulo `n`.
    pub fn next_below(&mut self, n: usize) -> (v: usize)
        requires
            n > 0,
        ensures
            final(self)@ == advance_state(old(self)@),
            v == draw(old(self)@) % (n as u64),
            v < n,
    {
        (self.next_u64() % n as u64) as usize
    }

    /// Uniform integer in `lo..=hi`: `lo` plus the next draw reduced modulo the
    /// span.
    pub fn next_range_inclusive(&mut self, lo: i64, hi: i64) -> (v: i64)
        requires
            lo <= hi,
            hi - lo <= i64::MAX,
        ensures
            final(self)@ == advance_state(old(self)@),
            v == lo + draw(old(self)@) % ((hi - lo + 1) as u64),
            lo <= v <= hi,
    {
        let span = (hi - lo) as u64 + 1;
        lo + (self.next_u64() % span) as i64
    }

    /// A coin flip: the low bit of the next draw.
    pub fn next_bool(&mut self) -> (b: bool)
        ensures
            final(self)@ == advance_state(old(self)@),
            b == (draw(old(self)@) & 1 == 1),
    {
        self.next_u64() & 1 == 1
    }

    /// The element of a non-empty slice at the index [`SeededRng::next_below`]
    /// draws.
    pub fn choose_item<'a, T>(&mut self, items: &'a [T]) -> (r: &'a T)
        requires
            items@.len() > 0,
        ensures
            final(self)@ == advance_state(old(self)@),
            *r == items@[(draw(old(self)@) % (items@.len() as u64)) as int],
    {
        let i = self.next_below(items.len());
        &items[i]
    }
}

} // verus!

verus! {

/// The state after `k` draws from state `s`.
pub open spec fn state_after(s: u64, k: nat) -> u64
    decreases k,
{
    if k == 0 { s } else { advance_state(state_after(s, (k - 1) as nat)) }
}

/// `2^64`, the modulus of the generator's arithmetic.
pub open spec fn word() -> int {
    0x1_0000_0000_0000_0000
}

/// `(s + j · GOLDEN_GAMMA) mod 2^64`.
pub open spec fn stepped(s: u64, j: nat) -> u64 {
    ((s + j * GOLDEN_GAMMA) % word()) as u64
}

/// After `k` draws the state is `s + k · GOLDEN_GAMMA` (mod 2^64), so the
/// next draw is the SplitMix64 mix of `s + (k + 1) · GOLDEN_GAMMA`: two
/// generators seeded alike and drawn from alike give the same values.
pub proof fn lemma_draw_after(seed: u64, k: nat)
    ensures
        state_after(seed_state(seed), k) == stepped(seed_state(seed), k),
        draw(state_after(seed_state(seed), k)) == splitmix_mix(stepped(seed_state(seed), k + 1)),
    decreases k,
{
    let s = seed_state(seed);
    if k > 0 {
        lemma_draw_after(seed, (k - 1) as nat);
        lemma_advance_stepped(s, (k - 1) as nat);
        assert(state_after(s, k) == advance_state(state_after(s, (k - 1) as nat)));
    } else {
        assert((s as int) % word() == s as int);
        assert(stepped(s, 0) == s);
    }
    lemma_advance_stepped(s, k);
}

/// One step from `stepped(s, k)` reaches `stepped(s, k + 1)`.
proof fn lemma_advance_stepped(s: u64, k: nat)
    ensures
        advance_state(stepped(s, k)) == stepped(s, k + 1),
{
    let a = s + k * GOLDEN_GAMMA;
    assert(a >= 0) by (nonlinear_arith)
        requires
            a == s + k * GOLDEN_GAMMA,
            s >= 0,
            k >= 0,
    ;
    let p = a % word();
    vstd::arithmetic::div_mod::lemma_add_mod_noop(a, GOLDEN_GAMMA as int, word());
    assert((GOLDEN_GAMMA as int) % word() == GOLDEN_GAMMA as int);
    assert(s + (k + 1) * GOLDEN_GAMMA == a + GOLDEN_GAMMA) by (nonlinear_arith)
        requires
            a == s + k * GOLDEN_GAMMA,
    ;
    let q = p + GOLDEN_GAMMA;
    if q >= word() {
        vstd::arithmetic::div_mod::lemma_fundamental_div_mod_converse(q, word(), 1, q - word());
    } else {
        vstd::arithmetic::div_mod::lemma_fundamental_div_mod_converse(q, word(), 0, q);
    }
}

/// Multiplying by an odd constant modulo 2^64 is undone by its inverse.
proof fn lemma_mul_undone(x: u64, c: u64, inv: u64)
    requires
        (c as int * inv as int) % word() == 1,
    ensures
        ((((x as int * c as int) % word()) * inv as int) % word()) == x as int,
{
    let m = word();
    vstd::arithmetic::div_mod::lemma_mul_mod_noop_left(x as int * c as int, inv as int, m);
    vstd::arithmetic::mul::lemma_mul_is_associative(x as int, c as int, inv as int);
    vstd::arithmetic::div_mod::lemma_mul_mod_noop_right(x as int, c as int * inv as int, m);
    assert(x as int * 1 == x as int);
    vstd::arithmetic::div_mod::lemma_small_mod(x as nat, m as nat);
}

/// Wrapping multiplication by an odd constant with a known inverse is
/// one-to-one.
proof fn lemma_mul_injective(x: u64, y: u64, c: u64, inv: u64)
    requires
        (c as int * inv as int) % word() == 1,
        vstd::wrapping::u64_specs::wrapping_mul(x, c) == vstd::wrapping::u64_specs::wrapping_mul(y, c),
    ensures
        x == y,
{
    lemma_mul_undone(x, c, inv);
    lemma_mul_undone(y, c, inv);
    assert((x as int * c as int) % word() == (y as int * c as int) % word());
}

/// The SplitMix64 mix is one-to-one.
pub proof fn lemma_mix_injective(x: u64, y: u64)
    requires
        splitmix_mix(x) == splitmix_mix(y),
    ensures
        x == y,
{
    reveal(splitmix_mix);
    let c1: u64 = 0xBF58_476D_1CE4_E5B9;
    let c2: u64 = 0x94D0_49BB_1331_11EB;
    assert((c1 as int * 0x96de_1b17_3f11_9089int) % word() == 1);
    assert((c2 as int * 0x3196_42b2_d24d_8ec3int) % word() == 1);
    let x1 = vstd::wrapping::u64_specs::wrapping_mul(x ^ (x >> 30u64), c1);
    let y1 = vstd::wrapping::u64_specs::wrapping_mul(y ^ (y >> 30u64), c1);
    let x2 = vstd::wrapping::u64_specs::wrapping_mul(x1 ^ (x1 >> 27u64), c2);
    let y2 = vstd::wrapping::u64_specs::wrapping_mul(y1 ^ (y1 >> 27u64), c2);
    assert(x2 ^ (x2 >> 31u64) == y2 ^ (y2 >> 31u64));
    assert(x2 == y2) by (bit_vector)
        requires
            x2 ^ (x2 >> 31u64) == y2 ^ (y2 >> 31u64),
    ;
    lemma_mul_injective(x1 ^ (x1 >> 27u64), y1 ^ (y1 >> 27u64), c2, 0x3196_42b2_d24d_8ec3);
    let (a, b) = (x1, y1);
    assert(a == b) by (bit_vector)
        requires
            a ^ (a >> 27u64) == b ^ (b >> 27u64),
    ;
    lemma_mul_injective(x ^ (x >> 30u64), y ^ (y >> 30u64), c1, 0x96de_1b17_3f11_9089);
    assert(x == y) by (bit_vector)
        requires
            x ^ (x >> 30u64) == y ^ (y >> 30u64),
    ;
}

/// Different seeds give different first draws, but for seed 0, which stands
/// for `GOLDEN_GAMMA` and so draws exactly as that seed does.
pub proof fn lemma_first_draws_differ(s1: u64, s2: u64)
    ensures
        (s1 == 0 && s2 == GOLDEN_GAMMA) ==> draw(seed_state(s1)) == draw(seed_state(s2)),
        (s1 != s2 && !(s1 == 0 && s2 == GOLDEN_GAMMA) && !(s1 == GOLDEN_GAMMA && s2 == 0))
            ==> draw(seed_state(s1)) != draw(seed_state(s2)),
{
    let (a, b) = (seed_state(s1), seed_state(s2));
    if s1 != s2 && !(s1 == 0 && s2 == GOLDEN_GAMMA) && !(s1 == GOLDEN_GAMMA && s2 == 0) {
        assert(a != b);
        if draw(a) == draw(b) {
            lemma_mix_injective(advance_state(a), advance_state(b));
            assert(a == b);
        }
    }
}

} // verus!
