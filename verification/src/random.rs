//! A linear congruential pseudo-random generator.
use vstd::arithmetic::div_mod::{
    lemma_add_mod_noop, lemma_fundamental_div_mod, lemma_mod_multiples_vanish,
    lemma_mul_mod_noop_right,
};
use vstd::arithmetic::power2::{lemma2_to64, lemma_pow2_adds, lemma_pow2_pos, lemma_pow2_strictly_increases, lemma_pow2_unfold, pow2};
use vstd::prelude::*;
use vstd::set_lib::{lemma_int_range, lemma_subset_equality, set_int_range};

verus! {

/// The modulus of the generator, 2^31.
pub const MODULUS: u64 = 2147483648;

/// The multiplier of the generator.
pub const MULTIPLIER: u64 = 1103515245;

/// The increment of the generator.
pub const INCREMENT: u64 = 12345;

/// The state that follows `seed`: `(MULTIPLIER * seed + INCREMENT) mod MODULUS`.
pub open spec fn lcg_step(seed: int) -> int {
    (MULTIPLIER * seed + INCREMENT) % (MODULUS as int)
}

/// The state after `n` steps from `seed`.
pub open spec fn lcg_iterate(seed: int, n: nat) -> int
    decreases n,
{
    if n == 0 {
        seed
    } else {
        lcg_step(lcg_iterate(seed, (n - 1) as nat))
    }
}

/// The affine map `x -> p.0 * x + p.1` applied `n` times, as the pair of its
/// coefficients.
pub open spec fn affine_power(a: int, c: int, n: nat) -> (int, int)
    decreases n,
{
    if n == 0 {
        (1, 0)
    } else {
        let p = affine_power(a, c, (n - 1) as nat);
        (a * p.0, a * p.1 + c)
    }
}

/// Applying `g` after `f`, as coefficients.
pub open spec fn affine_compose(g: (int, int), f: (int, int)) -> (int, int) {
    (g.0 * f.0, g.0 * f.1 + g.1)
}

proof fn lemma_iterate_closed_form(seed: int, n: nat)
    requires
        0 <= seed < MODULUS,
    ensures
        ({
            let p = affine_power(MULTIPLIER as int, INCREMENT as int, n);
            lcg_iterate(seed, n) == (p.0 * seed + p.1) % (MODULUS as int)
        }),
    decreases n,
{
    let m = MODULUS as int;
    let a = MULTIPLIER as int;
    let c = INCREMENT as int;
    if n == 0 {
        assert((1 * seed + 0) % m == seed) by {
            assert(1 * seed + 0 == seed);
            vstd::arithmetic::div_mod::lemma_small_mod(seed as nat, m as nat);
        }
    } else {
        let k = (n - 1) as nat;
        lemma_iterate_closed_form(seed, k);
        let p = affine_power(a, c, k);
        let x = p.0 * seed + p.1;
        lemma_mul_mod_noop_right(a, x, m);
        lemma_add_mod_noop(a * (x % m), c, m);
        lemma_add_mod_noop(a * x, c, m);
        assert(a * x + c == (a * p.0) * seed + (a * p.1 + c)) by (nonlinear_arith)
            requires
                x == p.0 * seed + p.1,
        ;
    }
}

proof fn lemma_affine_add(a: int, c: int, n: nat, k: nat)
    ensures
        affine_power(a, c, n + k) == affine_compose(affine_power(a, c, k), affine_power(a, c, n)),
    decreases k,
{
    if k == 0 {
        let f = affine_power(a, c, n);
        assert(n + k == n);
        assert(1 * f.0 == f.0 && 1 * f.1 + 0 == f.1);
    } else {
        let k1 = (k - 1) as nat;
        lemma_affine_add(a, c, n, k1);
        assert((n + k1 + 1) as nat == n + k);
        let f = affine_power(a, c, n);
        let g = affine_power(a, c, k1);
        assert(a * (g.0 * f.0) == (a * g.0) * f.0) by (nonlinear_arith);
        assert(a * (g.0 * f.1 + g.1) + c == (a * g.0) * f.1 + (a * g.1 + c)) by (nonlinear_arith);
    }
}

proof fn lemma_affine_mul(a: int, c: int, n: nat, k: nat)
    ensures
        affine_power(a, c, n * k) == ({
            let p = affine_power(a, c, n);
            affine_power(p.0, p.1, k)
        }),
    decreases k,
{
    if k == 0 {
        assert(n * k == 0) by (nonlinear_arith) requires k == 0;
    } else {
        let k1 = (k - 1) as nat;
        lemma_affine_mul(a, c, n, k1);
        assert(n * k == n * k1 + n) by (nonlinear_arith) requires k1 + 1 == k;
        lemma_affine_add(a, c, n * k1, n);
    }
}

/// `2^v` steps of the generator form the map `x -> (1 + 4 * 2^v * t) * x + 2^v * u`
/// with `u` odd; returns `(t, u)`.
proof fn lemma_power_of_two_steps(v: nat) -> (tu: (int, int))
    ensures
        affine_power(MULTIPLIER as int, INCREMENT as int, pow2(v))
            == (1 + 4 * pow2(v) * tu.0, pow2(v) * tu.1),
        tu.1 % 2 == 1,
    decreases v,
{
    let a = MULTIPLIER as int;
    let c = INCREMENT as int;
    if v == 0 {
        lemma2_to64();
        assert(affine_power(a, c, 1) == (a, c)) by {
            assert(affine_power(a, c, 0) == (1int, 0int));
        }
        (275878811, 12345)
    } else {
        let v1 = (v - 1) as nat;
        let (t, u) = lemma_power_of_two_steps(v1);
        let x = pow2(v1) as int;
        lemma_pow2_unfold(v);
        lemma_pow2_pos(v1);
        lemma_affine_mul(a, c, pow2(v1), 2);
        assert(pow2(v1) * 2 == pow2(v));
        let p = 1 + 4 * x * t;
        let q = x * u;
        assert(affine_power(p, q, 2) == (p * (p * 1), p * (p * 0 + q) + q)) by {
            reveal_with_fuel(affine_power, 3);
        }
        let t2 = t + 2 * x * t * t;
        let u2 = (1 + 2 * x * t) * u;
        assert(p * (p * 1) == 1 + 4 * (2 * x) * t2) by (nonlinear_arith)
            requires
                p == 1 + 4 * x * t,
                t2 == t + 2 * x * t * t,
        ;
        assert(p * (p * 0 + q) + q == (2 * x) * u2) by (nonlinear_arith)
            requires
                p == 1 + 4 * x * t,
                q == x * u,
                u2 == (1 + 2 * x * t) * u,
        ;
        assert(u2 % 2 == 1) by (nonlinear_arith)
            requires
                u2 == (1 + 2 * x * t) * u,
                u % 2 == 1,
        {
            let h = u / 2;
            assert(u == 2 * h + 1);
            assert(u2 == 2 * (x * t * (2 * h + 1) + h) + 1);
        }
        (t2, u2)
    }
}

/// `w` repetitions of a map `x -> (1 + 4 * y * t) * x + y * u` with `u` odd
/// form a map of the same shape whose `u` has the parity of `w`; returns
/// its `(t, u)`.
proof fn lemma_repeat_steps(y: int, t: int, u: int, w: nat) -> (tu: (int, int))
    requires
        u % 2 == 1,
    ensures
        affine_power(1 + 4 * y * t, y * u, w) == (1 + 4 * y * tu.0, y * tu.1),
        tu.1 % 2 == w % 2,
    decreases w,
{
    let p = 1 + 4 * y * t;
    let q = y * u;
    if w == 0 {
        (0, 0)
    } else {
        let w1 = (w - 1) as nat;
        let (tw, uw) = lemma_repeat_steps(y, t, u, w1);
        let t2 = t + tw + 4 * y * t * tw;
        let u2 = uw + u + 4 * y * t * uw;
        assert(p * (1 + 4 * y * tw) == 1 + 4 * y * t2) by (nonlinear_arith)
            requires
                p == 1 + 4 * y * t,
                t2 == t + tw + 4 * y * t * tw,
        ;
        assert(p * (y * uw) + q == y * u2) by (nonlinear_arith)
            requires
                p == 1 + 4 * y * t,
                q == y * u,
                u2 == uw + u + 4 * y * t * uw,
        ;
        assert(u2 % 2 == w % 2) by (nonlinear_arith)
            requires
                u2 == uw + u + 4 * y * t * uw,
                uw % 2 == w1 % 2,
                u % 2 == 1,
                w == w1 + 1,
        {
            assert(u2 == uw + u + 2 * (2 * y * t * uw));
        }
        (t2, u2)
    }
}

/// Every positive `n` is `2^v * w` with `w` odd; returns `(v, w)`.
proof fn lemma_split_power_of_two(n: nat) -> (vw: (nat, nat))
    requires
        n >= 1,
    ensures
        n == pow2(vw.0) * vw.1,
        vw.1 % 2 == 1,
    decreases n,
{
    if n % 2 == 1 {
        lemma2_to64();
        (0, n)
    } else {
        let (v, w) = lemma_split_power_of_two(n / 2);
        lemma_pow2_unfold(v + 1);
        assert(n == 2 * (n / 2));
        assert(n == pow2(v + 1) * w) by (nonlinear_arith)
            requires
                n == 2 * (n / 2),
                n / 2 == pow2(v) * w,
                pow2(v + 1) == 2 * pow2(v),
        ;
        (v + 1, w)
    }
}

/// No state comes back after fewer than `2^31` steps.
proof fn lemma_no_early_return(x: int, n: nat)
    requires
        0 <= x < MODULUS,
        0 < n < MODULUS,
    ensures
        lcg_iterate(x, n) != x,
{
    let m = MODULUS as int;
    let a = MULTIPLIER as int;
    let c = INCREMENT as int;
    lemma2_to64();
    let (v, w) = lemma_split_power_of_two(n);
    let y = pow2(v) as int;
    lemma_pow2_pos(v);
    if v >= 31 {
        if v > 31 {
            lemma_pow2_strictly_increases(31, v);
        }
        assert(pow2(v) * w >= pow2(v)) by (nonlinear_arith)
            requires
                w >= 1,
        ;
        assert(false);
    }
    let (t, u) = lemma_power_of_two_steps(v);
    lemma_affine_mul(a, c, pow2(v), w);
    let (t2, u2) = lemma_repeat_steps(y, t, u, w);
    lemma_iterate_closed_form(x, n);
    let z = (1 + 4 * y * t2) * x + y * u2;
    assert(lcg_iterate(x, n) == z % m);
    if lcg_iterate(x, n) == x {
        lemma_fundamental_div_mod(z, m);
        let q = z / m;
        let k = (31 - v) as nat;
        lemma_pow2_adds(v, k);
        assert(v + k == 31);
        lemma_pow2_unfold(k);
        let r = pow2((k - 1) as nat) as int;
        let o = 4 * t2 * x + u2;
        assert(z - x == y * o) by (nonlinear_arith)
            requires
                z == (1 + 4 * y * t2) * x + y * u2,
                o == 4 * t2 * x + u2,
        ;
        assert(z - x == m * q);
        assert(m == y * (2 * r));
        assert(o == 2 * (r * q)) by (nonlinear_arith)
            requires
                y * o == y * (2 * r) * q,
                y > 0,
        ;
        assert(o % 2 == 1) by (nonlinear_arith)
            requires
                o == 4 * t2 * x + u2,
                u2 % 2 == 1,
        {
            assert(o == 2 * (2 * t2 * x) + u2);
        }
        assert(false);
    }
}

/// After `2^31` steps every state is back.
proof fn lemma_return_after_full_cycle(x: int)
    requires
        0 <= x < MODULUS,
    ensures
        lcg_iterate(x, MODULUS as nat) == x,
{
    let m = MODULUS as int;
    lemma2_to64();
    let (t, u) = lemma_power_of_two_steps(31);
    lemma_iterate_closed_form(x, MODULUS as nat);
    assert((1 + 4 * m * t) * x + m * u == m * (4 * t * x + u) + x) by (nonlinear_arith);
    lemma_mod_multiples_vanish(4 * t * x + u, x, m);
    vstd::arithmetic::div_mod::lemma_small_mod(x as nat, m as nat);
}

proof fn lemma_iterate_add(seed: int, i: nat, d: nat)
    ensures
        lcg_iterate(seed, i + d) == lcg_iterate(lcg_iterate(seed, i), d),
    decreases d,
{
    if d > 0 {
        lemma_iterate_add(seed, i, (d - 1) as nat);
        assert((i + d - 1) as nat == i + (d - 1) as nat);
    }
}

proof fn lemma_iterate_in_range(seed: int, n: nat)
    requires
        0 <= seed < MODULUS,
    ensures
        0 <= lcg_iterate(seed, n) < MODULUS,
    decreases n,
{
    if n > 0 {
        lemma_iterate_in_range(seed, (n - 1) as nat);
    }
}

/// The states after `1, 2, ..., 2^31` steps from `seed`, in order.
pub open spec fn cycle_states(seed: int) -> Seq<int> {
    Seq::new(MODULUS as nat, |k: int| lcg_iterate(seed, (k + 1) as nat))
}

/// The generator has full period: from any state below `MODULUS`, the
/// states after `1, 2, ..., 2^31` steps are pairwise distinct, so every value
/// below `MODULUS` occurs exactly once among them (`cycle_states` has no
/// repeats and its values are exactly `0..MODULUS`), and after `2^31` steps the
/// state is back where it started. (The increment is odd and the multiplier
/// is `1` modulo `4`.) The `n`-th call of `next` hands out `lcg_iterate(s, n)`
/// for a generator that started in state `s`.
pub proof fn lemma_full_period(seed: int)
    requires
        0 <= seed < MODULUS,
    ensures
        lcg_iterate(seed, MODULUS as nat) == seed,
        forall|i: nat, j: nat|
            1 <= i < j <= MODULUS ==> #[trigger] lcg_iterate(seed, i) != #[trigger] lcg_iterate(seed, j),
        cycle_states(seed).no_duplicates(),
        cycle_states(seed).to_set() == set_int_range(0, MODULUS as int),
{
    let m = MODULUS as int;
    lemma_return_after_full_cycle(seed);
    assert forall|i: nat, j: nat|
        1 <= i < j <= MODULUS implies #[trigger] lcg_iterate(seed, i) != #[trigger] lcg_iterate(seed, j) by {
        let y = lcg_iterate(seed, i);
        lemma_iterate_in_range(seed, i);
        let d = (j - i) as nat;
        lemma_iterate_add(seed, i, d);
        assert(i + d == j);
        lemma_no_early_return(y, d);
    }
    let states = cycle_states(seed);
    assert(states.no_duplicates()) by {
        assert forall|a: int, b: int| 0 <= a < states.len() && 0 <= b < states.len() && a != b implies states[a]
            != states[b] by {
            if a < b {
                assert(lcg_iterate(seed, (a + 1) as nat) != lcg_iterate(seed, (b + 1) as nat));
            } else {
                assert(lcg_iterate(seed, (b + 1) as nat) != lcg_iterate(seed, (a + 1) as nat));
            }
        }
    }
    states.unique_seq_to_set();
    lemma_int_range(0, m);
    assert(states.to_set().subset_of(set_int_range(0, m))) by {
        assert forall|x: int| states.to_set().contains(x) implies set_int_range(0, m).contains(x) by {
            let k = choose|k: int| 0 <= k < states.len() && states[k] == x;
            lemma_iterate_in_range(seed, (k + 1) as nat);
        }
    }
    lemma_subset_equality(states.to_set(), set_int_range(0, m));
}

/// The value of a little-endian byte string.
pub open spec fn le_value(bytes: Seq<u8>) -> nat
    decreases bytes.len(),
{
    if bytes.len() == 0 {
        0
    } else {
        bytes[0] as nat + 256 * le_value(bytes.drop_first())
    }
}

/// The value of a big-endian byte string.
pub open spec fn be_value(bytes: Seq<u8>) -> nat {
    le_value(bytes.reverse())
}

/// A linear congruential generator: each step maps the seed `s` to
/// `(MULTIPLIER * s + INCREMENT) mod MODULUS`.
pub struct Random {
    seed: u64,
    multiplier: u64,
    modulus: u64,
    increment: u64,
}

impl Random {
    #[verifier::type_invariant]
    spec fn inv(self) -> bool {
        &&& self.multiplier == MULTIPLIER
        &&& self.modulus == MODULUS
        &&& self.increment == INCREMENT
        &&& self.seed < MODULUS
    }

    /// The current state; after a step it is also the value that step handed out.
    pub closed spec fn seed(self) -> u64 {
        self.seed
    }

    /// Seeds the generator from raw entropy: the seed is `entropy mod MODULUS`.
    pub fn from_entropy(entropy: u64) -> (r: Random)
        ensures
            r.seed() == entropy % MODULUS,
    {
        Random { seed: entropy % MODULUS, multiplier: MULTIPLIER, modulus: MODULUS, increment: INCREMENT }
    }

    /// Seeds the generator from eight bytes of entropy read in the machine's
    /// native byte order, reduced modulo `MODULUS`.
    pub fn new(bytes: [u8; 8]) -> (r: Random)
        ensures
            r.seed() == le_value(bytes@) % (MODULUS as nat)
                || r.seed() == be_value(bytes@) % (MODULUS as nat),
    {
        let v = u64_from_ne_bytes(bytes);
        Random::from_entropy(v)
    }

    /// The modulus, which bounds every value the generator hands out.
    pub fn modulus(&self) -> (r: u64)
        ensures
            r == MODULUS,
    {
        proof { use_type_invariant(self); }
        self.modulus
    }

    /// Advances the generator one step and returns the new state.
    pub fn next(&mut self) -> (r: u64)
        ensures
            r == lcg_step(old(self).seed() as int),
            final(self).seed() == r,
            r < MODULUS,
    {
        proof { use_type_invariant(&*self); }
        assert(self.multiplier * self.seed + self.increment <= u64::MAX) by (nonlinear_arith)
            requires
                self.multiplier == MULTIPLIER,
                self.seed < MODULUS,
                self.increment == INCREMENT,
        ;
        self.seed = (self.multiplier * self.seed + self.increment) % self.modulus;
        self.seed
    }
}

/// Draws the next value from the given generator; the same as [`Random::next`].
pub fn next(rng: &mut Random) -> (r: u64)
    ensures
        r == lcg_step(old(rng).seed() as int),
        final(rng).seed() == r,
        r < MODULUS,
{
    rng.next()
}

/// Calls `u64::from_ne_bytes`. The result depends on the machine's byte
/// order, so the contract states only that it is the little-endian or the
/// big-endian reading of the bytes.
#[verifier::external_body]
fn u64_from_ne_bytes(bytes: [u8; 8]) -> (r: u64)
    ensures
        r == le_value(bytes@) || r == be_value(bytes@),
{
    u64::from_ne_bytes(bytes)
}

} // verus!
