//! Generic N-bit counter rollover tracker.
//!
//! Extends an N-bit hardware counter (V1743 TDC = 40 bit, DT5730 board
//! aggregate time tag = 32 bit) into a 64-bit tick count using modulo-distance
//! arithmetic: a forward step of at most half the rollover period is a real
//! advance (possibly across a wrap), a larger one is a late arrival from the
//! previous epoch.
//!
//! The state is integer ticks only; callers convert to nanoseconds.

use vstd::prelude::*;
use vstd::arithmetic::power2::pow2;
use vstd::bits::lemma_u64_low_bits_mask_is_mod;
use vstd::bits::lemma_u64_pow2_no_overflow;
use vstd::bits::lemma_u64_shl_is_mul;
use vstd::bits::low_bits_mask;

verus! {

/// Reason `RolloverTracker::extend` refuses a value: an apparent late arrival
/// before any rollover has been seen, i.e. from an epoch before the tracker
/// started.
#[derive(Debug, Clone, Copy, PartialEq, Eq, Structural)]
pub enum RolloverError {
    Underflow { raw: u64 },
}

/// The abstract state of a [`RolloverTracker`].
#[derive(Debug, Clone, Copy, PartialEq, Eq)]
pub struct RolloverState {
    /// Width of the raw counter in bits.
    pub bits: u8,
    /// Last raw value accepted as a forward step (masked), if any.
    pub prev_raw: Option<u64>,
    /// Number of wraps observed since construction or reset.
    pub rollover_count: u64,
}

/// Rollover period of a `bits`-wide counter.
pub open spec fn period(bits: u8) -> nat {
    pow2(bits as nat)
}

/// 2^64, the modulus of the tick arithmetic.
pub open spec fn tick_modulus() -> nat {
    0x1_0000_0000_0000_0000nat
}

/// The 64-bit tick for a raw value in epoch `epoch`.
pub open spec fn tick(raw: u64, epoch: u64, bits: u8) -> u64 {
    ((raw as nat + epoch as nat * period(bits)) % tick_modulus()) as u64
}

/// Forward distance from `prev` to `raw` modulo the period (both below it).
pub open spec fn forward_distance(prev: u64, raw: u64, bits: u8) -> nat {
    if raw >= prev {
        (raw - prev) as nat
    } else {
        (raw + period(bits) - prev) as nat
    }
}

impl RolloverState {
    /// Tracker state invariant: a supported width and a masked previous value.
    pub open spec fn wf(self) -> bool {
        &&& 2 <= self.bits <= 63
        &&& (self.prev_raw matches Some(p) ==> p < period(self.bits))
    }

    /// State of a freshly constructed (or reset) tracker.
    pub open spec fn fresh(bits: u8) -> RolloverState {
        RolloverState { bits, prev_raw: None, rollover_count: 0 }
    }

    /// Extended tick of the last value accepted as a forward step, as an
    /// unbounded integer.
    pub open spec fn last_extended(self) -> nat {
        match self.prev_raw {
            Some(p) => p as nat + self.rollover_count as nat * period(self.bits),
            None => 0,
        }
    }

    /// Whether extending by `raw_tick` would record a new wrap.
    pub open spec fn wraps_on(self, raw_tick: u64) -> bool {
        let raw = (raw_tick as nat % period(self.bits)) as u64;
        match self.prev_raw {
            Some(prev) => forward_distance(prev, raw, self.bits) <= period(self.bits) / 2
                && raw < prev,
            None => false,
        }
    }
}

/// What one call of `extend(raw_tick)` returns and the state it leaves.
pub open spec fn spec_extend(s: RolloverState, raw_tick: u64) -> (
    Result<u64, RolloverError>,
    RolloverState,
) {
    let p = period(s.bits);
    let raw = (raw_tick as nat % p) as u64;
    match s.prev_raw {
        None => (Ok(raw), RolloverState { prev_raw: Some(raw), ..s }),
        Some(prev) => {
            if forward_distance(prev, raw, s.bits) > p / 2 {
                if s.rollover_count == 0 {
                    (Err(RolloverError::Underflow { raw }), s)
                } else {
                    (Ok(tick(raw, (s.rollover_count - 1) as u64, s.bits)), s)
                }
            } else {
                let count = if raw < prev {
                    (s.rollover_count + 1) as u64
                } else {
                    s.rollover_count
                };
                (
                    Ok(tick(raw, count, s.bits)),
                    RolloverState { prev_raw: Some(raw), rollover_count: count, ..s },
                )
            }
        },
    }
}

/// What `reconstruct_subcounter(extended, sub_raw, sub_bits)` returns: the
/// value with the high bits of `extended` and the low `sub_bits` bits of
/// `sub_raw`, moved back one `sub_bits` period (mod 2^64) when it would lie
/// after `extended`.
pub open spec fn spec_reconstruct_subcounter(extended: u64, sub_raw: u64, sub_bits: u8) -> u64 {
    let q = pow2(sub_bits as nat);
    let candidate = (extended as nat - extended as nat % q + sub_raw as nat % q) as nat;
    if candidate > extended {
        ((candidate + tick_modulus() - q) % (tick_modulus() as int)) as u64
    } else {
        candidate as u64
    }
}

/// Tracks rollovers of an N-bit counter and returns an extended 64-bit tick.
#[derive(Debug)]
pub struct RolloverTracker {
    mask: u64,
    bits: u8,
    prev_raw: Option<u64>,
    rollover_count: u64,
}

impl View for RolloverTracker {
    type V = RolloverState;

    closed spec fn view(&self) -> RolloverState {
        RolloverState {
            bits: self.bits,
            prev_raw: self.prev_raw,
            rollover_count: self.rollover_count,
        }
    }
}

proof fn lemma_period_facts(bits: u8)
    requires
        1 <= bits <= 63,
    ensures
        (1u64 << bits) as nat == period(bits),
        ((1u64 << bits) - 1) as nat == low_bits_mask(bits as nat),
        (1u64 << ((bits - 1) as u8)) as nat == period(bits) / 2,
        period(bits) == 2 * period((bits - 1) as u8),
        0 < period(bits) < u64::MAX,
        tick_modulus() % period(bits) == 0,
{
    lemma_u64_pow2_no_overflow(bits as nat);
    lemma_u64_pow2_no_overflow((bits - 1) as nat);
    lemma_u64_shl_is_mul(1, bits as u64);
    lemma_u64_shl_is_mul(1, (bits - 1) as u64);
    vstd::arithmetic::power2::lemma_pow2_unfold(bits as nat);
    assert((1u64 << bits) == (1u64 << (bits as u64))) by (bit_vector);
    assert((1u64 << ((bits - 1) as u8)) == (1u64 << ((bits - 1) as u64))) by (bit_vector)
        requires 1 <= bits <= 63;
    vstd::arithmetic::power2::lemma_pow2_adds(bits as nat, (64 - bits) as nat);
    vstd::arithmetic::power2::lemma2_to64_rest();
    vstd::arithmetic::power2::lemma_pow2_pos((64 - bits) as nat);
    vstd::arithmetic::div_mod::lemma_mod_multiples_basic(
        pow2((64 - bits) as nat) as int,
        pow2(bits as nat) as int,
    );
    vstd::arithmetic::mul::lemma_mul_is_commutative(
        pow2((64 - bits) as nat) as int,
        pow2(bits as nat) as int,
    );
}

/// `r | (c << b)` with `r` below `2^b` is `r + c * 2^b` modulo 2^64.
proof fn lemma_compose(r: u64, c: u64, b: u8)
    requires
        1 <= b <= 63,
        (r as nat) < period(b),
    ensures
        r | (c << b) == tick(r, c, b),
{
    lemma_period_facts(b);
    let p: u64 = 1u64 << b;
    assert(r < p ==> (r | (c << b)) as int == (r as int + c as int * p as int)
        % 0x1_0000_0000_0000_0000int) by (bit_vector)
        requires b <= 63, p == 1u64 << b;
}

/// `wrapping_sub` followed by the mask is the forward distance.
proof fn lemma_masked_distance(raw: u64, prev: u64, bits: u8)
    requires
        1 <= bits <= 63,
        (raw as nat) < period(bits),
        (prev as nat) < period(bits),
    ensures
        (raw.wrapping_sub(prev) & (((1u64 << bits) - 1) as u64)) as nat == forward_distance(prev, raw, bits),
{
    lemma_period_facts(bits);
    let p: u64 = 1u64 << bits;
    let w = raw.wrapping_sub(prev);
    assert(w == if raw >= prev { (raw - prev) as u64 } else { (raw as int - prev as int
        + 0x1_0000_0000_0000_0000int) as u64 });
    assert(raw < p && prev < p && p == 1u64 << bits ==> (if raw >= prev { (raw - prev) as u64 }
        else { (raw as int - prev as int + 0x1_0000_0000_0000_0000int) as u64 })
        & ((p - 1) as u64) == if raw >= prev { (raw - prev) as u64 } else {
        (raw as int + p as int - prev as int) as u64 }) by (bit_vector)
        requires bits <= 63;
}

impl RolloverTracker {
    #[verifier::type_invariant]
    spec fn inv(self) -> bool {
        &&& self@.wf()
        &&& self.mask as nat == low_bits_mask(self.bits as nat)
    }

    /// A copy with the same state.
    pub fn clone(&self) -> (t: Self)
        ensures
            t@ == self@,
            self@.wf(),
    {
        proof {
            use_type_invariant(self);
        }
        RolloverTracker {
            mask: self.mask,
            bits: self.bits,
            prev_raw: self.prev_raw,
            rollover_count: self.rollover_count,
        }
    }

    /// Create a fresh tracker for a `bits`-wide counter (`bits` in `[2, 63]`).
    pub fn new(bits: u8) -> (t: Self)
        requires
            2 <= bits <= 63,
        ensures
            t@ == RolloverState::fresh(bits),
    {
        proof {
            lemma_period_facts(bits);
        }
        RolloverTracker { mask: (1u64 << bits) - 1, bits, prev_raw: None, rollover_count: 0 }
    }

    /// Number of bits in the raw counter.
    pub fn bits(&self) -> (b: u8)
        ensures
            b == self@.bits,
    {
        self.bits
    }

    /// Number of wraps observed since construction or reset.
    pub fn rollover_count(&self) -> (c: u64)
        ensures
            c == self@.rollover_count,
    {
        self.rollover_count
    }

    /// Extend a raw counter reading to a 64-bit tick. Upper bits above
    /// `bits` are masked off. A late arrival before any rollover is refused
    /// with `Underflow`; a late arrival after one is mapped into the previous
    /// epoch without changing the state.
    pub fn extend(&mut self, raw_tick: u64) -> (r: Result<u64, RolloverError>)
        requires
            old(self)@.rollover_count < u64::MAX || !old(self)@.wraps_on(raw_tick),
        ensures
            (r, final(self)@) == spec_extend(old(self)@, raw_tick),
            final(self)@.wf(),
    {
        proof {
            use_type_invariant(&*self);
            lemma_period_facts(self.bits);
            lemma_u64_low_bits_mask_is_mod(raw_tick, self.bits as nat);
        }
        let raw = raw_tick & self.mask;
        let prev_raw = match self.prev_raw {
            None => {
                self.prev_raw = Some(raw);
                return Ok(raw);
            },
            Some(p) => p,
        };
        let diff = raw.wrapping_sub(prev_raw) & self.mask;
        let half_period = 1u64 << (self.bits - 1);
        proof {
            lemma_masked_distance(raw, prev_raw, self.bits);
        }
        if diff > half_period {
            if self.rollover_count == 0 {
                return Err(RolloverError::Underflow { raw });
            }
            proof {
                lemma_compose(raw, (self.rollover_count - 1) as u64, self.bits);
            }
            Ok(raw | ((self.rollover_count - 1) << self.bits))
        } else {
            if raw < prev_raw {
                self.rollover_count = self.rollover_count + 1;
            }
            self.prev_raw = Some(raw);
            proof {
                lemma_compose(raw, self.rollover_count, self.bits);
            }
            Ok(raw | (self.rollover_count << self.bits))
        }
    }

    /// Reset for a new run: forget the previous value and the wrap count.
    pub fn reset(&mut self)
        ensures
            final(self)@ == RolloverState::fresh(old(self)@.bits),
    {
        proof {
            use_type_invariant(&*self);
        }
        self.prev_raw = None;
        self.rollover_count = 0;
    }

    /// Reconstruct a narrower same-clock sub-counter (`sub_bits` wide, at most
    /// `bits`) against the already-extended value of the wider counter.
    pub fn reconstruct_subcounter(&self, extended: u64, sub_raw: u64, sub_bits: u8) -> (r: u64)
        requires
            2 <= sub_bits <= self@.bits,
        ensures
            r == spec_reconstruct_subcounter(extended, sub_raw, sub_bits),
    {
        proof {
            use_type_invariant(self);
            lemma_period_facts(sub_bits);
            lemma_u64_low_bits_mask_is_mod(sub_raw, sub_bits as nat);
            lemma_u64_low_bits_mask_is_mod(extended, sub_bits as nat);
        }
        let q: u64 = 1u64 << sub_bits;
        let sub_mask = q - 1;
        let sub = sub_raw & sub_mask;
        let hi = extended & !sub_mask;
        proof {
            assert(sub_mask == (q - 1) as u64);
            assert(q == 1u64 << sub_bits ==> (extended & !((q - 1) as u64)) as int == extended
                as int - (extended & ((q - 1) as u64)) as int) by (bit_vector);
            assert(q == 1u64 << sub_bits && sub_bits <= 63 ==> ((extended & !((q - 1) as u64)) | (
            sub_raw & ((q - 1) as u64))) as int == (extended & !((q - 1) as u64)) as int + (sub_raw
                & ((q - 1) as u64)) as int) by (bit_vector);
            assert(sub_mask as nat == low_bits_mask(sub_bits as nat));
            assert(q as nat == pow2(sub_bits as nat));
            assert(sub == sub_raw % q);
            assert((extended & sub_mask) == extended % q);
            assert(hi as nat == extended as nat - extended as nat % q as nat);
        }
        let candidate = hi | sub;
        proof {
            assert(candidate as nat == extended as nat - extended as nat % (q as nat) + sub_raw
                as nat % (q as nat));
        }
        if candidate > extended {
            let r = candidate.wrapping_sub(q);
            proof {
                assert(r as nat == (candidate as nat + tick_modulus() - q as nat) % (
                tick_modulus() as int)) by {
                    if candidate >= q {
                        vstd::arithmetic::div_mod::lemma_mod_add_multiples_vanish(
                            (candidate - q) as int,
                            tick_modulus() as int,
                        );
                        vstd::arithmetic::div_mod::lemma_small_mod(
                            (candidate - q) as nat,
                            tick_modulus(),
                        );
                    } else {
                        vstd::arithmetic::div_mod::lemma_small_mod(
                            (candidate + tick_modulus() - q) as nat,
                            tick_modulus(),
                        );
                    }
                }
            }
            r
        } else {
            candidate
        }
    }
}

// ---------------------------------------------------------------------------
// Laws
// ---------------------------------------------------------------------------

/// The low `bits` bits of every tick `extend` returns are the masked input.
pub proof fn law_extend_preserves_low_bits(s: RolloverState, raw_tick: u64)
    requires
        s.wf(),
    ensures
        spec_extend(s, raw_tick).0 matches Ok(r) ==> r as nat % period(s.bits) == raw_tick as nat
            % period(s.bits),
{
    lemma_period_facts(s.bits);
    let p = period(s.bits);
    let raw = (raw_tick as nat % p) as u64;
    assert forall|c: u64| #[trigger] tick(raw, c, s.bits) as nat % p == raw as nat by {
        lemma_tick_mod(raw, c, s.bits);
    }
    vstd::arithmetic::div_mod::lemma_mod_twice(raw_tick as int, p as int);
}

proof fn lemma_tick_mod(raw: u64, c: u64, bits: u8)
    requires
        1 <= bits <= 63,
        (raw as nat) < period(bits),
    ensures
        tick(raw, c, bits) as nat % period(bits) == raw as nat,
{
    lemma_period_facts(bits);
    let p = period(bits) as int;
    let m = tick_modulus() as int;
    let x = raw as int + c as int * p;
    // tick = x % m and p divides m, so tick % p == x % p == raw.
    let k = m / p;
    vstd::arithmetic::div_mod::lemma_fundamental_div_mod(m, p);
    assert(m == p * k);
    assert(k > 0) by (nonlinear_arith)
        requires
            m == p * k,
            m > 0,
            p > 0,
    ;
    vstd::arithmetic::div_mod::lemma_mod_mod(x, p, k);
    vstd::arithmetic::mul::lemma_mul_is_commutative(p, k);
    vstd::arithmetic::div_mod::lemma_mod_multiples_vanish(c as int, raw as int, p);
    vstd::arithmetic::mul::lemma_mul_is_commutative(c as int, p);
    vstd::arithmetic::div_mod::lemma_small_mod(raw as nat, p as nat);
}

/// One `extend` changes the wrap count by at most one and keeps the width
/// and the state invariant.
pub proof fn lemma_extend_step(s: RolloverState, raw_tick: u64)
    requires
        s.wf(),
        s.rollover_count < u64::MAX,
    ensures
        spec_extend(s, raw_tick).1.rollover_count <= s.rollover_count + 1,
        spec_extend(s, raw_tick).1.bits == s.bits,
        spec_extend(s, raw_tick).1.wf(),
        spec_extend(s, raw_tick).1.rollover_count == s.rollover_count || s.wraps_on(raw_tick),
{
    lemma_period_facts(s.bits);
}

/// A forward step (distance at most half a period) advances the extended
/// tick by exactly the forward distance, so the result never goes backwards
/// and becomes the new reference; no 64-bit overflow assumed.
pub proof fn law_forward_step_advances(s: RolloverState, raw_tick: u64)
    requires
        s.wf(),
        s.prev_raw is Some,
        forward_distance(
            s.prev_raw->0,
            (raw_tick as nat % period(s.bits)) as u64,
            s.bits,
        ) <= period(s.bits) / 2,
        s.last_extended() + period(s.bits) < tick_modulus(),
    ensures
        ({
            let (r, t) = spec_extend(s, raw_tick);
            &&& r matches Ok(v)
            &&& v as nat == s.last_extended() + forward_distance(
                s.prev_raw->0,
                (raw_tick as nat % period(s.bits)) as u64,
                s.bits,
            )
            &&& v as nat >= s.last_extended()
            &&& t.last_extended() == v as nat
            &&& t.wf()
        }),
{
    lemma_period_facts(s.bits);
    let p = period(s.bits);
    let prev = s.prev_raw->0;
    let raw = (raw_tick as nat % p) as u64;
    let c = s.rollover_count as nat;
    let count: nat = if raw < prev { c + 1 } else { c };
    let x = raw as nat + count * p;
    assert((c + 1) * p == c * p + p) by (nonlinear_arith);
    assert(c * p >= c) by (nonlinear_arith)
        requires
            p >= 1,
    ;
    assert(c + 1 <= u64::MAX);
    assert(raw as nat == raw_tick as nat % p);
    assert(x == s.last_extended() + forward_distance(prev, raw, s.bits));
    vstd::arithmetic::div_mod::lemma_small_mod(x, tick_modulus());
    assert(tick(raw, count as u64, s.bits) as nat == x);
    let (r, t) = spec_extend(s, raw_tick);
    assert(r == Ok::<u64, RolloverError>(tick(raw, count as u64, s.bits)));
    assert(t.prev_raw == Some(raw) && t.rollover_count as nat == count);
}

/// After construction or reset, the first `extend` always succeeds and
/// returns the masked input.
pub proof fn law_fresh_extend_returns_masked(bits: u8, raw_tick: u64)
    requires
        2 <= bits <= 63,
    ensures
        spec_extend(RolloverState::fresh(bits), raw_tick).0 == Ok::<u64, RolloverError>(
            (raw_tick as nat % period(bits)) as u64,
        ),
{
}

/// A late arrival (distance more than half a period) never changes the state.
pub proof fn law_late_arrival_keeps_state(s: RolloverState, raw_tick: u64)
    requires
        s.wf(),
        s.prev_raw is Some,
        forward_distance(
            s.prev_raw->0,
            (raw_tick as nat % period(s.bits)) as u64,
            s.bits,
        ) > period(s.bits) / 2,
    ensures
        spec_extend(s, raw_tick).1 == s,
{
}

/// A late arrival after at least one wrap is placed in the epoch before
/// the current one: its tick is the masked reading plus `rollover_count - 1`
/// periods, it lies before the last extended tick by less than one and a
/// half periods, and by exactly the distance from it to the last reading
/// when that reading wrapped past it.
pub proof fn law_late_arrival_in_previous_epoch(s: RolloverState, raw_tick: u64)
    requires
        s.wf(),
        s.prev_raw is Some,
        s.rollover_count >= 1,
        forward_distance(s.prev_raw->0, (raw_tick as nat % period(s.bits)) as u64, s.bits)
            > period(s.bits) / 2,
        s.last_extended() < tick_modulus(),
    ensures
        ({
            let p = period(s.bits);
            let raw = raw_tick as nat % p;
            let prev = s.prev_raw->0 as nat;
            let last = s.last_extended();
            &&& spec_extend(s, raw_tick).0 matches Ok(v) && {
                &&& (v as nat) == raw + (s.rollover_count - 1) * p
                &&& (v as nat) % p == raw
                &&& (v as nat) < last
                &&& last < (v as nat) + p + p / 2
                &&& raw > prev ==> last == (v as nat) + (prev + p - raw)
            }
            &&& spec_extend(s, raw_tick).1 == s
        }),
{
    lemma_period_facts(s.bits);
    let p = period(s.bits);
    let rawn = raw_tick as nat % p;
    let raw = rawn as u64;
    let prev = s.prev_raw->0;
    let c = s.rollover_count as nat;
    vstd::arithmetic::div_mod::lemma_mod_bound(raw_tick as int, p as int);
    let x: nat = (rawn + (c - 1) * p) as nat;
    assert(c * p == (c - 1) * p + p) by (nonlinear_arith)
        requires
            c >= 1,
    ;
    assert(s.last_extended() == prev as nat + c * p);
    assert(x < tick_modulus());
    vstd::arithmetic::div_mod::lemma_small_mod(x, tick_modulus());
    assert(tick(raw, (s.rollover_count - 1) as u64, s.bits) as nat == x);
    vstd::arithmetic::div_mod::lemma_mod_multiples_vanish((c - 1) as int, rawn as int, p as int);
    vstd::arithmetic::mul::lemma_mul_is_commutative((c - 1) as int, p as int);
    vstd::arithmetic::div_mod::lemma_small_mod(rawn, p);
}

/// A reconstructed sub-counter keeps the low `sub_bits` bits of `sub_raw`
/// and never lies after `extended`, except when `extended` itself is below
/// one sub-period and the raw sub-counter is ahead of it (then the step back
/// wraps below zero).
pub proof fn law_subcounter_not_after_extended(extended: u64, sub_raw: u64, sub_bits: u8)
    requires
        2 <= sub_bits <= 63,
        extended as nat >= pow2(sub_bits as nat) || sub_raw as nat % pow2(sub_bits as nat)
            <= extended as nat % pow2(sub_bits as nat),
    ensures
        spec_reconstruct_subcounter(extended, sub_raw, sub_bits) <= extended,
        spec_reconstruct_subcounter(extended, sub_raw, sub_bits) as nat % pow2(sub_bits as nat)
            == sub_raw as nat % pow2(sub_bits as nat),
{
    lemma_period_facts(sub_bits);
    let q = pow2(sub_bits as nat) as int;
    let e = extended as int;
    let lo = e % q;
    let s = sub_raw as int % q;
    let hi = e - lo;
    vstd::arithmetic::div_mod::lemma_fundamental_div_mod(e, q);
    let k = e / q;
    assert(hi == q * k);
    vstd::arithmetic::mul::lemma_mul_is_commutative(q, k);
    vstd::arithmetic::div_mod::lemma_mod_multiples_vanish(k, s, q);
    vstd::arithmetic::div_mod::lemma_small_mod(s as nat, q as nat);
    let candidate = hi + s;
    if candidate > e {
        // candidate - q is still a multiple of q plus s, and is below e.
        assert(k >= 1) by (nonlinear_arith)
            requires
                e >= q || s <= lo,
                candidate > e,
                candidate == hi + s,
                hi == q * k,
                e == q * k + lo,
                0 <= lo < q,
                q > 0,
        ;
        assert(candidate - q >= 0) by (nonlinear_arith)
            requires
                k >= 1,
                hi == q * k,
                candidate == hi + s,
                s >= 0,
                q > 0,
        ;
        vstd::arithmetic::div_mod::lemma_mod_add_multiples_vanish(candidate - q,
            tick_modulus() as int);
        vstd::arithmetic::div_mod::lemma_small_mod((candidate - q) as nat, tick_modulus());
        vstd::arithmetic::div_mod::lemma_mod_multiples_vanish(k - 1, s, q);
        assert(q * (k - 1) == q * k - q) by (nonlinear_arith);
        vstd::arithmetic::mul::lemma_mul_is_commutative(q, k - 1);
    }
}

/// Results and final state of extending by each of `raws` in turn.
pub open spec fn extend_all(s: RolloverState, raws: Seq<u64>) -> (
    Seq<Result<u64, RolloverError>>,
    RolloverState,
)
    decreases raws.len(),
{
    if raws.len() == 0 {
        (Seq::empty(), s)
    } else {
        let (rs, t) = extend_all(s, raws.drop_last());
        let (r, u) = spec_extend(t, raws.last());
        (rs.push(r), u)
    }
}

/// Step `i` of absolute ticks `a` moves forward by at most half a period.
pub open spec fn safe_forward_step(a: Seq<nat>, i: int, bits: u8) -> bool {
    a[i] <= a[i + 1] <= a[i] + period(bits) / 2
}

/// The raw counter readings of absolute ticks `a`.
pub open spec fn raw_readings(a: Seq<nat>, bits: u8) -> Seq<u64> {
    Seq::new(a.len(), |i: int| (a[i] % period(bits)) as u64)
}

/// For readings of a counter that moves forward by at most half a period
/// between readings, the forward distance of the readings is the advance.
proof fn lemma_forward_distance_of_advance(x: nat, d: nat, bits: u8)
    requires
        1 <= bits <= 63,
        d <= period(bits) / 2,
    ensures
        forward_distance((x % period(bits)) as u64, ((x + d) % period(bits)) as u64, bits) == d,
{
    lemma_period_facts(bits);
    let p = period(bits) as int;
    let r = x as int % p;
    vstd::arithmetic::div_mod::lemma_add_mod_noop(x as int, d as int, p);
    vstd::arithmetic::div_mod::lemma_small_mod(d, p as nat);
    if r + d < p {
        vstd::arithmetic::div_mod::lemma_small_mod((r + d) as nat, p as nat);
    } else {
        vstd::arithmetic::div_mod::lemma_mod_sub_multiples_vanish(r + d, p);
        vstd::arithmetic::div_mod::lemma_small_mod((r + d - p) as nat, p as nat);
    }
}

/// A forward step of at most half a period whose result fits in 64 bits
/// returns exactly the previous extended tick plus the distance.
proof fn lemma_forward_step_exact(s: RolloverState, raw_tick: u64)
    requires
        s.wf(),
        s.prev_raw is Some,
        forward_distance(s.prev_raw->0, (raw_tick as nat % period(s.bits)) as u64, s.bits)
            <= period(s.bits) / 2,
        s.last_extended() + forward_distance(
            s.prev_raw->0,
            (raw_tick as nat % period(s.bits)) as u64,
            s.bits,
        ) < tick_modulus(),
    ensures
        ({
            let (r, t) = spec_extend(s, raw_tick);
            let v = s.last_extended() + forward_distance(
                s.prev_raw->0,
                (raw_tick as nat % period(s.bits)) as u64,
                s.bits,
            );
            &&& r == Ok::<u64, RolloverError>(v as u64)
            &&& t.last_extended() == v
            &&& t.bits == s.bits
            &&& t.prev_raw == Some((raw_tick as nat % period(s.bits)) as u64)
            &&& t.wf()
        }),
{
    lemma_period_facts(s.bits);
    let p = period(s.bits);
    let prev = s.prev_raw->0;
    let raw = (raw_tick as nat % p) as u64;
    let c = s.rollover_count as nat;
    let count: nat = if raw < prev { c + 1 } else { c };
    let x = raw as nat + count * p;
    assert((c + 1) * p == c * p + p) by (nonlinear_arith);
    assert(x == s.last_extended() + forward_distance(prev, raw, s.bits));
    assert(count * p >= count) by (nonlinear_arith)
        requires
            p >= 1,
    ;
    assert(count <= u64::MAX);
    vstd::arithmetic::div_mod::lemma_small_mod(x, tick_modulus());
    assert(tick(raw, count as u64, s.bits) as nat == x);
}

/// After the first `k` readings of a safe forward sequence, every result
/// so far is the first masked reading plus the advance, and the tracker
/// holds the last of them.
proof fn lemma_forward_prefix(bits: u8, a: Seq<nat>, k: int)
    requires
        2 <= bits <= 63,
        1 <= k <= a.len(),
        forall|i: int, j: int| 0 <= i <= j < a.len() ==> a[i] <= a[j],
        forall|i: int| 0 <= i < a.len() - 1 ==> #[trigger] safe_forward_step(a, i, bits),
        a.last() - a[0] + a[0] % period(bits) < tick_modulus(),
    ensures
        ({
            let (rs, t) = extend_all(RolloverState::fresh(bits), raw_readings(a, bits).take(k));
            &&& rs.len() == k
            &&& forall|i: int|
                0 <= i < k ==> #[trigger] rs[i] == Ok::<u64, RolloverError>(
                    (a[0] % period(bits) + (a[i] - a[0])) as u64,
                )
            &&& t.wf()
            &&& t.bits == bits
            &&& t.prev_raw == Some((a[k - 1] % period(bits)) as u64)
            &&& t.last_extended() == a[0] % period(bits) + (a[k - 1] - a[0])
        }),
    decreases k,
{
    let raws = raw_readings(a, bits);
    let p = period(bits);
    lemma_period_facts(bits);
    if k == 1 {
        let fresh = RolloverState::fresh(bits);
        assert(raws.take(1).drop_last() =~= Seq::<u64>::empty());
        assert(extend_all(fresh, raws.take(1).drop_last()) == (Seq::<Result<u64, RolloverError>>::empty(), fresh));
        assert(raws.take(1).last() == raws[0]);
        vstd::arithmetic::div_mod::lemma_mod_bound(a[0] as int, p as int);
        vstd::arithmetic::div_mod::lemma_small_mod(raws[0] as nat, p);
        let (rs, t) = extend_all(fresh, raws.take(1));
        assert(rs =~= seq![Ok::<u64, RolloverError>(raws[0])]);
        assert(t.prev_raw == Some(raws[0]) && t.rollover_count == 0 && t.bits == bits);
    } else {
        lemma_forward_prefix(bits, a, k - 1);
        assert(raws.take(k).drop_last() =~= raws.take(k - 1));
        let (rs0, t0) = extend_all(RolloverState::fresh(bits), raws.take(k - 1));
        let d = (a[k - 1] - a[k - 2]) as nat;
        assert(safe_forward_step(a, k - 2, bits));
        assert(a[k - 1] == a[k - 2] + d);
        lemma_forward_distance_of_advance(a[k - 2], d, bits);
        let raw_tick = raws.take(k).last();
        assert(raw_tick == (a[k - 1] % p) as u64);
        vstd::arithmetic::div_mod::lemma_mod_bound(a[k - 1] as int, p as int);
        vstd::arithmetic::div_mod::lemma_small_mod(raw_tick as nat, p);
        assert(a[k - 1] <= a.last());
        lemma_forward_step_exact(t0, raw_tick);
    }
}

/// Readings of a counter that moves forward by at most half a period
/// between readings, from a fresh tracker, all extend successfully (no
/// underflow) to the first masked reading plus the absolute advance, so
/// the extended ticks are non-decreasing, as long as they fit in 64 bits.
pub proof fn law_forward_sequence_extends_exactly(bits: u8, a: Seq<nat>)
    requires
        2 <= bits <= 63,
        a.len() >= 1,
        forall|i: int, j: int| 0 <= i <= j < a.len() ==> a[i] <= a[j],
        forall|i: int| 0 <= i < a.len() - 1 ==> #[trigger] safe_forward_step(a, i, bits),
        a.last() - a[0] + a[0] % period(bits) < tick_modulus(),
    ensures
        ({
            let rs = extend_all(RolloverState::fresh(bits), raw_readings(a, bits)).0;
            &&& rs.len() == a.len()
            &&& forall|i: int|
                0 <= i < a.len() ==> #[trigger] rs[i] == Ok::<u64, RolloverError>(
                    (a[0] % period(bits) + (a[i] - a[0])) as u64,
                )
            &&& forall|i: int, j: int|
                0 <= i <= j < a.len() ==> (rs[i]->Ok_0) <= (rs[j]->Ok_0)
        }),
{
    lemma_forward_prefix(bits, a, a.len() as int);
    assert(raw_readings(a, bits).take(a.len() as int) =~= raw_readings(a, bits));
    let rs = extend_all(RolloverState::fresh(bits), raw_readings(a, bits)).0;
    assert forall|i: int, j: int| 0 <= i <= j < a.len() implies (rs[i]->Ok_0) <= (rs[j]->Ok_0) by {
        assert(rs[i] == Ok::<u64, RolloverError>((a[0] % period(bits) + (a[i] - a[0])) as u64));
        assert(rs[j] == Ok::<u64, RolloverError>((a[0] % period(bits) + (a[j] - a[0])) as u64));
        assert(a[i] <= a[j] && a[j] <= a.last());
    }
}

} // verus!
