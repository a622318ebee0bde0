//! The AIMD controller: a pure state machine that computes the current
//! concurrency limit from success/failure feedback.
//!
//! On success the limit grows by a fixed additive step; on failure it
//! shrinks by a multiplicative factor strictly between 0 and 1, written as
//! the fraction `dec_num / dec_den` so that the arithmetic stays exact.
//! The result of either update is clamped to `[min, max]`.

use vstd::arithmetic::div_mod::{
    lemma_div_is_ordered, lemma_div_pos_is_pos, lemma_fundamental_div_mod,
    lemma_fundamental_div_mod_converse_div, lemma_mod_bound,
};
use vstd::prelude::*;

verus! {

/// Configuration of the controller, fixed at construction.
///
/// The multiplicative decrease factor is the fraction
/// `dec_num / dec_den`; a factor of one half is `1 / 2`.
#[derive(Clone, Copy, Debug)]
pub struct AimdConfig {
    /// Lower bound of the limit; at least 1.
    pub min: u64,
    /// Upper bound of the limit; at least `min`.
    pub max: u64,
    /// Additive step applied on success; at least 1.
    pub inc: u64,
    /// Numerator of the decrease factor; at least 1.
    pub dec_num: u64,
    /// Denominator of the decrease factor; greater than `dec_num`,
    /// so the factor lies strictly between 0 and 1.
    pub dec_den: u64,
}

/// Why a configuration was rejected at construction.
#[derive(Clone, Copy, Debug, PartialEq, Eq, Structural)]
pub enum ConfigError {
    /// `min` is zero.
    MinZero,
    /// `max` is below `min`.
    MaxBelowMin,
    /// `inc` is zero.
    IncrementZero,
    /// `dec_num / dec_den` does not lie strictly between 0 and 1.
    MultiplierOutOfRange,
}

impl AimdConfig {
    /// A valid configuration: positive bounds in order, a positive step,
    /// and a decrease factor strictly between 0 and 1.
    pub open spec fn wf(self) -> bool {
        &&& 1 <= self.min
        &&& self.min <= self.max
        &&& 1 <= self.inc
        &&& 1 <= self.dec_num
        &&& self.dec_num < self.dec_den
    }

    /// Checks the fields in order and returns the first violation.
    pub fn validate(&self) -> (r: Result<(), ConfigError>)
        ensures
            r is Ok <==> self.wf(),
            !self.wf() ==> r == Err::<(), ConfigError>(config_error_spec(*self)),
    {
        if self.min < 1 {
            Err(ConfigError::MinZero)
        } else if self.max < self.min {
            Err(ConfigError::MaxBelowMin)
        } else if self.inc < 1 {
            Err(ConfigError::IncrementZero)
        } else if self.dec_num < 1 || self.dec_num >= self.dec_den {
            Err(ConfigError::MultiplierOutOfRange)
        } else {
            Ok(())
        }
    }
}

/// The error that `validate` reports for an invalid configuration:
/// the first check, in field order, that fails.
pub open spec fn config_error_spec(c: AimdConfig) -> ConfigError {
    if c.min < 1 {
        ConfigError::MinZero
    } else if c.max < c.min {
        ConfigError::MaxBelowMin
    } else if c.inc < 1 {
        ConfigError::IncrementZero
    } else {
        ConfigError::MultiplierOutOfRange
    }
}

/// `v` forced into `[lo, hi]`.
pub open spec fn clamp_spec(v: int, lo: int, hi: int) -> int {
    if v < lo {
        lo
    } else if v > hi {
        hi
    } else {
        v
    }
}

/// `v * num / den`, rounded half up: the whole quotient, plus one when the
/// remainder is at least half the divisor. Written over doubled operands so
/// that a single integer division expresses the rounding.
pub open spec fn round_half_up_mul(v: int, num: int, den: int) -> int {
    (2 * v * num + den) / (2 * den)
}

/// The limit after a success: one additive step up, clamped to the bounds.
pub open spec fn success_limit(limit: int, c: AimdConfig) -> int {
    clamp_spec(limit + c.inc, c.min as int, c.max as int)
}

/// The limit after a failure: scaled by the decrease factor with
/// round-half-up, clamped to the bounds.
pub open spec fn failure_limit(limit: int, c: AimdConfig) -> int {
    clamp_spec(
        round_half_up_mul(limit, c.dec_num as int, c.dec_den as int),
        c.min as int,
        c.max as int,
    )
}

/// Scaling down by a factor strictly below one, with round-half-up,
/// never increases a nonnegative value and never goes below zero.
pub proof fn lemma_round_le(v: int, num: int, den: int)
    requires
        0 <= v,
        1 <= num,
        num < den,
    ensures
        0 <= round_half_up_mul(v, num, den),
        round_half_up_mul(v, num, den) <= v,
{
    let x = 2 * v * num + den;
    let d = 2 * den;
    assert(0 <= x) by (nonlinear_arith)
        requires
            0 <= v,
            1 <= num,
            num < den,
            x == 2 * v * num + den,
    ;
    lemma_div_pos_is_pos(x, d);
    assert(x <= (v + 1) * d - 1) by (nonlinear_arith)
        requires
            0 <= v,
            1 <= num,
            num < den,
            x == 2 * v * num + den,
            d == 2 * den,
    ;
    lemma_div_is_ordered(x, (v + 1) * d - 1, d);
    assert((v + 1) * d - 1 == v * d + (d - 1)) by (nonlinear_arith);
    lemma_fundamental_div_mod_converse_div((v + 1) * d - 1, d, v, d - 1);
}

/// From a whole quotient and remainder of `x / den`, the rounded-half-up
/// quotient written over doubled operands.
proof fn lemma_round_from_div_mod(x: int, den: int, q: int, r: int)
    requires
        1 <= den,
        0 <= x,
        q == x / den,
        r == x % den,
    ensures
        (if 2 * r >= den {
            q + 1
        } else {
            q
        }) == (2 * x + den) / (2 * den),
{
    lemma_fundamental_div_mod(x, den);
    lemma_mod_bound(x, den);
    if 2 * r >= den {
        assert(2 * x + den == (q + 1) * (2 * den) + (2 * r - den)) by (nonlinear_arith)
            requires
                x == den * q + r,
        ;
        lemma_fundamental_div_mod_converse_div(2 * x + den, 2 * den, q + 1, 2 * r - den);
    } else {
        assert(2 * x + den == q * (2 * den) + (2 * r + den)) by (nonlinear_arith)
            requires
                x == den * q + r,
        ;
        lemma_fundamental_div_mod_converse_div(2 * x + den, 2 * den, q, 2 * r + den);
    }
}

/// At the upper bound, a success leaves the limit exactly there:
/// repeated successes saturate at `max`.
pub proof fn lemma_success_at_max(c: AimdConfig)
    requires
        c.wf(),
    ensures
        success_limit(c.max as int, c) == c.max as int,
{
}

/// At the lower bound, a failure leaves the limit exactly there:
/// repeated failures never overshoot below `min`.
pub proof fn lemma_failure_at_min(c: AimdConfig)
    requires
        c.wf(),
    ensures
        failure_limit(c.min as int, c) == c.min as int,
{
    lemma_round_le(c.min as int, c.dec_num as int, c.dec_den as int);
}

/// A success never decreases the limit, a failure never increases it, and
/// both land inside `[min, max]` whenever the old limit was inside.
pub proof fn lemma_aimd_monotone(limit: int, c: AimdConfig)
    requires
        c.wf(),
        c.min <= limit <= c.max,
    ensures
        limit <= success_limit(limit, c) <= c.max as int,
        c.min as int <= failure_limit(limit, c) <= limit,
{
    lemma_round_le(limit, c.dec_num as int, c.dec_den as int);
}

/// Mathematical image of an [`Aimd`] controller.
pub ghost struct AimdView {
    /// The current limit.
    pub limit: int,
    /// The configuration the controller was built with.
    pub config: AimdConfig,
}

/// The AIMD controller state: the current limit and the fixed
/// configuration. All operations are O(1) and non-blocking; the caller
/// serializes access.
#[derive(Debug)]
pub struct Aimd {
    limit: u64,
    config: AimdConfig,
}

impl View for Aimd {
    type V = AimdView;

    closed spec fn view(&self) -> AimdView {
        AimdView { limit: self.limit as int, config: self.config }
    }
}

impl Aimd {
    /// The controller is well formed: a valid configuration, and a limit
    /// inside `[min, max]`.
    pub open spec fn wf(&self) -> bool {
        &&& self@.config.wf()
        &&& self@.config.min as int <= self@.limit <= self@.config.max as int
    }

    /// A fresh controller starts at the upper bound.
    pub fn new(config: AimdConfig) -> (r: Self)
        requires
            config.wf(),
        ensures
            r.wf(),
            r@.config == config,
            r@.limit == config.max as int,
    {
        Aimd { limit: config.max, config }
    }

    /// Additive increase: `limit := clamp(limit + inc, min, max)`.
    /// Never decreases the limit.
    pub fn success(&mut self)
        requires
            old(self).wf(),
        ensures
            final(self).wf(),
            final(self)@.config == old(self)@.config,
            final(self)@.limit == success_limit(old(self)@.limit, old(self)@.config),
            final(self)@.limit >= old(self)@.limit,
    {
        let room: u64 = self.config.max - self.limit;
        if self.config.inc >= room {
            self.limit = self.config.max;
        } else {
            self.limit = self.limit + self.config.inc;
        }
    }

    /// Multiplicative decrease:
    /// `limit := clamp(round(limit * dec_num / dec_den), min, max)`,
    /// rounding half up. Never increases the limit.
    pub fn failure(&mut self)
        requires
            old(self).wf(),
        ensures
            final(self).wf(),
            final(self)@.config == old(self)@.config,
            final(self)@.limit == failure_limit(old(self)@.limit, old(self)@.config),
            final(self)@.limit <= old(self)@.limit,
    {
        let num: u64 = self.config.dec_num;
        let den: u64 = self.config.dec_den;
        let ghost l: int = self.limit as int;
        proof {
            assert(l * num <= u64::MAX * u64::MAX) by (nonlinear_arith)
                requires
                    0 <= l <= u64::MAX,
                    0 <= num <= u64::MAX,
            ;
        }
        let x: u128 = (self.limit as u128) * (num as u128);
        let q: u128 = x / (den as u128);
        let rem: u128 = x % (den as u128);
        proof {
            lemma_div_is_ordered(x as int, u64::MAX * u64::MAX, den as int);
            lemma_div_pos_is_pos(x as int, den as int);
            lemma_round_from_div_mod(x as int, den as int, q as int, rem as int);
            lemma_mod_bound(x as int, den as int);
            assert(2 * l * (num as int) == 2 * (l * num)) by (nonlinear_arith);
            lemma_round_le(l, num as int, den as int);
            lemma_fundamental_div_mod(x as int, den as int);
        }
        let rounded: u128 = if 2 * rem >= den as u128 {
            q + 1
        } else {
            q
        };
        assert(rounded == round_half_up_mul(l, num as int, den as int));
        assert(rounded <= l);
        let scaled: u64 = rounded as u64;
        if scaled < self.config.min {
            self.limit = self.config.min;
        } else {
            self.limit = scaled;
        }
    }

    /// The current limit.
    pub fn limit(&self) -> (r: u64)
        ensures
            r as int == self@.limit,
    {
        self.limit
    }
}

} // verus!
