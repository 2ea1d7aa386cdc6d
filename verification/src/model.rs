//! Ghost model of the engine: a tagged state, one total transition function
//! `step`, and the arithmetic lemmas that bound every quantity the executable
//! code computes.
//!
//! All prices are integers in caller-chosen units; smoothed averages and RSI
//! values carry `SCALE` fixed-point sub-units. The RSI of averages `g` and `l`
//! is `100·g/(g+l)`, the division-free rendering of `100 − 100/(1 + g/l)`.

use vstd::arithmetic::div_mod::{
    lemma_div_by_self, lemma_div_is_ordered, lemma_div_multiples_vanish, lemma_div_of0,
    lemma_div_pos_is_pos,
};
use vstd::arithmetic::mul::{
    lemma_mul_basics, lemma_mul_inequality, lemma_mul_is_associative, lemma_mul_is_commutative,
    lemma_mul_is_distributive_sub, lemma_mul_nonnegative,
};
use vstd::prelude::*;

verus! {

/// Fixed-point scale: smoothed averages and RSI values are integers counting
/// millionths.
pub const SCALE: u64 = 1_000_000;

/// Largest magnitude accepted for a price. A price outside
/// `[-PRICE_LIMIT, PRICE_LIMIT]` plays the role a non-finite price plays for
/// a floating-point feed: it is rejected with a warning and changes nothing.
pub const PRICE_LIMIT: i64 = 1_000_000_000_000;

/// Largest per-bar gain or loss in price units: the full swing between the
/// two ends of the accepted price range.
pub const DELTA_LIMIT: u64 = 2_000_000_000_000;

/// Bound on every smoothed average: `DELTA_LIMIT` times `SCALE`.
pub const AVG_LIMIT: u128 = 2_000_000_000_000_000_000;

/// The RSI value 100 in fixed-point representation.
pub const RSI_TOP: u64 = 100_000_000;

/// The smoothing baseline kept while a bar is open: the averages as of the
/// previous bar close. A revision of the open bar always recomputes from
/// these, never from the averages it itself produced.
#[verifier::ext_equal]
pub ghost struct BaselineV {
    pub avg_gain: u128,
    pub avg_loss: u128,
}

/// The phase of the engine: collecting the first `period` gain/loss samples,
/// or tracking with Wilder-smoothed averages.
#[verifier::ext_equal]
pub ghost enum PhaseV {
    Bootstrapping { gains: Seq<u64>, losses: Seq<u64> },
    Tracking { avg_gain: u128, avg_loss: u128, baseline: Option<BaselineV> },
}

/// The abstract state of the engine.
#[verifier::ext_equal]
pub ghost struct StateV {
    /// Smoothing window length; fixed at construction, always at least 2.
    pub period: usize,
    /// Timestamp of the currently open bar, absent before any data.
    pub last_timestamp: Option<i64>,
    /// Close of the currently open bar.
    pub last_close: Option<i64>,
    /// Close of the bar immediately before the open one; the baseline price a
    /// revision of the open bar recomputes its gain/loss from.
    pub price_before_last: Option<i64>,
    /// Number of distinct timestamps seen so far.
    pub bar_count: u128,
    /// Bootstrap or tracking data.
    pub phase: PhaseV,
}

pub open spec fn price_ok(p: i64) -> bool {
    -PRICE_LIMIT <= p <= PRICE_LIMIT
}

/// Positive part of the move from `prev` to `close`.
pub open spec fn gain_of(prev: i64, close: i64) -> int {
    if close >= prev {
        close - prev
    } else {
        0
    }
}

/// Positive part of the move from `close` down from `prev`.
pub open spec fn loss_of(prev: i64, close: i64) -> int {
    if prev >= close {
        prev - close
    } else {
        0
    }
}

/// Wilder smoothing: `(prev·(period−1) + sample) / period`, rounding down.
pub open spec fn wilder_next(period: int, prev: int, sample: int) -> int {
    (prev * (period - 1) + sample) / period
}

/// The loss average additionally pins the both-zero case to exactly zero, so
/// that a loss-free stream keeps the `avg_loss == 0` convention.
pub open spec fn wilder_loss_next(period: int, prev: int, sample: int) -> int {
    if prev == 0 && sample == 0 {
        0
    } else {
        wilder_next(period, prev, sample)
    }
}

/// Sum of a sequence of samples.
pub open spec fn seq_sum(s: Seq<u64>) -> int
    decreases s.len(),
{
    if s.len() == 0 {
        0
    } else {
        seq_sum(s.drop_last()) + s.last()
    }
}

/// Appending a sample adds it to the sum.
pub broadcast proof fn lemma_seq_sum_push(s: Seq<u64>, x: u64)
    ensures
        #[trigger] seq_sum(s.push(x)) == seq_sum(s) + x,
{
    assert(s.push(x).drop_last() =~= s);
    assert(s.push(x).last() == x);
}

/// Simple average of the bootstrap samples, brought to fixed point:
/// `(sum · SCALE) / period`, rounding down.
pub open spec fn bootstrap_avg(period: int, samples: Seq<u64>) -> int {
    seq_sum(samples) * SCALE / period
}

/// RSI of the averages, in fixed point: 100 when there are no losses (by
/// convention, avoiding the division by zero), else `100·g/(g+l)`.
pub open spec fn rsi_points(g: u128, l: u128) -> int {
    if l == 0 {
        RSI_TOP as int
    } else {
        RSI_TOP * g / (g + l)
    }
}

impl StateV {
    /// The RSI derivable from the state: absent until tracking.
    pub open spec fn rsi(self) -> Option<int> {
        match self.phase {
            PhaseV::Tracking { avg_gain, avg_loss, baseline: _ } => {
                Some(rsi_points(avg_gain, avg_loss))
            },
            PhaseV::Bootstrapping { .. } => None,
        }
    }

    /// Well-formedness: every reachable state satisfies this.
    pub open spec fn wf(self) -> bool {
        &&& 2 <= self.period
        &&& (self.last_timestamp is Some <==> self.bar_count >= 1)
        &&& (self.last_close is Some <==> self.bar_count >= 1)
        &&& (self.price_before_last is Some <==> self.bar_count >= 2)
        &&& (self.last_close matches Some(c) ==> price_ok(c))
        &&& (self.price_before_last matches Some(c) ==> price_ok(c))
        &&& (self.last_timestamp matches Some(t) ==> self.bar_count <= t - i64::MIN + 1)
        &&& match self.phase {
            PhaseV::Bootstrapping { gains, losses } => {
                &&& gains.len() == losses.len()
                &&& gains.len() == if self.bar_count == 0 {
                    0int
                } else {
                    self.bar_count - 1
                }
                &&& self.bar_count <= self.period
                &&& (forall|i: int| 0 <= i < gains.len() ==> #[trigger] gains[i] <= DELTA_LIMIT)
                &&& (forall|i: int| 0 <= i < losses.len() ==> #[trigger] losses[i] <= DELTA_LIMIT)
            },
            PhaseV::Tracking { avg_gain, avg_loss, baseline } => {
                &&& avg_gain <= AVG_LIMIT
                &&& avg_loss <= AVG_LIMIT
                &&& self.bar_count > self.period
                &&& (baseline matches Some(b) ==> b.avg_gain <= AVG_LIMIT && b.avg_loss
                    <= AVG_LIMIT)
            },
        }
    }
}

/// The state a freshly constructed engine is in.
pub open spec fn init_state(period: usize) -> StateV {
    StateV {
        period,
        last_timestamp: None,
        last_close: None,
        price_before_last: None,
        bar_count: 0,
        phase: PhaseV::Bootstrapping { gains: Seq::empty(), losses: Seq::empty() },
    }
}

/// Revision of the open bar with a new close.
pub open spec fn step_revision(pre: StateV, close: i64) -> StateV {
    match pre.price_before_last {
        None => StateV { last_close: Some(close), ..pre },
        Some(pbl) => {
            let gain: int = gain_of(pbl, close);
            let loss: int = loss_of(pbl, close);
            match pre.phase {
                PhaseV::Bootstrapping { gains, losses } => {
                    if gains.len() == 0 {
                        // Unreachable from a well-formed state: a baseline
                        // price implies at least one collected sample.
                        StateV { last_close: Some(close), ..pre }
                    } else {
                        StateV {
                            last_close: Some(close),
                            phase: PhaseV::Bootstrapping {
                                gains: gains.update(gains.len() - 1, gain as u64),
                                losses: losses.update(losses.len() - 1, loss as u64),
                            },
                            ..pre
                        }
                    }
                },
                PhaseV::Tracking { avg_gain: _, avg_loss: _, baseline } => {
                    match baseline {
                        None => StateV { last_close: Some(close), ..pre },
                        Some(b) => StateV {
                            last_close: Some(close),
                            phase: PhaseV::Tracking {
                                avg_gain: wilder_next(
                                    pre.period as int,
                                    b.avg_gain as int,
                                    gain * SCALE,
                                ) as u128,
                                avg_loss: wilder_loss_next(
                                    pre.period as int,
                                    b.avg_loss as int,
                                    loss * SCALE,
                                ) as u128,
                                baseline: Some(b),
                            },
                            ..pre
                        },
                    }
                },
            }
        },
    }
}

/// Arrival of a strictly newer timestamp: the open bar closes, a new one
/// opens.
pub open spec fn step_new_bar(pre: StateV, ts: i64, close: i64) -> StateV {
    let prev_close: i64 = match pre.last_close {
        Some(c) => c,
        None => 0i64,
    };
    let gain: int = gain_of(prev_close, close);
    let loss: int = loss_of(prev_close, close);
    let bc: u128 = (pre.bar_count + 1) as u128;
    let base = StateV {
        last_timestamp: Some(ts),
        last_close: Some(close),
        price_before_last: pre.last_close,
        bar_count: bc,
        ..pre
    };
    match pre.phase {
        PhaseV::Bootstrapping { gains, losses } => {
            let gains2 = gains.push(gain as u64);
            let losses2 = losses.push(loss as u64);
            if bc == pre.period + 1 {
                StateV {
                    phase: PhaseV::Tracking {
                        avg_gain: bootstrap_avg(pre.period as int, gains2) as u128,
                        avg_loss: bootstrap_avg(pre.period as int, losses2) as u128,
                        baseline: None,
                    },
                    ..base
                }
            } else {
                StateV { phase: PhaseV::Bootstrapping { gains: gains2, losses: losses2 }, ..base }
            }
        },
        PhaseV::Tracking { avg_gain, avg_loss, baseline: _ } => {
            StateV {
                phase: PhaseV::Tracking {
                    avg_gain: wilder_next(pre.period as int, avg_gain as int, gain * SCALE) as u128,
                    avg_loss: wilder_loss_next(
                        pre.period as int,
                        avg_loss as int,
                        loss * SCALE,
                    ) as u128,
                    baseline: Some(BaselineV { avg_gain, avg_loss }),
                },
                ..base
            }
        },
    }
}

/// The full transition: how one observation changes the state.
pub open spec fn step(pre: StateV, ts: i64, close: i64) -> StateV {
    if !price_ok(close) {
        pre
    } else {
        match pre.last_timestamp {
            None => StateV {
                last_timestamp: Some(ts),
                last_close: Some(close),
                bar_count: 1,
                ..pre
            },
            Some(t) => {
                if ts < t {
                    pre
                } else if ts == t {
                    step_revision(pre, close)
                } else {
                    step_new_bar(pre, ts, close)
                }
            },
        }
    }
}

/// The value an observation returns for a revision: the freshly derived RSI
/// when a baseline exists; the unchanged last RSI right after initialization,
/// when no baseline has been captured yet; nothing during bootstrap.
pub open spec fn revision_rsi(pre: StateV, close: i64) -> Option<int> {
    match pre.price_before_last {
        None => None,
        Some(_) => match pre.phase {
            PhaseV::Bootstrapping { .. } => None,
            PhaseV::Tracking { avg_gain: _, avg_loss: _, baseline } => {
                match baseline {
                    None => pre.rsi(),
                    Some(_) => step_revision(pre, close).rsi(),
                }
            },
        },
    }
}

/// The value an observation returns: the last known RSI for rejected input,
/// the RSI of the new state otherwise (absent while bootstrapping).
pub open spec fn step_rsi(pre: StateV, ts: i64, close: i64) -> Option<int> {
    if !price_ok(close) {
        pre.rsi()
    } else {
        match pre.last_timestamp {
            None => None,
            Some(t) => {
                if ts < t {
                    pre.rsi()
                } else if ts == t {
                    revision_rsi(pre, close)
                } else {
                    step_new_bar(pre, ts, close).rsi()
                }
            },
        }
    }
}

/// A whole stream of observations, applied in order.
pub open spec fn run(s: StateV, inputs: Seq<(i64, i64)>) -> StateV
    decreases inputs.len(),
{
    if inputs.len() == 0 {
        s
    } else {
        step(run(s, inputs.drop_last()), inputs.last().0, inputs.last().1)
    }
}

/// Wilder smoothing stays within any bound that holds of both the previous
/// average and the sample.
pub proof fn lemma_wilder_bounds(period: int, prev: int, sample: int, bound: int)
    requires
        2 <= period,
        0 <= prev <= bound,
        0 <= sample <= bound,
    ensures
        0 <= wilder_next(period, prev, sample) <= bound,
{
    let num = prev * (period - 1) + sample;
    lemma_mul_nonnegative(prev, period - 1);
    lemma_div_pos_is_pos(num, period);
    lemma_mul_inequality(prev, bound, period - 1);
    lemma_mul_is_distributive_sub(bound, period, 1);
    lemma_mul_basics(bound);
    assert(num <= bound * period);
    lemma_div_is_ordered(num, bound * period, period);
    lemma_mul_is_commutative(bound, period);
    lemma_div_multiples_vanish(bound, period);
}

/// The fixed-point RSI always lies between 0 and 100.
pub proof fn lemma_rsi_points_bounds(g: u128, l: u128)
    ensures
        0 <= rsi_points(g, l) <= RSI_TOP,
{
    if l != 0 {
        let num = RSI_TOP * g;
        let den = g + l;
        lemma_mul_nonnegative(RSI_TOP as int, g as int);
        lemma_div_pos_is_pos(num, den);
        lemma_mul_inequality(g as int, den, RSI_TOP as int);
        lemma_mul_is_commutative(g as int, RSI_TOP as int);
        lemma_mul_is_commutative(den, RSI_TOP as int);
        assert(num <= RSI_TOP * den);
        lemma_div_is_ordered(num, RSI_TOP * den, den);
        lemma_mul_is_commutative(RSI_TOP as int, den);
        lemma_div_multiples_vanish(RSI_TOP as int, den);
    }
}

/// Without gains the oscillator reads exactly 0, as long as some loss
/// average remains.
pub proof fn lemma_rsi_points_no_gain(l: u128)
    requires
        l >= 1,
    ensures
        rsi_points(0, l) == 0,
{
    lemma_div_of0(l as int);
}

/// A sum of bounded samples is bounded by length times the bound.
pub proof fn lemma_seq_sum_bounds(s: Seq<u64>, bound: int)
    requires
        0 <= bound,
        forall|i: int| 0 <= i < s.len() ==> #[trigger] s[i] <= bound,
    ensures
        0 <= seq_sum(s) <= s.len() * bound,
    decreases s.len(),
{
    if s.len() == 0 {
    } else {
        lemma_seq_sum_bounds(s.drop_last(), bound);
        assert(s.last() <= bound);
        lemma_mul_is_distributive_sub(bound, s.len() as int, 1);
        lemma_mul_basics(bound);
        lemma_mul_is_commutative(bound, s.len() as int);
        lemma_mul_is_commutative(bound, s.len() - 1);
        assert(s.drop_last().len() * bound == s.len() * bound - bound);
    }
}

/// The bootstrap average of at most `period` bounded samples stays within the
/// average bound.
pub proof fn lemma_bootstrap_avg_bounds(period: int, samples: Seq<u64>)
    requires
        2 <= period,
        samples.len() <= period,
        forall|i: int| 0 <= i < samples.len() ==> #[trigger] samples[i] <= DELTA_LIMIT,
    ensures
        0 <= bootstrap_avg(period, samples) <= AVG_LIMIT,
{
    let sum = seq_sum(samples);
    lemma_seq_sum_bounds(samples, DELTA_LIMIT as int);
    lemma_mul_inequality(samples.len() as int, period, DELTA_LIMIT as int);
    assert(sum <= period * DELTA_LIMIT) by {
        lemma_mul_is_commutative(samples.len() as int, DELTA_LIMIT as int);
        lemma_mul_is_commutative(period, DELTA_LIMIT as int);
    }
    lemma_mul_nonnegative(sum, SCALE as int);
    lemma_div_pos_is_pos(sum * SCALE, period);
    lemma_mul_inequality(sum, period * DELTA_LIMIT, SCALE as int);
    lemma_mul_is_associative(period, DELTA_LIMIT as int, SCALE as int);
    assert(DELTA_LIMIT * SCALE == AVG_LIMIT);
    assert(sum * SCALE <= period * AVG_LIMIT);
    lemma_div_is_ordered(sum * SCALE, period * AVG_LIMIT, period);
    lemma_div_multiples_vanish(AVG_LIMIT as int, period);
}

/// A quotient of a dividend no smaller than its positive divisor is at least
/// one.
pub proof fn lemma_div_at_least_one(x: int, d: int)
    requires
        0 < d <= x,
    ensures
        x / d >= 1,
{
    lemma_div_is_ordered(d, x, d);
    lemma_div_by_self(d);
}

/// One observation keeps the state well-formed.
pub proof fn lemma_step_preserves_wf(pre: StateV, ts: i64, close: i64)
    requires
        pre.wf(),
    ensures
        step(pre, ts, close).wf(),
{
    if !price_ok(close) {
        return ;
    }
    match pre.last_timestamp {
        None => {},
        Some(t) => {
            if ts < t {
            } else if ts == t {
                match pre.price_before_last {
                    None => {},
                    Some(pbl) => {
                        let gain: int = gain_of(pbl, close);
                        let loss: int = loss_of(pbl, close);
                        match pre.phase {
                            PhaseV::Bootstrapping { gains, losses } => {},
                            PhaseV::Tracking { avg_gain: _, avg_loss: _, baseline } => {
                                match baseline {
                                    None => {},
                                    Some(b) => {
                                        lemma_wilder_bounds(
                                            pre.period as int,
                                            b.avg_gain as int,
                                            gain * SCALE,
                                            AVG_LIMIT as int,
                                        );
                                        lemma_wilder_bounds(
                                            pre.period as int,
                                            b.avg_loss as int,
                                            loss * SCALE,
                                            AVG_LIMIT as int,
                                        );
                                    },
                                }
                            },
                        }
                    },
                }
            } else {
                let prev_close: i64 = match pre.last_close {
                    Some(c) => c,
                    None => 0i64,
                };
                let gain: int = gain_of(prev_close, close);
                let loss: int = loss_of(prev_close, close);
                match pre.phase {
                    PhaseV::Bootstrapping { gains, losses } => {
                        let gains2 = gains.push(gain as u64);
                        let losses2 = losses.push(loss as u64);
                        assert(forall|i: int|
                            0 <= i < gains2.len() ==> #[trigger] gains2[i] <= DELTA_LIMIT);
                        assert(forall|i: int|
                            0 <= i < losses2.len() ==> #[trigger] losses2[i] <= DELTA_LIMIT);
                        if pre.bar_count + 1 == pre.period + 1 {
                            lemma_bootstrap_avg_bounds(pre.period as int, gains2);
                            lemma_bootstrap_avg_bounds(pre.period as int, losses2);
                        }
                    },
                    PhaseV::Tracking { avg_gain, avg_loss, baseline: _ } => {
                        lemma_wilder_bounds(
                            pre.period as int,
                            avg_gain as int,
                            gain * SCALE,
                            AVG_LIMIT as int,
                        );
                        lemma_wilder_bounds(
                            pre.period as int,
                            avg_loss as int,
                            loss * SCALE,
                            AVG_LIMIT as int,
                        );
                    },
                }
            }
        },
    }
}

} // verus!
