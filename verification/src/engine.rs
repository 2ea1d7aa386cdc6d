//! The incremental RSI engine: executable state and the three public
//! operations — construction, ingestion of one `(timestamp, price)` pair, and
//! the read-only RSI snapshot.
//!
//! Every operation's effect is pinned to the ghost transition function
//! [`crate::model::step`]; the returned value to [`crate::model::step_rsi`].

use crate::model::{
    bootstrap_avg, init_state, lemma_bootstrap_avg_bounds, lemma_rsi_points_bounds,
    lemma_seq_sum_bounds, lemma_step_preserves_wf, lemma_wilder_bounds, price_ok, revision_rsi,
    seq_sum, step, step_new_bar, step_revision, step_rsi, wilder_loss_next, wilder_next, BaselineV,
    PhaseV, StateV, AVG_LIMIT, DELTA_LIMIT, PRICE_LIMIT, RSI_TOP, SCALE,
};
use vstd::arithmetic::mul::{lemma_mul_inequality, lemma_mul_is_associative, lemma_mul_is_commutative};
use vstd::prelude::*;

verus! {

/// Construction-time failure: the engine is never created.
#[derive(Clone, Copy, Debug, PartialEq, Eq)]
pub enum RsiError {
    InvalidPeriod,
}

/// Diagnostic emitted for an observation that was discarded. The observation
/// itself still answers with the last known RSI; the warning is the separate
/// channel that lets a caller tell a skipped input from "no RSI yet".
#[derive(Clone, Copy, Debug, PartialEq, Eq)]
pub enum Warning {
    /// The price lay outside the accepted range.
    InvalidPrice,
    /// The timestamp regressed behind the open bar.
    OutOfOrder,
}

/// What one call to [`WilderRSI::add_price`] produces.
#[derive(Clone, Copy, Debug, PartialEq, Eq)]
pub struct Observation {
    /// The RSI in `SCALE` fixed-point sub-units, or absent.
    pub rsi: Option<u64>,
    /// The diagnostic, if the input was discarded.
    pub warning: Option<Warning>,
}

/// The diagnostic an observation carries.
pub open spec fn step_warning(pre: StateV, ts: i64, close: i64) -> Option<Warning> {
    if !price_ok(close) {
        Some(Warning::InvalidPrice)
    } else if pre.last_timestamp matches Some(t) && ts < t {
        Some(Warning::OutOfOrder)
    } else {
        None
    }
}

/// A returned fixed-point value, widened for comparison with the model.
pub open spec fn opt_points(r: Option<u64>) -> Option<int> {
    match r {
        Some(v) => Some(v as int),
        None => None,
    }
}

/// The smoothing baseline as of the previous bar close.
#[derive(Clone, Copy)]
pub struct Baseline {
    pub avg_gain: u128,
    pub avg_loss: u128,
}

/// Bootstrap accumulation or Wilder tracking; each variant carries only the
/// fields valid in that phase.
pub enum Phase {
    Bootstrapping { gains: Vec<u64>, losses: Vec<u64> },
    Tracking { avg_gain: u128, avg_loss: u128, baseline: Option<Baseline> },
}

/// The incremental RSI engine.
pub struct WilderRSI {
    period: usize,
    last_timestamp: Option<i64>,
    last_close: Option<i64>,
    price_before_last: Option<i64>,
    bar_count: u128,
    phase: Phase,
}

impl View for Baseline {
    type V = BaselineV;

    closed spec fn view(&self) -> BaselineV {
        BaselineV { avg_gain: self.avg_gain, avg_loss: self.avg_loss }
    }
}

impl View for Phase {
    type V = PhaseV;

    closed spec fn view(&self) -> PhaseV {
        match self {
            Phase::Bootstrapping { gains, losses } => PhaseV::Bootstrapping {
                gains: gains@,
                losses: losses@,
            },
            Phase::Tracking { avg_gain, avg_loss, baseline } => PhaseV::Tracking {
                avg_gain: *avg_gain,
                avg_loss: *avg_loss,
                baseline: match baseline {
                    Some(b) => Some(b@),
                    None => None,
                },
            },
        }
    }
}

impl View for WilderRSI {
    type V = StateV;

    closed spec fn view(&self) -> StateV {
        StateV {
            period: self.period,
            last_timestamp: self.last_timestamp,
            last_close: self.last_close,
            price_before_last: self.price_before_last,
            bar_count: self.bar_count,
            phase: self.phase@,
        }
    }
}

/// One Wilder smoothing update on fixed-point averages.
fn wilder_exec(period: usize, prev: u128, sample: u64) -> (r: u128)
    requires
        2 <= period,
        prev <= AVG_LIMIT,
        sample <= DELTA_LIMIT,
    ensures
        r == wilder_next(period as int, prev as int, sample * SCALE) as u128,
        r <= AVG_LIMIT,
{
    let scaled: u128 = (sample as u128) * (SCALE as u128);
    proof {
        assert(scaled <= AVG_LIMIT);
        lemma_wilder_bounds(period as int, prev as int, scaled as int, AVG_LIMIT as int);
        lemma_mul_inequality(prev as int, AVG_LIMIT as int, (period - 1) as int);
        assert(usize::MAX <= 0xffff_ffff_ffff_ffffu64);
        lemma_mul_inequality((period - 1) as int, u64::MAX as int, AVG_LIMIT as int);
        lemma_mul_is_commutative((period - 1) as int, AVG_LIMIT as int);
        lemma_mul_is_commutative(u64::MAX as int, AVG_LIMIT as int);
        assert(prev * ((period - 1) as int) <= AVG_LIMIT * (u64::MAX as int));
    }
    let num: u128 = prev * ((period - 1) as u128) + scaled;
    num / (period as u128)
}

/// The loss-side update, pinning the both-zero case to exactly zero.
fn wilder_loss_exec(period: usize, prev: u128, sample: u64) -> (r: u128)
    requires
        2 <= period,
        prev <= AVG_LIMIT,
        sample <= DELTA_LIMIT,
    ensures
        r == wilder_loss_next(period as int, prev as int, sample * SCALE) as u128,
        r <= AVG_LIMIT,
{
    if prev == 0 && sample == 0 {
        0
    } else {
        wilder_exec(period, prev, sample)
    }
}

/// The simple average of the bootstrap samples, in fixed point.
fn boot_avg_exec(period: usize, samples: &Vec<u64>) -> (r: u128)
    requires
        2 <= period,
        samples@.len() <= period,
        forall|i: int| 0 <= i < samples@.len() ==> #[trigger] samples@[i] <= DELTA_LIMIT,
    ensures
        r == bootstrap_avg(period as int, samples@) as u128,
        r <= AVG_LIMIT,
{
    let mut sum: u128 = 0;
    let mut i: usize = 0;
    while i < samples.len()
        invariant
            i <= samples@.len(),
            samples@.len() <= period,
            forall|j: int| 0 <= j < samples@.len() ==> #[trigger] samples@[j] <= DELTA_LIMIT,
            sum == seq_sum(samples@.take(i as int)),
            sum <= i * DELTA_LIMIT,
        decreases samples@.len() - i,
    {
        proof {
            assert(samples@.take(i + 1).drop_last() =~= samples@.take(i as int));
            assert(samples@.take(i + 1).last() == samples@[i as int]);
        }
        sum = sum + (samples[i] as u128);
        i = i + 1;
    }
    proof {
        assert(samples@.take(samples@.len() as int) =~= samples@);
        lemma_bootstrap_avg_bounds(period as int, samples@);
        lemma_seq_sum_bounds(samples@, DELTA_LIMIT as int);
        lemma_mul_inequality(samples@.len() as int, period as int, DELTA_LIMIT as int);
        lemma_mul_inequality(seq_sum(samples@), (period as int) * (DELTA_LIMIT as int), SCALE as int);
        lemma_mul_is_associative(period as int, DELTA_LIMIT as int, SCALE as int);
        lemma_mul_inequality(period as int, u64::MAX as int, AVG_LIMIT as int);
        lemma_mul_is_commutative(period as int, AVG_LIMIT as int);
        lemma_mul_is_commutative(u64::MAX as int, AVG_LIMIT as int);
        assert(seq_sum(samples@) * SCALE <= (u64::MAX as int) * (AVG_LIMIT as int));
    }
    let num: u128 = sum * (SCALE as u128);
    num / (period as u128)
}

impl WilderRSI {
    /// Creates an engine with the given smoothing window; a period of less
    /// than two is rejected.
    pub fn new(period: usize) -> (r: Result<WilderRSI, RsiError>)
        ensures
            period >= 2 ==> (r matches Ok(e) && e@ == init_state(period) && e@.wf()),
            period < 2 ==> (r matches Err(err) && err == RsiError::InvalidPeriod),
    {
        if period <= 1 {
            Err(RsiError::InvalidPeriod)
        } else {
            let e = WilderRSI {
                period,
                last_timestamp: None,
                last_close: None,
                price_before_last: None,
                bar_count: 0,
                phase: Phase::Bootstrapping { gains: Vec::new(), losses: Vec::new() },
            };
            proof {
                assert(e@ =~= init_state(period));
            }
            Ok(e)
        }
    }

    /// Derives the RSI from the current averages.
    fn calculate_rsi(&self) -> (r: Option<u64>)
        requires
            self@.wf(),
        ensures
            opt_points(r) == self@.rsi(),
            (r matches Some(v) ==> v <= RSI_TOP),
    {
        match &self.phase {
            Phase::Tracking { avg_gain, avg_loss, baseline: _ } => {
                proof {
                    lemma_rsi_points_bounds(*avg_gain, *avg_loss);
                }
                if *avg_loss == 0 {
                    Some(RSI_TOP)
                } else {
                    let num: u128 = (RSI_TOP as u128) * *avg_gain;
                    let den: u128 = *avg_gain + *avg_loss;
                    Some((num / den) as u64)
                }
            },
            Phase::Bootstrapping { .. } => None,
        }
    }

    /// The last derived RSI, without accepting new input: absent until the
    /// bootstrap completes, else a value between 0 and 100 in `SCALE`
    /// fixed-point sub-units.
    pub fn get_rsi(&self) -> (r: Option<u64>)
        requires
            self@.wf(),
        ensures
            opt_points(r) == self@.rsi(),
            (r matches Some(v) ==> v <= RSI_TOP),
    {
        self.calculate_rsi()
    }

    /// Revises the open bar with a corrected close.
    fn revise_bar(&mut self, close: i64) -> (r: Option<u64>)
        requires
            old(self)@.wf(),
            price_ok(close),
            old(self)@.last_timestamp is Some,
        ensures
            final(self)@ == step_revision(old(self)@, close),
            final(self)@.wf(),
            opt_points(r) == revision_rsi(old(self)@, close),
            (r matches Some(v) ==> v <= RSI_TOP),
    {
        let ghost pre = self@;
        proof {
            let t: i64 = match pre.last_timestamp {
                Some(t) => t,
                None => 0i64,
            };
            lemma_step_preserves_wf(pre, t, close);
            assert(step(pre, t, close) == step_revision(pre, close));
        }
        let p = self.period;
        let pbl = match self.price_before_last {
            Some(x) => x,
            None => {
                self.last_close = Some(close);
                proof {
                    assert(self@ =~= step_revision(pre, close));
                }
                return None;
            },
        };
        let gain: u64 = if close >= pbl {
            (close - pbl) as u64
        } else {
            0
        };
        let loss: u64 = if pbl >= close {
            (pbl - close) as u64
        } else {
            0
        };
        let prior: Option<u64> = self.calculate_rsi();
        let mut fresh: bool = false;
        let mut keep_prior: bool = false;
        match &mut self.phase {
            Phase::Bootstrapping { gains, losses } => {
                let n = gains.len();
                if n > 0 {
                    gains.set(n - 1, gain);
                    losses.set(n - 1, loss);
                }
            },
            Phase::Tracking { avg_gain, avg_loss, baseline } => {
                match baseline {
                    None => {
                        keep_prior = true;
                    },
                    Some(b) => {
                        let bg = b.avg_gain;
                        let bl = b.avg_loss;
                        *avg_gain = wilder_exec(p, bg, gain);
                        *avg_loss = wilder_loss_exec(p, bl, loss);
                        fresh = true;
                    },
                }
            },
        }
        self.last_close = Some(close);
        proof {
            assert(self@ =~= step_revision(pre, close));
        }
        if fresh {
            self.calculate_rsi()
        } else if keep_prior {
            prior
        } else {
            None
        }
    }

    /// Closes the open bar and opens a new one at a strictly newer timestamp.
    fn start_bar(&mut self, timestamp: i64, close: i64) -> (r: Option<u64>)
        requires
            old(self)@.wf(),
            price_ok(close),
            old(self)@.last_timestamp matches Some(t) && timestamp > t,
        ensures
            final(self)@ == step_new_bar(old(self)@, timestamp, close),
            final(self)@.wf(),
            opt_points(r) == step_new_bar(old(self)@, timestamp, close).rsi(),
            (r matches Some(v) ==> v <= RSI_TOP),
    {
        let ghost pre = self@;
        proof {
            lemma_step_preserves_wf(pre, timestamp, close);
            assert(step(pre, timestamp, close) == step_new_bar(pre, timestamp, close));
        }
        let p = self.period;
        let prev_close = match self.last_close {
            Some(c) => c,
            None => 0,
        };
        let gain: u64 = if close >= prev_close {
            (close - prev_close) as u64
        } else {
            0
        };
        let loss: u64 = if prev_close >= close {
            (prev_close - close) as u64
        } else {
            0
        };
        self.price_before_last = self.last_close;
        self.bar_count = self.bar_count + 1;
        self.last_timestamp = Some(timestamp);
        self.last_close = Some(close);
        let mut finish: bool = false;
        match &mut self.phase {
            Phase::Bootstrapping { gains, losses } => {
                gains.push(gain);
                losses.push(loss);
                finish = true;
            },
            Phase::Tracking { avg_gain, avg_loss, baseline } => {
                let og = *avg_gain;
                let ol = *avg_loss;
                *baseline = Some(Baseline { avg_gain: og, avg_loss: ol });
                *avg_gain = wilder_exec(p, og, gain);
                *avg_loss = wilder_loss_exec(p, ol, loss);
            },
        }
        if finish && self.bar_count - 1 == p as u128 {
            let averages = match &self.phase {
                Phase::Bootstrapping { gains, losses } => {
                    (boot_avg_exec(p, gains), boot_avg_exec(p, losses))
                },
                Phase::Tracking { .. } => (0, 0),
            };
            self.phase = Phase::Tracking {
                avg_gain: averages.0,
                avg_loss: averages.1,
                baseline: None,
            };
        }
        proof {
            assert(self@ =~= step_new_bar(pre, timestamp, close));
        }
        self.calculate_rsi()
    }

    /// Feeds one `(timestamp, close)` observation: a strictly newer timestamp
    /// closes the open bar and opens a new one, an equal timestamp revises the
    /// open bar, an older timestamp and an out-of-range price are discarded
    /// with a warning and the last known RSI.
    pub fn add_price(&mut self, timestamp: i64, close: i64) -> (r: Observation)
        requires
            old(self)@.wf(),
        ensures
            final(self)@.wf(),
            final(self)@ == step(old(self)@, timestamp, close),
            opt_points(r.rsi) == step_rsi(old(self)@, timestamp, close),
            r.warning == step_warning(old(self)@, timestamp, close),
            (r.rsi matches Some(v) ==> v <= RSI_TOP),
    {
        let ghost pre = self@;
        if close < -PRICE_LIMIT || close > PRICE_LIMIT {
            let rsi = self.calculate_rsi();
            return Observation { rsi, warning: Some(Warning::InvalidPrice) };
        }
        match self.last_timestamp {
            None => {
                self.last_timestamp = Some(timestamp);
                self.last_close = Some(close);
                self.bar_count = 1;
                proof {
                    assert(self@ =~= step(pre, timestamp, close));
                    lemma_step_preserves_wf(pre, timestamp, close);
                }
                Observation { rsi: None, warning: None }
            },
            Some(t) => {
                if timestamp < t {
                    let rsi = self.calculate_rsi();
                    Observation { rsi, warning: Some(Warning::OutOfOrder) }
                } else if timestamp == t {
                    let rsi = self.revise_bar(close);
                    Observation { rsi, warning: None }
                } else {
                    let rsi = self.start_bar(timestamp, close);
                    Observation { rsi, warning: None }
                }
            },
        }
    }
}

} // verus!
