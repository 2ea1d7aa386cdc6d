//! Stream-level laws of the engine, stated over the ghost model and proved
//! once and for all: bootstrap length, range of the oscillator, behaviour on
//! monotone streams, and the no-op and isolation guarantees for rejected and
//! revised input.

use crate::model::{
    init_state, lemma_div_at_least_one, lemma_rsi_points_bounds, lemma_rsi_points_no_gain,
    lemma_seq_sum_bounds, lemma_seq_sum_push, lemma_step_preserves_wf, price_ok, run, seq_sum,
    step, step_new_bar, step_revision, step_rsi, PhaseV, StateV, RSI_TOP, SCALE,
};
use vstd::arithmetic::div_mod::lemma_div_of0;
use vstd::prelude::*;

verus! {

/// Each observation in the stream carries a strictly newer timestamp than the
/// one before it.
pub open spec fn timestamps_strictly_increase(inputs: Seq<(i64, i64)>) -> bool {
    forall|i: int| 0 <= i < inputs.len() - 1 ==> (#[trigger] inputs[i]).0 < inputs[i + 1].0
}

/// Every price in the stream lies in the accepted range.
pub open spec fn all_prices_ok(inputs: Seq<(i64, i64)>) -> bool {
    forall|i: int| 0 <= i < inputs.len() ==> price_ok((#[trigger] inputs[i]).1)
}

/// Prices never fall from one observation to the next.
pub open spec fn prices_nondecreasing(inputs: Seq<(i64, i64)>) -> bool {
    forall|i: int| 0 <= i < inputs.len() - 1 ==> (#[trigger] inputs[i]).1 <= inputs[i + 1].1
}

/// Prices never rise from one observation to the next.
pub open spec fn prices_nonincreasing(inputs: Seq<(i64, i64)>) -> bool {
    forall|i: int| 0 <= i < inputs.len() - 1 ==> (#[trigger] inputs[i]).1 >= inputs[i + 1].1
}

proof fn lemma_prefix_stream_facts(inputs: Seq<(i64, i64)>)
    requires
        inputs.len() >= 1,
        timestamps_strictly_increase(inputs),
        all_prices_ok(inputs),
    ensures
        timestamps_strictly_increase(inputs.drop_last()),
        all_prices_ok(inputs.drop_last()),
{
    let pre = inputs.drop_last();
    assert forall|i: int| 0 <= i < pre.len() - 1 implies (#[trigger] pre[i]).0 < pre[i + 1].0 by {
        assert(pre[i] == inputs[i]);
        assert(pre[i + 1] == inputs[i + 1]);
    }
    assert forall|i: int| 0 <= i < pre.len() implies price_ok((#[trigger] pre[i]).1) by {
        assert(pre[i] == inputs[i]);
    }
}

proof fn lemma_take_stream_facts(inputs: Seq<(i64, i64)>, k: int)
    requires
        0 <= k <= inputs.len(),
        timestamps_strictly_increase(inputs),
        all_prices_ok(inputs),
    ensures
        timestamps_strictly_increase(inputs.take(k)),
        all_prices_ok(inputs.take(k)),
        k >= 1 ==> inputs.take(k).last() == inputs[k - 1],
{
    let pre = inputs.take(k);
    assert forall|i: int| 0 <= i < pre.len() - 1 implies (#[trigger] pre[i]).0 < pre[i + 1].0 by {
        assert(pre[i] == inputs[i]);
        assert(pre[i + 1] == inputs[i + 1]);
    }
    assert forall|i: int| 0 <= i < pre.len() implies price_ok((#[trigger] pre[i]).1) by {
        assert(pre[i] == inputs[i]);
    }
}

/// Shape of the state after a valid stream: the bar count equals the number
/// of observations, the open bar is the latest observation, and the engine is
/// bootstrapping exactly as long as the stream is no longer than the period.
pub proof fn lemma_run_shape(period: usize, inputs: Seq<(i64, i64)>)
    requires
        2 <= period,
        1 <= inputs.len(),
        timestamps_strictly_increase(inputs),
        all_prices_ok(inputs),
    ensures
        ({
            let s = run(init_state(period), inputs);
            &&& s.wf()
            &&& s.period == period
            &&& s.bar_count == inputs.len()
            &&& s.last_timestamp == Some(inputs.last().0)
            &&& s.last_close == Some(inputs.last().1)
            &&& (inputs.len() <= period ==> s.phase is Bootstrapping)
            &&& (inputs.len() > period ==> s.phase is Tracking)
        }),
    decreases inputs.len(),
{
    let s = run(init_state(period), inputs);
    let ts = inputs.last().0;
    let close = inputs.last().1;
    if inputs.len() == 1 {
        assert(run(init_state(period), inputs.drop_last()) == init_state(period));
        lemma_step_preserves_wf(init_state(period), ts, close);
        assert(s == step(init_state(period), ts, close));
    } else {
        lemma_prefix_stream_facts(inputs);
        lemma_run_shape(period, inputs.drop_last());
        let prev = run(init_state(period), inputs.drop_last());
        assert(prev.last_timestamp == Some(inputs[inputs.len() - 2].0));
        assert(inputs[inputs.len() - 2].0 < ts);
        lemma_step_preserves_wf(prev, ts, close);
        assert(s == step_new_bar(prev, ts, close));
    }
}

/// From a fresh engine, a stream of strictly increasing timestamps yields no
/// value for the first `period` observations and a defined RSI on the
/// `period + 1`-th.
pub proof fn lemma_bootstrap_completion(period: usize, inputs: Seq<(i64, i64)>)
    requires
        2 <= period,
        inputs.len() == period + 1,
        timestamps_strictly_increase(inputs),
        all_prices_ok(inputs),
    ensures
        forall|k: int|
            0 <= k < period ==> #[trigger] step_rsi(
                run(init_state(period), inputs.take(k)),
                inputs[k].0,
                inputs[k].1,
            ) is None,
        step_rsi(
            run(init_state(period), inputs.take(period as int)),
            inputs[period as int].0,
            inputs[period as int].1,
        ) is Some,
{
    assert forall|k: int| 0 <= k < period implies #[trigger] step_rsi(
        run(init_state(period), inputs.take(k)),
        inputs[k].0,
        inputs[k].1,
    ) is None by {
        lemma_step_rsi_during_bootstrap(period, inputs, k);
    }
    lemma_take_stream_facts(inputs, period as int);
    lemma_run_shape(period, inputs.take(period as int));
    let s = run(init_state(period), inputs.take(period as int));
    assert(s.last_timestamp == Some(inputs[period - 1].0));
    assert(inputs[period - 1].0 < inputs[period as int].0);
    let post = step_new_bar(s, inputs[period as int].0, inputs[period as int].1);
    assert(post.bar_count == period + 1);
    assert(post.phase is Tracking);
}

proof fn lemma_step_rsi_during_bootstrap(period: usize, inputs: Seq<(i64, i64)>, k: int)
    requires
        2 <= period,
        inputs.len() == period + 1,
        timestamps_strictly_increase(inputs),
        all_prices_ok(inputs),
        0 <= k < period,
    ensures
        step_rsi(run(init_state(period), inputs.take(k)), inputs[k].0, inputs[k].1) is None,
{
    if k == 0 {
        assert(inputs.take(0).len() == 0);
        assert(run(init_state(period), inputs.take(0)) == init_state(period));
    } else {
        lemma_take_stream_facts(inputs, k);
        lemma_run_shape(period, inputs.take(k));
        let s = run(init_state(period), inputs.take(k));
        assert(s.last_timestamp == Some(inputs[k - 1].0));
        assert(inputs[k - 1].0 < inputs[k].0);
        let post = step_new_bar(s, inputs[k].0, inputs[k].1);
        assert(post.bar_count == k + 1);
        assert(post.phase is Bootstrapping);
    }
}

/// Whenever the RSI is defined, it lies between 0 and 100.
pub proof fn lemma_rsi_in_range(s: StateV)
    ensures
        s.rsi() matches Some(v) ==> 0 <= v <= RSI_TOP,
{
    match s.phase {
        PhaseV::Tracking { avg_gain, avg_loss, baseline: _ } => {
            lemma_rsi_points_bounds(avg_gain, avg_loss);
        },
        PhaseV::Bootstrapping { .. } => {},
    }
}

/// On a stream whose prices never fall, the loss average is exactly zero —
/// during bootstrap every loss sample is zero, afterwards the smoothed
/// average stays zero — and the RSI reads exactly 100 once initialized.
pub proof fn lemma_rising_prices(period: usize, inputs: Seq<(i64, i64)>)
    requires
        2 <= period,
        1 <= inputs.len(),
        timestamps_strictly_increase(inputs),
        all_prices_ok(inputs),
        prices_nondecreasing(inputs),
    ensures
        ({
            let s = run(init_state(period), inputs);
            &&& (s.phase matches PhaseV::Bootstrapping { gains: _, losses } ==> forall|i: int|
                0 <= i < losses.len() ==> #[trigger] losses[i] == 0)
            &&& (s.phase matches PhaseV::Tracking { avg_gain: _, avg_loss, baseline: _ }
                ==> avg_loss == 0)
            &&& (inputs.len() > period ==> s.rsi() == Some(RSI_TOP as int))
        }),
    decreases inputs.len(),
{
    let s = run(init_state(period), inputs);
    let ts = inputs.last().0;
    let close = inputs.last().1;
    lemma_run_shape(period, inputs);
    if inputs.len() == 1 {
        assert(run(init_state(period), inputs.drop_last()) == init_state(period));
    } else {
        lemma_prefix_stream_facts(inputs);
        assert forall|i: int|
            0 <= i < inputs.drop_last().len() - 1 implies (#[trigger] inputs.drop_last()[i]).1
            <= inputs.drop_last()[i + 1].1 by {
            assert(inputs.drop_last()[i] == inputs[i]);
            assert(inputs.drop_last()[i + 1] == inputs[i + 1]);
        }
        lemma_rising_prices(period, inputs.drop_last());
        lemma_run_shape(period, inputs.drop_last());
        let prev = run(init_state(period), inputs.drop_last());
        assert(prev.last_close == Some(inputs[inputs.len() - 2].1));
        assert(inputs[inputs.len() - 2].1 <= close);
        assert(s == step_new_bar(prev, ts, close));
        match prev.phase {
            PhaseV::Bootstrapping { gains, losses } => {
                let losses2 = losses.push(0);
                assert forall|i: int| 0 <= i < losses2.len() implies #[trigger] losses2[i]
                    == 0 by {
                    if i < losses.len() {
                        assert(losses2[i] == losses[i]);
                    }
                }
                if prev.bar_count + 1 == period + 1 {
                    lemma_seq_sum_bounds(losses2, 0);
                    assert(seq_sum(losses2) == 0);
                    lemma_div_of0(period as int);
                }
            },
            PhaseV::Tracking { avg_gain: _, avg_loss, baseline: _ } => {
                assert(avg_loss == 0);
            },
        }
    }
}

/// On a stream whose prices never rise, the gain average is exactly zero, and
/// at the initialization bar — when the total decline over the bootstrap is at
/// least one fixed-point sub-unit per period step — the RSI reads exactly 0.
pub proof fn lemma_falling_prices(period: usize, inputs: Seq<(i64, i64)>)
    requires
        2 <= period,
        1 <= inputs.len(),
        timestamps_strictly_increase(inputs),
        all_prices_ok(inputs),
        prices_nonincreasing(inputs),
    ensures
        ({
            let s = run(init_state(period), inputs);
            &&& (s.phase matches PhaseV::Bootstrapping { gains, losses: _ } ==> forall|i: int|
                0 <= i < gains.len() ==> #[trigger] gains[i] == 0)
            &&& (s.phase matches PhaseV::Bootstrapping { gains: _, losses } ==> seq_sum(losses)
                == inputs[0].1 - inputs.last().1)
            &&& (s.phase matches PhaseV::Tracking { avg_gain, avg_loss: _, baseline: _ }
                ==> avg_gain == 0)
            &&& (inputs.len() == period + 1 && SCALE * (inputs[0].1 - inputs.last().1) >= period
                ==> s.rsi() == Some(0int))
        }),
    decreases inputs.len(),
{
    let s = run(init_state(period), inputs);
    let ts = inputs.last().0;
    let close = inputs.last().1;
    lemma_run_shape(period, inputs);
    if inputs.len() == 1 {
        assert(run(init_state(period), inputs.drop_last()) == init_state(period));
    } else {
        lemma_prefix_stream_facts(inputs);
        assert forall|i: int|
            0 <= i < inputs.drop_last().len() - 1 implies (#[trigger] inputs.drop_last()[i]).1
            >= inputs.drop_last()[i + 1].1 by {
            assert(inputs.drop_last()[i] == inputs[i]);
            assert(inputs.drop_last()[i + 1] == inputs[i + 1]);
        }
        lemma_falling_prices(period, inputs.drop_last());
        lemma_run_shape(period, inputs.drop_last());
        let prev = run(init_state(period), inputs.drop_last());
        let prev_close = inputs[inputs.len() - 2].1;
        assert(prev.last_close == Some(prev_close));
        assert(inputs.drop_last()[0] == inputs[0]);
        assert(inputs.drop_last().last() == inputs[inputs.len() - 2]);
        assert(prev_close >= close);
        assert(s == step_new_bar(prev, ts, close));
        match prev.phase {
            PhaseV::Bootstrapping { gains, losses } => {
                let gains2 = gains.push(0);
                let loss: u64 = (prev_close - close) as u64;
                let losses2 = losses.push(loss);
                assert forall|i: int| 0 <= i < gains2.len() implies #[trigger] gains2[i]
                    == 0 by {
                    if i < gains.len() {
                        assert(gains2[i] == gains[i]);
                    }
                }
                lemma_seq_sum_push(losses, loss);
                assert(seq_sum(losses2) == inputs[0].1 - close);
                if prev.bar_count + 1 == period + 1 {
                    lemma_seq_sum_bounds(gains2, 0);
                    assert(seq_sum(gains2) == 0);
                    lemma_div_of0(period as int);
                    let lsum = seq_sum(losses2);
                    if SCALE * (inputs[0].1 - close) >= period {
                        assert(lsum * SCALE >= period) by {
                            assert(lsum * SCALE == SCALE * (inputs[0].1 - close));
                        }
                        lemma_div_at_least_one(lsum * SCALE, period as int);
                        let l = (lsum * SCALE / (period as int)) as u128;
                        lemma_rsi_points_no_gain(l);
                    }
                }
            },
            PhaseV::Tracking { avg_gain, avg_loss: _, baseline: _ } => {
                assert(avg_gain == 0);
            },
        }
    }
}

/// A stale observation — its timestamp behind the open bar — is a no-op: the
/// state is untouched and the answer is exactly the prior RSI snapshot.
pub proof fn lemma_stale_is_noop(s: StateV, ts: i64, close: i64)
    requires
        s.last_timestamp matches Some(t) && ts < t,
    ensures
        step(s, ts, close) == s,
        step_rsi(s, ts, close) == s.rsi(),
{
}

/// An out-of-range price is a no-op in the same way, whatever its timestamp.
pub proof fn lemma_invalid_price_is_noop(s: StateV, ts: i64, close: i64)
    requires
        !price_ok(close),
    ensures
        step(s, ts, close) == s,
        step_rsi(s, ts, close) == s.rsi(),
{
}

/// Revision isolation: revising the open bar, any number of times, never
/// touches the bar identity, the baseline price, the bar count, nor the
/// smoothing baseline — and a second revision gives exactly the state a
/// single revision with the final price would have given, so repeated
/// revisions always recompute from the same fixed baseline.
pub proof fn lemma_revision_isolation(s: StateV, ts: i64, c1: i64, c2: i64)
    requires
        s.wf(),
        price_ok(c1),
        price_ok(c2),
        s.last_timestamp == Some(ts),
    ensures
        ({
            let s1 = step(s, ts, c1);
            &&& s1.last_timestamp == s.last_timestamp
            &&& s1.price_before_last == s.price_before_last
            &&& s1.bar_count == s.bar_count
            &&& s1.period == s.period
            &&& s1.last_close == Some(c1)
            &&& (s.phase matches PhaseV::Tracking { avg_gain: _, avg_loss: _, baseline }
                ==> s1.phase matches PhaseV::Tracking {
                    avg_gain: _,
                    avg_loss: _,
                    baseline: b1,
                } && b1 == baseline)
            &&& step(s1, ts, c2) == step(s, ts, c2)
        }),
{
    let s1 = step(s, ts, c1);
    assert(s1 == step_revision(s, c1));
    assert(step(s1, ts, c2) == step_revision(s1, c2));
    match s.price_before_last {
        None => {
            assert(step_revision(s1, c2) =~= step_revision(s, c2));
        },
        Some(pbl) => {
            match s.phase {
                PhaseV::Bootstrapping { gains, losses } => {
                    if gains.len() > 0 {
                        let n = gains.len() - 1;
                        assert forall|a: u64, b: u64| gains.update(n, a).update(n, b)
                            =~= gains.update(n, b) by {}
                        assert forall|a: u64, b: u64| losses.update(n, a).update(n, b)
                            =~= losses.update(n, b) by {}
                    }
                    assert(step_revision(s1, c2) =~= step_revision(s, c2));
                },
                PhaseV::Tracking { avg_gain: _, avg_loss: _, baseline } => {
                    assert(step_revision(s1, c2) =~= step_revision(s, c2));
                },
            }
        },
    }
}

} // verus!
