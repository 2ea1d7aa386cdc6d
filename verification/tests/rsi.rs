//! End-to-end tests of the incremental RSI engine: bootstrap length, the
//! concrete smoothing scenario with revisions, rejected input, and the
//! behaviour on monotone streams. Prices carry six fixed-point decimal
//! places only where a test says so; most tests use whole price units.

use wilder_rsi::engine::{RsiError, Warning, WilderRSI};

/// RSI value 100 in fixed-point sub-units.
const TOP: u64 = 100_000_000;

fn engine(period: usize) -> WilderRSI {
    match WilderRSI::new(period) {
        Ok(e) => e,
        Err(_) => panic!("test period must be valid"),
    }
}

#[test]
fn new_rejects_small_periods() {
    assert!(matches!(WilderRSI::new(0), Err(RsiError::InvalidPeriod)));
    assert!(matches!(WilderRSI::new(1), Err(RsiError::InvalidPeriod)));
    assert!(WilderRSI::new(2).is_ok());
    assert!(WilderRSI::new(14).is_ok());
}

#[test]
fn no_rsi_before_bootstrap_completes() {
    let mut e = engine(5);
    assert_eq!(e.get_rsi(), None);
    for k in 0..5 {
        let o = e.add_price(k, 100 + k);
        assert_eq!(o.rsi, None);
        assert_eq!(o.warning, None);
        assert_eq!(e.get_rsi(), None);
    }
    let o = e.add_price(5, 105);
    assert!(o.rsi.is_some());
    assert_eq!(o.warning, None);
    assert_eq!(e.get_rsi(), o.rsi);
}

/// Period 3 with prices in tenths: 10.0, 11.0, 10.5, 12.0, 11.5, then the
/// open bar revised to 11.8 and again to 11.6. Every average and RSI value
/// is pinned exactly in fixed point.
#[test]
fn smoothing_scenario_with_revisions() {
    let mut e = engine(3);
    assert_eq!(e.add_price(1, 100).rsi, None);
    assert_eq!(e.add_price(2, 110).rsi, None);
    assert_eq!(e.add_price(3, 105).rsi, None);
    // Bootstrap gains [10, 0, 15], losses [0, 5, 0]:
    // avg_gain = 25_000_000/3, avg_loss = 5_000_000/3, RSI ~ 83.33.
    let o4 = e.add_price(4, 120);
    assert_eq!(o4.rsi, Some(83_333_338));
    assert_eq!(o4.warning, None);
    // New bar: gain 0, loss 5: avg_gain = 16_666_666/3, avg_loss =
    // (3_333_332 + 5_000_000)/3, RSI ~ 66.67.
    let o5 = e.add_price(5, 115);
    assert_eq!(o5.rsi, Some(66_666_670));
    // Revision against the captured baseline (price before last = 120):
    // loss 2, avg_gain unchanged, RSI ~ 75.76.
    let o6 = e.add_price(5, 118);
    assert_eq!(o6.rsi, Some(75_757_581));
    assert_eq!(o6.warning, None);
    // A further revision recomputes from the same baseline, not from the
    // 11.8 result: loss 4 against price before last 120.
    let o7 = e.add_price(5, 116);
    assert_eq!(o7.rsi, Some(69_444_446));
    assert_eq!(e.get_rsi(), Some(69_444_446));
}

#[test]
fn repeated_revisions_use_one_baseline() {
    let mut a = engine(3);
    let mut b = engine(3);
    for (ts, p) in [(1, 100), (2, 110), (3, 105), (4, 120), (5, 115)] {
        a.add_price(ts, p);
        b.add_price(ts, p);
    }
    // Engine `a` revises the open bar many times; engine `b` only once, with
    // the final price. Both must land on the same value and state.
    for p in [118, 111, 130, 95, 116] {
        a.add_price(5, p);
    }
    let direct = b.add_price(5, 116);
    assert_eq!(a.get_rsi(), direct.rsi);
    assert_eq!(a.get_rsi(), Some(69_444_446));
    // And the next bar evolves identically from here.
    let na = a.add_price(6, 108);
    let nb = b.add_price(6, 108);
    assert_eq!(na.rsi, nb.rsi);
}

#[test]
fn stale_input_is_a_noop() {
    let mut e = engine(3);
    let mut control = engine(3);
    for (ts, p) in [(1, 100), (2, 110), (3, 105), (4, 120)] {
        e.add_price(ts, p);
        control.add_price(ts, p);
    }
    let prior = e.get_rsi();
    let o = e.add_price(2, 999);
    assert_eq!(o.rsi, prior);
    assert_eq!(o.warning, Some(Warning::OutOfOrder));
    assert_eq!(e.get_rsi(), prior);
    // The stale tick left no trace: both engines agree on the next bar.
    let oe = e.add_price(5, 115);
    let oc = control.add_price(5, 115);
    assert_eq!(oe.rsi, oc.rsi);
    assert_eq!(oe.rsi, Some(66_666_670));
}

#[test]
fn stale_before_any_rsi_returns_absent() {
    let mut e = engine(3);
    e.add_price(10, 100);
    let o = e.add_price(9, 105);
    assert_eq!(o.rsi, None);
    assert_eq!(o.warning, Some(Warning::OutOfOrder));
}

#[test]
fn out_of_range_price_is_discarded() {
    let mut e = engine(3);
    for (ts, p) in [(1, 100), (2, 110), (3, 105), (4, 120)] {
        e.add_price(ts, p);
    }
    let prior = e.get_rsi();
    let o = e.add_price(5, 1_000_000_000_001);
    assert_eq!(o.rsi, prior);
    assert_eq!(o.warning, Some(Warning::InvalidPrice));
    assert_eq!(e.get_rsi(), prior);
    // The engine still opens bar 5 normally afterwards.
    let o5 = e.add_price(5, 115);
    assert_eq!(o5.warning, None);
    assert_eq!(o5.rsi, Some(66_666_670));
}

#[test]
fn out_of_range_price_before_first_bar() {
    let mut e = engine(2);
    let o = e.add_price(1, i64::MAX);
    assert_eq!(o.rsi, None);
    assert_eq!(o.warning, Some(Warning::InvalidPrice));
    // Nothing was recorded: the same timestamp still opens the first bar.
    let o1 = e.add_price(1, 100);
    assert_eq!(o1.warning, None);
    assert_eq!(o1.rsi, None);
}

#[test]
fn rising_prices_drive_rsi_to_top() {
    let mut e = engine(2);
    e.add_price(1, 10);
    e.add_price(2, 11);
    let o = e.add_price(3, 12);
    assert_eq!(o.rsi, Some(TOP));
    assert_eq!(e.add_price(4, 13).rsi, Some(TOP));
    assert_eq!(e.add_price(5, 13).rsi, Some(TOP));
    assert_eq!(e.add_price(6, 20).rsi, Some(TOP));
}

#[test]
fn falling_prices_drive_rsi_to_zero() {
    let mut e = engine(2);
    e.add_price(1, 13);
    e.add_price(2, 12);
    let o = e.add_price(3, 11);
    assert_eq!(o.rsi, Some(0));
    assert_eq!(e.add_price(4, 10).rsi, Some(0));
    assert_eq!(e.add_price(5, 9).rsi, Some(0));
}

/// A loss average that is strictly positive is not forced to zero by a
/// loss-free bar: it decays by the Wilder recurrence instead.
#[test]
fn zero_loss_bar_decays_instead_of_resetting() {
    let mut e = engine(2);
    e.add_price(1, 10);
    e.add_price(2, 20);
    // Initialization: avg_gain = avg_loss = 5_000_000, RSI exactly 50.
    let o3 = e.add_price(3, 10);
    assert_eq!(o3.rsi, Some(50_000_000));
    // A flat bar: gain 0 and loss 0, but the loss average halves rather
    // than snapping to 0 (which would read as RSI 100).
    let o4 = e.add_price(4, 10);
    assert_eq!(o4.rsi, Some(50_000_000));
}

#[test]
fn revision_of_first_observation() {
    let mut e = engine(2);
    assert_eq!(e.add_price(1, 100).rsi, None);
    // No price-before-last exists yet: only the close is overwritten.
    let r = e.add_price(1, 105);
    assert_eq!(r.rsi, None);
    assert_eq!(r.warning, None);
    // Gains are now measured from 105: bar 2 gains 5, bar 3 loses 10.
    e.add_price(2, 110);
    let o = e.add_price(3, 100);
    assert_eq!(o.rsi, Some(33_333_333));
}

#[test]
fn revision_during_bootstrap_overwrites_last_sample() {
    let mut e = engine(3);
    e.add_price(1, 100);
    e.add_price(2, 110);
    // The open bar's sample (gain 10) becomes a loss of 5.
    let r = e.add_price(2, 95);
    assert_eq!(r.rsi, None);
    assert_eq!(r.warning, None);
    e.add_price(3, 100);
    // Bootstrap gains [0, 5, 0], losses [5, 0, 10].
    let o = e.add_price(4, 90);
    assert_eq!(o.rsi, Some(24_999_992));
}

/// Right after initialization no smoothing baseline exists yet: a revision
/// of that bar leaves the averages alone and answers with the unchanged RSI.
#[test]
fn revision_right_after_initialization_keeps_rsi() {
    let mut e = engine(2);
    e.add_price(1, 10);
    e.add_price(2, 11);
    let init = e.add_price(3, 12);
    assert_eq!(init.rsi, Some(TOP));
    let r = e.add_price(3, 5);
    assert_eq!(r.rsi, Some(TOP));
    assert_eq!(r.warning, None);
    assert_eq!(e.get_rsi(), Some(TOP));
    // The close was still overwritten: the next bar measures against 5.
    let o = e.add_price(4, 4);
    assert_eq!(o.rsi, Some(50_000_000));
}

#[test]
fn prices_on_the_range_boundary_are_accepted() {
    let mut e = engine(2);
    assert_eq!(e.add_price(1, 1_000_000_000_000).warning, None);
    assert_eq!(e.add_price(2, -1_000_000_000_000).warning, None);
    assert_eq!(
        e.add_price(3, -1_000_000_000_001).warning,
        Some(Warning::InvalidPrice)
    );
    assert_eq!(e.add_price(3, 1_000_000_000_001).warning, Some(Warning::InvalidPrice));
}

#[test]
fn rsi_stays_in_range() {
    let mut e = engine(2);
    let prices = [5, 900, 2, 2, 1_000_000, 3, 3, 999_999_999, 0, -5, 7, -1_000_000_000_000];
    let mut ts = 0;
    for p in prices {
        let o = e.add_price(ts, p);
        if let Some(v) = o.rsi {
            assert!(v <= TOP);
        }
        ts += 1;
    }
}
