use enhanced_lib::fixed::Fp;
use enhanced_lib::trade_signal::{Signal, _get_range, _get_trade_zone, _get_zone_nogen};
use enhanced_lib::utils::Direction;

fn fp(x: f64) -> Fp {
    // exact decimal: the shortest round-trip text of the value
    let s = format!("{}", x);
    let neg = s.starts_with('-');
    let t = if neg { &s[1..] } else { &s[..] };
    let (ip, fr) = match t.split_once('.') {
        Some((a, b)) => (a, b),
        None => (t, ""),
    };
    let mantissa: i64 = format!("{}{}", ip, fr).parse().unwrap();
    let v = Fp::from_decimal(mantissa, fr.len() as u32);
    if neg { v.neg() } else { v }
}

fn fps(xs: &[f64]) -> Vec<Fp> {
    xs.iter().map(|&x| fp(x)).collect()
}

fn fixture_signal() -> Signal {
    Signal {
        focus: fp(67629.3),
        budget: fp(2000.0),
        percent_change: Fp::from_decimal(27906543465628042, 18),
        price_places: "%.1f".to_string(),
        decimal_places: "%.3f".to_string(),
        fee: fp(0.0006),
        support: fp(65858.0),
        resistance: fp(70495.0),
        take_profit: None,
        risk_per_trade: fp(1.325),
        risk_reward: 35,
        additional_increase: fp(0.0),
        split: None,
        minimum_size: fp(0.004),
        ..Default::default()
    }
}

#[test]
fn test_get_zone_nogen() {
    let result = _get_zone_nogen(fp(100.0), fp(95.0), fp(0.02), "%.5f");
    assert_eq!(result, fps(&[96.9]));

    let result = _get_zone_nogen(fp(90.0), fp(95.0), fp(0.02), "%.5f");
    assert_eq!(result, fps(&[95.0, 93.13725, 91.31103, 89.52062]));

    let result = _get_zone_nogen(fp(105.0), fp(95.0), fp(0.02), "%.5f");
    assert_eq!(result, fps(&[96.9, 100.81476, 104.88768]));
}

#[test]
fn test_get_range() {
    let result = _get_range((fp(10.0), fp(20.0)), 5, "%.5f");
    assert_eq!(result, fps(&[10.0, 12.0, 14.0, 16.0, 18.0, 20.0]));

    let result = _get_range((fp(5.123), fp(10.456)), 3, "%.3f");
    assert_eq!(result, fps(&[5.123, 6.901, 8.678, 10.456]));

    let result = _get_range((fp(0.0), fp(1.0)), 0, "%.2f");
    assert_eq!(result, fps(&[1.0]));
}

#[test]
fn test_get_trade_zone() {
    let result = _get_trade_zone(fp(15.0), (fp(10.0), fp(20.0)), 5, "%.5f");
    assert_eq!(result, Some((fp(14.0), fp(16.0))));

    let result = _get_trade_zone(fp(8.0), (fp(5.0), fp(15.0)), 3, "%.3f");
    assert_eq!(result, Some((fp(5.0), fp(8.333))));

    let result = _get_trade_zone(fp(25.0), (fp(10.0), fp(20.0)), 5, "%.2f");
    assert_eq!(result, None);
}

#[test]
fn test_signal_creation() {
    let signal = fixture_signal();

    assert_eq!(signal.focus, fp(67629.3));
    assert_eq!(signal.budget, fp(2000.0));
    assert_eq!(signal.price_places, "%.1f");
    assert_eq!(signal.decimal_places, "%.3f");
    assert_eq!(signal.zone_risk, 1);
    assert_eq!(signal.fee, fp(0.0006));
    assert_eq!(signal.support, fp(65858.0));
    assert_eq!(signal.risk_reward, 35);
    assert_eq!(signal.resistance, fp(70495.0));
    assert_eq!(signal.take_profit, None);
    assert_eq!(signal.risk_per_trade, fp(1.325));
    assert!(!signal.increase_size);
    assert_eq!(signal.additional_increase, fp(0.0));
    assert_eq!(signal.minimum_pnl, fp(0.0));
    assert_eq!(signal.split, None);
    assert_eq!(signal.max_size, None);
    assert_eq!(signal.trade_size, None);
    assert!(!signal.increase_position);
    assert!(!signal.default);
    assert_eq!(signal.minimum_size, fp(0.004));
    assert_eq!(signal.min_trades(), 55);
    // the step is carried on the engine's decimal grid, so the zone
    // risk is exact at twelve fractional digits
    assert_eq!(signal.risk(), Fp::from_raw(55_813_086_932_000));
    assert_eq!(signal.min_price(), fp(0.1));

    // one margin step up and down from a price
    let (range_start, range_end) = signal.get_margin_range(fp(63629.2)).unwrap();
    assert_eq!(range_start, fp(62269.3));
    assert_eq!(range_end, fp(64007.0));

    // the subdivision step pair that brackets the price
    let result = signal.get_future_range(fp(63629.2));
    assert_eq!(result, Some((fp(63627.9), fp(63659.5))));

    // the widest usable trade range
    let result = signal.get_trade_range(fp(67800.0), Direction::Long);
    assert_eq!(result, Some((fp(67732.2), fp(67767.2))));

    // the margin zones walked down to the support
    let result = signal.get_margin_zones(fp(67800.0), Direction::Long);
    assert_eq!(
        result,
        vec![(fp(67629.3), fp(69516.6)), (fp(65793.2), fp(67629.3))]
    );
}

#[test]
fn test_get_range_ladders() {
    let signal = fixture_signal();

    // long: two blocks of 28 rounded rungs each
    let result = signal.get_range(fp(100.0), Direction::Long);
    let mut expected: Vec<Fp> = Vec::new();
    for _ in 0..28 {
        expected.push(fp(100.0));
    }
    for _ in 0..28 {
        expected.push(fp(100.1));
    }
    assert_eq!(result, expected);

    // short: the two neighbouring ranges widen the ladder; on the exact
    // decimal grid the blocks fall one tick apart
    let result = signal.get_range(fp(100.0), Direction::Short);
    let mut expected: Vec<Fp> = Vec::new();
    for (v, n) in [(99.9, 28), (100.0, 56), (100.1, 28), (100.2, 28), (100.3, 28)] {
        for _ in 0..n {
            expected.push(fp(v));
        }
    }
    assert_eq!(result, expected);
}

#[test]
fn test_get_trade_zones() {
    let signal = fixture_signal();
    let expected = fps(&[
        67766.6, 67767.2, 67767.8, 67768.5, 67769.1, 67769.7, 67770.3, 67771.0, 67771.6, 67772.2,
        67772.8, 67773.5, 67774.1, 67774.7, 67775.3, 67776.0, 67776.6, 67777.2, 67777.8, 67778.4,
        67779.1, 67779.7, 67780.3, 67780.9, 67781.6, 67782.2, 67782.8, 67783.4, 67784.1, 67784.7,
        67785.3, 67785.9, 67786.6, 67787.2, 67787.8, 67788.4, 67789.1, 67789.7, 67790.3, 67790.9,
        67791.5, 67792.2, 67792.8, 67793.4, 67794.0, 67794.7, 67795.3, 67795.9, 67796.5, 67797.2,
        67797.8, 67798.4, 67799.0, 67799.7, 67800.3, 67800.9,
    ]);
    let result = signal.get_trade_zones(fp(67800.0), None, None, Direction::Long);
    assert_eq!(result, Some(expected));
}

#[test]
fn test_get_future_zones() {
    let signal = fixture_signal();
    let expected = fps(&[
        67845.2, 67899.3, 67953.5, 68007.7, 68061.9, 68116.2, 68170.5, 68224.8, 68279.2, 68333.7,
        68388.1, 68442.7, 68497.2, 68551.9, 68606.5, 68661.2, 68716.0, 68770.8, 68825.6, 68880.5,
        68935.4, 68990.3, 69045.4, 69100.4, 69155.5, 69210.6, 69265.8, 69321.1, 69376.3, 69431.6,
        69487.0, 69542.4, 69597.9, 69653.3, 69708.9, 69764.5,
    ]);
    let result = signal.get_future_zones(fp(67800.0), Direction::Short);
    assert_eq!(result, expected);
}

#[test]
fn test_future_zones_idempotent_and_sorted() {
    // re-running with identical inputs yields an identical sequence,
    // already sorted ascending: no hidden state leaks between calls
    let signal = fixture_signal();
    let first = signal.get_future_zones(fp(67800.0), Direction::Short);
    let second = signal.get_future_zones(fp(67800.0), Direction::Short);
    assert_eq!(first, second);
    for w in first.windows(2) {
        assert!(w[0].raw() <= w[1].raw());
    }
    let third = signal.get_future_zones(fp(67800.0), Direction::Long);
    let fourth = signal.get_future_zones(fp(67800.0), Direction::Long);
    assert_eq!(third, fourth);
    for w in third.windows(2) {
        assert!(w[0].raw() <= w[1].raw());
    }
}

#[test]
fn test_get_margin_zones_resistance_cap() {
    // with no support set the walk heads for the resistance; a cursor
    // that cannot progress past a stable range is cut off by the
    // fixed step cap rather than looping
    let signal = Signal { support: fp(0.0), ..fixture_signal() };
    let result = signal.get_margin_zones(fp(67800.0), Direction::Long);
    assert_eq!(result.len(), 21);
    for pair in result.iter() {
        assert_eq!(*pair, (fp(67629.3), fp(69516.6)));
    }
}

#[test]
fn test_to_f_beyond_grid_precision() {
    // a precision at or past the engine's twelve digits leaves the
    // value unchanged
    let signal = Signal { price_places: "%.15f".to_string(), ..fixture_signal() };
    assert_eq!(signal.to_f(fp(123.456789)), fp(123.456789));
}

#[test]
fn test_future_zones_empty_below_support() {
    // a margin range whose top sits under the support is out of
    // tradable territory: the ladder is empty
    let signal = Signal { focus: fp(100.0), support: fp(70000.0), ..fixture_signal() };
    let result = signal.get_future_zones(fp(100.0), Direction::Long);
    assert_eq!(result.len(), 0);
}

#[test]
fn test_get_zones() {
    // the display rounding and the precision-spec parsing that the
    // zone text formatting depends on
    let value = 3.14159_f64;
    let places = 2;
    let formatted = format!("{:.*}", places, value);
    assert_eq!(formatted, "3.14");
    let number = enhanced_lib::utils::parse_places("%.2f").unwrap();
    assert_eq!(number, 2);
}
