use enhanced_lib::fixed::Fp;
use enhanced_lib::utils::{
    determine_amount_to_sell, determine_avg, determine_close_price, determine_fib_support,
    determine_new_amount_to_sell, determine_pnl, determine_position_size, determine_stop_and_size,
    extend_fibonacci, fibonacci_analysis, get_current_time, parse_direction, parse_places, to_f,
    AvgEntry, Direction, FibPoint, PositionSizeParams,
};

fn fp(x: f64) -> Fp {
    // exact decimal: the shortest round-trip text of the value
    let s = format!("{}", x);
    let neg = s.starts_with('-');
    let t = if neg { &s[1..] } else { &s[..] };
    let (ip, fr) = match t.split_once('.') {
        Some((a, b)) => (a, b),
        None => (t, ""),
    };
    let mantissa: i64 = format!("{}{}", ip, fr).parse().unwrap();
    let v = Fp::from_decimal(mantissa, fr.len() as u32);
    if neg { v.neg() } else { v }
}

#[test]
fn test_get_current_time() {
    let timestamp = get_current_time();
    assert!(timestamp.parse::<f64>().is_ok());
}

#[test]
fn test_to_f() {
    assert_eq!(to_f(fp(123.456789), "%.2f"), fp(123.46));
    assert_eq!(to_f(fp(123.456789), "%.1f"), fp(123.5));
}

#[test]
fn test_to_f_degrades_on_malformed_spec() {
    // an unreadable precision spec leaves the value unrounded
    assert_eq!(to_f(fp(123.456789), "nonsense"), fp(123.456789));
    assert_eq!(to_f(fp(123.456789), "%.f"), fp(123.456789));
    // the f-less form the original accepted still parses
    assert_eq!(to_f(fp(123.456789), "%.2"), fp(123.46));
    assert_eq!(parse_places("%.3f"), Some(3));
    assert_eq!(parse_places("%.12f"), Some(12));
    assert_eq!(parse_places("%.x"), None);
}

#[test]
fn test_parse_direction() {
    assert_eq!(parse_direction("long"), Some(Direction::Long));
    assert_eq!(parse_direction("short"), Some(Direction::Short));
    assert_eq!(parse_direction("Long"), None);
    assert_eq!(parse_direction("sideways"), None);
    assert_eq!(parse_direction(""), None);
}

#[test]
fn test_determine_pnl() {
    assert_eq!(determine_pnl(fp(100.0), fp(110.0), fp(10.0), Direction::Long), fp(100.0));
    assert_eq!(determine_pnl(fp(100.0), fp(90.0), fp(10.0), Direction::Short), fp(100.0));
}

#[test]
fn test_pnl_direction_antisymmetry() {
    // the long figure is the exact negation of the short figure
    let cases = [(100.0, 110.0, 10.0), (100.0, 90.0, 2.5), (62500.0, 62000.0, 0.04)];
    for &(e, c, q) in cases.iter() {
        let long = determine_pnl(fp(e), fp(c), fp(q), Direction::Long);
        let short = determine_pnl(fp(e), fp(c), fp(q), Direction::Short);
        assert_eq!(long, short.neg());
    }
}

#[test]
fn test_determine_new_amount_to_sell() {
    assert_eq!(
        determine_new_amount_to_sell(fp(100.0), fp(10.0), fp(110.0), fp(100.0), Direction::Long, "%.2f"),
        fp(10.0)
    );
    assert_eq!(
        determine_new_amount_to_sell(fp(100.0), fp(10.0), fp(90.0), fp(100.0), Direction::Short, "%.2f"),
        fp(10.0)
    );
}

#[test]
fn test_determine_amount_to_sell() {
    assert_eq!(
        determine_amount_to_sell(fp(100.0), fp(10.0), fp(110.0), fp(100.0), "%.2f", None),
        fp(10.0)
    );
    assert_eq!(
        determine_amount_to_sell(fp(100.0), fp(10.0), fp(90.0), fp(100.0), "%.2f", Some(Direction::Short)),
        fp(10.0)
    );
}

#[test]
fn test_determine_stop_and_size() {
    assert_eq!(determine_stop_and_size(fp(100.0), fp(100.0), fp(110.0), Direction::Long), fp(10.0));
    assert_eq!(determine_stop_and_size(fp(100.0), fp(100.0), fp(90.0), Direction::Short), fp(10.0));
    // a zero take-profit distance yields the 0 sentinel, not a failure
    assert_eq!(determine_stop_and_size(fp(100.0), fp(100.0), fp(100.0), Direction::Long), fp(0.0));
}

#[test]
fn test_determine_close_price() {
    assert_eq!(determine_close_price(fp(100.0), fp(100.0), fp(10.0), 1, Direction::Long), fp(110.0));
    assert_eq!(determine_close_price(fp(100.0), fp(100.0), fp(10.0), 1, Direction::Short), fp(90.0));
    // a zero notional position yields 0
    assert_eq!(determine_close_price(fp(100.0), fp(100.0), fp(0.0), 1, Direction::Long), fp(0.0));
}

#[test]
fn test_close_price_inverts_pnl() {
    // solving a profit for its close price and closing there realises it
    let close = determine_close_price(fp(100.0), fp(250.0), fp(10.0), 1, Direction::Long);
    assert_eq!(determine_pnl(fp(100.0), close, fp(10.0), Direction::Long), fp(250.0));
    let close = determine_close_price(fp(100.0), fp(250.0), fp(10.0), 1, Direction::Short);
    assert_eq!(determine_pnl(fp(100.0), close, fp(10.0), Direction::Short), fp(250.0));
}

#[test]
fn test_determine_position_size() {
    let mut params = PositionSizeParams {
        entry: fp(100.0),
        stop: Some(fp(90.0)),
        budget: fp(1000.0),
        places: "%.2f".to_string(),
        ..Default::default()
    };
    assert_eq!(determine_position_size(&params), Some(fp(100.0)));
    params = PositionSizeParams {
        entry: fp(100.0),
        budget: fp(1000.0),
        percent: Some(fp(0.1)),
        places: "%.2f".to_string(),
        ..Default::default()
    };
    assert_eq!(determine_position_size(&params), Some(fp(100.0)));
    params = PositionSizeParams {
        entry: fp(62500.0),
        stop: Some(fp(62000.0)),
        budget: fp(20.0),
        percent: Some(fp(0.1)),
        places: "%.2f".to_string(),
        ..Default::default()
    };
    assert_eq!(determine_position_size(&params), Some(fp(0.04)));
}

#[test]
fn test_determine_position_size_undefined() {
    // no stop and no percent: the risk fraction is undefined
    let params = PositionSizeParams { entry: fp(100.0), budget: fp(1000.0), ..Default::default() };
    assert_eq!(determine_position_size(&params), None);
    // a zero stop distance is undefined too
    let params = PositionSizeParams {
        entry: fp(100.0),
        stop: Some(fp(100.0)),
        budget: fp(1000.0),
        ..Default::default()
    };
    assert_eq!(determine_position_size(&params), None);
}

#[test]
fn test_determine_new_amount_to_sell_zero_loss() {
    // a sell price at the entry makes the expected loss zero: the
    // quantity degrades to the 0 sentinel
    assert_eq!(
        determine_new_amount_to_sell(fp(100.0), fp(10.0), fp(100.0), fp(50.0), Direction::Long, "%.2f"),
        fp(0.0)
    );
}

#[test]
fn test_to_f_whole_units() {
    assert_eq!(to_f(fp(55.5), "%.0f"), fp(56.0));
    assert_eq!(to_f(fp(55.4), "%.0f"), fp(55.0));
    assert_eq!(to_f(fp(-55.5), "%.0f"), fp(-56.0));
}

#[test]
fn test_determine_avg() {
    let orders = vec![
        AvgEntry { price: fp(100.0), quantity: fp(1.0) },
        AvgEntry { price: fp(200.0), quantity: fp(2.0) },
    ];
    let avg = determine_avg(&orders, "%.2f", "%.2f");
    assert_eq!(avg.price, fp(166.67));
    assert_eq!(avg.quantity, fp(3.0));
}

#[test]
fn test_determine_avg_zero_quantity() {
    let orders = vec![AvgEntry { price: fp(100.0), quantity: fp(0.0) }];
    let avg = determine_avg(&orders, "%.2f", "%.2f");
    assert_eq!(avg.price, fp(0.0));
    assert_eq!(avg.quantity, fp(0.0));
}

#[test]
fn test_fibonacci_analysis() {
    let result = fibonacci_analysis(fp(100.0), fp(200.0), Direction::Long, Direction::Long, "%.1f");
    let expected: Vec<Fp> = [100.0, 123.6, 138.2, 150.0, 161.8, 178.9, 200.0, 227.2, 241.4, 261.8]
        .iter()
        .map(|&x| fp(x))
        .collect();
    assert_eq!(result, expected);

    let result = fibonacci_analysis(fp(100.0), fp(200.0), Direction::Short, Direction::Long, "%.1f");
    let expected: Vec<Fp> = [261.8, 241.4, 227.2, 200.0, 178.9, 161.8, 150.0, 138.2, 123.6, 100.0]
        .iter()
        .map(|&x| fp(x))
        .collect();
    assert_eq!(result, expected);
}

#[test]
fn test_determine_fib_support() {
    let value_with_fibs = vec![
        FibPoint { fib: fp(0.236), value: fp(123.6) },
        FibPoint { fib: fp(0.382), value: fp(138.2) },
    ];
    let result = determine_fib_support(&value_with_fibs, "%.1f").unwrap();
    assert_eq!(result.support, fp(100.0));
    assert_eq!(result.resistance, fp(200.0));

    let value_with_fibs = vec![
        FibPoint { fib: fp(0.5), value: fp(150.0) },
        FibPoint { fib: fp(0.618), value: fp(161.8) },
    ];
    let result = determine_fib_support(&value_with_fibs, "%.1f").unwrap();
    assert_eq!(result.support, fp(100.0));
    assert_eq!(result.resistance, fp(200.0));
}

#[test]
fn test_determine_fib_support_singular() {
    // equal ratios make the system singular: no band is solved
    let value_with_fibs = vec![
        FibPoint { fib: fp(0.5), value: fp(150.0) },
        FibPoint { fib: fp(0.5), value: fp(151.0) },
    ];
    assert_eq!(determine_fib_support(&value_with_fibs, "%.1f"), None);
}

#[test]
fn test_extend_fibonacci() {
    let result = extend_fibonacci(
        fp(50000.0),
        fp(60000.0),
        Some(fp(52300.0)),
        Direction::Long,
        Direction::Long,
        "%.1f",
        fp(1.0),
        fp(0.0),
    )
    .unwrap();
    assert_eq!(result.support, fp(50000.0));
    assert_eq!(result.resistance, fp(52360.0));
}

#[test]
fn test_extend_fibonacci_focus_below_ladder() {
    // a focus under every level leaves no buy zone to anchor on
    let result = extend_fibonacci(
        fp(50000.0),
        fp(60000.0),
        Some(fp(10.0)),
        Direction::Long,
        Direction::Long,
        "%.1f",
        fp(1.0),
        fp(0.0),
    );
    assert_eq!(result, None);
}
