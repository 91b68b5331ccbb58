use enhanced_lib::fixed::Fp;
use enhanced_lib::shared::{
    build_avg, compute_total_average_for_each_trade, build_config, AppConfig, BuildConfigType,
    ParamType, TradingZoneType,
};
use enhanced_lib::trade_signal::TradeInstanceType;
use enhanced_lib::utils::{AvgEntry, Direction};

fn fp(x: f64) -> Fp {
    // exact decimal: the shortest round-trip text of the value
    let s = format!("{}", x);
    let neg = s.starts_with('-');
    let t = if neg { &s[1..] } else { &s[..] };
    let (ip, fr) = match t.split_once('.') {
        Some((a, b)) => (a, b),
        None => (t, ""),
    };
    let mantissa: i64 = format!("{}{}", ip, fr).parse().unwrap();
    let v = Fp::from_decimal(mantissa, fr.len() as u32);
    if neg { v.neg() } else { v }
}

fn fixture_config() -> AppConfig {
    AppConfig {
        fee: fp(0.06),
        risk_per_trade: fp(1.325),
        risk_reward: 35,
        focus: fp(67629.3),
        budget: fp(2000.0),
        support: fp(65858.0),
        resistance: fp(70495.0),
        percent_change: Fp::from_decimal(27906543465628042, 18),
        trade_split: fp(1.0),
        take_profit: None,
        kind: Direction::Long,
        entry: fp(67800.0),
        stop: fp(66000.0),
        min_size: fp(0.004),
        minimum_size: None,
        price_places: Some("%.1f".to_string()),
        decimal_places: Some("%.3f".to_string()),
        strategy: "quantity".to_string(),
        as_array: None,
        raw: None,
        use_fibonacci: None,
    }
}

#[test]
fn test_build_config_raw_instance() {
    let config = fixture_config();
    let params = ParamType { raw_instance: Some(true), ..Default::default() };
    match build_config(&config, params) {
        BuildConfigType::VecSignal(v) => {
            assert_eq!(v.len(), 1);
            // the fee is read as a percentage; the step is split once
            assert_eq!(v[0].fee, fp(0.0006));
            assert_eq!(v[0].percent_change, Fp::from_decimal(27906543465628042, 18));
            assert_eq!(v[0].risk_reward, 35);
            assert_eq!(v[0].risk_per_trade, fp(1.325));
            assert_eq!(v[0].minimum_size, fp(0.004));
            assert_eq!(v[0].support, fp(65858.0));
        },
        BuildConfigType::VecHashMap(_) => unreachable!(),
    }
}

#[test]
fn test_build_config_requires_stop() {
    let config = fixture_config();
    let params = ParamType {
        entry: Some(fp(67800.0)),
        kind: Some(Direction::Long),
        ..Default::default()
    };
    match build_config(&config, params) {
        BuildConfigType::VecHashMap(orders) => assert_eq!(orders.len(), 0),
        BuildConfigType::VecSignal(_) => unreachable!(),
    }
}

#[test]
fn test_build_config_validity_grouping() {
    // the validity check groups as: (long entry over support) OR
    // (short entry at or over support AND stop at least 0.999).
    // a long call with a stop under 0.999 is therefore still valid
    let config = fixture_config();
    let params = ParamType {
        entry: Some(fp(67800.0)),
        stop: Some(fp(0.5)),
        kind: Some(Direction::Long),
        no_of_trades: Some(35),
        ..Default::default()
    };
    match build_config(&config, params) {
        BuildConfigType::VecHashMap(orders) => assert!(orders.len() > 0),
        BuildConfigType::VecSignal(_) => unreachable!(),
    }
    // a short call with the same low stop fails the check
    let config = fixture_config();
    let params = ParamType {
        entry: Some(fp(67800.0)),
        stop: Some(fp(0.5)),
        kind: Some(Direction::Short),
        no_of_trades: Some(35),
        ..Default::default()
    };
    match build_config(&config, params) {
        BuildConfigType::VecHashMap(orders) => assert_eq!(orders.len(), 0),
        BuildConfigType::VecSignal(_) => unreachable!(),
    }
}

#[test]
fn test_build_config_rejects_equal_entry_and_stop() {
    let config = fixture_config();
    let params = ParamType {
        entry: Some(fp(67800.0)),
        stop: Some(fp(67800.0)),
        kind: Some(Direction::Long),
        ..Default::default()
    };
    match build_config(&config, params) {
        BuildConfigType::VecHashMap(orders) => assert_eq!(orders.len(), 0),
        BuildConfigType::VecSignal(_) => unreachable!(),
    }
}

#[test]
fn test_build_avg() {
    let trades = vec![
        AvgEntry { price: fp(100.0), quantity: fp(1.0) },
        AvgEntry { price: fp(200.0), quantity: fp(2.0) },
    ];
    let avg = build_avg(&trades, Direction::Long, "%.2f", "%.2f");
    assert_eq!(avg.price, fp(166.67));
    assert_eq!(avg.quantity, fp(3.0));
    assert_eq!(avg.pnl, fp(0.0));
}

#[test]
fn test_compute_total_average_for_each_trade() {
    // entry 100 / stop 90, long: the take-profit is 100. the trade at
    // 95 is pending; the trade at 105 is treated as filled at the
    // boundary (95) for averaging
    let config = AppConfig {
        fee: fp(0.0),
        risk_per_trade: fp(0.0),
        risk_reward: 4,
        focus: fp(0.0),
        budget: fp(0.0),
        support: fp(0.0),
        resistance: fp(0.0),
        percent_change: fp(0.02),
        trade_split: fp(1.0),
        take_profit: None,
        kind: Direction::Long,
        entry: fp(100.0),
        stop: fp(90.0),
        min_size: fp(0.0),
        minimum_size: None,
        price_places: None,
        decimal_places: None,
        strategy: "quantity".to_string(),
        as_array: None,
        raw: None,
        use_fibonacci: None,
    };
    let t1 = TradeInstanceType { entry: fp(95.0), quantity: fp(1.0), ..Default::default() };
    let t2 = TradeInstanceType { entry: fp(105.0), quantity: fp(2.0), ..Default::default() };
    let result =
        compute_total_average_for_each_trade(&config, vec![t1, t2], fp(0.0), fp(0.0));
    assert_eq!(result.len(), 2);

    // the pending trade averages with the filled-at-boundary trade
    assert_eq!(result[0].avg_entry, Some(fp(95.0)));
    assert_eq!(result[0].avg_size, Some(fp(3.0)));
    assert_eq!(result[0].pnl, fp(15.0));
    assert_eq!(result[0].neg_pnl, Some(fp(-285.0)));
    assert_eq!(result[0].sell_price, fp(100.0));
    assert_eq!(result[0].start_entry, Some(fp(100.0)));

    // the trade beyond the reference has no qualifying pending trades:
    // it passes through with its profit zeroed
    assert_eq!(result[1].avg_entry, None);
    assert_eq!(result[1].pnl, fp(0.0));
    assert_eq!(result[1].entry, fp(105.0));
}

#[test]
fn test_get_trading_zones_fibonacci() {
    let config = AppConfig {
        support: fp(100.0),
        resistance: fp(200.0),
        use_fibonacci: Some(true),
        ..fixture_config()
    };
    let zones = config.get_trading_zones(TradingZoneType {
        kind: Some(Direction::Long),
        trend: None,
        entry: fp(150.0),
        stop: fp(100.0),
        no_of_trades: 4,
        use_fibonacci: None,
    });
    assert_eq!(zones.len(), 9);
    assert_eq!(zones[0].stop, fp(100.0));
    assert_eq!(zones[0].entry, fp(123.6));
    assert_eq!(zones[8].stop, fp(241.4));
    assert_eq!(zones[8].entry, fp(261.8));
    assert_eq!(zones[0].size, fp(0.0));
}

#[test]
fn test_get_all_fields() {
    let config = fixture_config();
    let all = config.get_all_fields(vec![]);
    assert_eq!(all.len(), 20);
    assert_eq!(all[0], "fee");
    assert_eq!(all[19], "raw");
    let trimmed = config.get_all_fields(vec!["fee", "raw"]);
    assert_eq!(trimmed.len(), 18);
    assert!(!trimmed.contains(&"fee".to_string()));
    assert!(!trimmed.contains(&"raw".to_string()));
}
