use enhanced_lib::fixed::Fp;
use enhanced_lib::trade_signal::Signal;
use enhanced_lib::utils::Direction;

fn fp(x: f64) -> Fp {
    // exact decimal: the shortest round-trip text of the value
    let s = format!("{}", x);
    let neg = s.starts_with('-');
    let t = if neg { &s[1..] } else { &s[..] };
    let (ip, fr) = match t.split_once('.') {
        Some((a, b)) => (a, b),
        None => (t, ""),
    };
    let mantissa: i64 = format!("{}{}", ip, fr).parse().unwrap();
    let v = Fp::from_decimal(mantissa, fr.len() as u32);
    if neg { v.neg() } else { v }
}

#[test]
fn test_process_orders_ladder() {
    // one limit order below the price and one market order above it;
    // the market stop chains to the last limit entry, and the limit
    // orders carry the accumulated market fees
    let signal = Signal {
        focus: fp(10.0),
        percent_change: fp(0.02),
        price_places: "%.1f".to_string(),
        decimal_places: "%.3f".to_string(),
        fee: fp(0.001),
        risk_reward: 4,
        ..Default::default()
    };
    let zones = vec![fp(10.0), fp(9.0), fp(11.0)];
    let orders = signal.process_orders(fp(10.0), fp(8.5), &zones, Direction::Long);
    assert_eq!(orders.len(), 2);

    let limit = &orders[0];
    assert_eq!(limit.entry, fp(9.0));
    assert_eq!(limit.stop, fp(8.5));
    assert_eq!(limit.risk, fp(0.5));
    assert_eq!(limit.quantity, fp(1.0));
    assert_eq!(limit.sell_price, fp(8.8));
    assert_eq!(limit.incurred_sell, fp(9.0));
    assert_eq!(limit.pnl, fp(-0.151));
    assert_eq!(limit.fee, fp(0.009));
    assert_eq!(limit.net, fp(-0.16));
    assert_eq!(limit.incurred, fp(0.003));
    assert_eq!(limit.stop_percent, fp(0.056));
    assert_eq!(limit.rr, 4);

    let market = &orders[1];
    assert_eq!(market.entry, fp(11.0));
    assert_eq!(market.stop, fp(9.0));
    assert_eq!(market.risk, fp(0.5));
    assert_eq!(market.quantity, fp(0.25));
    assert_eq!(market.sell_price, fp(8.9));
    assert_eq!(market.incurred_sell, fp(8.9));
    assert_eq!(market.pnl, fp(-0.537));
    assert_eq!(market.fee, fp(0.003));
    assert_eq!(market.net, fp(-0.54));
    assert_eq!(market.incurred, fp(0.0));
    assert_eq!(market.stop_percent, fp(0.182));
    assert_eq!(market.rr, 4);
}

#[test]
fn test_process_orders_minimum_size_aggregation() {
    // all three orders fall under the minimum size and sum below it:
    // one leftover bucket collapses into a single synthetic order with
    // the weighted-average entry, the summed risk, and the profit at
    // the bucket's first sell price
    let signal = Signal {
        focus: fp(100.0),
        percent_change: fp(0.02),
        price_places: "%.1f".to_string(),
        decimal_places: "%.3f".to_string(),
        fee: fp(0.001),
        risk_reward: 4,
        risk_per_trade: fp(1.0),
        minimum_size: fp(3.0),
        ..Default::default()
    };
    let zones = vec![fp(100.0), fp(98.0), fp(99.0), fp(101.0)];
    let orders = signal.process_orders(fp(100.0), fp(95.0), &zones, Direction::Long);
    assert_eq!(orders.len(), 1);
    let synth = &orders[0];
    assert_eq!(synth.entry, fp(99.4));
    assert_eq!(synth.quantity, fp(1.833));
    assert_eq!(synth.risk, fp(3.0));
    assert_eq!(synth.pnl, fp(-0.917));
    assert_eq!(synth.sell_price, fp(0.0));
    assert_eq!(synth.fee, fp(0.0));
}

#[test]
fn test_process_orders_size_escalation() {
    // under size escalation every order's quantity is scaled by its
    // distance from the ladder's end and the risk re-derived from the
    // scaled loss at the stop
    let signal = Signal {
        focus: fp(10.0),
        percent_change: fp(0.02),
        price_places: "%.1f".to_string(),
        decimal_places: "%.3f".to_string(),
        fee: fp(0.001),
        risk_reward: 4,
        risk_per_trade: fp(1.0),
        increase_size: true,
        ..Default::default()
    };
    let zones = vec![fp(10.0), fp(9.0), fp(11.0)];
    let orders = signal.process_orders(fp(10.0), fp(8.5), &zones, Direction::Long);
    assert_eq!(orders.len(), 2);
    assert_eq!(orders[0].entry, fp(9.0));
    assert_eq!(orders[0].quantity, fp(4.0));
    assert_eq!(orders[0].risk, fp(2.0));
    assert_eq!(orders[0].fee, fp(0.036));
    assert_eq!(orders[0].pnl, fp(-0.604));
    assert_eq!(orders[0].incurred, fp(0.011));
    assert_eq!(orders[1].entry, fp(11.0));
    assert_eq!(orders[1].quantity, fp(1.0));
    assert_eq!(orders[1].risk, fp(2.0));
    assert_eq!(orders[1].fee, fp(0.011));
    assert_eq!(orders[1].pnl, fp(-2.149));
}

#[test]
fn test_process_orders_short_keeps_rung_at_price() {
    // short direction: only the rung exactly at the rounded current
    // price survives the split, as a limit order stopped at the
    // stop loss, with the take-profit one double step below it
    let signal = Signal {
        focus: fp(10.0),
        percent_change: fp(0.02),
        price_places: "%.1f".to_string(),
        decimal_places: "%.3f".to_string(),
        fee: fp(0.001),
        risk_reward: 4,
        risk_per_trade: fp(1.0),
        ..Default::default()
    };
    let zones = vec![fp(10.0), fp(10.0), fp(11.0)];
    let orders = signal.process_orders(fp(10.0), fp(12.0), &zones, Direction::Short);
    assert_eq!(orders.len(), 1);
    let only = &orders[0];
    assert_eq!(only.entry, fp(10.0));
    assert_eq!(only.stop, fp(12.0));
    assert_eq!(only.quantity, fp(0.5));
    assert_eq!(only.risk, fp(1.0));
    assert_eq!(only.sell_price, fp(11.5));
    assert_eq!(only.pnl, fp(-0.764230769231));
    assert_eq!(only.net, fp(-0.769));
    assert_eq!(only.stop_percent, fp(0.2));
}

#[test]
fn test_process_orders_empty_ladder() {
    let signal = Signal { percent_change: fp(0.02), ..Default::default() };
    let zones: Vec<Fp> = vec![];
    let orders = signal.process_orders(fp(10.0), fp(8.5), &zones, Direction::Long);
    assert_eq!(orders.len(), 0);
    let zones = vec![fp(10.0)];
    let orders = signal.process_orders(fp(10.0), fp(8.5), &zones, Direction::Long);
    assert_eq!(orders.len(), 0);
}

#[test]
fn test_get_risk_per_trade() {
    let signal = Signal { risk_per_trade: fp(1.325), ..Default::default() };
    assert_eq!(signal.get_risk_per_trade(5), fp(1.325));
    let signal = Signal { zone_risk: 3, ..Default::default() };
    assert_eq!(signal.get_risk_per_trade(4), fp(0.75));
}
