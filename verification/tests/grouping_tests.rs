use enhanced_lib::fixed::Fp;
use enhanced_lib::trade_signal::{group_into_pairs_with_sum_less_than, TradeInstanceType};

fn fp(x: f64) -> Fp {
    // exact decimal: the shortest round-trip text of the value
    let s = format!("{}", x);
    let neg = s.starts_with('-');
    let t = if neg { &s[1..] } else { &s[..] };
    let (ip, fr) = match t.split_once('.') {
        Some((a, b)) => (a, b),
        None => (t, ""),
    };
    let mantissa: i64 = format!("{}{}", ip, fr).parse().unwrap();
    let v = Fp::from_decimal(mantissa, fr.len() as u32);
    if neg { v.neg() } else { v }
}

fn with_quantity(q: f64) -> TradeInstanceType {
    TradeInstanceType { quantity: fp(q), ..Default::default() }
}

#[test]
fn test_empty_list() {
    let arr: Vec<TradeInstanceType> = vec![];
    let result = group_into_pairs_with_sum_less_than(&arr, fp(10.0));
    assert_eq!(result, vec![vec![]]);
}

#[test]
fn test_single_element() {
    let arr = vec![with_quantity(5.0)];
    let result = group_into_pairs_with_sum_less_than(&arr, fp(10.0));
    assert_eq!(result, vec![vec![arr[0]]]);
}

#[test]
fn test_multiple_elements_with_sum_less_than_target() {
    let item1 = with_quantity(3.0);
    let item2 = with_quantity(4.0);
    let arr = vec![item1, item2];
    let result = group_into_pairs_with_sum_less_than(&arr, fp(10.0));
    assert_eq!(result, vec![vec![item1, item2]]);
}

#[test]
fn test_multiple_elements_with_sum_greater_than_target() {
    // quantities [6, 5] against a minimum of 10: the first bucket
    // already reaches the minimum, so the pair is not split
    let item1 = with_quantity(6.0);
    let item2 = with_quantity(5.0);
    let arr = vec![item1, item2];
    let result = group_into_pairs_with_sum_less_than(&arr, fp(10.0));
    assert_eq!(result, vec![vec![item1, item2]]);
}

#[test]
fn test_mixed_elements() {
    // quantities [3, 7, 2, 5] against 10: the first bucket closes as
    // soon as its running sum reaches 10, the leftover bucket is kept
    let item1 = with_quantity(3.0);
    let item2 = with_quantity(7.0);
    let item3 = with_quantity(2.0);
    let item4 = with_quantity(5.0);
    let arr = vec![item1, item2, item3, item4];
    let result = group_into_pairs_with_sum_less_than(&arr, fp(10.0));
    assert_eq!(result, vec![vec![item1, item2], vec![item3, item4]]);
}
