//! The signal engine: geometric price-zone search around a focus price
//! and the order-ladder builder on top of it.

use crate::fixed::{
    abs_i, add_v, clip_i, div_v, fp_v, mul_v, pow10, sub_v, trunc_units_v, Fp, SCALE, SCALE_DIGITS,
};
use crate::sorting::{
    dedup_adjacent, filter_ge, filter_gt, filter_le, filter_lt, find_first_gt, first_gt,
    lemma_sort_seq_sorted, seq_max_s,
    seq_min_s, sort_dedup_fps, sort_fps, sort_seq, sorted_ints, views,
};
use crate::utils::{
    close_price_v, determine_avg, determine_close_price, determine_pnl, determine_position_size,
    parse_places, parse_places_s, pnl_v, position_size_v, to_f, to_f_v, AvgEntry, Direction,
    PositionSizeParams,
};
use vstd::prelude::*;

verus! {

/// One constructed order of a ladder, with the running-average fields
/// the aggregator stamps on afterwards.
#[derive(Clone, Copy, Debug, PartialEq, Eq, Structural)]
pub struct TradeInstanceType {
    /// Entry price.
    pub entry: Fp,
    /// Currency amount risked on the order.
    pub risk: Fp,
    /// Position size.
    pub quantity: Fp,
    /// Take-profit price.
    pub sell_price: Fp,
    /// Break-even price covering the incurred fees.
    pub incurred_sell: Fp,
    /// Stop price.
    pub stop: Fp,
    /// Gross profit target.
    pub pnl: Fp,
    /// Fee paid to open.
    pub fee: Fp,
    /// Profit net of the fee.
    pub net: Fp,
    /// Cumulative fee and risk carried from earlier orders.
    pub incurred: Fp,
    /// Stop distance as a fraction of the entry.
    pub stop_percent: Fp,
    /// The risk/reward ratio the order was built under.
    pub rr: u32,
    /// Average entry across the ladder, once aggregated.
    pub avg_entry: Option<Fp>,
    /// Average size across the ladder, once aggregated.
    pub avg_size: Option<Fp>,
    /// Loss at the stop, once aggregated.
    pub neg_pnl: Option<Fp>,
    /// The reference entry the aggregation ran against.
    pub start_entry: Option<Fp>,
}

impl Default for TradeInstanceType {
    /// All prices and amounts zero, no aggregation fields.
    fn default() -> (r: Self)
        ensures
            r.entry@ == 0 && r.risk@ == 0 && r.quantity@ == 0 && r.sell_price@ == 0,
            r.incurred_sell@ == 0 && r.stop@ == 0 && r.pnl@ == 0 && r.fee@ == 0,
            r.net@ == 0 && r.incurred@ == 0 && r.stop_percent@ == 0 && r.rr == 0,
            r.avg_entry is None && r.avg_size is None && r.neg_pnl is None,
            r.start_entry is None,
    {
        TradeInstanceType {
            entry: Fp::zero(),
            risk: Fp::zero(),
            quantity: Fp::zero(),
            sell_price: Fp::zero(),
            incurred_sell: Fp::zero(),
            stop: Fp::zero(),
            pnl: Fp::zero(),
            fee: Fp::zero(),
            net: Fp::zero(),
            incurred: Fp::zero(),
            stop_percent: Fp::zero(),
            rr: 0,
            avg_entry: None,
            avg_size: None,
            neg_pnl: None,
            start_entry: None,
        }
    }
}

/// The grouping walk: orders are taken in turn into the current bucket;
/// a bucket closes as soon as its running quantity sum reaches the
/// target, and a non-empty leftover bucket is kept at the end.
pub open spec fn group_go(
    s: Seq<TradeInstanceType>,
    target: int,
    i: int,
    cur: Seq<TradeInstanceType>,
    cur_sum: int,
    acc: Seq<Seq<TradeInstanceType>>,
) -> Seq<Seq<TradeInstanceType>>
    decreases s.len() - i,
{
    if i < 0 || i >= s.len() {
        if cur.len() > 0 {
            acc.push(cur)
        } else {
            acc
        }
    } else {
        let cur2 = cur.push(s[i]);
        let sum2 = add_v(cur_sum, s[i].quantity@);
        if sum2 >= target {
            group_go(s, target, i + 1, Seq::empty(), 0, acc.push(cur2))
        } else {
            group_go(s, target, i + 1, cur2, sum2, acc)
        }
    }
}

/// The bucketing of a ladder by quantity: consecutive buckets, each
/// closed as soon as its sum reaches the target; an empty input yields
/// one empty bucket.
pub open spec fn group_by_sum(s: Seq<TradeInstanceType>, target: int) -> Seq<
    Seq<TradeInstanceType>,
> {
    let g = group_go(s, target, 0, Seq::empty(), 0, Seq::empty());
    if g.len() == 0 {
        seq![Seq::<TradeInstanceType>::empty()]
    } else {
        g
    }
}

/// Group consecutive orders into buckets whose summed quantity first
/// reaches the target; the leftover bucket is kept even when under it.
pub fn group_into_pairs_with_sum_less_than(arr: &Vec<TradeInstanceType>, target_sum: Fp) -> (r: Vec<
    Vec<TradeInstanceType>,
>)
    ensures
        r@.map_values(|g: Vec<TradeInstanceType>| g@) == group_by_sum(arr@, target_sum@),
{
    let ghost s = arr@;
    let mut result: Vec<Vec<TradeInstanceType>> = Vec::new();
    let mut current_group: Vec<TradeInstanceType> = Vec::new();
    let mut current_sum = Fp::zero();
    let mut i: usize = 0;
    proof {
        assert(result@.map_values(|g: Vec<TradeInstanceType>| g@) =~= Seq::<
            Seq<TradeInstanceType>,
        >::empty());
        assert(current_group@ =~= Seq::<TradeInstanceType>::empty());
    }
    while i < arr.len()
        invariant
            i <= s.len(),
            s == arr@,
            group_go(s, target_sum@, i as int, current_group@, current_sum@, result@.map_values(|g: Vec<TradeInstanceType>| g@))
                == group_go(s, target_sum@, 0, Seq::empty(), 0, Seq::empty()),
        decreases s.len() - i,
    {
        current_group.push(arr[i]);
        current_sum = current_sum.add(arr[i].quantity);
        if current_sum.ge(target_sum) {
            let closed = current_group;
            current_group = Vec::new();
            current_sum = Fp::zero();
            let ghost before = result@.map_values(|g: Vec<TradeInstanceType>| g@);
            result.push(closed);
            proof {
                assert(result@.map_values(|g: Vec<TradeInstanceType>| g@) =~= before.push(
                    closed@,
                ));
            }
        }
        i = i + 1;
    }
    if current_group.len() > 0 {
        let ghost before = result@.map_values(|g: Vec<TradeInstanceType>| g@);
        result.push(current_group);
        proof {
            assert(result@.map_values(|g: Vec<TradeInstanceType>| g@) =~= before.push(
                current_group@,
            ));
        }
    }
    if result.len() == 0 {
        let ghost before = result@.map_values(|g: Vec<TradeInstanceType>| g@);
        result.push(Vec::new());
        proof {
            assert(result@.map_values(|g: Vec<TradeInstanceType>| g@) =~= before.push(
                Seq::empty(),
            ));
        }
    }
    result
}

/// The engine's parameter bundle: a focus anchor, a budget, the
/// geometric step, display precisions, fee and risk settings, and the
/// support/resistance band.
#[derive(Clone, Debug)]
pub struct Signal {
    /// The anchor price the geometric walk compounds from.
    pub focus: Fp,
    /// The overall budget.
    pub budget: Fp,
    /// The per-step fractional price change; positive.
    pub percent_change: Fp,
    /// Display-format spec for prices.
    pub price_places: String,
    /// Display-format spec for quantities and amounts.
    pub decimal_places: String,
    /// Budget risked across one zone, split over its orders.
    pub zone_risk: u32,
    /// Fee rate, as a fraction.
    pub fee: Fp,
    /// The support level; 0 when unset.
    pub support: Fp,
    /// Target profit multiple of the risked amount; at least 1.
    pub risk_reward: u32,
    /// The resistance level; 0 when unset.
    pub resistance: Fp,
    /// A fixed take-profit price overriding the derived one.
    pub take_profit: Option<Fp>,
    /// Currency risked per order; 0 means an equal split.
    pub risk_per_trade: Fp,
    /// Scale sizes up on earlier orders of a ladder.
    pub increase_size: bool,
    /// Additional size increase; carried, not applied, by this engine.
    pub additional_increase: Fp,
    /// A floor under the gross profit target; 0 when unset.
    pub minimum_pnl: Fp,
    /// An order-splitting hint; carried, not applied, by this engine.
    pub split: Option<i32>,
    /// A ceiling on the position size; carried, not applied.
    pub max_size: Option<Fp>,
    /// A fixed trade size; carried, not applied.
    pub trade_size: Option<Fp>,
    /// Stop market orders at the support rather than chaining them.
    pub increase_position: bool,
    /// Marks a bundle built from defaults.
    pub default: bool,
    /// The smallest tradable size; 0 when unset.
    pub minimum_size: Fp,
}

impl Default for Signal {
    /// A 2% step, five price digits, whole-number amounts, a 0.08% fee
    /// and a risk/reward of 4.
    fn default() -> (r: Self)
        ensures
            r.focus@ == 0 && r.budget@ == 0,
            r.percent_change@ == 20_000_000_000int,
            r.price_places@ == "%.5f"@,
            r.decimal_places@ == "%.0f"@,
            r.zone_risk == 1,
            r.fee@ == 800_000_000int,
            r.support@ == 0 && r.resistance@ == 0,
            r.risk_reward == 4,
            r.take_profit is None,
            r.risk_per_trade@ == 0,
            !r.increase_size,
            r.additional_increase@ == 0,
            r.minimum_pnl@ == 0,
            r.split is None && r.max_size is None && r.trade_size is None,
            !r.increase_position,
            !r.default,
            r.minimum_size@ == 0,
    {
        Signal {
            focus: Fp::zero(),
            budget: Fp::zero(),
            percent_change: Fp::from_raw(20_000_000_000),
            price_places: "%.5f".to_owned(),
            decimal_places: "%.0f".to_owned(),
            zone_risk: 1,
            fee: Fp::from_raw(800_000_000),
            support: Fp::zero(),
            risk_reward: 4,
            resistance: Fp::zero(),
            take_profit: None,
            risk_per_trade: Fp::zero(),
            increase_size: false,
            additional_increase: Fp::zero(),
            minimum_pnl: Fp::zero(),
            split: None,
            max_size: None,
            trade_size: None,
            increase_position: false,
            default: false,
            minimum_size: Fp::zero(),
        }
    }
}

/// The mathematical content of a parameter bundle: what the engine's
/// specifications read of a [`Signal`].
pub struct SignalV {
    /// The anchor price, in raw units.
    pub focus: int,
    /// The budget, in raw units.
    pub budget: int,
    /// The per-step fractional change, in raw units.
    pub percent_change: int,
    /// The price display-format spec.
    pub price_places: Seq<char>,
    /// The amount display-format spec.
    pub decimal_places: Seq<char>,
    /// The zone risk.
    pub zone_risk: int,
    /// The fee rate, in raw units.
    pub fee: int,
    /// The support level, in raw units.
    pub support: int,
    /// The risk/reward ratio.
    pub risk_reward: int,
    /// The resistance level, in raw units.
    pub resistance: int,
    /// The fixed take-profit, in raw units.
    pub take_profit: Option<int>,
    /// The per-order risk, in raw units.
    pub risk_per_trade: int,
    /// Whether sizes scale up on earlier orders.
    pub increase_size: bool,
    /// The profit floor, in raw units.
    pub minimum_pnl: int,
    /// Whether market orders stop at the support.
    pub increase_position: bool,
    /// The smallest tradable size, in raw units.
    pub minimum_size: int,
}

impl View for Signal {
    type V = SignalV;

    open spec fn view(&self) -> SignalV {
        SignalV {
            focus: self.focus@,
            budget: self.budget@,
            percent_change: self.percent_change@,
            price_places: self.price_places@,
            decimal_places: self.decimal_places@,
            zone_risk: self.zone_risk as int,
            fee: self.fee@,
            support: self.support@,
            risk_reward: self.risk_reward as int,
            resistance: self.resistance@,
            take_profit: match self.take_profit {
                Some(t) => Some(t@),
                None => None,
            },
            risk_per_trade: self.risk_per_trade@,
            increase_size: self.increase_size,
            minimum_pnl: self.minimum_pnl@,
            increase_position: self.increase_position,
            minimum_size: self.minimum_size@,
        }
    }
}

/// The budget scaled by the per-step change: how much one zone risks.
pub open spec fn risk_v(s: SignalV) -> int {
    mul_v(s.budget, s.percent_change)
}

/// The whole number of risk units: how many trades a zone divides into.
pub open spec fn min_trades_v(s: SignalV) -> int {
    trunc_units_v(risk_v(s))
}

/// One tick at the price display precision; five digits when the spec
/// cannot be read, nothing below the engine's grid.
pub open spec fn min_price_v(s: SignalV) -> int {
    let p = match parse_places_s(s.price_places) {
        Some(p) => p,
        None => 5,
    };
    if p <= SCALE_DIGITS {
        pow10((SCALE_DIGITS - p) as nat)
    } else {
        0
    }
}

impl Signal {
    /// The currency amount one zone risks.
    pub fn risk(&self) -> (r: Fp)
        ensures
            r@ == risk_v(self@),
    {
        self.budget.mul(self.percent_change)
    }

    /// The whole number of trades a zone's risk divides into.
    pub fn min_trades(&self) -> (r: i64)
        ensures
            r as int == min_trades_v(self@),
            -4_000_000 <= r <= 4_000_000,
    {
        self.risk().trunc_units()
    }

    /// One tick at the configured price precision.
    pub fn min_price(&self) -> (r: Fp)
        ensures
            r@ == min_price_v(self@),
    {
        let p: u32 = match parse_places(self.price_places.as_str()) {
            Some(p) => p,
            None => 5,
        };
        if p <= SCALE_DIGITS {
            proof {
                crate::fixed::lemma_pow10_bound((SCALE_DIGITS - p) as nat);
            }
            Fp::from_raw(crate::fixed::pow10_exec(SCALE_DIGITS - p))
        } else {
            Fp::zero()
        }
    }

    /// A value rounded to the configured price precision.
    pub fn to_f(&self, value: Fp) -> (r: Fp)
        ensures
            r@ == to_f_v(value@, self.price_places@),
    {
        to_f(value, self.price_places.as_str())
    }

    /// A value rounded as the given display-format spec directs.
    pub fn to_df(&self, current_price: Fp, places: &str) -> (r: Fp)
        ensures
            r@ == to_f_v(current_price@, places@),
    {
        to_f(current_price, places)
    }
}

/// The hard cap on geometric-walk steps: a fixed cycle-breaker that
/// turns any ill-conditioned search into a truncated best-effort result
/// rather than an unbounded loop.
pub const MAX_ZONE_STEPS: u32 = 100_000;

/// The downward walk: while the step above `last` still exceeds the
/// price, emit `last` rounded and shrink it by one factor; stop at a
/// fixed point, below an anchor of 1, or when the fuel runs out.
pub open spec fn walk_down_s(
    last: int,
    fh: int,
    cp: int,
    factor: int,
    places: Seq<char>,
    fuel: nat,
) -> Seq<int>
    decreases fuel,
{
    if fuel == 0 || !(fh > cp) || last < SCALE || fh == last {
        Seq::empty()
    } else {
        seq![to_f_v(last, places)] + walk_down_s(
            div_v(last, factor),
            last,
            cp,
            factor,
            places,
            (fuel - 1) as nat,
        )
    }
}

/// The upward walk: while the step is at or under the price, emit it
/// rounded and grow it by two factors; stop at a fixed point or when
/// the fuel runs out.
pub open spec fn walk_up_s(fh: int, cp: int, factor: int, places: Seq<char>, fuel: nat) -> Seq<int>
    decreases fuel,
{
    if fuel == 0 || !(fh <= cp) {
        Seq::empty()
    } else {
        let nfh = mul_v(mul_v(fh, factor), factor);
        seq![to_f_v(fh, places)] + if nfh == fh {
            Seq::empty()
        } else {
            walk_up_s(nfh, cp, factor, places, (fuel - 1) as nat)
        }
    }
}

/// The geometric walk anchored at `focus`: downward when the first step
/// up already exceeds the price, upward otherwise.
pub open spec fn zone_nogen_s(cp: int, focus: int, pc: int, places: Seq<char>, fuel: nat) -> Seq<
    int,
> {
    let factor = add_v(SCALE as int, pc);
    let fh0 = mul_v(focus, factor);
    if fh0 > cp {
        walk_down_s(focus, fh0, cp, factor, places, fuel)
    } else {
        walk_up_s(fh0, cp, factor, places, fuel)
    }
}

/// Walk the geometric sequence anchored at `focus` toward the current
/// price, emitting each visited level rounded to the price precision.
pub fn _get_zone_nogen(current_price: Fp, focus: Fp, percent_change: Fp, places: &str) -> (r: Vec<
    Fp,
>)
    requires
        percent_change@ > 0,
    ensures
        views(r@) == zone_nogen_s(
            current_price@,
            focus@,
            percent_change@,
            places@,
            MAX_ZONE_STEPS as nat,
        ),
{
    let one = Fp::from_int(1);
    let factor = one.add(percent_change);
    let ghost total = zone_nogen_s(
        current_price@,
        focus@,
        percent_change@,
        places@,
        MAX_ZONE_STEPS as nat,
    );
    let mut result: Vec<Fp> = Vec::new();
    let mut last = focus;
    let mut fh = focus.mul(factor);
    let mut fuel: u32 = MAX_ZONE_STEPS;
    proof {
        assert(views(result@) =~= Seq::<int>::empty());
    }
    if fh.gt(current_price) {
        proof {
            assert(views(result@) + walk_down_s(
                last@,
                fh@,
                current_price@,
                factor@,
                places@,
                fuel as nat,
            ) =~= total);
        }
        while fuel > 0 && fh.gt(current_price) && !last.lt(one) && !fh.eq_v(last)
            invariant
                one@ == SCALE as int,
                factor@ == add_v(SCALE as int, percent_change@),
                factor@ > 0,
                total == zone_nogen_s(
                    current_price@,
                    focus@,
                    percent_change@,
                    places@,
                    MAX_ZONE_STEPS as nat,
                ),
                views(result@) + walk_down_s(
                    last@,
                    fh@,
                    current_price@,
                    factor@,
                    places@,
                    fuel as nat,
                ) == total,
            decreases fuel,
        {
            let ghost pre = views(result@);
            let ghost rem = walk_down_s(last@, fh@, current_price@, factor@, places@, fuel as nat);
            result.push(to_f(last, places));
            let nl = last.div(factor);
            fh = last;
            last = nl;
            fuel = fuel - 1;
            proof {
                let rem2 = walk_down_s(last@, fh@, current_price@, factor@, places@, fuel as nat);
                assert(rem == seq![to_f_v(fh@, places@)] + rem2);
                assert(views(result@) =~= pre.push(to_f_v(fh@, places@)));
                assert(views(result@) + rem2 =~= pre + rem);
            }
        }
        proof {
            assert(walk_down_s(last@, fh@, current_price@, factor@, places@, fuel as nat)
                =~= Seq::<int>::empty());
            assert(views(result@) + Seq::<int>::empty() =~= views(result@));
        }
    } else {
        proof {
            assert(views(result@) + walk_up_s(fh@, current_price@, factor@, places@, fuel as nat)
                =~= total);
        }
        while fuel > 0 && fh.le(current_price)
            invariant
                factor@ == add_v(SCALE as int, percent_change@),
                factor@ > 0,
                total == zone_nogen_s(
                    current_price@,
                    focus@,
                    percent_change@,
                    places@,
                    MAX_ZONE_STEPS as nat,
                ),
                views(result@) + walk_up_s(fh@, current_price@, factor@, places@, fuel as nat)
                    == total,
            decreases fuel,
        {
            let ghost pre = views(result@);
            let ghost rem = walk_up_s(fh@, current_price@, factor@, places@, fuel as nat);
            result.push(to_f(fh, places));
            let nfh = fh.mul(factor).mul(factor);
            if nfh.eq_v(fh) {
                fuel = 0;
            } else {
                fuel = fuel - 1;
            }
            let ghost stalled = nfh@ == fh@;
            fh = nfh;
            proof {
                let rem2 = walk_up_s(fh@, current_price@, factor@, places@, fuel as nat);
                if stalled {
                    assert(rem2 =~= Seq::<int>::empty());
                }
                assert(views(result@) =~= pre.push(rem[0]));
                assert(views(result@) + rem2 =~= pre + rem);
            }
        }
        proof {
            assert(walk_up_s(fh@, current_price@, factor@, places@, fuel as nat) =~= Seq::<
                int,
            >::empty());
            assert(views(result@) + Seq::<int>::empty() =~= views(result@));
        }
    }
    result
}

/// The linear subdivision of a range: `divisor` equally spaced steps
/// from the low end, each rounded, with the high end appended last even
/// when it duplicates the final step.
pub open spec fn get_range_s(lo: int, hi: int, divisor: int, places: Seq<char>) -> Seq<int> {
    let factor = if divisor == 0 {
        0
    } else {
        div_v(sub_v(hi, lo), clip_i(divisor * SCALE))
    };
    Seq::new(
        (if divisor > 0 {
            divisor
        } else {
            0
        }) as nat,
        |x: int| to_f_v(add_v(lo, mul_v(factor, clip_i(x * SCALE))), places),
    ).push(hi)
}

/// Subdivide a range into equally spaced, display-rounded steps,
/// keeping the exact high endpoint as the final entry.
pub fn _get_range(range: (Fp, Fp), divisor: i64, places: &str) -> (r: Vec<Fp>)
    requires
        -4_000_000 <= divisor <= 4_000_000,
    ensures
        views(r@) == get_range_s(range.0@, range.1@, divisor as int, places@),
        r@.len() >= 1,
{
    let (lo, hi) = range;
    let factor = if divisor == 0 {
        Fp::zero()
    } else {
        hi.sub(lo).div(Fp::from_int(divisor))
    };
    let mut result: Vec<Fp> = Vec::new();
    let mut x: i64 = 0;
    while x < divisor
        invariant
            0 <= x,
            divisor > 0 ==> x <= divisor,
            divisor <= 0 ==> x == 0,
            -4_000_000 <= divisor <= 4_000_000,
            factor@ == if divisor == 0 {
                0int
            } else {
                div_v(sub_v(hi@, lo@), clip_i(divisor as int * SCALE))
            },
            result@.len() == x,
            forall|j: int|
                0 <= j < x ==> result@[j]@ == to_f_v(
                    add_v(lo@, mul_v(factor@, clip_i(j * SCALE))),
                    places@,
                ),
        decreases divisor - x,
    {
        result.push(to_f(lo.add(factor.mul(Fp::from_int(x))), places));
        x = x + 1;
    }
    result.push(hi);
    proof {
        assert(views(result@) =~= get_range_s(range.0@, range.1@, divisor as int, places@));
    }
    result
}

/// The step pair of a subdivided range that brackets the price: the
/// first step past it together with its predecessor; nothing when the
/// price clears the ladder at either end.
pub open spec fn trade_zone_s(cp: int, lo: int, hi: int, risk: int, places: Seq<char>) -> Option<
    (int, int),
> {
    let zones = get_range_s(lo, hi, risk, places);
    match first_gt(zones, cp) {
        Some(i) => if i > 0 {
            Some((zones[i - 1], zones[i]))
        } else {
            None
        },
        None => None,
    }
}

/// Select the adjacent step pair of a subdivided range that brackets
/// the current price.
pub fn _get_trade_zone(current_price: Fp, array: (Fp, Fp), risk: i64, places: &str) -> (r: Option<
    (Fp, Fp),
>)
    requires
        -4_000_000 <= risk <= 4_000_000,
    ensures
        match r {
            Some((a, b)) => trade_zone_s(current_price@, array.0@, array.1@, risk as int, places@)
                == Some((a@, b@)),
            None => trade_zone_s(current_price@, array.0@, array.1@, risk as int, places@) is None,
        },
{
    let zones = _get_range(array, risk, places);
    match find_first_gt(&zones, current_price) {
        Some(i) => {
            if i > 0 {
                Some((zones[i - 1], zones[i]))
            } else {
                None
            }
        },
        None => None,
    }
}

/// The bracketing interval found by the geometric walk: the last level
/// the walk visited, paired with that level grown by one step, both
/// display-rounded. Nothing when the walk emitted nothing.
pub open spec fn margin_range_s(s: SignalV, cp: int) -> Option<(int, int)> {
    let tz = zone_nogen_s(
        sub_v(cp, min_price_v(s)),
        s.focus,
        s.percent_change,
        s.price_places,
        MAX_ZONE_STEPS as nat,
    );
    if tz.len() > 0 {
        let x = tz.last();
        Some(
            (
                to_f_v(x, s.price_places),
                to_f_v(mul_v(x, add_v(SCALE as int, s.percent_change)), s.price_places),
            ),
        )
    } else {
        None
    }
}

/// The step pair of the margin range that brackets the price, both ends
/// display-rounded; nothing when no margin range exists or the price
/// clears its subdivision.
pub open spec fn future_range_s(s: SignalV, cp: int) -> Option<(int, int)> {
    match margin_range_s(s, cp) {
        Some((lo, hi)) => match trade_zone_s(cp, lo, hi, min_trades_v(s), s.price_places) {
            Some((a, b)) => Some((to_f_v(a, s.price_places), to_f_v(b, s.price_places))),
            None => None,
        },
        None => None,
    }
}

impl Signal {
    /// The bracketing interval around a price found by compounding from
    /// the focus anchor.
    pub fn get_margin_range(&self, current_price: Fp) -> (r: Option<(Fp, Fp)>)
        requires
            self.percent_change@ > 0,
        ensures
            match r {
                Some((a, b)) => margin_range_s(self@, current_price@) == Some((a@, b@)),
                None => margin_range_s(self@, current_price@) is None,
            },
    {
        let top_zones = _get_zone_nogen(
            current_price.sub(self.min_price()),
            self.focus,
            self.percent_change,
            self.price_places.as_str(),
        );
        if top_zones.len() > 0 {
            let result = top_zones[top_zones.len() - 1];
            let one = Fp::from_int(1);
            let range_start = self.to_f(result);
            let range_end = self.to_f(result.mul(one.add(self.percent_change)));
            Some((range_start, range_end))
        } else {
            None
        }
    }

    /// The adjacent subdivision step pair of the margin range that
    /// brackets the current price.
    pub fn get_future_range(&self, current_price: Fp) -> (r: Option<(Fp, Fp)>)
        requires
            self.percent_change@ > 0,
        ensures
            match r {
                Some((a, b)) => future_range_s(self@, current_price@) == Some((a@, b@)),
                None => future_range_s(self@, current_price@) is None,
            },
    {
        if let Some(margin_range) = self.get_margin_range(current_price) {
            if let Some(future_zone) = _get_trade_zone(
                current_price,
                margin_range,
                self.min_trades(),
                self.price_places.as_str(),
            ) {
                Some((self.to_f(future_zone.0), self.to_f(future_zone.1)))
            } else {
                None
            }
        } else {
            None
        }
    }
}

/// Append a copy of one vector of values to another.
fn extend_fps(dst: &mut Vec<Fp>, src: &Vec<Fp>)
    ensures
        views(final(dst)@) == views(old(dst)@) + views(src@),
{
    let mut i: usize = 0;
    proof {
        assert(views(dst@) =~= views(old(dst)@) + views(src@).subrange(0, 0));
    }
    while i < src.len()
        invariant
            i <= src@.len(),
            views(dst@) == views(old(dst)@) + views(src@).subrange(0, i as int),
        decreases src@.len() - i,
    {
        let ghost pre = views(dst@);
        dst.push(src[i]);
        proof {
            assert(views(dst@) =~= pre.push(src@[i as int]@));
            assert(views(src@).subrange(0, i + 1) =~= views(src@).subrange(0, i as int).push(
                src@[i as int]@,
            ));
            assert(views(old(dst)@) + views(src@).subrange(0, i + 1) =~= (views(old(dst)@) + views(
                src@,
            ).subrange(0, i as int)).push(src@[i as int]@));
        }
        i = i + 1;
    }
    proof {
        assert(views(src@).subrange(0, views(src@).len() as int) =~= views(src@));
    }
}

/// The full zone ladder for one call: the subdivision of the future
/// range; for the short direction the two neighbouring future ranges
/// are subdivided too and, when both exist, the whole is sorted.
pub open spec fn ladder_s(s: SignalV, cp: int, kind: Direction) -> Seq<int> {
    match future_range_s(s, cp) {
        None => Seq::empty(),
        Some((lo, hi)) => {
            let risk = min_trades_v(s);
            let zones = get_range_s(lo, hi, risk, s.price_places);
            if kind.is_long() {
                zones
            } else {
                match future_range_s(s, sub_v(lo, min_price_v(s))) {
                    None => zones,
                    Some((lo2, hi2)) => {
                        let zones2 = zones + get_range_s(lo2, hi2, risk, s.price_places);
                        match future_range_s(s, add_v(hi, min_price_v(s))) {
                            None => zones2,
                            Some((lo3, hi3)) => sort_seq(
                                zones2 + get_range_s(lo3, hi3, risk, s.price_places),
                            ),
                        }
                    },
                }
            }
        },
    }
}

impl Signal {
    /// The zone ladder around a price: the subdivided future range,
    /// widened by the two neighbouring ranges for the short direction.
    pub fn get_range(&self, current_price: Fp, kind: Direction) -> (r: Vec<Fp>)
        requires
            self.percent_change@ > 0,
        ensures
            views(r@) == ladder_s(self@, current_price@, kind),
    {
        let risk = self.min_trades();
        if let Some(future_range) = self.get_future_range(current_price) {
            let mut zones = _get_range(future_range, risk, self.price_places.as_str());
            match kind {
                Direction::Long => zones,
                Direction::Short => {
                    if let Some(second) = self.get_future_range(
                        future_range.0.sub(self.min_price()),
                    ) {
                        let secondary = _get_range(second, risk, self.price_places.as_str());
                        extend_fps(&mut zones, &secondary);
                        if let Some(third) = self.get_future_range(
                            future_range.1.add(self.min_price()),
                        ) {
                            let third_zones = _get_range(third, risk, self.price_places.as_str());
                            extend_fps(&mut zones, &third_zones);
                            sort_fps(&zones)
                        } else {
                            zones
                        }
                    } else {
                        zones
                    }
                },
            }
        } else {
            let r: Vec<Fp> = Vec::new();
            proof {
                assert(views(r@) =~= Seq::<int>::empty());
            }
            r
        }
    }
}

/// The trade range: the second future range's low end paired with an
/// early rung of the ladder; for the short direction with a third
/// future range, the fourth rung paired with the ladder's top. Nothing
/// where the ladder is too short or a needed range is missing.
pub open spec fn trade_range_s(s: SignalV, cp: int, kind: Direction) -> Option<(int, int)> {
    match future_range_s(s, cp) {
        None => None,
        Some((lo, hi)) => {
            match future_range_s(s, sub_v(lo, min_price_v(s))) {
                None => None,
                Some((slo, shi)) => {
                    let third = future_range_s(s, add_v(hi, min_price_v(s)));
                    let zones = ladder_s(s, cp, kind);
                    if !kind.is_long() && third is Some {
                        if zones.len() >= 4 {
                            Some((zones[3], zones[zones.len() - 1]))
                        } else {
                            None
                        }
                    } else if zones.len() > 2 {
                        Some((slo, zones[1]))
                    } else {
                        None
                    }
                },
            }
        },
    }
}

impl Signal {
    /// The widest usable trade range around a price.
    pub fn get_trade_range(&self, current_price: Fp, kind: Direction) -> (r: Option<(Fp, Fp)>)
        requires
            self.percent_change@ > 0,
        ensures
            match r {
                Some((a, b)) => trade_range_s(self@, current_price@, kind) == Some((a@, b@)),
                None => trade_range_s(self@, current_price@, kind) is None,
            },
    {
        if let Some(future_range) = self.get_future_range(current_price) {
            if let Some(second) = self.get_future_range(future_range.0.sub(self.min_price())) {
                let third = self.get_future_range(future_range.1.add(self.min_price()));
                let zones = self.get_range(current_price, kind);
                match kind {
                    Direction::Short => {
                        if third.is_some() {
                            if zones.len() >= 4 {
                                return Some((zones[3], zones[zones.len() - 1]));
                            } else {
                                return None;
                            }
                        }
                    },
                    Direction::Long => {},
                }
                if zones.len() > 2 {
                    return Some((second.0, zones[1]));
                }
                return None;
            }
        }
        None
    }
}

/// The trade-zone ladder, optionally capped and topped up: with an
/// upper bound and a minimum count, the long ladder is first cut to the
/// bound; a ladder that then falls short of the minimum is merged with
/// the ladder one tick below its lowest rung, sorted and deduplicated.
pub open spec fn trade_zones_s(
    s: SignalV,
    cp: int,
    upper_bound: Option<int>,
    minimum: Option<int>,
    kind: Direction,
) -> Seq<int> {
    let tz = ladder_s(s, cp, kind);
    if upper_bound is Some && minimum is Some {
        if tz.len() > 0 {
            let tz2 = if kind.is_long() {
                filter_le(tz, upper_bound.unwrap())
            } else {
                tz
            };
            if tz2.len() > 0 && tz2.len() < minimum.unwrap() {
                let ns = ladder_s(s, sub_v(tz2[0], min_price_v(s)), kind);
                dedup_adjacent(sort_seq(tz2 + ns))
            } else {
                tz2
            }
        } else {
            tz
        }
    } else {
        tz
    }
}

impl Signal {
    /// The trade-zone ladder around a price, cut to an upper bound and
    /// topped up to a minimum count when both are given.
    pub fn get_trade_zones(
        &self,
        current_price: Fp,
        upper_bound: Option<Fp>,
        minimum: Option<usize>,
        kind: Direction,
    ) -> (r: Option<Vec<Fp>>)
        requires
            self.percent_change@ > 0,
        ensures
            r is Some,
            views(r.unwrap()@) == trade_zones_s(
                self@,
                current_price@,
                match upper_bound {
                    Some(u) => Some(u@),
                    None => None,
                },
                match minimum {
                    Some(m) => Some(m as int),
                    None => None,
                },
                kind,
            ),
    {
        let mut trade_zones = self.get_range(current_price, kind);
        if let (Some(upper), Some(min_count)) = (upper_bound, minimum) {
            if trade_zones.len() > 0 {
                match kind {
                    Direction::Long => {
                        trade_zones = crate::sorting::retain_le(&trade_zones, upper);
                    },
                    Direction::Short => {},
                }
                if trade_zones.len() > 0 && trade_zones.len() < min_count {
                    let mut new_set = self.get_range(
                        trade_zones[0].sub(self.min_price()),
                        kind,
                    );
                    extend_fps(&mut trade_zones, &new_set);
                    trade_zones = sort_dedup_fps(&trade_zones);
                }
            }
        }
        Some(trade_zones)
    }
}

/// The margin-zone walk toward the support: collect the margin range at
/// the cursor and step the cursor one tick under its low end, at most
/// `fuel` times; a cursor at or under the support, or a missing margin
/// range, ends the walk.
pub open spec fn margin_zones_down_s(s: SignalV, start: int, fuel: nat) -> Seq<(int, int)>
    decreases fuel,
{
    if fuel == 0 || !(start > s.support) {
        Seq::empty()
    } else {
        match margin_range_s(s, start) {
            None => Seq::empty(),
            Some((lo, hi)) => seq![(lo, hi)] + margin_zones_down_s(
                s,
                sub_v(lo, min_price_v(s)),
                (fuel - 1) as nat,
            ),
        }
    }
}

/// The margin-zone walk toward the resistance: as the downward walk,
/// stepping one tick over each range's high end.
pub open spec fn margin_zones_up_s(s: SignalV, start: int, fuel: nat) -> Seq<(int, int)>
    decreases fuel,
{
    if fuel == 0 || !(start < s.resistance) {
        Seq::empty()
    } else {
        match margin_range_s(s, start) {
            None => Seq::empty(),
            Some((lo, hi)) => seq![(lo, hi)] + margin_zones_up_s(
                s,
                add_v(hi, min_price_v(s)),
                (fuel - 1) as nat,
            ),
        }
    }
}

/// How many margin ranges one walk may collect: the 20-step cap plus
/// the first range.
pub const MARGIN_ZONE_CAP: u32 = 21;

/// The integer views of a sequence of value pairs.
pub open spec fn pair_views(s: Seq<(Fp, Fp)>) -> Seq<(int, int)> {
    s.map_values(|p: (Fp, Fp)| (p.0@, p.1@))
}

/// The sequence of margin ranges around a price: walked down to the
/// support for a long call with a support set, else up to the
/// resistance when one is set, else the single range at the price.
pub open spec fn margin_zones_s(s: SignalV, cp: int, kind: Direction) -> Seq<(int, int)> {
    if s.support > 0 && kind.is_long() {
        margin_zones_down_s(s, cp, MARGIN_ZONE_CAP as nat)
    } else if s.resistance > 0 {
        margin_zones_up_s(s, cp, MARGIN_ZONE_CAP as nat)
    } else {
        match margin_range_s(s, cp) {
            Some(p) => seq![p],
            None => Seq::empty(),
        }
    }
}

impl Signal {
    /// Walk the neighbouring margin ranges from a price toward the
    /// support or resistance, up to the fixed step cap.
    pub fn get_margin_zones(&self, current_price: Fp, kind: Direction) -> (r: Vec<(Fp, Fp)>)
        requires
            self.percent_change@ > 0,
        ensures
            pair_views(r@) == margin_zones_s(self@, current_price@, kind),
    {
        let ghost total = margin_zones_s(self@, current_price@, kind);
        let mut result: Vec<(Fp, Fp)> = Vec::new();
        let mut start = current_price;
        let mut counter: u32 = 0;
        let mut stopped = false;
        proof {
            assert(pair_views(result@) =~= Seq::<(int, int)>::empty());
        }
        let is_down = self.support.gt(Fp::zero()) && matches!(kind, Direction::Long);
        if is_down {
            while !stopped && counter < MARGIN_ZONE_CAP && start.gt(self.support)
                invariant
                    self.percent_change@ > 0,
                    counter <= MARGIN_ZONE_CAP,
                    total == margin_zones_s(self@, current_price@, kind),
                    s_down_total(self@, current_price@, kind, total),
                    pair_views(result@) + (if stopped {
                        Seq::<(int, int)>::empty()
                    } else {
                        margin_zones_down_s(self@, start@, (MARGIN_ZONE_CAP - counter) as nat)
                    }) == total,
                decreases
                    (if stopped {
                        0int
                    } else {
                        1int
                    }),
                    MARGIN_ZONE_CAP - counter,
            {
                let ghost pre = pair_views(result@);
                let ghost rem = margin_zones_down_s(
                    self@,
                    start@,
                    (MARGIN_ZONE_CAP - counter) as nat,
                );
                match self.get_margin_range(start) {
                    Some(v) => {
                        result.push(v);
                        start = v.0.sub(self.min_price());
                        counter = counter + 1;
                        proof {
                            let rem2 = margin_zones_down_s(
                                self@,
                                start@,
                                (MARGIN_ZONE_CAP - counter) as nat,
                            );
                            assert(pair_views(result@) =~= pre.push((v.0@, v.1@)));
                            assert(pair_views(result@) + rem2 =~= pre + rem);
                        }
                    },
                    None => {
                        stopped = true;
                    },
                }
            }
            proof {
                if !stopped {
                    assert(margin_zones_down_s(
                        self@,
                        start@,
                        (MARGIN_ZONE_CAP - counter) as nat,
                    ) =~= Seq::<(int, int)>::empty());
                }
                assert(pair_views(result@) + Seq::<(int, int)>::empty() =~= pair_views(result@));
            }
            return result;
        }
        if self.resistance.gt(Fp::zero()) {
            while !stopped && counter < MARGIN_ZONE_CAP && start.lt(self.resistance)
                invariant
                    self.percent_change@ > 0,
                    counter <= MARGIN_ZONE_CAP,
                    total == margin_zones_s(self@, current_price@, kind),
                    s_up_total(self@, current_price@, kind, total),
                    pair_views(result@) + (if stopped {
                        Seq::<(int, int)>::empty()
                    } else {
                        margin_zones_up_s(self@, start@, (MARGIN_ZONE_CAP - counter) as nat)
                    }) == total,
                decreases
                    (if stopped {
                        0int
                    } else {
                        1int
                    }),
                    MARGIN_ZONE_CAP - counter,
            {
                let ghost pre = pair_views(result@);
                let ghost rem = margin_zones_up_s(
                    self@,
                    start@,
                    (MARGIN_ZONE_CAP - counter) as nat,
                );
                match self.get_margin_range(start) {
                    Some(v) => {
                        result.push(v);
                        start = v.1.add(self.min_price());
                        counter = counter + 1;
                        proof {
                            let rem2 = margin_zones_up_s(
                                self@,
                                start@,
                                (MARGIN_ZONE_CAP - counter) as nat,
                            );
                            assert(pair_views(result@) =~= pre.push((v.0@, v.1@)));
                            assert(pair_views(result@) + rem2 =~= pre + rem);
                        }
                    },
                    None => {
                        stopped = true;
                    },
                }
            }
            proof {
                if !stopped {
                    assert(margin_zones_up_s(self@, start@, (MARGIN_ZONE_CAP - counter) as nat)
                        =~= Seq::<(int, int)>::empty());
                }
                assert(pair_views(result@) + Seq::<(int, int)>::empty() =~= pair_views(result@));
            }
            return result;
        }
        if let Some(v) = self.get_margin_range(current_price) {
            result.push(v);
            proof {
                assert(pair_views(result@) =~= seq![(v.0@, v.1@)]);
            }
        }
        result
    }
}

/// Whether a long walk with a set support owns the whole result.
pub open spec fn s_down_total(s: SignalV, cp: int, kind: Direction, total: Seq<(int, int)>) -> bool {
    s.support > 0 && kind.is_long() && total == margin_zones_down_s(
        s,
        cp,
        MARGIN_ZONE_CAP as nat,
    )
}

/// Whether an upward walk to the resistance owns the whole result.
pub open spec fn s_up_total(s: SignalV, cp: int, kind: Direction, total: Seq<(int, int)>) -> bool {
    !(s.support > 0 && kind.is_long()) && s.resistance > 0 && total == margin_zones_up_s(
        s,
        cp,
        MARGIN_ZONE_CAP as nat,
    )
}

/// The factor compounded `x` times, starting from 1.
pub open spec fn pow_factor_s(factor: int, x: nat) -> int
    decreases x,
{
    if x == 0 {
        SCALE as int
    } else {
        mul_v(pow_factor_s(factor, (x - 1) as nat), factor)
    }
}

/// The pairs differing from the given one, in order.
pub open spec fn filter_ne_pair(s: Seq<(int, int)>, p: (int, int)) -> Seq<(int, int)>
    decreases s.len(),
{
    if s.len() == 0 {
        Seq::empty()
    } else if s.last() != p {
        filter_ne_pair(s.drop_last(), p).push(s.last())
    } else {
        filter_ne_pair(s.drop_last(), p)
    }
}

/// The accumulation walk of the fallback ladders: step the candidate
/// index upward, keep each value on the direction-appropriate side of
/// the rounded current price, and stop once the target count is
/// reached or the fuel runs out. Long candidates step down from the
/// anchor by the spread; short candidates compound the anchor by the
/// factor.
pub open spec fn accum_s(
    anchor: int,
    spread: int,
    factor: int,
    cpf: int,
    long: bool,
    places: Seq<char>,
    target: nat,
    x: nat,
    f: int,
    fuel: nat,
) -> Seq<int>
    decreases fuel,
{
    if fuel == 0 || target == 0 {
        Seq::empty()
    } else {
        let value = if long {
            to_f_v(sub_v(anchor, mul_v(spread, clip_i(x * SCALE))), places)
        } else {
            to_f_v(mul_v(anchor, f), places)
        };
        let keep = if long {
            value <= cpf
        } else {
            value >= cpf
        };
        if keep {
            seq![value] + accum_s(
                anchor,
                spread,
                factor,
                cpf,
                long,
                places,
                (target - 1) as nat,
                x + 1,
                mul_v(f, factor),
                (fuel - 1) as nat,
            )
        } else {
            accum_s(
                anchor,
                spread,
                factor,
                cpf,
                long,
                places,
                target,
                x + 1,
                mul_v(f, factor),
                (fuel - 1) as nat,
            )
        }
    }
}

/// Accumulate a fallback ladder from an anchor.
fn accumulate_ladder(
    anchor: Fp,
    spread: Fp,
    factor: Fp,
    cpf: Fp,
    kind: Direction,
    places: &str,
    target: usize,
) -> (r: Vec<Fp>)
    ensures
        r@.len() <= target,
        views(r@) == accum_s(
            anchor@,
            spread@,
            factor@,
            cpf@,
            kind.is_long(),
            places@,
            target as nat,
            0,
            SCALE as int,
            MAX_ZONE_STEPS as nat,
        ),
{
    let ghost total = accum_s(
        anchor@,
        spread@,
        factor@,
        cpf@,
        kind.is_long(),
        places@,
        target as nat,
        0,
        SCALE as int,
        MAX_ZONE_STEPS as nat,
    );
    let mut out: Vec<Fp> = Vec::new();
    let mut x: usize = 0;
    let mut f = Fp::from_int(1);
    let mut fuel: u32 = MAX_ZONE_STEPS;
    proof {
        assert(views(out@) =~= Seq::<int>::empty());
    }
    while out.len() < target && fuel > 0
        invariant
            out@.len() <= target,
            x + fuel == MAX_ZONE_STEPS,
            views(out@) + accum_s(
                anchor@,
                spread@,
                factor@,
                cpf@,
                kind.is_long(),
                places@,
                (target - out@.len()) as nat,
                x as nat,
                f@,
                fuel as nat,
            ) == total,
        decreases fuel,
    {
        let ghost pre = views(out@);
        let ghost rem = accum_s(
            anchor@,
            spread@,
            factor@,
            cpf@,
            kind.is_long(),
            places@,
            (target - out@.len()) as nat,
            x as nat,
            f@,
            fuel as nat,
        );
        let value = match kind {
            Direction::Long => to_f(anchor.sub(spread.mul(Fp::from_int(x as i64))), places),
            Direction::Short => to_f(anchor.mul(f), places),
        };
        let keep = match kind {
            Direction::Long => value.le(cpf),
            Direction::Short => value.ge(cpf),
        };
        if keep {
            out.push(value);
        }
        x = x + 1;
        f = f.mul(factor);
        fuel = fuel - 1;
        proof {
            let rem2 = accum_s(
                anchor@,
                spread@,
                factor@,
                cpf@,
                kind.is_long(),
                places@,
                (target - out@.len()) as nat,
                x as nat,
                f@,
                fuel as nat,
            );
            if keep {
                assert(rem == seq![value@] + rem2);
                assert(views(out@) =~= pre.push(value@));
            }
            assert(views(out@) + rem2 =~= total);
        }
    }
    proof {
        assert(accum_s(
            anchor@,
            spread@,
            factor@,
            cpf@,
            kind.is_long(),
            places@,
            (target - out@.len()) as nat,
            x as nat,
            f@,
            fuel as nat,
        ) =~= Seq::<int>::empty());
        assert(views(out@) + Seq::<int>::empty() =~= views(out@));
    }
    out
}

/// The target-count ladder spanning a computed margin range: candidates
/// walk from the range's high end, and when the current price is not
/// strictly inside them a fallback anchor — the next margin zone's high
/// end, or the focus one step down — rebuilds the ladder from values on
/// the price's side. The result is always sorted ascending.
pub open spec fn future_zones_s(s: SignalV, cp: int, kind: Direction) -> Seq<int> {
    let pp = s.price_places;
    let cpf = to_f_v(cp, pp);
    match margin_range_s(s, cpf) {
        None => Seq::empty(),
        Some((mlo, mhi)) => {
            if mhi < s.support {
                Seq::empty()
            } else {
                let rrs = clip_i(s.risk_reward * SCALE);
                let pcr = div_v(s.percent_change, rrs);
                let spread = to_f_v(div_v(abs_i(sub_v(mlo, mhi)), rrs), pp);
                let factor = add_v(SCALE as int, pcr);
                let n = (s.risk_reward + 1) as nat;
                let entries = if kind.is_long() {
                    Seq::new(n, |x: int| to_f_v(sub_v(mhi, mul_v(spread, clip_i(x * SCALE))), pp))
                } else {
                    Seq::new(n, |x: int| to_f_v(mul_v(mhi, pow_factor_s(factor, x as nat)), pp))
                };
                let mn = seq_min_s(entries);
                let mx = seq_max_s(entries);
                if mn < cpf && cpf < mx {
                    sort_seq(entries)
                } else {
                    let remaining = filter_ne_pair(
                        margin_zones_s(s, cpf, Direction::Long),
                        (mlo, mhi),
                    );
                    if remaining.len() > 0 {
                        let new_range = to_f_v(remaining[0].1, pp);
                        sort_seq(
                            accum_s(
                                new_range,
                                spread,
                                factor,
                                cpf,
                                kind.is_long(),
                                pp,
                                n,
                                0,
                                SCALE as int,
                                MAX_ZONE_STEPS as nat,
                            ),
                        )
                    } else if cpf <= mn {
                        let next_focus = div_v(mlo, add_v(SCALE as int, s.percent_change));
                        sort_seq(
                            accum_s(
                                next_focus,
                                spread,
                                factor,
                                cpf,
                                kind.is_long(),
                                pp,
                                n,
                                0,
                                SCALE as int,
                                MAX_ZONE_STEPS as nat,
                            ),
                        )
                    } else {
                        sort_seq(entries)
                    }
                }
            }
        },
    }
}

/// Re-running the ladder search with identical inputs yields an
/// identical, already-sorted sequence: the ladder is a function of the
/// bundle and its arguments alone, and every value of that function is
/// sorted ascending.
pub proof fn lemma_future_zones_sorted(s: SignalV, cp: int, kind: Direction)
    ensures
        sorted_ints(future_zones_s(s, cp, kind)),
{
    let pp = s.price_places;
    let cpf = to_f_v(cp, pp);
    match margin_range_s(s, cpf) {
        None => {},
        Some((mlo, mhi)) => {
            if mhi < s.support {
            } else {
                let rrs = clip_i(s.risk_reward * SCALE);
                let pcr = div_v(s.percent_change, rrs);
                let spread = to_f_v(div_v(abs_i(sub_v(mlo, mhi)), rrs), pp);
                let factor = add_v(SCALE as int, pcr);
                let n = (s.risk_reward + 1) as nat;
                let entries = if kind.is_long() {
                    Seq::new(
                        n,
                        |x: int| to_f_v(sub_v(mhi, mul_v(spread, clip_i(x * SCALE))), pp),
                    )
                } else {
                    Seq::new(n, |x: int| to_f_v(mul_v(mhi, pow_factor_s(factor, x as nat)), pp))
                };
                lemma_sort_seq_sorted(entries);
                let remaining = filter_ne_pair(
                    margin_zones_s(s, cpf, Direction::Long),
                    (mlo, mhi),
                );
                if remaining.len() > 0 {
                    let new_range = to_f_v(remaining[0].1, pp);
                    lemma_sort_seq_sorted(
                        accum_s(
                            new_range,
                            spread,
                            factor,
                            cpf,
                            kind.is_long(),
                            pp,
                            n,
                            0,
                            SCALE as int,
                            MAX_ZONE_STEPS as nat,
                        ),
                    );
                } else {
                    let next_focus = div_v(mlo, add_v(SCALE as int, s.percent_change));
                    lemma_sort_seq_sorted(
                        accum_s(
                            next_focus,
                            spread,
                            factor,
                            cpf,
                            kind.is_long(),
                            pp,
                            n,
                            0,
                            SCALE as int,
                            MAX_ZONE_STEPS as nat,
                        ),
                    );
                }
            }
        },
    }
}

impl Signal {
    /// Build the target-count ladder around a price, falling back to a
    /// neighbouring margin zone or a shifted focus anchor when the
    /// price sits outside the first guess.
    fn get_future_range_new(&self, current_price: Fp, kind: Direction) -> (r: Vec<Fp>)
        requires
            self.percent_change@ > 0,
            1 <= self.risk_reward <= 4_000_000,
        ensures
            views(r@) == future_zones_s(self@, current_price@, kind),
            sorted_ints(views(r@)),
            r@.len() <= self.risk_reward + 1,
    {
        let ghost total = future_zones_s(self@, current_price@, kind);
        let pp = self.price_places.as_str();
        let cpf = self.to_f(current_price);
        let empty_r: Vec<Fp> = Vec::new();
        proof {
            assert(views(empty_r@) =~= Seq::<int>::empty());
        }
        let mr = match self.get_margin_range(cpf) {
            Some(m) => m,
            None => {
                return empty_r;
            },
        };
        if mr.1.lt(self.support) {
            return empty_r;
        }
        let rr_fp = Fp::from_int(self.risk_reward as i64);
        let pcr = self.percent_change.div(rr_fp);
        let spread = self.to_f(mr.0.sub(mr.1).abs().div(rr_fp));
        let factor = Fp::from_int(1).add(pcr);
        let n: usize = self.risk_reward as usize + 1;
        let ghost entries_spec = if kind.is_long() {
            Seq::new(
                n as nat,
                |x: int|
                    to_f_v(sub_v(mr.1@, mul_v(spread@, clip_i(x * SCALE))), self.price_places@),
            )
        } else {
            Seq::new(
                n as nat,
                |x: int|
                    to_f_v(mul_v(mr.1@, pow_factor_s(factor@, x as nat)), self.price_places@),
            )
        };
        let mut entries: Vec<Fp> = Vec::new();
        match kind {
            Direction::Long => {
                let mut x: usize = 0;
                while x < n
                    invariant
                        x <= n <= 4_000_001,
                        entries@.len() == x,
                        entries_spec == Seq::new(
                            n as nat,
                            |x: int|
                                to_f_v(
                                    sub_v(mr.1@, mul_v(spread@, clip_i(x * SCALE))),
                                    self.price_places@,
                                ),
                        ),
                        forall|j: int| 0 <= j < x ==> entries@[j]@ == entries_spec[j],
                    decreases n - x,
                {
                    entries.push(self.to_f(mr.1.sub(spread.mul(Fp::from_int(x as i64)))));
                    x = x + 1;
                }
            },
            Direction::Short => {
                let mut x: usize = 0;
                let mut f = Fp::from_int(1);
                while x < n
                    invariant
                        x <= n <= 4_000_001,
                        entries@.len() == x,
                        f@ == pow_factor_s(factor@, x as nat),
                        entries_spec == Seq::new(
                            n as nat,
                            |x: int|
                                to_f_v(
                                    mul_v(mr.1@, pow_factor_s(factor@, x as nat)),
                                    self.price_places@,
                                ),
                        ),
                        forall|j: int| 0 <= j < x ==> entries@[j]@ == entries_spec[j],
                    decreases n - x,
                {
                    entries.push(self.to_f(mr.1.mul(f)));
                    f = f.mul(factor);
                    x = x + 1;
                }
            },
        }
        proof {
            assert(views(entries@) =~= entries_spec);
        }
        let mn = crate::sorting::min_fp(&entries);
        let mx = crate::sorting::max_fp(&entries);
        if mn.lt(cpf) && cpf.lt(mx) {
            let sorted = sort_fps(&entries);
            proof {
                lemma_sort_seq_sorted(views(entries@));
                crate::sorting::lemma_sort_seq_len(views(entries@));
            }
            return sorted;
        }
        let margin_zones = self.get_margin_zones(cpf, Direction::Long);
        let mut remaining: Vec<(Fp, Fp)> = Vec::new();
        let mut i: usize = 0;
        proof {
            assert(pair_views(remaining@) =~= Seq::<(int, int)>::empty());
            assert(pair_views(margin_zones@).subrange(0, 0) =~= Seq::<(int, int)>::empty());
        }
        while i < margin_zones.len()
            invariant
                i <= margin_zones@.len(),
                pair_views(remaining@) == filter_ne_pair(
                    pair_views(margin_zones@).subrange(0, i as int),
                    (mr.0@, mr.1@),
                ),
            decreases margin_zones@.len() - i,
        {
            proof {
                assert(pair_views(margin_zones@).subrange(0, i + 1).drop_last() =~= pair_views(
                    margin_zones@,
                ).subrange(0, i as int));
                assert(pair_views(margin_zones@).subrange(0, i + 1).last() == (
                    margin_zones@[i as int].0@,
                    margin_zones@[i as int].1@,
                ));
            }
            let ghost pre = pair_views(remaining@);
            let z = margin_zones[i];
            if !(z.0.eq_v(mr.0) && z.1.eq_v(mr.1)) {
                remaining.push(z);
                proof {
                    assert(pair_views(remaining@) =~= pre.push((z.0@, z.1@)));
                }
            }
            i = i + 1;
        }
        proof {
            assert(pair_views(margin_zones@).subrange(0, pair_views(margin_zones@).len() as int)
                =~= pair_views(margin_zones@));
        }
        if remaining.len() > 0 {
            let new_range = self.to_f(remaining[0].1);
            let acc = accumulate_ladder(new_range, spread, factor, cpf, kind, pp, n);
            let sorted = sort_fps(&acc);
            proof {
                lemma_sort_seq_sorted(views(acc@));
                crate::sorting::lemma_sort_seq_len(views(acc@));
            }
            return sorted;
        }
        if cpf.le(mn) {
            let next_focus = mr.0.div(Fp::from_int(1).add(self.percent_change));
            let acc = accumulate_ladder(next_focus, spread, factor, cpf, kind, pp, n);
            let sorted = sort_fps(&acc);
            proof {
                lemma_sort_seq_sorted(views(acc@));
                crate::sorting::lemma_sort_seq_len(views(acc@));
            }
            return sorted;
        }
        let sorted = sort_fps(&entries);
        proof {
            lemma_sort_seq_sorted(views(entries@));
            crate::sorting::lemma_sort_seq_len(views(entries@));
        }
        sorted
    }

    /// The target-count ladder of future zones around a price: a
    /// deterministic function of the bundle and its arguments, returned
    /// already sorted ascending.
    pub fn get_future_zones(&self, current_price: Fp, kind: Direction) -> (r: Vec<Fp>)
        requires
            self.percent_change@ > 0,
            1 <= self.risk_reward <= 4_000_000,
        ensures
            views(r@) == future_zones_s(self@, current_price@, kind),
            sorted_ints(views(r@)),
            r@.len() <= self.risk_reward + 1,
    {
        self.get_future_range_new(current_price, kind)
    }
}

/// The position sizes of the ladder rungs past index `i - 1`: each rung
/// sized against its predecessor with the given risk budget; rungs
/// whose sizing is undefined are skipped. Pairs are (quantity, entry).
pub open spec fn btd_wq_s(s: SignalV, risk: int, arr: Seq<int>, i: int) -> Seq<(int, int)>
    decreases arr.len() - i,
{
    if i <= 0 || i >= arr.len() {
        Seq::empty()
    } else {
        let rest = btd_wq_s(s, risk, arr, i + 1);
        match position_size_v(
            arr[i],
            Some(arr[i - 1]),
            risk,
            None,
            false,
            true,
            s.decimal_places,
        ) {
            Some(q) => seq![(q, arr[i])] + rest,
            None => rest,
        }
    }
}

/// Sizes scaled for front-loading: the `j`-th of `n` rungs is scaled by
/// `n - j`, so earlier rungs carry more size.
pub open spec fn btd_scaled_s(wq: Seq<(int, int)>) -> Seq<(int, int)> {
    Seq::new(wq.len(), |j: int| (mul_v(wq[j].0, clip_i((wq.len() - j) * SCALE)), wq[j].1))
}

/// The running sum of the rounded fees of the sized rungs.
pub open spec fn btd_fee_sum_s(s: SignalV, wq: Seq<(int, int)>) -> int
    decreases wq.len(),
{
    if wq.len() == 0 {
        0
    } else {
        add_v(
            btd_fee_sum_s(s, wq.drop_last()),
            to_f_v(mul_v(mul_v(s.fee, wq.last().0), wq.last().1), s.decimal_places),
        )
    }
}

/// The running sum of `n` copies of the rounded risk budget.
pub open spec fn btd_risk_sum_s(s: SignalV, risk: int, n: nat) -> int
    decreases n,
{
    if n == 0 {
        0
    } else {
        add_v(btd_risk_sum_s(s, risk, (n - 1) as nat), to_f_v(risk, s.decimal_places))
    }
}

/// One constructed order: the position is sized against the stop and,
/// under size escalation, scaled by how far the order stands from the
/// ladder's end, with the risk re-derived from the scaled loss at the
/// stop; the
/// gross profit target is the rounded risk times the risk/reward ratio
/// plus the rungs remaining past the index, floored by a configured
/// minimum, overridden by a fixed take-profit; the sell prices solve
/// the profit-and-loss formula backward. Nothing exactly where the
/// sizing is undefined.
#[verifier::opaque]
pub open spec fn build_trade_dict_s(
    s: SignalV,
    entry: int,
    stop: int,
    risk: int,
    arr: Seq<int>,
    index: int,
    new_fees: int,
    kind: Direction,
    take_profit: Option<int>,
    start: int,
) -> Option<TradeInstanceType> {
    let dp = s.decimal_places;
    match position_size_v(entry, Some(stop), risk, None, false, true, dp) {
        None => None,
        Some(base_quantity) => {
            let wq0 = btd_wq_s(s, risk, arr, index + 1);
            let wq = if s.increase_size {
                btd_scaled_s(wq0)
            } else {
                wq0
            };
            let incurred_fees = add_v(btd_fee_sum_s(s, wq), btd_risk_sum_s(s, risk, wq.len()));
            let multiplier = clip_i((start - index) * SCALE);
            let quantity = if s.increase_size {
                mul_v(base_quantity, multiplier)
            } else {
                base_quantity
            };
            let risk2 = if s.increase_size {
                abs_i(pnl_v(entry, stop, quantity, kind))
            } else {
                risk
            };
            let fee = to_f_v(mul_v(mul_v(s.fee, quantity), entry), dp);
            let increment = arr.len() - (index + 1);
            let pnl0 = mul_v(to_f_v(risk2, dp), clip_i((s.risk_reward + increment) * SCALE));
            let pnl1 = if s.minimum_pnl > 0 {
                add_v(s.minimum_pnl, fee)
            } else {
                pnl0
            };
            let sell0 = close_price_v(entry, pnl1, quantity, 1, kind);
            let pnl2 = match take_profit {
                Some(tp) => add_v(pnl_v(entry, tp, quantity, kind), fee),
                None => pnl1,
            };
            let sell1 = match take_profit {
                Some(tp) => close_price_v(entry, pnl2, quantity, 1, kind),
                None => sell0,
            };
            let incurred = to_f_v(add_v(incurred_fees, new_fees), dp);
            let incurred_sell = if incurred > 0 {
                close_price_v(entry, incurred, quantity, 1, kind)
            } else {
                sell1
            };
            Some(
                TradeInstanceType {
                    entry: fp_v(entry),
                    risk: fp_v(to_f_v(risk2, dp)),
                    quantity: fp_v(quantity),
                    sell_price: fp_v(to_f_v(sell1, s.price_places)),
                    incurred_sell: fp_v(to_f_v(incurred_sell, s.price_places)),
                    stop: fp_v(stop),
                    pnl: fp_v(pnl2),
                    fee: fp_v(fee),
                    net: fp_v(to_f_v(sub_v(pnl2, fee), dp)),
                    incurred: fp_v(incurred),
                    stop_percent: fp_v(to_f_v(div_v(abs_i(sub_v(entry, stop)), entry), dp)),
                    rr: s.risk_reward as u32,
                    avg_entry: None,
                    avg_size: None,
                    neg_pnl: None,
                    start_entry: None,
                },
            )
        },
    }
}

impl Signal {
    /// Build one order of a ladder against its stop and risk budget.
    fn build_trade_dict(
        &self,
        entry: Fp,
        stop: Fp,
        risk: Fp,
        arr: &Vec<Fp>,
        index: usize,
        new_fees: Fp,
        kind: Direction,
        take_profit: Option<Fp>,
        start: usize,
    ) -> (r: Option<TradeInstanceType>)
        requires
            index < arr@.len() <= 4_000_000,
            start <= 4_000_000,
            self.risk_reward <= 4_000_000,
        ensures
            r == build_trade_dict_s(
                self@,
                entry@,
                stop@,
                risk@,
                views(arr@),
                index as int,
                new_fees@,
                kind,
                match take_profit {
                    Some(t) => Some(t@),
                    None => None,
                },
                start as int,
            ),
    {
        proof {
            reveal(build_trade_dict_s);
        }
        let ghost arrv = views(arr@);
        let dp = self.decimal_places.as_str();
        let params = PositionSizeParams {
            entry,
            stop: Some(stop),
            budget: risk,
            percent: None,
            min_size: None,
            as_coin: true,
            places: self.decimal_places.clone(),
        };
        let quantity = match determine_position_size(&params) {
            Some(q) => q,
            None => {
                return None;
            },
        };
        proof {
            assert(entry@ != 0) by {
                if entry@ == 0 {
                    assert(position_size_v(
                        entry@,
                        Some(stop@),
                        risk@,
                        None,
                        false,
                        true,
                        self.decimal_places@,
                    ) is None);
                }
            }
        }
        let ghost wq_total = btd_wq_s(self@, risk@, arrv, index + 1);
        let mut wq: Vec<(Fp, Fp)> = Vec::new();
        let mut i: usize = index + 1;
        proof {
            assert(pair_views(wq@) =~= Seq::<(int, int)>::empty());
            assert(pair_views(wq@) + wq_total =~= wq_total);
        }
        while i < arr.len()
            invariant
                index + 1 <= i <= arrv.len() <= 4_000_000,
                arrv == views(arr@),
                wq@.len() <= i - index - 1,
                wq_total == btd_wq_s(self@, risk@, arrv, index + 1),
                pair_views(wq@) + btd_wq_s(self@, risk@, arrv, i as int) == wq_total,
            decreases arrv.len() - i,
        {
            let ghost pre = pair_views(wq@);
            let ghost rem = btd_wq_s(self@, risk@, arrv, i as int);
            let rung_params = PositionSizeParams {
                entry: arr[i],
                stop: Some(arr[i - 1]),
                budget: risk,
                percent: None,
                min_size: None,
                as_coin: true,
                places: self.decimal_places.clone(),
            };
            match determine_position_size(&rung_params) {
                Some(q) => {
                    wq.push((q, arr[i]));
                    proof {
                        assert(pair_views(wq@) =~= pre.push((q@, arrv[i as int])));
                        assert(pair_views(wq@) + btd_wq_s(self@, risk@, arrv, i + 1) =~= pre
                            + rem);
                    }
                },
                None => {},
            }
            i = i + 1;
        }
        proof {
            assert(btd_wq_s(self@, risk@, arrv, arrv.len() as int) =~= Seq::<(int, int)>::empty());
            assert(pair_views(wq@) + Seq::<(int, int)>::empty() =~= pair_views(wq@));
        }
        let wq2: Vec<(Fp, Fp)> = if self.increase_size {
            let arr_length = wq.len();
            let mut scaled: Vec<(Fp, Fp)> = Vec::new();
            let mut j: usize = 0;
            while j < arr_length
                invariant
                    j <= arr_length == wq@.len() <= 4_000_000,
                    scaled@.len() == j,
                    forall|k: int|
                        0 <= k < j ==> (scaled@[k].0@, scaled@[k].1@) == btd_scaled_s(
                            pair_views(wq@),
                        )[k],
                decreases arr_length - j,
            {
                scaled.push((wq[j].0.mul(Fp::from_int((arr_length - j) as i64)), wq[j].1));
                j = j + 1;
            }
            proof {
                assert(pair_views(scaled@) =~= btd_scaled_s(pair_views(wq@)));
            }
            scaled
        } else {
            wq
        };
        let ghost wqv = pair_views(wq2@);
        let mut fee_sum = Fp::zero();
        let mut risk_sum = Fp::zero();
        let mut j: usize = 0;
        proof {
            assert(wqv.subrange(0, 0) =~= Seq::<(int, int)>::empty());
        }
        while j < wq2.len()
            invariant
                j <= wq2@.len(),
                wqv == pair_views(wq2@),
                dp@ == self.decimal_places@,
                fee_sum@ == btd_fee_sum_s(self@, wqv.subrange(0, j as int)),
                risk_sum@ == btd_risk_sum_s(self@, risk@, j as nat),
            decreases wq2@.len() - j,
        {
            proof {
                assert(wqv.subrange(0, j + 1).drop_last() =~= wqv.subrange(0, j as int));
                assert(wqv.subrange(0, j + 1).last() == (wq2@[j as int].0@, wq2@[j as int].1@));
            }
            fee_sum = fee_sum.add(to_f(self.fee.mul(wq2[j].0).mul(wq2[j].1), dp));
            risk_sum = risk_sum.add(to_f(risk, dp));
            j = j + 1;
        }
        proof {
            assert(wqv.subrange(0, wqv.len() as int) =~= wqv);
        }
        let incurred_fees = fee_sum.add(risk_sum);
        let multiplier = Fp::from_int(start as i64 - index as i64);
        let quantity = if self.increase_size {
            quantity.mul(multiplier)
        } else {
            quantity
        };
        let risk2 = if self.increase_size {
            determine_pnl(entry, stop, quantity, kind).abs()
        } else {
            risk
        };
        let fee = to_f(self.fee.mul(quantity).mul(entry), dp);
        let increment: usize = arr.len() - (index + 1);
        let risk_rounded = to_f(risk2, dp);
        let pnl0 = risk_rounded.mul(Fp::from_int(self.risk_reward as i64 + increment as i64));
        let pnl1 = if self.minimum_pnl.gt(Fp::zero()) {
            self.minimum_pnl.add(fee)
        } else {
            pnl0
        };
        let sell0 = determine_close_price(entry, pnl1, quantity, 1, kind);
        let (pnl2, sell1) = match take_profit {
            Some(tp) => {
                let p = determine_pnl(entry, tp, quantity, kind).add(fee);
                (p, determine_close_price(entry, p, quantity, 1, kind))
            },
            None => (pnl1, sell0),
        };
        let incurred = to_f(incurred_fees.add(new_fees), dp);
        let incurred_sell = if incurred.gt(Fp::zero()) {
            determine_close_price(entry, incurred, quantity, 1, kind)
        } else {
            sell1
        };
        let stop_percent = to_f(entry.sub(stop).abs().div(entry), dp);
        let t = TradeInstanceType {
            entry,
            risk: risk_rounded,
            quantity,
            sell_price: self.to_f(sell1),
            incurred_sell: self.to_f(incurred_sell),
            stop,
            pnl: pnl2,
            fee,
            net: to_f(pnl2.sub(fee), dp),
            incurred,
            stop_percent,
            rr: self.risk_reward,
            avg_entry: None,
            avg_size: None,
            neg_pnl: None,
            start_entry: None,
        };
        proof {
            use_type_invariant(t.entry);
            use_type_invariant(t.risk);
            use_type_invariant(t.quantity);
            use_type_invariant(t.sell_price);
            use_type_invariant(t.incurred_sell);
            use_type_invariant(t.stop);
            use_type_invariant(t.pnl);
            use_type_invariant(t.fee);
            use_type_invariant(t.net);
            use_type_invariant(t.incurred);
            use_type_invariant(t.stop_percent);
            crate::fixed::lemma_fp_v_eq(t.entry, t.entry@);
            crate::fixed::lemma_fp_v_eq(t.risk, t.risk@);
            crate::fixed::lemma_fp_v_eq(t.quantity, t.quantity@);
            crate::fixed::lemma_fp_v_eq(t.sell_price, t.sell_price@);
            crate::fixed::lemma_fp_v_eq(t.incurred_sell, t.incurred_sell@);
            crate::fixed::lemma_fp_v_eq(t.stop, t.stop@);
            crate::fixed::lemma_fp_v_eq(t.pnl, t.pnl@);
            crate::fixed::lemma_fp_v_eq(t.fee, t.fee@);
            crate::fixed::lemma_fp_v_eq(t.net, t.net@);
            crate::fixed::lemma_fp_v_eq(t.incurred, t.incurred@);
            crate::fixed::lemma_fp_v_eq(t.stop_percent, t.stop_percent@);
        }
        Some(t)
    }
}

/// The risk budget of one order: the configured per-trade risk, or an
/// equal split of the zone risk over the order count.
pub open spec fn risk_per_trade_s(s: SignalV, n: int) -> int {
    if s.risk_per_trade > 0 {
        s.risk_per_trade
    } else {
        div_v(clip_i(s.zone_risk * SCALE), clip_i(n * SCALE))
    }
}

/// The market orders of a ladder, built in order: each order's stop is
/// the support when increase-on-support is active, else the previous
/// market order, the last limit order for the first, or itself when
/// there is neither.
pub open spec fn market_trades_s(
    s: SignalV,
    market: Seq<int>,
    limit: Seq<int>,
    rpt: int,
    tp: int,
    kind: Direction,
    incpos: bool,
    i: int,
) -> Seq<TradeInstanceType>
    decreases market.len() - i,
{
    if i < 0 || i >= market.len() {
        Seq::empty()
    } else {
        let stop = if incpos {
            s.support
        } else if i == 0 {
            if limit.len() > 0 {
                limit.last()
            } else {
                market[0]
            }
        } else {
            market[i - 1]
        };
        let rest = market_trades_s(s, market, limit, rpt, tp, kind, incpos, i + 1);
        match build_trade_dict_s(
            s,
            market[i],
            stop,
            rpt,
            market,
            i,
            0,
            kind,
            Some(tp),
            market.len() + limit.len() as int,
        ) {
            Some(t) => seq![t] + rest,
            None => rest,
        }
    }
}

/// The limit orders of a ladder, built in order after the market
/// orders: each order's stop chains from the previous limit order, from
/// the stop loss for the first, or sits at the new stop when
/// increase-on-support is active; the accumulated market fees are
/// carried in.
pub open spec fn limit_trades_s(
    s: SignalV,
    limit: Seq<int>,
    rpt: int,
    tp: int,
    kind: Direction,
    incpos: bool,
    new_stop: int,
    stop_loss: int,
    carried: int,
    start: int,
    i: int,
) -> Seq<TradeInstanceType>
    decreases limit.len() - i,
{
    if i < 0 || i >= limit.len() {
        Seq::empty()
    } else {
        let stop = if incpos {
            new_stop
        } else if i == 0 {
            stop_loss
        } else {
            limit[i - 1]
        };
        let rest = limit_trades_s(
            s,
            limit,
            rpt,
            tp,
            kind,
            incpos,
            new_stop,
            stop_loss,
            carried,
            start,
            i + 1,
        );
        match build_trade_dict_s(s, limit[i], stop, rpt, limit, i, carried, kind, Some(tp), start) {
            Some(t) => seq![t] + rest,
            None => rest,
        }
    }
}

/// The orders with at least the given quantity, in order.
pub open spec fn filter_q_ge(s: Seq<TradeInstanceType>, bound: int) -> Seq<TradeInstanceType>
    decreases s.len(),
{
    if s.len() == 0 {
        Seq::empty()
    } else if s.last().quantity@ >= bound {
        filter_q_ge(s.drop_last(), bound).push(s.last())
    } else {
        filter_q_ge(s.drop_last(), bound)
    }
}

/// The orders under the given quantity, in order.
pub open spec fn filter_q_lt(s: Seq<TradeInstanceType>, bound: int) -> Seq<TradeInstanceType>
    decreases s.len(),
{
    if s.len() == 0 {
        Seq::empty()
    } else if s.last().quantity@ < bound {
        filter_q_lt(s.drop_last(), bound).push(s.last())
    } else {
        filter_q_lt(s.drop_last(), bound)
    }
}

/// The running sum of the risks of a bucket, left to right.
pub open spec fn risk_fold_s(grp: Seq<TradeInstanceType>) -> int
    decreases grp.len(),
{
    if grp.len() == 0 {
        0
    } else {
        add_v(risk_fold_s(grp.drop_last()), grp.last().risk@)
    }
}

/// One synthetic order standing for a bucket of undersized orders: the
/// weighted-average entry and total quantity, the summed risk, and the
/// profit of that position closed at the bucket's first sell price.
pub open spec fn synth_of_s(s: SignalV, grp: Seq<TradeInstanceType>, kind: Direction) -> TradeInstanceType {
    let avg_entries = grp.map_values(
        |t: TradeInstanceType| AvgEntry { price: t.entry, quantity: t.quantity },
    );
    let price = crate::utils::avg_price_v(avg_entries, s.price_places);
    let qty = crate::utils::avg_qty_v(avg_entries, s.decimal_places);
    let riskt = to_f_v(risk_fold_s(grp), s.decimal_places);
    let pnlt = to_f_v(pnl_v(price, grp[0].sell_price@, qty, kind), s.decimal_places);
    TradeInstanceType {
        entry: fp_v(price),
        risk: fp_v(riskt),
        quantity: fp_v(qty),
        sell_price: fp_v(0),
        incurred_sell: fp_v(0),
        stop: fp_v(0),
        pnl: fp_v(pnlt),
        fee: fp_v(0),
        net: fp_v(0),
        incurred: fp_v(0),
        stop_percent: fp_v(0),
        rr: 0,
        avg_entry: None,
        avg_size: None,
        neg_pnl: None,
        start_entry: None,
    }
}

/// The synthetic orders of the non-empty buckets, in bucket order.
pub open spec fn synth_list_s(
    s: SignalV,
    groups: Seq<Seq<TradeInstanceType>>,
    kind: Direction,
    g: int,
) -> Seq<TradeInstanceType>
    decreases groups.len() - g,
{
    if g < 0 || g >= groups.len() {
        Seq::empty()
    } else {
        let rest = synth_list_s(s, groups, kind, g + 1);
        if groups[g].len() > 0 {
            seq![synth_of_s(s, groups[g], kind)] + rest
        } else {
            rest
        }
    }
}

/// The derived take-profit: the stop loss moved two steps along the
/// direction, overridden by a configured fixed take-profit.
pub open spec fn take_profit_s(s: SignalV, stop_loss: int, kind: Direction) -> int {
    let factor = add_v(SCALE as int, mul_v(clip_i(2 * SCALE), s.percent_change));
    match s.take_profit {
        Some(t) => t,
        None => if kind.is_long() {
            mul_v(stop_loss, factor)
        } else {
            div_v(stop_loss, factor)
        },
    }
}

/// The whole order ladder built from a zone ladder: the zones past the
/// anchor split into limit and market orders around the rounded current
/// price, each group built in order with chained stops, and — when a
/// minimum size is set — the undersized orders collapsed bucket-wise
/// into synthetic orders appended after the full-sized ones.
pub open spec fn process_orders_s(
    s: SignalV,
    cp: int,
    stop_loss: int,
    zones: Seq<int>,
    kind: Direction,
) -> Seq<TradeInstanceType> {
    if zones.len() <= 1 {
        Seq::empty()
    } else {
        let n = zones.len() - 1;
        let tp = take_profit_s(s, stop_loss, kind);
        let cpf = to_f_v(cp, s.price_places);
        let tail = zones.drop_first();
        let limit0 = filter_le(tail, cpf);
        let market0 = filter_gt(tail, cpf);
        let limit = if kind.is_long() {
            limit0
        } else {
            filter_ge(limit0, cpf)
        };
        let market = if kind.is_long() {
            market0
        } else {
            filter_lt(market0, cpf)
        };
        let rpt = risk_per_trade_s(s, n as int);
        let incpos = s.support > 0 && s.increase_position;
        let mtrades = market_trades_s(s, market, limit, rpt, tp, kind, incpos, 0);
        let carried = if mtrades.len() > 0 {
            add_v(mtrades[0].incurred@, mtrades[0].fee@)
        } else {
            0
        };
        let new_stop = if kind.is_long() {
            s.support
        } else {
            stop_loss
        };
        let ltrades = limit_trades_s(
            s,
            limit,
            rpt,
            tp,
            kind,
            incpos,
            new_stop,
            stop_loss,
            carried,
            market.len() + limit.len() as int,
            0,
        );
        let total = ltrades + mtrades;
        if s.minimum_size > 0 {
            let greater = filter_q_ge(total, s.minimum_size);
            let less = filter_q_lt(total, s.minimum_size);
            if less.len() == 0 {
                greater
            } else {
                let synth = synth_list_s(s, group_by_sum(less, s.minimum_size), kind, 0);
                if greater.len() == 0 {
                    synth
                } else {
                    greater + synth
                }
            }
        } else {
            total
        }
    }
}

impl Signal {
    /// The risk budget allotted to each of `number_of_orders` orders.
    pub fn get_risk_per_trade(&self, number_of_orders: usize) -> (r: Fp)
        requires
            1 <= number_of_orders <= 4_000_000,
        ensures
            r@ == risk_per_trade_s(self@, number_of_orders as int),
    {
        if self.risk_per_trade.gt(Fp::zero()) {
            self.risk_per_trade
        } else {
            let zr = if self.zone_risk > 4_000_000 {
                Fp::from_raw(crate::fixed::LIMIT_RAW)
            } else {
                Fp::from_int(self.zone_risk as i64)
            };
            zr.div(Fp::from_int(number_of_orders as i64))
        }
    }

    /// Build the market orders of a ladder in order.
    fn build_market_trades(
        &self,
        market: &Vec<Fp>,
        limit: &Vec<Fp>,
        rpt: Fp,
        tp: Fp,
        kind: Direction,
        incpos: bool,
    ) -> (r: Vec<TradeInstanceType>)
        requires
            market@.len() + limit@.len() <= 4_000_000,
            self.risk_reward <= 4_000_000,
        ensures
            r@ == market_trades_s(
                self@,
                views(market@),
                views(limit@),
                rpt@,
                tp@,
                kind,
                incpos,
                0,
            ),
    {
        let ghost mv = views(market@);
        let ghost lv = views(limit@);
        let ghost total = market_trades_s(self@, mv, lv, rpt@, tp@, kind, incpos, 0);
        let mut r: Vec<TradeInstanceType> = Vec::new();
        let mut i: usize = 0;
        proof {
            assert(r@ + market_trades_s(self@, mv, lv, rpt@, tp@, kind, incpos, 0) =~= total);
        }
        while i < market.len()
            invariant
                i <= mv.len(),
                mv == views(market@),
                lv == views(limit@),
                mv.len() + lv.len() <= 4_000_000,
                self.risk_reward <= 4_000_000,
                total == market_trades_s(self@, mv, lv, rpt@, tp@, kind, incpos, 0),
                r@ + market_trades_s(self@, mv, lv, rpt@, tp@, kind, incpos, i as int) == total,
            decreases mv.len() - i,
        {
            let ghost pre = r@;
            let ghost rem = market_trades_s(self@, mv, lv, rpt@, tp@, kind, incpos, i as int);
            let stop = if incpos {
                self.support
            } else if i == 0 {
                if limit.len() > 0 {
                    limit[limit.len() - 1]
                } else {
                    market[0]
                }
            } else {
                market[i - 1]
            };
            let built = self.build_trade_dict(
                market[i],
                stop,
                rpt,
                market,
                i,
                Fp::zero(),
                kind,
                Some(tp),
                market.len() + limit.len(),
            );
            match built {
                Some(t) => {
                    r.push(t);
                    proof {
                        assert(r@ =~= pre.push(t));
                        assert(r@ + market_trades_s(
                            self@,
                            mv,
                            lv,
                            rpt@,
                            tp@,
                            kind,
                            incpos,
                            i + 1,
                        ) =~= pre + rem);
                    }
                },
                None => {},
            }
            i = i + 1;
        }
        proof {
            assert(market_trades_s(self@, mv, lv, rpt@, tp@, kind, incpos, mv.len() as int) =~= Seq::<
                TradeInstanceType,
            >::empty());
            assert(r@ + Seq::<TradeInstanceType>::empty() =~= r@);
        }
        r
    }

    /// Build the limit orders of a ladder in order, carrying the
    /// accumulated market fees.
    fn build_limit_trades(
        &self,
        limit: &Vec<Fp>,
        rpt: Fp,
        tp: Fp,
        kind: Direction,
        incpos: bool,
        new_stop: Fp,
        stop_loss: Fp,
        carried: Fp,
        start: usize,
    ) -> (r: Vec<TradeInstanceType>)
        requires
            limit@.len() <= 4_000_000,
            start <= 4_000_000,
            self.risk_reward <= 4_000_000,
        ensures
            r@ == limit_trades_s(
                self@,
                views(limit@),
                rpt@,
                tp@,
                kind,
                incpos,
                new_stop@,
                stop_loss@,
                carried@,
                start as int,
                0,
            ),
    {
        let ghost lv = views(limit@);
        let ghost total = limit_trades_s(
            self@,
            lv,
            rpt@,
            tp@,
            kind,
            incpos,
            new_stop@,
            stop_loss@,
            carried@,
            start as int,
            0,
        );
        let mut r: Vec<TradeInstanceType> = Vec::new();
        let mut i: usize = 0;
        proof {
            assert(r@ + total =~= total);
        }
        while i < limit.len()
            invariant
                i <= lv.len(),
                lv == views(limit@),
                lv.len() <= 4_000_000,
                start <= 4_000_000,
                self.risk_reward <= 4_000_000,
                total == limit_trades_s(
                    self@,
                    lv,
                    rpt@,
                    tp@,
                    kind,
                    incpos,
                    new_stop@,
                    stop_loss@,
                    carried@,
                    start as int,
                    0,
                ),
                r@ + limit_trades_s(
                    self@,
                    lv,
                    rpt@,
                    tp@,
                    kind,
                    incpos,
                    new_stop@,
                    stop_loss@,
                    carried@,
                    start as int,
                    i as int,
                ) == total,
            decreases lv.len() - i,
        {
            let ghost pre = r@;
            let ghost rem = limit_trades_s(
                self@,
                lv,
                rpt@,
                tp@,
                kind,
                incpos,
                new_stop@,
                stop_loss@,
                carried@,
                start as int,
                i as int,
            );
            let stop = if incpos {
                new_stop
            } else if i == 0 {
                stop_loss
            } else {
                limit[i - 1]
            };
            let built = self.build_trade_dict(
                limit[i],
                stop,
                rpt,
                limit,
                i,
                carried,
                kind,
                Some(tp),
                start,
            );
            match built {
                Some(t) => {
                    r.push(t);
                    proof {
                        assert(r@ =~= pre.push(t));
                        assert(r@ + limit_trades_s(
                            self@,
                            lv,
                            rpt@,
                            tp@,
                            kind,
                            incpos,
                            new_stop@,
                            stop_loss@,
                            carried@,
                            start as int,
                            i + 1,
                        ) =~= pre + rem);
                    }
                },
                None => {},
            }
            i = i + 1;
        }
        proof {
            assert(limit_trades_s(
                self@,
                lv,
                rpt@,
                tp@,
                kind,
                incpos,
                new_stop@,
                stop_loss@,
                carried@,
                start as int,
                lv.len() as int,
            ) =~= Seq::<TradeInstanceType>::empty());
            assert(r@ + Seq::<TradeInstanceType>::empty() =~= r@);
        }
        r
    }

    /// Collapse each bucket of undersized orders into one synthetic
    /// order carrying the bucket's weighted-average entry and size.
    fn build_synthetics(
        &self,
        groups: &Vec<Vec<TradeInstanceType>>,
        kind: Direction,
    ) -> (r: Vec<TradeInstanceType>)
        ensures
            r@ == synth_list_s(
                self@,
                groups@.map_values(|g: Vec<TradeInstanceType>| g@),
                kind,
                0,
            ),
    {
        let ghost gv = groups@.map_values(|g: Vec<TradeInstanceType>| g@);
        let ghost total = synth_list_s(self@, gv, kind, 0);
        let mut r: Vec<TradeInstanceType> = Vec::new();
        let mut g: usize = 0;
        proof {
            assert(r@ + total =~= total);
        }
        while g < groups.len()
            invariant
                g <= gv.len(),
                gv == groups@.map_values(|x: Vec<TradeInstanceType>| x@),
                total == synth_list_s(self@, gv, kind, 0),
                r@ + synth_list_s(self@, gv, kind, g as int) == total,
            decreases gv.len() - g,
        {
            let ghost pre = r@;
            let ghost rem = synth_list_s(self@, gv, kind, g as int);
            let grp = &groups[g];
            if grp.len() > 0 {
                let mut avg_entries: Vec<AvgEntry> = Vec::new();
                let mut k: usize = 0;
                while k < grp.len()
                    invariant
                        k <= grp@.len(),
                        avg_entries@.len() == k,
                        forall|j: int|
                            0 <= j < k ==> avg_entries@[j] == (AvgEntry {
                                price: grp@[j].entry,
                                quantity: grp@[j].quantity,
                            }),
                    decreases grp@.len() - k,
                {
                    avg_entries.push(
                        AvgEntry { price: grp[k].entry, quantity: grp[k].quantity },
                    );
                    k = k + 1;
                }
                proof {
                    assert(avg_entries@ =~= grp@.map_values(
                        |t: TradeInstanceType| AvgEntry { price: t.entry, quantity: t.quantity },
                    ));
                }
                let avg = determine_avg(
                    &avg_entries,
                    self.decimal_places.as_str(),
                    self.price_places.as_str(),
                );
                let mut risk_total = Fp::zero();
                let mut k2: usize = 0;
                proof {
                    assert(grp@.subrange(0, 0) =~= Seq::<TradeInstanceType>::empty());
                }
                while k2 < grp.len()
                    invariant
                        k2 <= grp@.len(),
                        risk_total@ == risk_fold_s(grp@.subrange(0, k2 as int)),
                    decreases grp@.len() - k2,
                {
                    proof {
                        assert(grp@.subrange(0, k2 + 1).drop_last() =~= grp@.subrange(
                            0,
                            k2 as int,
                        ));
                        assert(grp@.subrange(0, k2 + 1).last() == grp@[k2 as int]);
                    }
                    risk_total = risk_total.add(grp[k2].risk);
                    k2 = k2 + 1;
                }
                proof {
                    assert(grp@.subrange(0, grp@.len() as int) =~= grp@);
                }
                let dp = self.decimal_places.as_str();
                let pnl = to_f(
                    determine_pnl(avg.price, grp[0].sell_price, avg.quantity, kind),
                    dp,
                );
                let t = TradeInstanceType {
                    entry: avg.price,
                    risk: to_f(risk_total, dp),
                    quantity: avg.quantity,
                    sell_price: Fp::zero(),
                    incurred_sell: Fp::zero(),
                    stop: Fp::zero(),
                    pnl,
                    fee: Fp::zero(),
                    net: Fp::zero(),
                    incurred: Fp::zero(),
                    stop_percent: Fp::zero(),
                    rr: 0,
                    avg_entry: None,
                    avg_size: None,
                    neg_pnl: None,
                    start_entry: None,
                };
                proof {
                    use_type_invariant(t.entry);
                    use_type_invariant(t.risk);
                    use_type_invariant(t.quantity);
                    use_type_invariant(t.pnl);
                    crate::fixed::lemma_fp_v_eq(t.entry, t.entry@);
                    crate::fixed::lemma_fp_v_eq(t.risk, t.risk@);
                    crate::fixed::lemma_fp_v_eq(t.quantity, t.quantity@);
                    crate::fixed::lemma_fp_v_eq(t.pnl, t.pnl@);
                    crate::fixed::lemma_fp_v_eq(t.sell_price, 0);
                    crate::fixed::lemma_fp_v_eq(t.incurred_sell, 0);
                    crate::fixed::lemma_fp_v_eq(t.stop, 0);
                    crate::fixed::lemma_fp_v_eq(t.fee, 0);
                    crate::fixed::lemma_fp_v_eq(t.net, 0);
                    crate::fixed::lemma_fp_v_eq(t.incurred, 0);
                    crate::fixed::lemma_fp_v_eq(t.stop_percent, 0);
                    assert(t == synth_of_s(self@, grp@, kind));
                }
                r.push(t);
                proof {
                    assert(r@ =~= pre.push(t));
                    assert(r@ + synth_list_s(self@, gv, kind, g + 1) =~= pre + rem);
                }
            }
            g = g + 1;
        }
        proof {
            assert(synth_list_s(self@, gv, kind, gv.len() as int) =~= Seq::<
                TradeInstanceType,
            >::empty());
            assert(r@ + Seq::<TradeInstanceType>::empty() =~= r@);
        }
        r
    }

    /// Build the whole order ladder from a zone ladder: limit orders
    /// below the current price and market orders above it (reversed
    /// for the short direction), then the minimum-size aggregation.
    pub fn process_orders(
        &self,
        current_price: Fp,
        stop_loss: Fp,
        trade_zones: &Vec<Fp>,
        kind: Direction,
    ) -> (r: Vec<TradeInstanceType>)
        requires
            self.percent_change@ > 0,
            trade_zones@.len() <= 4_000_001,
            self.risk_reward <= 4_000_000,
        ensures
            r@ == process_orders_s(self@, current_price@, stop_loss@, views(trade_zones@), kind),
    {
        let ghost zv = views(trade_zones@);
        if trade_zones.len() <= 1 {
            let r: Vec<TradeInstanceType> = Vec::new();
            proof {
                assert(r@ =~= Seq::<TradeInstanceType>::empty());
            }
            return r;
        }
        let number_of_orders = trade_zones.len() - 1;
        let two_steps = Fp::from_int(1).add(Fp::from_int(2).mul(self.percent_change));
        proof {
            crate::fixed::lemma_mul_v_nonneg(clip_i(2 * SCALE), self.percent_change@);
        }
        let take_profit = match self.take_profit {
            Some(tpv) => tpv,
            None => match kind {
                Direction::Long => stop_loss.mul(two_steps),
                Direction::Short => stop_loss.div(two_steps),
            },
        };
        let cpf = self.to_f(current_price);
        let mut tail: Vec<Fp> = Vec::new();
        let mut i: usize = 1;
        while i < trade_zones.len()
            invariant
                1 <= i <= zv.len(),
                zv == views(trade_zones@),
                tail@.len() == i - 1,
                forall|j: int| 0 <= j < i - 1 ==> tail@[j]@ == zv[j + 1],
            decreases zv.len() - i,
        {
            tail.push(trade_zones[i]);
            i = i + 1;
        }
        proof {
            assert(views(tail@) =~= zv.drop_first());
        }
        let limit0 = crate::sorting::retain_le(&tail, cpf);
        let market0 = crate::sorting::retain_gt(&tail, cpf);
        let (limit_orders, market_orders) = match kind {
            Direction::Long => (limit0, market0),
            Direction::Short => (
                crate::sorting::retain_ge(&limit0, cpf),
                crate::sorting::retain_lt(&market0, cpf),
            ),
        };
        proof {
            crate::sorting::lemma_filter_partition(zv.drop_first(), cpf@);
            crate::sorting::lemma_filter_lens(filter_le(zv.drop_first(), cpf@), cpf@);
            crate::sorting::lemma_filter_lens(
                filter_gt(zv.drop_first(), cpf@),
                cpf@,
            );
        }
        let risk_per_trade = self.get_risk_per_trade(number_of_orders);
        let increase_position = self.support.gt(Fp::zero()) && self.increase_position;
        let market_trades = self.build_market_trades(
            &market_orders,
            &limit_orders,
            risk_per_trade,
            take_profit,
            kind,
            increase_position,
        );
        let carried = if market_trades.len() > 0 {
            market_trades[0].incurred.add(market_trades[0].fee)
        } else {
            Fp::zero()
        };
        let new_stop = match kind {
            Direction::Long => self.support,
            Direction::Short => stop_loss,
        };
        let limit_trades = self.build_limit_trades(
            &limit_orders,
            risk_per_trade,
            take_profit,
            kind,
            increase_position,
            new_stop,
            stop_loss,
            carried,
            market_orders.len() + limit_orders.len(),
        );
        let mut total_orders = limit_trades;
        let ghost lt = total_orders@;
        let mut mi: usize = 0;
        while mi < market_trades.len()
            invariant
                mi <= market_trades@.len(),
                total_orders@ == lt + market_trades@.subrange(0, mi as int),
            decreases market_trades@.len() - mi,
        {
            proof {
                assert(lt + market_trades@.subrange(0, mi + 1) =~= (lt + market_trades@.subrange(
                    0,
                    mi as int,
                )).push(market_trades@[mi as int]));
            }
            total_orders.push(market_trades[mi]);
            mi = mi + 1;
        }
        proof {
            assert(lt + market_trades@.subrange(0, market_trades@.len() as int) =~= lt
                + market_trades@);
            assert(lt + market_trades@.subrange(0, 0) =~= lt);
        }
        if self.minimum_size.gt(Fp::zero()) {
            let mut greater: Vec<TradeInstanceType> = Vec::new();
            let mut less: Vec<TradeInstanceType> = Vec::new();
            let mut fi: usize = 0;
            proof {
                assert(total_orders@.subrange(0, 0) =~= Seq::<TradeInstanceType>::empty());
                assert(greater@ =~= filter_q_ge(total_orders@.subrange(0, 0), self.minimum_size@));
                assert(less@ =~= filter_q_lt(total_orders@.subrange(0, 0), self.minimum_size@));
            }
            while fi < total_orders.len()
                invariant
                    fi <= total_orders@.len(),
                    greater@ == filter_q_ge(
                        total_orders@.subrange(0, fi as int),
                        self.minimum_size@,
                    ),
                    less@ == filter_q_lt(
                        total_orders@.subrange(0, fi as int),
                        self.minimum_size@,
                    ),
                decreases total_orders@.len() - fi,
            {
                proof {
                    assert(total_orders@.subrange(0, fi + 1).drop_last() =~= total_orders@
                        .subrange(0, fi as int));
                    assert(total_orders@.subrange(0, fi + 1).last() == total_orders@[fi as int]);
                }
                let ghost pg = greater@;
                let ghost pl = less@;
                if total_orders[fi].quantity.ge(self.minimum_size) {
                    greater.push(total_orders[fi]);
                    proof {
                        assert(greater@ =~= pg.push(total_orders@[fi as int]));
                    }
                } else {
                    less.push(total_orders[fi]);
                    proof {
                        assert(less@ =~= pl.push(total_orders@[fi as int]));
                    }
                }
                fi = fi + 1;
            }
            proof {
                assert(total_orders@.subrange(0, total_orders@.len() as int) =~= total_orders@);
            }
            if less.len() == 0 {
                return greater;
            }
            let groups = group_into_pairs_with_sum_less_than(&less, self.minimum_size);
            let synthetic = self.build_synthetics(&groups, kind);
            if greater.len() == 0 {
                return synthetic;
            }
            let mut combined = greater;
            let ghost gbase = combined@;
            let mut si: usize = 0;
            while si < synthetic.len()
                invariant
                    si <= synthetic@.len(),
                    combined@ == gbase + synthetic@.subrange(0, si as int),
                decreases synthetic@.len() - si,
            {
                proof {
                    assert(gbase + synthetic@.subrange(0, si + 1) =~= (gbase + synthetic@
                        .subrange(0, si as int)).push(synthetic@[si as int]));
                }
                combined.push(synthetic[si]);
                si = si + 1;
            }
            proof {
                assert(gbase + synthetic@.subrange(0, synthetic@.len() as int) =~= gbase
                    + synthetic@);
                assert(gbase + synthetic@.subrange(0, 0) =~= gbase);
            }
            return combined;
        }
        total_orders
    }
}

} // verus!
