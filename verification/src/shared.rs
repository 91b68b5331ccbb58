//! The configuration layer around the engine: a flat settings bundle,
//! the merge into an engine parameter set, and the running-average
//! aggregation over a built order ladder.

use crate::fixed::{clip_i, div_v, fp_v, Fp, SCALE};
use crate::trade_signal::{
    future_zones_s, process_orders_s, Signal, SignalV, TradeInstanceType,
};
use crate::utils::{
    avg_price_v, avg_qty_v, determine_avg, determine_pnl, fib_level_v, fibonacci_analysis, pnl_v,
    str_eq, to_f, to_f_v, AvgEntry, Direction,
};
use vstd::prelude::*;

verus! {

/// A request for trading zones: per-call overrides over the configured
/// defaults.
pub struct TradingZoneType {
    /// Direction override.
    pub kind: Option<Direction>,
    /// Trend override.
    pub trend: Option<Direction>,
    /// Entry price.
    pub entry: Fp,
    /// Stop price.
    pub stop: Fp,
    /// Number of trades to ladder.
    pub no_of_trades: i32,
    /// Whether to derive the zones from Fibonacci levels.
    pub use_fibonacci: Option<bool>,
}

/// One trading zone: an entry, its stop, and a size.
#[derive(Clone, Copy, Debug, PartialEq, Eq, Structural)]
pub struct TradingZoneDict {
    /// Entry price.
    pub entry: Fp,
    /// Stop price.
    pub stop: Fp,
    /// Position size.
    pub size: Fp,
}

impl Default for TradingZoneDict {
    /// All fields zero.
    fn default() -> (r: Self)
        ensures
            r.entry@ == 0 && r.stop@ == 0 && r.size@ == 0,
    {
        TradingZoneDict { entry: Fp::zero(), stop: Fp::zero(), size: Fp::zero() }
    }
}

/// The flat settings bundle a caller supplies.
pub struct AppConfig {
    /// Fee rate, in percent.
    pub fee: Fp,
    /// Currency risked per order.
    pub risk_per_trade: Fp,
    /// Target profit multiple of the risked amount.
    pub risk_reward: u32,
    /// The anchor price.
    pub focus: Fp,
    /// The overall budget.
    pub budget: Fp,
    /// The support level.
    pub support: Fp,
    /// The resistance level.
    pub resistance: Fp,
    /// The per-step fractional change, before splitting.
    pub percent_change: Fp,
    /// How many ways the step is split.
    pub trade_split: Fp,
    /// A fixed take-profit price.
    pub take_profit: Option<Fp>,
    /// The configured direction.
    pub kind: Direction,
    /// The reference entry price.
    pub entry: Fp,
    /// The reference stop price.
    pub stop: Fp,
    /// The smallest tradable size.
    pub min_size: Fp,
    /// An alternative minimum size; the larger of the two applies.
    pub minimum_size: Option<Fp>,
    /// Display-format spec for prices.
    pub price_places: Option<String>,
    /// Display-format spec for amounts.
    pub decimal_places: Option<String>,
    /// The strategy tag.
    pub strategy: String,
    /// Whether callers want array output.
    pub as_array: Option<bool>,
    /// Whether callers want raw output.
    pub raw: Option<bool>,
    /// Whether zones derive from Fibonacci levels by default.
    pub use_fibonacci: Option<bool>,
}

/// The mathematical content of a settings bundle.
pub struct AppConfigV {
    /// Fee rate, in percent, in raw units.
    pub fee: int,
    /// Currency risked per order, in raw units.
    pub risk_per_trade: int,
    /// Target profit multiple.
    pub risk_reward: int,
    /// The anchor price, in raw units.
    pub focus: int,
    /// The overall budget, in raw units.
    pub budget: int,
    /// The support level, in raw units.
    pub support: int,
    /// The resistance level, in raw units.
    pub resistance: int,
    /// The unsplit step, in raw units.
    pub percent_change: int,
    /// The step split, in raw units.
    pub trade_split: int,
    /// A fixed take-profit, in raw units.
    pub take_profit: Option<int>,
    /// The configured direction.
    pub kind: Direction,
    /// The reference entry, in raw units.
    pub entry: int,
    /// The reference stop, in raw units.
    pub stop: int,
    /// The smallest tradable size, in raw units.
    pub min_size: int,
    /// The alternative minimum size, in raw units.
    pub minimum_size: Option<int>,
    /// The price display-format spec.
    pub price_places: Option<Seq<char>>,
    /// The amount display-format spec.
    pub decimal_places: Option<Seq<char>>,
    /// The strategy tag.
    pub strategy: Seq<char>,
    /// Whether callers want array output.
    pub as_array: Option<bool>,
    /// Whether callers want raw output.
    pub raw: Option<bool>,
    /// Whether zones derive from Fibonacci levels by default.
    pub use_fibonacci: Option<bool>,
}

impl View for AppConfig {
    type V = AppConfigV;

    open spec fn view(&self) -> AppConfigV {
        AppConfigV {
            fee: self.fee@,
            risk_per_trade: self.risk_per_trade@,
            risk_reward: self.risk_reward as int,
            focus: self.focus@,
            budget: self.budget@,
            support: self.support@,
            resistance: self.resistance@,
            percent_change: self.percent_change@,
            trade_split: self.trade_split@,
            take_profit: match self.take_profit {
                Some(t) => Some(t@),
                None => None,
            },
            kind: self.kind,
            entry: self.entry@,
            stop: self.stop@,
            min_size: self.min_size@,
            minimum_size: match self.minimum_size {
                Some(m) => Some(m@),
                None => None,
            },
            price_places: match self.price_places {
                Some(ref s) => Some(s@),
                None => None,
            },
            decimal_places: match self.decimal_places {
                Some(ref s) => Some(s@),
                None => None,
            },
            strategy: self.strategy@,
            as_array: self.as_array,
            raw: self.raw,
            use_fibonacci: self.use_fibonacci,
        }
    }
}

impl AppConfig {
    /// The reference entry price the aggregation defaults to.
    pub fn current_entry(&self) -> (r: Fp)
        ensures
            r@ == self@.entry,
    {
        self.entry
    }
}

/// A weighted average of a set of trades.
#[derive(Clone, Copy, Debug, PartialEq, Eq, Structural)]
pub struct AvgType {
    /// Quantity-weighted mean price.
    pub price: Fp,
    /// Total quantity.
    pub quantity: Fp,
    /// Carried profit figure; the average itself computes none.
    pub pnl: Fp,
}

/// The weighted average entry and size of a non-empty set of trades;
/// the averaging itself yields no profit figure.
pub fn build_avg(trades: &Vec<AvgEntry>, _kind: Direction, decimal_places: &str, price_places: &str) -> (r: AvgType)
    requires
        trades@.len() >= 1,
    ensures
        r.price@ == avg_price_v(trades@, price_places@),
        r.quantity@ == avg_qty_v(trades@, decimal_places@),
        r.pnl@ == 0,
{
    let avg = determine_avg(trades, decimal_places, price_places);
    AvgType { price: avg.price, quantity: avg.quantity, pnl: Fp::zero() }
}

/// Whether an entry lies on the pending side of the reference: at or
/// under it for a long call, at or over it for a short one.
pub open spec fn pending_side(kind: Direction, e: int, v: int) -> bool {
    if kind.is_long() {
        e <= v
    } else {
        e >= v
    }
}

/// The trades on the pending side of the reference entry, in order.
pub open spec fn cta_less_s(ts: Seq<TradeInstanceType>, kind: Direction, ce: int) -> Seq<
    TradeInstanceType,
>
    decreases ts.len(),
{
    if ts.len() == 0 {
        Seq::empty()
    } else if pending_side(kind, ts.last().entry@, ce) {
        cta_less_s(ts.drop_last(), kind, ce).push(ts.last())
    } else {
        cta_less_s(ts.drop_last(), kind, ce)
    }
}

/// The trades strictly beyond the reference entry, in order.
pub open spec fn cta_considered_s(ts: Seq<TradeInstanceType>, kind: Direction, ce: int) -> Seq<
    TradeInstanceType,
>
    decreases ts.len(),
{
    if ts.len() == 0 {
        Seq::empty()
    } else if (kind.is_long() && ts.last().entry@ > ce) || (!kind.is_long() && ts.last().entry@
        < ce) {
        cta_considered_s(ts.drop_last(), kind, ce).push(ts.last())
    } else {
        cta_considered_s(ts.drop_last(), kind, ce)
    }
}

/// The pending trades at or beyond one order's own entry, in order:
/// the direction-flipped comparison of the aggregation.
pub open spec fn cta_remaining_s(less: Seq<TradeInstanceType>, kind: Direction, xe: int) -> Seq<
    TradeInstanceType,
>
    decreases less.len(),
{
    if less.len() == 0 {
        Seq::empty()
    } else if (kind.is_long() && less.last().entry@ >= xe) || (!kind.is_long()
        && less.last().entry@ <= xe) {
        cta_remaining_s(less.drop_last(), kind, xe).push(less.last())
    } else {
        cta_remaining_s(less.drop_last(), kind, xe)
    }
}

/// The extreme entry of a non-empty set: the largest for a long call,
/// the smallest for a short one.
pub open spec fn cta_boundary_s(ts: Seq<TradeInstanceType>, kind: Direction) -> int
    decreases ts.len(),
{
    if ts.len() <= 1 {
        ts[0].entry@
    } else {
        let m = cta_boundary_s(ts.drop_last(), kind);
        let e = ts.last().entry@;
        if kind.is_long() {
            if e > m {
                e
            } else {
                m
            }
        } else {
            if e < m {
                e
            } else {
                m
            }
        }
    }
}

/// The take-profit the aggregation recomputes against: the far side of
/// the configured entry/stop pair.
pub open spec fn cta_take_profit_s(a: AppConfigV) -> int {
    if a.kind.is_long() {
        if a.entry >= a.stop {
            a.entry
        } else {
            a.stop
        }
    } else {
        if a.entry <= a.stop {
            a.entry
        } else {
            a.stop
        }
    }
}

/// The price display-format spec of a settings bundle; empty when unset.
pub open spec fn cfg_pp(a: AppConfigV) -> Seq<char> {
    match a.price_places {
        Some(s) => s,
        None => Seq::empty(),
    }
}

/// The amount display-format spec of a settings bundle; empty when
/// unset.
pub open spec fn cfg_dp(a: AppConfigV) -> Seq<char> {
    match a.decimal_places {
        Some(s) => s,
        None => Seq::empty(),
    }
}

/// One order restamped by the aggregation: orders beyond the considered
/// set are treated as filled at the boundary entry, the weighted
/// average is taken across them and the remaining pending orders, and
/// the profit and loss-at-stop are recomputed against the take-profit.
/// An order with no qualifying pending trades passes through with its
/// profit zeroed.
pub open spec fn cta_one_s(
    a: AppConfigV,
    ts: Seq<TradeInstanceType>,
    ce: int,
    x: TradeInstanceType,
) -> TradeInstanceType {
    let kind = a.kind;
    let less = cta_less_s(ts, kind, ce);
    let remaining = cta_remaining_s(less, kind, x.entry@);
    if remaining.len() == 0 {
        TradeInstanceType { pnl: fp_v(0), ..x }
    } else {
        let considered = cta_considered_s(ts, kind, ce);
        let start = cta_boundary_s(remaining, kind);
        let entries = considered.map_values(
            |t: TradeInstanceType| AvgEntry { price: fp_v(start), quantity: t.quantity },
        ) + remaining.map_values(
            |t: TradeInstanceType| AvgEntry { price: t.entry, quantity: t.quantity },
        );
        let avg_price = avg_price_v(entries, cfg_pp(a));
        let avg_qty = avg_qty_v(entries, cfg_dp(a));
        let tp = cta_take_profit_s(a);
        let pnl2 = if tp != 0 {
            pnl_v(avg_price, tp, avg_qty, kind)
        } else {
            x.pnl@
        };
        let sell2 = if tp != 0 {
            tp
        } else {
            x.sell_price@
        };
        let loss = if tp != 0 {
            pnl_v(avg_price, x.stop@, avg_qty, kind)
        } else {
            0
        };
        TradeInstanceType {
            avg_entry: Some(fp_v(avg_price)),
            avg_size: Some(fp_v(avg_qty)),
            pnl: fp_v(to_f_v(pnl2, cfg_dp(a))),
            neg_pnl: Some(fp_v(to_f_v(loss, cfg_dp(a)))),
            sell_price: fp_v(sell2),
            start_entry: Some(fp_v(ce)),
            ..x
        }
    }
}

/// Every order of the ladder restamped by the aggregation, against the
/// given reference entry (the configured entry when zero).
pub open spec fn cta_all_s(a: AppConfigV, ts: Seq<TradeInstanceType>, ce0: int) -> Seq<
    TradeInstanceType,
> {
    let ce = if ce0 == 0 {
        a.entry
    } else {
        ce0
    };
    Seq::new(ts.len(), |i: int| cta_one_s(a, ts, ce, ts[i]))
}

/// Recompute the running average entry, size and profit figures of
/// every order of a built ladder against a reference entry.
pub fn compute_total_average_for_each_trade(
    app_config: &AppConfig,
    trades: Vec<TradeInstanceType>,
    _current_qty: Fp,
    _current_entry: Fp,
) -> (r: Vec<TradeInstanceType>)
    ensures
        r@ == cta_all_s(app_config@, trades@, _current_entry@),
{
    let kind = app_config.kind;
    let take_profit = match kind {
        Direction::Long => app_config.entry.max(app_config.stop),
        Direction::Short => app_config.entry.min(app_config.stop),
    };
    let current_entry = if _current_entry.eq_v(Fp::zero()) {
        app_config.current_entry()
    } else {
        _current_entry
    };
    let pp: &str = match &app_config.price_places {
        Some(s) => s.as_str(),
        None => "",
    };
    let dp: &str = match &app_config.decimal_places {
        Some(s) => s.as_str(),
        None => "",
    };
    proof {
        assert(""@ =~= Seq::<char>::empty()) by {
            reveal_strlit("");
        }
    }
    let ghost tv = trades@;
    let ghost ce = current_entry@;
    let mut less: Vec<TradeInstanceType> = Vec::new();
    let mut i: usize = 0;
    proof {
        assert(tv.subrange(0, 0) =~= Seq::<TradeInstanceType>::empty());
    }
    while i < trades.len()
        invariant
            i <= tv.len(),
            tv == trades@,
            kind == app_config.kind,
            ce == current_entry@,
            less@ == cta_less_s(tv.subrange(0, i as int), kind, ce),
        decreases tv.len() - i,
    {
        proof {
            assert(tv.subrange(0, i + 1).drop_last() =~= tv.subrange(0, i as int));
            assert(tv.subrange(0, i + 1).last() == tv[i as int]);
        }
        let ghost pre = less@;
        let keep = match kind {
            Direction::Long => trades[i].entry.le(current_entry),
            Direction::Short => trades[i].entry.ge(current_entry),
        };
        if keep {
            less.push(trades[i]);
            proof {
                assert(less@ =~= pre.push(tv[i as int]));
            }
        }
        i = i + 1;
    }
    proof {
        assert(tv.subrange(0, tv.len() as int) =~= tv);
    }
    let mut considered: Vec<TradeInstanceType> = Vec::new();
    let mut i2: usize = 0;
    proof {
        assert(considered@ =~= cta_considered_s(tv.subrange(0, 0), kind, ce));
    }
    while i2 < trades.len()
        invariant
            i2 <= tv.len(),
            tv == trades@,
            kind == app_config.kind,
            ce == current_entry@,
            considered@ == cta_considered_s(tv.subrange(0, i2 as int), kind, ce),
        decreases tv.len() - i2,
    {
        proof {
            assert(tv.subrange(0, i2 + 1).drop_last() =~= tv.subrange(0, i2 as int));
            assert(tv.subrange(0, i2 + 1).last() == tv[i2 as int]);
        }
        let ghost pre = considered@;
        let keep = match kind {
            Direction::Long => trades[i2].entry.gt(current_entry),
            Direction::Short => trades[i2].entry.lt(current_entry),
        };
        if keep {
            considered.push(trades[i2]);
            proof {
                assert(considered@ =~= pre.push(tv[i2 as int]));
            }
        }
        i2 = i2 + 1;
    }
    proof {
        assert(tv.subrange(0, tv.len() as int) =~= tv);
    }
    let mut out: Vec<TradeInstanceType> = Vec::new();
    let mut xi: usize = 0;
    while xi < trades.len()
        invariant
            xi <= tv.len(),
            tv == trades@,
            less@ == cta_less_s(tv, kind, ce),
            considered@ == cta_considered_s(tv, kind, ce),
            kind == app_config.kind,
            ce == current_entry@,
            take_profit@ == cta_take_profit_s(app_config@),
            pp@ == cfg_pp(app_config@),
            dp@ == cfg_dp(app_config@),
            out@.len() == xi,
            forall|j: int| 0 <= j < xi ==> out@[j] == cta_one_s(app_config@, tv, ce, tv[j]),
        decreases tv.len() - xi,
    {
        let x = trades[xi];
        let mut remaining: Vec<TradeInstanceType> = Vec::new();
        let mut ri: usize = 0;
        let ghost lv = less@;
        proof {
            assert(remaining@ =~= cta_remaining_s(lv.subrange(0, 0), kind, x.entry@));
        }
        while ri < less.len()
            invariant
                ri <= lv.len(),
                lv == less@,
                kind == app_config.kind,
                remaining@ == cta_remaining_s(lv.subrange(0, ri as int), kind, x.entry@),
            decreases lv.len() - ri,
        {
            proof {
                assert(lv.subrange(0, ri + 1).drop_last() =~= lv.subrange(0, ri as int));
                assert(lv.subrange(0, ri + 1).last() == lv[ri as int]);
            }
            let ghost pre = remaining@;
            let keep = match kind {
                Direction::Long => less[ri].entry.ge(x.entry),
                Direction::Short => less[ri].entry.le(x.entry),
            };
            if keep {
                remaining.push(less[ri]);
                proof {
                    assert(remaining@ =~= pre.push(lv[ri as int]));
                }
            }
            ri = ri + 1;
        }
        proof {
            assert(lv.subrange(0, lv.len() as int) =~= lv);
        }
        if remaining.len() == 0 {
            let y = TradeInstanceType { pnl: Fp::zero(), ..x };
            proof {
                crate::fixed::lemma_fp_v_eq(y.pnl, 0);
            }
            out.push(y);
        } else {
            let mut start = remaining[0].entry;
            let mut bi: usize = 1;
            let ghost rv = remaining@;
            proof {
                assert(rv.subrange(0, 1).len() == 1);
                assert(rv.subrange(0, 1)[0] == rv[0]);
            }
            while bi < remaining.len()
                invariant
                    1 <= bi <= rv.len(),
                    rv == remaining@,
                    kind == app_config.kind,
                    start@ == cta_boundary_s(rv.subrange(0, bi as int), kind),
                decreases rv.len() - bi,
            {
                proof {
                    assert(rv.subrange(0, bi + 1).drop_last() =~= rv.subrange(0, bi as int));
                    assert(rv.subrange(0, bi + 1).last() == rv[bi as int]);
                }
                let better = match kind {
                    Direction::Long => remaining[bi].entry.gt(start),
                    Direction::Short => remaining[bi].entry.lt(start),
                };
                if better {
                    start = remaining[bi].entry;
                }
                bi = bi + 1;
            }
            proof {
                assert(rv.subrange(0, rv.len() as int) =~= rv);
            }
            let mut entries: Vec<AvgEntry> = Vec::new();
            let mut ci: usize = 0;
            while ci < considered.len()
                invariant
                    ci <= considered@.len(),
                    entries@.len() == ci,
                    forall|j: int|
                        0 <= j < ci ==> entries@[j] == (AvgEntry {
                            price: start,
                            quantity: considered@[j].quantity,
                        }),
                decreases considered@.len() - ci,
            {
                entries.push(AvgEntry { price: start, quantity: considered[ci].quantity });
                ci = ci + 1;
            }
            let mut ci2: usize = 0;
            let ghost base = entries@;
            while ci2 < remaining.len()
                invariant
                    ci2 <= rv.len(),
                    rv == remaining@,
                    entries@.len() == base.len() + ci2,
                    entries@.subrange(0, base.len() as int) == base,
                    forall|j: int|
                        0 <= j < ci2 ==> entries@[base.len() + j] == (AvgEntry {
                            price: rv[j].entry,
                            quantity: rv[j].quantity,
                        }),
                decreases rv.len() - ci2,
            {
                proof {
                    assert(entries@.push(
                        AvgEntry { price: rv[ci2 as int].entry, quantity: rv[ci2 as int].quantity },
                    ).subrange(0, base.len() as int) =~= entries@.subrange(0, base.len() as int));
                }
                entries.push(
                    AvgEntry { price: remaining[ci2].entry, quantity: remaining[ci2].quantity },
                );
                ci2 = ci2 + 1;
            }
            proof {
                use_type_invariant(start);
                crate::fixed::lemma_fp_v_eq(start, start@);
                let m1 = considered@.map_values(
                    |t: TradeInstanceType| AvgEntry {
                        price: crate::fixed::fp_v(start@),
                        quantity: t.quantity,
                    },
                );
                let m2 = remaining@.map_values(
                    |t: TradeInstanceType| AvgEntry { price: t.entry, quantity: t.quantity },
                );
                assert(base.len() == considered@.len());
                assert forall|j: int| 0 <= j < entries@.len() implies entries@[j] == (m1 + m2)[j] by {
                    if j < base.len() {
                        assert(entries@.subrange(0, base.len() as int)[j] == entries@[j]);
                        assert(entries@[j] == base[j]);
                    }
                }
                assert(entries@ =~= m1 + m2);
            }
            let avg = build_avg(&entries, kind, dp, pp);
            let tp_set = !take_profit.eq_v(Fp::zero());
            let pnl2 = if tp_set {
                determine_pnl(avg.price, take_profit, avg.quantity, kind)
            } else {
                x.pnl
            };
            let sell2 = if tp_set {
                take_profit
            } else {
                x.sell_price
            };
            let loss = if tp_set {
                determine_pnl(avg.price, x.stop, avg.quantity, kind)
            } else {
                Fp::zero()
            };
            let negp = to_f(loss, dp);
            let y = TradeInstanceType {
                avg_entry: Some(avg.price),
                avg_size: Some(avg.quantity),
                pnl: to_f(pnl2, dp),
                neg_pnl: Some(negp),
                sell_price: sell2,
                start_entry: Some(current_entry),
                ..x
            };
            proof {
                use_type_invariant(y.pnl);
                use_type_invariant(y.sell_price);
                use_type_invariant(avg.price);
                use_type_invariant(avg.quantity);
                use_type_invariant(current_entry);
                use_type_invariant(negp);
                crate::fixed::lemma_fp_v_eq(y.pnl, y.pnl@);
                crate::fixed::lemma_fp_v_eq(y.sell_price, y.sell_price@);
                crate::fixed::lemma_fp_v_eq(avg.price, avg.price@);
                crate::fixed::lemma_fp_v_eq(avg.quantity, avg.quantity@);
                crate::fixed::lemma_fp_v_eq(current_entry, current_entry@);
                crate::fixed::lemma_fp_v_eq(negp, negp@);
                assert(y == cta_one_s(app_config@, tv, ce, x));
            }
            out.push(y);
        }
        xi = xi + 1;
    }
    proof {
        assert(out@ =~= cta_all_s(app_config@, trades@, _current_entry@));
    }
    out
}

/// Per-call overrides over the configured defaults, applied by
/// [`build_config`]; an unset field falls back to the bundle's value or
/// to the engine default.
pub struct ParamType {
    /// Take-profit override.
    pub take_profit: Option<Fp>,
    /// Entry price.
    pub entry: Option<Fp>,
    /// Risk override.
    pub risk: Option<Fp>,
    /// Stop price; without one no orders are built.
    pub stop: Option<Fp>,
    /// Risk/reward override.
    pub risk_reward: Option<i32>,
    /// Ask for the merged engine bundle instead of orders.
    pub raw_instance: Option<bool>,
    /// Trade-count override.
    pub no_of_trades: Option<i32>,
    /// Increase-on-support override.
    pub increase: Option<bool>,
    /// Price display-format override.
    pub price_places: Option<String>,
    /// Amount display-format override.
    pub decimal_places: Option<String>,
    /// Direction override.
    pub kind: Option<Direction>,
    /// Support override.
    pub support: Option<Fp>,
    /// Resistance override.
    pub resistance: Option<Fp>,
}

impl Default for ParamType {
    /// No overrides.
    fn default() -> (r: Self)
        ensures
            r.take_profit is None && r.entry is None && r.risk is None && r.stop is None,
            r.risk_reward is None && r.raw_instance is None && r.no_of_trades is None,
            r.increase is None && r.price_places is None && r.decimal_places is None,
            r.kind is None && r.support is None && r.resistance is None,
    {
        ParamType {
            take_profit: None,
            entry: None,
            risk: None,
            stop: None,
            risk_reward: None,
            raw_instance: None,
            no_of_trades: None,
            increase: None,
            price_places: None,
            decimal_places: None,
            kind: None,
            support: None,
            resistance: None,
        }
    }
}

/// The mathematical content of a set of per-call overrides.
pub struct ParamTypeV {
    /// Take-profit override, in raw units.
    pub take_profit: Option<int>,
    /// Entry price, in raw units.
    pub entry: Option<int>,
    /// Risk override, in raw units.
    pub risk: Option<int>,
    /// Stop price, in raw units.
    pub stop: Option<int>,
    /// Risk/reward override.
    pub risk_reward: Option<int>,
    /// Whether the merged bundle itself is asked for.
    pub raw_instance: Option<bool>,
    /// Trade-count override.
    pub no_of_trades: Option<int>,
    /// Increase-on-support override.
    pub increase: Option<bool>,
    /// Price display-format override.
    pub price_places: Option<Seq<char>>,
    /// Amount display-format override.
    pub decimal_places: Option<Seq<char>>,
    /// Direction override.
    pub kind: Option<Direction>,
    /// Support override, in raw units.
    pub support: Option<int>,
    /// Resistance override, in raw units.
    pub resistance: Option<int>,
}

impl View for ParamType {
    type V = ParamTypeV;

    open spec fn view(&self) -> ParamTypeV {
        ParamTypeV {
            take_profit: match self.take_profit {
                Some(v) => Some(v@),
                None => None,
            },
            entry: match self.entry {
                Some(v) => Some(v@),
                None => None,
            },
            risk: match self.risk {
                Some(v) => Some(v@),
                None => None,
            },
            stop: match self.stop {
                Some(v) => Some(v@),
                None => None,
            },
            risk_reward: match self.risk_reward {
                Some(v) => Some(v as int),
                None => None,
            },
            raw_instance: self.raw_instance,
            no_of_trades: match self.no_of_trades {
                Some(v) => Some(v as int),
                None => None,
            },
            increase: self.increase,
            price_places: match self.price_places {
                Some(ref s) => Some(s@),
                None => None,
            },
            decimal_places: match self.decimal_places {
                Some(ref s) => Some(s@),
                None => None,
            },
            kind: self.kind,
            support: match self.support {
                Some(v) => Some(v@),
                None => None,
            },
            resistance: match self.resistance {
                Some(v) => Some(v@),
                None => None,
            },
        }
    }
}

/// What a configuration merge yields: a ladder of orders, or the merged
/// engine bundle itself when that was asked for.
pub enum BuildConfigType {
    /// The built and aggregated order records.
    VecHashMap(Vec<TradeInstanceType>),
    /// The merged engine parameter bundle.
    VecSignal(Vec<Signal>),
}

/// The engine bundle a settings bundle and a set of overrides merge
/// into: fee read as a percentage, the step split `trade_split` ways (0
/// on a zero split), the risk/reward clamped to the machine range, and
/// the larger of the two minimum sizes.
pub open spec fn config_signal_v(a: AppConfigV, p: ParamTypeV) -> SignalV {
    let trade_no = match p.no_of_trades {
        Some(n) => n,
        None => a.risk_reward,
    };
    let resolved = match p.risk_reward {
        Some(r) => r,
        None => trade_no,
    };
    let rr = if resolved < 0 {
        0
    } else if resolved > 4_000_000 {
        4_000_000
    } else {
        resolved
    };
    let min_b = match a.minimum_size {
        Some(m) => m,
        None => 0,
    };
    SignalV {
        focus: a.focus,
        budget: a.budget,
        percent_change: if a.trade_split == 0 {
            0
        } else {
            div_v(a.percent_change, a.trade_split)
        },
        price_places: match a.price_places {
            Some(s) => s,
            None => match p.price_places {
                Some(s) => s,
                None => Seq::empty(),
            },
        },
        decimal_places: match p.decimal_places {
            Some(s) => s,
            None => Seq::empty(),
        },
        zone_risk: 1,
        fee: div_v(a.fee, clip_i(100 * SCALE)),
        support: match p.support {
            Some(v) => v,
            None => a.support,
        },
        risk_reward: rr,
        resistance: match p.resistance {
            Some(v) => v,
            None => a.resistance,
        },
        take_profit: None,
        risk_per_trade: match p.risk {
            Some(r) => r,
            None => a.risk_per_trade,
        },
        increase_size: false,
        minimum_pnl: 0,
        increase_position: match p.increase {
            Some(b) => b,
            None => false,
        },
        minimum_size: if a.min_size >= min_b {
            a.min_size
        } else {
            min_b
        },
    }
}

/// The merge's validity check, with the grouping written out: a long
/// call needs the entry strictly over the support; a short call needs
/// the entry at or over the support and a stop of at least 0.999.
pub open spec fn build_config_valid(a: AppConfigV, p: ParamTypeV) -> bool {
    let e = match p.entry {
        Some(v) => v,
        None => 0,
    };
    let st = match p.stop {
        Some(v) => v,
        None => 0,
    };
    (e > a.support && p.kind == Some(Direction::Long)) || ((e >= a.support && p.kind == Some(
        Direction::Short,
    )) && st >= 999_000_000_000)
}

/// The orders a merge yields: nothing without a stop, on a failed
/// validity check, on an entry equal to the stop, or on a degenerate
/// merged bundle; otherwise the future-zone ladder at the entry is
/// built into orders and aggregated.
pub open spec fn build_config_orders_s(a: AppConfigV, p: ParamTypeV) -> Seq<TradeInstanceType> {
    if p.stop is None {
        Seq::empty()
    } else if p.entry == p.stop || !build_config_valid(a, p) {
        Seq::empty()
    } else {
        let sv = config_signal_v(a, p);
        if sv.percent_change <= 0 || sv.risk_reward < 1 {
            Seq::empty()
        } else {
            let kindd = match p.kind {
                Some(k) => k,
                None => a.kind,
            };
            let e = match p.entry {
                Some(v) => v,
                None => 0,
            };
            let st = match p.stop {
                Some(v) => v,
                None => 0,
            };
            let ladder = future_zones_s(sv, e, kindd);
            let orders = process_orders_s(sv, e, st, ladder, kindd);
            cta_all_s(a, orders, 0)
        }
    }
}

/// Merge a settings bundle with per-call overrides and build the order
/// ladder, or hand back the merged engine bundle when asked.
pub fn build_config(app_config: &AppConfig, params: ParamType) -> (r: BuildConfigType)
    ensures
        match r {
            BuildConfigType::VecSignal(v) => params.raw_instance == Some(true) && v@.len() == 1
                && v@[0]@ == config_signal_v(app_config@, params@),
            BuildConfigType::VecHashMap(orders) => params.raw_instance != Some(true) && orders@
                == build_config_orders_s(app_config@, params@),
        },
{
    let fee = app_config.fee.div(Fp::from_int(100));
    let working_risk = match params.risk {
        Some(r) => r,
        None => app_config.risk_per_trade,
    };
    let trade_no: i64 = match params.no_of_trades {
        Some(n) => n as i64,
        None => app_config.risk_reward as i64,
    };
    let resolved: i64 = match params.risk_reward {
        Some(r) => r as i64,
        None => trade_no,
    };
    let rr: u32 = if resolved < 0 {
        0
    } else if resolved > 4_000_000 {
        4_000_000
    } else {
        resolved as u32
    };
    let minimum_size = app_config.min_size.max(
        match app_config.minimum_size {
            Some(m) => m,
            None => Fp::zero(),
        },
    );
    let percent_change = if app_config.trade_split.eq_v(Fp::zero()) {
        Fp::zero()
    } else {
        app_config.percent_change.div(app_config.trade_split)
    };
    let price_places: String = match &app_config.price_places {
        Some(s) => s.clone(),
        None => match &params.price_places {
            Some(s) => s.clone(),
            None => String::new(),
        },
    };
    let decimal_places: String = match &params.decimal_places {
        Some(s) => s.clone(),
        None => String::new(),
    };
    let instance = Signal {
        focus: app_config.focus,
        budget: app_config.budget,
        percent_change,
        price_places,
        decimal_places,
        zone_risk: 1,
        fee,
        support: match params.support {
            Some(v) => v,
            None => app_config.support,
        },
        risk_reward: rr,
        resistance: match params.resistance {
            Some(v) => v,
            None => app_config.resistance,
        },
        take_profit: None,
        risk_per_trade: working_risk,
        increase_size: false,
        additional_increase: Fp::zero(),
        minimum_pnl: Fp::zero(),
        split: None,
        max_size: None,
        trade_size: None,
        increase_position: match params.increase {
            Some(b) => b,
            None => false,
        },
        default: false,
        minimum_size,
    };
    proof {
        assert(instance@ == config_signal_v(app_config@, params@));
    }
    let raw_inst = match params.raw_instance {
        Some(b) => b,
        None => false,
    };
    if raw_inst {
        let mut v: Vec<Signal> = Vec::new();
        v.push(instance);
        return BuildConfigType::VecSignal(v);
    }
    let empty: Vec<TradeInstanceType> = Vec::new();
    proof {
        assert(empty@ =~= Seq::<TradeInstanceType>::empty());
    }
    let stop_v = match params.stop {
        Some(v) => v,
        None => {
            return BuildConfigType::VecHashMap(empty);
        },
    };
    let entry_v = match params.entry {
        Some(v) => v,
        None => Fp::zero(),
    };
    let kind_long = matches!(params.kind, Some(Direction::Long));
    let kind_short = matches!(params.kind, Some(Direction::Short));
    let condition = (entry_v.gt(app_config.support) && kind_long) || ((entry_v.ge(
        app_config.support,
    ) && kind_short) && stop_v.ge(Fp::from_raw(999_000_000_000)));
    let entries_equal = match params.entry {
        Some(e) => e.eq_v(stop_v),
        None => false,
    };
    if entries_equal || !condition {
        return BuildConfigType::VecHashMap(empty);
    }
    if !instance.percent_change.gt(Fp::zero()) || instance.risk_reward < 1 {
        return BuildConfigType::VecHashMap(empty);
    }
    let kindd = match params.kind {
        Some(k) => k,
        None => app_config.kind,
    };
    let ladder = instance.get_future_zones(entry_v, kindd);
    let orders = instance.process_orders(entry_v, stop_v, &ladder, kindd);
    let result = compute_total_average_for_each_trade(app_config, orders, Fp::zero(), Fp::zero());
    BuildConfigType::VecHashMap(result)
}

/// The entry/stop pairs read off the Fibonacci ladder: each level is a
/// stop under the next level's entry. The pairing is the same for both
/// directions; the levels themselves reverse.
pub open spec fn fib_zone_dicts_s(a: AppConfigV, kind: Direction) -> Seq<TradingZoneDict> {
    Seq::new(
        9nat,
        |i: int|
            TradingZoneDict {
                stop: fp_v(
                    fib_level_v(a.support, a.resistance, kind, Direction::Long, cfg_pp(a), i),
                ),
                entry: fp_v(
                    fib_level_v(a.support, a.resistance, kind, Direction::Long, cfg_pp(a), i + 1),
                ),
                size: fp_v(0),
            },
    )
}

/// The zones a request merges to: Fibonacci pairs when asked, else the
/// built order ladder read as entry/stop/size triples, sided by the
/// direction.
pub open spec fn trading_zones_s(
    a: AppConfigV,
    kind_o: Option<Direction>,
    trend_o: Option<Direction>,
    entry: int,
    stop: int,
    no_of_trades: int,
    use_fib_o: Option<bool>,
) -> Seq<TradingZoneDict> {
    let kind = match kind_o {
        Some(k) => k,
        None => a.kind,
    };
    let use_fib = match use_fib_o {
        Some(b) => b,
        None => match a.use_fibonacci {
            Some(b) => b,
            None => false,
        },
    };
    if use_fib {
        fib_zone_dicts_s(a, kind)
    } else {
        let p = ParamTypeV {
            take_profit: None,
            entry: Some(entry),
            risk: None,
            stop: Some(stop),
            risk_reward: None,
            raw_instance: None,
            no_of_trades: Some(no_of_trades),
            increase: None,
            price_places: None,
            decimal_places: None,
            kind: Some(
                match trend_o {
                    Some(t) => t,
                    None => a.kind,
                },
            ),
            support: None,
            resistance: None,
        };
        let orders = build_config_orders_s(a, p);
        Seq::new(
            orders.len(),
            |i: int|
                TradingZoneDict {
                    entry: if kind.is_long() {
                        orders[i].entry
                    } else {
                        orders[i].stop
                    },
                    stop: if kind.is_long() {
                        orders[i].stop
                    } else {
                        orders[i].entry
                    },
                    size: orders[i].quantity,
                },
        )
    }
}

impl AppConfig {
    /// The trading zones for a request: Fibonacci pairs when asked,
    /// else the order ladder the merged configuration builds.
    pub fn get_trading_zones(&self, params: TradingZoneType) -> (r: Vec<TradingZoneDict>)
        ensures
            r@ == trading_zones_s(
                self@,
                params.kind,
                params.trend,
                params.entry@,
                params.stop@,
                params.no_of_trades as int,
                params.use_fibonacci,
            ),
    {
        let kind = match params.kind {
            Some(k) => k,
            None => self.kind,
        };
        let use_fibonacci = match params.use_fibonacci {
            Some(b) => b,
            None => match self.use_fibonacci {
                Some(b) => b,
                None => false,
            },
        };
        if use_fibonacci {
            let pp: &str = match &self.price_places {
                Some(s) => s.as_str(),
                None => "",
            };
            proof {
                assert(""@ =~= Seq::<char>::empty()) by {
                    reveal_strlit("");
                }
            }
            let levels = fibonacci_analysis(
                self.support,
                self.resistance,
                kind,
                Direction::Long,
                pp,
            );
            let mut result: Vec<TradingZoneDict> = Vec::new();
            let mut i: usize = 0;
            while i < levels.len() - 1
                invariant
                    levels@.len() == 10,
                    i <= 9,
                    result@.len() == i,
                    pp@ == cfg_pp(self@),
                    forall|j: int|
                        0 <= j < 10 ==> levels@[j]@ == fib_level_v(
                            self@.support,
                            self@.resistance,
                            kind,
                            Direction::Long,
                            cfg_pp(self@),
                            j,
                        ),
                    forall|j: int| 0 <= j < i ==> result@[j] == fib_zone_dicts_s(self@, kind)[j],
                decreases 9 - i,
            {
                let d = TradingZoneDict {
                    stop: levels[i],
                    entry: levels[i + 1],
                    size: Fp::zero(),
                };
                proof {
                    use_type_invariant(d.stop);
                    use_type_invariant(d.entry);
                    crate::fixed::lemma_fp_v_eq(d.stop, d.stop@);
                    crate::fixed::lemma_fp_v_eq(d.entry, d.entry@);
                    crate::fixed::lemma_fp_v_eq(d.size, 0);
                }
                result.push(d);
                i = i + 1;
            }
            proof {
                assert(result@ =~= fib_zone_dicts_s(self@, kind));
            }
            return result;
        }
        let merged = ParamType {
            take_profit: None,
            entry: Some(params.entry),
            risk: None,
            stop: Some(params.stop),
            risk_reward: None,
            raw_instance: None,
            no_of_trades: Some(params.no_of_trades),
            increase: None,
            price_places: None,
            decimal_places: None,
            kind: Some(
                match params.trend {
                    Some(t) => t,
                    None => self.kind,
                },
            ),
            support: None,
            resistance: None,
        };
        let built = build_config(self, merged);
        match built {
            BuildConfigType::VecHashMap(orders) => {
                let mut result: Vec<TradingZoneDict> = Vec::new();
                let mut i: usize = 0;
                while i < orders.len()
                    invariant
                        i <= orders@.len(),
                        result@.len() == i,
                        forall|j: int|
                            0 <= j < i ==> result@[j] == (TradingZoneDict {
                                entry: if kind.is_long() {
                                    orders@[j].entry
                                } else {
                                    orders@[j].stop
                                },
                                stop: if kind.is_long() {
                                    orders@[j].stop
                                } else {
                                    orders@[j].entry
                                },
                                size: orders@[j].quantity,
                            }),
                    decreases orders@.len() - i,
                {
                    let d = match kind {
                        Direction::Long => TradingZoneDict {
                            entry: orders[i].entry,
                            stop: orders[i].stop,
                            size: orders[i].quantity,
                        },
                        Direction::Short => TradingZoneDict {
                            entry: orders[i].stop,
                            stop: orders[i].entry,
                            size: orders[i].quantity,
                        },
                    };
                    result.push(d);
                    i = i + 1;
                }
                proof {
                    assert(result@ =~= trading_zones_s(
                        self@,
                        params.kind,
                        params.trend,
                        params.entry@,
                        params.stop@,
                        params.no_of_trades as int,
                        params.use_fibonacci,
                    ));
                }
                result
            },
            BuildConfigType::VecSignal(_) => {
                // unreachable: the merge was not asked for a raw bundle
                let result: Vec<TradingZoneDict> = Vec::new();
                result
            },
        }
    }
}

/// The fixed list of settings-bundle field names.
pub open spec fn field_names_s() -> Seq<Seq<char>> {
    seq![
        "fee"@,
        "risk_per_trade"@,
        "risk_reward"@,
        "focus"@,
        "budget"@,
        "support"@,
        "resistance"@,
        "percent_change"@,
        "trade_split"@,
        "take_profit"@,
        "kind"@,
        "entry"@,
        "stop"@,
        "min_size"@,
        "minimum_size"@,
        "price_places"@,
        "decimal_places"@,
        "strategy"@,
        "as_array"@,
        "raw"@,
    ]
}

/// Whether a name occurs in an exclusion list.
pub open spec fn name_excluded(ex: Seq<Seq<char>>, n: Seq<char>) -> bool {
    exists|i: int| 0 <= i < ex.len() && ex[i] == n
}

/// The names not excluded, in order.
pub open spec fn filter_names(names: Seq<Seq<char>>, ex: Seq<Seq<char>>) -> Seq<Seq<char>>
    decreases names.len(),
{
    if names.len() == 0 {
        Seq::empty()
    } else if !name_excluded(ex, names.last()) {
        filter_names(names.drop_last(), ex).push(names.last())
    } else {
        filter_names(names.drop_last(), ex)
    }
}

impl AppConfig {
    /// The settings-bundle field names, minus the excluded ones.
    pub fn get_all_fields(&self, exclude: Vec<&str>) -> (r: Vec<String>)
        ensures
            r@.map_values(|s: String| s@) == filter_names(
                field_names_s(),
                exclude@.map_values(|s: &str| s@),
            ),
    {
        let fields: Vec<&str> = vec![
            "fee",
            "risk_per_trade",
            "risk_reward",
            "focus",
            "budget",
            "support",
            "resistance",
            "percent_change",
            "trade_split",
            "take_profit",
            "kind",
            "entry",
            "stop",
            "min_size",
            "minimum_size",
            "price_places",
            "decimal_places",
            "strategy",
            "as_array",
            "raw",
        ];
        let ghost exv = exclude@.map_values(|s: &str| s@);
        proof {
            assert(fields@.map_values(|s: &str| s@) =~= field_names_s());
        }
        let mut out: Vec<String> = Vec::new();
        let mut i: usize = 0;
        proof {
            assert(out@.map_values(|s: String| s@) =~= filter_names(
                field_names_s().subrange(0, 0),
                exv,
            ));
        }
        while i < fields.len()
            invariant
                i <= fields@.len(),
                fields@.map_values(|s: &str| s@) == field_names_s(),
                exv == exclude@.map_values(|s: &str| s@),
                out@.map_values(|s: String| s@) == filter_names(
                    field_names_s().subrange(0, i as int),
                    exv,
                ),
            decreases fields@.len() - i,
        {
            proof {
                assert(field_names_s().subrange(0, i + 1).drop_last() =~= field_names_s()
                    .subrange(0, i as int));
                assert(field_names_s().subrange(0, i + 1).last() == fields@[i as int]@);
            }
            let mut found = false;
            let mut k: usize = 0;
            while k < exclude.len()
                invariant
                    k <= exclude@.len(),
                    exv == exclude@.map_values(|s: &str| s@),
                    i < fields@.len(),
                    found == exists|j: int| 0 <= j < k && exv[j] == fields@[i as int]@,
                decreases exclude@.len() - k,
            {
                if str_eq(exclude[k], fields[i]) {
                    proof {
                        assert(exv[k as int] == fields@[i as int]@);
                    }
                    found = true;
                } else {
                    proof {
                        assert(exv[k as int] != fields@[i as int]@);
                    }
                }
                k = k + 1;
            }
            let ghost pre = out@.map_values(|s: String| s@);
            if !found {
                out.push(fields[i].to_owned());
                proof {
                    assert(out@.map_values(|s: String| s@) =~= pre.push(fields@[i as int]@));
                }
            }
            i = i + 1;
        }
        proof {
            assert(field_names_s().subrange(0, field_names_s().len() as int) =~= field_names_s());
        }
        out
    }
}

} // verus!
