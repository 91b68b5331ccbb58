//! Leaf utilities: display-precision parsing and rounding, trade
//! direction, the profit-and-loss and position-sizing formulas, weighted
//! averages, and Fibonacci retracement analysis.

use crate::fixed::{
    abs_i, add_v, clip_i, div_v, mul_v, round_div, round_div_pos, round_places_v, sub_v, Fp, SCALE,
};
use vstd::prelude::*;

verus! {

/// Which way a trade profits: long rises, short falls.
///
/// The engine treats direction as a closed enumeration; any free-form
/// input that is not exactly one of the two tags is an input-validation
/// failure, never silently mapped to a branch.
#[derive(Clone, Copy, Debug, PartialEq, Eq, Structural)]
pub enum Direction {
    Long,
    Short,
}

impl Direction {
    /// True of the long direction.
    pub open spec fn is_long(self) -> bool {
        self == Direction::Long
    }

    /// The opposite direction.
    pub fn flip(self) -> (r: Direction)
        ensures
            r.is_long() == !self.is_long(),
    {
        match self {
            Direction::Long => Direction::Short,
            Direction::Short => Direction::Long,
        }
    }
}

/// The character sequence "long".
pub open spec fn long_chars() -> Seq<char> {
    seq!['l', 'o', 'n', 'g']
}

/// The character sequence "short".
pub open spec fn short_chars() -> Seq<char> {
    seq!['s', 'h', 'o', 'r', 't']
}

/// Read a direction tag; anything but the two exact tags is rejected.
pub fn parse_direction(s: &str) -> (r: Option<Direction>)
    ensures
        r == Some(Direction::Long) <==> s@ == long_chars(),
        r == Some(Direction::Short) <==> s@ == short_chars(),
        r is None <==> s@ != long_chars() && s@ != short_chars(),
{
    let n = s.unicode_len();
    if n == 4 {
        if s.get_char(0) == 'l' && s.get_char(1) == 'o' && s.get_char(2) == 'n' && s.get_char(3)
            == 'g' {
            proof {
                assert(s@ =~= long_chars());
                assert(s@ != short_chars());
            }
            Some(Direction::Long)
        } else {
            proof {
                assert(s@ != long_chars());
                assert(s@ != short_chars());
            }
            None
        }
    } else if n == 5 {
        if s.get_char(0) == 's' && s.get_char(1) == 'h' && s.get_char(2) == 'o' && s.get_char(3)
            == 'r' && s.get_char(4) == 't' {
            proof {
                assert(s@ =~= short_chars());
            }
            Some(Direction::Short)
        } else {
            proof {
                assert(s@ != long_chars());
                assert(s@ != short_chars());
            }
            None
        }
    } else {
        None
    }
}

/// Whether a character is a decimal digit.
pub open spec fn is_digit_c(c: char) -> bool {
    48 <= c as int <= 57
}

/// The numeric value of a digit character.
pub open spec fn digit_val(c: char) -> int {
    c as int - 48
}

/// The digit characters of a display-format spec: what stands between
/// the leading `%.` and an optional final `f`.
pub open spec fn places_digits(s: Seq<char>) -> Seq<char> {
    if s.len() >= 3 && s[s.len() - 1] == 'f' {
        s.subrange(2, s.len() - 1)
    } else {
        s.subrange(2, s.len() as int)
    }
}

/// Whether a character sequence is a well-formed display-format spec:
/// `%.` followed by one or two digits, with an optional final `f`.
pub open spec fn places_chars_wf(s: Seq<char>) -> bool {
    &&& s.len() >= 3
    &&& s[0] == '%'
    &&& s[1] == '.'
    &&& 1 <= places_digits(s).len() <= 2
    &&& forall|i: int| 0 <= i < places_digits(s).len() ==> is_digit_c(#[trigger] places_digits(s)[i])
}

/// The digit count a well-formed display-format spec encodes.
pub open spec fn places_value(s: Seq<char>) -> int {
    let d = places_digits(s);
    if d.len() == 1 {
        digit_val(d[0])
    } else {
        10 * digit_val(d[0]) + digit_val(d[1])
    }
}

/// The fractional-digit count encoded by a display-format spec, or
/// nothing where the spec is malformed.
pub open spec fn parse_places_s(s: Seq<char>) -> Option<int> {
    if places_chars_wf(s) {
        Some(places_value(s))
    } else {
        None
    }
}

/// Read the fractional-digit count out of a display-format spec such as
/// `%.2f`. A malformed spec yields nothing; callers degrade gracefully.
pub fn parse_places(s: &str) -> (r: Option<u32>)
    ensures
        match r {
            Some(p) => parse_places_s(s@) == Some(p as int) && p <= 99,
            None => parse_places_s(s@) is None,
        },
{
    let n = s.unicode_len();
    if n < 3 {
        return None;
    }
    if !(s.get_char(0) == '%' && s.get_char(1) == '.') {
        return None;
    }
    let dend: usize = if s.get_char(n - 1) == 'f' {
        n - 1
    } else {
        n
    };
    if dend < 3 || dend > 4 {
        return None;
    }
    let c2 = s.get_char(2);
    let u2 = c2 as u32;
    if !(48 <= u2 && u2 <= 57) {
        return None;
    }
    if dend == 3 {
        proof {
            assert(places_digits(s@) =~= seq![s@[2]]);
        }
        Some(u2 - 48)
    } else {
        let c3 = s.get_char(3);
        let u3 = c3 as u32;
        if !(48 <= u3 && u3 <= 57) {
            return None;
        }
        proof {
            assert(places_digits(s@) =~= seq![s@[2], s@[3]]);
        }
        Some(10 * (u2 - 48) + (u3 - 48))
    }
}

/// Whether two strings hold the same characters.
pub fn str_eq(a: &str, b: &str) -> (r: bool)
    ensures
        r == (a@ == b@),
{
    let n = a.unicode_len();
    if n != b.unicode_len() {
        return false;
    }
    let mut i: usize = 0;
    while i < n
        invariant
            i <= n,
            n == a@.len() == b@.len(),
            forall|j: int| 0 <= j < i ==> a@[j] == b@[j],
        decreases n - i,
    {
        if a.get_char(i) != b.get_char(i) {
            return false;
        }
        i = i + 1;
    }
    proof {
        assert(a@ =~= b@);
    }
    true
}

/// A value rounded as a display-format spec directs; a malformed spec
/// leaves the value unchanged.
pub open spec fn to_f_v(v: int, s: Seq<char>) -> int {
    match parse_places_s(s) {
        Some(p) => round_places_v(v, p),
        None => v,
    }
}

/// Round a value to the precision a display-format spec names; fall back
/// to the unrounded value when the spec cannot be read.
pub fn to_f(value: Fp, places: &str) -> (r: Fp)
    ensures
        r@ == to_f_v(value@, places@),
{
    match parse_places(places) {
        Some(p) => value.round(p),
        None => value,
    }
}

/// Relies on chrono's `Local::now().timestamp()`: the number of
/// non-leap seconds since the Unix epoch, rendered as decimal text.
/// Nothing more can be promised of a clock reading.
#[verifier::external_body]
pub fn get_current_time() -> (r: String)
    ensures
        r@.len() >= 1,
{
    let now: chrono::DateTime<chrono::offset::Local> = chrono::offset::Local::now();
    now.timestamp().to_string()
}

/// The profit or loss of a position of size `qty` opened at `entry` and
/// closed at `close`: the favourable price difference times the size.
pub open spec fn pnl_v(entry: int, close: int, qty: int, kind: Direction) -> int {
    mul_v(
        if kind.is_long() {
            sub_v(close, entry)
        } else {
            sub_v(entry, close)
        },
        qty,
    )
}

/// Profit and loss of a closed position.
pub fn determine_pnl(entry: Fp, close_price: Fp, quantity: Fp, kind: Direction) -> (r: Fp)
    ensures
        r@ == pnl_v(entry@, close_price@, quantity@, kind),
{
    let difference = match kind {
        Direction::Long => close_price.sub(entry),
        Direction::Short => entry.sub(close_price),
    };
    difference.mul(quantity)
}

/// Saturation commutes with negation.
proof fn lemma_clip_neg(x: int)
    ensures
        clip_i(-x) == -clip_i(x),
{
}

/// Rounded division commutes with negating the dividend.
proof fn lemma_round_div_neg(n: int, d: int)
    requires
        0 < d,
    ensures
        round_div(-n, d) == -round_div(n, d),
{
    if n == 0 {
        vstd::arithmetic::div_mod::lemma_div_of0(d);
        vstd::arithmetic::div_mod::lemma_small_mod(0nat, d as nat);
    }
}

/// The product with a value and with its negation differ only in sign.
proof fn lemma_mul_v_neg(a: int, b: int)
    ensures
        mul_v(-a, b) == -mul_v(a, b),
{
    assert((-a) * b == -(a * b)) by (nonlinear_arith);
    lemma_round_div_neg(a * b, SCALE as int);
    lemma_clip_neg(round_div(a * b, SCALE as int));
}

/// Profit and loss is antisymmetric in the trade direction: for every
/// entry, close and quantity, the long-direction figure is the exact
/// negation of the short-direction figure.
pub proof fn lemma_pnl_antisymmetric(entry: int, close: int, qty: int)
    ensures
        pnl_v(entry, close, qty, Direction::Long) == -pnl_v(entry, close, qty, Direction::Short),
{
    lemma_clip_neg(close - entry);
    lemma_mul_v_neg(sub_v(entry, close), qty);
}

/// The take-profit price that realises `pnl` on a position of size `qty`
/// opened at `entry` with the given leverage: the per-unit profit is
/// added (long) or subtracted (short); a zero-notional position yields 0.
pub open spec fn close_price_v(entry: int, pnl: int, qty: int, leverage: int, kind: Direction) -> int {
    let dv = div_v(entry, clip_i(leverage * SCALE));
    let pos = mul_v(dv, qty);
    if pos == 0 {
        0
    } else {
        let pct = div_v(pnl, pos);
        let diff = div_v(mul_v(pos, pct), qty);
        if kind.is_long() {
            add_v(entry, diff)
        } else {
            sub_v(entry, diff)
        }
    }
}

/// A product with a zero factor is zero.
proof fn lemma_mul_v_zero(a: int)
    ensures
        mul_v(a, 0) == 0,
{
    vstd::arithmetic::div_mod::lemma_div_of0(SCALE as int);
    vstd::arithmetic::div_mod::lemma_small_mod(0nat, SCALE as nat);
}

/// Inverse of the profit-and-loss formula: solve for the close price.
pub fn determine_close_price(entry: Fp, pnl: Fp, quantity: Fp, leverage: u32, kind: Direction) -> (r:
    Fp)
    requires
        1 <= leverage <= 4_000_000,
    ensures
        r@ == close_price_v(entry@, pnl@, quantity@, leverage as int, kind),
{
    let lev = Fp::from_int(leverage as i64);
    let dollar_value = entry.div(lev);
    let position = dollar_value.mul(quantity);
    if !position.eq_v(Fp::zero()) {
        proof {
            if quantity@ == 0 {
                lemma_mul_v_zero(dollar_value@);
            }
        }
        let percent = pnl.div(position);
        let difference = position.mul(percent).div(quantity);
        match kind {
            Direction::Long => entry.add(difference),
            Direction::Short => entry.sub(difference),
        }
    } else {
        Fp::zero()
    }
}

/// Rounding a quotient moves it by at most one divisor.
proof fn lemma_round_div_err(n: int, d: int)
    requires
        1 <= d,
    ensures
        -d <= round_div(n, d) * d - n <= d,
{
    if n >= 0 {
        lemma_round_div_pos_err(n, d);
    } else {
        lemma_round_div_pos_err(-n, d);
        assert((-round_div_pos(-n, d)) * d == -(round_div_pos(-n, d) * d)) by (nonlinear_arith);
    }
}

/// Rounding a nonnegative quotient moves it by at most one divisor.
proof fn lemma_round_div_pos_err(n: int, d: int)
    requires
        0 <= n,
        1 <= d,
    ensures
        -d <= round_div_pos(n, d) * d - n <= d,
{
    vstd::arithmetic::div_mod::lemma_fundamental_div_mod(n, d);
    vstd::arithmetic::div_mod::lemma_mod_bound(n, d);
    let q = n / d;
    let r = n % d;
    assert((q + 1) * d == q * d + d) by (nonlinear_arith);
    assert(q * d == d * q) by (nonlinear_arith);
}

/// The conditions under which the close-price chain stays on the grid:
/// every intermediate stays inside the saturation range and the
/// notional position is positive.
pub open spec fn close_price_exact_domain(entry: int, pnl: int, qty: int, leverage: int) -> bool {
    let big = leverage * SCALE;
    let d0 = round_div(entry * SCALE, big);
    let p0 = round_div(d0 * qty, SCALE as int);
    let c0 = round_div(pnl * SCALE, p0);
    let m0 = round_div(p0 * c0, SCALE as int);
    let f0 = round_div(m0 * SCALE, qty);
    &&& abs_i(entry) <= crate::fixed::LIMIT_RAW as int
    &&& abs_i(d0) <= crate::fixed::LIMIT_RAW as int
    &&& 0 < p0 <= crate::fixed::LIMIT_RAW as int
    &&& abs_i(c0) <= crate::fixed::LIMIT_RAW as int
    &&& abs_i(m0) <= crate::fixed::LIMIT_RAW as int
    &&& abs_i(f0) <= crate::fixed::LIMIT_RAW as int
    &&& abs_i(entry + f0) <= crate::fixed::LIMIT_RAW as int
    &&& abs_i(entry - f0) <= crate::fixed::LIMIT_RAW as int
    &&& abs_i(round_div(f0 * qty, SCALE as int)) <= crate::fixed::LIMIT_RAW as int
}

/// The notional position the close-price chain computes.
pub open spec fn close_price_position(entry: int, qty: int, leverage: int) -> int {
    round_div(round_div(entry * SCALE, leverage * SCALE) * qty, SCALE as int)
}

/// Solving a profit for its close price inverts the profit-and-loss
/// formula: for a positive quantity, closing the position at the solved
/// price realises the requested profit to within one grid step per unit
/// of notional position and of quantity, in either direction. The
/// tolerance is stated scaled: the error times the grid size is at most
/// the position plus the quantity plus two grid units.
pub proof fn lemma_close_price_inverse(
    entry: int,
    pnl: int,
    qty: int,
    leverage: int,
    kind: Direction,
)
    requires
        0 < qty,
        1 <= leverage <= 4_000_000,
        close_price_exact_domain(entry, pnl, qty, leverage),
    ensures
        ({
            let close = close_price_v(entry, pnl, qty, leverage, kind);
            let realised = pnl_v(entry, close, qty, kind);
            let pos = close_price_position(entry, qty, leverage);
            -(pos + qty + 2 * SCALE) <= (realised - pnl) * SCALE <= pos + qty + 2 * SCALE
        }),
{
    assert(SCALE as int <= leverage * SCALE <= crate::fixed::LIMIT_RAW as int) by (nonlinear_arith)
        requires
            1 <= leverage <= 4_000_000,
    ;
    let big = leverage * SCALE;
    let d0 = round_div(entry * SCALE, big);
    let p0 = round_div(d0 * qty, SCALE as int);
    let c0 = round_div(pnl * SCALE, p0);
    let m0 = round_div(p0 * c0, SCALE as int);
    let f0 = round_div(m0 * SCALE, qty);
    let r0 = round_div(f0 * qty, SCALE as int);
    assert(clip_i(big) == big);
    let dv = div_v(entry, clip_i(big));
    assert(dv == d0);
    let pos = mul_v(dv, qty);
    assert(pos == p0);
    let pct = div_v(pnl, pos);
    assert(pct == c0);
    let m = mul_v(pos, pct);
    assert(m == m0);
    let diff = div_v(m, qty);
    assert(diff == f0);
    let close = close_price_v(entry, pnl, qty, leverage, kind);
    if kind.is_long() {
        assert(close == add_v(entry, f0));
        assert(close == entry + f0);
        assert(sub_v(close, entry) == f0);
    } else {
        assert(close == sub_v(entry, f0));
        assert(close == entry - f0);
        assert(sub_v(entry, close) == f0);
    }
    let realised = pnl_v(entry, close, qty, kind);
    assert(realised == r0);
    lemma_round_div_err(pnl * SCALE, p0);
    lemma_round_div_err(p0 * c0, SCALE as int);
    lemma_round_div_err(m0 * SCALE, qty);
    lemma_round_div_err(f0 * qty, SCALE as int);
    let e1 = c0 * p0 - pnl * SCALE;
    let e2 = m0 * SCALE - p0 * c0;
    let e3 = f0 * qty - m0 * SCALE;
    let e4 = r0 * SCALE - f0 * qty;
    assert(c0 * p0 == p0 * c0) by (nonlinear_arith);
    assert(r0 * SCALE - pnl * SCALE == e1 + e2 + e3 + e4);
    assert((r0 - pnl) * SCALE == r0 * SCALE - pnl * SCALE) by (nonlinear_arith);
}

/// The position size that loses `pnl` when the price moves from `entry`
/// to `take_profit`; a zero distance yields 0 rather than failing.
pub open spec fn stop_and_size_v(entry: int, pnl: int, take_profit: int, kind: Direction) -> int {
    let difference = if kind.is_long() {
        sub_v(take_profit, entry)
    } else {
        sub_v(entry, take_profit)
    };
    if difference == 0 {
        0
    } else {
        abs_i(div_v(pnl, difference))
    }
}

/// Size a position from a target profit and a take-profit distance.
pub fn determine_stop_and_size(entry: Fp, pnl: Fp, take_profit: Fp, kind: Direction) -> (r: Fp)
    ensures
        r@ == stop_and_size_v(entry@, pnl@, take_profit@, kind),
{
    let difference = match kind {
        Direction::Long => take_profit.sub(entry),
        Direction::Short => entry.sub(take_profit),
    };
    if difference.eq_v(Fp::zero()) {
        Fp::zero()
    } else {
        pnl.div(difference).abs()
    }
}

/// The quantity to sell so that the profit taken at `sell_price` matches
/// `expected_profit`: the held quantity scaled by the profit ratio,
/// rounded for display. A zero expected loss yields 0.
pub open spec fn new_amount_to_sell_v(
    entry: int,
    qty: int,
    sell_price: int,
    expected_profit: int,
    kind: Direction,
    places: Seq<char>,
) -> int {
    let expected_loss = pnl_v(entry, sell_price, abs_i(qty), kind);
    if expected_loss == 0 {
        0
    } else {
        let ratio = round_places_v(div_v(expected_profit, abs_i(expected_loss)), 2);
        to_f_v(mul_v(abs_i(qty), ratio), places)
    }
}

/// The quantity to sell to take a given profit at a given price.
pub fn determine_new_amount_to_sell(
    entry: Fp,
    quantity: Fp,
    sell_price: Fp,
    expected_profit: Fp,
    kind: Direction,
    places: &str,
) -> (r: Fp)
    ensures
        r@ == new_amount_to_sell_v(entry@, quantity@, sell_price@, expected_profit@, kind, places@),
{
    let expected_loss = determine_pnl(entry, sell_price, quantity.abs(), kind);
    if expected_loss.eq_v(Fp::zero()) {
        Fp::zero()
    } else {
        let ratio = expected_profit.div(expected_loss.abs()).round(2);
        to_f(quantity.abs().mul(ratio), places)
    }
}

/// As [`new_amount_to_sell_v`], with the direction defaulted from the
/// side of the entry the sell price lies on.
pub open spec fn amount_to_sell_v(
    entry: int,
    qty: int,
    sell_price: int,
    pnl: int,
    places: Seq<char>,
    kind: Option<Direction>,
) -> int {
    let k = match kind {
        Some(k) => k,
        None => if sell_price > entry {
            Direction::Short
        } else {
            Direction::Long
        },
    };
    new_amount_to_sell_v(entry, qty, sell_price, pnl, k, places)
}

/// The quantity to sell, defaulting the direction from the price side.
pub fn determine_amount_to_sell(
    entry: Fp,
    quantity: Fp,
    sell_price: Fp,
    pnl: Fp,
    places: &str,
    kind: Option<Direction>,
) -> (r: Fp)
    ensures
        r@ == amount_to_sell_v(entry@, quantity@, sell_price@, pnl@, places@, kind),
{
    let k = match kind {
        Some(k) => k,
        None => if sell_price.gt(entry) {
            Direction::Short
        } else {
            Direction::Long
        },
    };
    determine_new_amount_to_sell(entry, quantity, sell_price, pnl, k, places)
}

/// Inputs to the position-size formula.
pub struct PositionSizeParams {
    /// Entry price.
    pub entry: Fp,
    /// Stop price; preferred over `percent` when both are given.
    pub stop: Option<Fp>,
    /// Budget: the currency amount put at risk.
    pub budget: Fp,
    /// Stop distance as a fraction of the entry, used when no stop price
    /// is given.
    pub percent: Option<Fp>,
    /// A minimum size of 1 rounds a base-asset size up to a whole unit.
    pub min_size: Option<u32>,
    /// Size in base-asset units rather than currency.
    pub as_coin: bool,
    /// Display-format spec for the returned size.
    pub places: String,
}

impl Default for PositionSizeParams {
    /// Zero prices, no stop or percent, sizing in base-asset units,
    /// three display digits.
    fn default() -> (r: Self)
        ensures
            r.entry@ == 0,
            r.stop is None,
            r.budget@ == 0,
            r.percent is None,
            r.min_size is None,
            r.as_coin,
            r.places@ == "%.3f"@,
    {
        PositionSizeParams {
            entry: Fp::zero(),
            stop: None,
            budget: Fp::zero(),
            percent: None,
            min_size: None,
            as_coin: true,
            places: "%.3f".to_owned(),
        }
    }
}

/// The fraction of the entry price the stop sits away from it, from a
/// stop price when one is given, else the explicit fraction. Nothing
/// where neither is given or the entry is zero.
pub open spec fn stop_fraction_v(entry: int, stop: Option<int>, percent: Option<int>) -> Option<
    int,
> {
    match stop {
        Some(s) => if entry != 0 {
            Some(div_v(abs_i(sub_v(entry, s)), entry))
        } else {
            None
        },
        None => percent,
    }
}

/// The position size: budget divided by the stop fraction, divided again
/// by the entry when sizing in base-asset units, rounded for display.
/// Nothing where the risk fraction is undefined or zero.
pub open spec fn position_size_v(
    entry: int,
    stop: Option<int>,
    budget: int,
    percent: Option<int>,
    min_one: bool,
    as_coin: bool,
    places: Seq<char>,
) -> Option<int> {
    match stop_fraction_v(entry, stop, percent) {
        None => None,
        Some(f) => if f == 0 {
            None
        } else {
            let size = div_v(budget, f);
            if as_coin {
                if entry == 0 {
                    None
                } else {
                    let unit_size = div_v(size, entry);
                    if min_one {
                        Some(to_f_v(crate::fixed::ceil_units_v(unit_size), places))
                    } else {
                        Some(to_f_v(unit_size, places))
                    }
                }
            } else {
                Some(to_f_v(size, places))
            }
        },
    }
}

/// Size a position from entry, stop distance and budget. Yields nothing
/// exactly where the risk fraction is undefined (no stop and no percent,
/// a zero entry, or a zero stop distance).
pub fn determine_position_size(params: &PositionSizeParams) -> (r: Option<Fp>)
    ensures
        match r {
            Some(v) => position_size_v(
                params.entry@,
                match params.stop {
                    Some(s) => Some(s@),
                    None => None,
                },
                params.budget@,
                match params.percent {
                    Some(p) => Some(p@),
                    None => None,
                },
                params.min_size == Some(1u32),
                params.as_coin,
                params.places@,
            ) == Some(v@),
            None => position_size_v(
                params.entry@,
                match params.stop {
                    Some(s) => Some(s@),
                    None => None,
                },
                params.budget@,
                match params.percent {
                    Some(p) => Some(p@),
                    None => None,
                },
                params.min_size == Some(1u32),
                params.as_coin,
                params.places@,
            ) is None,
        },
{
    let stop_percent: Option<Fp> = match params.stop {
        Some(stop_value) => {
            if params.entry.eq_v(Fp::zero()) {
                return None;
            }
            Some(params.entry.sub(stop_value).abs().div(params.entry))
        },
        None => params.percent,
    };
    match stop_percent {
        Some(f) => {
            if f.eq_v(Fp::zero()) {
                return None;
            }
            let size = params.budget.div(f);
            if params.as_coin {
                if params.entry.eq_v(Fp::zero()) {
                    return None;
                }
                let unit_size = size.div(params.entry);
                let min_one = match params.min_size {
                    Some(m) => m == 1,
                    None => false,
                };
                if min_one {
                    Some(to_f(unit_size.ceil_units(), params.places.as_str()))
                } else {
                    Some(to_f(unit_size, params.places.as_str()))
                }
            } else {
                Some(to_f(size, params.places.as_str()))
            }
        },
        None => None,
    }
}

/// One constituent of a weighted average: a price carrying a quantity.
#[derive(Clone, Copy, Debug, PartialEq, Eq, Structural)]
pub struct AvgEntry {
    /// The price.
    pub price: Fp,
    /// The quantity held at that price.
    pub quantity: Fp,
}

/// The running sum of price-times-quantity over the entries, left to
/// right, in the engine's saturating arithmetic.
pub open spec fn sum_weighted(s: Seq<AvgEntry>) -> int
    decreases s.len(),
{
    if s.len() == 0 {
        0
    } else {
        add_v(sum_weighted(s.drop_last()), mul_v(s.last().price@, s.last().quantity@))
    }
}

/// The running sum of the quantities, left to right.
pub open spec fn sum_qty(s: Seq<AvgEntry>) -> int
    decreases s.len(),
{
    if s.len() == 0 {
        0
    } else {
        add_v(sum_qty(s.drop_last()), s.last().quantity@)
    }
}

/// The quantity-weighted mean price, rounded for display; 0 when the
/// total quantity is 0.
pub open spec fn avg_price_v(s: Seq<AvgEntry>, price_places: Seq<char>) -> int {
    if sum_qty(s) == 0 {
        0
    } else {
        to_f_v(div_v(sum_weighted(s), sum_qty(s)), price_places)
    }
}

/// The rounded total quantity.
pub open spec fn avg_qty_v(s: Seq<AvgEntry>, places: Seq<char>) -> int {
    to_f_v(sum_qty(s), places)
}

/// A weighted average: mean price and total quantity.
#[derive(Clone, Copy, Debug, PartialEq, Eq, Structural)]
pub struct AvgResult {
    /// Quantity-weighted mean price.
    pub price: Fp,
    /// Total quantity.
    pub quantity: Fp,
}

/// The fixed Fibonacci ratio table, in raw units: 0, 0.236, 0.382, 0.5,
/// 0.618, 0.789, 1.0, 1.272, 1.414, 1.618.
pub open spec fn fib_ratio(i: int) -> int {
    if i == 0 {
        0
    } else if i == 1 {
        236_000_000_000
    } else if i == 2 {
        382_000_000_000
    } else if i == 3 {
        500_000_000_000
    } else if i == 4 {
        618_000_000_000
    } else if i == 5 {
        789_000_000_000
    } else if i == 6 {
        1_000_000_000_000
    } else if i == 7 {
        1_272_000_000_000
    } else if i == 8 {
        1_414_000_000_000
    } else {
        1_618_000_000_000
    }
}

/// The `i`-th retracement level before any reversal: the ratio applied
/// to the swing range and anchored at the swing low, rounded for
/// display. The trend names the swing high: long means the resistance.
pub open spec fn fib_base_v(
    support: int,
    resistance: int,
    trend: Direction,
    places: Seq<char>,
    i: int,
) -> int {
    let high = if trend.is_long() {
        resistance
    } else {
        support
    };
    let low = if trend.is_long() {
        support
    } else {
        resistance
    };
    to_f_v(add_v(mul_v(fib_ratio(i), sub_v(high, low)), low), places)
}

/// The `i`-th retracement level as returned: the sequence is reversed
/// exactly where the direction disagrees with the trend.
pub open spec fn fib_level_v(
    support: int,
    resistance: int,
    kind: Direction,
    trend: Direction,
    places: Seq<char>,
    i: int,
) -> int {
    if kind == trend {
        fib_base_v(support, resistance, trend, places, i)
    } else {
        fib_base_v(support, resistance, trend, places, 9 - i)
    }
}

/// The ten retracement levels, in order.
pub open spec fn fib_levels_seq(
    support: int,
    resistance: int,
    kind: Direction,
    trend: Direction,
    places: Seq<char>,
) -> Seq<int> {
    Seq::new(10nat, |i: int| fib_level_v(support, resistance, kind, trend, places, i))
}

/// Reversing the direction reverses the level sequence: the `i`-th
/// level of one direction is the `(9-i)`-th of the other, for any trend.
pub proof fn lemma_fib_reversal(
    support: int,
    resistance: int,
    trend: Direction,
    places: Seq<char>,
    i: int,
)
    requires
        0 <= i < 10,
    ensures
        fib_level_v(support, resistance, Direction::Long, trend, places, i) == fib_level_v(
            support,
            resistance,
            Direction::Short,
            trend,
            places,
            9 - i,
        ),
{
}

/// The `i`-th entry of the fixed ratio table.
fn fib_ratio_exec(i: usize) -> (r: Fp)
    requires
        i < 10,
    ensures
        r@ == fib_ratio(i as int),
{
    if i == 0 {
        Fp::from_raw(0)
    } else if i == 1 {
        Fp::from_raw(236_000_000_000)
    } else if i == 2 {
        Fp::from_raw(382_000_000_000)
    } else if i == 3 {
        Fp::from_raw(500_000_000_000)
    } else if i == 4 {
        Fp::from_raw(618_000_000_000)
    } else if i == 5 {
        Fp::from_raw(789_000_000_000)
    } else if i == 6 {
        Fp::from_raw(1_000_000_000_000)
    } else if i == 7 {
        Fp::from_raw(1_272_000_000_000)
    } else if i == 8 {
        Fp::from_raw(1_414_000_000_000)
    } else {
        Fp::from_raw(1_618_000_000_000)
    }
}

/// The ten Fibonacci retracement levels between a support and a
/// resistance, ordered by the ratio table and reversed when the trade
/// direction disagrees with the trend.
pub fn fibonacci_analysis(
    support: Fp,
    resistance: Fp,
    kind: Direction,
    trend: Direction,
    places: &str,
) -> (r: Vec<Fp>)
    ensures
        r@.len() == 10,
        forall|i: int|
            0 <= i < 10 ==> r@[i]@ == fib_level_v(support@, resistance@, kind, trend, places@, i),
{
    let swing_high = match trend {
        Direction::Long => resistance,
        Direction::Short => support,
    };
    let swing_low = match trend {
        Direction::Long => support,
        Direction::Short => resistance,
    };
    let mut base: Vec<Fp> = Vec::new();
    let mut i: usize = 0;
    while i < 10
        invariant
            i <= 10,
            base@.len() == i,
            swing_high@ == if trend.is_long() { resistance@ } else { support@ },
            swing_low@ == if trend.is_long() { support@ } else { resistance@ },
            forall|j: int|
                0 <= j < i ==> base@[j]@ == fib_base_v(
                    support@,
                    resistance@,
                    trend,
                    places@,
                    j,
                ),
        decreases 10 - i,
    {
        let ratio = fib_ratio_exec(i);
        let level = to_f(ratio.mul(swing_high.sub(swing_low)).add(swing_low), places);
        base.push(level);
        i = i + 1;
    }
    if kind == trend {
        base
    } else {
        let mut rev: Vec<Fp> = Vec::new();
        let mut j: usize = 0;
        while j < 10
            invariant
                j <= 10,
                rev@.len() == j,
                base@.len() == 10,
                forall|k: int|
                    0 <= k < 10 ==> base@[k]@ == fib_base_v(
                        support@,
                        resistance@,
                        trend,
                        places@,
                        k,
                    ),
                forall|k: int|
                    0 <= k < j ==> rev@[k]@ == fib_base_v(
                        support@,
                        resistance@,
                        trend,
                        places@,
                        9 - k,
                    ),
            decreases 10 - j,
        {
            rev.push(base[10 - 1 - j]);
            j = j + 1;
        }
        rev
    }
}

/// One observed retracement point: a ratio and the price seen at it.
#[derive(Clone, Copy, Debug, PartialEq, Eq, Structural)]
pub struct FibPoint {
    /// The retracement ratio.
    pub fib: Fp,
    /// The price observed at that ratio.
    pub value: Fp,
}

/// A solved support/resistance band.
#[derive(Clone, Copy, Debug, PartialEq, Eq, Structural)]
pub struct FibBounds {
    /// The lower solved bound.
    pub support: Fp,
    /// The upper solved bound.
    pub resistance: Fp,
}

/// The determinant of the 2-by-2 system built from two retracement
/// points: each point states `fib * s + (1 - fib) * r = value`.
pub open spec fn fib_det_v(f1: int, f2: int) -> int {
    sub_v(mul_v(f1, sub_v(SCALE as int, f2)), mul_v(sub_v(SCALE as int, f1), f2))
}

/// The two roots of the system, solved by the closed-form inverse.
pub open spec fn fib_roots_v(f1: int, v1: int, f2: int, v2: int) -> (int, int) {
    let det = fib_det_v(f1, f2);
    let a12 = sub_v(SCALE as int, f1);
    let a22 = sub_v(SCALE as int, f2);
    let inv11 = div_v(a22, det);
    let inv12 = div_v(-a12, det);
    let inv21 = div_v(-f2, det);
    let inv22 = div_v(f1, det);
    (add_v(mul_v(inv11, v1), mul_v(inv12, v2)), add_v(mul_v(inv21, v1), mul_v(inv22, v2)))
}

/// The solved band: the smaller root as support, the larger as
/// resistance, both rounded for display. Nothing when the system is
/// singular (the determinant is zero).
pub open spec fn fib_solve_v(f1: int, v1: int, f2: int, v2: int, places: Seq<char>) -> Option<
    (int, int),
> {
    if fib_det_v(f1, f2) == 0 {
        None
    } else {
        let (r1, r2) = fib_roots_v(f1, v1, f2, v2);
        let lo = if r1 <= r2 {
            r1
        } else {
            r2
        };
        let hi = if r1 >= r2 {
            r1
        } else {
            r2
        };
        Some((to_f_v(lo, places), to_f_v(hi, places)))
    }
}

/// Solve two retracement points for the support/resistance band they
/// imply; the first two points are used. Nothing when the two ratios
/// make a singular system.
pub fn determine_fib_support(value_with_fibs: &Vec<FibPoint>, places: &str) -> (r: Option<
    FibBounds,
>)
    requires
        value_with_fibs@.len() >= 2,
    ensures
        match r {
            Some(b) => fib_solve_v(
                value_with_fibs@[0].fib@,
                value_with_fibs@[0].value@,
                value_with_fibs@[1].fib@,
                value_with_fibs@[1].value@,
                places@,
            ) == Some((b.support@, b.resistance@)),
            None => fib_solve_v(
                value_with_fibs@[0].fib@,
                value_with_fibs@[0].value@,
                value_with_fibs@[1].fib@,
                value_with_fibs@[1].value@,
                places@,
            ) is None,
        },
{
    let one = Fp::from_int(1);
    let a11 = value_with_fibs[0].fib;
    let a12 = one.sub(a11);
    let a21 = value_with_fibs[1].fib;
    let a22 = one.sub(a21);
    let y1 = value_with_fibs[0].value;
    let y2 = value_with_fibs[1].value;
    let det = a11.mul(a22).sub(a12.mul(a21));
    if det.eq_v(Fp::zero()) {
        return None;
    }
    let inv11 = a22.div(det);
    let inv12 = a12.neg().div(det);
    let inv21 = a21.neg().div(det);
    let inv22 = a11.div(det);
    let res1 = inv11.mul(y1).add(inv12.mul(y2));
    let res2 = inv21.mul(y1).add(inv22.mul(y2));
    let support = to_f(res1.min(res2), places);
    let resistance = to_f(res1.max(res2), places);
    Some(FibBounds { support, resistance })
}

/// The smallest element at most `bound`, or nothing where none is.
pub open spec fn min_le(s: Seq<int>, bound: int) -> Option<int>
    decreases s.len(),
{
    if s.len() == 0 {
        None
    } else {
        let rest = min_le(s.drop_last(), bound);
        let x = s.last();
        if x <= bound {
            match rest {
                None => Some(x),
                Some(m) => Some(
                    if x <= m {
                        x
                    } else {
                        m
                    },
                ),
            }
        } else {
            rest
        }
    }
}

/// The smallest element at least `bound`, or nothing where none is.
pub open spec fn min_ge(s: Seq<int>, bound: int) -> Option<int>
    decreases s.len(),
{
    if s.len() == 0 {
        None
    } else {
        let rest = min_ge(s.drop_last(), bound);
        let x = s.last();
        if x >= bound {
            match rest {
                None => Some(x),
                Some(m) => Some(
                    if x <= m {
                        x
                    } else {
                        m
                    },
                ),
            }
        } else {
            rest
        }
    }
}

/// Extend a band from a focus price: of the full retracement ladder,
/// take the nearest level at or above the focus and the lowest level at
/// or below it, read them as observations at the `high` and `low`
/// ratios, and solve for the band they imply. Nothing where the focus
/// clears the ladder on either side, or the solve is singular.
pub open spec fn extend_fibonacci_v(
    support: int,
    resistance: int,
    focus: Option<int>,
    kind: Direction,
    trend: Direction,
    places: Seq<char>,
    high: int,
    low: int,
) -> Option<(int, int)> {
    let f = match focus {
        Some(v) => v,
        None => resistance,
    };
    let vals = fib_levels_seq(support, resistance, kind, trend, places);
    match (min_ge(vals, f), min_le(vals, f)) {
        (Some(sell), Some(buy)) => fib_solve_v(high, sell, low, buy, places),
        _ => None,
    }
}

/// Extend a support/resistance band so that it brackets a focus price
/// between the two nearest retracement levels.
pub fn extend_fibonacci(
    support: Fp,
    resistance: Fp,
    focus: Option<Fp>,
    kind: Direction,
    trend: Direction,
    places: &str,
    high: Fp,
    low: Fp,
) -> (r: Option<FibBounds>)
    ensures
        match r {
            Some(b) => extend_fibonacci_v(
                support@,
                resistance@,
                match focus {
                    Some(v) => Some(v@),
                    None => None,
                },
                kind,
                trend,
                places@,
                high@,
                low@,
            ) == Some((b.support@, b.resistance@)),
            None => extend_fibonacci_v(
                support@,
                resistance@,
                match focus {
                    Some(v) => Some(v@),
                    None => None,
                },
                kind,
                trend,
                places@,
                high@,
                low@,
            ) is None,
        },
{
    let f = match focus {
        Some(v) => v,
        None => resistance,
    };
    let values = fibonacci_analysis(support, resistance, kind, trend, places);
    let ghost vals = values@.map_values(|v: Fp| v@);
    proof {
        assert(vals =~= fib_levels_seq(support@, resistance@, kind, trend, places@));
    }
    let mut min_sell: Option<Fp> = None;
    let mut min_buy: Option<Fp> = None;
    let mut i: usize = 0;
    while i < values.len()
        invariant
            i <= values.len(),
            vals == values@.map_values(|v: Fp| v@),
            match min_sell {
                None => min_ge(vals.subrange(0, i as int), f@) is None,
                Some(m) => min_ge(vals.subrange(0, i as int), f@) == Some(m@),
            },
            match min_buy {
                None => min_le(vals.subrange(0, i as int), f@) is None,
                Some(m) => min_le(vals.subrange(0, i as int), f@) == Some(m@),
            },
        decreases values.len() - i,
    {
        proof {
            assert(vals.subrange(0, i + 1).drop_last() =~= vals.subrange(0, i as int));
        }
        let x = values[i];
        if x.ge(f) {
            min_sell = match min_sell {
                None => Some(x),
                Some(m) => if x.le(m) {
                    Some(x)
                } else {
                    Some(m)
                },
            };
        }
        if x.le(f) {
            min_buy = match min_buy {
                None => Some(x),
                Some(m) => if x.le(m) {
                    Some(x)
                } else {
                    Some(m)
                },
            };
        }
        i = i + 1;
    }
    proof {
        assert(vals.subrange(0, vals.len() as int) =~= vals);
    }
    match (min_sell, min_buy) {
        (Some(sell), Some(buy)) => {
            let mut pairs: Vec<FibPoint> = Vec::new();
            pairs.push(FibPoint { fib: high, value: sell });
            pairs.push(FibPoint { fib: low, value: buy });
            determine_fib_support(&pairs, places)
        },
        _ => None,
    }
}

/// The quantity-weighted mean price and rounded total quantity of a set
/// of priced quantities; the price defaults to 0 on a zero total.
pub fn determine_avg(orders: &Vec<AvgEntry>, places: &str, price_places: &str) -> (r: AvgResult)
    ensures
        r.price@ == avg_price_v(orders@, price_places@),
        r.quantity@ == avg_qty_v(orders@, places@),
{
    let mut sum_values = Fp::zero();
    let mut total_quantity = Fp::zero();
    let mut i: usize = 0;
    while i < orders.len()
        invariant
            i <= orders.len(),
            sum_values@ == sum_weighted(orders@.subrange(0, i as int)),
            total_quantity@ == sum_qty(orders@.subrange(0, i as int)),
        decreases orders.len() - i,
    {
        proof {
            assert(orders@.subrange(0, i + 1).drop_last() =~= orders@.subrange(0, i as int));
        }
        sum_values = sum_values.add(orders[i].price.mul(orders[i].quantity));
        total_quantity = total_quantity.add(orders[i].quantity);
        i = i + 1;
    }
    proof {
        assert(orders@.subrange(0, orders@.len() as int) =~= orders@);
    }
    let avg_value = if !total_quantity.eq_v(Fp::zero()) {
        to_f(sum_values.div(total_quantity), price_places)
    } else {
        Fp::zero()
    };
    AvgResult { price: avg_value, quantity: to_f(total_quantity, places) }
}

} // verus!
