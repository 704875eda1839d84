use vstd::prelude::*;
use crate::decimal::MICRO_LIMIT;
use crate::quote::Quote;
use crate::table::Holding;

verus! {

/// Micro-units squared per hundredth: a product of two amounts is in
/// millionths squared, a figure in hundredths.
pub const PRODUCT_PER_HUNDREDTH: i128 = 10_000_000_000;

/// A ratio times this is in hundredths of a percent.
pub const PERCENT_HUNDREDTHS: i128 = 10_000;

pub open spec fn abs(x: int) -> int {
    if x < 0 {
        -x
    } else {
        x
    }
}

/// `n / d` rounded to the nearest integer, halves away from zero.
pub open spec fn round_div(n: int, d: int) -> int
    recommends
        d != 0,
{
    let q = (2 * abs(n) + abs(d)) / (2 * abs(d));
    if (n < 0) != (d < 0) {
        -q
    } else {
        q
    }
}

/// The gain/loss figures of one holding, in hundredths (of a currency unit,
/// or of a percent). A percentage whose base is zero is `None`.
#[derive(Clone, Copy, Debug, PartialEq, Eq, Structural)]
pub struct Figures {
    pub intraday_gain: i128,
    pub intraday_percent: Option<i128>,
    pub total_gain: i128,
    pub total_percent: Option<i128>,
}

impl Figures {
    /// Every figure has a magnitude that `i128` can negate.
    pub open spec fn fits(self) -> bool {
        &&& self.intraday_gain > i128::MIN
        &&& self.total_gain > i128::MIN
        &&& (self.intraday_percent matches Some(v) ==> v > i128::MIN)
        &&& (self.total_percent matches Some(v) ==> v > i128::MIN)
    }
}

/// Today's gain: net change times quantity.
pub open spec fn intraday_gain(net: int, qty: int) -> int {
    round_div(net * qty, PRODUCT_PER_HUNDREDTH as int)
}

/// Today's change relative to the prior close, which is price minus change.
pub open spec fn intraday_percent(price: int, net: int) -> Option<int> {
    if price - net == 0 {
        None
    } else {
        Some(round_div(net * PERCENT_HUNDREDTHS, price - net))
    }
}

/// Gain since purchase: (price - cost basis) times quantity.
pub open spec fn total_gain(price: int, cost: int, qty: int) -> int {
    round_div((price - cost) * qty, PRODUCT_PER_HUNDREDTH as int)
}

/// Gain since purchase relative to what was paid.
pub open spec fn total_percent(price: int, cost: int, qty: int) -> Option<int> {
    if cost * qty == 0 {
        None
    } else {
        Some(round_div((price * qty - cost * qty) * PERCENT_HUNDREDTHS, cost * qty))
    }
}

pub open spec fn figures_of(price: int, net: int, cost: int, qty: int) -> Figures {
    Figures {
        intraday_gain: intraday_gain(net, qty) as i128,
        intraday_percent: match intraday_percent(price, net) {
            Some(v) => Some(v as i128),
            None => None,
        },
        total_gain: total_gain(price, cost, qty) as i128,
        total_percent: match total_percent(price, cost, qty) {
            Some(v) => Some(v as i128),
            None => None,
        },
    }
}

pub open spec fn holding_figures(h: Holding, q: Quote) -> Figures {
    figures_of(
        q.price.micros as int,
        q.net_change.micros as int,
        h.cost_basis.micros as int,
        h.quantity.micros as int,
    )
}

/// Bound on the magnitudes `divide_rounded` takes.
pub const RATIO_LIMIT: i128 = 100_000_000_000_000_000_000_000_000_000_000_000;

proof fn lemma_round_div_bound(n: int, d: int)
    requires
        d != 0,
    ensures
        abs(round_div(n, d)) <= abs(n) + 1,
{
    let q = (2 * abs(n) + abs(d)) / (2 * abs(d));
    assert(q <= abs(n) + 1) by (nonlinear_arith)
        requires
            q == (2 * abs(n) + abs(d)) / (2 * abs(d)),
            abs(d) >= 1,
            abs(n) >= 0,
    ;
    assert(q >= 0) by (nonlinear_arith)
        requires
            q == (2 * abs(n) + abs(d)) / (2 * abs(d)),
            abs(d) >= 1,
            abs(n) >= 0,
    ;
}

/// `n / d` rounded to the nearest integer, halves away from zero.
pub fn divide_rounded(n: i128, d: i128) -> (r: i128)
    requires
        d != 0,
        -RATIO_LIMIT < n < RATIO_LIMIT,
        -RATIO_LIMIT < d < RATIO_LIMIT,
    ensures
        r == round_div(n as int, d as int),
        abs(r as int) <= abs(n as int) + 1,
{
    let an: u128 = if n < 0 {
        (-n) as u128
    } else {
        n as u128
    };
    let ad: u128 = if d < 0 {
        (-d) as u128
    } else {
        d as u128
    };
    let q: u128 = (2 * an + ad) / (2 * ad);
    proof {
        lemma_round_div_bound(n as int, d as int);
    }
    if (n < 0) != (d < 0) {
        -(q as i128)
    } else {
        q as i128
    }
}

proof fn lemma_product_bound(a: int, b: int)
    requires
        -MICRO_LIMIT < a < MICRO_LIMIT,
        -MICRO_LIMIT < b < MICRO_LIMIT,
    ensures
        -1_000_000_000_000_000_000_000_000_000_000 < a * b < 1_000_000_000_000_000_000_000_000_000_000,
{
    assert(abs(a * b) == abs(a) * abs(b)) by (nonlinear_arith);
    assert(abs(a) * abs(b) < 1_000_000_000_000_000_000_000_000_000_000) by (nonlinear_arith)
        requires
            0 <= abs(a) < 1_000_000_000_000_000,
            0 <= abs(b) < 1_000_000_000_000_000,
    ;
}

/// The gain/loss figures of holding `h` at quote `q`.
pub fn figures(h: &Holding, q: &Quote) -> (r: Figures)
    requires
        h.quantity.wf(),
        h.cost_basis.wf(),
        q.wf(),
    ensures
        r == holding_figures(*h, *q),
        r.fits(),
{
    let price = q.price.micros as i128;
    let net = q.net_change.micros as i128;
    let cost = h.cost_basis.micros as i128;
    let qty = h.quantity.micros as i128;
    proof {
        lemma_product_bound(net as int, qty as int);
        lemma_product_bound(price as int, qty as int);
        lemma_product_bound(cost as int, qty as int);
        lemma_product_bound(net as int, PERCENT_HUNDREDTHS as int);
        assert((price - cost) * qty == price * qty - cost * qty) by (nonlinear_arith);
    }
    let intraday_gain = divide_rounded(net * qty, PRODUCT_PER_HUNDREDTH);
    let base = price - net;
    let intraday_percent = if base == 0 {
        None
    } else {
        Some(divide_rounded(net * PERCENT_HUNDREDTHS, base))
    };
    let paid = cost * qty;
    let worth = price * qty;
    let total_gain = divide_rounded(worth - paid, PRODUCT_PER_HUNDREDTH);
    let total_percent = if paid == 0 {
        None
    } else {
        Some(divide_rounded((worth - paid) * PERCENT_HUNDREDTHS, paid))
    };
    Figures { intraday_gain, intraday_percent, total_gain, total_percent }
}

} // verus!
