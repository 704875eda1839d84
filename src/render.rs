use vstd::prelude::*;
use crate::figures::{abs, divide_rounded, figures, holding_figures, round_div, Figures};
use crate::quote::Quote;
use crate::table::{Account, Holding, QuoteTable};

verus! {

pub const DIGITS: &'static str = "0123456789";

/// Colour for a figure below zero.
pub const LOSS_COLOR: &'static str = "\x1b[38;5;1m";

/// Colour for a figure at or above zero.
pub const GAIN_COLOR: &'static str = "\x1b[38;5;2m";

/// Ends a coloured or bold stretch.
pub const RESET: &'static str = "\x1b[0m";

/// The bold column header printed under each account's name.
pub const COLUMN_HEADER: &'static str = "\x1b[1m\tSymbol\t  Price      Net     Net %      Total   Total %\x1b[0m";

/// Shown for a percentage whose base is zero.
pub const NOT_AVAILABLE: &'static str = "N/A";

/// Micro-units per hundredth.
pub const MICROS_PER_HUNDREDTH: i128 = 10_000;

pub open spec fn digit_char(d: int) -> char {
    DIGITS@[d]
}

/// Decimal digits of `n`, without leading zeros.
pub open spec fn nat_text(n: nat) -> Seq<char>
    decreases n,
{
    if n < 10 {
        seq![digit_char(n as int)]
    } else {
        nat_text(n / 10).push(digit_char((n % 10) as int))
    }
}

/// A count of hundredths written with two decimals: `-1234` is `-12.34`.
pub open spec fn hundredths_text(v: int) -> Seq<char> {
    let a = abs(v);
    let sign = if v < 0 {
        "-"@
    } else {
        Seq::empty()
    };
    sign + nat_text((a / 100) as nat) + "."@ + seq![digit_char((a % 100) / 10), digit_char(a % 10)]
}

pub open spec fn spaces(n: nat) -> Seq<char>
    decreases n,
{
    if n == 0 {
        Seq::empty()
    } else {
        spaces((n - 1) as nat) + " "@
    }
}

/// `s` right-aligned in a field of `w` characters.
pub open spec fn pad(s: Seq<char>, w: nat) -> Seq<char> {
    if s.len() < w {
        spaces((w - s.len()) as nat) + s
    } else {
        s
    }
}

pub open spec fn color_text(negative: bool) -> Seq<char> {
    if negative {
        LOSS_COLOR@
    } else {
        GAIN_COLOR@
    }
}

pub open spec fn percent_negative(p: Option<i128>) -> bool {
    match p {
        Some(v) => v < 0,
        None => false,
    }
}

pub open spec fn percent_text(p: Option<i128>) -> Seq<char> {
    match p {
        Some(v) => hundredths_text(v as int),
        None => NOT_AVAILABLE@,
    }
}

/// One table row: symbol, price, today's gain and percent, total gain and percent.
pub open spec fn row_text(symbol: Seq<char>, price: int, f: Figures) -> Seq<char> {
    "\t"@ + symbol + "\t$"@ + pad(hundredths_text(round_div(price, MICROS_PER_HUNDREDTH as int)), 7)
        + "  "@ + color_text(f.intraday_gain < 0) + "$"@ + pad(
        hundredths_text(f.intraday_gain as int),
        6,
    ) + RESET@ + "  "@ + color_text(percent_negative(f.intraday_percent)) + pad(
        percent_text(f.intraday_percent),
        6,
    ) + "%"@ + RESET@ + "  "@ + color_text(f.total_gain < 0) + "$"@ + pad(
        hundredths_text(f.total_gain as int),
        9,
    ) + RESET@ + "  "@ + color_text(percent_negative(f.total_percent)) + pad(
        percent_text(f.total_percent),
        6,
    ) + "%"@ + RESET@
}

#[verifier::opaque]
pub open spec fn holding_row(h: Holding, q: Quote) -> Seq<char> {
    row_text(h.symbol@, q.price.micros as int, holding_figures(h, q))
}

fn digit_text(d: u128) -> (r: String)
    requires
        d < 10,
    ensures
        r@ == seq![digit_char(d as int)],
{
    proof {
        reveal_strlit("0123456789");
    }
    let s = DIGITS.substring_char(d as usize, d as usize + 1);
    assert(s@ =~= seq![digit_char(d as int)]);
    String::from_str(s)
}

fn nat_string(n: u128) -> (r: String)
    ensures
        r@ == nat_text(n as nat),
    decreases n,
{
    if n < 10 {
        digit_text(n)
    } else {
        let mut s = nat_string(n / 10);
        let d = digit_text(n % 10);
        s.append(d.as_str());
        assert(s@ =~= nat_text(n as nat));
        s
    }
}

/// A count of hundredths written with two decimals.
pub fn hundredths_string(v: i128) -> (r: String)
    requires
        v > i128::MIN,
    ensures
        r@ == hundredths_text(v as int),
{
    let a: u128 = if v < 0 {
        (-v) as u128
    } else {
        v as u128
    };
    let mut s = if v < 0 {
        String::from_str("-")
    } else {
        String::new()
    };
    let whole = nat_string(a / 100);
    s.append(whole.as_str());
    s.append(".");
    let tens = digit_text((a % 100) / 10);
    s.append(tens.as_str());
    let ones = digit_text(a % 10);
    s.append(ones.as_str());
    assert(s@ =~= hundredths_text(v as int));
    s
}

/// `s` right-aligned in a field of `w` characters.
fn padded(s: String, w: usize) -> (r: String)
    ensures
        r@ == pad(s@, w as nat),
{
    let n = s.as_str().unicode_len();
    if n >= w {
        return s;
    }
    let mut out = String::new();
    let mut k: usize = 0;
    while k < w - n
        invariant
            k <= w - n,
            out@ == spaces(k as nat),
        decreases w - n - k,
    {
        out.append(" ");
        k = k + 1;
    }
    out.append(s.as_str());
    out
}

fn color_string(negative: bool) -> (r: String)
    ensures
        r@ == color_text(negative),
{
    if negative {
        String::from_str(LOSS_COLOR)
    } else {
        String::from_str(GAIN_COLOR)
    }
}

fn percent_string(p: Option<i128>) -> (r: String)
    requires
        match p {
            Some(v) => v > i128::MIN,
            None => true,
        },
    ensures
        r@ == percent_text(p),
{
    match p {
        Some(v) => hundredths_string(v),
        None => String::from_str(NOT_AVAILABLE),
    }
}

/// The row of holding `h` at quote `q`.
pub fn row(h: &Holding, q: &Quote) -> (r: String)
    requires
        h.quantity.wf(),
        h.cost_basis.wf(),
        q.wf(),
    ensures
        r@ == holding_row(*h, *q),
{
    reveal(holding_row);
    let f = figures(h, q);
    let price = divide_rounded(q.price.micros as i128, MICROS_PER_HUNDREDTH);
    let mut s = String::from_str("\t");
    s.append(h.symbol.as_str());
    s.append("\t$");
    s.append(padded(hundredths_string(price), 7).as_str());
    s.append("  ");
    s.append(color_string(f.intraday_gain < 0).as_str());
    s.append("$");
    s.append(padded(hundredths_string(f.intraday_gain), 6).as_str());
    s.append(RESET);
    s.append("  ");
    s.append(color_string(is_negative(f.intraday_percent)).as_str());
    s.append(padded(percent_string(f.intraday_percent), 6).as_str());
    s.append("%");
    s.append(RESET);
    s.append("  ");
    s.append(color_string(f.total_gain < 0).as_str());
    s.append("$");
    s.append(padded(hundredths_string(f.total_gain), 9).as_str());
    s.append(RESET);
    s.append("  ");
    s.append(color_string(is_negative(f.total_percent)).as_str());
    s.append(padded(percent_string(f.total_percent), 6).as_str());
    s.append("%");
    s.append(RESET);
    s
}

fn is_negative(p: Option<i128>) -> (r: bool)
    ensures
        r == percent_negative(p),
{
    match p {
        Some(v) => v < 0,
        None => false,
    }
}

/// Every holding can be shown: its amounts are in range and the table has an
/// in-range quote for its symbol.
pub open spec fn renderable(accounts: Seq<Account>, m: Map<Seq<char>, Quote>) -> bool {
    forall|i: int, j: int|
        0 <= i < accounts.len() && 0 <= j < accounts[i].holdings@.len() ==> {
            let h = #[trigger] accounts[i].holdings@[j];
            h.quantity.wf() && h.cost_basis.wf() && m.contains_key(h.symbol@) && m[h.symbol@].wf()
        }
}

/// The rows of `hs`, each ending a line.
pub open spec fn rows_text(hs: Seq<Holding>, m: Map<Seq<char>, Quote>) -> Seq<char>
    decreases hs.len(),
{
    if hs.len() == 0 {
        Seq::empty()
    } else {
        rows_text(hs.drop_last(), m) + holding_row(hs.last(), m[hs.last().symbol@]) + "\n"@
    }
}

/// An account's block: its name line, the column header, then its rows.
pub open spec fn account_text(a: Account, m: Map<Seq<char>, Quote>) -> Seq<char> {
    a.name@ + ":\n"@ + COLUMN_HEADER@ + "\n"@ + rows_text(a.holdings@, m)
}

/// The blocks of all accounts, in order.
pub open spec fn report_text(accounts: Seq<Account>, m: Map<Seq<char>, Quote>) -> Seq<char>
    decreases accounts.len(),
{
    if accounts.len() == 0 {
        Seq::empty()
    } else {
        report_text(accounts.drop_last(), m) + account_text(accounts.last(), m)
    }
}

/// The whole gain/loss report for `accounts` at the quotes of `table`.
pub fn report(accounts: &Vec<Account>, table: &QuoteTable) -> (r: String)
    requires
        table.wf(),
        renderable(accounts@, table@),
    ensures
        r@ == report_text(accounts@, table@),
{
    let mut out = String::new();
    let mut i: usize = 0;
    while i < accounts.len()
        invariant
            i <= accounts@.len(),
            table.wf(),
            renderable(accounts@, table@),
            out@ == report_text(accounts@.subrange(0, i as int), table@),
        decreases accounts@.len() - i,
    {
        let a = &accounts[i];
        let ghost start = out@;
        out.append(a.name.as_str());
        out.append(":\n");
        out.append(COLUMN_HEADER);
        out.append("\n");
        let ghost head = out@;
        let mut j: usize = 0;
        while j < a.holdings.len()
            invariant
                i < accounts@.len(),
                a == &accounts@[i as int],
                j <= a.holdings@.len(),
                table.wf(),
                renderable(accounts@, table@),
                out@ == head + rows_text(a.holdings@.subrange(0, j as int), table@),
            decreases a.holdings@.len() - j,
        {
            let h = &a.holdings[j];
            assert(accounts@[i as int].holdings@[j as int] == *h);
            let q = match table.get(&h.symbol) {
                Some(q) => q,
                None => Quote::zero(),
            };
            let line = row(h, &q);
            let ghost before = out@;
            out.append(line.as_str());
            out.append("\n");
            proof {
                let sub = a.holdings@.subrange(0, j + 1);
                assert(sub.drop_last() =~= a.holdings@.subrange(0, j as int));
                assert(sub.last() == *h);
                assert(rows_text(sub, table@) == rows_text(a.holdings@.subrange(0, j as int), table@)
                    + line@ + "\n"@);
                assert(out@ =~= head + rows_text(sub, table@));
            }
            j = j + 1;
        }
        assert(a.holdings@.subrange(0, j as int) =~= a.holdings@);
        let ghost pre = accounts@.subrange(0, i + 1);
        assert(pre.drop_last() =~= accounts@.subrange(0, i as int));
        assert(out@ =~= report_text(pre, table@));
        i = i + 1;
    }
    assert(accounts@.subrange(0, i as int) =~= accounts@);
    out
}

/// The report is a function of the accounts and the quotes alone: the same
/// accounts with the same quote table always give the same text.
pub proof fn lemma_report_deterministic(
    accounts: Seq<Account>,
    quotes: Map<Seq<char>, Quote>,
    first: Seq<char>,
    second: Seq<char>,
)
    requires
        first == report_text(accounts, quotes),
        second == report_text(accounts, quotes),
    ensures
        first == second,
{
}

} // verus!
