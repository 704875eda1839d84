use vstd::prelude::*;

verus! {

/// Number of fractional digits an `Amount` keeps.
pub const SCALE_DIGITS: usize = 6;

/// One whole unit in micro-units.
pub const UNIT: i64 = 1_000_000;

/// Whole parts at or above this bound are rejected by the parser.
pub const WHOLE_LIMIT: i64 = 1_000_000_000;

/// Largest magnitude, in micro-units, that an `Amount` may hold.
pub const MICRO_LIMIT: i64 = 1_000_000_000_000_000;

/// A signed decimal quantity held exactly, in millionths of a unit.
#[derive(Clone, Copy, Debug, PartialEq, Eq, Structural)]
pub struct Amount {
    pub micros: i64,
}

impl Amount {
    pub open spec fn wf(self) -> bool {
        -MICRO_LIMIT < self.micros < MICRO_LIMIT
    }

    pub fn zero() -> (r: Amount)
        ensures
            r.micros == 0,
            r.wf(),
    {
        Amount { micros: 0 }
    }
}

pub open spec fn is_digit(c: char) -> bool {
    '0' <= c <= '9'
}

pub open spec fn digit_value(c: char) -> int {
    (c as int) - ('0' as int)
}

pub open spec fn all_digits(s: Seq<char>) -> bool {
    forall|i: int| 0 <= i < s.len() ==> #[trigger] is_digit(s[i])
}

/// The number written by a string of decimal digits (0 for the empty string).
pub open spec fn digits_value(s: Seq<char>) -> int
    decreases s.len(),
{
    if s.len() == 0 {
        0
    } else {
        digits_value(s.drop_last()) * 10 + digit_value(s.last())
    }
}

pub open spec fn pow10(n: nat) -> int
    decreases n,
{
    if n == 0 {
        1
    } else {
        10 * pow10((n - 1) as nat)
    }
}

/// Index of the first '.' in `s`, or `s.len()` when there is none.
pub open spec fn point_index(s: Seq<char>) -> int
    decreases s.len(),
{
    if s.len() == 0 {
        0
    } else if s[0] == '.' {
        0
    } else {
        1 + point_index(s.drop_first())
    }
}

pub open spec fn whole_part(s: Seq<char>) -> Seq<char> {
    s.subrange(0, point_index(s))
}

pub open spec fn fraction_part(s: Seq<char>) -> Seq<char> {
    if point_index(s) < s.len() {
        s.subrange(point_index(s) + 1, s.len() as int)
    } else {
        Seq::empty()
    }
}

/// Unsigned decimal text: digits, optionally a point and at most six more
/// digits, with at least one digit in all, and a whole part below the limit.
pub open spec fn unsigned_micros(s: Seq<char>) -> Option<int> {
    let w = whole_part(s);
    let f = fraction_part(s);
    if all_digits(w) && all_digits(f) && f.len() <= SCALE_DIGITS && w.len() + f.len() > 0
        && digits_value(w) < WHOLE_LIMIT {
        Some(digits_value(w) * UNIT + digits_value(f) * pow10((SCALE_DIGITS - f.len()) as nat))
    } else {
        None
    }
}

/// Decimal text with an optional leading sign, in micro-units.
pub open spec fn decimal_micros(s: Seq<char>) -> Option<int> {
    if s.len() > 0 && s[0] == '-' {
        match unsigned_micros(s.drop_first()) {
            Some(v) => Some(-v),
            None => None,
        }
    } else if s.len() > 0 && s[0] == '+' {
        unsigned_micros(s.drop_first())
    } else {
        unsigned_micros(s)
    }
}

/// A price as quoted: a leading '$' followed by decimal text.
pub open spec fn price_micros(s: Seq<char>) -> Option<int> {
    if s.len() > 0 && s[0] == '$' {
        decimal_micros(s.drop_first())
    } else {
        None
    }
}


proof fn lemma_digits_value_nonneg(s: Seq<char>)
    requires
        all_digits(s),
    ensures
        digits_value(s) >= 0,
    decreases s.len(),
{
    if s.len() > 0 {
        assert(is_digit(s[s.len() - 1]));
        lemma_digits_value_nonneg(s.drop_last());
    }
}

proof fn lemma_digits_value_prefix(s: Seq<char>, j: int)
    requires
        all_digits(s),
        0 <= j <= s.len(),
    ensures
        digits_value(s.subrange(0, j)) <= digits_value(s),
    decreases s.len(),
{
    if j < s.len() {
        let d = s.drop_last();
        assert(is_digit(s[s.len() - 1]));
        lemma_digits_value_prefix(d, j);
        assert(d.subrange(0, j) =~= s.subrange(0, j));
        lemma_digits_value_nonneg(d);
    } else {
        assert(s.subrange(0, j) =~= s);
    }
}

proof fn lemma_point_index(s: Seq<char>, m: int)
    requires
        0 <= m <= s.len(),
        forall|k: int| 0 <= k < m ==> s[k] != '.',
        m == s.len() || s[m] == '.',
    ensures
        point_index(s) == m,
    decreases s.len(),
{
    if s.len() > 0 && s[0] != '.' {
        lemma_point_index(s.drop_first(), m - 1);
    }
}

/// Position of the first '.' in `s[lo..hi]`, or `hi`.
fn find_point(s: &str, lo: usize, hi: usize) -> (p: usize)
    requires
        lo <= hi <= s@.len(),
    ensures
        lo <= p <= hi,
        p - lo == point_index(s@.subrange(lo as int, hi as int)),
{
    let mut i: usize = lo;
    while i < hi && s.get_char(i) != '.'
        invariant
            lo <= i <= hi <= s@.len(),
            forall|k: int| lo <= k < i ==> s@[k] != '.',
        decreases hi - i,
    {
        i = i + 1;
    }
    proof {
        let t = s@.subrange(lo as int, hi as int);
        assert forall|k: int| 0 <= k < i - lo implies t[k] != '.' by {
            assert(t[k] == s@[lo + k]);
        }
        lemma_point_index(t, i - lo);
    }
    i
}

/// The value of the digit string `s[lo..hi]`, when it is all digits and
/// below the whole-part limit.
fn digits_in(s: &str, lo: usize, hi: usize) -> (r: Option<i64>)
    requires
        lo <= hi <= s@.len(),
    ensures
        ({
            let t = s@.subrange(lo as int, hi as int);
            match r {
                Some(v) => all_digits(t) && v == digits_value(t) && 0 <= v < WHOLE_LIMIT,
                None => !(all_digits(t) && digits_value(t) < WHOLE_LIMIT),
            }
        }),
{
    let ghost t = s@.subrange(lo as int, hi as int);
    let mut acc: i64 = 0;
    let mut i: usize = lo;
    while i < hi
        invariant
            lo <= i <= hi <= s@.len(),
            t == s@.subrange(lo as int, hi as int),
            all_digits(t.subrange(0, i - lo)),
            acc == digits_value(t.subrange(0, i - lo)),
            0 <= acc < WHOLE_LIMIT,
        decreases hi - i,
    {
        let c = s.get_char(i);
        assert(t[i - lo] == c);
        if !('0' <= c && c <= '9') {
            assert(!is_digit(t[i - lo]));
            return None;
        }
        let d = (c as u32 - '0' as u32) as i64;
        let next = acc * 10 + d;
        let ghost p = t.subrange(0, i - lo + 1);
        assert(p.drop_last() =~= t.subrange(0, i - lo));
        assert(all_digits(p)) by {
            assert forall|k: int| 0 <= k < p.len() implies #[trigger] is_digit(p[k]) by {
                if k < p.len() - 1 {
                    assert(p[k] == t.subrange(0, i - lo)[k]);
                }
            }
        }
        if next >= WHOLE_LIMIT {
            proof {
                if all_digits(t) {
                    lemma_digits_value_prefix(t, i - lo + 1);
                }
            }
            return None;
        }
        acc = next;
        i = i + 1;
    }
    assert(t.subrange(0, i - lo) =~= t);
    Some(acc)
}

/// Ten to the power `n`, for the fraction lengths the parser accepts.
fn scale_factor(n: usize) -> (r: i64)
    requires
        n <= SCALE_DIGITS,
    ensures
        r == pow10(n as nat),
        r > 0,
{
    reveal_with_fuel(pow10, 7);
    match n {
        0 => 1,
        1 => 10,
        2 => 100,
        3 => 1_000,
        4 => 10_000,
        5 => 100_000,
        _ => 1_000_000,
    }
}

/// Unsigned decimal text `s[lo..hi]` in micro-units.
fn unsigned_in(s: &str, lo: usize, hi: usize) -> (r: Option<i64>)
    requires
        lo <= hi <= s@.len(),
    ensures
        ({
            let t = s@.subrange(lo as int, hi as int);
            match r {
                Some(v) => unsigned_micros(t) == Some(v as int) && 0 <= v < MICRO_LIMIT,
                None => unsigned_micros(t) is None,
            }
        }),
{
    let ghost t = s@.subrange(lo as int, hi as int);
    let p = find_point(s, lo, hi);
    assert(whole_part(t) =~= s@.subrange(lo as int, p as int));
    let frac_lo: usize = if p < hi { p + 1 } else { hi };
    assert(fraction_part(t) =~= s@.subrange(frac_lo as int, hi as int));
    let frac_len = hi - frac_lo;
    if p - lo + frac_len == 0 || frac_len > SCALE_DIGITS {
        return None;
    }
    let w = match digits_in(s, lo, p) {
        Some(v) => v,
        None => return None,
    };
    let f = match digits_in(s, frac_lo, hi) {
        Some(v) => v,
        None => {
            proof {
                let ft = fraction_part(t);
                if all_digits(ft) {
                    assert(ft.len() <= 6);
                    lemma_digits_value_bound(ft);
                    reveal_with_fuel(pow10, 7);
                }
            }
            return None;
        },
    };
    proof {
        lemma_digits_value_bound(fraction_part(t));
    }
    let m = scale_factor(SCALE_DIGITS - frac_len);
    proof {
        lemma_pow10_mono((SCALE_DIGITS - frac_len) as nat);
        assert(f * m < 1_000_000) by (nonlinear_arith)
            requires
                0 <= f < pow10(frac_len as nat),
                0 < m,
                m == pow10((SCALE_DIGITS - frac_len) as nat),
                pow10(frac_len as nat) * pow10((SCALE_DIGITS - frac_len) as nat) == 1_000_000,
        ;
    }
    Some(w * UNIT + f * m)
}

proof fn lemma_digits_value_bound(s: Seq<char>)
    requires
        all_digits(s),
    ensures
        0 <= digits_value(s) < pow10(s.len()),
    decreases s.len(),
{
    if s.len() > 0 {
        let d = s.drop_last();
        assert(is_digit(s[s.len() - 1]));
        lemma_digits_value_bound(d);
        assert(pow10(s.len()) == 10 * pow10(d.len()));
    }
}

proof fn lemma_pow10_split(a: nat, b: nat)
    ensures
        pow10(a) * pow10(b) == pow10(a + b),
    decreases a,
{
    if a > 0 {
        lemma_pow10_split((a - 1) as nat, b);
        assert(pow10(a) * pow10(b) == 10 * (pow10((a - 1) as nat) * pow10(b))) by (nonlinear_arith)
            requires
                pow10(a) == 10 * pow10((a - 1) as nat),
        ;
    }
}

proof fn lemma_pow10_mono(k: nat)
    requires
        k <= SCALE_DIGITS,
    ensures
        pow10((SCALE_DIGITS - k) as nat) * pow10(k) == 1_000_000,
{
    lemma_pow10_split((SCALE_DIGITS - k) as nat, k);
    reveal_with_fuel(pow10, 7);
}

/// Parses decimal text with an optional sign into an exact `Amount`.
/// Anything else yields `None`.
pub fn parse_decimal(s: &str) -> (r: Option<Amount>)
    ensures
        match r {
            Some(a) => decimal_micros(s@) == Some(a.micros as int) && a.wf(),
            None => decimal_micros(s@) is None,
        },
{
    let n = s.unicode_len();
    if n > 0 && s.get_char(0) == '-' {
        assert(s@.drop_first() =~= s@.subrange(1, n as int));
        match unsigned_in(s, 1, n) {
            Some(v) => Some(Amount { micros: -v }),
            None => None,
        }
    } else if n > 0 && s.get_char(0) == '+' {
        assert(s@.drop_first() =~= s@.subrange(1, n as int));
        match unsigned_in(s, 1, n) {
            Some(v) => Some(Amount { micros: v }),
            None => None,
        }
    } else {
        assert(s@ =~= s@.subrange(0, n as int));
        match unsigned_in(s, 0, n) {
            Some(v) => Some(Amount { micros: v }),
            None => None,
        }
    }
}

/// Parses a quoted price, `$` followed by decimal text, into an `Amount`.
/// Text without the leading `$`, or with anything but a number after it,
/// yields `None`.
pub fn parse_price(s: &str) -> (r: Option<Amount>)
    ensures
        match r {
            Some(a) => price_micros(s@) == Some(a.micros as int) && a.wf(),
            None => price_micros(s@) is None,
        },
{
    let n = s.unicode_len();
    if n == 0 || s.get_char(0) != '$' {
        return None;
    }
    let rest = s.substring_char(1, n);
    assert(rest@ =~= s@.drop_first());
    parse_decimal(rest)
}

} // verus!
