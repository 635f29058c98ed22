use vstd::prelude::*;
use vstd::string::StringExecFns;
use crate::amount::Amount;
use crate::grouping::{
    grouped, group_digits, lemma_grouping_strips_back, lemma_strip_unmarked, other_than, strip_marks,
};
use crate::text::push_char;

verus! {

/// The character of a decimal digit.
pub open spec fn digit_char(d: nat) -> char {
    if d == 0 {
        '0'
    } else if d == 1 {
        '1'
    } else if d == 2 {
        '2'
    } else if d == 3 {
        '3'
    } else if d == 4 {
        '4'
    } else if d == 5 {
        '5'
    } else if d == 6 {
        '6'
    } else if d == 7 {
        '7'
    } else if d == 8 {
        '8'
    } else {
        '9'
    }
}

/// Whether `c` is one of `0` to `9`.
pub open spec fn is_digit(c: char) -> bool {
    '0' <= c <= '9'
}

/// The decimal digits of `n`, most significant first, with zeros put in
/// front up to `width` characters; always at least one digit.
pub open spec fn decimal_digits(n: nat, width: nat) -> Seq<char>
    decreases n + width,
{
    if n < 10 && width <= 1 {
        seq![digit_char(n)]
    } else {
        let rest = if width > 0 {
            (width - 1) as nat
        } else {
            0
        };
        decimal_digits(n / 10, rest).push(digit_char(n % 10))
    }
}

/// `floor(log10(r))` for `r >= 1`: the number of fractional digits shown.
pub open spec fn decimal_count(r: int) -> nat
    decreases r,
{
    if r < 10 {
        0
    } else {
        1 + decimal_count(r / 10)
    }
}

/// Ten to the power `k`.
pub open spec fn pow10(k: nat) -> nat
    decreases k,
{
    if k == 0 {
        1
    } else {
        10 * pow10((k - 1) as nat)
    }
}

/// The absolute value of `q`.
pub open spec fn magnitude(q: int) -> nat {
    if q < 0 {
        (-q) as nat
    } else {
        q as nat
    }
}

/// The text of `q` minor units, at `ratio` minor units per major unit.
///
/// Layout: symbol, a `-` for a negative quantity, the whole major units in
/// groups of three separated by `group_mark`, then `decimal_mark` and the
/// minor units zero-padded to `decimal_count(ratio)` digits. With no
/// fractional digits (a ratio under ten) neither the mark nor the fraction
/// is shown. A ratio that is not positive gives the symbol followed by `NaN`.
pub open spec fn rendered(
    symbol: Seq<char>,
    ratio: int,
    decimal_mark: char,
    group_mark: char,
    q: int,
) -> Seq<char> {
    if ratio <= 0 {
        symbol + seq!['N', 'a', 'N']
    } else {
        let m = magnitude(q);
        let sign = if q < 0 {
            seq!['-']
        } else {
            Seq::<char>::empty()
        };
        let whole = grouped(decimal_digits(m / ratio as nat, 1), 3, group_mark);
        let dc = decimal_count(ratio);
        if dc == 0 {
            symbol + sign + whole
        } else {
            symbol + sign + whole + seq![decimal_mark] + decimal_digits(m % ratio as nat, dc)
        }
    }
}

fn digit(d: u64) -> (c: char)
    requires
        d < 10,
    ensures
        c == digit_char(d as nat),
{
    if d == 0 {
        '0'
    } else if d == 1 {
        '1'
    } else if d == 2 {
        '2'
    } else if d == 3 {
        '3'
    } else if d == 4 {
        '4'
    } else if d == 5 {
        '5'
    } else if d == 6 {
        '6'
    } else if d == 7 {
        '7'
    } else if d == 8 {
        '8'
    } else {
        '9'
    }
}

/// Appends the digits of `n`, zero-padded to `width` characters.
fn push_decimal(out: &mut String, n: u64, width: usize)
    ensures
        final(out)@ == old(out)@ + decimal_digits(n as nat, width as nat),
    decreases n + width,
{
    if n < 10 && width <= 1 {
        push_char(out, digit(n));
        assert(decimal_digits(n as nat, width as nat) == seq![digit_char(n as nat)]);
    } else {
        let rest: usize = if width > 0 {
            width - 1
        } else {
            0
        };
        push_decimal(out, n / 10, rest);
        push_char(out, digit(n % 10));
        assert(decimal_digits(n as nat, width as nat) == decimal_digits(
            (n / 10) as nat,
            rest as nat,
        ).push(digit_char((n % 10) as nat)));
    }
}

proof fn lemma_decimal_count_small(r: int)
    requires
        r >= 1,
    ensures
        decimal_count(r) <= r,
    decreases r,
{
    if r >= 10 {
        lemma_decimal_count_small(r / 10);
    }
}

fn count_decimals(ratio: i32) -> (r: usize)
    requires
        ratio > 0,
    ensures
        r == decimal_count(ratio as int),
{
    let mut rest: i32 = ratio;
    let mut count: usize = 0;
    proof {
        lemma_decimal_count_small(ratio as int);
    }
    while rest >= 10
        invariant
            rest > 0,
            count + decimal_count(rest as int) == decimal_count(ratio as int),
            decimal_count(ratio as int) <= ratio,
        decreases rest,
    {
        rest = rest / 10;
        count = count + 1;
    }
    count
}

fn magnitude_of(q: i64) -> (r: u64)
    ensures
        r == magnitude(q as int),
{
    if q < 0 {
        ((-(q + 1)) as u64) + 1
    } else {
        q as u64
    }
}

proof fn lemma_decimal_count_pow10(k: nat)
    ensures
        decimal_count(pow10(k) as int) == k,
    decreases k,
{
    if k > 0 {
        lemma_pow10_positive((k - 1) as nat);
        lemma_decimal_count_pow10((k - 1) as nat);
        assert(pow10(k) as int / 10 == pow10((k - 1) as nat));
    }
}

proof fn lemma_pow10_positive(k: nat)
    ensures
        pow10(k) >= 1,
    decreases k,
{
    if k > 0 {
        lemma_pow10_positive((k - 1) as nat);
    }
}

proof fn lemma_decimal_digits_shape(n: nat, w: nat)
    ensures
        decimal_digits(n, w).len() >= 1,
        decimal_digits(n, w).len() >= w,
        n < pow10(w) && w >= 1 ==> decimal_digits(n, w).len() == w,
        forall|i: int| 0 <= i < decimal_digits(n, w).len() ==> is_digit(#[trigger] decimal_digits(n, w)[i]),
        n == 0 ==> forall|i: int| 0 <= i < decimal_digits(n, w).len() ==> #[trigger] decimal_digits(n, w)[i] == '0',
    decreases n + w,
{
    if !(n < 10 && w <= 1) {
        let rest: nat = if w > 0 {
            (w - 1) as nat
        } else {
            0
        };
        lemma_decimal_digits_shape(n / 10, rest);
        if n < pow10(w) && w >= 1 {
            assert(n / 10 < pow10(rest));
        }
    }
}

/// With `10^k` minor units per major unit (`k >= 1`), the text of every amount
/// ends in the decimal mark followed by exactly `k` digits: the minor units
/// left over, zero-padded, so all zeros for a whole number of major units.
pub proof fn lemma_fraction_digits(a: Amount, k: nat)
    requires
        k >= 1,
        a.currency.minor_ratio == pow10(k),
    ensures
        ({
            let t = a.text();
            let n = t.len() as int;
            let ratio = a.currency.minor_ratio as int;
            let frac = magnitude(a.quantity as int) as int % ratio;
            &&& n > k
            &&& t[n - k - 1] == a.currency.decimal_mark
            &&& t.subrange(n - k, n) == decimal_digits(frac as nat, k)
            &&& forall|i: int| n - k <= i < n ==> is_digit(#[trigger] t[i])
            &&& frac == 0 ==> forall|i: int| n - k <= i < n ==> #[trigger] t[i] == '0'
        }),
{
    let t = a.text();
    let ratio = a.currency.minor_ratio as int;
    let m = magnitude(a.quantity as int);
    let frac = (m as int % ratio) as nat;
    lemma_decimal_count_pow10(k);
    lemma_decimal_digits_shape(frac, k);
    let sign = if a.quantity < 0 {
        seq!['-']
    } else {
        Seq::<char>::empty()
    };
    let whole = grouped(decimal_digits(m / ratio as nat, 1), 3, a.currency.group_mark);
    let head = a.currency.symbol@ + sign + whole;
    let tail = decimal_digits(frac, k);
    assert(t == head + seq![a.currency.decimal_mark] + tail);
    let n = t.len() as int;
    assert(t.subrange(n - k, n) == tail);
    assert forall|i: int| n - k <= i < n implies is_digit(#[trigger] t[i]) by {
        assert(t[i] == tail[i - (n - k)]);
    }
    assert forall|i: int| frac == 0 && n - k <= i < n implies #[trigger] t[i] == '0' by {
        assert(t[i] == tail[i - (n - k)]);
    }
}

/// Removing the group marks from the text of an amount leaves the whole major
/// units as their plain digits, and the rest of the text as it was; this holds
/// when the group mark occurs nowhere else (not in the symbol, not a digit, a
/// sign or the decimal mark).
pub proof fn lemma_text_without_group_marks(a: Amount)
    requires
        a.currency.minor_ratio > 0,
        !is_digit(a.currency.group_mark),
        a.currency.group_mark != '-',
        a.currency.group_mark != a.currency.decimal_mark,
        forall|i: int|
            0 <= i < a.currency.symbol@.len() ==> a.currency.symbol@[i] != a.currency.group_mark,
    ensures
        ({
            let ratio = a.currency.minor_ratio as int;
            let m = magnitude(a.quantity as int) as int;
            let sign = if a.quantity < 0 {
                seq!['-']
            } else {
                Seq::<char>::empty()
            };
            let plain = a.currency.symbol@ + sign + decimal_digits((m / ratio) as nat, 1);
            let dc = decimal_count(ratio);
            strip_marks(a.text(), a.currency.group_mark) == if dc == 0 {
                plain
            } else {
                plain + seq![a.currency.decimal_mark] + decimal_digits((m % ratio) as nat, dc)
            }
        }),
{
    let gm = a.currency.group_mark;
    let p = other_than(gm);
    let ratio = a.currency.minor_ratio as int;
    let m = magnitude(a.quantity as int) as int;
    let sign = if a.quantity < 0 {
        seq!['-']
    } else {
        Seq::<char>::empty()
    };
    let sym = a.currency.symbol@;
    let digits = decimal_digits((m / ratio) as nat, 1);
    let dc = decimal_count(ratio);
    let frac = decimal_digits((m % ratio) as nat, dc);
    let dot = seq![a.currency.decimal_mark];
    let whole = grouped(digits, 3, gm);
    lemma_decimal_digits_shape((m / ratio) as nat, 1);
    lemma_decimal_digits_shape((m % ratio) as nat, dc);
    lemma_strip_unmarked(sym, gm);
    lemma_strip_unmarked(sign, gm);
    lemma_strip_unmarked(dot, gm);
    lemma_strip_unmarked(frac, gm);
    lemma_grouping_strips_back(digits, 3, gm);
    Seq::filter_distributes_over_add(sym, sign, p);
    Seq::filter_distributes_over_add(sym + sign, whole, p);
    Seq::filter_distributes_over_add(sym + sign + whole, dot, p);
    Seq::filter_distributes_over_add(sym + sign + whole + dot, frac, p);
}

impl<'a> Amount<'a> {
    /// The text that `format` returns for this amount.
    pub open spec fn text(self) -> Seq<char> {
        rendered(
            self.currency.symbol@,
            self.currency.minor_ratio as int,
            self.currency.decimal_mark,
            self.currency.group_mark,
            self.quantity as int,
        )
    }

    /// Renders the amount: symbol first, grouped whole units, then the
    /// fraction after the decimal mark (see `rendered`).
    pub fn format(&self) -> (r: String)
        ensures
            r@ == self.text(),
    {
        let c = self.currency;
        let mut out = c.symbol.clone();
        if c.minor_ratio <= 0 {
            out.append("NaN");
            proof {
                reveal_strlit("NaN");
                assert("NaN"@ == seq!['N', 'a', 'N']);
            }
            return out;
        }
        let ratio = c.minor_ratio as u64;
        let dc = count_decimals(c.minor_ratio);
        let m = magnitude_of(self.quantity);
        if self.quantity < 0 {
            push_char(&mut out, '-');
        }
        let mut whole = String::new();
        push_decimal(&mut whole, m / ratio, 1);
        let g = group_digits(whole.as_str(), 3, c.group_mark);
        out.append(g.as_str());
        if dc > 0 {
            push_char(&mut out, c.decimal_mark);
            push_decimal(&mut out, m % ratio, dc);
        }
        out
    }
}

} // verus!
