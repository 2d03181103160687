//! What is written can be read back: an amount formatted in a locale parses
//! to the same amount there, and a date formatted in a locale parses to the
//! same day.

use vstd::prelude::*;

use crate::calendar::Date;
use crate::locale::{
    abs, cleaned_tag, currency_named, date_parts, grouped, group_threes, group_twos, nbsp,
    region_of, region_rules, rules_of_tag, without_separators, year_text, Currency, DateOrder,
    Grouping, Locale, RegionRules, SymbolPosition,
};
use crate::strings::{
    all_digits, decimal, digit, digits_value, drop_empty, find_char, is_digit, is_ws,
    lemma_decimal_digits, lemma_pow10_bounds, pow10, remove_all, split_on, starts_with, trim,
    trim_end, trim_start, zero_padded, zeros,
};

verus! {

// ------------------------------------------------------------------ digits

pub proof fn lemma_digits_value_append(a: Seq<char>, b: Seq<char>)
    ensures
        digits_value(a + b) == digits_value(a) * pow10(b.len()) + digits_value(b),
    decreases b.len(),
{
    if b.len() == 0 {
        assert(a + b =~= a);
        assert(pow10(0) == 1);
        assert(digits_value(b) == 0);
        assert(digits_value(a) * 1 == digits_value(a));
    } else {
        lemma_digits_value_append(a, b.drop_last());
        assert((a + b).drop_last() =~= a + b.drop_last());
        assert((a + b).last() == b.last());
        let x = digits_value(a);
        let y = digits_value(b.drop_last());
        let p = pow10(b.drop_last().len());
        let c = digit_value_of(b.last());
        assert(digits_value(a + b) == digits_value((a + b).drop_last()) * 10 + c);
        assert(digits_value(b) == y * 10 + c);
        assert(pow10(b.len()) == 10 * p);
        assert(digits_value(a + b) == (x * p + y) * 10 + c);
        assert((x * p + y) * 10 + c == x * (10 * p) + (y * 10 + c)) by (nonlinear_arith);
        assert(x * pow10(b.len()) == x * (10 * p));
    }
}

pub open spec fn digit_value_of(c: char) -> nat {
    crate::strings::digit_value(c)
}

pub proof fn lemma_zeros_value(n: nat)
    ensures
        digits_value(zeros(n)) == 0,
        all_digits(zeros(n)),
        zeros(n).len() == n,
    decreases n,
{
    if n > 0 {
        lemma_zeros_value((n - 1) as nat);
        assert(zeros(n).drop_last() =~= zeros((n - 1) as nat));
    }
}

/// A number below `10^w` has at most `w` digits.
pub proof fn lemma_decimal_len(n: nat, w: nat)
    requires
        w >= 1,
        n < pow10(w),
    ensures
        decimal(n).len() <= w,
    decreases n,
{
    if n >= 10 {
        assert(w >= 2) by {
            if w == 1 {
                assert(pow10(1) == 10) by {
                    reveal_with_fuel(pow10, 2);
                }
            }
        }
        assert(pow10(w) == 10 * pow10((w - 1) as nat));
        assert(n / 10 < pow10((w - 1) as nat));
        lemma_decimal_len(n / 10, (w - 1) as nat);
    }
}

/// `n` padded to `w` digits, for `n` below `10^w`: exactly `w` digits that
/// spell `n`.
pub proof fn lemma_zero_padded(n: nat, w: nat)
    requires
        w >= 1,
        n < pow10(w),
    ensures
        zero_padded(n, w).len() == w,
        all_digits(zero_padded(n, w)),
        digits_value(zero_padded(n, w)) == n,
{
    lemma_decimal_len(n, w);
    lemma_decimal_digits(n);
    let d = decimal(n);
    if d.len() < w {
        let z = Seq::new((w - d.len()) as nat, |i: int| '0');
        assert(z =~= zeros((w - d.len()) as nat));
        lemma_zeros_value((w - d.len()) as nat);
        lemma_digits_value_append(z, d);
        assert forall|i: int| 0 <= i < (z + d).len() implies is_digit(#[trigger] (z + d)[i]) by {
            if i >= z.len() {
                assert((z + d)[i] == d[i - z.len()]);
            }
        }
    }
}

// ------------------------------------------------------------------ separators

pub proof fn lemma_without_separators_append(a: Seq<char>, b: Seq<char>, sep: char)
    ensures
        without_separators(a + b, sep) == without_separators(a, sep) + without_separators(b, sep),
    decreases b.len(),
{
    if b.len() == 0 {
        assert(a + b =~= a);
        assert(without_separators(a, sep) + Seq::<char>::empty() =~= without_separators(a, sep));
    } else {
        lemma_without_separators_append(a, b.drop_last(), sep);
        assert((a + b).drop_last() =~= a + b.drop_last());
        assert((a + b).last() == b.last());
    }
}

/// Digits are kept whatever the separator, as long as it is not a digit.
pub proof fn lemma_without_separators_digits(d: Seq<char>, sep: char)
    requires
        all_digits(d),
        !is_digit(sep),
    ensures
        without_separators(d, sep) == d,
    decreases d.len(),
{
    if d.len() > 0 {
        assert(all_digits(d.drop_last())) by {
            assert forall|i: int| 0 <= i < d.drop_last().len() implies is_digit(#[trigger] d.drop_last()[i]) by {
                assert(d.drop_last()[i] == d[i]);
            }
        }
        lemma_without_separators_digits(d.drop_last(), sep);
        assert(is_digit(d[d.len() - 1]));
        assert(d.drop_last().push(d.last()) =~= d);
    }
}

pub proof fn lemma_digits_take_skip(d: Seq<char>, k: int)
    requires
        all_digits(d),
        0 <= k <= d.len(),
    ensures
        all_digits(d.take(k)),
        all_digits(d.skip(k)),
{
    assert forall|i: int| 0 <= i < d.take(k).len() implies is_digit(#[trigger] d.take(k)[i]) by {
        assert(d.take(k)[i] == d[i]);
    }
    assert forall|i: int| 0 <= i < d.skip(k).len() implies is_digit(#[trigger] d.skip(k)[i]) by {
        assert(d.skip(k)[i] == d[i + k]);
    }
}

pub proof fn lemma_ungroup_threes(d: Seq<char>, sep: char)
    requires
        all_digits(d),
        !is_digit(sep),
    ensures
        without_separators(group_threes(d, sep), sep) == d,
    decreases d.len(),
{
    if d.len() <= 3 {
        lemma_without_separators_digits(d, sep);
    } else {
        let head = d.take(d.len() - 3);
        let tail = d.skip(d.len() - 3);
        lemma_digits_take_skip(d, d.len() - 3);
        lemma_ungroup_threes(head, sep);
        lemma_without_separators_append(group_threes(head, sep).push(sep), tail, sep);
        lemma_without_separators_digits(tail, sep);
        assert(group_threes(head, sep).push(sep).drop_last() =~= group_threes(head, sep));
        assert(head + tail =~= d);
    }
}

pub proof fn lemma_ungroup_twos(d: Seq<char>, sep: char)
    requires
        all_digits(d),
        !is_digit(sep),
    ensures
        without_separators(group_twos(d, sep), sep) == d,
    decreases d.len(),
{
    if d.len() <= 2 {
        lemma_without_separators_digits(d, sep);
    } else {
        let head = d.take(d.len() - 2);
        let tail = d.skip(d.len() - 2);
        lemma_digits_take_skip(d, d.len() - 2);
        lemma_ungroup_twos(head, sep);
        lemma_without_separators_append(group_twos(head, sep).push(sep), tail, sep);
        lemma_without_separators_digits(tail, sep);
        assert(group_twos(head, sep).push(sep).drop_last() =~= group_twos(head, sep));
        assert(head + tail =~= d);
    }
}

/// Dropping the group separators from grouped digits gives the digits back.
pub proof fn lemma_ungroup(d: Seq<char>, sep: char, g: Grouping)
    requires
        all_digits(d),
        !is_digit(sep),
    ensures
        without_separators(grouped(d, sep, g), sep) == d,
{
    match g {
        Grouping::Western => lemma_ungroup_threes(d, sep),
        Grouping::Indian => {
            if d.len() <= 3 {
                lemma_without_separators_digits(d, sep);
            } else {
                let head = d.take(d.len() - 3);
                let tail = d.skip(d.len() - 3);
                lemma_digits_take_skip(d, d.len() - 3);
                lemma_ungroup_twos(head, sep);
                lemma_without_separators_append(group_twos(head, sep).push(sep), tail, sep);
                lemma_without_separators_digits(tail, sep);
                assert(group_twos(head, sep).push(sep).drop_last() =~= group_twos(head, sep));
                assert(head + tail =~= d);
            }
        },
    }
}

pub proof fn lemma_threes_chars(d: Seq<char>, sep: char)
    requires
        all_digits(d),
    ensures
        forall|k: int| 0 <= k < group_threes(d, sep).len() ==> is_digit(#[trigger] group_threes(d, sep)[k])
            || group_threes(d, sep)[k] == sep,
    decreases d.len(),
{
    if d.len() > 3 {
        let head = d.take(d.len() - 3);
        let tail = d.skip(d.len() - 3);
        lemma_digits_take_skip(d, d.len() - 3);
        lemma_threes_chars(head, sep);
        let h = group_threes(head, sep);
        let t = h.push(sep) + tail;
        assert forall|k: int| 0 <= k < t.len() implies is_digit(#[trigger] t[k]) || t[k] == sep by {
            if k < h.len() {
                assert(t[k] == h[k]);
            } else if k > h.len() {
                assert(t[k] == tail[k - h.len() - 1]);
            }
        }
    }
}

pub proof fn lemma_twos_chars(d: Seq<char>, sep: char)
    requires
        all_digits(d),
    ensures
        forall|k: int| 0 <= k < group_twos(d, sep).len() ==> is_digit(#[trigger] group_twos(d, sep)[k])
            || group_twos(d, sep)[k] == sep,
    decreases d.len(),
{
    if d.len() > 2 {
        let head = d.take(d.len() - 2);
        let tail = d.skip(d.len() - 2);
        lemma_digits_take_skip(d, d.len() - 2);
        lemma_twos_chars(head, sep);
        let h = group_twos(head, sep);
        let t = h.push(sep) + tail;
        assert forall|k: int| 0 <= k < t.len() implies is_digit(#[trigger] t[k]) || t[k] == sep by {
            if k < h.len() {
                assert(t[k] == h[k]);
            } else if k > h.len() {
                assert(t[k] == tail[k - h.len() - 1]);
            }
        }
    }
}

/// Grouped digits hold only digits and the separator.
pub proof fn lemma_grouped_chars(d: Seq<char>, sep: char, g: Grouping, c: char)
    requires
        all_digits(d),
        !is_digit(c),
        c != sep,
    ensures
        !grouped(d, sep, g).contains(c),
{
    let gr = grouped(d, sep, g);
    match g {
        Grouping::Western => lemma_threes_chars(d, sep),
        Grouping::Indian => {
            if d.len() > 3 {
                let head = d.take(d.len() - 3);
                let tail = d.skip(d.len() - 3);
                lemma_digits_take_skip(d, d.len() - 3);
                lemma_twos_chars(head, sep);
                let h = group_twos(head, sep);
                assert forall|k: int| 0 <= k < gr.len() implies is_digit(#[trigger] gr[k]) || gr[k] == sep by {
                    if k < h.len() {
                        assert(gr[k] == h[k]);
                    } else if k > h.len() {
                        assert(gr[k] == tail[k - h.len() - 1]);
                    }
                }
            }
        },
    }
    if gr.contains(c) {
        let k = choose|k: int| 0 <= k < gr.len() && gr[k] == c;
        assert(is_digit(gr[k]) || gr[k] == sep);
    }
}

// ------------------------------------------------------------------ removal

/// Text that never shows the first character of `p` has nothing of `p` to
/// remove.
pub proof fn lemma_remove_absent(s: Seq<char>, p: Seq<char>)
    requires
        p.len() > 0,
        !s.contains(p[0]),
    ensures
        remove_all(s, p) == s,
    decreases s.len(),
{
    if s.len() > 0 {
        assert(!starts_with(s, p)) by {
            if starts_with(s, p) {
                assert(s.take(p.len() as int)[0] == p[0]);
                assert(s[0] == p[0]);
            }
        }
        assert(!s.drop_first().contains(p[0])) by {
            if s.drop_first().contains(p[0]) {
                let k = choose|k: int| 0 <= k < s.drop_first().len() && s.drop_first()[k] == p[0];
                assert(s[k + 1] == p[0]);
            }
        }
        lemma_remove_absent(s.drop_first(), p);
        assert(seq![s[0]] + s.drop_first() =~= s);
    }
}

pub proof fn lemma_remove_after(a: Seq<char>, b: Seq<char>, p: Seq<char>)
    requires
        p.len() > 0,
        !a.contains(p[0]),
    ensures
        remove_all(a + b, p) == a + remove_all(b, p),
    decreases a.len(),
{
    if a.len() == 0 {
        assert(a + b =~= b);
    } else {
        let s = a + b;
        assert(!starts_with(s, p)) by {
            if starts_with(s, p) {
                assert(s.take(p.len() as int)[0] == p[0]);
                assert(s[0] == a[0]);
            }
        }
        assert(!a.drop_first().contains(p[0])) by {
            if a.drop_first().contains(p[0]) {
                let k = choose|k: int| 0 <= k < a.drop_first().len() && a.drop_first()[k] == p[0];
                assert(a[k + 1] == p[0]);
            }
        }
        lemma_remove_after(a.drop_first(), b, p);
        assert(s.drop_first() =~= a.drop_first() + b);
        assert(seq![a[0]] + (a.drop_first() + remove_all(b, p)) =~= a + remove_all(b, p));
    }
}

pub proof fn lemma_remove_leading(p: Seq<char>, b: Seq<char>)
    requires
        p.len() > 0,
    ensures
        remove_all(p + b, p) == remove_all(b, p),
{
    let s = p + b;
    assert(s.take(p.len() as int) =~= p);
    assert(s.skip(p.len() as int) =~= b);
}

// ------------------------------------------------------------------ money

/// What the money round trip needs of a locale: a symbol and a code that
/// start with something that cannot be part of a written amount, and
/// separators that cannot be mistaken for digits or for each other.
pub open spec fn reads_back(l: &Locale) -> bool {
    let sym = l.currency.symbol@;
    let code = l.currency.code@;
    let foreign = |c: char| !is_digit(c) && c != l.group_sep && c != l.decimal_sep && !is_ws(c);
    &&& l.wf()
    &&& sym.len() > 0
    &&& code.len() > 0
    &&& foreign(sym[0])
    &&& foreign(code[0])
    &&& !is_ws(sym.last())
    &&& !is_digit(l.decimal_sep)
    &&& !is_ws(l.decimal_sep)
    &&& !is_digit(l.group_sep)
    &&& l.decimal_sep != l.group_sep
}

/// The characters of a formatted amount, sign, symbol and space aside.
pub proof fn lemma_digits_text(l: &Locale, m: nat)
    requires
        reads_back(l),
    ensures
        ({
            let scale = pow10(l.currency.decimals as nat);
            let whole = decimal(m / scale);
            let body = if l.currency.decimals > 0 {
                whole.push(l.decimal_sep) + zero_padded(m % scale, l.currency.decimals as nat)
            } else {
                whole
            };
            without_separators(l.digits_text(m), l.group_sep) == body
        }),
        forall|c: char|
            !is_digit(c) && c != l.group_sep && c != l.decimal_sep ==> !(#[trigger] l.digits_text(m).contains(c)),
        l.digits_text(m).len() > 0,
        is_digit(l.digits_text(m)[0]),
        is_digit(l.digits_text(m).last()),
{
    let d = l.currency.decimals as nat;
    let scale = pow10(d);
    lemma_pow10_bounds(d);
    let whole = decimal(m / scale);
    lemma_decimal_digits(m / scale);
    let g = grouped(whole, l.group_sep, l.grouping);
    lemma_ungroup(whole, l.group_sep, l.grouping);
    lemma_grouped_first_last(whole, l.group_sep, l.grouping);
    assert forall|c: char| !is_digit(c) && c != l.group_sep && c != l.decimal_sep implies !(
    #[trigger] l.digits_text(m).contains(c)) by {
        lemma_grouped_chars(whole, l.group_sep, l.grouping, c);
        if d > 0 {
            let zp = zero_padded(m % scale, d);
            assert(m % scale < scale);
            lemma_zero_padded(m % scale, d);
            let t = g.push(l.decimal_sep) + zp;
            if t.contains(c) {
                let k = choose|k: int| 0 <= k < t.len() && t[k] == c;
                if k < g.len() {
                    assert(g[k] == c);
                } else if k > g.len() {
                    assert(zp[k - g.len() - 1] == c);
                }
            }
        }
    }
    if d > 0 {
        let zp = zero_padded(m % scale, d);
        assert(m % scale < scale);
        lemma_zero_padded(m % scale, d);
        lemma_without_separators_append(g.push(l.decimal_sep), zp, l.group_sep);
        lemma_without_separators_digits(zp, l.group_sep);
        assert(g.push(l.decimal_sep).drop_last() =~= g);
        assert((g.push(l.decimal_sep) + zp)[0] == g[0]);
        assert((g.push(l.decimal_sep) + zp).last() == zp.last());
        assert(is_digit(zp[zp.len() - 1]));
    }
}

/// Grouped digits start and end with a digit.
pub proof fn lemma_grouped_first_last(d: Seq<char>, sep: char, g: Grouping)
    requires
        all_digits(d),
        d.len() > 0,
    ensures
        grouped(d, sep, g).len() > 0,
        is_digit(grouped(d, sep, g)[0]),
        is_digit(grouped(d, sep, g).last()),
{
    match g {
        Grouping::Western => lemma_threes_first_last(d, sep),
        Grouping::Indian => {
            if d.len() > 3 {
                let head = d.take(d.len() - 3);
                lemma_digits_take_skip(d, d.len() - 3);
                lemma_twos_first_last(head, sep);
                let t = group_twos(head, sep).push(sep) + d.skip(d.len() - 3);
                assert(t[0] == group_twos(head, sep)[0]);
                assert(t.last() == d.last());
            }
        },
    }
}

pub proof fn lemma_threes_first_last(d: Seq<char>, sep: char)
    requires
        all_digits(d),
        d.len() > 0,
    ensures
        group_threes(d, sep).len() > 0,
        is_digit(group_threes(d, sep)[0]),
        is_digit(group_threes(d, sep).last()),
    decreases d.len(),
{
    if d.len() > 3 {
        let head = d.take(d.len() - 3);
        lemma_digits_take_skip(d, d.len() - 3);
        lemma_threes_first_last(head, sep);
        let t = group_threes(head, sep).push(sep) + d.skip(d.len() - 3);
        assert(t[0] == group_threes(head, sep)[0]);
        assert(t.last() == d.last());
    }
}

pub proof fn lemma_twos_first_last(d: Seq<char>, sep: char)
    requires
        all_digits(d),
        d.len() > 0,
    ensures
        group_twos(d, sep).len() > 0,
        is_digit(group_twos(d, sep)[0]),
        is_digit(group_twos(d, sep).last()),
    decreases d.len(),
{
    if d.len() > 2 {
        let head = d.take(d.len() - 2);
        lemma_digits_take_skip(d, d.len() - 2);
        lemma_twos_first_last(head, sep);
        let t = group_twos(head, sep).push(sep) + d.skip(d.len() - 2);
        assert(t[0] == group_twos(head, sep)[0]);
        assert(t.last() == d.last());
    }
}

pub proof fn lemma_trim_none(s: Seq<char>)
    requires
        s.len() > 0,
        !is_ws(s[0]),
        !is_ws(s.last()),
    ensures
        trim(s) == s,
{
    assert(trim_start(s) == s);
    assert(trim_end(s) == s);
}

/// The number a formatted amount leaves once its symbol, code, spaces and
/// group separators are gone: the whole units, and the decimal separator
/// and the minor units when the currency has them.
pub open spec fn written_body(l: &Locale, m: nat) -> Seq<char> {
    let scale = pow10(l.currency.decimals as nat);
    let whole = decimal(m / scale);
    if l.currency.decimals > 0 {
        whole.push(l.decimal_sep) + zero_padded(m % scale, l.currency.decimals as nat)
    } else {
        whole
    }
}

/// Taking the symbol, code and separators out of a formatted amount leaves
/// its written body.
#[verifier::spinoff_prover]
#[verifier::rlimit(40)]
pub proof fn lemma_money_body(l: &Locale, m: int)
    requires
        reads_back(l),
        0 < m,
    ensures
        trim(l.money_text(m)).len() > 0,
        l.money_body(trim(l.money_text(m))) == written_body(l, m as nat),
{
    let mn = m as nat;
    let dt = l.digits_text(mn);
    lemma_digits_text(l, mn);
    let sym = l.currency.symbol@;
    let code = l.currency.code@;
    let space = if l.symbol_space {
        seq![nbsp()]
    } else {
        Seq::<char>::empty()
    };
    assert(abs(m) == mn);
    let text = l.money_text(m);
    assert(!dt.contains(sym[0]));
    assert(!dt.contains(code[0]));
    assert(!space.contains(sym[0]) && !space.contains(code[0])) by {
        if l.symbol_space {
            assert(is_ws(nbsp()));
            if space.contains(sym[0]) {
                assert(space[0] == sym[0]);
            }
            if space.contains(code[0]) {
                assert(space[0] == code[0]);
            }
        }
    }
    let kept = match l.symbol_position {
        SymbolPosition::Prefix => space + dt,
        SymbolPosition::Suffix => dt + space,
    };
    assert(!kept.contains(sym[0]) && !kept.contains(code[0])) by {
        if kept.contains(sym[0]) || kept.contains(code[0]) {
            let c = if kept.contains(sym[0]) {
                sym[0]
            } else {
                code[0]
            };
            let k = choose|k: int| 0 <= k < kept.len() && kept[k] == c;
            match l.symbol_position {
                SymbolPosition::Prefix => {
                    if k < space.len() {
                        assert(space[k] == c);
                        assert(space.contains(c));
                    } else {
                        assert(dt[k - space.len()] == c);
                        assert(dt.contains(c));
                    }
                },
                SymbolPosition::Suffix => {
                    if k < dt.len() {
                        assert(dt[k] == c);
                        assert(dt.contains(c));
                    } else {
                        assert(space[k - dt.len()] == c);
                        assert(space.contains(c));
                    }
                },
            }
        }
    }
    let t = trim(text);
    match l.symbol_position {
        SymbolPosition::Prefix => {
            assert(text =~= sym + kept);
            lemma_trim_none(text);
            lemma_remove_leading(sym, kept);
            lemma_remove_absent(kept, sym);
        },
        SymbolPosition::Suffix => {
            assert(text =~= kept + sym);
            assert(text[0] == dt[0]);
            lemma_trim_none(text);
            lemma_remove_after(kept, sym, sym);
            lemma_remove_leading(sym, Seq::<char>::empty());
            assert(sym + Seq::<char>::empty() =~= sym);
            assert(remove_all(Seq::<char>::empty(), sym) =~= Seq::<char>::empty());
            assert(kept + Seq::<char>::empty() =~= kept);
        },
    }
    assert(remove_all(t, sym) == kept);
    lemma_remove_absent(kept, code);
    assert(without_separators(space, l.group_sep) =~= Seq::<char>::empty()) by {
        if l.symbol_space {
            assert(is_ws(nbsp()));
            assert(space.drop_last() =~= Seq::<char>::empty());
            assert(without_separators(space, l.group_sep) == without_separators(space.drop_last(), l.group_sep));
        }
    }
    match l.symbol_position {
        SymbolPosition::Prefix => {
            lemma_without_separators_append(space, dt, l.group_sep);
            assert(Seq::<char>::empty() + without_separators(dt, l.group_sep) =~= without_separators(dt, l.group_sep));
        },
        SymbolPosition::Suffix => {
            lemma_without_separators_append(dt, space, l.group_sep);
            assert(without_separators(dt, l.group_sep) + Seq::<char>::empty() =~= without_separators(dt, l.group_sep));
        },
    }
}

/// The written body of an amount above zero reads as that amount.
pub proof fn lemma_body_reads(l: &Locale, mn: nat)
    requires
        reads_back(l),
        0 < mn <= i64::MAX,
    ensures
        l.body_value(written_body(l, mn)) == Ok::<int, crate::locale::MoneyError>(mn as int),
{
    let d = l.currency.decimals as nat;
    let scale = pow10(d);
    lemma_pow10_bounds(d);
    let whole = decimal(mn / scale);
    lemma_decimal_digits(mn / scale);
    let s = written_body(l, mn);
    assert(s[0] == whole[0]);
    assert(!whole.contains(l.decimal_sep)) by {
        if whole.contains(l.decimal_sep) {
            let k = choose|k: int| 0 <= k < whole.len() && whole[k] == l.decimal_sep;
            assert(is_digit(whole[k]));
        }
    }
    crate::strings::lemma_find_char(s, l.decimal_sep);
    assert(mn == (mn / scale) * scale + mn % scale) by (nonlinear_arith)
        requires
            scale >= 1,
    ;
    assert((mn / scale) <= mn) by (nonlinear_arith)
        requires
            scale >= 1,
    ;
    lemma_zeros_value(0);
    if d > 0 {
        let zp = zero_padded(mn % scale, d);
        assert(mn % scale < scale) by (nonlinear_arith)
            requires
                scale >= 1,
        ;
        lemma_zero_padded(mn % scale, d);
        assert(s =~= whole.push(l.decimal_sep) + zp);
        assert(s[whole.len() as int] == l.decimal_sep);
        match find_char(s, l.decimal_sep) {
            Some(i) => {
                if i < whole.len() {
                    assert(s[i as int] == whole[i as int]);
                }
                assert(i == whole.len());
            },
            None => {
                assert(false);
            },
        }
        assert(s.take(whole.len() as int) =~= whole);
        assert(s.skip(whole.len() as int + 1) =~= zp);
        assert(zp + zeros(0) =~= zp);
    } else {
        assert(scale == 1);
        match find_char(s, l.decimal_sep) {
            Some(i) => {
                assert(whole[i as int] == l.decimal_sep);
                assert(whole.contains(l.decimal_sep));
            },
            None => {},
        }
        assert(Seq::<char>::empty() + zeros(0) =~= Seq::<char>::empty());
    }
}

/// Money reads back: in a locale that [`reads_back`], the text an amount
/// formats to parses to the same amount, for every amount above zero that
/// fits in an `i64`.
pub proof fn money_round_trips_through_parsing(l: &Locale, m: int)
    requires
        reads_back(l),
        0 < m <= i64::MAX,
    ensures
        l.money_value(l.money_text(m)) == Ok::<int, crate::locale::MoneyError>(m),
{
    lemma_money_body(l, m);
    lemma_body_reads(l, m as nat);
}

/// What reading a minus sign back needs of a locale, beyond [`reads_back`]:
/// neither the symbol nor the code starts with one, and it is not the
/// group separator.
pub open spec fn reads_signs_back(l: &Locale) -> bool {
    &&& reads_back(l)
    &&& l.currency.symbol@[0] != '-'
    &&& l.currency.code@[0] != '-'
    &&& l.group_sep != '-'
}

/// A minus sign in front of a number's body negates what it reads as.
pub proof fn lemma_negated_body(l: &Locale, b: Seq<char>, v: int)
    requires
        b.len() > 0,
        is_digit(b[0]),
        l.body_value(b) == Ok::<int, crate::locale::MoneyError>(v),
        v > 0,
    ensures
        l.body_value(seq!['-'] + b) == Ok::<int, crate::locale::MoneyError>(-v),
{
    let s = seq!['-'] + b;
    assert(s[0] == '-');
    assert(s.drop_first() =~= b);
}

/// A minus sign in front of text whose symbol, code and separators come out
/// to `body` stays in front once they are taken out.
pub proof fn lemma_signed_money_body(l: &Locale, t: Seq<char>)
    requires
        reads_signs_back(l),
        t.len() > 0,
        !is_ws(t.last()),
    ensures
        trim(seq!['-'] + t) == seq!['-'] + t,
        l.money_body(seq!['-'] + t) == seq!['-'] + l.money_body(t),
{
    let minus = seq!['-'];
    let sym = l.currency.symbol@;
    let code = l.currency.code@;
    let s = minus + t;
    assert(s[0] == '-');
    assert(s.last() == t.last());
    lemma_trim_none(s);
    assert(!minus.contains(sym[0])) by {
        if minus.contains(sym[0]) {
            assert(minus[0] == sym[0]);
        }
    }
    assert(!minus.contains(code[0])) by {
        if minus.contains(code[0]) {
            assert(minus[0] == code[0]);
        }
    }
    lemma_remove_after(minus, t, sym);
    lemma_remove_after(minus, remove_all(t, sym), code);
    let rest = remove_all(remove_all(t, sym), code);
    lemma_without_separators_append(minus, rest, l.group_sep);
    assert(minus.drop_last() =~= Seq::<char>::empty());
    assert(without_separators(minus, l.group_sep) == without_separators(Seq::<char>::empty(), l.group_sep).push('-'));
    assert(without_separators(minus, l.group_sep) =~= minus);
}

/// The written body of an amount starts with a digit.
pub proof fn lemma_written_body_first(l: &Locale, m: nat)
    requires
        reads_back(l),
    ensures
        written_body(l, m).len() > 0,
        is_digit(written_body(l, m)[0]),
{
    let scale = pow10(l.currency.decimals as nat);
    lemma_pow10_bounds(l.currency.decimals as nat);
    lemma_decimal_digits(m / scale);
}

/// Refunds read back too: in a locale that [`reads_signs_back`], the text a
/// negative amount formats to parses to the same amount, for every amount
/// whose size fits in an `i64`.
#[verifier::spinoff_prover]
pub proof fn refunds_round_trip_through_parsing(l: &Locale, m: int)
    requires
        reads_signs_back(l),
        0 < m <= i64::MAX,
    ensures
        l.money_value(l.money_text(-m)) == Ok::<int, crate::locale::MoneyError>(-m),
{
    let t = l.money_text(m);
    assert(abs(-m) == abs(m));
    assert(l.money_text(-m) =~= seq!['-'] + t);
    lemma_money_body(l, m);
    lemma_digits_text(l, m as nat);
    let dt = l.digits_text(m as nat);
    assert(t.len() > 0 && !is_ws(t.last()) && !is_ws(t[0])) by {
        match l.symbol_position {
            SymbolPosition::Prefix => {
                assert(t.last() == dt.last());
                assert(t[0] == l.currency.symbol@[0]);
            },
            SymbolPosition::Suffix => {
                assert(t[0] == dt[0]);
                assert(t.last() == l.currency.symbol@.last());
            },
        }
    }
    lemma_trim_none(t);
    lemma_signed_money_body(l, t);
    lemma_body_reads(l, m as nat);
    lemma_written_body_first(l, m as nat);
    lemma_negated_body(l, written_body(l, m as nat), m);
}

/// Taking the symbol, code and separators out of an amount's digits leaves
/// its written body.
pub proof fn lemma_digits_body(l: &Locale, m: nat)
    requires
        reads_back(l),
    ensures
        trim(l.digits_text(m)) == l.digits_text(m),
        l.money_body(l.digits_text(m)) == written_body(l, m),
        l.digits_text(m).len() > 0,
        !is_ws(l.digits_text(m).last()),
{
    lemma_digits_text(l, m);
    let dt = l.digits_text(m);
    let sym = l.currency.symbol@;
    let code = l.currency.code@;
    lemma_trim_none(dt);
    assert(!dt.contains(sym[0]));
    assert(!dt.contains(code[0]));
    lemma_remove_absent(dt, sym);
    lemma_remove_absent(dt, code);
}

/// An amount shown in an edit form reads back: in a locale that
/// [`reads_back`] (and [`reads_signs_back`] for a refund), the amount
/// field's text for an entry parses to the entry's amount, for every amount
/// other than zero whose size fits in an `i64`.
pub proof fn an_amount_field_reads_back(l: &Locale, m: int)
    requires
        reads_back(l),
        m < 0 ==> reads_signs_back(l),
        m != 0,
        abs(m) <= i64::MAX,
    ensures
        l.money_value(crate::ui::amount_field_text(l, m)) == Ok::<int, crate::locale::MoneyError>(m),
{
    let mn = abs(m);
    let dt = l.digits_text(mn);
    lemma_digits_body(l, mn);
    lemma_body_reads(l, mn);
    if m > 0 {
        assert(crate::ui::amount_field_text(l, m) =~= dt);
    } else {
        assert(crate::ui::amount_field_text(l, m) =~= seq!['-'] + dt);
        lemma_signed_money_body(l, dt);
        lemma_written_body_first(l, mn);
        lemma_negated_body(l, written_body(l, mn), mn as int);
    }
}

// ------------------------------------------------------------------ dates

/// What the date round trip needs of a locale: a separator the date reader
/// splits on.
pub open spec fn reads_dates_back(l: &Locale) -> bool {
    l.date_sep == '/' || l.date_sep == '.' || l.date_sep == '-' || l.date_sep == ' '
}

pub open spec fn date_seps() -> Seq<char> {
    seq!['/', '.', '-', ' ']
}

pub proof fn lemma_split_plain(a: Seq<char>, seps: Seq<char>)
    requires
        forall|i: int| 0 <= i < a.len() ==> !seps.contains(#[trigger] a[i]),
    ensures
        split_on(a, seps) == seq![a],
    decreases a.len(),
{
    if a.len() == 0 {
        assert(a =~= Seq::<char>::empty());
        assert(seq![a] =~= seq![Seq::<char>::empty()]);
    } else {
        lemma_split_plain(a.drop_last(), seps);
        assert(!seps.contains(a[a.len() - 1]));
        assert(a.drop_last().push(a.last()) =~= a);
        assert(seq![a.drop_last()].update(0, a.drop_last().push(a.last())) =~= seq![a]);
        assert(!seps.contains(a.last()));
        assert(split_on(a, seps) == split_on(a.drop_last(), seps).update(0, a.drop_last().push(a.last())));
    }
}

pub proof fn lemma_split_join(a: Seq<char>, sep: char, b: Seq<char>, seps: Seq<char>)
    requires
        seps.contains(sep),
    ensures
        split_on(a + seq![sep] + b, seps) == split_on(a, seps) + split_on(b, seps),
    decreases b.len(),
{
    let s = a + seq![sep] + b;
    if b.len() == 0 {
        assert(s.drop_last() =~= a);
        assert(s.last() == sep);
        crate::strings::lemma_split_on_nonempty(a, seps);
        assert(split_on(a, seps) + seq![Seq::<char>::empty()] =~= split_on(a, seps).push(Seq::<char>::empty()));
    } else {
        lemma_split_join(a, sep, b.drop_last(), seps);
        assert(s.drop_last() =~= a + seq![sep] + b.drop_last());
        assert(s.last() == b.last());
        crate::strings::lemma_split_on_nonempty(b.drop_last(), seps);
        let x = split_on(a, seps);
        let y = split_on(b.drop_last(), seps);
        if seps.contains(b.last()) {
            assert((x + y).push(Seq::<char>::empty()) =~= x + y.push(Seq::<char>::empty()));
        } else {
            assert((x + y).update((x + y).len() - 1, (x + y).last().push(b.last())) =~= x + y.update(
                y.len() - 1,
                y.last().push(b.last()),
            ));
        }
    }
}

pub proof fn lemma_padded_plain(n: nat, w: nat)
    requires
        w >= 1,
        n < pow10(w),
    ensures
        forall|i: int| 0 <= i < zero_padded(n, w).len() ==> !date_seps().contains(#[trigger] zero_padded(n, w)[i]),
{
    lemma_zero_padded(n, w);
    assert forall|i: int| 0 <= i < zero_padded(n, w).len() implies !date_seps().contains(
        #[trigger] zero_padded(n, w)[i],
    ) by {
        assert(is_digit(zero_padded(n, w)[i]));
        if date_seps().contains(zero_padded(n, w)[i]) {
            let k = choose|k: int| 0 <= k < 4 && date_seps()[k] == zero_padded(n, w)[i];
        }
    }
}

/// Dates read back: in a locale whose separator the date reader splits on,
/// a real day with a four-digit year, written out, reads as the same day.
pub proof fn dates_round_trip_through_parsing(l: &Locale, date: Date)
    requires
        reads_dates_back(l),
        date.valid(),
        1000 <= date.year <= 9999,
    ensures
        l.date_value(l.date_text(date)) == Ok::<Date, crate::locale::DateError>(date),
{
    let sep = l.date_sep;
    let seps = date_seps();
    assert(seps.contains(sep)) by {
        if sep == '/' {
            assert(seps[0] == sep);
        } else if sep == '.' {
            assert(seps[1] == sep);
        } else if sep == '-' {
            assert(seps[2] == sep);
        } else {
            assert(seps[3] == sep);
        }
    }
    assert(pow10(2) == 100 && pow10(4) == 10000) by {
        reveal_with_fuel(pow10, 5);
    }
    let dd = zero_padded(date.day as nat, 2);
    let mm = zero_padded(date.month as nat, 2);
    let yy = year_text(date.year as int);
    assert(yy == zero_padded(date.year as nat, 4));
    lemma_zero_padded(date.day as nat, 2);
    lemma_zero_padded(date.month as nat, 2);
    lemma_zero_padded(date.year as nat, 4);
    lemma_padded_plain(date.day as nat, 2);
    lemma_padded_plain(date.month as nat, 2);
    lemma_padded_plain(date.year as nat, 4);
    lemma_split_plain(dd, seps);
    lemma_split_plain(mm, seps);
    lemma_split_plain(yy, seps);
    let (p0, p1, p2) = match l.date_order {
        DateOrder::Dmy => (dd, mm, yy),
        DateOrder::Mdy => (mm, dd, yy),
        DateOrder::Ymd => (yy, mm, dd),
    };
    let text = l.date_text(date);
    assert(text =~= p0 + seq![sep] + (p1 + seq![sep] + p2));
    lemma_split_join(p1, sep, p2, seps);
    lemma_split_join(p0, sep, p1 + seq![sep] + p2, seps);
    assert(text[0] == p0[0]);
    assert(text.last() == p2.last());
    assert(is_digit(p0[0]) && is_digit(p2[p2.len() - 1]));
    lemma_trim_none(text);
    let pieces = split_on(text, seps);
    assert(pieces =~= seq![p0, p1, p2]);
    assert(drop_empty(pieces) =~= seq![p0, p1, p2]) by {
        assert(pieces.drop_last() =~= seq![p0, p1]);
        assert(pieces.drop_last().drop_last() =~= seq![p0]);
        assert(pieces.drop_last().drop_last().drop_last() =~= Seq::<Seq<char>>::empty());
        reveal_with_fuel(drop_empty, 4);
    }
    assert(date_parts(text) == seq![p0, p1, p2]);
}

// ------------------------------------------------------------------ tags

/// A character that cannot be read as part of a number in any locale of the
/// region table: not a digit, a minus sign, whitespace or a separator.
pub open spec fn sets_off(c: char) -> bool {
    &&& !is_digit(c)
    &&& !is_ws(c)
    &&& c != '-'
    &&& c != '.'
    &&& c != ','
    &&& c != '\u{2019}'
}

/// A currency whose symbol and code both start with a character that
/// [`sets_off`], whose symbol does not end in whitespace, and whose decimal
/// count is small.
pub open spec fn well_marked(c: Currency) -> bool {
    &&& c.symbol@.len() > 0
    &&& c.code@.len() > 0
    &&& sets_off(c.symbol@[0])
    &&& sets_off(c.code@[0])
    &&& !is_ws(c.symbol@.last())
    &&& c.decimals <= 18
}

/// Every currency of the table, and the generic one, is [`well_marked`].
#[verifier::spinoff_prover]
pub proof fn lemma_currencies_well_marked(code: Seq<char>)
    ensures
        well_marked(currency_named(code)),
{
    if code == "GBP"@ {
        reveal_strlit("GBP");
        reveal_strlit("£");
    } else if code == "EUR"@ {
        reveal_strlit("EUR");
        reveal_strlit("€");
    } else if code == "USD"@ {
        reveal_strlit("USD");
        reveal_strlit("$");
    } else if code == "CAD"@ {
        reveal_strlit("CAD");
        reveal_strlit("$");
    } else if code == "AUD"@ {
        reveal_strlit("AUD");
        reveal_strlit("$");
    } else if code == "NZD"@ {
        reveal_strlit("NZD");
        reveal_strlit("$");
    } else if code == "CHF"@ {
        reveal_strlit("CHF");
    } else if code == "SEK"@ {
        reveal_strlit("SEK");
        reveal_strlit("kr");
    } else if code == "NOK"@ {
        reveal_strlit("NOK");
        reveal_strlit("kr");
    } else if code == "DKK"@ {
        reveal_strlit("DKK");
        reveal_strlit("kr");
    } else if code == "ISK"@ {
        reveal_strlit("ISK");
        reveal_strlit("kr");
    } else if code == "PLN"@ {
        reveal_strlit("PLN");
        reveal_strlit("zł");
    } else if code == "CZK"@ {
        reveal_strlit("CZK");
        reveal_strlit("Kč");
    } else if code == "HUF"@ {
        reveal_strlit("HUF");
        reveal_strlit("Ft");
    } else if code == "RON"@ {
        reveal_strlit("RON");
        reveal_strlit("lei");
    } else if code == "BGN"@ {
        reveal_strlit("BGN");
        reveal_strlit("лв.");
    } else if code == "RUB"@ {
        reveal_strlit("RUB");
        reveal_strlit("₽");
    } else if code == "UAH"@ {
        reveal_strlit("UAH");
        reveal_strlit("₴");
    } else if code == "TRY"@ {
        reveal_strlit("TRY");
        reveal_strlit("₺");
    } else if code == "ILS"@ {
        reveal_strlit("ILS");
        reveal_strlit("₪");
    } else if code == "AED"@ {
        reveal_strlit("AED");
    } else if code == "SAR"@ {
        reveal_strlit("SAR");
    } else if code == "EGP"@ {
        reveal_strlit("EGP");
        reveal_strlit("E£");
    } else if code == "ZAR"@ {
        reveal_strlit("ZAR");
        reveal_strlit("R");
    } else if code == "NGN"@ {
        reveal_strlit("NGN");
        reveal_strlit("₦");
    } else if code == "KES"@ {
        reveal_strlit("KES");
        reveal_strlit("KSh");
    } else if code == "INR"@ {
        reveal_strlit("INR");
        reveal_strlit("₹");
    } else if code == "PKR"@ {
        reveal_strlit("PKR");
        reveal_strlit("Rs");
    } else if code == "BDT"@ {
        reveal_strlit("BDT");
        reveal_strlit("৳");
    } else if code == "LKR"@ {
        reveal_strlit("LKR");
        reveal_strlit("Rs");
    } else if code == "JPY"@ {
        reveal_strlit("JPY");
        reveal_strlit("¥");
    } else if code == "CNY"@ {
        reveal_strlit("CNY");
        reveal_strlit("¥");
    } else if code == "TWD"@ {
        reveal_strlit("TWD");
        reveal_strlit("NT$");
    } else if code == "KRW"@ {
        reveal_strlit("KRW");
        reveal_strlit("₩");
    } else if code == "HKD"@ {
        reveal_strlit("HKD");
        reveal_strlit("HK$");
    } else if code == "SGD"@ {
        reveal_strlit("SGD");
        reveal_strlit("S$");
    } else if code == "MYR"@ {
        reveal_strlit("MYR");
        reveal_strlit("RM");
    } else if code == "THB"@ {
        reveal_strlit("THB");
        reveal_strlit("฿");
    } else if code == "VND"@ {
        reveal_strlit("VND");
        reveal_strlit("₫");
    } else if code == "IDR"@ {
        reveal_strlit("IDR");
        reveal_strlit("Rp");
    } else if code == "PHP"@ {
        reveal_strlit("PHP");
        reveal_strlit("₱");
    } else if code == "BRL"@ {
        reveal_strlit("BRL");
        reveal_strlit("R$");
    } else if code == "MXN"@ {
        reveal_strlit("MXN");
        reveal_strlit("$");
    } else if code == "ARS"@ {
        reveal_strlit("ARS");
        reveal_strlit("$");
    } else if code == "CLP"@ {
        reveal_strlit("CLP");
        reveal_strlit("$");
    } else if code == "COP"@ {
        reveal_strlit("COP");
        reveal_strlit("$");
    } else if code == "PEN"@ {
        reveal_strlit("PEN");
        reveal_strlit("S/");
    } else {
        reveal_strlit("XXX");
        reveal_strlit("\u{a4}");
    }
}

/// The separators a row of the region table may use: a point or a comma
/// between units and cents, a different one of a few characters between
/// digit groups, and a slash, point or hyphen in dates.
pub open spec fn table_separators(r: RegionRules) -> bool {
    &&& (r.decimal_sep == '.' || r.decimal_sep == ',')
    &&& (r.group_sep == ',' || r.group_sep == '.' || r.group_sep == nbsp()
        || r.group_sep == '\u{202f}' || r.group_sep == '\u{2019}')
    &&& r.decimal_sep != r.group_sep
    &&& (r.date_sep == '/' || r.date_sep == '.' || r.date_sep == '-')
}

/// Every row of the region table keeps to [`table_separators`].
#[verifier::rlimit(50)]
#[verifier::spinoff_prover]
pub proof fn lemma_region_separators(a: char, b: char)
    ensures
        region_rules(a, b) matches Some(r) ==> table_separators(r),
{
}

/// Every locale a tag names can read back what it writes: it meets
/// [`reads_back`], [`reads_signs_back`] and [`reads_dates_back`].
pub proof fn tag_locales_read_back(tag: Seq<char>, l: &Locale)
    requires
        l.describes(tag),
    ensures
        reads_back(l),
        reads_signs_back(l),
        reads_dates_back(l),
{
    lemma_currencies_well_marked(l.currency.code@);
    match rules_of_tag(tag) {
        Some(rules) => {
            let (a, b) = region_of(cleaned_tag(tag))->0;
            lemma_region_separators(a, b);
            lemma_currencies_well_marked(rules.currency@);
        },
        None => {
            lemma_currencies_well_marked(Seq::<char>::empty());
        },
    }
}

/// Money reads back in every locale a tag names: the text any amount other
/// than zero formats to parses to the same amount, for every amount whose
/// size fits in an `i64`.
pub proof fn amounts_read_back_in_every_tag_locale(tag: Seq<char>, l: &Locale, m: int)
    requires
        l.describes(tag),
        m != 0,
        -i64::MAX <= m <= i64::MAX,
    ensures
        l.money_value(l.money_text(m)) == Ok::<int, crate::locale::MoneyError>(m),
{
    tag_locales_read_back(tag, l);
    if m > 0 {
        money_round_trips_through_parsing(l, m);
    } else {
        refunds_round_trip_through_parsing(l, -m);
        assert(-(-m) == m);
    }
}

/// Dates read back in every locale a tag names: a real day with a four-digit
/// year, written out, reads as the same day.
pub proof fn dates_read_back_in_every_tag_locale(tag: Seq<char>, l: &Locale, date: Date)
    requires
        l.describes(tag),
        date.valid(),
        1000 <= date.year <= 9999,
    ensures
        l.date_value(l.date_text(date)) == Ok::<Date, crate::locale::DateError>(date),
{
    tag_locales_read_back(tag, l);
    dates_round_trip_through_parsing(l, date);
}

} // verus!
