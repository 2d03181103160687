//! CSV, for spreadsheets.
//!
//! Three decisions here are about the spreadsheet rather than about CSV: the
//! delimiter follows the locale, because Excel reads a comma-decimal locale's
//! files as semicolon-separated; the file opens with a byte order mark,
//! without which Excel renders `£` as `Â£`; and the lines end with CRLF, as
//! RFC 4180 asks.

use vstd::prelude::*;

use crate::locale::{abs, Locale};
use crate::report::{month_rows_view, months_spent, months_view, Report, Sections};
use crate::strings::{
    chars_of, concat, decimal, decimal_of, is_digit, joined_with, lemma_decimal_digits, pow10, pow10_of, push_all,
    push_str, signed_decimal, signed_text, string_of, unsigned_text, zero_padded, zero_padded_of,
};

verus! {

/// `;` where the comma is the decimal separator, `,` elsewhere.
pub open spec fn delimiter_of(l: &Locale) -> char {
    if l.decimal_sep == ',' {
        ';'
    } else {
        ','
    }
}

/// An amount with no symbol and no digit grouping, so a spreadsheet reads it
/// as a number; the decimal separator is still the locale's.
pub open spec fn plain_text(l: &Locale, minor: int) -> Seq<char> {
    let sign = if minor < 0 {
        seq!['-']
    } else {
        Seq::<char>::empty()
    };
    let scale = pow10(l.currency.decimals as nat);
    let whole = decimal(abs(minor) / scale);
    if l.currency.decimals == 0 {
        sign + whole
    } else {
        sign + whole + seq![l.decimal_sep] + zero_padded(abs(minor) % scale, l.currency.decimals as nat)
    }
}

/// An amount with no symbol and no digit grouping.
pub fn plain_amount(minor: i64, locale: &Locale) -> (s: String)
    requires
        locale.wf(),
    ensures
        s@ == plain_text(locale, minor as int),
{
    let mut s = String::new();
    if minor < 0 {
        s.push('-');
    }
    let magnitude: u64 = if minor == i64::MIN {
        0x8000_0000_0000_0000u64
    } else if minor < 0 {
        (0 - minor) as u64
    } else {
        minor as u64
    };
    assert(magnitude == abs(minor as int));
    let scale = pow10_of(locale.currency.decimals);
    proof {
        crate::strings::lemma_pow10_bounds(locale.currency.decimals as nat);
    }
    let whole = decimal_of(magnitude / scale);
    push_all(&mut s, &whole);
    if locale.currency.decimals != 0 {
        s.push(locale.decimal_sep);
        let frac = zero_padded_of(magnitude % scale, locale.currency.decimals as usize);
        push_all(&mut s, &frac);
    }
    s
}

/// `value` with an optional leading sign dropped.
pub open spec fn unsigned_part(value: Seq<char>) -> Seq<char> {
    if value.len() > 0 && (value[0] == '+' || value[0] == '-') {
        value.drop_first()
    } else {
        value
    }
}

/// How many `.` and `,` a text holds.
pub open spec fn separator_count(s: Seq<char>) -> nat
    decreases s.len(),
{
    if s.len() == 0 {
        0
    } else {
        separator_count(s.drop_last()) + if s.last() == '.' || s.last() == ',' {
            1nat
        } else {
            0nat
        }
    }
}

/// Nothing but an optional sign, digits, and at most one decimal separator:
/// the shape [`plain_amount`] produces, which cannot itself be a formula.
pub open spec fn plain_number(value: Seq<char>) -> bool {
    let body = unsigned_part(value);
    &&& body.len() > 0
    &&& forall|i: int| 0 <= i < body.len() ==> is_digit(#[trigger] body[i]) || body[i] == '.' || body[i] == ','
    &&& separator_count(body) <= 1
}

/// Whether `value` is nothing but an optional sign, digits, and at most one
/// decimal separator.
pub fn is_plain_number(value: &str) -> (r: bool)
    ensures
        r == plain_number(value@),
{
    let v = chars_of(value);
    let start: usize = if v.len() > 0 && (v[0] == '+' || v[0] == '-') {
        1
    } else {
        0
    };
    let ghost body = unsigned_part(v@);
    assert(body =~= v@.skip(start as int));
    if start == v.len() {
        return false;
    }
    let mut seps: usize = 0;
    let mut i: usize = start;
    assert(v@.subrange(start as int, start as int) =~= Seq::<char>::empty());
    while i < v.len()
        invariant
            start <= i <= v.len(),
            v@ == value@,
            body == unsigned_part(value@),
            body == v@.skip(start as int),
            forall|k: int| start <= k < i ==> is_digit(#[trigger] v@[k]) || v@[k] == '.' || v@[k] == ',',
            seps as nat == separator_count(v@.subrange(start as int, i as int)),
            seps <= i,
        decreases v.len() - i,
    {
        let c = v[i];
        if !(('0' <= c && c <= '9') || c == '.' || c == ',') {
            assert(body[i - start] == c);
            return false;
        }
        assert(v@.subrange(start as int, i + 1).drop_last() =~= v@.subrange(start as int, i as int));
        if c == '.' || c == ',' {
            seps += 1;
        }
        i += 1;
    }
    assert(v@.subrange(start as int, i as int) =~= body);
    assert forall|k: int| 0 <= k < body.len() implies is_digit(#[trigger] body[k]) || body[k] == '.'
        || body[k] == ',' by {
        assert(body[k] == v@[k + start]);
    }
    seps <= 1
}

/// `t` with every `"` doubled.
pub open spec fn quotes_doubled(t: Seq<char>) -> Seq<char>
    decreases t.len(),
{
    if t.len() == 0 {
        t
    } else if t.last() == '"' {
        quotes_doubled(t.drop_last()) + seq!['"', '"']
    } else {
        quotes_doubled(t.drop_last()).push(t.last())
    }
}

/// A field as RFC 4180 asks, with anything a spreadsheet would take for a
/// formula defused by a leading apostrophe. A bare signed number is let
/// through, since a refund is `-12.34` and there is nothing after its sign
/// for a spreadsheet to evaluate.
pub open spec fn csv_field(value: Seq<char>, delimiter: char) -> Seq<char> {
    let lead = value.len() > 0 && (value[0] == '=' || value[0] == '+' || value[0] == '-' || value[0]
        == '@' || value[0] == '\t' || value[0] == '\r');
    let text = if lead && !plain_number(value) {
        seq!['\''] + value
    } else {
        value
    };
    if text.contains(delimiter) || text.contains('"') || text.contains('\n') || text.contains('\r') {
        seq!['"'] + quotes_doubled(text) + seq!['"']
    } else {
        text
    }
}

/// Quote a field as RFC 4180 asks, and defuse anything a spreadsheet would
/// treat as a formula.
pub fn field(value: &str, delimiter: char) -> (s: String)
    ensures
        s@ == csv_field(value@, delimiter),
{
    let v = chars_of(value);
    let lead = v.len() > 0 && (v[0] == '=' || v[0] == '+' || v[0] == '-' || v[0] == '@' || v[0]
        == '\t' || v[0] == '\r');
    let mut text: Vec<char> = Vec::new();
    if lead && !is_plain_number(value) {
        text.push('\'');
    }
    crate::strings::push_range(&mut text, &v, 0, v.len());
    assert(text@ =~= (if lead && !plain_number(value@) {
        seq!['\''] + value@
    } else {
        value@
    }));
    let mut needs_quotes = false;
    let mut i: usize = 0;
    while i < text.len()
        invariant
            i <= text@.len(),
            needs_quotes == exists|k: int| 0 <= k < i && (#[trigger] text@[k] == delimiter || text@[k] == '"'
                || text@[k] == '\n' || text@[k] == '\r'),
        decreases text.len() - i,
    {
        let c = text[i];
        if c == delimiter || c == '"' || c == '\n' || c == '\r' {
            needs_quotes = true;
        }
        i += 1;
    }
    assert(needs_quotes == (text@.contains(delimiter) || text@.contains('"') || text@.contains('\n')
        || text@.contains('\r'))) by {
        if text@.contains(delimiter) {
            let k = choose|k: int| 0 <= k < text@.len() && text@[k] == delimiter;
            assert(text@[k] == delimiter);
        }
        if text@.contains('"') {
            let k = choose|k: int| 0 <= k < text@.len() && text@[k] == '"';
            assert(text@[k] == '"');
        }
        if text@.contains('\n') {
            let k = choose|k: int| 0 <= k < text@.len() && text@[k] == '\n';
            assert(text@[k] == '\n');
        }
        if text@.contains('\r') {
            let k = choose|k: int| 0 <= k < text@.len() && text@[k] == '\r';
            assert(text@[k] == '\r');
        }
    }
    if !needs_quotes {
        return string_of(&text);
    }
    let mut out = String::new();
    out.push('"');
    let mut j: usize = 0;
    while j < text.len()
        invariant
            j <= text@.len(),
            out@ == seq!['"'] + quotes_doubled(text@.take(j as int)),
        decreases text.len() - j,
    {
        let c = text[j];
        assert(text@.take(j + 1).drop_last() =~= text@.take(j as int));
        if c == '"' {
            out.push('"');
            out.push('"');
        } else {
            out.push(c);
        }
        j += 1;
        assert(out@ =~= seq!['"'] + quotes_doubled(text@.take(j as int)));
    }
    assert(text@.take(j as int) =~= text@);
    out.push('"');
    out
}

/// One line: the fields joined by the delimiter, then CRLF.
pub open spec fn csv_row(cells: Seq<Seq<char>>, delimiter: char) -> Seq<char> {
    joined_with(Seq::new(cells.len(), |i: int| csv_field(cells[i], delimiter)), seq![delimiter])
        + seq!['\r', '\n']
}

pub open spec fn strings_view(v: Seq<String>) -> Seq<Seq<char>> {
    Seq::new(v.len(), |i: int| v[i]@)
}

/// Appends one line to `out`.
fn push_row(out: &mut String, cells: &Vec<String>, delimiter: char)
    ensures
        final(out)@ == old(out)@ + csv_row(strings_view(cells@), delimiter),
{
    let ghost fields = Seq::new(cells@.len(), |i: int| csv_field(cells@[i]@, delimiter));
    let mut line = String::new();
    let mut i: usize = 0;
    while i < cells.len()
        invariant
            i <= cells@.len(),
            fields == Seq::new(cells@.len(), |i: int| csv_field(cells@[i]@, delimiter)),
            line@ == joined_with(fields.take(i as int), seq![delimiter]),
        decreases cells.len() - i,
    {
        if i > 0 {
            line.push(delimiter);
        }
        let f = field(cells[i].as_str(), delimiter);
        push_str(&mut line, f.as_str());
        proof {
            let t = fields.take(i + 1);
            assert(t.drop_last() =~= fields.take(i as int));
            if i == 0 {
                assert(t.len() == 1);
            }
        }
        i += 1;
    }
    assert(fields.take(i as int) =~= fields);
    assert(fields =~= Seq::new(
        strings_view(cells@).len(),
        |i: int| csv_field(strings_view(cells@)[i], delimiter),
    ));
    push_str(out, line.as_str());
    out.push('\r');
    out.push('\n');
    assert(final(out)@ =~= old(out)@ + csv_row(strings_view(cells@), delimiter)) by {
        assert(final(out)@ == old(out)@ + line@ + seq!['\r', '\n']);
    }
}

/// The lines the category table holds, one per category.
pub open spec fn category_rows(r: &Report, l: &Locale, shares: Seq<Seq<char>>) -> Seq<Seq<char>> {
    Seq::new(
        r.categories@.len(),
        |i: int|
            csv_row(
                seq![
                    r.categories@[i].name@,
                    decimal(r.categories@[i].entries as nat),
                    plain_text(l, r.categories@[i].total_minor as int),
                    shares[i],
                ],
                delimiter_of(l),
            ),
    )
}

/// The lines of the month table, one per month that had spending.
pub open spec fn month_rows(r: &Report, l: &Locale) -> Seq<Seq<char>> {
    let ms = months_spent(months_view(r.months@), 12);
    Seq::new(ms.len(), |i: int| csv_row(seq![ms[i].0, plain_text(l, ms[i].1)], delimiter_of(l)))
}

/// The lines of the entry table, one per entry.
pub open spec fn entry_rows(r: &Report, l: &Locale) -> Seq<Seq<char>> {
    Seq::new(
        r.entries@.len(),
        |i: int|
            csv_row(
                seq![
                    l.date_text(r.entries@[i].spent_on),
                    r.entries@[i].category@,
                    plain_text(l, r.entries@[i].amount_minor as int),
                    r.entries@[i].description@,
                ],
                delimiter_of(l),
            ),
    )
}

/// The summary at the top: title, year, date, currency, total and count.
pub open spec fn csv_summary(r: &Report, l: &Locale) -> Seq<char> {
    let d = delimiter_of(l);
    csv_row(seq!["Spending report"@], d) + csv_row(seq!["Year"@, signed_decimal(r.year as int)], d)
        + csv_row(seq!["Generated"@, l.date_text(r.generated)], d) + csv_row(
        seq!["Currency"@, l.currency.code@],
        d,
    ) + csv_row(seq!["Total"@, plain_text(l, r.total_minor as int)], d) + csv_row(
        seq!["Entries"@, decimal(r.entries@.len() as nat)],
        d,
    )
}

/// The category table, after a blank line.
pub open spec fn csv_categories(r: &Report, l: &Locale, shares: Seq<Seq<char>>) -> Seq<char> {
    seq!['\r', '\n'] + csv_row(seq!["Category"@, "Entries"@, "Total"@, "Share"@], delimiter_of(l))
        + concat(category_rows(r, l, shares))
}

/// The month table, after a blank line.
pub open spec fn csv_months(r: &Report, l: &Locale) -> Seq<char> {
    seq!['\r', '\n'] + csv_row(seq!["Month"@, "Total"@], delimiter_of(l)) + concat(month_rows(r, l))
}

/// The entry table, after a blank line.
pub open spec fn csv_entries(r: &Report, l: &Locale) -> Seq<char> {
    seq!['\r', '\n'] + csv_row(seq!["Date"@, "Category"@, "Amount"@, "Description"@], delimiter_of(l))
        + concat(entry_rows(r, l))
}

/// The whole file as text: a byte order mark, the summary, the category
/// table, and the month and entry tables when asked for.
pub open spec fn csv_text(r: &Report, l: &Locale, sections: Sections, shares: Seq<Seq<char>>) -> Seq<
    char,
> {
    seq!['\u{feff}'] + csv_summary(r, l) + csv_categories(r, l, shares) + (if sections.monthly {
        csv_months(r, l)
    } else {
        Seq::empty()
    }) + (if sections.entries {
        csv_entries(r, l)
    } else {
        Seq::empty()
    })
}

/// A vector of the given strings.
fn cells_of(a: &str, b: &str) -> (v: Vec<String>)
    ensures
        strings_view(v@) == seq![a@, b@],
{
    let mut v: Vec<String> = Vec::new();
    v.push(a.to_owned());
    v.push(b.to_owned());
    assert(strings_view(v@) =~= seq![a@, b@]);
    v
}

fn four_cells(a: &str, b: &str, c: &str, d: &str) -> (v: Vec<String>)
    ensures
        strings_view(v@) == seq![a@, b@, c@, d@],
{
    let mut v: Vec<String> = Vec::new();
    v.push(a.to_owned());
    v.push(b.to_owned());
    v.push(c.to_owned());
    v.push(d.to_owned());
    assert(strings_view(v@) =~= seq![a@, b@, c@, d@]);
    v
}

#[verifier::spinoff_prover]
#[verifier::rlimit(40)]
fn push_summary(out: &mut String, report: &Report, locale: &Locale)
    requires
        locale.wf(),
        report.printable(),
    ensures
        final(out)@ == old(out)@ + csv_summary(report, locale),
{
    let d = if locale.decimal_sep == ',' {
        ';'
    } else {
        ','
    };
    let ghost start = out@;
    let mut one: Vec<String> = Vec::new();
    one.push("Spending report".to_owned());
    assert(strings_view(one@) =~= seq!["Spending report"@]);
    push_row(out, &one, d);
    let year = signed_text(report.year as i64);
    push_row(out, &cells_of("Year", year.as_str()), d);
    let generated = locale.format_date(report.generated);
    push_row(out, &cells_of("Generated", generated.as_str()), d);
    push_row(out, &cells_of("Currency", locale.currency.code), d);
    let total = plain_amount(report.total_minor, locale);
    push_row(out, &cells_of("Total", total.as_str()), d);
    let count = unsigned_text(report.entries.len() as u64);
    push_row(out, &cells_of("Entries", count.as_str()), d);
    assert(out@ =~= start + csv_summary(report, locale));
}

fn push_categories(out: &mut String, report: &Report, locale: &Locale, shares: &Vec<String>)
    requires
        locale.wf(),
        report.printable(),
        shares@.len() == report.categories@.len(),
    ensures
        final(out)@ == old(out)@ + csv_categories(report, locale, strings_view(shares@)),
{
    let d = if locale.decimal_sep == ',' {
        ';'
    } else {
        ','
    };
    let ghost start = out@;
    out.push('\r');
    out.push('\n');
    push_row(out, &four_cells("Category", "Entries", "Total", "Share"), d);
    let ghost rows = category_rows(report, locale, strings_view(shares@));
    let ghost head = out@;
    let mut i: usize = 0;
    while i < report.categories.len()
        invariant
            i <= report.categories@.len(),
            shares@.len() == report.categories@.len(),
            report.printable(),
            locale.wf(),
            d == delimiter_of(locale),
            rows == category_rows(report, locale, strings_view(shares@)),
            out@ == head + concat(rows.take(i as int)),
        decreases report.categories.len() - i,
    {
        let line = &report.categories[i];
        let n = unsigned_text(line.entries as u64);
        let t = plain_amount(line.total_minor, locale);
        push_row(out, &four_cells(line.name.as_str(), n.as_str(), t.as_str(), shares[i].as_str()), d);
        assert(rows.take(i + 1).drop_last() =~= rows.take(i as int));
        i += 1;
    }
    assert(rows.take(i as int) =~= rows);
    assert(out@ =~= start + csv_categories(report, locale, strings_view(shares@)));
}

fn push_months(out: &mut String, report: &Report, locale: &Locale)
    requires
        locale.wf(),
        report.printable(),
    ensures
        final(out)@ == old(out)@ + csv_months(report, locale),
{
    let d = if locale.decimal_sep == ',' {
        ';'
    } else {
        ','
    };
    let ghost start = out@;
    out.push('\r');
    out.push('\n');
    push_row(out, &cells_of("Month", "Total"), d);
    let months = report.months_with_spending();
    let ghost ms = months_spent(months_view(report.months@), 12);
    let ghost mrows = month_rows(report, locale);
    let ghost mhead = out@;
    let mut k: usize = 0;
    while k < months.len()
        invariant
            k <= months@.len(),
            month_rows_view(months@) == ms,
            ms == months_spent(months_view(report.months@), 12),
            mrows == month_rows(report, locale),
            report.printable(),
            locale.wf(),
            d == delimiter_of(locale),
            out@ == mhead + concat(mrows.take(k as int)),
        decreases months.len() - k,
    {
        let (name, total) = months[k];
        assert(ms[k as int] == (name@, total as int));
        let t = plain_amount(total, locale);
        push_row(out, &cells_of(name, t.as_str()), d);
        assert(mrows.take(k + 1).drop_last() =~= mrows.take(k as int));
        k += 1;
    }
    assert(mrows.take(k as int) =~= mrows);
    assert(out@ =~= start + csv_months(report, locale));
}

fn push_entries(out: &mut String, report: &Report, locale: &Locale)
    requires
        locale.wf(),
        report.printable(),
    ensures
        final(out)@ == old(out)@ + csv_entries(report, locale),
{
    let d = if locale.decimal_sep == ',' {
        ';'
    } else {
        ','
    };
    let ghost start = out@;
    out.push('\r');
    out.push('\n');
    push_row(out, &four_cells("Date", "Category", "Amount", "Description"), d);
    let ghost erows = entry_rows(report, locale);
    let ghost ehead = out@;
    let mut k: usize = 0;
    while k < report.entries.len()
        invariant
            k <= report.entries@.len(),
            erows == entry_rows(report, locale),
            report.printable(),
            locale.wf(),
            d == delimiter_of(locale),
            out@ == ehead + concat(erows.take(k as int)),
        decreases report.entries.len() - k,
    {
        let e = &report.entries[k];
        let date = locale.format_date(e.spent_on);
        let amount = plain_amount(e.amount_minor, locale);
        push_row(
            out,
            &four_cells(date.as_str(), e.category.as_str(), amount.as_str(), e.description.as_str()),
            d,
        );
        assert(erows.take(k + 1).drop_last() =~= erows.take(k as int));
        k += 1;
    }
    assert(erows.take(k as int) =~= erows);
    assert(out@ =~= start + csv_entries(report, locale));
}

/// Writes the report as CSV text. `shares` holds each category line's
/// share of the year, already written out (`12.5%`).
pub fn render_text(report: &Report, locale: &Locale, sections: Sections, shares: &Vec<String>) -> (out: String)
    requires
        locale.wf(),
        report.printable(),
        shares@.len() == report.categories@.len(),
    ensures
        out@ == csv_text(report, locale, sections, strings_view(shares@)),
{
    let mut out = String::new();
    out.push('\u{feff}');
    push_summary(&mut out, report, locale);
    push_categories(&mut out, report, locale, shares);
    let ghost upto = out@;
    if sections.monthly {
        push_months(&mut out, report, locale);
    }
    let ghost upto2 = out@;
    if sections.entries {
        push_entries(&mut out, report, locale);
    }
    assert(out@ =~= csv_text(report, locale, sections, strings_view(shares@)));
    out
}

/// Writes the report as CSV, in UTF-8.
pub fn render(report: &Report, locale: &Locale, sections: Sections, shares: &Vec<String>) -> (bytes: Vec<u8>)
    requires
        locale.wf(),
        report.printable(),
        shares@.len() == report.categories@.len(),
    ensures
        bytes@ == vstd::utf8::encode_utf8(csv_text(report, locale, sections, strings_view(shares@))),
{
    let text = render_text(report, locale, sections, shares);
    vstd::slice::slice_to_vec(text.as_str().as_bytes())
}

/// A character a spreadsheet takes as the start of a formula.
pub open spec fn formula_lead(c: char) -> bool {
    c == '=' || c == '+' || c == '-' || c == '@' || c == '\t' || c == '\r'
}

/// No field reaches a spreadsheet opening with a formula's first character,
/// except a bare signed number written as it came, which cannot be a
/// formula.
pub proof fn formulas_are_defused(value: Seq<char>, delimiter: char)
    ensures
        csv_field(value, delimiter).len() > 0 && formula_lead(csv_field(value, delimiter)[0])
            ==> plain_number(value) && csv_field(value, delimiter) == value,
{
}

/// Text that ends a line: its last two characters are CR and LF.
pub open spec fn ends_line(s: Seq<char>) -> bool {
    s.len() >= 2 && s[s.len() - 2] == '\r' && s.last() == '\n'
}

pub proof fn lemma_ends_line_after(a: Seq<char>, b: Seq<char>)
    requires
        ends_line(b) || (b.len() == 0 && ends_line(a)),
    ensures
        ends_line(a + b),
{
    let s = a + b;
    if b.len() == 0 {
        assert(s =~= a);
    } else {
        assert(s[s.len() - 2] == b[b.len() - 2]);
        assert(s.last() == b.last());
    }
}

pub proof fn lemma_rows_end_lines(rows: Seq<Seq<char>>)
    requires
        forall|i: int| 0 <= i < rows.len() ==> ends_line(#[trigger] rows[i]),
    ensures
        concat(rows).len() == 0 || ends_line(concat(rows)),
    decreases rows.len(),
{
    if rows.len() > 0 {
        lemma_rows_end_lines(rows.drop_last());
        assert(ends_line(rows[rows.len() - 1]));
        lemma_ends_line_after(concat(rows.drop_last()), rows.last());
    }
}

pub proof fn lemma_row_ends_line(cells: Seq<Seq<char>>, delimiter: char)
    ensures
        ends_line(csv_row(cells, delimiter)),
{
    let j = joined_with(Seq::new(cells.len(), |i: int| csv_field(cells[i], delimiter)), seq![delimiter]);
    lemma_ends_line_after(j, seq!['\r', '\n']);
}

/// A table that ends with its header row or its last row ends a line.
pub proof fn lemma_table_ends_line(header: Seq<Seq<char>>, rows: Seq<Seq<char>>, delimiter: char)
    requires
        forall|i: int| 0 <= i < rows.len() ==> ends_line(#[trigger] rows[i]),
    ensures
        ends_line(seq!['\r', '\n'] + csv_row(header, delimiter) + concat(rows)),
{
    lemma_row_ends_line(header, delimiter);
    lemma_ends_line_after(seq!['\r', '\n'], csv_row(header, delimiter));
    lemma_rows_end_lines(rows);
    lemma_ends_line_after(seq!['\r', '\n'] + csv_row(header, delimiter), concat(rows));
}

/// A CSV file opens with the byte order mark spreadsheets look for, and
/// ends a line, whichever sections it holds.
pub proof fn a_csv_file_opens_with_the_mark_and_ends_a_line(
    r: &Report,
    l: &Locale,
    sections: Sections,
    shares: Seq<Seq<char>>,
)
    ensures
        csv_text(r, l, sections, shares)[0] == '\u{feff}',
        ends_line(csv_text(r, l, sections, shares)),
{
    let d = delimiter_of(l);
    let cats = category_rows(r, l, shares);
    assert forall|i: int| 0 <= i < cats.len() implies ends_line(#[trigger] cats[i]) by {
        lemma_row_ends_line(
            seq![
                r.categories@[i].name@,
                decimal(r.categories@[i].entries as nat),
                plain_text(l, r.categories@[i].total_minor as int),
                shares[i],
            ],
            d,
        );
    }
    let ms = month_rows(r, l);
    let spent = months_spent(months_view(r.months@), 12);
    assert forall|i: int| 0 <= i < ms.len() implies ends_line(#[trigger] ms[i]) by {
        lemma_row_ends_line(seq![spent[i].0, plain_text(l, spent[i].1)], d);
    }
    let es = entry_rows(r, l);
    assert forall|i: int| 0 <= i < es.len() implies ends_line(#[trigger] es[i]) by {
        lemma_row_ends_line(
            seq![
                l.date_text(r.entries@[i].spent_on),
                r.entries@[i].category@,
                plain_text(l, r.entries@[i].amount_minor as int),
                r.entries@[i].description@,
            ],
            d,
        );
    }
    lemma_table_ends_line(seq!["Category"@, "Entries"@, "Total"@, "Share"@], cats, d);
    lemma_table_ends_line(seq!["Month"@, "Total"@], ms, d);
    lemma_table_ends_line(seq!["Date"@, "Category"@, "Amount"@, "Description"@], es, d);
    let head = seq!['\u{feff}'] + csv_summary(r, l) + csv_categories(r, l, shares);
    lemma_ends_line_after(seq!['\u{feff}'] + csv_summary(r, l), csv_categories(r, l, shares));
    let months_part = if sections.monthly {
        csv_months(r, l)
    } else {
        Seq::empty()
    };
    let entries_part = if sections.entries {
        csv_entries(r, l)
    } else {
        Seq::empty()
    };
    lemma_ends_line_after(head, months_part);
    lemma_ends_line_after(head + months_part, entries_part);
    assert(csv_text(r, l, sections, shares) == head + months_part + entries_part);
}

// ------------------------------------------------------------------ lines as cells

/// Each line as the text the cells make.
pub open spec fn rows_of(cells: Seq<Seq<Seq<char>>>, delimiter: char) -> Seq<Seq<char>> {
    Seq::new(cells.len(), |i: int| csv_row(cells[i], delimiter))
}

pub open spec fn month_header() -> Seq<Seq<char>> {
    seq!["Month"@, "Total"@]
}

pub open spec fn entry_header() -> Seq<Seq<char>> {
    seq!["Date"@, "Category"@, "Amount"@, "Description"@]
}

pub open spec fn category_header() -> Seq<Seq<char>> {
    seq!["Category"@, "Entries"@, "Total"@, "Share"@]
}

/// The summary's lines as cells.
pub open spec fn summary_cells(r: &Report, l: &Locale) -> Seq<Seq<Seq<char>>> {
    seq![
        seq!["Spending report"@],
        seq!["Year"@, signed_decimal(r.year as int)],
        seq!["Generated"@, l.date_text(r.generated)],
        seq!["Currency"@, l.currency.code@],
        seq!["Total"@, plain_text(l, r.total_minor as int)],
        seq!["Entries"@, decimal(r.entries@.len() as nat)],
    ]
}

/// A category's line as cells: its name, how many entries, its total as a
/// plain amount, and its share.
pub open spec fn category_cells(r: &Report, l: &Locale, shares: Seq<Seq<char>>) -> Seq<Seq<Seq<char>>> {
    Seq::new(
        r.categories@.len(),
        |i: int|
            seq![
                r.categories@[i].name@,
                decimal(r.categories@[i].entries as nat),
                plain_text(l, r.categories@[i].total_minor as int),
                shares[i],
            ],
    )
}

/// A month's line as cells: its name and its total as a plain amount.
pub open spec fn month_cells(r: &Report, l: &Locale) -> Seq<Seq<Seq<char>>> {
    let ms = months_spent(months_view(r.months@), 12);
    Seq::new(ms.len(), |i: int| seq![ms[i].0, plain_text(l, ms[i].1)])
}

/// An entry's line as cells: its date as the locale writes it, its
/// category, its amount as a plain amount, and its description.
pub open spec fn entry_cells(r: &Report, l: &Locale) -> Seq<Seq<Seq<char>>> {
    Seq::new(
        r.entries@.len(),
        |i: int|
            seq![
                l.date_text(r.entries@[i].spent_on),
                r.entries@[i].category@,
                plain_text(l, r.entries@[i].amount_minor as int),
                r.entries@[i].description@,
            ],
    )
}

/// The file's lines as the cells each holds, in order; a blank line holds
/// none. The month table and the entry table are there when asked for.
pub open spec fn csv_cells(r: &Report, l: &Locale, sections: Sections, shares: Seq<Seq<char>>) -> Seq<
    Seq<Seq<char>>,
> {
    summary_cells(r, l) + seq![Seq::<Seq<char>>::empty(), category_header()] + category_cells(r, l, shares) + (
    if sections.monthly {
        seq![Seq::<Seq<char>>::empty(), month_header()] + month_cells(r, l)
    } else {
        Seq::empty()
    }) + (if sections.entries {
        seq![Seq::<Seq<char>>::empty(), entry_header()] + entry_cells(r, l)
    } else {
        Seq::empty()
    })
}

/// Whether one of the lines holds exactly these cells.
pub open spec fn has_line_of(cells: Seq<Seq<Seq<char>>>, line: Seq<Seq<char>>) -> bool {
    exists|i: int| 0 <= i < cells.len() && #[trigger] cells[i] == line
}

pub proof fn lemma_concat_append(a: Seq<Seq<char>>, b: Seq<Seq<char>>)
    ensures
        concat(a + b) == concat(a) + concat(b),
    decreases b.len(),
{
    if b.len() == 0 {
        assert(a + b =~= a);
        assert(concat(a) + concat(b) =~= concat(a));
    } else {
        lemma_concat_append(a, b.drop_last());
        assert((a + b).drop_last() =~= a + b.drop_last());
        assert((a + b).last() == b.last());
        assert(concat(a) + (concat(b.drop_last()) + b.last()) =~= concat(a) + concat(b.drop_last()) + b.last());
    }
}

pub proof fn lemma_rows_of_append(a: Seq<Seq<Seq<char>>>, b: Seq<Seq<Seq<char>>>, d: char)
    ensures
        rows_of(a + b, d) == rows_of(a, d) + rows_of(b, d),
{
    assert(rows_of(a + b, d) =~= rows_of(a, d) + rows_of(b, d));
}

/// A line with no cells is a bare line end.
pub proof fn lemma_blank_row(d: char)
    ensures
        csv_row(Seq::<Seq<char>>::empty(), d) == seq!['\r', '\n'],
{
    let none = Seq::new(0, |i: int| csv_field(Seq::<Seq<char>>::empty()[i], d));
    assert(Seq::new(Seq::<Seq<char>>::empty().len(), |i: int| csv_field(Seq::<Seq<char>>::empty()[i], d)) =~= none);
    assert(joined_with(none, seq![d]) =~= Seq::<char>::empty());
    assert(Seq::<char>::empty() + seq!['\r', '\n'] =~= seq!['\r', '\n']);
}

proof fn lemma_table_rows(header: Seq<Seq<char>>, rows: Seq<Seq<Seq<char>>>, d: char)
    ensures
        concat(rows_of(seq![Seq::<Seq<char>>::empty(), header] + rows, d)) == seq!['\r', '\n'] + csv_row(
            header,
            d,
        ) + concat(rows_of(rows, d)),
{
    let two = seq![Seq::<Seq<char>>::empty(), header];
    lemma_rows_of_append(two, rows, d);
    lemma_concat_append(rows_of(two, d), rows_of(rows, d));
    lemma_blank_row(d);
    let r2 = rows_of(two, d);
    let r1 = r2.drop_last();
    assert(r1.drop_last() =~= Seq::<Seq<char>>::empty());
    assert(concat(r1.drop_last()) == Seq::<char>::empty());
    assert(r1.last() == r2[0]);
    assert(concat(r1) =~= r2[0]);
    assert(concat(r2) == concat(r1) + r2[1]);
}

proof fn lemma_summary_rows(r: &Report, l: &Locale, d: char)
    ensures
        d == delimiter_of(l) ==> concat(rows_of(summary_cells(r, l), d)) == csv_summary(r, l),
{
    let rs = rows_of(summary_cells(r, l), d);
    let mut k: int = 0;
    assert(rs.take(0) =~= Seq::<Seq<char>>::empty());
    let r1 = rs.take(1);
    let r2 = rs.take(2);
    let r3 = rs.take(3);
    let r4 = rs.take(4);
    let r5 = rs.take(5);
    assert(r1.drop_last() =~= rs.take(0));
    assert(r2.drop_last() =~= r1);
    assert(r3.drop_last() =~= r2);
    assert(r4.drop_last() =~= r3);
    assert(r5.drop_last() =~= r4);
    assert(rs.drop_last() =~= r5);
    assert(concat(rs.take(0)) == Seq::<char>::empty());
    assert(concat(r1) =~= rs[0]);
    assert(concat(r2) == rs[0] + rs[1]);
    assert(concat(r3) == rs[0] + rs[1] + rs[2]);
    assert(concat(r4) == rs[0] + rs[1] + rs[2] + rs[3]);
    assert(concat(r5) == rs[0] + rs[1] + rs[2] + rs[3] + rs[4]);
    assert(concat(rs) == rs[0] + rs[1] + rs[2] + rs[3] + rs[4] + rs[5]);
}

proof fn lemma_optional_table(on: bool, header: Seq<Seq<char>>, rows: Seq<Seq<Seq<char>>>, d: char)
    ensures
        concat(rows_of(if on { seq![Seq::<Seq<char>>::empty(), header] + rows } else { Seq::empty() }, d))
            == if on {
            seq!['\r', '\n'] + csv_row(header, d) + concat(rows_of(rows, d))
        } else {
            Seq::<char>::empty()
        },
{
    lemma_table_rows(header, rows, d);
    if !on {
        assert(rows_of(Seq::<Seq<Seq<char>>>::empty(), d) =~= Seq::<Seq<char>>::empty());
    }
}

proof fn lemma_category_part(r: &Report, l: &Locale, shares: Seq<Seq<char>>)
    ensures
        concat(rows_of(seq![Seq::<Seq<char>>::empty(), category_header()] + category_cells(r, l, shares), delimiter_of(l)))
            == csv_categories(r, l, shares),
{
    let d = delimiter_of(l);
    lemma_table_rows(category_header(), category_cells(r, l, shares), d);
    assert(rows_of(category_cells(r, l, shares), d) =~= category_rows(r, l, shares));
}

proof fn lemma_month_part(r: &Report, l: &Locale, on: bool)
    ensures
        concat(rows_of(if on { seq![Seq::<Seq<char>>::empty(), month_header()] + month_cells(r, l) } else { Seq::empty() }, delimiter_of(l)))
            == if on { csv_months(r, l) } else { Seq::<char>::empty() },
{
    let d = delimiter_of(l);
    lemma_optional_table(on, month_header(), month_cells(r, l), d);
    assert(rows_of(month_cells(r, l), d) =~= month_rows(r, l));
}

proof fn lemma_entry_part(r: &Report, l: &Locale, on: bool)
    ensures
        concat(rows_of(if on { seq![Seq::<Seq<char>>::empty(), entry_header()] + entry_cells(r, l) } else { Seq::empty() }, delimiter_of(l)))
            == if on { csv_entries(r, l) } else { Seq::<char>::empty() },
{
    let d = delimiter_of(l);
    lemma_optional_table(on, entry_header(), entry_cells(r, l), d);
    assert(rows_of(entry_cells(r, l), d) =~= entry_rows(r, l));
}

/// The file is its lines: a byte order mark, then each line's cells, each
/// passed through [`csv_field`], joined by the delimiter and ended by CRLF.
#[verifier::spinoff_prover]
#[verifier::rlimit(80)]
pub proof fn a_csv_file_is_its_lines(r: &Report, l: &Locale, sections: Sections, shares: Seq<Seq<char>>)
    ensures
        csv_text(r, l, sections, shares) == seq!['\u{feff}'] + concat(
            rows_of(csv_cells(r, l, sections, shares), delimiter_of(l)),
        ),
{
    let d = delimiter_of(l);
    let sc = summary_cells(r, l);
    let cc = seq![Seq::<Seq<char>>::empty(), category_header()] + category_cells(r, l, shares);
    let mc = if sections.monthly {
        seq![Seq::<Seq<char>>::empty(), month_header()] + month_cells(r, l)
    } else {
        Seq::empty()
    };
    let ec = if sections.entries {
        seq![Seq::<Seq<char>>::empty(), entry_header()] + entry_cells(r, l)
    } else {
        Seq::empty()
    };
    lemma_summary_rows(r, l, d);
    lemma_category_part(r, l, shares);
    lemma_month_part(r, l, sections.monthly);
    lemma_entry_part(r, l, sections.entries);
    lemma_four_parts(sc, cc, mc, ec, d);
    assert(csv_cells(r, l, sections, shares) == sc + cc + mc + ec);
}

proof fn lemma_four_parts(
    a: Seq<Seq<Seq<char>>>,
    b: Seq<Seq<Seq<char>>>,
    c: Seq<Seq<Seq<char>>>,
    e: Seq<Seq<Seq<char>>>,
    d: char,
)
    ensures
        concat(rows_of(a + b + c + e, d)) == concat(rows_of(a, d)) + concat(rows_of(b, d)) + concat(
            rows_of(c, d),
        ) + concat(rows_of(e, d)),
{
    lemma_rows_of_append(a + b + c, e, d);
    lemma_rows_of_append(a + b, c, d);
    lemma_rows_of_append(a, b, d);
    lemma_concat_append(rows_of(a + b + c, d), rows_of(e, d));
    lemma_concat_append(rows_of(a + b, d), rows_of(c, d));
    lemma_concat_append(rows_of(a, d), rows_of(b, d));
}

/// The month table's header line is in the file exactly when the month
/// table was asked for, and the entry table's exactly when that was: no
/// other line holds the same cells.
pub proof fn a_table_header_is_there_exactly_when_asked_for(
    r: &Report,
    l: &Locale,
    sections: Sections,
    shares: Seq<Seq<char>>,
)
    requires
        shares.len() == r.categories@.len(),
    ensures
        has_line_of(csv_cells(r, l, sections, shares), month_header()) <==> sections.monthly,
        has_line_of(csv_cells(r, l, sections, shares), entry_header()) <==> sections.entries,
{
    reveal_strlit("Month");
    reveal_strlit("Date");
    reveal_strlit("Category");
    reveal_strlit("Year");
    reveal_strlit("Generated");
    reveal_strlit("Currency");
    reveal_strlit("Total");
    reveal_strlit("Entries");
    let sc = summary_cells(r, l);
    let cc = seq![Seq::<Seq<char>>::empty(), category_header()] + category_cells(r, l, shares);
    let mc = if sections.monthly {
        seq![Seq::<Seq<char>>::empty(), month_header()] + month_cells(r, l)
    } else {
        Seq::empty()
    };
    let ec = if sections.entries {
        seq![Seq::<Seq<char>>::empty(), entry_header()] + entry_cells(r, l)
    } else {
        Seq::empty()
    };
    let all = csv_cells(r, l, sections, shares);
    assert(all == sc + cc + mc + ec);
    let n1 = sc.len() as int;
    let n2 = n1 + cc.len();
    let n3 = n2 + mc.len();
    assert(n1 == 6);
    if sections.monthly {
        assert(all[n2 + 1] == month_header());
    }
    if sections.entries {
        assert(all[n3 + 1] == entry_header());
    }
    // No summary line, blank line or category line holds a header's cells.
    assert forall|i: int| 0 <= i < n2 implies #[trigger] all[i] != month_header() && all[i]
        != entry_header() by {
        if i < n1 {
            assert(all[i] == sc[i]);
            assert(sc[i].len() <= 2);
            if i == 0 {
                assert(sc[0].len() == 1);
            } else if i == 1 {
                assert(sc[1][0] == "Year"@ && "Year"@.len() == 4);
            } else if i == 2 {
                assert(sc[2][0] == "Generated"@ && "Generated"@.len() == 9);
            } else if i == 3 {
                assert(sc[3][0] == "Currency"@ && "Currency"@.len() == 8);
            } else if i == 4 {
                assert(sc[4][0] == "Total"@);
                assert("Total"@[0] != "Month"@[0]);
            } else {
                assert(sc[5][0] == "Entries"@ && "Entries"@.len() == 7);
            }
            if sc[i] == month_header() {
                assert(sc[i][0] == "Month"@);
            }
        } else if i < n1 + 2 {
            assert(all[i] == cc[i - n1]);
            if i == n1 {
                assert(cc[0].len() == 0);
            } else {
                assert(cc[1] == category_header());
                if cc[1] == entry_header() {
                    assert(cc[1][0] == "Date"@);
                    assert("Category"@.len() == 8);
                }
            }
        } else {
            let k = i - n1 - 2;
            assert(all[i] == category_cells(r, l, shares)[k]);
            let line = category_cells(r, l, shares)[k];
            lemma_decimal_digits(r.categories@[k].entries as nat);
            assert(line[1] == decimal(r.categories@[k].entries as nat));
            assert(line[1][0] != entry_header()[1][0]);
        }
    }
    // No month-table line holds the entry header's cells.
    assert forall|i: int| n2 <= i < n3 implies #[trigger] all[i] != entry_header() by {
        assert(all[i] == mc[i - n2]);
        assert(mc[i - n2].len() != 4);
    }
    // No entry-table line holds the month header's cells.
    assert forall|i: int| n3 <= i < all.len() implies #[trigger] all[i] != month_header() by {
        assert(all[i] == ec[i - n3]);
        assert(ec[i - n3].len() != 2);
    }
    if !sections.monthly {
        assert(mc.len() == 0);
        if has_line_of(all, month_header()) {
            let i = choose|i: int| 0 <= i < all.len() && #[trigger] all[i] == month_header();
            assert(all[i] != month_header());
        }
    }
    if !sections.entries {
        assert(n3 == all.len());
        if has_line_of(all, entry_header()) {
            let i = choose|i: int| 0 <= i < all.len() && #[trigger] all[i] == entry_header();
            assert(all[i] != entry_header());
        }
    }
}

/// What a CSV file is, whatever report, locale and sections it is written
/// for: it opens with the byte order mark and ends a line; it is its lines,
/// each the cells [`csv_cells`] lists, passed through [`csv_field`], joined by
/// the locale's delimiter and ended by CRLF, every amount cell a plain amount
/// ([`plain_text`]); and the month and entry tables' header lines are there
/// exactly when those tables were asked for.
pub proof fn what_a_csv_file_is(r: &Report, l: &Locale, sections: Sections, shares: Seq<Seq<char>>)
    requires
        shares.len() == r.categories@.len(),
    ensures
        csv_text(r, l, sections, shares)[0] == '\u{feff}',
        ends_line(csv_text(r, l, sections, shares)),
        csv_text(r, l, sections, shares) == seq!['\u{feff}'] + concat(
            rows_of(csv_cells(r, l, sections, shares), delimiter_of(l)),
        ),
        has_line_of(csv_cells(r, l, sections, shares), month_header()) <==> sections.monthly,
        has_line_of(csv_cells(r, l, sections, shares), entry_header()) <==> sections.entries,
{
    a_csv_file_opens_with_the_mark_and_ends_a_line(r, l, sections, shares);
    a_csv_file_is_its_lines(r, l, sections, shares);
    a_table_header_is_there_exactly_when_asked_for(r, l, sections, shares);
}

} // verus!
