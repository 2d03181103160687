//! The report as data for another program: which keys there are, which
//! sections, and what each value holds. Writing it out as JSON text is
//! `serde_json`'s, and each category's share of the year is worked out in
//! floating point, so both are the application's.
//!
//! Amounts appear twice: as integer minor units, which is what a program
//! should compute with, and as the formatted string a person would
//! recognise. Dates are ISO, whatever the locale writes on screen, because
//! a machine reading this has no way to know which locale wrote it.

use vstd::prelude::*;

use crate::calendar::Date;
use crate::locale::Locale;
use crate::report::{
    amount_sum, categories_add_up_to_the_total, category_counts_add_up_to_the_entries, category_tally, lines_count,
    lines_total, lines_view, month_text, Report, Sections,
};
use crate::strings::{pow10, pow10_of, push_range, string_of, zero_padded, zero_padded_of, lemma_pow10_bounds};

verus! {

/// An amount as the document gives it.
pub struct JsonMoney {
    pub minor_units: i64,
    pub formatted: String,
}

/// The document's contents, key by key.
pub struct JsonReport {
    pub year: i32,
    pub generated: String,
    pub currency_code: String,
    pub currency_symbol: String,
    pub minor_units_per_major: i64,
    pub locale: String,
    pub total: JsonMoney,
    pub entry_count: usize,
    /// Name, number of entries and total, for each category line.
    pub categories: Vec<(String, usize, JsonMoney)>,
    /// Month number (1 to 12), English name and total; there when the
    /// report has its monthly section.
    pub months: Option<Vec<(u32, String, JsonMoney)>>,
    /// ISO date, category, amount and description; there when the report
    /// has its itemised section.
    pub entries: Option<Vec<(String, String, JsonMoney, String)>>,
}

/// A day as `yyyy-mm-dd`.
/// A year as ISO 8601 writes it: four digits from 0 to 9999, and outside
/// those a sign and at least four digits (`-0001`, `+10000`).
pub open spec fn iso_year(y: int) -> Seq<char> {
    if 0 <= y <= 9999 {
        zero_padded(y as nat, 4)
    } else if y < 0 {
        seq!['-'] + zero_padded((-y) as nat, 4)
    } else {
        seq!['+'] + zero_padded(y as nat, 4)
    }
}

pub open spec fn iso_text(d: Date) -> Seq<char> {
    iso_year(d.year as int).push('-') + zero_padded(d.month as nat, 2).push('-') + zero_padded(
        d.day as nat,
        2,
    )
}

/// `minor` as both minor units and the locale's formatted text.
pub open spec fn money_as(l: &Locale, m: JsonMoney, minor: i64) -> bool {
    m.minor_units == minor && m.formatted@ == l.money_text(minor as int)
}

/// What the document says of `report` in `l`, with `sections` chosen.
pub open spec fn json_describes(j: JsonReport, report: &Report, l: &Locale, sections: Sections) -> bool {
    &&& j.year == report.year
    &&& j.generated@ == iso_text(report.generated)
    &&& j.currency_code@ == l.currency.code@
    &&& j.currency_symbol@ == l.currency.symbol@
    &&& j.minor_units_per_major == pow10(l.currency.decimals as nat)
    &&& j.locale@ == l.tag@
    &&& money_as(l, j.total, report.total_minor)
    &&& j.entry_count == report.entries@.len()
    &&& j.categories@.len() == report.categories@.len()
    &&& forall|i: int| 0 <= i < j.categories@.len() ==> {
        let c = #[trigger] j.categories@[i];
        let line = report.categories@[i];
        &&& c.0@ == line.name@
        &&& c.1 == line.entries
        &&& money_as(l, c.2, line.total_minor)
    }
    &&& (j.months is Some <==> sections.monthly)
    &&& (j.months matches Some(ms) ==> {
        &&& ms@.len() == 12
        &&& forall|i: int| 0 <= i < 12 ==> {
            let m = #[trigger] ms@[i];
            &&& m.0 == i + 1
            &&& m.1@ == month_text(i)
            &&& money_as(l, m.2, report.months@[i])
        }
    })
    &&& (j.entries is Some <==> sections.entries)
    &&& (j.entries matches Some(es) ==> {
        &&& es@.len() == report.entries@.len()
        &&& forall|i: int| 0 <= i < es@.len() ==> {
            let e = #[trigger] es@[i];
            let entry = report.entries@[i];
            &&& e.0@ == iso_text(entry.spent_on)
            &&& e.1@ == entry.category@
            &&& money_as(l, e.2, entry.amount_minor)
            &&& e.3@ == entry.description@
        }
    })
}

/// A day written as ISO 8601's `yyyy-mm-dd`, whatever the locale shows.
pub fn iso_date(d: Date) -> (s: String)
    ensures
        s@ == iso_text(d),
{
    let mut out: Vec<char> = Vec::new();
    if d.year < 0 {
        out.push('-');
        let magnitude: u64 = (0i64 - d.year as i64) as u64;
        let digits = zero_padded_of(magnitude, 4);
        push_range(&mut out, &digits, 0, digits.len());
    } else {
        if d.year > 9999 {
            out.push('+');
        }
        let digits = zero_padded_of(d.year as u64, 4);
        push_range(&mut out, &digits, 0, digits.len());
    }
    assert(out@ =~= iso_year(d.year as int));
    out.push('-');
    let m = zero_padded_of(d.month as u64, 2);
    push_range(&mut out, &m, 0, m.len());
    out.push('-');
    let day = zero_padded_of(d.day as u64, 2);
    push_range(&mut out, &day, 0, day.len());
    assert(out@ =~= iso_text(d));
    string_of(&out)
}

fn money(l: &Locale, minor: i64) -> (m: JsonMoney)
    requires
        l.wf(),
    ensures
        money_as(l, m, minor),
{
    JsonMoney { minor_units: minor, formatted: l.format_money(minor) }
}

/// The document for `report` in `locale`: every key, the months when the
/// monthly section is wanted and the entries when the itemised one is.
pub fn json_report(report: &Report, locale: &Locale, sections: Sections) -> (j: JsonReport)
    requires
        locale.wf(),
        report.months@.len() == 12,
    ensures
        json_describes(j, report, locale, sections),
{
    proof {
        lemma_pow10_bounds(locale.currency.decimals as nat);
    }
    let per_major = pow10_of(locale.currency.decimals) as i64;

    let mut categories: Vec<(String, usize, JsonMoney)> = Vec::new();
    let mut i: usize = 0;
    while i < report.categories.len()
        invariant
            i <= report.categories@.len(),
            locale.wf(),
            categories@.len() == i,
            forall|k: int| 0 <= k < i ==> {
                let c = #[trigger] categories@[k];
                let line = report.categories@[k];
                &&& c.0@ == line.name@
                &&& c.1 == line.entries
                &&& money_as(locale, c.2, line.total_minor)
            },
        decreases report.categories.len() - i,
    {
        let line = &report.categories[i];
        categories.push((line.name.clone(), line.entries, money(locale, line.total_minor)));
        i += 1;
    }

    let months = if sections.monthly {
        let mut ms: Vec<(u32, String, JsonMoney)> = Vec::new();
        let mut k: usize = 0;
        while k < 12
            invariant
                k <= 12,
                locale.wf(),
                report.months@.len() == 12,
                ms@.len() == k,
                forall|n: int| 0 <= n < k ==> {
                    let m = #[trigger] ms@[n];
                    &&& m.0 == n + 1
                    &&& m.1@ == month_text(n)
                    &&& money_as(locale, m.2, report.months@[n])
                },
            decreases 12 - k,
        {
            let name = Report::month_name(k);
            ms.push(((k + 1) as u32, name.to_owned(), money(locale, report.months[k])));
            k += 1;
        }
        Some(ms)
    } else {
        None
    };

    let entries = if sections.entries {
        let mut es: Vec<(String, String, JsonMoney, String)> = Vec::new();
        let mut k: usize = 0;
        while k < report.entries.len()
            invariant
                k <= report.entries@.len(),
                locale.wf(),
                es@.len() == k,
                forall|n: int| 0 <= n < k ==> {
                    let e = #[trigger] es@[n];
                    let entry = report.entries@[n];
                    &&& e.0@ == iso_text(entry.spent_on)
                    &&& e.1@ == entry.category@
                    &&& money_as(locale, e.2, entry.amount_minor)
                    &&& e.3@ == entry.description@
                },
            decreases report.entries.len() - k,
        {
            let entry = &report.entries[k];
            es.push((
                iso_date(entry.spent_on),
                entry.category.clone(),
                money(locale, entry.amount_minor),
                entry.description.clone(),
            ));
            k += 1;
        }
        Some(es)
    } else {
        None
    };

    JsonReport {
        year: report.year,
        generated: iso_date(report.generated),
        currency_code: locale.currency.code.to_owned(),
        currency_symbol: locale.currency.symbol.to_owned(),
        minor_units_per_major: per_major,
        locale: locale.tag.clone(),
        total: money(locale, report.total_minor),
        entry_count: report.entries.len(),
        categories,
        months,
        entries,
    }
}

/// The document's count and total agree with its category lines: in a
/// report whose category lines tally its entries, the entry count is what
/// the lines' counts add up to and the total is what their totals add up to.
pub proof fn the_json_counts_agree_with_the_categories(j: JsonReport, r: &Report, l: &Locale, sections: Sections)
    requires
        json_describes(j, r, l, sections),
        lines_view(r.categories@) == category_tally(r.entries@),
        r.total_minor == amount_sum(r.entries@),
    ensures
        j.entry_count == lines_count(lines_view(r.categories@)),
        j.total.minor_units == lines_total(lines_view(r.categories@)),
{
    category_counts_add_up_to_the_entries(r.entries@);
    categories_add_up_to_the_total(r.entries@);
}

} // verus!
