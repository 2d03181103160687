//! HTML, for reading in a browser and printing from one.
//!
//! One self-contained file: no scripts, no external stylesheet, no fonts to
//! fetch. It can be opened from a memory stick on a machine with no network
//! and look the same, and printing it is how this app makes a PDF.

use vstd::prelude::*;

use crate::i18n::catalogue::filled;
use crate::i18n::{counted, current_code, owned_bindings, plural, said, template_of, text, Registry, RegistryView};
use crate::locale::Locale;
use crate::report::csv::strings_view;
use crate::report::{
    amount_sum, categories_add_up_to_the_total, category_counts_add_up_to_the_entries, category_tally, escape_markup,
    escaped, lines_count, lines_total, lines_view, month_rows_view, months_spent, months_view, Report, Sections,
};
use crate::strings::{concat, decimal, push_str, signed_decimal, signed_text, unsigned_text};

verus! {

/// Readable on screen, sane on paper, and legible in either colour scheme.
pub const STYLE: &'static str = "<style>
  :root { color-scheme: light dark; }
  body {
    font-family: Ubuntu, \"Helvetica Neue\", Arial, sans-serif;
    margin: 2rem auto; max-width: 50rem; padding: 0 1rem; line-height: 1.5;
  }
  h1 { font-size: 1.6rem; margin-bottom: 0.25rem; }
  h2 { font-size: 1.15rem; margin-top: 2rem; }
  .meta { color: #666; margin-top: 0; }
  .total { font-size: 1.1rem; }
  table { border-collapse: collapse; width: 100%; margin-top: 0.5rem; }
  th, td { text-align: left; padding: 0.4rem 0.6rem; border-bottom: 1px solid #ddd; }
  th.n, td.n { text-align: right; font-variant-numeric: tabular-nums; }
  tfoot th { border-top: 2px solid #999; border-bottom: none; }
  tbody tr:nth-child(even) { background: rgba(127, 127, 127, 0.08); }
  .foot { color: #666; font-size: 0.85rem; margin-top: 2.5rem; }
  @media print {
    body { margin: 0; max-width: none; }
    h2 { break-after: avoid; }
    tr { break-inside: avoid; }
  }
</style>
";

/// The report's title, with its year.
pub open spec fn title_text(reg: RegistryView, r: &Report) -> Seq<char> {
    filled(template_of(reg, "report.title"@), seq![("year"@, signed_decimal(r.year as int))])
}

/// The line under the heading: the date, the currency, and the two counts,
/// each a counted message in its own right.
pub open spec fn meta_text(reg: RegistryView, r: &Report, l: &Locale) -> Seq<char> {
    filled(
        template_of(reg, "report.meta"@),
        seq![
            ("date"@, l.date_text(r.generated)),
            ("code"@, l.currency.code@),
            ("entries"@, counted(reg, "report.entry_count"@, r.entries@.len() as nat)),
            ("categories"@, counted(reg, "report.category_count"@, r.categories@.len() as nat)),
        ],
    )
}

pub open spec fn html_head(reg: RegistryView, r: &Report) -> Seq<char> {
    "<!doctype html>\n<html lang=\""@ + escaped(reg.catalogues[reg.current].code) + "\">\n<head>\n"@
        + "<meta charset=\"utf-8\"/>\n"@
        + "<meta name=\"viewport\" content=\"width=device-width, initial-scale=1\"/>\n"@ + "<title>"@
        + escaped(title_text(reg, r)) + "</title>\n"@ + STYLE@ + "</head>\n<body>\n"@
}

pub open spec fn html_summary(reg: RegistryView, r: &Report, l: &Locale) -> Seq<char> {
    "<h1>"@ + escaped(title_text(reg, r)) + "</h1>\n"@ + "<p class=\"meta\">"@ + escaped(
        meta_text(reg, r, l),
    ) + "</p>\n"@ + "<p class=\"total\">"@ + escaped(said(reg, "report.total_spent"@))
        + " <strong>"@ + escaped(l.money_text(r.total_minor as int)) + "</strong></p>\n"@
}

pub open spec fn category_row(r: &Report, l: &Locale, shares: Seq<Seq<char>>, i: int) -> Seq<char> {
    "<tr><td>"@ + escaped(r.categories@[i].name@) + "</td><td class=\"n\">"@ + decimal(
        r.categories@[i].entries as nat,
    ) + "</td><td class=\"n\">"@ + escaped(l.money_text(r.categories@[i].total_minor as int))
        + "</td><td class=\"n\">"@ + escaped(shares[i]) + "</td></tr>\n"@
}

pub open spec fn category_rows(r: &Report, l: &Locale, shares: Seq<Seq<char>>) -> Seq<Seq<char>> {
    Seq::new(r.categories@.len(), |i: int| category_row(r, l, shares, i))
}

pub open spec fn categories_head(reg: RegistryView) -> Seq<char> {
    "<h2>"@ + escaped(said(reg, "report.by_category"@)) + "</h2>\n<table>\n<thead><tr><th>"@ + escaped(
        said(reg, "report.column.category"@),
    ) + "</th><th class=\"n\">"@ + escaped(said(reg, "report.column.entries"@))
        + "</th><th class=\"n\">"@ + escaped(said(reg, "report.column.total"@))
        + "</th><th class=\"n\">"@ + escaped(said(reg, "report.column.share"@))
        + "</th></tr></thead>\n<tbody>\n"@
}

pub open spec fn categories_foot(reg: RegistryView, r: &Report, l: &Locale) -> Seq<char> {
    "</tbody>\n<tfoot><tr><th>"@ + escaped(said(reg, "report.column.total"@))
        + "</th><th class=\"n\">"@ + decimal(r.entries@.len() as nat) + "</th><th class=\"n\">"@
        + escaped(l.money_text(r.total_minor as int))
        + "</th><th class=\"n\"></th></tr></tfoot>\n</table>\n"@
}

pub open spec fn html_categories(reg: RegistryView, r: &Report, l: &Locale, shares: Seq<Seq<char>>) -> Seq<
    char,
> {
    categories_head(reg) + concat(category_rows(r, l, shares)) + categories_foot(reg, r, l)
}

pub open spec fn html_months(reg: RegistryView, r: &Report, l: &Locale) -> Seq<char> {
    let ms = months_spent(months_view(r.months@), 12);
    "<h2>"@ + escaped(said(reg, "report.by_month"@)) + "</h2>\n<table>\n<thead><tr><th>"@ + escaped(
        said(reg, "report.column.month"@),
    ) + "</th><th class=\"n\">"@ + escaped(said(reg, "report.column.total"@))
        + "</th></tr></thead>\n<tbody>\n"@ + concat(
        Seq::new(
            ms.len(),
            |i: int|
                "<tr><td>"@ + escaped(ms[i].0) + "</td><td class=\"n\">"@ + escaped(
                    l.money_text(ms[i].1),
                ) + "</td></tr>\n"@,
        ),
    ) + "</tbody>\n</table>\n"@
}

pub open spec fn entry_row(r: &Report, l: &Locale, i: int) -> Seq<char> {
    "<tr><td>"@ + escaped(l.date_text(r.entries@[i].spent_on)) + "</td><td>"@ + escaped(
        r.entries@[i].category@,
    ) + "</td><td class=\"n\">"@ + escaped(l.money_text(r.entries@[i].amount_minor as int))
        + "</td><td>"@ + escaped(r.entries@[i].description@) + "</td></tr>\n"@
}

pub open spec fn entry_rows(r: &Report, l: &Locale) -> Seq<Seq<char>> {
    Seq::new(r.entries@.len(), |i: int| entry_row(r, l, i))
}

pub open spec fn entries_head(reg: RegistryView) -> Seq<char> {
    "<h2>"@ + escaped(said(reg, "report.column.entries"@)) + "</h2>\n<table>\n<thead><tr><th>"@
        + escaped(said(reg, "report.column.date"@)) + "</th><th>"@ + escaped(
        said(reg, "report.column.category"@),
    ) + "</th><th class=\"n\">"@ + escaped(said(reg, "report.column.amount"@)) + "</th><th>"@
        + escaped(said(reg, "report.column.description"@)) + "</th></tr></thead>\n<tbody>\n"@
}

pub open spec fn html_entries(reg: RegistryView, r: &Report, l: &Locale) -> Seq<char> {
    entries_head(reg) + concat(entry_rows(r, l)) + "</tbody>\n</table>\n"@
}

/// The whole page.
pub open spec fn html_text(
    reg: RegistryView,
    r: &Report,
    l: &Locale,
    sections: Sections,
    shares: Seq<Seq<char>>,
) -> Seq<char> {
    html_head(reg, r) + html_summary(reg, r, l) + html_categories(reg, r, l, shares) + (
    if sections.monthly {
        html_months(reg, r, l)
    } else {
        Seq::empty()
    }) + (if sections.entries {
        html_entries(reg, r, l)
    } else {
        Seq::empty()
    }) + "<p class=\"foot\">Generic Accounting System</p>\n</body>\n</html>\n"@
}

/// Appends `s` escaped.
fn push_escaped(out: &mut String, s: &str)
    ensures
        final(out)@ == old(out)@ + escaped(s@),
{
    let e = escape_markup(s);
    push_str(out, e.as_str());
}

/// A key's words, with nothing bound.
fn words(reg: &Registry, key: &str) -> (s: String)
    requires
        reg.wf(),
    ensures
        s@ == said(reg.view(), key@),
{
    let none: Vec<(&str, String)> = Vec::new();
    assert(owned_bindings(none@) =~= Seq::empty());
    text(reg, key, none.as_slice())
}

/// A counted key's words for `n`.
fn counted_words(reg: &Registry, key: &str, n: u64) -> (s: String)
    requires
        reg.wf(),
    ensures
        s@ == counted(reg.view(), key@, n as nat),
{
    let none: Vec<(&str, String)> = Vec::new();
    assert(owned_bindings(none@) =~= Seq::empty());
    let s = plural(reg, key, n, none.as_slice());
    assert(seq![("n"@, decimal(n as nat))] + owned_bindings(none@) =~= seq![("n"@, decimal(n as nat))]);
    s
}

/// The report's title.
fn title(reg: &Registry, report: &Report) -> (s: String)
    requires
        reg.wf(),
    ensures
        s@ == title_text(reg.view(), report),
{
    let year = signed_text(report.year as i64);
    let mut values: Vec<(&str, String)> = Vec::new();
    values.push(("year", year));
    proof {
        reveal_strlit("year");
    }
    assert(owned_bindings(values@) =~= seq![("year"@, signed_decimal(report.year as int))]);
    text(reg, "report.title", values.as_slice())
}

/// The line under the heading, shared with the Word writer so the two
/// documents say the same thing.
pub fn meta(reg: &Registry, report: &Report, locale: &Locale) -> (s: String)
    requires
        reg.wf(),
    ensures
        s@ == meta_text(reg.view(), report, locale),
{
    let date = locale.format_date(report.generated);
    let code = locale.currency.code.to_owned();
    let entries = counted_words(reg, "report.entry_count", report.entries.len() as u64);
    let categories = counted_words(reg, "report.category_count", report.categories.len() as u64);
    let mut values: Vec<(&str, String)> = Vec::new();
    values.push(("date", date));
    values.push(("code", code));
    values.push(("entries", entries));
    values.push(("categories", categories));
    proof {
        reveal_strlit("date");
        reveal_strlit("code");
        reveal_strlit("entries");
        reveal_strlit("categories");
    }
    assert(owned_bindings(values@) =~= seq![
        ("date"@, locale.date_text(report.generated)),
        ("code"@, locale.currency.code@),
        ("entries"@, counted(reg.view(), "report.entry_count"@, report.entries@.len() as nat)),
        ("categories"@, counted(reg.view(), "report.category_count"@, report.categories@.len() as nat)),
    ]);
    text(reg, "report.meta", values.as_slice())
}

fn push_head(out: &mut String, reg: &Registry, report: &Report)
    requires
        reg.wf(),
    ensures
        final(out)@ == old(out)@ + html_head(reg.view(), report),
{
    let ghost start = out@;
    push_str(out, "<!doctype html>\n<html lang=\"");
    let code = current_code(reg);
    push_escaped(out, code.as_str());
    push_str(out, "\">\n<head>\n");
    push_str(out, "<meta charset=\"utf-8\"/>\n");
    push_str(out, "<meta name=\"viewport\" content=\"width=device-width, initial-scale=1\"/>\n");
    push_str(out, "<title>");
    let t = title(reg, report);
    push_escaped(out, t.as_str());
    push_str(out, "</title>\n");
    push_str(out, STYLE);
    push_str(out, "</head>\n<body>\n");
    assert(out@ =~= start + html_head(reg.view(), report));
}

#[verifier::spinoff_prover]
fn push_summary(out: &mut String, reg: &Registry, report: &Report, locale: &Locale)
    requires
        reg.wf(),
        locale.wf(),
    ensures
        final(out)@ == old(out)@ + html_summary(reg.view(), report, locale),
{
    let ghost start = out@;
    push_str(out, "<h1>");
    let t = title(reg, report);
    push_escaped(out, t.as_str());
    push_str(out, "</h1>\n");
    push_str(out, "<p class=\"meta\">");
    let m = meta(reg, report, locale);
    push_escaped(out, m.as_str());
    push_str(out, "</p>\n");
    push_str(out, "<p class=\"total\">");
    let w = words(reg, "report.total_spent");
    push_escaped(out, w.as_str());
    push_str(out, " <strong>");
    let money = locale.format_money(report.total_minor);
    push_escaped(out, money.as_str());
    push_str(out, "</strong></p>\n");
    assert(out@ =~= start + html_summary(reg.view(), report, locale));
}

#[verifier::spinoff_prover]
#[verifier::rlimit(40)]
fn push_category_row(out: &mut String, report: &Report, locale: &Locale, shares: &Vec<String>, i: usize)
    requires
        locale.wf(),
        shares@.len() == report.categories@.len(),
        i < report.categories@.len(),
    ensures
        final(out)@ == old(out)@ + category_row(report, locale, strings_view(shares@), i as int),
{
    let ghost before = out@;
    let line = &report.categories[i];
    push_str(out, "<tr><td>");
    push_escaped(out, line.name.as_str());
    push_str(out, "</td><td class=\"n\">");
    push_str(out, unsigned_text(line.entries as u64).as_str());
    push_str(out, "</td><td class=\"n\">");
    push_escaped(out, locale.format_money(line.total_minor).as_str());
    push_str(out, "</td><td class=\"n\">");
    push_escaped(out, shares[i].as_str());
    push_str(out, "</td></tr>\n");
    assert(shares@[i as int]@ == strings_view(shares@)[i as int]);
    assert(out@ =~= before + category_row(report, locale, strings_view(shares@), i as int));
}

fn push_entry_row(out: &mut String, report: &Report, locale: &Locale, k: usize)
    requires
        locale.wf(),
        k < report.entries@.len(),
    ensures
        final(out)@ == old(out)@ + entry_row(report, locale, k as int),
{
    let ghost before = out@;
    let e = &report.entries[k];
    push_str(out, "<tr><td>");
    push_escaped(out, locale.format_date(e.spent_on).as_str());
    push_str(out, "</td><td>");
    push_escaped(out, e.category.as_str());
    push_str(out, "</td><td class=\"n\">");
    push_escaped(out, locale.format_money(e.amount_minor).as_str());
    push_str(out, "</td><td>");
    push_escaped(out, e.description.as_str());
    push_str(out, "</td></tr>\n");
    assert(out@ =~= before + entry_row(report, locale, k as int));
}

fn push_categories_head(out: &mut String, reg: &Registry)
    requires
        reg.wf(),
    ensures
        final(out)@ == old(out)@ + categories_head(reg.view()),
{
    let ghost start = out@;
    push_str(out, "<h2>");
    push_escaped(out, words(reg, "report.by_category").as_str());
    push_str(out, "</h2>\n<table>\n<thead><tr><th>");
    push_escaped(out, words(reg, "report.column.category").as_str());
    push_str(out, "</th><th class=\"n\">");
    push_escaped(out, words(reg, "report.column.entries").as_str());
    push_str(out, "</th><th class=\"n\">");
    push_escaped(out, words(reg, "report.column.total").as_str());
    push_str(out, "</th><th class=\"n\">");
    push_escaped(out, words(reg, "report.column.share").as_str());
    push_str(out, "</th></tr></thead>\n<tbody>\n");
    assert(out@ =~= start + categories_head(reg.view()));
}

fn push_categories_foot(out: &mut String, reg: &Registry, report: &Report, locale: &Locale)
    requires
        reg.wf(),
        locale.wf(),
    ensures
        final(out)@ == old(out)@ + categories_foot(reg.view(), report, locale),
{
    let ghost start = out@;
    push_str(out, "</tbody>\n<tfoot><tr><th>");
    push_escaped(out, words(reg, "report.column.total").as_str());
    push_str(out, "</th><th class=\"n\">");
    push_str(out, unsigned_text(report.entries.len() as u64).as_str());
    push_str(out, "</th><th class=\"n\">");
    push_escaped(out, locale.format_money(report.total_minor).as_str());
    push_str(out, "</th><th class=\"n\"></th></tr></tfoot>\n</table>\n");
    assert(out@ =~= start + categories_foot(reg.view(), report, locale));
}

fn push_categories(out: &mut String, reg: &Registry, report: &Report, locale: &Locale, shares: &Vec<String>)
    requires
        reg.wf(),
        locale.wf(),
        shares@.len() == report.categories@.len(),
    ensures
        final(out)@ == old(out)@ + html_categories(reg.view(), report, locale, strings_view(shares@)),
{
    let ghost start = out@;
    push_categories_head(out, reg);
    let ghost rows = category_rows(report, locale, strings_view(shares@));
    let ghost head = out@;
    let mut i: usize = 0;
    while i < report.categories.len()
        invariant
            i <= report.categories@.len(),
            shares@.len() == report.categories@.len(),
            locale.wf(),
            rows == category_rows(report, locale, strings_view(shares@)),
            out@ == head + concat(rows.take(i as int)),
        decreases report.categories.len() - i,
    {
        push_category_row(out, report, locale, shares, i);
        assert(rows.take(i + 1).drop_last() =~= rows.take(i as int));
        i += 1;
    }
    assert(rows.take(i as int) =~= rows);
    let ghost body = out@;
    push_categories_foot(out, reg, report, locale);
    assert(out@ =~= start + html_categories(reg.view(), report, locale, strings_view(shares@)));
}

fn push_months(out: &mut String, reg: &Registry, report: &Report, locale: &Locale)
    requires
        reg.wf(),
        locale.wf(),
        report.months@.len() == 12,
    ensures
        final(out)@ == old(out)@ + html_months(reg.view(), report, locale),
{
    let ghost start = out@;
    push_str(out, "<h2>");
    push_escaped(out, words(reg, "report.by_month").as_str());
    push_str(out, "</h2>\n<table>\n<thead><tr><th>");
    push_escaped(out, words(reg, "report.column.month").as_str());
    push_str(out, "</th><th class=\"n\">");
    push_escaped(out, words(reg, "report.column.total").as_str());
    push_str(out, "</th></tr></thead>\n<tbody>\n");
    let months = report.months_with_spending();
    let ghost ms = months_spent(months_view(report.months@), 12);
    let ghost rows = Seq::new(
        ms.len(),
        |i: int|
            "<tr><td>"@ + escaped(ms[i].0) + "</td><td class=\"n\">"@ + escaped(
                locale.money_text(ms[i].1),
            ) + "</td></tr>\n"@,
    );
    let ghost head = out@;
    let mut k: usize = 0;
    while k < months.len()
        invariant
            k <= months@.len(),
            locale.wf(),
            month_rows_view(months@) == ms,
            rows == Seq::new(
                ms.len(),
                |i: int|
                    "<tr><td>"@ + escaped(ms[i].0) + "</td><td class=\"n\">"@ + escaped(
                        locale.money_text(ms[i].1),
                    ) + "</td></tr>\n"@,
            ),
            out@ == head + concat(rows.take(k as int)),
        decreases months.len() - k,
    {
        let ghost before = out@;
        let (name, total) = months[k];
        assert(ms[k as int] == (name@, total as int));
        push_str(out, "<tr><td>");
        push_escaped(out, name);
        push_str(out, "</td><td class=\"n\">");
        push_escaped(out, locale.format_money(total).as_str());
        push_str(out, "</td></tr>\n");
        assert(out@ =~= before + rows[k as int]);
        assert(rows.take(k + 1).drop_last() =~= rows.take(k as int));
        k += 1;
    }
    assert(rows.take(k as int) =~= rows);
    push_str(out, "</tbody>\n</table>\n");
    assert(out@ =~= start + html_months(reg.view(), report, locale));
}

fn push_entries_head(out: &mut String, reg: &Registry)
    requires
        reg.wf(),
    ensures
        final(out)@ == old(out)@ + entries_head(reg.view()),
{
    let ghost start = out@;
    push_str(out, "<h2>");
    push_escaped(out, words(reg, "report.column.entries").as_str());
    push_str(out, "</h2>\n<table>\n<thead><tr><th>");
    push_escaped(out, words(reg, "report.column.date").as_str());
    push_str(out, "</th><th>");
    push_escaped(out, words(reg, "report.column.category").as_str());
    push_str(out, "</th><th class=\"n\">");
    push_escaped(out, words(reg, "report.column.amount").as_str());
    push_str(out, "</th><th>");
    push_escaped(out, words(reg, "report.column.description").as_str());
    push_str(out, "</th></tr></thead>\n<tbody>\n");
    assert(out@ =~= start + entries_head(reg.view()));
}

fn push_entries(out: &mut String, reg: &Registry, report: &Report, locale: &Locale)
    requires
        reg.wf(),
        locale.wf(),
    ensures
        final(out)@ == old(out)@ + html_entries(reg.view(), report, locale),
{
    let ghost start = out@;
    push_entries_head(out, reg);
    let ghost rows = entry_rows(report, locale);
    let ghost head = out@;
    let mut k: usize = 0;
    while k < report.entries.len()
        invariant
            k <= report.entries@.len(),
            locale.wf(),
            rows == entry_rows(report, locale),
            out@ == head + concat(rows.take(k as int)),
        decreases report.entries.len() - k,
    {
        push_entry_row(out, report, locale, k);
        assert(rows.take(k + 1).drop_last() =~= rows.take(k as int));
        k += 1;
    }
    assert(rows.take(k as int) =~= rows);
    let ghost body = out@;
    push_str(out, "</tbody>\n</table>\n");
    assert(out@ =~= start + html_entries(reg.view(), report, locale));
}

/// The page as text. `shares` holds each category line's share of the year,
/// already written out.
pub fn render_text(
    reg: &Registry,
    report: &Report,
    locale: &Locale,
    sections: Sections,
    shares: &Vec<String>,
) -> (out: String)
    requires
        reg.wf(),
        locale.wf(),
        report.printable(),
        shares@.len() == report.categories@.len(),
    ensures
        out@ == html_text(reg.view(), report, locale, sections, strings_view(shares@)),
{
    let mut out = String::new();
    push_head(&mut out, reg, report);
    push_summary(&mut out, reg, report, locale);
    push_categories(&mut out, reg, report, locale, shares);
    let ghost upto = out@;
    if sections.monthly {
        push_months(&mut out, reg, report, locale);
    }
    let ghost upto2 = out@;
    if sections.entries {
        push_entries(&mut out, reg, report, locale);
    }
    push_str(&mut out, "<p class=\"foot\">Generic Accounting System</p>\n</body>\n</html>\n");
    assert(out@ =~= html_text(reg.view(), report, locale, sections, strings_view(shares@)));
    out
}

/// Writes the report as one self-contained HTML page, in UTF-8.
pub fn render(
    reg: &Registry,
    report: &Report,
    locale: &Locale,
    sections: Sections,
    shares: &Vec<String>,
) -> (bytes: Vec<u8>)
    requires
        reg.wf(),
        locale.wf(),
        report.printable(),
        shares@.len() == report.categories@.len(),
    ensures
        bytes@ == vstd::utf8::encode_utf8(
            html_text(reg.view(), report, locale, sections, strings_view(shares@)),
        ),
{
    let text = render_text(reg, report, locale, sections, shares);
    vstd::slice::slice_to_vec(text.as_str().as_bytes())
}

/// The category table's footer sums the rows above it: in a report whose
/// category lines tally its entries, the footer's count is what the rows'
/// counts add up to, which is the number of entries, and its amount is what
/// the rows' totals add up to, which is the year's total.
pub proof fn the_category_footer_sums_the_rows(reg: RegistryView, r: &Report, l: &Locale)
    requires
        lines_view(r.categories@) == category_tally(r.entries@),
        r.total_minor == amount_sum(r.entries@),
    ensures
        lines_count(lines_view(r.categories@)) == r.entries@.len(),
        lines_total(lines_view(r.categories@)) == r.total_minor,
        categories_foot(reg, r, l) == "</tbody>\n<tfoot><tr><th>"@ + escaped(said(reg, "report.column.total"@))
            + "</th><th class=\"n\">"@ + decimal(lines_count(lines_view(r.categories@)) as nat)
            + "</th><th class=\"n\">"@ + escaped(l.money_text(lines_total(lines_view(r.categories@))))
            + "</th><th class=\"n\"></th></tr></tfoot>\n</table>\n"@,
{
    category_counts_add_up_to_the_entries(r.entries@);
    categories_add_up_to_the_total(r.entries@);
}

} // verus!
