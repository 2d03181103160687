//! A year's report, and the CSV, HTML and Word documents written from it.

use std::io::Read as _;

use generic_accounting_system::ui::summary;
use generic_accounting_system::report::is_reportable;
use generic_accounting_system::calendar::Date;
use generic_accounting_system::db::SpendEntry;
use generic_accounting_system::i18n::Registry;
use generic_accounting_system::locale::Locale;
use generic_accounting_system::report::csv::{field, plain_amount};
use generic_accounting_system::report::docx::{share_out, CONTENT_WIDTH};
use generic_accounting_system::report::json::{iso_date, json_report};
use generic_accounting_system::report::{csv, docx, escape_markup, html, Format, Report, Sections};

fn entry(date: (i32, u32, u32), category: &str, minor: i64) -> SpendEntry {
    SpendEntry {
        // No report format reads the id; it only matters to edit/delete.
        id: 0,
        spent_on: Date::from_ymd(date.0, date.1, date.2).unwrap(),
        category: category.to_owned(),
        amount_minor: minor,
        description: String::new(),
    }
}

fn generated() -> Date {
    Date::from_ymd(2026, 8, 19).unwrap()
}

fn sample() -> Report {
    Report::build_on(
        2026,
        vec![
            entry((2026, 1, 14), "Groceries", 8734),
            entry((2026, 3, 2), "Groceries", 12250),
            entry((2026, 1, 1), "Rent", 95000),
            SpendEntry {
                description: "birthday <dinner> & drinks".to_owned(),
                ..entry((2026, 5, 30), "Eating Out", 4200)
            },
        ],
        generated(),
    )
}

/// Each category's share of the year, in per cent, as floating point.
fn share_values(report: &Report) -> Vec<f64> {
    report
        .categories
        .iter()
        .map(|c| {
            if report.total_minor == 0 {
                0.0
            } else {
                c.total_minor as f64 / report.total_minor as f64 * 100.0
            }
        })
        .collect()
}

/// The shares written out the way every document shows them, e.g. `12.5%`.
fn shares(report: &Report, locale: &Locale) -> Vec<String> {
    share_values(report)
        .into_iter()
        .map(|value| {
            let text = format!("{value:.1}");
            format!("{}%", text.replace('.', &locale.decimal_sep.to_string()))
        })
        .collect()
}

fn uk() -> Locale {
    Locale::from_tag("en-GB")
}

fn csv_text(report: &Report, locale: &Locale, sections: Sections) -> String {
    String::from_utf8(csv::render(report, locale, sections, &shares(report, locale))).unwrap()
}

const ENGLISH: &str = "code = \"en\"\nname = \"English\"\nplural = \"one_other\"\n";

fn registry() -> Registry {
    Registry::assemble(&[ENGLISH], (Vec::new(), Vec::new()))
}

fn page(locale: &Locale) -> String {
    let report = sample();
    String::from_utf8(html::render(&registry(), &report, locale, Sections::default(), &shares(&report, locale)))
        .unwrap()
}

fn docx_parts() -> std::collections::HashMap<String, String> {
    let report = sample();
    let bytes = docx::render(&report, &uk(), Sections::default(), &shares(&report, &uk())).unwrap();
    let mut archive = zip::ZipArchive::new(std::io::Cursor::new(bytes)).expect("a readable zip");
    let mut parts = std::collections::HashMap::new();
    for i in 0..archive.len() {
        let mut file = archive.by_index(i).unwrap();
        let mut contents = String::new();
        file.read_to_string(&mut contents).unwrap();
        parts.insert(file.name().to_owned(), contents);
    }
    parts
}

// ------------------------------------------------------------------ the figures

#[test]
fn totals_are_derived_from_the_same_entries_everywhere() {
    let report = sample();
    assert_eq!(report.total_minor, 8734 + 12250 + 95000 + 4200);

    let sum_of_categories: i64 = report.categories.iter().map(|c| c.total_minor).sum();
    let sum_of_months: i64 = report.months.iter().sum();
    assert_eq!(sum_of_categories, report.total_minor);
    assert_eq!(sum_of_months, report.total_minor);

    // Alphabetical, so the same data always makes the same document.
    let names: Vec<&str> = report.categories.iter().map(|c| c.name.as_str()).collect();
    assert_eq!(names, ["Eating Out", "Groceries", "Rent"]);
    assert_eq!(report.categories[1].entries, 2);
}

#[test]
fn shares_add_up() {
    let report = sample();
    let total: f64 = share_values(&report).iter().sum();
    assert!((total - 100.0).abs() < 0.001, "shares summed to {total}");
}

#[test]
fn empty_years_do_not_divide_by_zero() {
    let report = Report::build_on(2026, Vec::new(), generated());
    assert_eq!(report.total_minor, 0);
    assert!(report.categories.is_empty());
    assert!(report.months_with_spending().is_empty());
}

#[test]
fn markup_is_escaped_and_control_characters_removed() {
    assert_eq!(escape_markup("Books & Music"), "Books &amp; Music");
    assert_eq!(
        escape_markup("<script>alert('x')</script>"),
        "&lt;script&gt;alert(&apos;x&apos;)&lt;/script&gt;"
    );
    assert_eq!(escape_markup("a\u{0}b"), "a b");
    assert_eq!(escape_markup("keep\ttabs"), "keep\ttabs");
}

#[test]
fn entries_come_out_by_day_then_category() {
    let report = Report::build_on(
        2026,
        vec![
            entry((2026, 3, 2), "Rent", 1),
            entry((2026, 3, 2), "Bills", 2),
            entry((2025, 12, 31), "Zoo", 3),
            entry((2026, 1, 1), "Rent", 4),
        ],
        generated(),
    );
    let order: Vec<i64> = report.entries.iter().map(|e| e.amount_minor).collect();
    assert_eq!(order, [3, 4, 2, 1]);
    assert_eq!(report.months[2], 3);
    assert_eq!(report.months[11], 3);
}

#[test]
fn only_months_with_spending_are_listed() {
    let report = sample();
    assert_eq!(
        report.months_with_spending(),
        [("January", 103_734), ("March", 12_250), ("May", 4_200)]
    );
    assert_eq!(Report::month_name(0), "January");
    assert_eq!(Report::month_name(11), "December");
}

#[test]
fn the_file_name_carries_the_year_and_the_format() {
    let report = sample();
    assert_eq!(report.file_name(Format::Csv), "spending-report-2026.csv");
    assert_eq!(report.file_name(Format::Docx), "spending-report-2026.docx");
    assert_eq!(report.file_name(Format::Html), "spending-report-2026.html");
    assert_eq!(report.file_name(Format::Json), "spending-report-2026.json");
    assert_eq!(Format::all().map(Format::label), ["CSV", "Word", "HTML", "JSON"]);
}

#[test]
fn by_default_every_section_is_written() {
    let sections = Sections::default();
    assert!(sections.monthly && sections.entries);
}

// ------------------------------------------------------------------ CSV

#[test]
fn opens_with_a_bom_and_ends_lines_the_way_the_standard_asks() {
    let csv = csv_text(&sample(), &uk(), Sections::default());
    assert!(csv.starts_with('\u{feff}'));
    assert!(csv.contains("\r\n"));
}

#[test]
fn amounts_are_plain_numbers_a_spreadsheet_can_total() {
    let csv = csv_text(&sample(), &uk(), Sections::default());
    assert!(csv.contains("Groceries,2,209.84,"), "{csv}");
    assert!(!csv.contains('£'));
}

#[test]
fn comma_decimal_locales_get_semicolons() {
    let csv = csv_text(&sample(), &Locale::from_tag("de-DE"), Sections::default());
    assert!(csv.contains("Groceries;2;209,84;"), "{csv}");
}

#[test]
fn fields_are_quoted_when_they_have_to_be() {
    assert_eq!(field("plain", ','), "plain");
    assert_eq!(field("a,b", ','), "\"a,b\"");
    assert_eq!(field("a,b", ';'), "a,b");
    assert_eq!(field("say \"hi\"", ','), "\"say \"\"hi\"\"\"");
    assert_eq!(field("two\nlines", ','), "\"two\nlines\"");
}

#[test]
fn spreadsheet_formulas_are_defused() {
    // The description is the user's text, and it stays text.
    for lead in ["=", "+", "-", "@"] {
        let defused = field(&format!("{lead}HYPERLINK(\"http://x\")"), ',');
        assert!(defused.starts_with('\'') || defused.starts_with("\"'"), "{defused}");
    }

    let report = Report::build_on(
        2026,
        vec![SpendEntry {
            description: "=cmd|'/c calc'!A1".to_owned(),
            ..entry((2026, 2, 2), "Odd", 100)
        }],
        generated(),
    );
    let csv = csv_text(&report, &uk(), Sections::default());
    assert!(!csv.contains("\r\n=cmd"), "a formula reached a cell: {csv}");
    assert!(csv.contains("'=cmd"), "{csv}");
}

#[test]
fn negative_amounts_stay_plain_numbers() {
    assert_eq!(field("-12.34", ','), "-12.34");
    // A comma decimal separator only stays unquoted when it is not also
    // the delimiter — render() picks ';' for exactly that locale.
    assert_eq!(field("-12,34", ';'), "-12,34");
    assert_eq!(field("-0", ','), "-0");
    // Still caught: a dangerous lead followed by anything but digits.
    assert_eq!(field("-HYPERLINK(1)", ','), "'-HYPERLINK(1)");
    assert_eq!(field("-1+1", ','), "'-1+1");

    let report = Report::build_on(2026, vec![entry((2026, 2, 2), "Refund", -1234)], generated());
    let csv = csv_text(&report, &uk(), Sections::default());
    assert!(csv.contains(",-12.34,"), "{csv}");
    assert!(!csv.contains("'-12.34"), "{csv}");
}

#[test]
fn csv_sections_can_be_left_out() {
    let bare = csv_text(&sample(), &uk(), Sections { monthly: false, entries: false });
    assert!(!bare.contains("Month"));
    assert!(!bare.contains("Description"));
    assert!(bare.contains("Category"));
}

#[test]
fn plain_amounts_have_no_symbol_and_no_grouping() {
    assert_eq!(plain_amount(123_456_789, &uk()), "1234567.89");
    assert_eq!(plain_amount(-5, &uk()), "-0.05");
    assert_eq!(plain_amount(1234, &Locale::from_tag("de-DE")), "12,34");
    assert_eq!(plain_amount(1234, &Locale::from_tag("ja-JP")), "1234");
}

// ------------------------------------------------------------------ HTML

#[test]
fn is_a_whole_self_contained_document() {
    let html = page(&uk());
    assert!(html.starts_with("<!doctype html>"));
    assert!(html.trim_end().ends_with("</html>"));
    // Nothing to fetch: no scripts, no remote anything.
    assert!(!html.contains("<script"));
    assert!(!html.contains("http://"));
    assert!(!html.contains("https://"));
}

/// Walk the tags and check every one that opens is closed, in order.
#[test]
fn every_tag_that_opens_is_closed_in_order() {
    let html = page(&uk());
    let mut stack: Vec<String> = Vec::new();
    let mut rest = html.as_str();

    while let Some(start) = rest.find('<') {
        rest = &rest[start + 1..];
        let Some(end) = rest.find('>') else { break };
        let tag = &rest[..end];
        rest = &rest[end + 1..];

        // Skip the doctype, comments and self-closing tags.
        if tag.starts_with('!') || tag.ends_with('/') {
            continue;
        }
        let name: String =
            tag.trim_start_matches('/').split_whitespace().next().unwrap_or("").to_ascii_lowercase();
        if tag.starts_with('/') {
            assert_eq!(stack.pop().as_deref(), Some(name.as_str()), "</{name}> closes something that was not open");
        } else {
            stack.push(name);
        }
    }
    assert!(stack.is_empty(), "left open: {stack:?}");
}

#[test]
fn user_text_cannot_become_markup() {
    let html = page(&uk());
    assert!(html.contains("birthday &lt;dinner&gt; &amp; drinks"), "{html}");
    assert!(!html.contains("<dinner>"));
}

#[test]
fn figures_are_the_locales_own() {
    let html = page(&uk());
    assert!(html.contains("£1,201.84"), "{html}");
    let german = page(&Locale::from_tag("de-DE"));
    assert!(german.contains("1.201,84\u{a0}€"), "{german}");
}

// ------------------------------------------------------------------ Word

#[test]
fn the_package_holds_the_parts_word_looks_for() {
    let parts = docx_parts();
    for name in [
        "[Content_Types].xml",
        "_rels/.rels",
        "word/_rels/document.xml.rels",
        "word/styles.xml",
        "word/document.xml",
    ] {
        assert!(parts.contains_key(name), "missing {name}");
    }
}

#[test]
fn the_document_is_well_formed_and_complete() {
    let parts = docx_parts();
    let document = &parts["word/document.xml"];
    assert!(document.starts_with("<?xml"));
    assert!(document.ends_with("</w:document>"));
    // The line continuations in the templates must not survive into the
    // file: a stray backslash inside a tag would break the XML.
    assert!(!document.contains('\\'));
    assert_eq!(document.matches("<w:tbl>").count(), document.matches("</w:tbl>").count());
    assert_eq!(document.matches("<w:tc>").count(), document.matches("</w:tc>").count());
}

#[test]
fn user_text_is_escaped_into_the_xml() {
    let parts = docx_parts();
    let document = &parts["word/document.xml"];
    assert!(document.contains("birthday &lt;dinner&gt; &amp; drinks"), "{document}");
    assert!(!document.contains("<dinner>"));
}

#[test]
fn the_figures_are_in_there() {
    let parts = docx_parts();
    let document = &parts["word/document.xml"];
    assert!(document.contains("£1,201.84"));
    assert!(document.contains("Groceries"));
    assert!(document.contains("Spending report 2026"));
}

#[test]
fn column_widths_share_out_the_page() {
    let widths = share_out(&vec![46, 14, 22, 18]);
    assert_eq!(widths.len(), 4);
    assert_eq!(widths, [9638 * 46 / 100, 9638 * 14 / 100, 9638 * 22 / 100, 9638 * 18 / 100]);
    assert_eq!(CONTENT_WIDTH, 9638);
}

#[test]
fn the_pane_sums_the_year_up_in_a_line() {
    assert_eq!(summary(&sample(), &uk()), "£1,201.84 across 4 entries in 3 categories");
    let one = Report::build_on(2026, vec![entry((2026, 2, 2), "Odd", 100)], generated());
    assert_eq!(summary(&one, &uk()), "£1.00 across 1 entry in 1 category");
}

#[test]
fn a_year_is_reportable_when_its_amounts_add_up() {
    assert!(is_reportable(&sample().entries));
    assert!(is_reportable(&Vec::new()));
    let huge = vec![entry((2026, 1, 1), "A", i64::MAX), entry((2026, 1, 2), "B", 1)];
    assert!(!is_reportable(&huge));
    let mixed = vec![entry((2026, 1, 1), "A", i64::MAX), entry((2026, 1, 2), "B", -1)];
    assert!(is_reportable(&mixed), "only the totals have to fit, not the sizes added up");
    let one_category_too_big =
        vec![entry((2026, 1, 1), "A", i64::MAX), entry((2026, 1, 2), "A", 1), entry((2026, 2, 1), "B", -5)];
    assert!(!is_reportable(&one_category_too_big));
    let one_month_too_big =
        vec![entry((2026, 3, 1), "A", i64::MAX), entry((2026, 3, 2), "B", 1), entry((2026, 4, 1), "C", -5)];
    assert!(!is_reportable(&one_month_too_big));
    let not_a_day = SpendEntry { spent_on: Date { year: 2026, month: 2, day: 30 }, ..entry((2026, 2, 1), "C", 5) };
    assert!(!is_reportable(&vec![not_a_day]));
}

// ------------------------------------------------------------------ JSON

#[test]
fn amounts_are_exact_integers_as_well_as_readable_strings() {
    let doc = json_report(&sample(), &uk(), Sections::default());
    assert_eq!(doc.total.minor_units, 120_184);
    assert_eq!(doc.total.formatted, "£1,201.84");
    assert_eq!(doc.currency_code, "GBP");
    assert_eq!(doc.minor_units_per_major, 100);
    assert_eq!(doc.entry_count, 4);
}

#[test]
fn dates_are_iso_whatever_the_locale_shows() {
    let doc = json_report(&sample(), &uk(), Sections::default());
    assert_eq!(doc.entries.as_ref().unwrap()[0].0, "2026-01-01");
    assert_eq!(doc.generated, "2026-08-19");
    assert_eq!(iso_date(Date::from_ymd(1999, 12, 3).unwrap()), "1999-12-03");
}

#[test]
fn every_month_is_present_so_a_reader_can_index_them() {
    let doc = json_report(&sample(), &uk(), Sections::default());
    let months = doc.months.unwrap();
    assert_eq!(months.len(), 12);
    assert_eq!(months[0].0, 1);
    assert_eq!(months[0].1, "January");
    assert_eq!(months[0].2.minor_units, 103_734);
    assert_eq!(months[11].1, "December");
}

#[test]
fn json_sections_can_be_left_out() {
    let doc = json_report(&sample(), &uk(), Sections { monthly: false, entries: false });
    assert!(doc.months.is_none());
    assert!(doc.entries.is_none());
    let names: Vec<&str> = doc.categories.iter().map(|c| c.0.as_str()).collect();
    assert_eq!(names, ["Eating Out", "Groceries", "Rent"]);
    assert_eq!(doc.categories[1].1, 2);
    assert_eq!(doc.categories[1].2.formatted, "£209.84");
}

#[test]
fn escaped_text_decodes_back_with_forbidden_characters_as_spaces() {
    let input = "Tom & \"Jerry\" <b>'s</b> &amp;\u{1}\u{7f}\ttab\r\nend";
    let out = escape_markup(input);
    assert!(!out.contains('<') && !out.contains('>') && !out.contains('"') && !out.contains('\''));
    assert!(!out.chars().any(|c| (c < '\u{20}' && c != '\t' && c != '\n' && c != '\r') || c == '\u{7f}'));
    let decoded = out
        .replace("&lt;", "<")
        .replace("&gt;", ">")
        .replace("&quot;", "\"")
        .replace("&apos;", "'")
        .replace("&amp;", "&");
    assert_eq!(decoded, "Tom & \"Jerry\" <b>'s</b> &amp;  \ttab\r\nend");
}

#[test]
fn a_report_rearranges_and_sums_its_entries() {
    let given = vec![
        entry((2026, 3, 2), "Groceries", 12250),
        entry((2026, 1, 14), "Rent", -500),
        entry((2026, 1, 14), "Groceries", 8734),
        entry((2026, 12, 31), "Books", 999),
        entry((2026, 1, 14), "Groceries", 1),
    ];
    let r = Report::build_on(2026, given.clone(), generated());
    let days: Vec<((i32, u32, u32), String)> = r
        .entries
        .iter()
        .map(|e| ((e.spent_on.year, e.spent_on.month, e.spent_on.day), e.category.clone()))
        .collect();
    for w in days.windows(2) {
        assert!(w[0].0 < w[1].0 || (w[0].0 == w[1].0 && w[0].1 <= w[1].1));
    }
    assert_eq!(r.entries.len(), given.len());
    let total: i64 = given.iter().map(|e| e.amount_minor).sum();
    assert_eq!(r.total_minor, total);
    assert_eq!(r.total_minor, 21484);
    assert_eq!(r.months.len(), 12);
    assert_eq!(r.months.iter().sum::<i64>(), total);
    assert_eq!(r.months[0], 8235);
    assert_eq!(r.months[11], 999);
    let names: Vec<&str> = r.categories.iter().map(|c| c.name.as_str()).collect();
    assert_eq!(names, ["Books", "Groceries", "Rent"]);
    assert_eq!(r.categories[1].entries, 3);
    assert_eq!(r.categories[1].total_minor, 20985);
    assert_eq!(r.categories.iter().map(|c| c.total_minor).sum::<i64>(), total);
}

#[test]
fn every_csv_file_opens_with_the_mark_and_ends_a_line() {
    let empty = Report::build_on(2026, Vec::new(), generated());
    for report in [sample(), empty] {
        for (monthly, entries) in [(false, false), (true, false), (false, true), (true, true)] {
            for locale in [uk(), Locale::from_tag("de-DE")] {
                let text = csv_text(&report, &locale, Sections { monthly, entries });
                assert!(text.starts_with('\u{feff}'));
                assert!(text.ends_with("\r\n"));
                assert_eq!(text.contains("\r\nMonth"), monthly);
                assert_eq!(text.contains("\r\nDate"), entries);
            }
        }
    }
}

#[test]
fn the_most_negative_amount_is_written_plainly() {
    assert_eq!(plain_amount(i64::MIN, &uk()), "-92233720368547758.08");
    assert_eq!(plain_amount(i64::MIN, &Locale::from_tag("ja-JP")), "-9223372036854775808");
}

#[test]
fn opposite_extremes_make_a_report() {
    let entries = vec![entry((2026, 1, 1), "A", i64::MAX), entry((2026, 1, 1), "B", -i64::MAX)];
    assert!(is_reportable(&entries));
    let r = Report::build_on(2026, entries, generated());
    assert_eq!(r.total_minor, 0);
    assert_eq!(r.months[0], 0);
    assert_eq!(r.categories[0].total_minor, i64::MAX);
    assert_eq!(r.categories[1].total_minor, -i64::MAX);
}

#[test]
fn iso_dates_sign_years_outside_four_digits_as_chrono_does() {
    assert_eq!(iso_date(Date { year: -1, month: 1, day: 1 }), "-0001-01-01");
    assert_eq!(iso_date(Date { year: 10_000, month: 12, day: 31 }), "+10000-12-31");
    assert_eq!(iso_date(Date { year: 5, month: 3, day: 4 }), "0005-03-04");
    assert_eq!(iso_date(Date { year: -12_345, month: 6, day: 7 }), "-12345-06-07");
}

#[test]
fn column_widths_may_be_shares_past_the_whole_width() {
    assert_eq!(share_out(&vec![200, 0]), vec![CONTENT_WIDTH * 2, 0]);
}
