//! What the panes decide about what was typed into them: a port, a
//! spending entry, where a report is saved, how a folder is opened.

pub mod database;

use vstd::prelude::*;

use crate::calendar::Date;
use crate::db::NewSpend;
use crate::i18n::catalogue::filled;
use crate::i18n::{owned_bindings, replace_char, said, template_of, text, Registry};
use crate::locale::{abs, date_message, money_message, Locale};
use crate::report::{format_extension, Format, Report};
use crate::strings::{
    all_digits, chars_of, decimal, digits_up_to, digits_value, push_str, signed_decimal, signed_text,
    string_of, trim, trimmed, unsigned_text,
};

verus! {

pub(crate) fn message_of(reg: &Registry, key: &str) -> (s: String)
    requires
        reg.wf(),
    ensures
        s@ == said(reg.view(), key@),
{
    let none: Vec<(&str, String)> = Vec::new();
    assert(owned_bindings(none@) =~= Seq::empty());
    text(reg, key, none.as_slice())
}

/// The port a text field holds, as `u16::from_str` reads it after trimming:
/// an optional `+`, then digits up to 65535.
pub open spec fn port_of(text: Seq<char>) -> Option<nat> {
    let t = trim(text);
    let body = if t.len() > 0 && t[0] == '+' {
        t.drop_first()
    } else {
        t
    };
    if body.len() > 0 && all_digits(body) && digits_value(body) <= 65535 {
        Some(digits_value(body))
    } else {
        None
    }
}

/// The port a text field holds, if it holds one.
pub fn port_value(text: &str) -> (r: Option<u16>)
    ensures
        r == match port_of(text@) {
            Some(p) => Some(p as u16),
            None => None::<u16>,
        },
{
    let v = chars_of(text);
    let t = trimmed(&v);
    let start: usize = if t.len() > 0 && t[0] == '+' {
        1
    } else {
        0
    };
    let body = crate::strings::slice_of(&t, start, t.len());
    assert(start == 1 ==> body@ =~= t@.drop_first());
    assert(start == 0 ==> body@ =~= t@);
    if body.len() > 0 && crate::strings::all_digits_of(&body) {
        match digits_up_to(&body, 65535) {
            Some(n) => return Some(n as u16),
            None => {},
        }
    }
    None
}

/// Read a port out of a text field, since it is the one number there.
pub fn parse_port(reg: &Registry, text: &str) -> (r: Result<u16, String>)
    requires
        reg.wf(),
    ensures
        match port_of(text@) {
            Some(p) => r == Ok::<u16, String>(p as u16),
            None => r matches Err(m) && m@ == said(reg.view(), "database.bad_port"@),
        },
{
    match port_value(text) {
        Some(p) => Ok(p),
        None => Err(message_of(reg, "database.bad_port")),
    }
}

/// A spending entry as the form holds it, checked: the date, then that a
/// category was chosen, then the amount, then that the description (trimmed)
/// is at most 255 characters. Each failure says what and why.
pub open spec fn spend_of(
    reg: crate::i18n::RegistryView,
    l: &Locale,
    date: Seq<char>,
    category: Option<Seq<char>>,
    amount: Seq<char>,
    description: Seq<char>,
) -> Result<(Date, Seq<char>, int, Seq<char>), Seq<char>> {
    match l.date_value(date) {
        Err(e) => Err(date_message(reg, l, e)),
        Ok(d) => match category {
            None => Err(said(reg, "spending.choose_a_category"@)),
            Some(c) => match l.money_value(amount) {
                Err(e) => Err(money_message(reg, e)),
                Ok(m) => if trim(description).len() > 255 {
                    Err(said(reg, "spending.description_too_long"@))
                } else {
                    Ok((d, c, m, trim(description)))
                },
            },
        },
    }
}

/// The checks a new or edited spending entry goes through, shared by the
/// Spending and Entries tabs so they cannot drift apart.
pub fn spend_from_fields(
    reg: &Registry,
    locale: &Locale,
    date: &str,
    category: Option<String>,
    amount: &str,
    description: &str,
) -> (r: Result<NewSpend, String>)
    requires
        reg.wf(),
        locale.wf(),
    ensures
        match spend_of(reg.view(), locale, date@, crate::config::opt_view(category), amount@, description@) {
            Ok((d, c, m, desc)) => r matches Ok(s) && s.spent_on == d && s.category@ == c && s.amount_minor
                == m && s.currency@ == locale.currency.code@ && s.description@ == desc,
            Err(message) => r matches Err(m) && m@ == message,
        },
{
    let spent_on = match locale.parse_date(date) {
        Ok(d) => d,
        Err(e) => return Err(e.message(reg, locale)),
    };
    let category = match category {
        Some(c) => c,
        None => return Err(message_of(reg, "spending.choose_a_category")),
    };
    let amount_minor = match locale.parse_money(amount) {
        Ok(m) => m,
        Err(e) => return Err(e.message(reg)),
    };
    let d = trimmed(&chars_of(description));
    if d.len() > 255 {
        return Err(message_of(reg, "spending.description_too_long"));
    }
    Ok(NewSpend {
        category,
        spent_on,
        amount_minor,
        currency: locale.currency.code.to_owned(),
        description: string_of(&d),
    })
}

/// The name a report is saved under, e.g. `spending-report-2026.csv`.
pub fn file_name(year: i32, format: Format) -> (s: String)
    ensures
        s@ == "spending-report-"@ + signed_decimal(year as int) + seq!['.'] + format_extension(format),
{
    let mut s = String::new();
    push_str(&mut s, "spending-report-");
    push_str(&mut s, signed_text(year as i64).as_str());
    s.push('.');
    push_str(&mut s, format.extension());
    s
}

/// What one character of a path becomes in a `file://` URL: the few that
/// mean something in a URL are percent-encoded.
pub open spec fn url_char(c: char) -> Seq<char> {
    if c == '%' {
        "%25"@
    } else if c == ' ' {
        "%20"@
    } else if c == '#' {
        "%23"@
    } else if c == '?' {
        "%3F"@
    } else {
        seq![c]
    }
}

pub open spec fn url_chars(s: Seq<char>) -> Seq<char>
    decreases s.len(),
{
    if s.len() == 0 {
        s
    } else {
        url_chars(s.drop_last()) + url_char(s.last())
    }
}

/// A folder as a `file://` URL its platform will open: backslashes turned
/// into forward slashes, a third slash where the path does not start with
/// one, and `%`, space, `#` and `?` percent-encoded.
pub open spec fn url_of(path: Seq<char>) -> Seq<char> {
    let text = replace_char(path, '\\', '/');
    "file://"@ + (if text.len() > 0 && text[0] == '/' {
        Seq::<char>::empty()
    } else {
        seq!['/']
    }) + url_chars(text)
}

/// A folder as a `file://` URL its platform will open.
pub fn file_url(path: &str) -> (s: String)
    ensures
        s@ == url_of(path@),
{
    let raw = chars_of(path);
    let mut text: Vec<char> = Vec::new();
    let mut i: usize = 0;
    while i < raw.len()
        invariant
            i <= raw.len(),
            text@ == replace_char(raw@, '\\', '/').take(i as int),
        decreases raw.len() - i,
    {
        if raw[i] == '\\' {
            text.push('/');
        } else {
            text.push(raw[i]);
        }
        i += 1;
        assert(text@ =~= replace_char(raw@, '\\', '/').take(i as int));
    }
    assert(replace_char(raw@, '\\', '/').take(i as int) =~= replace_char(path@, '\\', '/'));
    let mut out = String::new();
    push_str(&mut out, "file://");
    if !(text.len() > 0 && text[0] == '/') {
        out.push('/');
    }
    let ghost head = out@;
    let mut k: usize = 0;
    while k < text.len()
        invariant
            k <= text@.len(),
            out@ == head + url_chars(text@.take(k as int)),
        decreases text.len() - k,
    {
        let c = text[k];
        proof {
            reveal_strlit("%25");
            reveal_strlit("%20");
            reveal_strlit("%23");
            reveal_strlit("%3F");
        }
        if c == '%' {
            push_str(&mut out, "%25");
        } else if c == ' ' {
            push_str(&mut out, "%20");
        } else if c == '#' {
            push_str(&mut out, "%23");
        } else if c == '?' {
            push_str(&mut out, "%3F");
        } else {
            out.push(c);
        }
        assert(text@.take(k + 1).drop_last() =~= text@.take(k as int));
        k += 1;
    }
    assert(text@.take(k as int) =~= text@);
    out
}

// ------------------------------------------------------------------ spending

/// What the status bar says once an entry is recorded: its amount and
/// category, and its year too when that is not the year on screen, since
/// the Categories table shows only that one.
pub open spec fn recorded_text(
    reg: crate::i18n::RegistryView,
    l: &Locale,
    spend: NewSpend,
    this_year: i32,
) -> Seq<char> {
    let amount = ("amount"@, l.money_text(spend.amount_minor as int));
    let category = ("category"@, spend.category@);
    if spend.spent_on.year == this_year {
        filled(template_of(reg, "status.recorded"@), seq![amount, category])
    } else {
        filled(
            template_of(reg, "status.recorded_other_year"@),
            seq![amount, category, ("year"@, signed_decimal(spend.spent_on.year as int))],
        )
    }
}

/// The message for an entry just recorded, given the year on screen.
pub fn recorded_message(reg: &Registry, locale: &Locale, spend: &NewSpend, this_year: i32) -> (s: String)
    requires
        reg.wf(),
        locale.wf(),
    ensures
        s@ == recorded_text(reg.view(), locale, *spend, this_year),
{
    let amount = locale.format_money(spend.amount_minor);
    if spend.spent_on.year == this_year {
        let values = [("amount", amount), ("category", spend.category.clone())];
        let r = text(reg, "status.recorded", &values);
        assert(owned_bindings(values@) =~= seq![
            ("amount"@, locale.money_text(spend.amount_minor as int)),
            ("category"@, spend.category@),
        ]);
        r
    } else {
        let values = [
            ("amount", amount),
            ("category", spend.category.clone()),
            ("year", signed_text(spend.spent_on.year as i64)),
        ];
        let r = text(reg, "status.recorded_other_year", &values);
        assert(owned_bindings(values@) =~= seq![
            ("amount"@, locale.money_text(spend.amount_minor as int)),
            ("category"@, spend.category@),
            ("year"@, signed_decimal(spend.spent_on.year as int)),
        ]);
        r
    }
}

// ------------------------------------------------------------------ entries

/// An amount as the edit form shows it: the digits `format_money` would
/// show, with the sign but without the currency symbol, which is what
/// `parse_money` expects back.
pub open spec fn amount_field_text(l: &Locale, minor: int) -> Seq<char> {
    (if minor < 0 {
        seq!['-']
    } else {
        Seq::<char>::empty()
    }) + l.digits_text(abs(minor))
}

/// The amount field's text for an entry being edited.
pub fn amount_field(locale: &Locale, minor: i64) -> (s: String)
    requires
        locale.wf(),
    ensures
        s@ == amount_field_text(locale, minor as int),
{
    let mut s = String::new();
    if minor < 0 {
        s.push('-');
    }
    let magnitude: u64 = if minor < 0 {
        (0i128 - minor as i128) as u64
    } else {
        minor as u64
    };
    let digits = locale.format_digits(magnitude);
    s.append(digits.as_str());
    s
}

// ------------------------------------------------------------------ reports

/// One line about a year's report: the total, how many entries and how
/// many categories, each noun in the singular for exactly one.
pub open spec fn summary_text(l: &Locale, report: &Report) -> Seq<char> {
    let entries = report.entries@.len();
    let categories = report.categories@.len();
    l.money_text(report.total_minor as int) + " across "@ + decimal(entries) + " "@ + (if entries == 1 {
        "entry"@
    } else {
        "entries"@
    }) + " in "@ + decimal(categories) + " "@ + (if categories == 1 {
        "category"@
    } else {
        "categories"@
    })
}

/// The line above the Reports pane's controls.
pub fn summary(report: &Report, locale: &Locale) -> (s: String)
    requires
        locale.wf(),
    ensures
        s@ == summary_text(locale, report),
{
    let mut s = locale.format_money(report.total_minor);
    push_str(&mut s, " across ");
    push_str(&mut s, unsigned_text(report.entries.len() as u64).as_str());
    push_str(&mut s, " ");
    push_str(&mut s, if report.entries.len() == 1 { "entry" } else { "entries" });
    push_str(&mut s, " in ");
    push_str(&mut s, unsigned_text(report.categories.len() as u64).as_str());
    push_str(&mut s, " ");
    push_str(&mut s, if report.categories.len() == 1 { "category" } else { "categories" });
    proof {
        reveal_strlit("entry");
        reveal_strlit("entries");
        reveal_strlit("category");
        reveal_strlit("categories");
    }
    assert(s@ =~= summary_text(locale, report));
    s
}

} // verus!
