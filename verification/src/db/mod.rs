//! What the stores hold and hand back, and the rules every backend shares.
//!
//! The stores themselves talk to SQLite, MariaDB or SQL Server and live with
//! the application; what they agree on is kept here, so no backend can
//! disagree with another about what a valid category name is.

pub mod attempt;
pub mod mariadb;
pub mod mssql;
pub mod sqlite;
pub mod upgrade;

use vstd::prelude::*;

use crate::calendar::{in_calendar_range, valid_ymd, Date};
use crate::i18n::catalogue::filled;
use crate::i18n::{said, template_of, text, owned_bindings, Registry};
use crate::strings::{chars_of, push_str, string_of, trim, trimmed};

verus! {

/// A category and what has gone into it so far this year.
#[derive(Clone, Debug, PartialEq, Eq)]
pub struct CategoryTotal {
    pub name: String,
    /// In minor units of the locale's currency: pence, cents, whole yen.
    pub total_minor: i64,
    pub entries: i64,
}

/// One recorded entry, as it comes back out for a report.
#[derive(Clone, Debug, PartialEq, Eq)]
pub struct SpendEntry {
    /// Stable across reads, and what an edit or delete takes to say which row
    /// is meant.
    pub id: i64,
    pub spent_on: Date,
    pub category: String,
    pub amount_minor: i64,
    pub description: String,
}

/// One thing the user spent money on.
#[derive(Clone, Debug)]
pub struct NewSpend {
    pub category: String,
    pub spent_on: Date,
    pub amount_minor: i64,
    pub currency: String,
    pub description: String,
}

/// Why a store refused or failed.
#[derive(Debug, Clone, PartialEq, Eq)]
pub enum Error {
    /// The user asked for something the data will not allow: a duplicate
    /// category name, a category that has since been deleted. Shown as-is.
    Rejected(String),
    /// Anything the database itself complained about.
    Backend(String),
}

impl Error {
    /// What to show the user.
    pub fn message(&self) -> (s: String)
        ensures
            s@ == match self {
                Error::Rejected(m) => m@,
                Error::Backend(m) => m@,
            },
    {
        match self {
            Error::Rejected(m) => m.clone(),
            Error::Backend(m) => m.clone(),
        }
    }
}

/// What trimming a category name gives, or the key of the message that says
/// why it cannot be used.
pub open spec fn category_name(name: Seq<char>) -> Result<Seq<char>, Seq<char>> {
    let t = trim(name);
    if t.len() == 0 {
        Err("category.needs_a_name"@)
    } else if t.len() > 64 {
        Err("category.name_too_long"@)
    } else {
        Ok(t)
    }
}

/// Trim a category name and check it is usable: not empty, and at most 64
/// characters. Shared by every backend so they cannot disagree.
pub fn clean_category_name(reg: &Registry, name: &str) -> (r: Result<String, Error>)
    requires
        reg.wf(),
    ensures
        match category_name(name@) {
            Ok(t) => r matches Ok(s) && s@ == t,
            Err(key) => r matches Err(Error::Rejected(m)) && m@ == said(reg.view(), key),
        },
{
    let v = chars_of(name);
    let t = trimmed(&v);
    proof {
        reveal_strlit("category.needs_a_name");
        reveal_strlit("category.name_too_long");
    }
    if t.len() == 0 {
        let empty: [(&str, String); 0] = [];
        let m = text(reg, "category.needs_a_name", &empty);
        assert(owned_bindings(empty@) =~= Seq::empty());
        return Err(Error::Rejected(m));
    }
    if t.len() > 64 {
        let empty: [(&str, String); 0] = [];
        let m = text(reg, "category.name_too_long", &empty);
        assert(owned_bindings(empty@) =~= Seq::empty());
        return Err(Error::Rejected(m));
    }
    Ok(string_of(&t))
}

// ------------------------------------------------------------------ categories by name

/// Why a store refuses a change to a category, before it is put in words:
/// there is no category of that name, or another one already has it.
#[derive(Clone, Debug, PartialEq, Eq)]
pub enum CategoryRefusal {
    NoSuch(String),
    Taken(String),
}

/// The category a lookup found, or a refusal naming the one asked for.
pub fn category_found(name: &str, id: Option<i64>) -> (r: Result<i64, CategoryRefusal>)
    ensures
        match id {
            Some(i) => r == Ok::<i64, CategoryRefusal>(i),
            None => r matches Err(CategoryRefusal::NoSuch(n)) && n@ == name@,
        },
{
    match id {
        Some(i) => Ok(i),
        None => Err(CategoryRefusal::NoSuch(name.to_owned())),
    }
}

/// A new category may take `name` only when no category has it yet
/// (`taken_by` is what looking the name up found).
pub fn name_free(name: &str, taken_by: Option<i64>) -> (r: Result<(), CategoryRefusal>)
    ensures
        match taken_by {
            Some(_) => r matches Err(CategoryRefusal::Taken(n)) && n@ == name@,
            None => r is Ok,
        },
{
    match taken_by {
        Some(_) => Err(CategoryRefusal::Taken(name.to_owned())),
        None => Ok(()),
    }
}

/// Category `id` may be renamed to `name` unless another category has it;
/// renaming a category onto its own name (a change of capitals, say) is
/// allowed.
pub fn rename_allowed(name: &str, id: i64, taken_by: Option<i64>) -> (r: Result<(), CategoryRefusal>)
    ensures
        match taken_by {
            Some(other) => if other == id {
                r is Ok
            } else {
                r matches Err(CategoryRefusal::Taken(n)) && n@ == name@
            },
            None => r is Ok,
        },
{
    match taken_by {
        Some(other) => if other == id {
            Ok(())
        } else {
            Err(CategoryRefusal::Taken(name.to_owned()))
        },
        None => Ok(()),
    }
}

/// A refusal as the SQLite and SQL Server stores word it, in English.
pub open spec fn refusal_text(r: CategoryRefusal) -> Seq<char> {
    match r {
        CategoryRefusal::NoSuch(n) => "There is no category called \u{201c}"@ + n@ + "\u{201d}."@,
        CategoryRefusal::Taken(n) => "\u{201c}"@ + n@ + "\u{201d} is already a category."@,
    }
}

/// The language file's key for a refusal.
pub open spec fn refusal_key(r: CategoryRefusal) -> Seq<char> {
    match r {
        CategoryRefusal::NoSuch(_) => "category.no_such"@,
        CategoryRefusal::Taken(_) => "category.already_exists"@,
    }
}

pub open spec fn refused_name(r: CategoryRefusal) -> Seq<char> {
    match r {
        CategoryRefusal::NoSuch(n) => n@,
        CategoryRefusal::Taken(n) => n@,
    }
}

impl CategoryRefusal {
    /// In English, as the SQLite and SQL Server stores say it.
    pub fn in_english(self) -> (e: Error)
        ensures
            e matches Error::Rejected(m) && m@ == refusal_text(self),
    {
        let mut m = String::new();
        match self {
            CategoryRefusal::NoSuch(n) => {
                push_str(&mut m, "There is no category called \u{201c}");
                push_str(&mut m, n.as_str());
                push_str(&mut m, "\u{201d}.");
            },
            CategoryRefusal::Taken(n) => {
                push_str(&mut m, "\u{201c}");
                push_str(&mut m, n.as_str());
                push_str(&mut m, "\u{201d} is already a category.");
            },
        }
        Error::Rejected(m)
    }

    /// In the language in use, with the name bound, as the MariaDB store
    /// says it.
    pub fn in_words(self, reg: &Registry) -> (e: Error)
        requires
            reg.wf(),
        ensures
            e matches Error::Rejected(m) && m@ == filled(
                template_of(reg.view(), refusal_key(self)),
                seq![("name"@, refused_name(self))],
            ),
    {
        let (key, name) = match self {
            CategoryRefusal::NoSuch(n) => ("category.no_such", n),
            CategoryRefusal::Taken(n) => ("category.already_exists", n),
        };
        let mut values: Vec<(&str, String)> = Vec::new();
        values.push(("name", name));
        let ghost vs = values@;
        assert(owned_bindings(vs) =~= seq![("name"@, refused_name(self))]);
        Error::Rejected(text(reg, key, values.as_slice()))
    }
}

// ------------------------------------------------------------------ stored dates

/// What `chrono::NaiveDate::parse_from_str(text, "%Y-%m-%d")` reads `text`
/// as: a year, month and day, or nothing.
pub uninterp spec fn stored_ymd(text: Seq<char>) -> Option<(int, int, int)>;

/// `NaiveDate::parse_from_str(text, "%Y-%m-%d")`, taken apart into year,
/// month and day. What it reads is named, not restated; a day it gives is a
/// real one in chrono's range, since a `NaiveDate` holds no other.
#[verifier::external_body]
fn parse_ymd(text: &str) -> (r: Option<(i32, u32, u32)>)
    ensures
        match r {
            Some((y, m, d)) => stored_ymd(text@) == Some((y as int, m as int, d as int)) && in_calendar_range(
                y as int,
            ) && valid_ymd(y as int, m as int, d as int),
            None => stored_ymd(text@) is None,
        },
{
    match chrono::NaiveDate::parse_from_str(text, "%Y-%m-%d") {
        Ok(d) => Some((chrono::Datelike::year(&d), chrono::Datelike::month(&d), chrono::Datelike::day(&d))),
        Err(_) => None,
    }
}

/// The complaint about a stored date that is not one.
pub open spec fn bad_date_text(reg: crate::i18n::RegistryView, text: Seq<char>) -> Seq<char> {
    filled(template_of(reg, "database.bad_stored_date"@), seq![("date"@, text)])
}

/// A stored date from what reading it gave: the day, or the complaint that
/// the text stored is not a date, which this app never writes.
pub fn stored_date_from(reg: &Registry, stored: &str, read: Option<(i32, u32, u32)>) -> (r: Result<Date, Error>)
    requires
        reg.wf(),
    ensures
        match read {
            Some((y, m, d)) => r == Ok::<Date, Error>(Date { year: y, month: m, day: d }),
            None => r matches Err(Error::Backend(msg)) && msg@ == bad_date_text(reg.view(), stored@),
        },
{
    match read {
        Some((y, m, d)) => Ok(Date { year: y, month: m, day: d }),
        None => {
            let mut values: Vec<(&str, String)> = Vec::new();
            values.push(("date", stored.to_owned()));
            assert(owned_bindings(values@) =~= seq![("date"@, stored@)]);
            Err(Error::Backend(text(reg, "database.bad_stored_date", values.as_slice())))
        },
    }
}

/// A date as the stores keep it, `YYYY-MM-DD` text, read back: the day
/// chrono reads it as, which is always a real one, or the complaint.
pub fn parse_stored_date(reg: &Registry, text: &str) -> (r: Result<Date, Error>)
    requires
        reg.wf(),
    ensures
        match stored_ymd(text@) {
            Some((y, m, d)) => r matches Ok(date) && date.year == y && date.month == m && date.day == d
                && date.valid(),
            None => r matches Err(Error::Backend(msg)) && msg@ == bad_date_text(reg.view(), text@),
        },
{
    let read = parse_ymd(text);
    stored_date_from(reg, text, read)
}

} // verus!
