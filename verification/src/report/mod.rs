//! Reports: one set of figures, and several ways of writing it down.
//!
//! The [`Report`] is built once from a year's entries, and each writer turns
//! that same structure into a file. Nothing is queried per format, so two
//! files made a second apart cannot disagree.

pub mod csv;
pub mod docx;
pub mod html;
pub mod json;

use vstd::prelude::*;

use crate::calendar::{today, Date};
use crate::db::SpendEntry;
use crate::strings::{chars_lt, chars_of, lex_lt, push_str, signed_decimal, signed_text};

verus! {

/// What a report can be written as.
#[derive(Clone, Copy, PartialEq, Eq, Debug)]
pub enum Format {
    /// For a spreadsheet.
    Csv,
    /// For Word, and anything else that reads OOXML.
    Docx,
    /// For a browser, and through one for print and PDF.
    Html,
    /// For another program.
    Json,
}

pub open spec fn format_label(f: Format) -> Seq<char> {
    match f {
        Format::Csv => "CSV"@,
        Format::Docx => "Word"@,
        Format::Html => "HTML"@,
        Format::Json => "JSON"@,
    }
}

pub open spec fn format_extension(f: Format) -> Seq<char> {
    match f {
        Format::Csv => "csv"@,
        Format::Docx => "docx"@,
        Format::Html => "html"@,
        Format::Json => "json"@,
    }
}

pub open spec fn format_detail(f: Format) -> Seq<char> {
    match f {
        Format::Csv => "Columns for a spreadsheet: Excel, Numbers, LibreOffice."@,
        Format::Docx => "A Word document, with the tables laid out for reading."@,
        Format::Html => "A page for the browser, and printable from there."@,
        Format::Json => "The figures as data, for another program to read."@,
    }
}

impl Format {
    /// Every format, in the order the pane offers them.
    pub fn all() -> (fs: [Format; 4])
        ensures
            fs@ == seq![Format::Csv, Format::Docx, Format::Html, Format::Json],
    {
        let fs = [Format::Csv, Format::Docx, Format::Html, Format::Json];
        assert(fs@ =~= seq![Format::Csv, Format::Docx, Format::Html, Format::Json]);
        fs
    }

    pub fn label(self) -> (s: &'static str)
        ensures
            s@ == format_label(self),
    {
        match self {
            Format::Csv => "CSV",
            Format::Docx => "Word",
            Format::Html => "HTML",
            Format::Json => "JSON",
        }
    }

    pub fn extension(self) -> (s: &'static str)
        ensures
            s@ == format_extension(self),
    {
        match self {
            Format::Csv => "csv",
            Format::Docx => "docx",
            Format::Html => "html",
            Format::Json => "json",
        }
    }

    /// A line of prose for the pane, so the choice is not four bare acronyms.
    pub fn detail(self) -> (s: &'static str)
        ensures
            s@ == format_detail(self),
    {
        match self {
            Format::Csv => "Columns for a spreadsheet: Excel, Numbers, LibreOffice.",
            Format::Docx => "A Word document, with the tables laid out for reading.",
            Format::Html => "A page for the browser, and printable from there.",
            Format::Json => "The figures as data, for another program to read.",
        }
    }
}

/// Which sections to write. A report of one line is still a report.
#[derive(Clone, Copy, Debug)]
pub struct Sections {
    pub monthly: bool,
    pub entries: bool,
}

impl Default for Sections {
    fn default() -> (s: Self)
        ensures
            s.monthly && s.entries,
    {
        Sections { monthly: true, entries: true }
    }
}

/// One line of the category table. Its share of the year is worked out in
/// floating point by whoever prints it.
#[derive(Clone, Debug)]
pub struct CategoryLine {
    pub name: String,
    pub entries: usize,
    pub total_minor: i64,
}

/// A year's spending, arranged the way a report presents it.
#[derive(Clone, Debug)]
pub struct Report {
    pub year: i32,
    pub generated: Date,
    pub categories: Vec<CategoryLine>,
    /// Totals for January through December.
    pub months: Vec<i64>,
    pub entries: Vec<SpendEntry>,
    pub total_minor: i64,
}

impl Report {
    /// What the writers need of a report: a total for each of the twelve
    /// months.
    pub open spec fn printable(&self) -> bool {
        self.months@.len() == 12
    }
}

// ------------------------------------------------------------------ order

/// The order a report lists entries in: by day, then by category name.
pub open spec fn entry_before(a: SpendEntry, b: SpendEntry) -> bool {
    ||| a.spent_on.before(b.spent_on)
    ||| (a.spent_on == b.spent_on && lex_lt(a.category@, b.category@))
}

/// How many of the leading entries of `t` do not sort after `x`: where a
/// stable insertion puts it.
pub open spec fn insert_pos(t: Seq<SpendEntry>, x: SpendEntry) -> int
    decreases t.len(),
{
    if t.len() > 0 && !entry_before(x, t[0]) {
        1 + insert_pos(t.drop_first(), x)
    } else {
        0
    }
}

/// The entries in report order; entries that tie keep the order they came in.
pub open spec fn in_report_order(s: Seq<SpendEntry>) -> Seq<SpendEntry>
    decreases s.len(),
{
    if s.len() == 0 {
        s
    } else {
        let t = in_report_order(s.drop_last());
        t.insert(insert_pos(t, s.last()), s.last())
    }
}

pub open spec fn sorted_for_report(s: Seq<SpendEntry>) -> bool {
    forall|i: int, j: int| 0 <= i < j < s.len() ==> !entry_before(#[trigger] s[j], #[trigger] s[i])
}

pub proof fn lemma_insert_pos(t: Seq<SpendEntry>, x: SpendEntry)
    ensures
        0 <= insert_pos(t, x) <= t.len(),
        forall|j: int| 0 <= j < insert_pos(t, x) ==> !entry_before(x, #[trigger] t[j]),
        insert_pos(t, x) < t.len() ==> entry_before(x, t[insert_pos(t, x)]),
    decreases t.len(),
{
    if t.len() > 0 && !entry_before(x, t[0]) {
        lemma_insert_pos(t.drop_first(), x);
        assert forall|j: int| 0 < j < t.len() implies t[j] == t.drop_first()[j - 1] by {}
    }
}

/// `entry_before` is a strict order, and two entries neither before the
/// other share a day and a category.
pub proof fn lemma_entry_order(a: SpendEntry, b: SpendEntry, c: SpendEntry)
    ensures
        !entry_before(a, a),
        entry_before(a, b) ==> !entry_before(b, a),
        entry_before(a, b) && entry_before(b, c) ==> entry_before(a, c),
        entry_before(a, b) && !entry_before(c, b) ==> entry_before(a, c),
        !entry_before(b, a) && entry_before(b, c) ==> entry_before(a, c),
{
    crate::strings::lemma_lex_irreflexive(a.category@);
    crate::strings::lemma_lex_total(a.category@, b.category@);
    crate::strings::lemma_lex_total(b.category@, c.category@);
    crate::strings::lemma_lex_total(a.category@, c.category@);
    if lex_lt(a.category@, b.category@) && lex_lt(b.category@, c.category@) {
        crate::strings::lemma_lex_transitive(a.category@, b.category@, c.category@);
    }
    if lex_lt(a.category@, b.category@) && lex_lt(c.category@, b.category@) {
    }
    if lex_lt(a.category@, b.category@) && c.category@ == b.category@ {
    }
    if lex_lt(b.category@, c.category@) && lex_lt(b.category@, a.category@) {
    }
}

/// Report order lists every entry it was given, once each, in order by day
/// and then by category.
pub proof fn report_order_is_a_sorted_permutation(s: Seq<SpendEntry>)
    ensures
        sorted_for_report(in_report_order(s)),
        in_report_order(s).to_multiset() == s.to_multiset(),
        in_report_order(s).len() == s.len(),
    decreases s.len(),
{
    if s.len() > 0 {
        let t = in_report_order(s.drop_last());
        let x = s.last();
        report_order_is_a_sorted_permutation(s.drop_last());
        lemma_insert_pos(t, x);
        let p = insert_pos(t, x);
        let u = t.insert(p, x);
        assert forall|i: int, j: int| 0 <= i < j < u.len() implies !entry_before(
            #[trigger] u[j],
            #[trigger] u[i],
        ) by {
            if j < p {
                assert(u[i] == t[i] && u[j] == t[j]);
            } else if j == p {
                assert(u[i] == t[i]);
                lemma_entry_order(x, t[i], x);
            } else if i < p {
                assert(u[i] == t[i] && u[j] == t[j - 1]);
            } else if i == p {
                assert(u[j] == t[j - 1]);
                lemma_entry_order(x, t[p], t[j - 1]);
                if j - 1 > p {
                    assert(!entry_before(t[j - 1], t[p]));
                }
                lemma_entry_order(t[j - 1], x, t[j - 1]);
            } else {
                assert(u[i] == t[i - 1] && u[j] == t[j - 1]);
            }
        }
        vstd::seq_lib::to_multiset_insert(t, p, x);
        vstd::seq_lib::to_multiset_build(s.drop_last(), x);
        assert(s.drop_last().push(x) =~= s);
    }
}

// ------------------------------------------------------------------ sums

pub open spec fn amount_sum(s: Seq<SpendEntry>) -> int
    decreases s.len(),
{
    if s.len() == 0 {
        0
    } else {
        amount_sum(s.drop_last()) + s.last().amount_minor
    }
}

pub open spec fn abs_amount_sum(s: Seq<SpendEntry>) -> int
    decreases s.len(),
{
    if s.len() == 0 {
        0
    } else {
        abs_amount_sum(s.drop_last()) + crate::locale::abs(s.last().amount_minor as int)
    }
}

pub proof fn lemma_sums_of_insert(t: Seq<SpendEntry>, p: int, x: SpendEntry)
    requires
        0 <= p <= t.len(),
    ensures
        amount_sum(t.insert(p, x)) == amount_sum(t) + x.amount_minor,
        abs_amount_sum(t.insert(p, x)) == abs_amount_sum(t) + crate::locale::abs(
            x.amount_minor as int,
        ),
    decreases t.len(),
{
    if p < t.len() {
        lemma_sums_of_insert(t.drop_last(), p, x);
        assert(t.insert(p, x).drop_last() =~= t.drop_last().insert(p, x));
    } else {
        assert(t.insert(p, x) =~= t.push(x));
        assert(t.push(x).drop_last() =~= t);
    }
}

/// Putting entries in report order changes neither their sum nor the sum of
/// their sizes.
pub proof fn report_order_keeps_the_sums(s: Seq<SpendEntry>)
    ensures
        amount_sum(in_report_order(s)) == amount_sum(s),
        abs_amount_sum(in_report_order(s)) == abs_amount_sum(s),
    decreases s.len(),
{
    if s.len() > 0 {
        report_order_keeps_the_sums(s.drop_last());
        let t = in_report_order(s.drop_last());
        lemma_insert_pos(t, s.last());
        lemma_sums_of_insert(t, insert_pos(t, s.last()), s.last());
    }
}

pub proof fn lemma_abs_sum_prefix(s: Seq<SpendEntry>, k: int)
    requires
        0 <= k <= s.len(),
    ensures
        0 <= abs_amount_sum(s.take(k)) <= abs_amount_sum(s),
        crate::locale::abs(amount_sum(s)) <= abs_amount_sum(s),
    decreases s.len(),
{
    if s.len() > 0 {
        if k == s.len() {
            assert(s.take(k) =~= s);
            lemma_abs_sum_prefix(s.drop_last(), k - 1);
        } else {
            lemma_abs_sum_prefix(s.drop_last(), k);
            assert(s.take(k) =~= s.drop_last().take(k));
        }
    }
}

// ------------------------------------------------------------------ months

/// Totals for each month, January first.
pub open spec fn month_totals(s: Seq<SpendEntry>) -> Seq<int>
    decreases s.len(),
{
    if s.len() == 0 {
        Seq::new(12, |i: int| 0int)
    } else {
        let m = month_totals(s.drop_last());
        let k = s.last().spent_on.month - 1;
        m.update(k, m[k] + s.last().amount_minor)
    }
}

pub open spec fn seq_sum(m: Seq<int>) -> int
    decreases m.len(),
{
    if m.len() == 0 {
        0
    } else {
        seq_sum(m.drop_last()) + m.last()
    }
}

pub open spec fn all_valid(s: Seq<SpendEntry>) -> bool {
    forall|i: int| 0 <= i < s.len() ==> (#[trigger] s[i]).spent_on.valid()
}

pub proof fn lemma_seq_sum_update(m: Seq<int>, k: int, v: int)
    requires
        0 <= k < m.len(),
    ensures
        seq_sum(m.update(k, v)) == seq_sum(m) - m[k] + v,
    decreases m.len(),
{
    if k < m.len() - 1 {
        lemma_seq_sum_update(m.drop_last(), k, v);
        assert(m.update(k, v).drop_last() =~= m.drop_last().update(k, v));
    } else {
        assert(m.update(k, v).drop_last() =~= m.drop_last());
    }
}

/// The months add up to the year: every entry lands in exactly one month.
pub proof fn months_add_up_to_the_total(s: Seq<SpendEntry>)
    requires
        all_valid(s),
    ensures
        month_totals(s).len() == 12,
        seq_sum(month_totals(s)) == amount_sum(s),
        forall|k: int| 0 <= k < 12 ==> crate::locale::abs(#[trigger] month_totals(s)[k]) <= abs_amount_sum(s),
    decreases s.len(),
{
    if s.len() == 0 {
        let z = Seq::new(12, |i: int| 0int);
        assert(seq_sum(z) == 0) by {
            reveal_with_fuel(seq_sum, 13);
        }
    } else {
        assert(all_valid(s.drop_last())) by {
            assert forall|i: int| 0 <= i < s.drop_last().len() implies (#[trigger] s.drop_last()[i]).spent_on.valid() by {
                assert(s.drop_last()[i] == s[i]);
            }
        }
        months_add_up_to_the_total(s.drop_last());
        assert(s[s.len() - 1].spent_on.valid());
        let m = month_totals(s.drop_last());
        let k = s.last().spent_on.month - 1;
        lemma_seq_sum_update(m, k, m[k] + s.last().amount_minor);
    }
}

// ------------------------------------------------------------------ categories

/// A category table line as plain values: name, entries, total.
pub type Line = (Seq<char>, nat, int);

/// Where `name` belongs among lines kept in name order.
pub open spec fn line_pos(ls: Seq<Line>, name: Seq<char>) -> int
    decreases ls.len(),
{
    if ls.len() > 0 && lex_lt(ls[0].0, name) {
        1 + line_pos(ls.drop_first(), name)
    } else {
        0
    }
}

/// The lines with one more entry of `amount` under `name`.
pub open spec fn tally(ls: Seq<Line>, name: Seq<char>, amount: int) -> Seq<Line> {
    let p = line_pos(ls, name);
    if p < ls.len() && ls[p].0 == name {
        ls.update(p, (name, ls[p].1 + 1, ls[p].2 + amount))
    } else {
        ls.insert(p, (name, 1nat, amount))
    }
}

/// One line per category named by the entries, in name order, with how many
/// entries it has and what they add up to.
pub open spec fn category_tally(s: Seq<SpendEntry>) -> Seq<Line>
    decreases s.len(),
{
    if s.len() == 0 {
        Seq::empty()
    } else {
        tally(category_tally(s.drop_last()), s.last().category@, s.last().amount_minor as int)
    }
}

pub open spec fn lines_total(ls: Seq<Line>) -> int
    decreases ls.len(),
{
    if ls.len() == 0 {
        0
    } else {
        lines_total(ls.drop_last()) + ls.last().2
    }
}

pub open spec fn names_sorted(ls: Seq<Line>) -> bool {
    forall|i: int, j: int| 0 <= i < j < ls.len() ==> lex_lt(#[trigger] ls[i].0, #[trigger] ls[j].0)
}

pub proof fn lemma_line_pos(ls: Seq<Line>, name: Seq<char>)
    ensures
        0 <= line_pos(ls, name) <= ls.len(),
        forall|j: int| 0 <= j < line_pos(ls, name) ==> lex_lt(#[trigger] ls[j].0, name),
        line_pos(ls, name) < ls.len() ==> !lex_lt(ls[line_pos(ls, name)].0, name),
    decreases ls.len(),
{
    if ls.len() > 0 && lex_lt(ls[0].0, name) {
        lemma_line_pos(ls.drop_first(), name);
        assert forall|j: int| 0 < j < ls.len() implies ls[j] == ls.drop_first()[j - 1] by {}
    }
}

pub proof fn lemma_lines_total_update(ls: Seq<Line>, k: int, l: Line)
    requires
        0 <= k < ls.len(),
    ensures
        lines_total(ls.update(k, l)) == lines_total(ls) - ls[k].2 + l.2,
    decreases ls.len(),
{
    if k < ls.len() - 1 {
        lemma_lines_total_update(ls.drop_last(), k, l);
        assert(ls.update(k, l).drop_last() =~= ls.drop_last().update(k, l));
    } else {
        assert(ls.update(k, l).drop_last() =~= ls.drop_last());
    }
}

pub proof fn lemma_lines_total_insert(ls: Seq<Line>, k: int, l: Line)
    requires
        0 <= k <= ls.len(),
    ensures
        lines_total(ls.insert(k, l)) == lines_total(ls) + l.2,
    decreases ls.len(),
{
    if k < ls.len() {
        lemma_lines_total_insert(ls.drop_last(), k, l);
        assert(ls.insert(k, l).drop_last() =~= ls.drop_last().insert(k, l));
    } else {
        assert(ls.insert(k, l).drop_last() =~= ls);
    }
}

/// How many entries the lines count between them.
pub open spec fn lines_count(ls: Seq<Line>) -> int
    decreases ls.len(),
{
    if ls.len() == 0 {
        0
    } else {
        lines_count(ls.drop_last()) + ls.last().1
    }
}

pub proof fn lemma_lines_count_update(ls: Seq<Line>, k: int, l: Line)
    requires
        0 <= k < ls.len(),
    ensures
        lines_count(ls.update(k, l)) == lines_count(ls) - ls[k].1 + l.1,
    decreases ls.len(),
{
    if k < ls.len() - 1 {
        lemma_lines_count_update(ls.drop_last(), k, l);
        assert(ls.update(k, l).drop_last() =~= ls.drop_last().update(k, l));
    } else {
        assert(ls.update(k, l).drop_last() =~= ls.drop_last());
    }
}

pub proof fn lemma_lines_count_insert(ls: Seq<Line>, k: int, l: Line)
    requires
        0 <= k <= ls.len(),
    ensures
        lines_count(ls.insert(k, l)) == lines_count(ls) + l.1,
    decreases ls.len(),
{
    if k < ls.len() {
        lemma_lines_count_insert(ls.drop_last(), k, l);
        assert(ls.insert(k, l).drop_last() =~= ls.drop_last().insert(k, l));
    } else {
        assert(ls.insert(k, l).drop_last() =~= ls);
    }
}

/// The category lines count every entry once: their counts add up to the
/// number of entries.
pub proof fn category_counts_add_up_to_the_entries(s: Seq<SpendEntry>)
    ensures
        lines_count(category_tally(s)) == s.len(),
    decreases s.len(),
{
    if s.len() > 0 {
        category_counts_add_up_to_the_entries(s.drop_last());
        let ls = category_tally(s.drop_last());
        let name = s.last().category@;
        let a = s.last().amount_minor as int;
        lemma_line_pos(ls, name);
        let p = line_pos(ls, name);
        if p < ls.len() && ls[p].0 == name {
            lemma_lines_count_update(ls, p, (name, ls[p].1 + 1, ls[p].2 + a));
        } else {
            lemma_lines_count_insert(ls, p, (name, 1nat, a));
        }
    }
}

/// The category table adds up to the year, lists each category once in name
/// order, and no line is larger than all the entries put together.
pub proof fn categories_add_up_to_the_total(s: Seq<SpendEntry>)
    ensures
        lines_total(category_tally(s)) == amount_sum(s),
        names_sorted(category_tally(s)),
        forall|i: int| 0 <= i < category_tally(s).len() ==> (#[trigger] category_tally(s)[i]).1 <= s.len()
            && crate::locale::abs(category_tally(s)[i].2) <= abs_amount_sum(s),
    decreases s.len(),
{
    if s.len() > 0 {
        categories_add_up_to_the_total(s.drop_last());
        let ls = category_tally(s.drop_last());
        let name = s.last().category@;
        let a = s.last().amount_minor as int;
        lemma_line_pos(ls, name);
        let p = line_pos(ls, name);
        let out = tally(ls, name, a);
        if p < ls.len() && ls[p].0 == name {
            lemma_lines_total_update(ls, p, (name, ls[p].1 + 1, ls[p].2 + a));
            assert forall|i: int, j: int| 0 <= i < j < out.len() implies lex_lt(
                #[trigger] out[i].0,
                #[trigger] out[j].0,
            ) by {
                assert(out[i].0 == ls[i].0 && out[j].0 == ls[j].0);
            }
            assert forall|i: int| 0 <= i < out.len() implies (#[trigger] out[i]).1 <= s.len()
                && crate::locale::abs(out[i].2) <= abs_amount_sum(s) by {
                if i != p {
                    assert(out[i] == ls[i]);
                }
            }
        } else {
            lemma_abs_sum_prefix(s.drop_last(), 0);
            lemma_lines_total_insert(ls, p, (name, 1nat, a));
            if p < ls.len() {
                crate::strings::lemma_lex_total(ls[p].0, name);
            }
            assert forall|i: int, j: int| 0 <= i < j < out.len() implies lex_lt(
                #[trigger] out[i].0,
                #[trigger] out[j].0,
            ) by {
                if j < p {
                    assert(out[i] == ls[i] && out[j] == ls[j]);
                } else if j == p {
                    assert(out[i] == ls[i]);
                } else if i < p {
                    assert(out[i] == ls[i] && out[j] == ls[j - 1]);
                } else if i == p {
                    assert(out[j] == ls[j - 1]);
                    if j - 1 > p {
                        assert(lex_lt(ls[p].0, ls[j - 1].0));
                        crate::strings::lemma_lex_transitive(name, ls[p].0, ls[j - 1].0);
                    }
                } else {
                    assert(out[i] == ls[i - 1] && out[j] == ls[j - 1]);
                }
            }
            assert forall|i: int| 0 <= i < out.len() implies (#[trigger] out[i]).1 <= s.len()
                && crate::locale::abs(out[i].2) <= abs_amount_sum(s) by {
                if i < p {
                    assert(out[i] == ls[i]);
                } else if i > p {
                    assert(out[i] == ls[i - 1]);
                }
            }
        }
    }
}

pub open spec fn lines_view(v: Seq<CategoryLine>) -> Seq<Line> {
    Seq::new(v.len(), |i: int| (v[i].name@, v[i].entries as nat, v[i].total_minor as int))
}

pub open spec fn months_view(v: Seq<i64>) -> Seq<int> {
    Seq::new(v.len(), |i: int| v[i] as int)
}

/// Some entry of `s` is filed under `name`.
pub open spec fn names_an_entry(s: Seq<SpendEntry>, name: Seq<char>) -> bool {
    exists|j: int| 0 <= j < s.len() && (#[trigger] s[j]).category@ == name
}

/// Some line of `ls` is for `name`.
pub open spec fn has_line(ls: Seq<Line>, name: Seq<char>) -> bool {
    exists|i: int| 0 <= i < ls.len() && (#[trigger] ls[i]).0 == name
}

/// Each line of the category table names a category some entry has.
pub proof fn lemma_tally_lines_named(s: Seq<SpendEntry>)
    ensures
        forall|i: int|
            0 <= i < category_tally(s).len() ==> names_an_entry(s, (#[trigger] category_tally(s)[i]).0),
    decreases s.len(),
{
    if s.len() > 0 {
        let s0 = s.drop_last();
        lemma_tally_lines_named(s0);
        let ls = category_tally(s0);
        let name = s.last().category@;
        lemma_line_pos(ls, name);
        let p = line_pos(ls, name);
        let out = category_tally(s);
        let last = s.len() - 1;
        assert(s[last].category@ == name);
        assert forall|i: int| 0 <= i < out.len() implies names_an_entry(s, (#[trigger] out[i]).0) by {
            let updated = p < ls.len() && ls[p].0 == name;
            if !updated && i == p {
                assert(out[i].0 == name);
                assert(s[last].category@ == out[i].0);
            } else {
                let i0 = if updated || i < p { i } else { i - 1 };
                assert(out[i].0 == ls[i0].0);
                assert(names_an_entry(s0, ls[i0].0));
                let j = choose|j: int| 0 <= j < s0.len() && (#[trigger] s0[j]).category@ == ls[i0].0;
                assert(s[j] == s0[j]);
            }
        }
    }
}

/// Each entry's category has a line in the category table.
pub proof fn lemma_tally_entries_listed(s: Seq<SpendEntry>)
    ensures
        forall|j: int| 0 <= j < s.len() ==> has_line(category_tally(s), (#[trigger] s[j]).category@),
    decreases s.len(),
{
    if s.len() > 0 {
        let s0 = s.drop_last();
        lemma_tally_entries_listed(s0);
        let ls = category_tally(s0);
        let name = s.last().category@;
        lemma_line_pos(ls, name);
        let p = line_pos(ls, name);
        let out = category_tally(s);
        let last = s.len() - 1;
        let updated = p < ls.len() && ls[p].0 == name;
        assert(out[p].0 == name);
        assert forall|j: int| 0 <= j < s.len() implies has_line(out, (#[trigger] s[j]).category@) by {
            if j == last {
                assert(out[p].0 == s[j].category@);
            } else {
                assert(s[j] == s0[j]);
                assert(has_line(ls, s0[j].category@));
                let i0 = choose|i: int| 0 <= i < ls.len() && (#[trigger] ls[i]).0 == s0[j].category@;
                let i = if updated || i0 < p { i0 } else { i0 + 1 };
                assert(out[i].0 == ls[i0].0);
            }
        }
    }
}

// ------------------------------------------------------------------ sums by month and by name

/// What the entries filed in month `k` (January is 0) add up to.
pub open spec fn month_sum(s: Seq<SpendEntry>, k: int) -> int
    decreases s.len(),
{
    if s.len() == 0 {
        0
    } else {
        month_sum(s.drop_last(), k) + if s.last().spent_on.month - 1 == k {
            s.last().amount_minor as int
        } else {
            0
        }
    }
}

/// How many of the entries are filed under `name`.
pub open spec fn count_in(s: Seq<SpendEntry>, name: Seq<char>) -> nat
    decreases s.len(),
{
    if s.len() == 0 {
        0
    } else {
        count_in(s.drop_last(), name) + if s.last().category@ == name {
            1nat
        } else {
            0nat
        }
    }
}

/// What the entries filed under `name` add up to.
pub open spec fn sum_in(s: Seq<SpendEntry>, name: Seq<char>) -> int
    decreases s.len(),
{
    if s.len() == 0 {
        0
    } else {
        sum_in(s.drop_last(), name) + if s.last().category@ == name {
            s.last().amount_minor as int
        } else {
            0
        }
    }
}

/// Each month's total is what that month's entries add up to.
pub proof fn lemma_month_sums(s: Seq<SpendEntry>)
    requires
        all_valid(s),
    ensures
        forall|k: int| 0 <= k < 12 ==> #[trigger] month_totals(s)[k] == month_sum(s, k),
    decreases s.len(),
{
    if s.len() > 0 {
        let s0 = s.drop_last();
        assert(all_valid(s0)) by {
            assert forall|i: int| 0 <= i < s0.len() implies (#[trigger] s0[i]).spent_on.valid() by {
                assert(s0[i] == s[i]);
            }
        }
        lemma_month_sums(s0);
        months_add_up_to_the_total(s0);
        assert(s[s.len() - 1].spent_on.valid());
        assert forall|k: int| 0 <= k < 12 implies #[trigger] month_totals(s)[k] == month_sum(s, k) by {
            assert(month_totals(s0)[k] == month_sum(s0, k));
        }
    }
}

/// Each line of the category table counts and adds up exactly the entries
/// filed under its name, and a name with no line has no entries.
pub proof fn lemma_tally_counts(s: Seq<SpendEntry>)
    ensures
        forall|i: int|
            0 <= i < category_tally(s).len() ==> (#[trigger] category_tally(s)[i]).1 == count_in(
                s,
                category_tally(s)[i].0,
            ) && category_tally(s)[i].2 == sum_in(s, category_tally(s)[i].0),
        forall|n: Seq<char>|
            #![trigger count_in(s, n)]
            !has_line(category_tally(s), n) ==> count_in(s, n) == 0 && sum_in(s, n) == 0,
    decreases s.len(),
{
    if s.len() > 0 {
        let s0 = s.drop_last();
        lemma_tally_counts(s0);
        categories_add_up_to_the_total(s0);
        let ls = category_tally(s0);
        let name = s.last().category@;
        let a = s.last().amount_minor as int;
        lemma_line_pos(ls, name);
        let p = line_pos(ls, name);
        let out = category_tally(s);
        assert(out == tally(ls, name, a));
        let updated = p < ls.len() && ls[p].0 == name;
        // Every other line is for another name.
        assert forall|j: int| 0 <= j < ls.len() && j != p implies #[trigger] ls[j].0 != name by {
            if j < p {
                crate::strings::lemma_lex_irreflexive(name);
            } else if updated {
                assert(lex_lt(ls[p].0, ls[j].0));
                crate::strings::lemma_lex_irreflexive(name);
            } else {
                crate::strings::lemma_lex_total(ls[p].0, name);
                assert(lex_lt(name, ls[p].0));
                assert(lex_lt(ls[p].0, ls[j].0));
                crate::strings::lemma_lex_transitive(name, ls[p].0, ls[j].0);
                crate::strings::lemma_lex_irreflexive(name);
            }
        }
        if !updated {
            assert(!has_line(ls, name)) by {
                if has_line(ls, name) {
                    let j = choose|j: int| 0 <= j < ls.len() && (#[trigger] ls[j]).0 == name;
                    assert(ls[j].0 != name);
                }
            }
            assert(count_in(s0, name) == 0);
        }
        assert forall|i: int| 0 <= i < out.len() implies (#[trigger] out[i]).1 == count_in(s, out[i].0)
            && out[i].2 == sum_in(s, out[i].0) by {
            if updated {
                if i != p {
                    assert(out[i] == ls[i]);
                    assert(ls[i].0 != name);
                }
            } else if i != p {
                let i0 = if i < p { i } else { i - 1 };
                assert(out[i] == ls[i0]);
                assert(ls[i0].0 != name);
            }
        }
        assert forall|n: Seq<char>| #![trigger count_in(s, n)] !has_line(out, n) implies count_in(s, n) == 0 && sum_in(s, n) == 0 by {
            assert(out[p].0 == name);
            assert(n != name);
            assert(!has_line(ls, n)) by {
                if has_line(ls, n) {
                    let j = choose|j: int| 0 <= j < ls.len() && (#[trigger] ls[j]).0 == n;
                    let i = if updated || j < p { j } else { j + 1 };
                    assert(out[i].0 == ls[j].0);
                }
            }
            assert(!has_line(category_tally(s0), n));
            assert(count_in(s0, n) == 0);
            assert(sum_in(s0, n) == 0);
        }
    }
}

/// What a report is, whatever entries it is built from: the same entries
/// in order by day and then category; a total that is their sum; twelve
/// month totals that add up to it; and one line per category in strictly
/// increasing name order, each naming some entry's category and every
/// entry's category having one, whose totals add up to it too. Each month's
/// total is what that month's entries add up to, and each category line
/// counts and adds up exactly the entries filed under its name.
pub proof fn a_report_rearranges_and_sums_its_entries(s: Seq<SpendEntry>)
    requires
        all_valid(s),
    ensures
        ({
            let r = in_report_order(s);
            let ct = category_tally(r);
            &&& sorted_for_report(r)
            &&& r.to_multiset() == s.to_multiset()
            &&& amount_sum(r) == amount_sum(s)
            &&& month_totals(r).len() == 12
            &&& seq_sum(month_totals(r)) == amount_sum(s)
            &&& names_sorted(ct)
            &&& lines_total(ct) == amount_sum(s)
            &&& forall|i: int| 0 <= i < ct.len() ==> names_an_entry(r, (#[trigger] ct[i]).0)
            &&& forall|j: int| 0 <= j < r.len() ==> has_line(ct, (#[trigger] r[j]).category@)
            &&& forall|k: int| 0 <= k < 12 ==> #[trigger] month_totals(r)[k] == month_sum(r, k)
            &&& forall|i: int|
                0 <= i < ct.len() ==> (#[trigger] ct[i]).1 == count_in(r, ct[i].0) && ct[i].2 == sum_in(r, ct[i].0)
        }),
{
    report_order_keeps_the_sums(s);
    report_order_is_a_sorted_permutation(s);
    let t = in_report_order(s);
    assert forall|i: int| 0 <= i < t.len() implies (#[trigger] t[i]).spent_on.valid() by {
        vstd::seq_lib::to_multiset_contains(t, t[i]);
        vstd::seq_lib::to_multiset_contains(s, t[i]);
        assert(t.contains(t[i]));
        let j = choose|j: int| 0 <= j < s.len() && s[j] == t[i];
        assert(s[j].spent_on.valid());
    }
    months_add_up_to_the_total(t);
    categories_add_up_to_the_total(t);
    lemma_tally_lines_named(t);
    lemma_tally_entries_listed(t);
    lemma_month_sums(t);
    lemma_tally_counts(t);
}

// ------------------------------------------------------------------ building

/// Whether the totals a report keeps for entries already in report order
/// fit in an `i64`: the year's, each month's and each category's.
pub open spec fn totals_fit(r: Seq<SpendEntry>) -> bool {
    &&& i64::MIN <= amount_sum(r) <= i64::MAX
    &&& forall|k: int| 0 <= k < 12 ==> i64::MIN <= #[trigger] month_totals(r)[k] <= i64::MAX
    &&& forall|i: int|
        0 <= i < category_tally(r).len() ==> i64::MIN <= (#[trigger] category_tally(r)[i]).2 <= i64::MAX
}

/// Whether a year's entries can be reported on: real days, and a year's,
/// month's and category's total that each fit in an `i64`. Running sums are
/// kept wider, so only the totals themselves have to fit.
pub open spec fn reportable(s: Seq<SpendEntry>) -> bool {
    all_valid(s) && totals_fit(in_report_order(s))
}

/// A copy of an entry, field by field.
fn copy_entry(e: &SpendEntry) -> (c: SpendEntry)
    ensures
        c == *e,
{
    SpendEntry {
        id: e.id,
        spent_on: e.spent_on,
        category: e.category.clone(),
        amount_minor: e.amount_minor,
        description: e.description.clone(),
    }
}

/// A copy of the entries.
fn copy_entries(entries: &Vec<SpendEntry>) -> (c: Vec<SpendEntry>)
    ensures
        c@ == entries@,
{
    let mut c: Vec<SpendEntry> = Vec::new();
    let mut i: usize = 0;
    while i < entries.len()
        invariant
            i <= entries.len(),
            c@ == entries@.take(i as int),
        decreases entries.len() - i,
    {
        c.push(copy_entry(&entries[i]));
        i += 1;
        assert(c@ =~= entries@.take(i as int));
    }
    assert(entries@.take(i as int) =~= entries@);
    c
}

/// Whether every entry's date is a real day.
fn all_days_valid(entries: &Vec<SpendEntry>) -> (r: bool)
    ensures
        r == all_valid(entries@),
{
    let mut i: usize = 0;
    while i < entries.len()
        invariant
            i <= entries.len(),
            all_valid(entries@.take(i as int)),
        decreases entries.len() - i,
    {
        if !entries[i].spent_on.is_valid() {
            assert(!(entries@[i as int].spent_on.valid()));
            return false;
        }
        i += 1;
        assert(all_valid(entries@.take(i as int))) by {
            assert forall|k: int| 0 <= k < i implies (#[trigger] entries@.take(i as int)[k]).spent_on.valid() by {
                if k < i - 1 {
                    assert(entries@.take(i as int)[k] == entries@.take(i - 1)[k]);
                }
            }
        }
    }
    assert(entries@.take(i as int) =~= entries@);
    true
}

/// Report order keeps every entry, so every date stays a real day.
proof fn lemma_report_order_valid(s: Seq<SpendEntry>)
    requires
        all_valid(s),
    ensures
        all_valid(in_report_order(s)),
{
    report_order_is_a_sorted_permutation(s);
    let t = in_report_order(s);
    assert forall|i: int| 0 <= i < t.len() implies (#[trigger] t[i]).spent_on.valid() by {
        vstd::seq_lib::to_multiset_contains(t, t[i]);
        vstd::seq_lib::to_multiset_contains(s, t[i]);
        assert(t.contains(t[i]));
        let j = choose|j: int| 0 <= j < s.len() && s[j] == t[i];
        assert(s[j].spent_on.valid());
    }
}

fn fits_i64(v: i128) -> (r: bool)
    ensures
        r == (i64::MIN <= v <= i64::MAX),
{
    -9223372036854775808i128 <= v && v <= 9223372036854775807i128
}

/// Whether a year's entries can be made into a report: every date a real
/// day, and the year's, each month's and each category's total small enough
/// to fit in an `i64`.
pub fn is_reportable(entries: &Vec<SpendEntry>) -> (r: bool)
    ensures
        r == reportable(entries@),
{
    if !all_days_valid(entries) {
        return false;
    }
    let sorted = sort_entries(copy_entries(entries));
    proof {
        lemma_report_order_valid(entries@);
    }
    let (total, months, lines) = add_up(&sorted);
    let ghost s = sorted@;
    assert(s == in_report_order(entries@));
    if !fits_i64(total) {
        assert(!totals_fit(s));
        return false;
    }
    let mut k: usize = 0;
    while k < 12
        invariant
            k <= 12,
            s == in_report_order(entries@),
            all_valid(entries@),
            i64::MIN <= amount_sum(s) <= i64::MAX,
            months@.len() == 12,
            forall|j: int| 0 <= j < 12 ==> #[trigger] months@[j] as int == month_totals(s)[j],
            forall|j: int| 0 <= j < k ==> i64::MIN <= #[trigger] month_totals(s)[j] <= i64::MAX,
        decreases 12 - k,
    {
        if !fits_i64(months[k]) {
            assert(months@[k as int] as int == month_totals(s)[k as int]);
            assert(!totals_fit(s));
            return false;
        }
        k += 1;
    }
    let mut i: usize = 0;
    while i < lines.len()
        invariant
            i <= lines@.len(),
            s == in_report_order(entries@),
            all_valid(entries@),
            i64::MIN <= amount_sum(s) <= i64::MAX,
            forall|j: int| 0 <= j < 12 ==> i64::MIN <= #[trigger] month_totals(s)[j] <= i64::MAX,
            wide_view(lines@) == category_tally(s),
            forall|j: int| 0 <= j < i ==> i64::MIN <= (#[trigger] category_tally(s)[j]).2 <= i64::MAX,
        decreases lines.len() - i,
    {
        assert(wide_view(lines@)[i as int].2 == lines@[i as int].total);
        if !fits_i64(lines[i].total) {
            assert(!(i64::MIN <= category_tally(s)[i as int].2 <= i64::MAX));
            assert(!totals_fit(s));
            return false;
        }
        i += 1;
    }
    true
}

/// A category line while the totals are added up, held wide enough that no
/// running sum can overflow.
struct WideLine {
    name: String,
    entries: usize,
    total: i128,
}

spec fn wide_view(v: Seq<WideLine>) -> Seq<Line> {
    Seq::new(v.len(), |i: int| (v[i].name@, v[i].entries as nat, v[i].total as int))
}

/// No entry's amount is bigger, either way, than `i64::MIN`'s size.
proof fn lemma_abs_sum_bound(s: Seq<SpendEntry>)
    ensures
        abs_amount_sum(s) <= s.len() * 0x8000_0000_0000_0000,
    decreases s.len(),
{
    if s.len() > 0 {
        lemma_abs_sum_bound(s.drop_last());
    }
}

/// What entries add up to: the year, each month and each category, added in
/// `i128`, where no running sum can overflow.
fn add_up(sorted: &Vec<SpendEntry>) -> (r: (i128, Vec<i128>, Vec<WideLine>))
    requires
        all_valid(sorted@),
    ensures
        r.0 == amount_sum(sorted@),
        r.1@.len() == 12,
        forall|k: int| 0 <= k < 12 ==> #[trigger] r.1@[k] as int == month_totals(sorted@)[k],
        wide_view(r.2@) == category_tally(sorted@),
{
    let ghost s = sorted@;
    proof {
        assert(s.len() == sorted.len() && sorted.len() <= usize::MAX);
        lemma_abs_sum_bound(s);
        assert(s.len() * 0x8000_0000_0000_0000 < 0x7fff_ffff_ffff_ffff_ffff_ffff_ffff_ffffint) by (nonlinear_arith)
            requires
                s.len() <= 0xffff_ffff_ffff_ffff,
        ;
    }
    let mut total: i128 = 0;
    let mut months: Vec<i128> = Vec::new();
    let mut m: usize = 0;
    while m < 12
        invariant
            m <= 12,
            months@.len() == m,
            forall|j: int| 0 <= j < m ==> months@[j] == 0,
        decreases 12 - m,
    {
        months.push(0);
        m += 1;
    }
    assert(Seq::new(12, |j: int| months@[j] as int) =~= month_totals(s.take(0)));
    let mut lines: Vec<WideLine> = Vec::new();
    assert(wide_view(lines@) =~= category_tally(s.take(0)));
    let mut k: usize = 0;
    while k < sorted.len()
        invariant
            k <= s.len(),
            s == sorted@,
            all_valid(s),
            abs_amount_sum(s) < 0x7fff_ffff_ffff_ffff_ffff_ffff_ffff_ffffint,
            total as int == amount_sum(s.take(k as int)),
            months@.len() == 12,
            forall|j: int| 0 <= j < 12 ==> #[trigger] months@[j] as int == month_totals(s.take(k as int))[j],
            wide_view(lines@) == category_tally(s.take(k as int)),
        decreases sorted.len() - k,
    {
        let ghost prefix = s.take(k as int);
        let ghost next = s.take(k + 1);
        assert(next.drop_last() =~= prefix);
        assert(next.last() == s[k as int]);
        proof {
            assert(all_valid(next)) by {
                assert forall|i: int| 0 <= i < next.len() implies (#[trigger] next[i]).spent_on.valid() by {
                    assert(next[i] == s[i]);
                }
            }
            assert(all_valid(prefix)) by {
                assert forall|i: int| 0 <= i < prefix.len() implies (#[trigger] prefix[i]).spent_on.valid() by {
                    assert(prefix[i] == s[i]);
                }
            }
            months_add_up_to_the_total(next);
            months_add_up_to_the_total(prefix);
            categories_add_up_to_the_total(next);
            categories_add_up_to_the_total(prefix);
            lemma_abs_sum_prefix(s, k + 1);
            lemma_abs_sum_prefix(next, next.len() as int);
            assert(s[k as int].spent_on.valid());
        }
        let e = &sorted[k];
        total = total + e.amount_minor as i128;
        let slot = (e.spent_on.month - 1) as usize;
        assert(crate::locale::abs(month_totals(next)[slot as int]) <= abs_amount_sum(next));
        assert(month_totals(next)[slot as int] == months@[slot as int] + e.amount_minor);
        let updated = months[slot] + e.amount_minor as i128;
        months.set(slot, updated);
        assert forall|j: int| 0 <= j < 12 implies #[trigger] months@[j] as int == month_totals(next)[j] by {}
        assert forall|i: int| 0 <= i < lines@.len() implies (#[trigger] lines@[i]).entries < usize::MAX
            && i128::MIN < lines@[i].total + e.amount_minor < i128::MAX by {
            assert(wide_view(lines@)[i] == category_tally(prefix)[i]);
        }
        tally_into(&mut lines, e);
        k += 1;
    }
    assert(s.take(k as int) =~= s);
    (total, months, lines)
}

/// The entries in report order.
fn sort_entries(entries: Vec<SpendEntry>) -> (r: Vec<SpendEntry>)
    ensures
        r@ == in_report_order(entries@),
{
    let ghost all = entries@;
    let n = entries.len();
    assert(all.len() == n);
    let mut rest = entries;
    let mut out: Vec<SpendEntry> = Vec::new();
    let mut k: usize = 0;
    while rest.len() > 0
        invariant
            k <= all.len(),
            all.len() <= usize::MAX,
            rest@.len() + k == all.len(),
            rest@ == all.skip(k as int),
            out@ == in_report_order(all.take(k as int)),
        decreases rest.len(),
    {
        let ghost before = out@;
        assert(all.skip(k as int)[0] == all[k as int]);
        let e = rest.remove(0);
        assert(rest@ =~= all.skip(k + 1));
        proof {
            lemma_insert_pos(before, e);
        }
        let mut p: usize = 0;
        assert(before.skip(0) =~= before);
        while p < out.len() && !is_before(&e, &out[p])
            invariant
                p <= out@.len(),
                out@ == before,
                insert_pos(before, e) == p + insert_pos(before.skip(p as int), e),
            decreases out.len() - p,
        {
            assert(before.skip(p as int)[0] == before[p as int]);
            assert(before.skip(p as int).drop_first() =~= before.skip(p + 1));
            p += 1;
        }
        if p < out.len() {
            assert(before.skip(p as int)[0] == before[p as int]);
        }
        assert(insert_pos(before, e) == p) by {
            if p == out.len() {
                assert(before.skip(p as int).len() == 0);
            }
        }
        out.insert(p, e);
        assert(all.take(k + 1).drop_last() =~= all.take(k as int));
        assert(all.take(k + 1).last() == e);
        k += 1;
    }
    assert(all.take(k as int) =~= all);
    out
}

/// Whether `a` comes before `b` in report order.
fn is_before(a: &SpendEntry, b: &SpendEntry) -> (r: bool)
    ensures
        r == entry_before(*a, *b),
{
    if a.spent_on.is_before(&b.spent_on) {
        return true;
    }
    let same_day = a.spent_on.year == b.spent_on.year && a.spent_on.month == b.spent_on.month
        && a.spent_on.day == b.spent_on.day;
    if !same_day {
        return false;
    }
    chars_lt(&chars_of(a.category.as_str()), &chars_of(b.category.as_str()))
}

impl Report {
    /// Arrange a year's entries into the shape a report needs, dated
    /// `generated`.
    ///
    /// Every figure is derived from the same list of entries, put in order
    /// by day and then category: the total, the month totals, and one line
    /// per category in name order.
    pub fn build_on(year: i32, entries: Vec<SpendEntry>, generated: Date) -> (r: Report)
        requires
            reportable(entries@),
        ensures
            r.year == year,
            r.generated == generated,
            r.entries@ == in_report_order(entries@),
            r.total_minor == amount_sum(entries@),
            months_view(r.months@) == month_totals(r.entries@),
            lines_view(r.categories@) == category_tally(r.entries@),
            r.printable(),
    {
        proof {
            report_order_keeps_the_sums(entries@);
            lemma_report_order_valid(entries@);
        }
        let sorted = sort_entries(entries);
        let ghost s = sorted@;
        proof {
            months_add_up_to_the_total(s);
        }
        let (total, wide_months, wide_lines) = add_up(&sorted);
        let mut months: Vec<i64> = Vec::new();
        let mut m: usize = 0;
        while m < 12
            invariant
                m <= 12,
                months@.len() == m,
                wide_months@.len() == 12,
                totals_fit(s),
                forall|j: int| 0 <= j < 12 ==> #[trigger] wide_months@[j] as int == month_totals(s)[j],
                month_totals(s).len() == 12,
                forall|j: int| 0 <= j < m ==> #[trigger] months@[j] as int == month_totals(s)[j],
            decreases 12 - m,
        {
            assert(i64::MIN <= month_totals(s)[m as int] <= i64::MAX);
            let v = wide_months[m];
            assert(v as int == month_totals(s)[m as int]);
            months.push(v as i64);
            assert(months@[m as int] as int == month_totals(s)[m as int]);
            m += 1;
        }
        assert(months_view(months@) =~= month_totals(s));
        let mut lines: Vec<CategoryLine> = Vec::new();
        let mut i: usize = 0;
        while i < wide_lines.len()
            invariant
                i <= wide_lines@.len(),
                totals_fit(s),
                wide_view(wide_lines@) == category_tally(s),
                lines_view(lines@) == category_tally(s).take(i as int),
            decreases wide_lines.len() - i,
        {
            let w = &wide_lines[i];
            assert(wide_view(wide_lines@)[i as int] == category_tally(s)[i as int]);
            assert(i64::MIN <= category_tally(s)[i as int].2 <= i64::MAX);
            let line = CategoryLine { name: w.name.clone(), entries: w.entries, total_minor: w.total as i64 };
            assert((line.name@, line.entries as nat, line.total_minor as int) == category_tally(s)[i as int]);
            let ghost before = lines@;
            let ghost ct = category_tally(s);
            assert(lines_view(before) == ct.take(i as int));
            lines.push(line);
            assert(lines_view(lines@) =~= lines_view(before).push(ct[i as int]));
            assert(ct.take(i + 1) =~= ct.take(i as int).push(ct[i as int]));
            i += 1;
            assert(lines_view(lines@) =~= category_tally(s).take(i as int));
        }
        assert(category_tally(s).take(i as int) =~= category_tally(s));
        proof {
            report_order_keeps_the_sums(entries@);
        }
        Report { year, generated, categories: lines, months, entries: sorted, total_minor: total as i64 }
    }

    /// Arrange a year's entries into the shape a report needs, dated today.
    pub fn build(year: i32, entries: Vec<SpendEntry>) -> (r: Report)
        requires
            reportable(entries@),
        ensures
            r.year == year,
            r.generated.valid(),
            r.entries@ == in_report_order(entries@),
            r.total_minor == amount_sum(entries@),
            months_view(r.months@) == month_totals(r.entries@),
            lines_view(r.categories@) == category_tally(r.entries@),
            r.printable(),
    {
        Report::build_on(year, entries, today())
    }

    /// The name to save under, e.g. `spending-report-2026.csv`.
    pub fn file_name(&self, format: Format) -> (s: String)
        ensures
            s@ == "spending-report-"@ + signed_decimal(self.year as int) + seq!['.']
                + format_extension(format),
    {
        let mut s = String::new();
        push_str(&mut s, "spending-report-");
        let y = signed_text(self.year as i64);
        push_str(&mut s, y.as_str());
        s.push('.');
        push_str(&mut s, format.extension());
        s
    }

    /// The English name of the month at `index`, January being 0.
    pub fn month_name(index: usize) -> (s: &'static str)
        requires
            index < 12,
        ensures
            s@ == month_text(index as int),
    {
        match index {
            0 => "January",
            1 => "February",
            2 => "March",
            3 => "April",
            4 => "May",
            5 => "June",
            6 => "July",
            7 => "August",
            8 => "September",
            9 => "October",
            10 => "November",
            _ => "December",
        }
    }

    /// Months that had something in them, as (name, total) pairs. A month
    /// with no spending is left out rather than printed as a row of zeroes.
    pub fn months_with_spending(&self) -> (r: Vec<(&'static str, i64)>)
        requires
            self.months@.len() == 12,
        ensures
            month_rows_view(r@) == months_spent(months_view(self.months@), 12),
    {
        let mut r: Vec<(&'static str, i64)> = Vec::new();
        let mut i: usize = 0;
        while i < 12
            invariant
                i <= 12,
                self.months@.len() == 12,
                month_rows_view(r@) == months_spent(months_view(self.months@), i as int),
            decreases 12 - i,
        {
            if self.months[i] != 0 {
                let ghost prev = month_rows_view(r@);
                r.push((Report::month_name(i), self.months[i]));
                assert(month_rows_view(r@) =~= prev.push((month_text(i as int), self.months@[i as int] as int)));
            }
            i += 1;
        }
        r
    }
}

/// Adds one entry to the category lines, keeping them in name order.
fn tally_into(lines: &mut Vec<WideLine>, e: &SpendEntry)
    requires
        forall|i: int| 0 <= i < old(lines)@.len() ==> (#[trigger] old(lines)@[i]).entries < usize::MAX,
        forall|i: int| 0 <= i < old(lines)@.len() ==> i128::MIN < (#[trigger] old(lines)@[i]).total + e.amount_minor < i128::MAX,
    ensures
        wide_view(final(lines)@) == tally(wide_view(old(lines)@), e.category@, e.amount_minor as int),
{
    let ghost ls = wide_view(lines@);
    let name = chars_of(e.category.as_str());
    proof {
        lemma_line_pos(ls, name@);
    }
    let mut p: usize = 0;
    assert(ls.skip(0) =~= ls);
    while p < lines.len() && chars_lt(&chars_of(lines[p].name.as_str()), &name)
        invariant
            p <= lines@.len(),
            ls == wide_view(lines@),
            line_pos(ls, name@) == p + line_pos(ls.skip(p as int), name@),
        decreases lines.len() - p,
    {
        assert(ls.skip(p as int)[0] == ls[p as int]);
        assert(ls.skip(p as int).drop_first() =~= ls.skip(p + 1));
        p += 1;
    }
    if p < lines.len() {
        assert(ls.skip(p as int)[0] == ls[p as int]);
    }
    assert(line_pos(ls, name@) == p) by {
        if p == lines.len() {
            assert(ls.skip(p as int).len() == 0);
        }
    }
    if p < lines.len() && crate::strings::str_is(lines[p].name.as_str(), &name) {
        let old_line = &lines[p];
        let line = WideLine {
            name: old_line.name.clone(),
            entries: old_line.entries + 1,
            total: old_line.total + e.amount_minor as i128,
        };
        lines.set(p, line);
        assert(wide_view(lines@) =~= ls.update(
            p as int,
            (e.category@, ls[p as int].1 + 1, ls[p as int].2 + e.amount_minor),
        ));
    } else {
        let line = WideLine { name: e.category.clone(), entries: 1, total: e.amount_minor as i128 };
        lines.insert(p, line);
        assert(wide_view(lines@) =~= ls.insert(p as int, (e.category@, 1nat, e.amount_minor as int)));
    }
}

pub open spec fn month_text(i: int) -> Seq<char> {
    if i == 0 {
        "January"@
    } else if i == 1 {
        "February"@
    } else if i == 2 {
        "March"@
    } else if i == 3 {
        "April"@
    } else if i == 4 {
        "May"@
    } else if i == 5 {
        "June"@
    } else if i == 6 {
        "July"@
    } else if i == 7 {
        "August"@
    } else if i == 8 {
        "September"@
    } else if i == 9 {
        "October"@
    } else if i == 10 {
        "November"@
    } else {
        "December"@
    }
}

/// The months of the Gregorian calendar, in English, January first.
pub open spec fn calendar_months() -> Seq<Seq<char>> {
    seq![
        "January"@, "February"@, "March"@, "April"@, "May"@, "June"@, "July"@, "August"@, "September"@,
        "October"@, "November"@, "December"@,
    ]
}

/// Month `k` (January being 0) is named as the calendar names its
/// (`k + 1`)-th month, so every month row of a report carries the name of the
/// month its total was spent in: an entry dated in June is totalled under
/// "June".
pub proof fn months_are_named_in_calendar_order(m: Seq<int>, d: Date)
    requires
        m.len() == 12,
    ensures
        forall|k: int| 0 <= k < 12 ==> #[trigger] month_text(k) == calendar_months()[k],
        forall|i: int|
            0 <= i < months_spent(m, 12).len() ==> exists|k: int|
                0 <= k < 12 && m[k] != 0 && #[trigger] months_spent(m, 12)[i] == (calendar_months()[k], m[k]),
        d.valid() ==> month_text(d.month - 1) == calendar_months()[d.month - 1],
{
    assert forall|k: int| 0 <= k < 12 implies #[trigger] month_text(k) == calendar_months()[k] by {}
    assert forall|i: int| 0 <= i < months_spent(m, 12).len() implies exists|k: int|
        0 <= k < 12 && m[k] != 0 && #[trigger] months_spent(m, 12)[i] == (calendar_months()[k], m[k]) by {
        lemma_months_spent_rows(m, 12, i);
    }
}

proof fn lemma_months_spent_rows(m: Seq<int>, n: int, i: int)
    requires
        0 <= n <= 12,
        m.len() == 12,
        0 <= i < months_spent(m, n).len(),
    ensures
        exists|k: int| 0 <= k < n && m[k] != 0 && months_spent(m, n)[i] == (calendar_months()[k], m[k]),
    decreases n,
{
    if n > 0 {
        let prev = months_spent(m, n - 1);
        if m[n - 1] != 0 && i == prev.len() {
            assert(months_spent(m, n)[i] == (month_text(n - 1), m[n - 1]));
            assert(month_text(n - 1) == calendar_months()[n - 1]);
        } else {
            lemma_months_spent_rows(m, n - 1, i);
            let k = choose|k: int| 0 <= k < n - 1 && m[k] != 0 && prev[i] == (calendar_months()[k], m[k]);
            assert(months_spent(m, n)[i] == prev[i]);
        }
    }
}

/// The (name, total) rows for the months before `n` that had spending.
pub open spec fn months_spent(m: Seq<int>, n: int) -> Seq<(Seq<char>, int)>
    decreases n,
{
    if n <= 0 {
        Seq::empty()
    } else if m[n - 1] != 0 {
        months_spent(m, n - 1).push((month_text(n - 1), m[n - 1]))
    } else {
        months_spent(m, n - 1)
    }
}

pub open spec fn month_rows_view(v: Seq<(&'static str, i64)>) -> Seq<(Seq<char>, int)> {
    Seq::new(v.len(), |i: int| (v[i].0@, v[i].1 as int))
}

// ------------------------------------------------------------------ markup

/// What one character becomes inside XML or HTML text.
pub open spec fn escape_char(c: char) -> Seq<char> {
    if c == '&' {
        "&amp;"@
    } else if c == '<' {
        "&lt;"@
    } else if c == '>' {
        "&gt;"@
    } else if c == '"' {
        "&quot;"@
    } else if c == '\'' {
        "&apos;"@
    } else if (c < '\u{20}' && c != '\t' && c != '\n' && c != '\r') || c == '\u{7f}' {
        seq![' ']
    } else {
        seq![c]
    }
}

/// Text escaped for XML and HTML alike.
pub open spec fn escaped(s: Seq<char>) -> Seq<char>
    decreases s.len(),
{
    if s.len() == 0 {
        s
    } else {
        escaped(s.drop_last()) + escape_char(s.last())
    }
}

/// Escape text for XML and HTML alike: the five markup characters become
/// entities, and the control characters XML 1.0 forbids become spaces.
pub fn escape_markup(text: &str) -> (out: String)
    ensures
        out@ == escaped(text@),
{
    let v = chars_of(text);
    let mut out = String::new();
    let mut i: usize = 0;
    while i < v.len()
        invariant
            i <= v.len(),
            v@ == text@,
            out@ == escaped(v@.take(i as int)),
        decreases v.len() - i,
    {
        let c = v[i];
        proof {
            reveal_strlit("&amp;");
            reveal_strlit("&lt;");
            reveal_strlit("&gt;");
            reveal_strlit("&quot;");
            reveal_strlit("&apos;");
        }
        if c == '&' {
            push_str(&mut out, "&amp;");
        } else if c == '<' {
            push_str(&mut out, "&lt;");
        } else if c == '>' {
            push_str(&mut out, "&gt;");
        } else if c == '"' {
            push_str(&mut out, "&quot;");
        } else if c == '\'' {
            push_str(&mut out, "&apos;");
        } else if (c < '\u{20}' && c != '\t' && c != '\n' && c != '\r') || c == '\u{7f}' {
            out.push(' ');
        } else {
            out.push(c);
        }
        assert(v@.take(i + 1).drop_last() =~= v@.take(i as int));
        i += 1;
    }
    assert(v@.take(i as int) =~= v@);
    out
}

/// Escaped text can never become markup: it holds no `<`, `>` or quote, and
/// none of the characters XML forbids.
pub proof fn escaped_text_cannot_become_markup(s: Seq<char>)
    ensures
        !escaped(s).contains('<'),
        !escaped(s).contains('>'),
        !escaped(s).contains('"'),
        !escaped(s).contains('\''),
        forall|i: int| 0 <= i < escaped(s).len() ==> !forbidden_in_markup(#[trigger] escaped(s)[i]),
    decreases s.len(),
{
    reveal_strlit("&amp;");
    reveal_strlit("&lt;");
    reveal_strlit("&gt;");
    reveal_strlit("&quot;");
    reveal_strlit("&apos;");
    if s.len() > 0 {
        escaped_text_cannot_become_markup(s.drop_last());
        let a = escaped(s.drop_last());
        let b = escape_char(s.last());
        let e = escaped(s);
        assert(e == a + b);
        assert forall|i: int| 0 <= i < e.len() implies e[i] != '<' && e[i] != '>' && e[i] != '"'
            && e[i] != '\'' && !forbidden_in_markup(e[i]) by {
            if i < a.len() {
                assert(e[i] == a[i]);
                assert(a.contains(a[i]));
            } else {
                assert(e[i] == b[i - a.len()]);
            }
        }
    }
}

/// A character XML 1.0 does not allow in text: the control characters but
/// tab and the line ends, and delete.
pub open spec fn forbidden_in_markup(c: char) -> bool {
    (c < '\u{20}' && c != '\t' && c != '\n' && c != '\r') || c == '\u{7f}'
}

/// `s` with every character [`forbidden_in_markup`] made a space.
pub open spec fn scrubbed(s: Seq<char>) -> Seq<char> {
    Seq::new(s.len(), |i: int| if forbidden_in_markup(s[i]) { ' ' } else { s[i] })
}

/// Markup text read back: each of the five entities becomes its character.
pub open spec fn unescaped(e: Seq<char>) -> Seq<char>
    decreases e.len(),
{
    if e.len() == 0 {
        e
    } else if e.len() >= 5 && e.take(5) == "&amp;"@ {
        seq!['&'] + unescaped(e.skip(5))
    } else if e.len() >= 4 && e.take(4) == "&lt;"@ {
        seq!['<'] + unescaped(e.skip(4))
    } else if e.len() >= 4 && e.take(4) == "&gt;"@ {
        seq!['>'] + unescaped(e.skip(4))
    } else if e.len() >= 6 && e.take(6) == "&quot;"@ {
        seq!['"'] + unescaped(e.skip(6))
    } else if e.len() >= 6 && e.take(6) == "&apos;"@ {
        seq!['\''] + unescaped(e.skip(6))
    } else {
        seq![e[0]] + unescaped(e.drop_first())
    }
}

pub proof fn lemma_escaped_append(a: Seq<char>, b: Seq<char>)
    ensures
        escaped(a + b) == escaped(a) + escaped(b),
    decreases b.len(),
{
    if b.len() == 0 {
        assert(a + b =~= a);
        assert(escaped(a) + escaped(b) =~= escaped(a));
    } else {
        lemma_escaped_append(a, b.drop_last());
        assert((a + b).drop_last() =~= a + b.drop_last());
        assert((a + b).last() == b.last());
        assert(escaped(a + b.drop_last()) + escape_char(b.last()) =~= escaped(a) + (escaped(
            b.drop_last(),
        ) + escape_char(b.last())));
    }
}

pub proof fn lemma_unescape_one(c: char, rest: Seq<char>)
    ensures
        unescaped(escape_char(c) + rest) == seq![
            if forbidden_in_markup(c) {
                ' '
            } else {
                c
            },
        ] + unescaped(rest),
{
    reveal_strlit("&amp;");
    reveal_strlit("&lt;");
    reveal_strlit("&gt;");
    reveal_strlit("&quot;");
    reveal_strlit("&apos;");
    let x = escape_char(c);
    let e = x + rest;
    if c == '&' {
        assert(e.take(5) =~= x);
        assert(e.skip(5) =~= rest);
    } else if c == '<' {
        assert(e.take(4) =~= x);
        assert(e.skip(4) =~= rest);
        assert(e.len() >= 5 ==> e.take(5)[1] == 'l');
    } else if c == '>' {
        assert(e.take(4) =~= x);
        assert(e.skip(4) =~= rest);
        assert(e.len() >= 5 ==> e.take(5)[1] == 'g');
        assert(e.len() >= 4 ==> e.take(4)[1] == 'g');
    } else if c == '"' {
        assert(e.take(6) =~= x);
        assert(e.skip(6) =~= rest);
        assert(e.len() >= 5 ==> e.take(5)[1] == 'q');
        assert(e.len() >= 4 ==> e.take(4)[1] == 'q');
    } else if c == '\'' {
        assert(e.take(6) =~= x);
        assert(e.skip(6) =~= rest);
        assert(e.len() >= 5 ==> e.take(5)[1] == 'a' && e.take(5)[2] == 'p');
        assert(e.len() >= 4 ==> e.take(4)[1] == 'a');
        assert(e.take(6)[1] == 'a' && e.take(6)[2] == 'p');
    } else {
        assert(x.len() == 1);
        assert(e[0] != '&');
        assert(e.len() >= 5 ==> e.take(5)[0] != "&amp;"@[0]);
        assert(e.len() >= 4 ==> e.take(4)[0] != "&lt;"@[0]);
        assert(e.len() >= 6 ==> e.take(6)[0] != "&quot;"@[0]);
        assert(e.drop_first() =~= rest);
    }
}

/// Escaped text reads back: decoding the five entities gives the original
/// text, with each character XML forbids made a space.
pub proof fn escaped_text_reads_back(s: Seq<char>)
    ensures
        unescaped(escaped(s)) == scrubbed(s),
    decreases s.len(),
{
    if s.len() == 0 {
        assert(scrubbed(s) =~= s);
    } else {
        let c = s[0];
        let rest = s.drop_first();
        assert(s =~= seq![c] + rest);
        lemma_escaped_append(seq![c], rest);
        let one = seq![c];
        assert(one.drop_last() =~= Seq::<char>::empty());
        assert(escaped(one.drop_last()) =~= Seq::<char>::empty());
        assert(escaped(one) =~= escape_char(c));
        escaped_text_reads_back(rest);
        lemma_unescape_one(c, escaped(rest));
        assert(scrubbed(s) =~= seq![
            if forbidden_in_markup(c) {
                ' '
            } else {
                c
            },
        ] + scrubbed(rest));
    }
}

} // verus!
