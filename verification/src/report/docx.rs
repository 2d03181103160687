//! A Word document, written directly.
//!
//! A `.docx` is a zip of a few XML parts, and the handful this needs
//! (paragraphs, tables, page setup) is a small, stable corner of OOXML. The
//! XML is built and checked here; the zip archive around it is the `zip`
//! crate's.
//!
//! The escaping this shares with the HTML writer is the part that has to be
//! right: an unescaped `&` in a category name is the difference between a
//! document and a file Word refuses to open.

use vstd::prelude::*;

use crate::locale::Locale;
use crate::report::csv::strings_view;
use crate::report::{
    amount_sum, categories_add_up_to_the_total, category_counts_add_up_to_the_entries, category_tally, escape_markup,
    escaped, lines_count, lines_total, lines_view, month_rows_view, months_spent, months_view, Report, Sections,
};
use crate::strings::{
    chars_of, concat, decimal, push_str, remove_all, remove_all_of, signed_decimal, signed_text,
    string_of, unsigned_text,
};

verus! {

/// Twips (twentieths of a point) are OOXML's unit for anything on the page.
/// A4 is 210 by 297 mm, and the margins are 2 cm all round.
pub const PAGE_WIDTH: u32 = 11906;
pub const PAGE_HEIGHT: u32 = 16838;
pub const MARGIN: u32 = 1134;
/// The width tables and their columns share out.
pub const CONTENT_WIDTH: u32 = 9638;

/// The WordprocessingML namespace, spelled once.
pub const W: &'static str = "http://schemas.openxmlformats.org/wordprocessingml/2006/main";

/// A backslash and a line break: how the templates below are split over
/// lines, and taken out of the finished XML.
pub open spec fn line_join() -> Seq<char> {
    seq!['\\', '\n']
}

fn line_join_of() -> (v: Vec<char>)
    ensures
        v@ == line_join(),
{
    let mut v: Vec<char> = Vec::new();
    v.push('\\');
    v.push('\n');
    assert(v@ =~= line_join());
    v
}

/// `one` for a count of one, `many` otherwise.
pub fn plural(count: usize, one: &'static str, many: &'static str) -> (s: &'static str)
    ensures
        s == (if count == 1 {
            one
        } else {
            many
        }),
{
    if count == 1 {
        one
    } else {
        many
    }
}

/// Column widths in twips from a set of percentages of the content width.
pub fn share_out(percentages: &Vec<u32>) -> (widths: Vec<u32>)
    requires
        forall|i: int| 0 <= i < percentages@.len() ==> CONTENT_WIDTH * #[trigger] percentages@[i] <= u32::MAX,
    ensures
        widths@.len() == percentages@.len(),
        forall|i: int| 0 <= i < widths@.len() ==> #[trigger] widths@[i] == CONTENT_WIDTH * percentages@[i] / 100,
{
    let mut widths: Vec<u32> = Vec::new();
    let mut i: usize = 0;
    while i < percentages.len()
        invariant
            i <= percentages@.len(),
            forall|i: int| 0 <= i < percentages@.len() ==> CONTENT_WIDTH * #[trigger] percentages@[i] <= u32::MAX,
            widths@.len() == i,
            forall|k: int| 0 <= k < i ==> #[trigger] widths@[k] == CONTENT_WIDTH * percentages@[k] / 100,
        decreases percentages.len() - i,
    {
        let pct = percentages[i];
        widths.push(CONTENT_WIDTH * pct / 100);
        i += 1;
    }
    widths
}

// ------------------------------------------------------------------ runs

pub open spec fn run_xml(text: Seq<char>, bold: bool, half_points: nat) -> Seq<char> {
    "<w:r><w:rPr>"@ + (if bold {
        "<w:b/>"@
    } else {
        Seq::empty()
    }) + "<w:sz w:val=\""@ + decimal(half_points) + "\"/><w:szCs w:val=\""@ + decimal(half_points)
        + "\"/></w:rPr><w:t xml:space=\"preserve\">"@ + escaped(text) + "</w:t></w:r>"@
}

/// A run of text: its size in half-points, bold or not, escaped.
pub fn run(text: &str, bold: bool, half_points: u32) -> (s: String)
    ensures
        s@ == run_xml(text@, bold, half_points as nat),
{
    let size = unsigned_text(half_points as u64);
    let mut s = String::new();
    push_str(&mut s, "<w:r><w:rPr>");
    if bold {
        push_str(&mut s, "<w:b/>");
    }
    push_str(&mut s, "<w:sz w:val=\"");
    push_str(&mut s, size.as_str());
    push_str(&mut s, "\"/><w:szCs w:val=\"");
    push_str(&mut s, size.as_str());
    push_str(&mut s, "\"/></w:rPr><w:t xml:space=\"preserve\">");
    push_str(&mut s, escape_markup(text).as_str());
    push_str(&mut s, "</w:t></w:r>");
    assert(s@ =~= run_xml(text@, bold, half_points as nat));
    s
}

pub open spec fn paragraph_xml(runs: Seq<Seq<char>>) -> Seq<char> {
    "<w:p><w:pPr><w:spacing w:after=\"120\"/></w:pPr>"@ + concat(runs) + "</w:p>"@
}

/// A paragraph holding the given runs.
pub fn paragraph_runs(runs: &Vec<String>) -> (s: String)
    ensures
        s@ == paragraph_xml(strings_view(runs@)),
{
    let ghost rs = strings_view(runs@);
    let mut s = String::new();
    push_str(&mut s, "<w:p><w:pPr><w:spacing w:after=\"120\"/></w:pPr>");
    let ghost head = s@;
    let mut i: usize = 0;
    while i < runs.len()
        invariant
            i <= runs@.len(),
            rs == strings_view(runs@),
            s@ == head + concat(rs.take(i as int)),
        decreases runs.len() - i,
    {
        push_str(&mut s, runs[i].as_str());
        assert(rs.take(i + 1).drop_last() =~= rs.take(i as int));
        i += 1;
    }
    assert(rs.take(i as int) =~= rs);
    push_str(&mut s, "</w:p>");
    assert(s@ =~= paragraph_xml(rs));
    s
}

pub open spec fn heading_xml(text: Seq<char>, half_points: nat) -> Seq<char> {
    "<w:p><w:pPr><w:spacing w:before=\"240\" w:after=\"120\"/><w:keepNext/></w:pPr>"@ + run_xml(
        text,
        true,
        half_points,
    ) + "</w:p>"@
}

/// A bold paragraph that keeps with the one after it.
pub fn heading(text: &str, half_points: u32) -> (s: String)
    ensures
        s@ == heading_xml(text@, half_points as nat),
{
    let mut s = String::new();
    push_str(&mut s, "<w:p><w:pPr><w:spacing w:before=\"240\" w:after=\"120\"/><w:keepNext/></w:pPr>");
    push_str(&mut s, run(text, true, half_points).as_str());
    push_str(&mut s, "</w:p>");
    assert(s@ =~= heading_xml(text@, half_points as nat));
    s
}

pub open spec fn muted_xml(text: Seq<char>) -> Seq<char> {
    "<w:p><w:pPr><w:spacing w:after=\"120\"/></w:pPr><w:r><w:rPr><w:color w:val=\"595959\"/><w:sz w:val=\"18\"/></w:rPr><w:t xml:space=\"preserve\">"@
        + escaped(text) + "</w:t></w:r></w:p>"@
}

/// A small grey paragraph.
pub fn muted(text: &str) -> (s: String)
    ensures
        s@ == muted_xml(text@),
{
    let mut s = String::new();
    push_str(
        &mut s,
        "<w:p><w:pPr><w:spacing w:after=\"120\"/></w:pPr><w:r><w:rPr><w:color w:val=\"595959\"/><w:sz w:val=\"18\"/></w:rPr><w:t xml:space=\"preserve\">",
    );
    push_str(&mut s, escape_markup(text).as_str());
    push_str(&mut s, "</w:t></w:r></w:p>");
    assert(s@ =~= muted_xml(text@));
    s
}

// ------------------------------------------------------------------ tables

pub open spec fn cell_xml(text: Seq<char>, right: bool, bold: bool, width: nat) -> Seq<char> {
    "<w:tc><w:tcPr><w:tcW w:w=\""@ + decimal(width) + "\" w:type=\"dxa\"/></w:tcPr><w:p><w:pPr>"@ + (
    if right {
        "<w:jc w:val=\"right\"/>"@
    } else {
        Seq::empty()
    }) + "<w:spacing w:after=\"0\"/></w:pPr>"@ + run_xml(text, bold, 20) + "</w:p></w:tc>"@
}

/// A cell's paragraph: text, alignment, and whether it is bold.
pub fn cell(text: &str, right: bool, bold: bool, width: u32) -> (s: String)
    ensures
        s@ == cell_xml(text@, right, bold, width as nat),
{
    let mut s = String::new();
    push_str(&mut s, "<w:tc><w:tcPr><w:tcW w:w=\"");
    push_str(&mut s, unsigned_text(width as u64).as_str());
    push_str(&mut s, "\" w:type=\"dxa\"/></w:tcPr><w:p><w:pPr>");
    if right {
        push_str(&mut s, "<w:jc w:val=\"right\"/>");
    }
    push_str(&mut s, "<w:spacing w:after=\"0\"/></w:pPr>");
    push_str(&mut s, run(text, bold, 20).as_str());
    push_str(&mut s, "</w:p></w:tc>");
    assert(s@ =~= cell_xml(text@, right, bold, width as nat));
    s
}

/// One table cell's text, whether it is right-aligned, and whether bold.
pub type CellSpec = (Seq<char>, bool, bool);

pub open spec fn row_view(row: Seq<(String, bool, bool)>) -> Seq<CellSpec> {
    Seq::new(row.len(), |i: int| (row[i].0@, row[i].1, row[i].2))
}

pub open spec fn rows_view(rows: Seq<Vec<(String, bool, bool)>>) -> Seq<Seq<CellSpec>> {
    Seq::new(rows.len(), |i: int| row_view(rows[i]@))
}

pub open spec fn min_len(a: int, b: int) -> int {
    if a < b {
        a
    } else {
        b
    }
}

/// A row of body cells: the texts paired with their alignments.
pub fn cells(texts: &Vec<String>, right: &Vec<bool>, bold: bool) -> (row: Vec<(String, bool, bool)>)
    ensures
        row_view(row@) == Seq::new(
            min_len(texts@.len() as int, right@.len() as int) as nat,
            |i: int| (texts@[i]@, right@[i], bold),
        ),
{
    let n = if texts.len() < right.len() {
        texts.len()
    } else {
        right.len()
    };
    let mut row: Vec<(String, bool, bool)> = Vec::new();
    let mut i: usize = 0;
    while i < n
        invariant
            i <= n,
            n as int == min_len(texts@.len() as int, right@.len() as int),
            row_view(row@) == Seq::new(i as nat, |k: int| (texts@[k]@, right@[k], bold)),
        decreases n - i,
    {
        let ghost prev = row_view(row@);
        row.push((texts[i].clone(), right[i], bold));
        assert(row_view(row@) =~= prev.push((texts@[i as int]@, right@[i as int], bold)));
        i += 1;
        assert(row_view(row@) =~= Seq::new(i as nat, |k: int| (texts@[k]@, right@[k], bold)));
    }
    row
}

/// A row of bold header cells.
pub fn header_cells(texts: &Vec<&str>, right: &Vec<bool>) -> (row: Vec<(String, bool, bool)>)
    ensures
        row_view(row@) == Seq::new(
            min_len(texts@.len() as int, right@.len() as int) as nat,
            |i: int| (texts@[i]@, right@[i], true),
        ),
{
    let n = if texts.len() < right.len() {
        texts.len()
    } else {
        right.len()
    };
    let mut row: Vec<(String, bool, bool)> = Vec::new();
    let mut i: usize = 0;
    while i < n
        invariant
            i <= n,
            n as int == min_len(texts@.len() as int, right@.len() as int),
            row_view(row@) == Seq::new(i as nat, |k: int| (texts@[k]@, right@[k], true)),
        decreases n - i,
    {
        let ghost prev = row_view(row@);
        row.push((texts[i].to_owned(), right[i], true));
        assert(row_view(row@) =~= prev.push((texts@[i as int]@, right@[i as int], true)));
        i += 1;
        assert(row_view(row@) =~= Seq::new(i as nat, |k: int| (texts@[k]@, right@[k], true)));
    }
    row
}

pub open spec fn widths_view(w: Seq<u32>) -> Seq<nat> {
    Seq::new(w.len(), |i: int| w[i] as nat)
}

pub open spec fn row_xml(row: Seq<CellSpec>, widths: Seq<nat>, is_header: bool) -> Seq<char> {
    "<w:tr>"@ + (if is_header {
        "<w:trPr><w:tblHeader/></w:trPr>"@
    } else {
        Seq::empty()
    }) + concat(
        Seq::new(
            min_len(row.len() as int, widths.len() as int) as nat,
            |i: int| cell_xml(row[i].0, row[i].1, row[i].2, widths[i]),
        ),
    ) + "</w:tr>"@
}

/// The opening of every table, borders and cell margins included, written
/// over several lines joined by [`line_join`].
pub open spec fn table_start() -> Seq<char> {
    "<w:tbl><w:tblPr><w:tblW w:w=\"0\" w:type=\"auto\"/><w:tblBorders>\\\n<w:top w:val=\"single\" w:sz=\"4\" w:space=\"0\" w:color=\"BFBFBF\"/>\\\n<w:left w:val=\"none\" w:sz=\"0\" w:space=\"0\" w:color=\"auto\"/>\\\n<w:bottom w:val=\"single\" w:sz=\"4\" w:space=\"0\" w:color=\"BFBFBF\"/>\\\n<w:right w:val=\"none\" w:sz=\"0\" w:space=\"0\" w:color=\"auto\"/>\\\n<w:insideH w:val=\"single\" w:sz=\"4\" w:space=\"0\" w:color=\"D9D9D9\"/>\\\n<w:insideV w:val=\"none\" w:sz=\"0\" w:space=\"0\" w:color=\"auto\"/>\\\n</w:tblBorders><w:tblCellMar>\\\n<w:top w:w=\"60\" w:type=\"dxa\"/><w:left w:w=\"80\" w:type=\"dxa\"/>\\\n<w:bottom w:w=\"60\" w:type=\"dxa\"/><w:right w:w=\"80\" w:type=\"dxa\"/>\\\n</w:tblCellMar></w:tblPr><w:tblGrid>"@
}

pub open spec fn table_xml(widths: Seq<nat>, header: Seq<Seq<CellSpec>>, rows: Seq<Seq<CellSpec>>) -> Seq<
    char,
> {
    let grid = concat(Seq::new(widths.len(), |i: int| "<w:gridCol w:w=\""@ + decimal(widths[i]) + "\"/>"@));
    let head = concat(Seq::new(header.len(), |i: int| row_xml(header[i], widths, true)));
    let body = concat(Seq::new(rows.len(), |i: int| row_xml(rows[i], widths, false)));
    remove_all(table_start() + grid + "</w:tblGrid>"@ + head + body + "</w:tbl>"@, line_join())
}

fn push_row_xml(out: &mut String, row: &Vec<(String, bool, bool)>, widths: &Vec<u32>, is_header: bool)
    ensures
        final(out)@ == old(out)@ + row_xml(row_view(row@), widths_view(widths@), is_header),
{
    let ghost start = out@;
    let ghost rv = row_view(row@);
    let ghost wv = widths_view(widths@);
    push_str(out, "<w:tr>");
    if is_header {
        push_str(out, "<w:trPr><w:tblHeader/></w:trPr>");
    }
    let n = if row.len() < widths.len() {
        row.len()
    } else {
        widths.len()
    };
    let ghost cs = Seq::new(
        min_len(rv.len() as int, wv.len() as int) as nat,
        |i: int| cell_xml(rv[i].0, rv[i].1, rv[i].2, wv[i]),
    );
    let ghost head = out@;
    let mut i: usize = 0;
    while i < n
        invariant
            i <= n,
            n as int == min_len(rv.len() as int, wv.len() as int),
            rv == row_view(row@),
            wv == widths_view(widths@),
            cs == Seq::new(
                min_len(rv.len() as int, wv.len() as int) as nat,
                |i: int| cell_xml(rv[i].0, rv[i].1, rv[i].2, wv[i]),
            ),
            out@ == head + concat(cs.take(i as int)),
        decreases n - i,
    {
        let c = cell(row[i].0.as_str(), row[i].1, row[i].2, widths[i]);
        push_str(out, c.as_str());
        assert(cs.take(i + 1).drop_last() =~= cs.take(i as int));
        i += 1;
    }
    assert(cs.take(i as int) =~= cs);
    push_str(out, "</w:tr>");
    assert(out@ =~= start + row_xml(rv, wv, is_header));
}

/// A table: the grid, the header rows (which repeat at the top of every
/// page), and the body rows.
pub fn table(widths: &Vec<u32>, header: &Vec<Vec<(String, bool, bool)>>, rows: &Vec<Vec<(String, bool, bool)>>) -> (s: String)
    ensures
        s@ == table_xml(widths_view(widths@), rows_view(header@), rows_view(rows@)),
{
    let ghost wv = widths_view(widths@);
    let mut raw = String::new();
    push_str(&mut raw, "<w:tbl><w:tblPr><w:tblW w:w=\"0\" w:type=\"auto\"/><w:tblBorders>\\\n<w:top w:val=\"single\" w:sz=\"4\" w:space=\"0\" w:color=\"BFBFBF\"/>\\\n<w:left w:val=\"none\" w:sz=\"0\" w:space=\"0\" w:color=\"auto\"/>\\\n<w:bottom w:val=\"single\" w:sz=\"4\" w:space=\"0\" w:color=\"BFBFBF\"/>\\\n<w:right w:val=\"none\" w:sz=\"0\" w:space=\"0\" w:color=\"auto\"/>\\\n<w:insideH w:val=\"single\" w:sz=\"4\" w:space=\"0\" w:color=\"D9D9D9\"/>\\\n<w:insideV w:val=\"none\" w:sz=\"0\" w:space=\"0\" w:color=\"auto\"/>\\\n</w:tblBorders><w:tblCellMar>\\\n<w:top w:w=\"60\" w:type=\"dxa\"/><w:left w:w=\"80\" w:type=\"dxa\"/>\\\n<w:bottom w:w=\"60\" w:type=\"dxa\"/><w:right w:w=\"80\" w:type=\"dxa\"/>\\\n</w:tblCellMar></w:tblPr><w:tblGrid>");
    let ghost grid = Seq::new(wv.len(), |i: int| "<w:gridCol w:w=\""@ + decimal(wv[i]) + "\"/>"@);
    let ghost g0 = raw@;
    let mut i: usize = 0;
    while i < widths.len()
        invariant
            i <= widths@.len(),
            wv == widths_view(widths@),
            grid == Seq::new(wv.len(), |i: int| "<w:gridCol w:w=\""@ + decimal(wv[i]) + "\"/>"@),
            raw@ == g0 + concat(grid.take(i as int)),
        decreases widths.len() - i,
    {
        let ghost before = raw@;
        push_str(&mut raw, "<w:gridCol w:w=\"");
        push_str(&mut raw, unsigned_text(widths[i] as u64).as_str());
        push_str(&mut raw, "\"/>");
        assert(raw@ =~= before + grid[i as int]);
        assert(grid.take(i + 1).drop_last() =~= grid.take(i as int));
        i += 1;
    }
    assert(grid.take(i as int) =~= grid);
    push_str(&mut raw, "</w:tblGrid>");
    let ghost hv = rows_view(header@);
    let ghost head = Seq::new(hv.len(), |i: int| row_xml(hv[i], wv, true));
    let ghost h0 = raw@;
    let mut k: usize = 0;
    while k < header.len()
        invariant
            k <= header@.len(),
            wv == widths_view(widths@),
            hv == rows_view(header@),
            head == Seq::new(hv.len(), |i: int| row_xml(hv[i], wv, true)),
            raw@ == h0 + concat(head.take(k as int)),
        decreases header.len() - k,
    {
        push_row_xml(&mut raw, &header[k], widths, true);
        assert(head.take(k + 1).drop_last() =~= head.take(k as int));
        k += 1;
    }
    assert(head.take(k as int) =~= head);
    let ghost bv = rows_view(rows@);
    let ghost body = Seq::new(bv.len(), |i: int| row_xml(bv[i], wv, false));
    let ghost b0 = raw@;
    let mut j: usize = 0;
    while j < rows.len()
        invariant
            j <= rows@.len(),
            wv == widths_view(widths@),
            bv == rows_view(rows@),
            body == Seq::new(bv.len(), |i: int| row_xml(bv[i], wv, false)),
            raw@ == b0 + concat(body.take(j as int)),
        decreases rows.len() - j,
    {
        push_row_xml(&mut raw, &rows[j], widths, false);
        assert(body.take(j + 1).drop_last() =~= body.take(j as int));
        j += 1;
    }
    assert(body.take(j as int) =~= body);
    push_str(&mut raw, "</w:tbl>");
    let joined = remove_all_of(&chars_of(raw.as_str()), &line_join_of());
    assert(raw@ =~= table_start() + concat(grid) + "</w:tblGrid>"@ + concat(head) + concat(body)
        + "</w:tbl>"@);
    string_of(&joined)
}

// ------------------------------------------------------------------ the document

/// Column widths for the given percentages of the content width.
pub open spec fn widths_for(pcts: Seq<nat>) -> Seq<nat> {
    Seq::new(pcts.len(), |i: int| (CONTENT_WIDTH as nat * pcts[i]) / 100)
}

fn widths_of(pcts: &Vec<u32>) -> (w: Vec<u32>)
    requires
        forall|i: int| 0 <= i < pcts@.len() ==> #[trigger] pcts@[i] <= 100,
    ensures
        widths_view(w@) == widths_for(widths_view(pcts@)),
{
    let w = share_out(pcts);
    assert(widths_view(w@) =~= widths_for(widths_view(pcts@)));
    w
}

fn pcts4(a: u32, b: u32, c: u32, d: u32) -> (v: Vec<u32>)
    ensures
        widths_view(v@) == seq![a as nat, b as nat, c as nat, d as nat],
        v@ == seq![a, b, c, d],
{
    let mut v: Vec<u32> = Vec::new();
    v.push(a);
    v.push(b);
    v.push(c);
    v.push(d);
    assert(v@ =~= seq![a, b, c, d]);
    assert(widths_view(v@) =~= seq![a as nat, b as nat, c as nat, d as nat]);
    v
}

fn pcts2(a: u32, b: u32) -> (v: Vec<u32>)
    ensures
        widths_view(v@) == seq![a as nat, b as nat],
        v@ == seq![a, b],
{
    let mut v: Vec<u32> = Vec::new();
    v.push(a);
    v.push(b);
    assert(v@ =~= seq![a, b]);
    assert(widths_view(v@) =~= seq![a as nat, b as nat]);
    v
}

/// Four cells of one row, through [`cells`].
fn row4(
    a: String,
    ra: bool,
    b: String,
    rb: bool,
    c: String,
    rc: bool,
    d: String,
    rd: bool,
    bold: bool,
) -> (row: Vec<(String, bool, bool)>)
    ensures
        row_view(row@) == seq![(a@, ra, bold), (b@, rb, bold), (c@, rc, bold), (d@, rd, bold)],
{
    let ghost (av, bv, cv, dv) = (a@, b@, c@, d@);
    let mut texts: Vec<String> = Vec::new();
    texts.push(a);
    texts.push(b);
    texts.push(c);
    texts.push(d);
    let mut right: Vec<bool> = Vec::new();
    right.push(ra);
    right.push(rb);
    right.push(rc);
    right.push(rd);
    let row = cells(&texts, &right, bold);
    assert(row_view(row@) =~= seq![(av, ra, bold), (bv, rb, bold), (cv, rc, bold), (dv, rd, bold)]);
    row
}

/// Two cells of one row, through [`cells`].
fn row2(a: String, ra: bool, b: String, rb: bool, bold: bool) -> (row: Vec<(String, bool, bool)>)
    ensures
        row_view(row@) == seq![(a@, ra, bold), (b@, rb, bold)],
{
    let ghost (av, bv) = (a@, b@);
    let mut texts: Vec<String> = Vec::new();
    texts.push(a);
    texts.push(b);
    let mut right: Vec<bool> = Vec::new();
    right.push(ra);
    right.push(rb);
    let row = cells(&texts, &right, bold);
    assert(row_view(row@) =~= seq![(av, ra, bold), (bv, rb, bold)]);
    row
}

/// A one-row header, through [`header_cells`].
fn header4(a: &str, ra: bool, b: &str, rb: bool, c: &str, rc: bool, d: &str, rd: bool) -> (rows: Vec<
    Vec<(String, bool, bool)>,
>)
    ensures
        rows_view(rows@) == seq![seq![(a@, ra, true), (b@, rb, true), (c@, rc, true), (d@, rd, true)]],
{
    let mut texts: Vec<&str> = Vec::new();
    texts.push(a);
    texts.push(b);
    texts.push(c);
    texts.push(d);
    let mut right: Vec<bool> = Vec::new();
    right.push(ra);
    right.push(rb);
    right.push(rc);
    right.push(rd);
    let row = header_cells(&texts, &right);
    let mut rows: Vec<Vec<(String, bool, bool)>> = Vec::new();
    rows.push(row);
    assert(row_view(rows@[0]@) =~= seq![(a@, ra, true), (b@, rb, true), (c@, rc, true), (d@, rd, true)]);
    assert(rows_view(rows@) =~= seq![seq![(a@, ra, true), (b@, rb, true), (c@, rc, true), (d@, rd, true)]]);
    rows
}

fn header2(a: &str, ra: bool, b: &str, rb: bool) -> (rows: Vec<Vec<(String, bool, bool)>>)
    ensures
        rows_view(rows@) == seq![seq![(a@, ra, true), (b@, rb, true)]],
{
    let mut texts: Vec<&str> = Vec::new();
    texts.push(a);
    texts.push(b);
    let mut right: Vec<bool> = Vec::new();
    right.push(ra);
    right.push(rb);
    let row = header_cells(&texts, &right);
    let mut rows: Vec<Vec<(String, bool, bool)>> = Vec::new();
    rows.push(row);
    assert(row_view(rows@[0]@) =~= seq![(a@, ra, true), (b@, rb, true)]);
    assert(rows_view(rows@) =~= seq![seq![(a@, ra, true), (b@, rb, true)]]);
    rows
}

/// The line under the title: date, currency, and the two counts.
pub open spec fn summary_line(r: &Report, l: &Locale) -> Seq<char> {
    let n = r.entries@.len();
    let m = r.categories@.len();
    "Generated "@ + l.date_text(r.generated) + " · "@ + l.currency.code@ + " · "@ + decimal(n as nat)
        + seq![' '] + (if n == 1 {
        "entry"@
    } else {
        "entries"@
    }) + " across "@ + decimal(m as nat) + seq![' '] + (if m == 1 {
        "category"@
    } else {
        "categories"@
    })
}

pub open spec fn doc_summary(r: &Report, l: &Locale) -> Seq<char> {
    heading_xml("Spending report "@ + signed_decimal(r.year as int), 36) + muted_xml(summary_line(r, l))
        + paragraph_xml(seq![run_xml("Total spent: "@, false, 24), run_xml(l.money_text(r.total_minor as int), true, 24)])
}

/// The category table's rows: one per category, then the total.
pub open spec fn category_cells(r: &Report, l: &Locale, shares: Seq<Seq<char>>) -> Seq<Seq<CellSpec>> {
    let n = r.categories@.len() as int;
    Seq::new(
        (n + 1) as nat,
        |i: int|
            if i < n {
                seq![
                    (r.categories@[i].name@, false, false),
                    (decimal(r.categories@[i].entries as nat), true, false),
                    (l.money_text(r.categories@[i].total_minor as int), true, false),
                    (shares[i], true, false),
                ]
            } else {
                seq![
                    ("Total"@, false, true),
                    (decimal(r.entries@.len() as nat), true, true),
                    (l.money_text(r.total_minor as int), true, true),
                    (Seq::<char>::empty(), true, true),
                ]
            },
    )
}

pub open spec fn doc_categories(r: &Report, l: &Locale, shares: Seq<Seq<char>>) -> Seq<char> {
    heading_xml("By category"@, 28) + table_xml(
        widths_for(seq![46nat, 14nat, 22nat, 18nat]),
        seq![seq![("Category"@, false, true), ("Entries"@, true, true), ("Total"@, true, true), ("Share"@, true, true)]],
        category_cells(r, l, shares),
    )
}

pub open spec fn month_cells(r: &Report, l: &Locale) -> Seq<Seq<CellSpec>> {
    let ms = months_spent(months_view(r.months@), 12);
    Seq::new(ms.len(), |i: int| seq![(ms[i].0, false, false), (l.money_text(ms[i].1), true, false)])
}

pub open spec fn doc_months(r: &Report, l: &Locale) -> Seq<char> {
    heading_xml("By month"@, 28) + table_xml(
        widths_for(seq![60nat, 40nat]),
        seq![seq![("Month"@, false, true), ("Total"@, true, true)]],
        month_cells(r, l),
    )
}

pub open spec fn entry_cells(r: &Report, l: &Locale) -> Seq<Seq<CellSpec>> {
    Seq::new(
        r.entries@.len(),
        |i: int|
            seq![
                (l.date_text(r.entries@[i].spent_on), false, false),
                (r.entries@[i].category@, false, false),
                (l.money_text(r.entries@[i].amount_minor as int), true, false),
                (r.entries@[i].description@, false, false),
            ],
    )
}

pub open spec fn doc_entries(r: &Report, l: &Locale) -> Seq<char> {
    heading_xml("Entries"@, 28) + table_xml(
        widths_for(seq![18nat, 26nat, 18nat, 38nat]),
        seq![seq![("Date"@, false, true), ("Category"@, false, true), ("Amount"@, true, true), ("Description"@, false, true)]],
        entry_cells(r, l),
    )
}

/// Where the body sits in the document part, with the page set up as A4.
pub open spec fn document_start() -> Seq<char> {
    "<?xml version=\"1.0\" encoding=\"UTF-8\" standalone=\"yes\"?>\n<w:document xmlns:w=\""@ + W@
        + "\"><w:body>"@
}

pub open spec fn document_end() -> Seq<char> {
    "<w:sectPr>\\\n<w:pgSz w:w=\"11906\" w:h=\"16838\"/>\\\n<w:pgMar w:top=\"1134\" w:right=\"1134\" w:bottom=\"1134\" w:left=\"1134\" w:header=\"708\" w:footer=\"708\" w:gutter=\"0\"/>\\\n</w:sectPr></w:body></w:document>"@
}

/// The document part: the summary, the category table, and the month and
/// entry tables when asked for.
pub open spec fn document_text(r: &Report, l: &Locale, sections: Sections, shares: Seq<Seq<char>>) -> Seq<char> {
    let body = doc_summary(r, l) + doc_categories(r, l, shares) + (if sections.monthly {
        doc_months(r, l)
    } else {
        Seq::empty()
    }) + (if sections.entries {
        doc_entries(r, l)
    } else {
        Seq::empty()
    });
    remove_all(document_start() + body + document_end(), line_join())
}

fn push_summary(out: &mut String, report: &Report, locale: &Locale)
    requires
        locale.wf(),
    ensures
        final(out)@ == old(out)@ + doc_summary(report, locale),
{
    let ghost start = out@;
    let mut title = String::new();
    push_str(&mut title, "Spending report ");
    push_str(&mut title, signed_text(report.year as i64).as_str());
    push_str(out, heading(title.as_str(), 36).as_str());
    let n = report.entries.len();
    let m = report.categories.len();
    let mut line = String::new();
    push_str(&mut line, "Generated ");
    push_str(&mut line, locale.format_date(report.generated).as_str());
    push_str(&mut line, " · ");
    push_str(&mut line, locale.currency.code);
    push_str(&mut line, " · ");
    push_str(&mut line, unsigned_text(n as u64).as_str());
    line.push(' ');
    push_str(&mut line, plural(n, "entry", "entries"));
    push_str(&mut line, " across ");
    push_str(&mut line, unsigned_text(m as u64).as_str());
    line.push(' ');
    push_str(&mut line, plural(m, "category", "categories"));
    assert(line@ =~= summary_line(report, locale));
    push_str(out, muted(line.as_str()).as_str());
    let mut runs: Vec<String> = Vec::new();
    runs.push(run("Total spent: ", false, 24));
    runs.push(run(locale.format_money(report.total_minor).as_str(), true, 24));
    assert(strings_view(runs@) =~= seq![run_xml("Total spent: "@, false, 24), run_xml(locale.money_text(report.total_minor as int), true, 24)]);
    push_str(out, paragraph_runs(&runs).as_str());
    assert(out@ =~= start + doc_summary(report, locale));
}

fn push_categories(out: &mut String, report: &Report, locale: &Locale, shares: &Vec<String>)
    requires
        locale.wf(),
        shares@.len() == report.categories@.len(),
    ensures
        final(out)@ == old(out)@ + doc_categories(report, locale, strings_view(shares@)),
{
    let ghost start = out@;
    push_str(out, heading("By category", 28).as_str());
    let pcts = pcts4(46, 14, 22, 18);
    let widths = widths_of(&pcts);
    let header = header4("Category", false, "Entries", true, "Total", true, "Share", true);
    let ghost want = category_cells(report, locale, strings_view(shares@));
    let mut rows: Vec<Vec<(String, bool, bool)>> = Vec::new();
    let mut i: usize = 0;
    while i < report.categories.len()
        invariant
            i <= report.categories@.len(),
            shares@.len() == report.categories@.len(),
            locale.wf(),
            want == category_cells(report, locale, strings_view(shares@)),
            rows_view(rows@) == want.take(i as int),
        decreases report.categories.len() - i,
    {
        let line = &report.categories[i];
        let row = row4(
            line.name.clone(),
            false,
            unsigned_text(line.entries as u64),
            true,
            locale.format_money(line.total_minor),
            true,
            shares[i].clone(),
            true,
            false,
        );
        let ghost prev = rows_view(rows@);
        rows.push(row);
        assert(rows_view(rows@) =~= prev.push(want[i as int]));
        i += 1;
        assert(want.take(i as int) =~= prev.push(want[i - 1]));
    }
    let total_row = row4(
        "Total".to_owned(),
        false,
        unsigned_text(report.entries.len() as u64),
        true,
        locale.format_money(report.total_minor),
        true,
        String::new(),
        true,
        true,
    );
    let ghost prev = rows_view(rows@);
    rows.push(total_row);
    assert(rows_view(rows@) =~= prev.push(want[i as int]));
    assert(rows_view(rows@) =~= want);
    push_str(out, table(&widths, &header, &rows).as_str());
    assert(out@ =~= start + doc_categories(report, locale, strings_view(shares@)));
}

fn push_months(out: &mut String, report: &Report, locale: &Locale)
    requires
        locale.wf(),
        report.months@.len() == 12,
    ensures
        final(out)@ == old(out)@ + doc_months(report, locale),
{
    let ghost start = out@;
    push_str(out, heading("By month", 28).as_str());
    let pcts = pcts2(60, 40);
    let widths = widths_of(&pcts);
    let header = header2("Month", false, "Total", true);
    let months = report.months_with_spending();
    let ghost ms = months_spent(months_view(report.months@), 12);
    let ghost want = month_cells(report, locale);
    let mut rows: Vec<Vec<(String, bool, bool)>> = Vec::new();
    let mut k: usize = 0;
    while k < months.len()
        invariant
            k <= months@.len(),
            locale.wf(),
            month_rows_view(months@) == ms,
            want == month_cells(report, locale),
            ms == months_spent(months_view(report.months@), 12),
            rows_view(rows@) == want.take(k as int),
        decreases months.len() - k,
    {
        let (name, total) = months[k];
        assert(ms[k as int] == (name@, total as int));
        let row = row2(name.to_owned(), false, locale.format_money(total), true, false);
        let ghost prev = rows_view(rows@);
        rows.push(row);
        assert(rows_view(rows@) =~= prev.push(want[k as int]));
        k += 1;
        assert(want.take(k as int) =~= prev.push(want[k - 1]));
    }
    assert(want.take(k as int) =~= want);
    push_str(out, table(&widths, &header, &rows).as_str());
    assert(out@ =~= start + doc_months(report, locale));
}

fn push_entries(out: &mut String, report: &Report, locale: &Locale)
    requires
        locale.wf(),
    ensures
        final(out)@ == old(out)@ + doc_entries(report, locale),
{
    let ghost start = out@;
    push_str(out, heading("Entries", 28).as_str());
    let pcts = pcts4(18, 26, 18, 38);
    let widths = widths_of(&pcts);
    let header = header4("Date", false, "Category", false, "Amount", true, "Description", false);
    let ghost want = entry_cells(report, locale);
    let mut rows: Vec<Vec<(String, bool, bool)>> = Vec::new();
    let mut k: usize = 0;
    while k < report.entries.len()
        invariant
            k <= report.entries@.len(),
            locale.wf(),
            want == entry_cells(report, locale),
            rows_view(rows@) == want.take(k as int),
        decreases report.entries.len() - k,
    {
        let e = &report.entries[k];
        let row = row4(
            locale.format_date(e.spent_on),
            false,
            e.category.clone(),
            false,
            locale.format_money(e.amount_minor),
            true,
            e.description.clone(),
            false,
            false,
        );
        let ghost prev = rows_view(rows@);
        rows.push(row);
        assert(rows_view(rows@) =~= prev.push(want[k as int]));
        k += 1;
        assert(want.take(k as int) =~= prev.push(want[k - 1]));
    }
    assert(want.take(k as int) =~= want);
    push_str(out, table(&widths, &header, &rows).as_str());
    assert(out@ =~= start + doc_entries(report, locale));
}

/// The document part of the package, as text.
#[verifier::spinoff_prover]
#[verifier::rlimit(60)]
pub fn document_xml(report: &Report, locale: &Locale, sections: Sections, shares: &Vec<String>) -> (s: String)
    requires
        locale.wf(),
        report.months@.len() == 12,
        shares@.len() == report.categories@.len(),
    ensures
        s@ == document_text(report, locale, sections, strings_view(shares@)),
{
    let mut raw = String::new();
    push_str(&mut raw, "<?xml version=\"1.0\" encoding=\"UTF-8\" standalone=\"yes\"?>\n<w:document xmlns:w=\"");
    push_str(&mut raw, W);
    push_str(&mut raw, "\"><w:body>");
    let ghost a = raw@;
    push_summary(&mut raw, report, locale);
    push_categories(&mut raw, report, locale, shares);
    let ghost b = raw@;
    if sections.monthly {
        push_months(&mut raw, report, locale);
    }
    let ghost c = raw@;
    if sections.entries {
        push_entries(&mut raw, report, locale);
    }
    let ghost d = raw@;
    push_str(
        &mut raw,
        "<w:sectPr>\\\n<w:pgSz w:w=\"11906\" w:h=\"16838\"/>\\\n<w:pgMar w:top=\"1134\" w:right=\"1134\" w:bottom=\"1134\" w:left=\"1134\" w:header=\"708\" w:footer=\"708\" w:gutter=\"0\"/>\\\n</w:sectPr></w:body></w:document>",
    );
    let joined = remove_all_of(&chars_of(raw.as_str()), &line_join_of());
    assert(raw@ =~= document_start() + (doc_summary(report, locale) + doc_categories(
        report,
        locale,
        strings_view(shares@),
    ) + (if sections.monthly {
        doc_months(report, locale)
    } else {
        Seq::empty()
    }) + (if sections.entries {
        doc_entries(report, locale)
    } else {
        Seq::empty()
    })) + document_end());
    string_of(&joined)
}

// ------------------------------------------------------------------ the package

/// A zip archive being written in memory: the `zip` crate's writer over a
/// byte buffer. Held opaquely, because Verus cannot be told the writer's
/// type, whose bounds are the standard library's I/O traits.
#[verifier::external_body]
pub struct Package {
    writer: zip::ZipWriter<std::io::Cursor<Vec<u8>>>,
}

#[verifier::external_type_specification]
#[verifier::external_body]
pub struct ExZipError(zip::result::ZipError);

/// The parts written into a package so far, in order, as (name, bytes).
pub uninterp spec fn package_parts(p: Package) -> Seq<(Seq<char>, Seq<u8>)>;

/// Whether every call on the package so far has succeeded, so the writer
/// is still writing into its buffer.
pub uninterp spec fn package_usable(p: Package) -> bool;

/// The archive `ZipWriter::finish` writes for these parts, with the default
/// options this crate builds `zip` with (deflate, and the fixed 1980 time
/// stamp it uses without its `time` feature).
pub uninterp spec fn zip_archive(parts: Seq<(Seq<char>, Seq<u8>)>) -> Seq<u8>;

/// Whether `name` is already the name of one of `parts`.
pub open spec fn part_named(parts: Seq<(Seq<char>, Seq<u8>)>, name: Seq<char>) -> bool {
    exists|k: int| 0 <= k < parts.len() && #[trigger] parts[k].0 == name
}

/// The largest part this crate writes. A zip entry without the zip64
/// extension, which the default options do not ask for, holds at most
/// `0xFFFF_FFFF` bytes, before compression and after; deflate can make a
/// part slightly larger than it was, so the limit stays a sixteenth below.
pub open spec fn part_limit() -> int {
    0xF000_0000
}

/// `zip::ZipWriter::new` over an empty buffer: a usable package with no
/// parts.
#[verifier::external_body]
fn new_package() -> (p: Package)
    ensures
        package_parts(p) == Seq::<(Seq<char>, Seq<u8>)>::empty(),
        package_usable(p),
{
    Package { writer: zip::ZipWriter::new(std::io::Cursor::new(Vec::new())) }
}

/// `ZipWriter::start_file` with the default options. When it succeeds, the
/// package has a new, empty part named `name` after the others and stays
/// usable. Over an in-memory buffer it fails only on a name already used,
/// on options this call never passes, or when finishing the part before it
/// finds that part too large for a zip entry, so a usable package whose
/// parts are within [`part_limit`] and a new name always succeed. A name
/// whose UTF-8 form is over 65535 bytes makes the writer panic, so names
/// are kept well short of that (a character is at most four bytes).
#[verifier::external_body]
fn start_part(p: &mut Package, name: &str) -> (r: Result<(), zip::result::ZipError>)
    requires
        name@.len() <= 16383,
    ensures
        r is Ok ==> package_parts(*final(p)) == package_parts(*old(p)).push((name@, Seq::<u8>::empty())),
        r is Ok ==> package_usable(*final(p)),
        package_usable(*old(p)) && parts_fit(package_parts(*old(p))) && !part_named(
            package_parts(*old(p)),
            name@,
        ) ==> r is Ok,
{
    p.writer.start_file(name, zip::write::SimpleFileOptions::default())
}

/// `Write::write_all` on the writer: when it succeeds, the UTF-8 bytes of
/// `contents` are added to the end of the part started last and the package
/// stays usable. Over an in-memory buffer it fails only when no part has
/// been started or the part grows past `0xFFFF_FFFF` bytes, so it succeeds
/// on a started part that stays within [`part_limit`].
#[verifier::external_body]
fn write_part(p: &mut Package, contents: &str) -> (r: Result<(), zip::result::ZipError>)
    ensures
        r is Ok && package_parts(*old(p)).len() > 0 ==> package_parts(*final(p)) == package_parts(*old(p)).update(
            package_parts(*old(p)).len() - 1,
            (
                package_parts(*old(p)).last().0,
                package_parts(*old(p)).last().1 + vstd::utf8::encode_utf8(contents@),
            ),
        ),
        r is Ok ==> package_usable(*final(p)),
        package_usable(*old(p)) && package_parts(*old(p)).len() > 0 && package_parts(*old(p)).last().1.len()
            + vstd::utf8::encode_utf8(contents@).len() <= part_limit() ==> r is Ok,
{
    std::io::Write::write_all(&mut p.writer, contents.as_bytes()).map_err(zip::result::ZipError::from)
}

/// `ZipWriter::finish`, then the buffer the archive was written to: the
/// archive of the package's parts. Over an in-memory buffer it fails only
/// when the last part is too large for a zip entry, so a usable package
/// whose parts are within [`part_limit`] always finishes.
#[verifier::external_body]
fn finish_package(p: Package) -> (r: Result<Vec<u8>, zip::result::ZipError>)
    ensures
        r matches Ok(bytes) ==> bytes@ == zip_archive(package_parts(p)),
        package_usable(p) && parts_fit(package_parts(p)) ==> r is Ok,
{
    p.writer.finish().map(std::io::Cursor::into_inner)
}

/// `ZipError`'s `Display` text.
#[verifier::external_body]
fn zip_error_text(e: &zip::result::ZipError) -> (s: String) {
    e.to_string()
}

pub const CONTENT_TYPES: &'static str = "<?xml version=\"1.0\" encoding=\"UTF-8\" standalone=\"yes\"?>\n<Types xmlns=\"http://schemas.openxmlformats.org/package/2006/content-types\"><Default Extension=\"rels\" ContentType=\"application/vnd.openxmlformats-package.relationships+xml\"/><Default Extension=\"xml\" ContentType=\"application/xml\"/><Override PartName=\"/word/document.xml\" ContentType=\"application/vnd.openxmlformats-officedocument.wordprocessingml.document.main+xml\"/><Override PartName=\"/word/styles.xml\" ContentType=\"application/vnd.openxmlformats-officedocument.wordprocessingml.styles+xml\"/></Types>";

pub const ROOT_RELS: &'static str = "<?xml version=\"1.0\" encoding=\"UTF-8\" standalone=\"yes\"?>\n<Relationships xmlns=\"http://schemas.openxmlformats.org/package/2006/relationships\"><Relationship Id=\"rId1\" Type=\"http://schemas.openxmlformats.org/officeDocument/2006/relationships/officeDocument\" Target=\"word/document.xml\"/></Relationships>";

pub const DOCUMENT_RELS: &'static str = "<?xml version=\"1.0\" encoding=\"UTF-8\" standalone=\"yes\"?>\n<Relationships xmlns=\"http://schemas.openxmlformats.org/package/2006/relationships\"><Relationship Id=\"rId1\" Type=\"http://schemas.openxmlformats.org/officeDocument/2006/relationships/styles\" Target=\"styles.xml\"/></Relationships>";

/// Only the document defaults: every other bit of formatting is applied
/// directly, so there are no style names to keep in step.
pub const STYLES: &'static str = "<?xml version=\"1.0\" encoding=\"UTF-8\" standalone=\"yes\"?>\n<w:styles xmlns:w=\"http://schemas.openxmlformats.org/wordprocessingml/2006/main\"><w:docDefaults><w:rPrDefault><w:rPr><w:rFonts w:ascii=\"Calibri\" w:hAnsi=\"Calibri\" w:cs=\"Calibri\"/><w:sz w:val=\"22\"/><w:szCs w:val=\"22\"/></w:rPr></w:rPrDefault><w:pPrDefault><w:pPr><w:spacing w:after=\"120\"/></w:pPr></w:pPrDefault></w:docDefaults><w:style w:type=\"paragraph\" w:default=\"1\" w:styleId=\"Normal\"><w:name w:val=\"Normal\"/><w:qFormat/></w:style></w:styles>";

/// The parts of a Word package around `document`, in the order they are
/// written.
pub open spec fn docx_parts(document: Seq<char>) -> Seq<(Seq<char>, Seq<u8>)> {
    seq![
        ("[Content_Types].xml"@, vstd::utf8::encode_utf8(CONTENT_TYPES@)),
        ("_rels/.rels"@, vstd::utf8::encode_utf8(ROOT_RELS@)),
        ("word/_rels/document.xml.rels"@, vstd::utf8::encode_utf8(DOCUMENT_RELS@)),
        ("word/styles.xml"@, vstd::utf8::encode_utf8(STYLES@)),
        ("word/document.xml"@, vstd::utf8::encode_utf8(document)),
    ]
}

/// Whether each part is small enough for a zip entry without zip64.
pub open spec fn parts_fit(parts: Seq<(Seq<char>, Seq<u8>)>) -> bool {
    forall|k: int| 0 <= k < parts.len() ==> (#[trigger] parts[k]).1.len() <= part_limit()
}

/// The five part names are short and no two are the same.
proof fn lemma_part_names(document: Seq<char>)
    ensures
        forall|k: int| 0 <= k < 5 ==> (#[trigger] docx_parts(document)[k]).0.len() <= 16383,
        forall|j: int, k: int|
            0 <= j < k < 5 ==> (#[trigger] docx_parts(document)[j]).0 != (#[trigger] docx_parts(document)[k]).0,
{
    reveal_strlit("[Content_Types].xml");
    reveal_strlit("_rels/.rels");
    reveal_strlit("word/_rels/document.xml.rels");
    reveal_strlit("word/styles.xml");
    reveal_strlit("word/document.xml");
    let w = docx_parts(document);
    assert(w[0].0.len() == 19 && w[1].0.len() == 11 && w[2].0.len() == 28 && w[3].0.len() == 15
        && w[4].0.len() == 17);
}

/// Zips the parts into the package Word expects: content types, the two
/// relationship parts, the styles, and `document` as `word/document.xml`.
/// It is made whenever every part fits in a zip entry; the zip error comes
/// back only otherwise.
pub fn package(document: &str) -> (r: Result<Vec<u8>, zip::result::ZipError>)
    ensures
        r matches Ok(bytes) ==> bytes@ == zip_archive(docx_parts(document@)),
        parts_fit(docx_parts(document@)) ==> r is Ok,
{
    let mut zip = new_package();
    let mut names: Vec<&str> = Vec::new();
    names.push("[Content_Types].xml");
    names.push("_rels/.rels");
    names.push("word/_rels/document.xml.rels");
    names.push("word/styles.xml");
    names.push("word/document.xml");
    let mut contents: Vec<&str> = Vec::new();
    contents.push(CONTENT_TYPES);
    contents.push(ROOT_RELS);
    contents.push(DOCUMENT_RELS);
    contents.push(STYLES);
    contents.push(document);
    let ghost want = docx_parts(document@);
    assert forall|k: int| 0 <= k < 5 implies want[k] == (#[trigger] names@[k]@, vstd::utf8::encode_utf8(contents@[k]@)) by {}
    proof {
        lemma_part_names(document@);
    }
    let mut i: usize = 0;
    assert(want.take(0) =~= Seq::<(Seq<char>, Seq<u8>)>::empty());
    while i < names.len()
        invariant
            i <= names@.len(),
            names@.len() == 5,
            contents@.len() == 5,
            want == docx_parts(document@),
            want.len() == 5,
            forall|k: int| 0 <= k < 5 ==> want[k] == (#[trigger] names@[k]@, vstd::utf8::encode_utf8(contents@[k]@)),
            forall|k: int| 0 <= k < 5 ==> (#[trigger] want[k]).0.len() <= 16383,
            forall|j: int, k: int| 0 <= j < k < 5 ==> (#[trigger] want[j]).0 != (#[trigger] want[k]).0,
            package_parts(zip) == want.take(i as int),
            package_usable(zip),
        decreases names.len() - i,
    {
        assert(names@[i as int]@ == want[i as int].0);
        assert(!part_named(package_parts(zip), names@[i as int]@)) by {
            if part_named(package_parts(zip), names@[i as int]@) {
                let k = choose|k: int| 0 <= k < package_parts(zip).len() && #[trigger] package_parts(zip)[k].0
                    == names@[i as int]@;
                assert(package_parts(zip)[k] == want[k]);
                assert(want[k].0 != want[i as int].0);
            }
        }
        match start_part(&mut zip, names[i]) {
            Ok(()) => {},
            Err(e) => {
                assert(!parts_fit(want)) by {
                    if parts_fit(want) {
                        assert forall|k: int| 0 <= k < package_parts(zip).len() implies (#[trigger] package_parts(
                            zip,
                        )[k]).1.len() <= part_limit() by {
                            assert(package_parts(zip)[k] == want[k]);
                        }
                    }
                }
                return Err(e);
            },
        }
        assert(package_parts(zip).last().1.len() == 0);
        match write_part(&mut zip, contents[i]) {
            Ok(()) => {},
            Err(e) => {
                assert(!parts_fit(want)) by {
                    if parts_fit(want) {
                        assert(want[i as int].1.len() <= part_limit());
                    }
                }
                return Err(e);
            },
        }
        assert(package_parts(zip) =~= want.take(i + 1)) by {
            assert(Seq::<u8>::empty() + vstd::utf8::encode_utf8(contents@[i as int]@) =~= vstd::utf8::encode_utf8(contents@[i as int]@));
        }
        i += 1;
    }
    assert(want.take(5) =~= want);
    finish_package(zip)
}

/// Writes the report as a Word document. The document part is as
/// [`document_text`] says; if packaging it fails, the error says so rather
/// than a half-built file being passed off as whole.
pub fn render(report: &Report, locale: &Locale, sections: Sections, shares: &Vec<String>) -> (r: Result<Vec<u8>, String>)
    requires
        locale.wf(),
        report.months@.len() == 12,
        shares@.len() == report.categories@.len(),
    ensures
        match r {
            Ok(bytes) => bytes@ == zip_archive(
                docx_parts(document_text(report, locale, sections, strings_view(shares@))),
            ),
            Err(e) => exists|why: Seq<char>| e@ == "Could not build the Word document: "@ + why,
        },
        parts_fit(docx_parts(document_text(report, locale, sections, strings_view(shares@)))) ==> r is Ok,
{
    let document = document_xml(report, locale, sections, shares);
    match package(document.as_str()) {
        Ok(bytes) => Ok(bytes),
        Err(err) => {
            let mut s = String::new();
            push_str(&mut s, "Could not build the Word document: ");
            let why = zip_error_text(&err);
            push_str(&mut s, why.as_str());
            Err(s)
        },
    }
}

/// The Word category table's last row sums the rows above it: in a report
/// whose category lines tally its entries, it reads "Total", what the rows'
/// counts add up to (the number of entries) and what their totals add up to
/// (the year's total).
pub proof fn the_category_total_row_sums_the_rows(r: &Report, l: &Locale, shares: Seq<Seq<char>>)
    requires
        lines_view(r.categories@) == category_tally(r.entries@),
        r.total_minor == amount_sum(r.entries@),
    ensures
        category_cells(r, l, shares).last() == seq![
            ("Total"@, false, true),
            (decimal(lines_count(lines_view(r.categories@)) as nat), true, true),
            (l.money_text(lines_total(lines_view(r.categories@))), true, true),
            (Seq::<char>::empty(), true, true),
        ],
{
    category_counts_add_up_to_the_entries(r.entries@);
    categories_add_up_to_the_total(r.entries@);
}

} // verus!
