//! Every word the interface says, looked up by key instead of written in
//! place.
//!
//! Language files are plain text (see [`catalogue`] for the format). Three
//! properties are deliberate: English is always there, first, and any key a
//! translation has not reached yet falls back to it; a file in the user's
//! languages folder replaces the built-in language of the same code, but never
//! English; and switching language takes the closest match, so someone whose
//! system says `fr-CA` gets French when only `fr` is installed.
//!
//! The registry is a plain value here. Whoever owns it (one per process, in
//! the app) passes it to the lookups.

pub mod catalogue;

use vstd::prelude::*;

use crate::i18n::catalogue::{
    bindings, filled, fill, lookup, parsed, plural_lookup, problems_view, Catalogue,
    CatalogueView, Problem,
};
use crate::locale::{cleaned_of, cleaned_tag, nonblank, override_of, system_locale};
use crate::strings::{
    chars_lt, chars_of, decimal, decimal_of, find_char, find_char_from, lex_lt, lower, lower_all,
    slice_of, split_on, str_eq, str_is, string_of, to_lower, trim, trimmed,
};

verus! {

/// The saved value meaning "whatever language this computer is set to".
pub const AUTO: &'static str = "auto";

/// Why a file in the languages folder could not be used at all.
#[derive(Debug, Clone, Copy, PartialEq, Eq)]
pub enum FileReason {
    /// There, but unreadable.
    Unreadable,
    /// No `code` line, so there is no way to tell what language it is.
    NoCode,
    /// `code = "en"`: English is the fallback every other language is
    /// measured against, so no file may replace it.
    WouldReplaceEnglish,
}

/// A file in the languages folder that could not be used, and why.
#[derive(Debug, Clone, PartialEq, Eq)]
pub struct FileProblem {
    pub path: String,
    pub reason: FileReason,
}

pub open spec fn file_problems_view(ps: Seq<FileProblem>) -> Seq<(Seq<char>, FileReason)> {
    Seq::new(ps.len(), |i: int| (ps[i].path@, ps[i].reason))
}

// ------------------------------------------------------------------ codes

/// `s` with every `from` replaced by `to`.
pub open spec fn replace_char(s: Seq<char>, from: char, to: char) -> Seq<char> {
    Seq::new(s.len(), |i: int| if s[i] == from { to } else { s[i] })
}

/// A language code trimmed, `_` read as `-`, and lower-cased.
pub open spec fn normalised(code: Seq<char>) -> Seq<char> {
    lower_all(replace_char(trim(code), '_', '-'))
}

/// Two codes naming the same language, give or take punctuation and case.
pub open spec fn same_code_as(a: Seq<char>, b: Seq<char>) -> bool {
    normalised(a) == normalised(b)
}

/// The part of a code before the region: `fr` from `fr-CA`.
pub open spec fn primary_of(code: Seq<char>) -> Seq<char> {
    let n = normalised(code);
    match find_char(n, '-') {
        Some(i) => n.take(i as int),
        None => n,
    }
}

/// `v` with every `from` replaced by `to`.
fn replaced(v: &Vec<char>, from: char, to: char) -> (r: Vec<char>)
    ensures
        r@ == replace_char(v@, from, to),
{
    let mut r: Vec<char> = Vec::new();
    let mut i: usize = 0;
    while i < v.len()
        invariant
            i <= v.len(),
            r@ == replace_char(v@, from, to).take(i as int),
        decreases v.len() - i,
    {
        if v[i] == from {
            r.push(to);
        } else {
            r.push(v[i]);
        }
        i += 1;
        assert(r@ =~= replace_char(v@, from, to).take(i as int));
    }
    assert(replace_char(v@, from, to).take(v.len() as int) =~= replace_char(v@, from, to));
    r
}

/// `v` with ASCII letters lower-cased.
fn lowered(v: &Vec<char>) -> (r: Vec<char>)
    ensures
        r@ == lower_all(v@),
{
    let mut r: Vec<char> = Vec::new();
    let mut i: usize = 0;
    while i < v.len()
        invariant
            i <= v.len(),
            r@ == lower_all(v@).take(i as int),
        decreases v.len() - i,
    {
        r.push(to_lower(v[i]));
        i += 1;
        assert(r@ =~= lower_all(v@).take(i as int));
    }
    assert(lower_all(v@).take(v.len() as int) =~= lower_all(v@));
    r
}

fn normalised_chars(code: &str) -> (r: Vec<char>)
    ensures
        r@ == normalised(code@),
{
    let v = chars_of(code);
    let t = trimmed(&v);
    let d = replaced(&t, '_', '-');
    lowered(&d)
}

/// A language code as it is compared: trimmed, `_` made `-`, lower case.
pub fn normalise(code: &str) -> (r: String)
    ensures
        r@ == normalised(code@),
{
    let n = normalised_chars(code);
    string_of(&n)
}

/// Two language codes naming the same language: `pt-BR`, `pt_br` and
/// `PT-br` are one language as far as this is concerned.
pub fn same_code(a: &str, b: &str) -> (r: bool)
    ensures
        r == same_code_as(a@, b@),
{
    let na = normalised_chars(a);
    let nb = normalised_chars(b);
    crate::strings::same_chars(&na, &nb)
}

/// The part before the region: `fr` from `fr-CA`.
pub fn primary(code: &str) -> (r: String)
    ensures
        r@ == primary_of(code@),
{
    let n = normalised_chars(code);
    let at = find_char_from(&n, 0, '-');
    assert(n@.skip(0) =~= n@);
    let p = slice_of(&n, 0, at);
    assert(at == n.len() ==> p@ =~= n@);
    assert(at < n.len() ==> p@ =~= n@.take(at as int));
    string_of(&p)
}

// ------------------------------------------------------------------ registry

/// The languages that are loaded, which one is in use, and the files that
/// never became a language.
pub struct Registry {
    /// Index 0 is English in every well-formed registry ([`Registry::wf`]).
    pub catalogues: Vec<Catalogue>,
    pub current: usize,
    pub folder_problems: Vec<FileProblem>,
}

/// A registry as plain values.
pub struct RegistryView {
    pub catalogues: Seq<CatalogueView>,
    pub current: int,
    pub folder_problems: Seq<(Seq<char>, FileReason)>,
}

pub open spec fn catalogues_view(cs: Seq<Catalogue>) -> Seq<CatalogueView> {
    Seq::new(cs.len(), |i: int| cs[i].view())
}

impl Registry {
    pub open spec fn view(&self) -> RegistryView {
        RegistryView {
            catalogues: catalogues_view(self.catalogues@),
            current: self.current as int,
            folder_problems: file_problems_view(self.folder_problems@),
        }
    }

    /// At least one language, English (`en`) first, no two naming the same
    /// language, and the current one among them.
    pub open spec fn wf(&self) -> bool {
        &&& self.catalogues@.len() >= 1
        &&& self.current < self.catalogues@.len()
        &&& self.catalogues@[0].code@ == "en"@
        &&& distinct_languages(catalogues_view(self.catalogues@))
    }
}

/// The first catalogue whose code satisfies `p`.
pub open spec fn first_where(cs: Seq<CatalogueView>, p: spec_fn(Seq<char>) -> bool) -> Option<int>
    decreases cs.len(),
{
    if cs.len() == 0 {
        None
    } else if p(cs[0].code) {
        Some(0)
    } else {
        match first_where(cs.drop_first(), p) {
            Some(i) => Some(i + 1),
            None => None,
        }
    }
}

pub proof fn lemma_first_where(cs: Seq<CatalogueView>, p: spec_fn(Seq<char>) -> bool)
    ensures
        match first_where(cs, p) {
            Some(i) => 0 <= i < cs.len() && p(cs[i].code) && forall|j: int|
                0 <= j < i ==> !p(#[trigger] cs[j].code),
            None => forall|j: int| 0 <= j < cs.len() ==> !p(#[trigger] cs[j].code),
        },
    decreases cs.len(),
{
    if cs.len() > 0 && !p(cs[0].code) {
        lemma_first_where(cs.drop_first(), p);
        assert forall|j: int| 0 < j < cs.len() implies cs[j] == cs.drop_first()[j - 1] by {}
    }
}

/// The first catalogue whose code names the same language as `code`.
pub open spec fn code_position(cs: Seq<CatalogueView>, code: Seq<char>) -> Option<int> {
    first_where(cs, |c: Seq<char>| same_code_as(c, code))
}

/// The first catalogue in the same language as `code`, region aside.
pub open spec fn primary_position(cs: Seq<CatalogueView>, code: Seq<char>) -> Option<int> {
    first_where(cs, |c: Seq<char>| primary_of(c) == primary_of(code))
}

/// The catalogue `code` selects: the same code, else the same language
/// without the region, else English.
pub open spec fn chosen(cs: Seq<CatalogueView>, code: Seq<char>) -> int {
    match code_position(cs, code) {
        Some(i) => i,
        None => match primary_position(cs, code) {
            Some(i) => i,
            None => 0,
        },
    }
}

/// The folder's catalogues laid over the built-in ones, in order: one whose
/// code matches English's is refused, one matching another language
/// replaces it, and any other joins the end.
pub open spec fn laid_over(
    cs: Seq<CatalogueView>,
    problems: Seq<(Seq<char>, FileReason)>,
    extras: Seq<(Seq<char>, CatalogueView)>,
) -> (Seq<CatalogueView>, Seq<(Seq<char>, FileReason)>)
    decreases extras.len(),
{
    if extras.len() == 0 {
        (cs, problems)
    } else {
        let (cs0, ps0) = laid_over(cs, problems, extras.drop_last());
        let (path, extra) = extras.last();
        match code_position(cs0, extra.code) {
            Some(i) => if i == 0 {
                (cs0, ps0.push((path, FileReason::WouldReplaceEnglish)))
            } else {
                (cs0.update(i, extra), ps0)
            },
            None => (cs0.push(extra), ps0),
        }
    }
}

pub open spec fn extras_view(extras: Seq<(String, Catalogue)>) -> Seq<(Seq<char>, CatalogueView)> {
    Seq::new(extras.len(), |i: int| (extras[i].0@, extras[i].1.view()))
}

pub open spec fn texts_parsed(texts: Seq<&str>) -> Seq<CatalogueView> {
    Seq::new(texts.len(), |i: int| parsed(texts[i]@))
}

/// The registry the built-in texts and the folder's files make.
pub open spec fn assembled(
    builtin: Seq<&str>,
    extras: Seq<(Seq<char>, CatalogueView)>,
    problems: Seq<(Seq<char>, FileReason)>,
) -> RegistryView {
    let (cs, ps) = laid_over(texts_parsed(builtin), problems, extras);
    RegistryView { catalogues: cs, current: 0, folder_problems: ps }
}

/// Laying files over the built-in languages keeps English first and never
/// loses a language.
pub proof fn english_stays_first(
    cs: Seq<CatalogueView>,
    problems: Seq<(Seq<char>, FileReason)>,
    extras: Seq<(Seq<char>, CatalogueView)>,
)
    requires
        cs.len() >= 1,
    ensures
        laid_over(cs, problems, extras).0.len() >= cs.len(),
        laid_over(cs, problems, extras).0[0] == cs[0],
    decreases extras.len(),
{
    if extras.len() > 0 {
        english_stays_first(cs, problems, extras.drop_last());
        let (cs0, ps0) = laid_over(cs, problems, extras.drop_last());
        lemma_first_where(cs0, |c: Seq<char>| same_code_as(c, extras.last().1.code));
    }
}

impl Registry {
    /// The built-in languages, parsed from `builtin` (English first), with the
    /// folder's catalogues laid over them: a file replaces the built-in
    /// language of the same code, except English, which it may not.
    pub fn assemble(
        builtin: &[&str],
        found: (Vec<(String, Catalogue)>, Vec<FileProblem>),
    ) -> (r: Registry)
        requires
            builtins_fit(builtin@),
        ensures
            r.wf(),
            r.view() == assembled(builtin@, extras_view(found.0@), file_problems_view(found.1@)),
    {
        let (extras, mut folder_problems) = found;
        let total = extras.len();
        let ghost ev = extras_view(extras@);
        let ghost start_problems = file_problems_view(folder_problems@);
        let mut catalogues: Vec<Catalogue> = Vec::new();
        let mut i: usize = 0;
        while i < builtin.len()
            invariant
                i <= builtin@.len(),
                catalogues_view(catalogues@) == texts_parsed(builtin@).take(i as int),
            decreases builtin@.len() - i,
        {
            let c = Catalogue::parse(builtin[i]);
            let ghost cv = c.view();
            let ghost prev = catalogues_view(catalogues@);
            assert(cv == texts_parsed(builtin@)[i as int]);
            catalogues.push(c);
            assert(catalogues_view(catalogues@) =~= prev.push(cv));
            i += 1;
            assert(catalogues_view(catalogues@) =~= texts_parsed(builtin@).take(i as int));
        }
        assert(texts_parsed(builtin@).take(i as int) =~= texts_parsed(builtin@));
        let ghost base = texts_parsed(builtin@);
        assert(ev.len() == total);
        let mut rest = extras;
        let mut k: usize = 0;
        assert(ev.take(0) =~= Seq::<(Seq<char>, CatalogueView)>::empty());
        while rest.len() > 0
            invariant
                k <= ev.len(),
                ev.len() <= usize::MAX,
                rest@.len() + k == ev.len(),
                extras_view(rest@) == ev.skip(k as int),
                (catalogues_view(catalogues@), file_problems_view(folder_problems@)) == laid_over(
                    base,
                    start_problems,
                    ev.take(k as int),
                ),
                catalogues@.len() >= 1,
                base.len() >= 1,
            decreases rest.len(),
        {
            proof {
                english_stays_first(base, start_problems, ev.take(k as int));
            }
            assert(ev.skip(k as int)[0] == ev[k as int]);
            let ghost old_rest = rest@;
            let (path, extra) = rest.remove(0);
            assert forall|m: int| 0 <= m < rest@.len() implies #[trigger] extras_view(rest@)[m]
                == extras_view(old_rest)[m + 1] by {
                assert(rest@[m] == old_rest[m + 1]);
            }
            assert(extras_view(rest@) =~= ev.skip(k + 1));
            assert(ev.take(k + 1).drop_last() =~= ev.take(k as int));
            assert(ev.take(k + 1).last() == (path@, extra.view()));
            let ghost before = catalogues_view(catalogues@);
            proof {
                lemma_first_where(before, |c: Seq<char>| same_code_as(c, extra.code@));
            }
            let mut j: usize = 0;
            while j < catalogues.len() && !same_code(catalogues[j].code.as_str(), extra.code.as_str())
                invariant
                    j <= catalogues@.len(),
                    before == catalogues_view(catalogues@),
                    forall|m: int| 0 <= m < j ==> !same_code_as(#[trigger] before[m].code, extra.code@),
                decreases catalogues.len() - j,
            {
                assert(before[j as int].code == catalogues@[j as int].code@);
                j += 1;
            }
            if j < catalogues.len() {
                assert(before[j as int].code == catalogues@[j as int].code@);
            }
            if j == 0 && j < catalogues.len() {
                let ghost pv = file_problems_view(folder_problems@);
                let ghost pth = path@;
                folder_problems.push(FileProblem { path, reason: FileReason::WouldReplaceEnglish });
                assert(file_problems_view(folder_problems@) =~= pv.push(
                    (pth, FileReason::WouldReplaceEnglish),
                ));
            } else if j < catalogues.len() {
                catalogues.set(j, extra);
                assert(catalogues_view(catalogues@) =~= before.update(j as int, extra.view()));
            } else {
                catalogues.push(extra);
                assert(catalogues_view(catalogues@) =~= before.push(extra.view()));
            }
            k += 1;
        }
        assert(ev.take(k as int) =~= ev) by {
            assert(ev.skip(k as int).len() == 0);
        }
        proof {
            english_stays_first(base, start_problems, ev);
            lemma_laid_over_distinct(base, start_problems, ev);
            assert(catalogues_view(catalogues@)[0] == catalogues@[0].view());
        }
        Registry { catalogues, current: 0, folder_problems }
    }

    /// English, the language every other one falls back to.
    pub fn english(&self) -> (c: &Catalogue)
        requires
            self.wf(),
        ensures
            c.view() == self.view().catalogues[0],
    {
        &self.catalogues[0]
    }

    /// The language in use.
    pub fn current(&self) -> (c: &Catalogue)
        requires
            self.wf(),
        ensures
            c.view() == self.view().catalogues[self.view().current],
    {
        &self.catalogues[self.current]
    }
}

// ------------------------------------------------------------------ choosing

/// The name a language is shown under: its own name, or its code when the
/// file gave none.
pub open spec fn shown_name(c: CatalogueView) -> Seq<char> {
    if trim(c.name).len() == 0 {
        c.code
    } else {
        c.name
    }
}

/// Every language that can be picked, as `(code, name)`.
pub open spec fn choices(cs: Seq<CatalogueView>) -> Seq<(Seq<char>, Seq<char>)> {
    Seq::new(cs.len(), |i: int| (cs[i].code, shown_name(cs[i])))
}

/// The name listed beside the first choice whose code is exactly `code`,
/// or `code` itself.
pub open spec fn name_listed(cs: Seq<(Seq<char>, Seq<char>)>, code: Seq<char>) -> Seq<char>
    decreases cs.len(),
{
    if cs.len() == 0 {
        code
    } else if cs[0].0 == code {
        cs[0].1
    } else {
        name_listed(cs.drop_first(), code)
    }
}

pub open spec fn pairs_of(v: Seq<(String, String)>) -> Seq<(Seq<char>, Seq<char>)> {
    Seq::new(v.len(), |i: int| (v[i].0@, v[i].1@))
}

/// No two catalogues name the same language.
pub open spec fn distinct_languages(cs: Seq<CatalogueView>) -> bool {
    forall|i: int, j: int|
        0 <= i < j < cs.len() ==> !same_code_as(#[trigger] cs[i].code, #[trigger] cs[j].code)
}

/// Laying files over distinct languages leaves them distinct.
pub proof fn lemma_laid_over_distinct(
    cs: Seq<CatalogueView>,
    problems: Seq<(Seq<char>, FileReason)>,
    extras: Seq<(Seq<char>, CatalogueView)>,
)
    requires
        distinct_languages(cs),
    ensures
        distinct_languages(laid_over(cs, problems, extras).0),
    decreases extras.len(),
{
    if extras.len() > 0 {
        lemma_laid_over_distinct(cs, problems, extras.drop_last());
        let (cs0, ps0) = laid_over(cs, problems, extras.drop_last());
        let extra = extras.last().1;
        let p = |c: Seq<char>| same_code_as(c, extra.code);
        lemma_first_where(cs0, p);
        match code_position(cs0, extra.code) {
            Some(i) => {
                if i != 0 {
                    let cs1 = cs0.update(i, extra);
                    assert forall|a: int, b: int| 0 <= a < b < cs1.len() implies !same_code_as(
                        #[trigger] cs1[a].code,
                        #[trigger] cs1[b].code,
                    ) by {
                        if a == i {
                            assert(!same_code_as(cs0[i].code, cs0[b].code));
                        } else if b == i {
                            assert(!same_code_as(cs0[a].code, cs0[i].code));
                        } else {
                            assert(cs1[a] == cs0[a] && cs1[b] == cs0[b]);
                        }
                    }
                }
            },
            None => {
                let cs1 = cs0.push(extra);
                assert forall|a: int, b: int| 0 <= a < b < cs1.len() implies !same_code_as(
                    #[trigger] cs1[a].code,
                    #[trigger] cs1[b].code,
                ) by {
                    if b == cs0.len() {
                        assert(!p(cs0[a].code));
                    } else {
                        assert(cs1[a] == cs0[a] && cs1[b] == cs0[b]);
                    }
                }
            },
        }
    }
}

/// The languages on offer start with English, and no two of them name the
/// same language.
pub proof fn languages_on_offer_start_with_english_and_are_distinct(reg: &Registry)
    requires
        reg.wf(),
    ensures
        ({
            let offered = choices(reg.view().catalogues);
            &&& offered.len() == reg.catalogues@.len()
            &&& offered[0].0 == "en"@
            &&& forall|i: int, j: int|
                0 <= i < j < offered.len() ==> !same_code_as(#[trigger] offered[i].0, #[trigger] offered[j].0)
        }),
{
    let cs = reg.view().catalogues;
    let offered = choices(cs);
    assert(cs[0] == reg.catalogues@[0].view());
    assert forall|i: int, j: int| 0 <= i < j < offered.len() implies !same_code_as(
        #[trigger] offered[i].0,
        #[trigger] offered[j].0,
    ) by {
        assert(offered[i].0 == cs[i].code && offered[j].0 == cs[j].code);
    }
}

/// Whether built-in language texts make a registry: at least one, English
/// (`en`) first, and no two naming the same language.
pub open spec fn builtins_fit(builtin: Seq<&str>) -> bool {
    &&& builtin.len() >= 1
    &&& parsed(builtin[0]@).code == "en"@
    &&& distinct_languages(texts_parsed(builtin))
}

/// Whether built-in language texts make a registry ([`builtins_fit`]).
pub fn builtins_usable(builtin: &[&str]) -> (r: bool)
    ensures
        r == builtins_fit(builtin@),
{
    if builtin.len() == 0 {
        return false;
    }
    let mut cs: Vec<Catalogue> = Vec::new();
    let mut i: usize = 0;
    while i < builtin.len()
        invariant
            i <= builtin@.len(),
            catalogues_view(cs@) == texts_parsed(builtin@).take(i as int),
        decreases builtin@.len() - i,
    {
        let c = Catalogue::parse(builtin[i]);
        let ghost prev = catalogues_view(cs@);
        cs.push(c);
        assert(catalogues_view(cs@) =~= prev.push(texts_parsed(builtin@)[i as int]));
        i += 1;
        assert(catalogues_view(cs@) =~= texts_parsed(builtin@).take(i as int));
    }
    assert(texts_parsed(builtin@).take(i as int) =~= texts_parsed(builtin@));
    let ghost tp = texts_parsed(builtin@);
    proof {
        reveal_strlit("en");
    }
    assert(tp[0] == cs@[0].view());
    if !str_eq(cs[0].code.as_str(), "en") {
        return false;
    }
    let mut a: usize = 0;
    while a < cs.len()
        invariant
            a <= cs@.len(),
            tp == texts_parsed(builtin@),
            builtin@.len() >= 1,
            parsed(builtin@[0]@).code == "en"@,
            catalogues_view(cs@) == tp,
            forall|x: int, y: int| 0 <= x < a && x < y < tp.len() ==> !same_code_as(#[trigger] tp[x].code, #[trigger] tp[y].code),
        decreases cs.len() - a,
    {
        let mut b: usize = a + 1;
        while b < cs.len()
            invariant
                a < b <= cs@.len(),
                a < cs@.len(),
                tp == texts_parsed(builtin@),
                builtin@.len() >= 1,
                parsed(builtin@[0]@).code == "en"@,
                catalogues_view(cs@) == tp,
                forall|x: int, y: int| 0 <= x < a && x < y < tp.len() ==> !same_code_as(#[trigger] tp[x].code, #[trigger] tp[y].code),
                forall|y: int| a < y < b ==> !same_code_as(tp[a as int].code, #[trigger] tp[y].code),
            decreases cs.len() - b,
        {
            assert(tp[a as int].code == cs@[a as int].code@ && tp[b as int].code == cs@[b as int].code@);
            if same_code(cs[a].code.as_str(), cs[b].code.as_str()) {
                assert(same_code_as(tp[a as int].code, tp[b as int].code));
                assert(!distinct_languages(tp));
                return false;
            }
            b += 1;
        }
        a += 1;
    }
    true
}

/// Reloading rebuilds the languages from the built-in texts and what the
/// folder holds now, English first and no language twice; the folder's
/// problems are what reading it found, and any file that would replace
/// English; the language then in use is the one the previous code selects among them,
/// which names that same language whenever one of them does.
pub proof fn reloading_keeps_the_language_in_use(
    before: RegistryView,
    builtin: Seq<&str>,
    extras: Seq<(Seq<char>, CatalogueView)>,
    problems: Seq<(Seq<char>, FileReason)>,
)
    requires
        0 <= before.current < before.catalogues.len(),
        builtins_fit(builtin),
    ensures
        ({
            let fresh = assembled(builtin, extras, problems);
            let c0 = before.catalogues[before.current].code;
            let k = chosen(fresh.catalogues, c0);
            &&& fresh.catalogues == laid_over(texts_parsed(builtin), problems, extras).0
            &&& fresh.folder_problems == laid_over(texts_parsed(builtin), problems, extras).1
            &&& fresh.catalogues[0].code == "en"@
            &&& distinct_languages(fresh.catalogues)
            &&& 0 <= k < fresh.catalogues.len()
            &&& (exists|j: int| 0 <= j < fresh.catalogues.len() && same_code_as(#[trigger] fresh.catalogues[j].code, c0))
                ==> same_code_as(fresh.catalogues[k].code, c0)
        }),
{
    let fresh = assembled(builtin, extras, problems);
    let cs = texts_parsed(builtin);
    let c0 = before.catalogues[before.current].code;
    english_stays_first(cs, problems, extras);
    lemma_laid_over_distinct(cs, problems, extras);
    the_chosen_language_is_loaded(fresh.catalogues, c0);
    if exists|j: int| 0 <= j < fresh.catalogues.len() && same_code_as(#[trigger] fresh.catalogues[j].code, c0) {
        let j = choose|j: int| 0 <= j < fresh.catalogues.len() && same_code_as(#[trigger] fresh.catalogues[j].code, c0);
        an_installed_language_is_the_one_chosen(fresh.catalogues, c0, j);
    }
}

/// Every language that can be picked, as `(code, name in its own language)`.
pub fn available(reg: &Registry) -> (r: Vec<(String, String)>)
    ensures
        pairs_of(r@) == choices(reg.view().catalogues),
{
    let ghost cs = reg.view().catalogues;
    let mut r: Vec<(String, String)> = Vec::new();
    let mut i: usize = 0;
    while i < reg.catalogues.len()
        invariant
            i <= reg.catalogues@.len(),
            cs == reg.view().catalogues,
            pairs_of(r@) == choices(cs).take(i as int),
        decreases reg.catalogues.len() - i,
    {
        let c = &reg.catalogues[i];
        let name_chars = chars_of(c.name.as_str());
        let t = trimmed(&name_chars);
        let name = if t.len() == 0 {
            c.code.clone()
        } else {
            c.name.clone()
        };
        let ghost prev = pairs_of(r@);
        r.push((c.code.clone(), name));
        assert(pairs_of(r@) =~= prev.push(choices(cs)[i as int]));
        i += 1;
        assert(choices(cs).take(i as int) =~= choices(cs).take(i - 1).push(choices(cs)[i - 1]));
    }
    assert(choices(cs).take(i as int) =~= choices(cs));
    r
}

/// The code of the language in use.
pub fn current_code(reg: &Registry) -> (r: String)
    requires
        reg.wf(),
    ensures
        r@ == reg.view().catalogues[reg.view().current].code,
{
    reg.current().code.clone()
}

/// The name listed beside the first of `choices` whose code is exactly
/// `code`, or `code` itself: what a language picker shows for a setting.
pub fn listed_name(choices: &Vec<(String, String)>, code: &str) -> (r: String)
    ensures
        r@ == name_listed(pairs_of(choices@), code@),
{
    let ghost ch = pairs_of(choices@);
    let mut i: usize = 0;
    assert(ch.skip(0) =~= ch);
    while i < choices.len()
        invariant
            i <= choices@.len(),
            ch == pairs_of(choices@),
            name_listed(ch, code@) == name_listed(ch.skip(i as int), code@),
        decreases choices.len() - i,
    {
        assert(ch.skip(i as int)[0] == ch[i as int]);
        if str_is(choices[i].0.as_str(), &chars_of(code)) {
            return choices[i].1.clone();
        }
        assert(ch.skip(i as int).drop_first() =~= ch.skip(i + 1));
        i += 1;
    }
    code.to_owned()
}

/// The language in use, named in its own language.
pub fn current_name(reg: &Registry) -> (r: String)
    requires
        reg.wf(),
    ensures
        r@ == name_listed(
            choices(reg.view().catalogues),
            reg.view().catalogues[reg.view().current].code,
        ),
{
    let code = current_code(reg);
    let all = available(reg);
    listed_name(&all, code.as_str())
}

/// The files in the languages folder that never became a language.
pub fn folder_problems(reg: &Registry) -> (r: Vec<FileProblem>)
    ensures
        file_problems_view(r@) == reg.view().folder_problems,
{
    let mut r: Vec<FileProblem> = Vec::new();
    let mut i: usize = 0;
    while i < reg.folder_problems.len()
        invariant
            i <= reg.folder_problems@.len(),
            file_problems_view(r@) == reg.view().folder_problems.take(i as int),
        decreases reg.folder_problems.len() - i,
    {
        let p = &reg.folder_problems[i];
        let ghost prev = file_problems_view(r@);
        r.push(FileProblem { path: p.path.clone(), reason: p.reason });
        assert(file_problems_view(r@) =~= prev.push(reg.view().folder_problems[i as int]));
        i += 1;
        assert(reg.view().folder_problems.take(i as int) =~= prev.push(
            reg.view().folder_problems[i - 1],
        ));
    }
    assert(reg.view().folder_problems.take(i as int) =~= reg.view().folder_problems);
    r
}

/// Whatever is wrong with the language file in use.
pub fn current_problems(reg: &Registry) -> (r: Vec<Problem>)
    requires
        reg.wf(),
    ensures
        problems_view(r@) == reg.view().catalogues[reg.view().current].problems,
{
    let c = reg.current();
    let ghost ps = c.view().problems;
    let mut r: Vec<Problem> = Vec::new();
    let mut i: usize = 0;
    while i < c.problems.len()
        invariant
            i <= c.problems@.len(),
            ps == problems_view(c.problems@),
            problems_view(r@) == ps.take(i as int),
        decreases c.problems.len() - i,
    {
        let p = &c.problems[i];
        let ghost prev = problems_view(r@);
        r.push(Problem { line: p.line, what: p.what.clone() });
        assert(problems_view(r@) =~= prev.push(ps[i as int]));
        i += 1;
        assert(ps.take(i as int) =~= prev.push(ps[i - 1]));
    }
    assert(ps.take(i as int) =~= ps);
    r
}

/// The index `code` selects among the loaded catalogues.
fn choose_index(reg: &Registry, code: &str) -> (i: usize)
    requires
        reg.wf(),
    ensures
        i as int == chosen(reg.view().catalogues, code@),
        i < reg.catalogues@.len(),
{
    let ghost cs = reg.view().catalogues;
    proof {
        lemma_first_where(cs, |c: Seq<char>| same_code_as(c, code@));
        lemma_first_where(cs, |c: Seq<char>| primary_of(c) == primary_of(code@));
    }
    let mut i: usize = 0;
    while i < reg.catalogues.len()
        invariant
            i <= reg.catalogues@.len(),
            cs == reg.view().catalogues,
            forall|j: int| 0 <= j < i ==> !same_code_as(#[trigger] cs[j].code, code@),
        decreases reg.catalogues.len() - i,
    {
        assert(cs[i as int].code == reg.catalogues@[i as int].code@);
        if same_code(reg.catalogues[i].code.as_str(), code) {
            proof {
                lemma_first_where(cs, |c: Seq<char>| same_code_as(c, code@));
            }
            return i;
        }
        i += 1;
    }
    proof {
        lemma_first_where(cs, |c: Seq<char>| same_code_as(c, code@));
    }
    let wanted = primary(code);
    let mut j: usize = 0;
    while j < reg.catalogues.len()
        invariant
            j <= reg.catalogues@.len(),
            cs == reg.view().catalogues,
            wanted@ == primary_of(code@),
            code_position(cs, code@) == None::<int>,
            forall|m: int| 0 <= m < j ==> primary_of(#[trigger] cs[m].code) != primary_of(code@),
        decreases reg.catalogues.len() - j,
    {
        assert(cs[j as int].code == reg.catalogues@[j as int].code@);
        let theirs = primary(reg.catalogues[j].code.as_str());
        if crate::strings::str_eq(theirs.as_str(), wanted.as_str()) {
            proof {
                lemma_first_where(cs, |c: Seq<char>| primary_of(c) == primary_of(code@));
            }
            return j;
        }
        j += 1;
    }
    proof {
        lemma_first_where(cs, |c: Seq<char>| primary_of(c) == primary_of(code@));
    }
    0
}

/// Switches language, by exact code or by falling back to the language
/// without its region. Returns the code actually selected, which is
/// English's if nothing matched.
pub fn set_language(reg: &mut Registry, code: &str) -> (r: String)
    requires
        old(reg).wf(),
    ensures
        final(reg).wf(),
        final(reg).view() == (RegistryView {
            current: chosen(old(reg).view().catalogues, code@),
            ..old(reg).view()
        }),
        r@ == old(reg).view().catalogues[chosen(old(reg).view().catalogues, code@)].code,
{
    let i = choose_index(reg, code);
    reg.current = i;
    reg.current().code.clone()
}

/// Rebuilds the languages from the built-in texts and what the languages
/// folder holds now (`found`, as [`catalogues_from_files`] makes it),
/// keeping the current language selected if it is still there.
pub fn reload(
    reg: &mut Registry,
    builtin: &[&str],
    found: (Vec<(String, Catalogue)>, Vec<FileProblem>),
) -> (r: String)
    requires
        old(reg).wf(),
        builtins_fit(builtin@),
    ensures
        final(reg).wf(),
        final(reg).view() == ({
            let fresh = assembled(builtin@, extras_view(found.0@), file_problems_view(found.1@));
            RegistryView {
                current: chosen(fresh.catalogues, old(reg).view().catalogues[old(reg).view().current].code),
                ..fresh
            }
        }),
        r@ == final(reg).view().catalogues[final(reg).view().current].code,
{
    let wanted = current_code(reg);
    *reg = Registry::assemble(builtin, found);
    set_language(reg, wanted.as_str())
}

/// Whatever a language chosen by code is, it names the same language as the
/// code whenever one of the loaded languages does; so switching to a loaded
/// language, or reloading while one is in use, lands on it.
pub proof fn an_installed_language_is_the_one_chosen(cs: Seq<CatalogueView>, code: Seq<char>, k: int)
    requires
        0 <= k < cs.len(),
        same_code_as(cs[k].code, code),
    ensures
        0 <= chosen(cs, code) <= k,
        same_code_as(cs[chosen(cs, code)].code, code),
{
    lemma_first_where(cs, |c: Seq<char>| same_code_as(c, code));
}

/// A language chosen by code is always one of those loaded.
pub proof fn the_chosen_language_is_loaded(cs: Seq<CatalogueView>, code: Seq<char>)
    requires
        cs.len() >= 1,
    ensures
        0 <= chosen(cs, code) < cs.len(),
{
    lemma_first_where(cs, |c: Seq<char>| same_code_as(c, code));
    lemma_first_where(cs, |c: Seq<char>| primary_of(c) == primary_of(code));
}

/// Whether a saved setting asks for the system's language.
pub open spec fn means_auto(setting: Seq<char>) -> bool {
    trim(setting).len() == 0 || lower_all(trim(setting)) == "auto"@
}

/// The code a saved setting asks for, given what the system is set to.
pub open spec fn wanted_code(setting: Seq<char>, system: Option<Seq<char>>) -> Seq<char> {
    if means_auto(setting) {
        match system {
            Some(s) => s,
            None => "en"@,
        }
    } else {
        setting
    }
}

/// Resolves the saved setting to a language and selects it. `auto` (in any
/// case) or a blank setting asks for `system`, the language the operating
/// system is set to, if it named one; anything else is a code the user
/// picked. Returns the code actually in use.
pub fn apply_setting(reg: &mut Registry, setting: &str, system: Option<String>) -> (r: String)
    requires
        old(reg).wf(),
    ensures
        final(reg).wf(),
        final(reg).view() == (RegistryView {
            current: chosen(
                old(reg).view().catalogues,
                wanted_code(setting@, match system {
                    Some(s) => Some(s@),
                    None => None::<Seq<char>>,
                }),
            ),
            ..old(reg).view()
        }),
        r@ == final(reg).view().catalogues[final(reg).view().current].code,
{
    let v = chars_of(setting);
    let t = trimmed(&v);
    let low = lowered(&t);
    proof {
        reveal_strlit("auto");
        reveal_strlit("en");
    }
    let auto = t.len() == 0 || str_is("auto", &low);
    let wanted = if auto {
        match system {
            Some(s) => s,
            None => "en".to_owned(),
        }
    } else {
        setting.to_owned()
    };
    set_language(reg, wanted.as_str())
}

/// The language a system locale tag names, as a code like `fr` or `pt-BR`:
/// the encoding and modifier dropped, `_` read as `-`, and `C` or `POSIX`
/// (which name no language) refused.
pub open spec fn language_of_tag(tag: Seq<char>) -> Option<Seq<char>> {
    let code = replace_char(trim(cleaned_tag(tag)), '_', '-');
    if code.len() == 0 || code == "C"@ || code == "POSIX"@ {
        None
    } else {
        Some(code)
    }
}

/// The language a system locale tag names.
pub fn language_from_tag(tag: &str) -> (r: Option<String>)
    ensures
        match r {
            Some(s) => language_of_tag(tag@) == Some(s@),
            None => language_of_tag(tag@) == None::<Seq<char>>,
        },
{
    let cleaned = cleaned_of(tag);
    let t = trimmed(&cleaned);
    let code = replaced(&t, '_', '-');
    proof {
        reveal_strlit("C");
        reveal_strlit("POSIX");
    }
    if code.len() == 0 || str_is("C", &code) || str_is("POSIX", &code) {
        None
    } else {
        Some(string_of(&code))
    }
}

/// The language the operating system is set to, as a code like `fr` or
/// `pt-BR`. `env_tag` is the `GAS_LOCALE` override, which moves the words
/// and the figures together; when it is blank the operating system is asked.
pub fn system_language(env_tag: Option<String>) -> (r: Option<String>)
    ensures
        override_of(match env_tag {
            Some(u) => Some(u@),
            None => None::<Seq<char>>,
        }) matches Some(t) ==> match r {
            Some(s) => language_of_tag(t) == Some(s@),
            None => language_of_tag(t) == None::<Seq<char>>,
        },
        r matches Some(s) ==> exists|t: Seq<char>| language_of_tag(t) == Some(s@),
{
    let tag = match nonblank(env_tag) {
        Some(t) => Some(t),
        None => system_locale(),
    };
    match tag {
        Some(t) => {
            let r = language_from_tag(t.as_str());
            assert(r matches Some(s) ==> language_of_tag(t@) == Some(s@));
            r
        },
        None => None,
    }
}

// ------------------------------------------------------------------ words

/// A key's words in the language in use, with nothing bound.
pub open spec fn said(reg: RegistryView, key: Seq<char>) -> Seq<char> {
    filled(template_of(reg, key), Seq::empty())
}

/// A counted key's words for `n`, with `n` bound.
pub open spec fn counted(reg: RegistryView, key: Seq<char>, n: nat) -> Seq<char> {
    filled(counted_template_of(reg, key, n), seq![("n"@, decimal(n))])
}

/// Owned name and value pairs as plain character sequences.
pub open spec fn owned_bindings(values: Seq<(&str, String)>) -> Seq<(Seq<char>, Seq<char>)> {
    Seq::new(values.len(), |i: int| (values[i].0@, values[i].1@))
}

/// The template a key reads as: the current language's, else English's,
/// else the key itself.
pub open spec fn template_of(reg: RegistryView, key: Seq<char>) -> Seq<char> {
    match lookup(reg.catalogues[reg.current].entries, key) {
        Some(t) => t,
        None => match lookup(reg.catalogues[0].entries, key) {
            Some(t) => t,
            None => key,
        },
    }
}

/// The template a counted key reads as for `n`: the current language's
/// variant under its own rule, else English's under English's rule, else
/// the key itself.
pub open spec fn counted_template_of(reg: RegistryView, key: Seq<char>, n: nat) -> Seq<char> {
    let cur = reg.catalogues[reg.current];
    let en = reg.catalogues[0];
    match plural_lookup(cur.entries, cur.plural, key, n) {
        Some(t) => t,
        None => match plural_lookup(en.entries, en.plural, key, n) {
            Some(t) => t,
            None => key,
        },
    }
}

/// `fill` on owned values.
fn substitute(template: &str, values: &[(&str, String)]) -> (r: String)
    ensures
        r@ == filled(template@, owned_bindings(values@)),
{
    let mut pairs: Vec<(&str, &str)> = Vec::new();
    let mut i: usize = 0;
    while i < values.len()
        invariant
            i <= values@.len(),
            bindings(pairs@) == owned_bindings(values@).take(i as int),
        decreases values@.len() - i,
    {
        let ghost prev = bindings(pairs@);
        pairs.push((values[i].0, values[i].1.as_str()));
        assert(bindings(pairs@) =~= prev.push(owned_bindings(values@)[i as int]));
        i += 1;
        assert(owned_bindings(values@).take(i as int) =~= prev.push(
            owned_bindings(values@)[i - 1],
        ));
    }
    assert(owned_bindings(values@).take(i as int) =~= owned_bindings(values@));
    fill(template, pairs.as_slice())
}

/// Looks up `key`, substitutes the values, and falls back to English for
/// anything the current language has not translated. A key that exists in
/// neither comes back as itself, so the mistake shows rather than hides.
pub fn text(reg: &Registry, key: &str, values: &[(&str, String)]) -> (r: String)
    requires
        reg.wf(),
    ensures
        r@ == filled(template_of(reg.view(), key@), owned_bindings(values@)),
{
    let template = match reg.current().get(key) {
        Some(t) => t,
        None => match reg.english().get(key) {
            Some(t) => t,
            None => key,
        },
    };
    substitute(template, values)
}

/// The counted form of [`text`]: chooses the variant `n` calls for in the
/// language in use and binds `n` itself as a placeholder, ahead of the
/// other values. A language that has not translated the message falls back
/// to English's words and English's rule together.
pub fn plural(reg: &Registry, key: &str, n: u64, values: &[(&str, String)]) -> (r: String)
    requires
        reg.wf(),
    ensures
        r@ == filled(
            counted_template_of(reg.view(), key@, n as nat),
            seq![("n"@, decimal(n as nat))] + owned_bindings(values@),
        ),
{
    let template = match reg.current().plural_get(key, n) {
        Some(t) => t,
        None => match reg.english().plural_get(key, n) {
            Some(t) => t,
            None => key,
        },
    };
    let count = string_of(&decimal_of(n));
    let mut all: Vec<(&str, String)> = Vec::new();
    all.push(("n", count));
    let mut i: usize = 0;
    proof {
        reveal_strlit("n");
    }
    assert(owned_bindings(all@) =~= seq![("n"@, decimal(n as nat))] + owned_bindings(values@).take(0));
    while i < values.len()
        invariant
            i <= values@.len(),
            owned_bindings(all@) == seq![("n"@, decimal(n as nat))] + owned_bindings(values@).take(
                i as int,
            ),
        decreases values@.len() - i,
    {
        let ghost prev = owned_bindings(all@);
        all.push((values[i].0, values[i].1.clone()));
        assert(owned_bindings(all@) =~= prev.push(owned_bindings(values@)[i as int]));
        i += 1;
        assert(seq![("n"@, decimal(n as nat))] + owned_bindings(values@).take(i as int) =~= prev.push(
            owned_bindings(values@)[i - 1],
        ));
    }
    assert(owned_bindings(values@).take(i as int) =~= owned_bindings(values@));
    substitute(template, all.as_slice())
}

/// Text with no braces in it comes back unchanged whatever is bound.
pub proof fn plain_text_is_left_alone(t: Seq<char>, vals: Seq<(Seq<char>, Seq<char>)>)
    requires
        !t.contains('{'),
        !t.contains('}'),
    ensures
        filled(t, vals) == t,
    decreases t.len(),
{
    if t.len() > 0 {
        let tail = t.drop_first();
        assert(t[0] != '{' && t[0] != '}') by {
            assert(t.contains(t[0]));
        }
        assert(!tail.contains('{') && !tail.contains('}')) by {
            if tail.contains('{') {
                let k = choose|k: int| 0 <= k < tail.len() && tail[k] == '{';
                assert(t[k + 1] == '{');
            }
            if tail.contains('}') {
                let k = choose|k: int| 0 <= k < tail.len() && tail[k] == '}';
                assert(t[k + 1] == '}');
            }
        }
        plain_text_is_left_alone(tail, vals);
        assert(t =~= seq![t[0]] + tail);
    }
}

/// A key neither the language in use nor English has comes back as itself
/// rather than blank, whatever values are passed with it.
pub proof fn a_missing_key_comes_back_as_itself(
    reg: RegistryView,
    key: Seq<char>,
    vals: Seq<(Seq<char>, Seq<char>)>,
)
    requires
        lookup(reg.catalogues[reg.current].entries, key) == None::<Seq<char>>,
        lookup(reg.catalogues[0].entries, key) == None::<Seq<char>>,
        forall|i: int| 0 <= i < key.len() ==> crate::i18n::catalogue::key_char(#[trigger] key[i]),
    ensures
        filled(template_of(reg, key), vals) == key,
{
    assert(!key.contains('{'));
    assert(!key.contains('}'));
    plain_text_is_left_alone(key, vals);
}

/// A key the language in use has not translated reads as English's.
pub proof fn an_untranslated_key_falls_back_to_english(reg: RegistryView, key: Seq<char>, t: Seq<char>)
    requires
        lookup(reg.catalogues[reg.current].entries, key) == None::<Seq<char>>,
        lookup(reg.catalogues[0].entries, key) == Some(t),
    ensures
        template_of(reg, key) == t,
{
}

// ------------------------------------------------------------------ the folder

/// Where a translator's own language files live: beside the config file
/// and the default database.
pub fn languages_dir() -> (r: String)
    ensures
        exists|platform: Option<Seq<char>>| r@ == crate::config::path_joined(
            crate::config::data_dir_in(platform),
            "languages"@,
        ),
{
    let dir = crate::config::data_dir();
    crate::config::join_path(dir.as_str(), "languages")
}

/// The last component of a path held as text: what follows its last `/`.
pub open spec fn last_component(path: Seq<char>) -> Seq<char> {
    let pieces = split_on(path, seq!['/']);
    pieces[pieces.len() - 1]
}

/// Whether a path names a `.toml` file: its file name has an extension, the
/// part after its last `.` where that dot is not the name's first
/// character, and it is `toml`.
pub open spec fn is_language_file(path: Seq<char>) -> bool {
    let name = last_component(path);
    exists|k: int|
        0 < k < name.len() && name[k] == '.' && (forall|j: int| k < j < name.len() ==> name[j] != '.')
            && #[trigger] name.skip(k + 1) == "toml"@
}

fn language_file(path: &String) -> (r: bool)
    ensures
        r == is_language_file(path@),
{
    let v = chars_of(path.as_str());
    let mut slash: Vec<char> = Vec::new();
    slash.push('/');
    assert(slash@ =~= seq!['/']);
    let pieces = crate::strings::split_on_of(&v, &slash);
    proof {
        crate::strings::lemma_split_on_nonempty(v@, slash@);
    }
    let name = &pieces[pieces.len() - 1];
    let ghost n = name@;
    assert(n == last_component(path@));
    // The last dot, if any.
    let mut k: usize = name.len();
    while k > 0 && name[k - 1] != '.'
        invariant
            k <= name@.len(),
            n == name@,
            forall|j: int| k <= j < name@.len() ==> name@[j] != '.',
        decreases k,
    {
        k -= 1;
    }
    proof {
        reveal_strlit("toml");
    }
    if k <= 1 {
        assert(!is_language_file(path@)) by {
            if is_language_file(path@) {
                let w = choose|w: int| 0 < w < n.len() && n[w] == '.' && (forall|j: int| w < j < n.len() ==> n[j] != '.')
                    && #[trigger] n.skip(w + 1) == "toml"@;
                if k == 1 {
                    assert(n[0] == '.');
                    assert(w >= 1);
                } else {
                    assert(n[w] != '.');
                }
            }
        }
        return false;
    }
    let ext = slice_of(name, k, name.len());
    assert(ext@ =~= n.skip(k as int));
    let r = str_is("toml", &ext);
    assert(r == is_language_file(path@)) by {
        if is_language_file(path@) {
            let w = choose|w: int| 0 < w < n.len() && n[w] == '.' && (forall|j: int| w < j < n.len() ==> n[j] != '.')
                && #[trigger] n.skip(w + 1) == "toml"@;
            if w < k - 1 {
                assert(n[k - 1] == '.');
            }
            if w > k - 1 {
                assert(n[w] != '.');
            }
        }
        if r {
            assert(n[k - 1] == '.');
            assert(n.skip((k - 1) + 1) == "toml"@);
        }
    }
    r
}

/// Paths in increasing order, by their text.
pub open spec fn texts_sorted(s: Seq<Seq<char>>) -> bool {
    forall|i: int, j: int| 0 <= i < j < s.len() ==> !lex_lt(#[trigger] s[j], #[trigger] s[i])
}

/// The language files among `paths`, in order by their text, so the picker
/// and the problem list do not shuffle between runs on a filesystem that
/// does not sort its directory entries.
pub fn language_files(paths: Vec<String>) -> (r: Vec<String>)
    ensures
        texts_sorted(crate::strings::strings_of(r@)),
        crate::strings::strings_of(r@).to_multiset() == crate::strings::strings_of(paths@).filter(
            |p: Seq<char>| is_language_file(p),
        ).to_multiset(),
{
    let ghost all = crate::strings::strings_of(paths@);
    let ghost wanted = |p: Seq<char>| is_language_file(p);
    let mut out: Vec<String> = Vec::new();
    let mut i: usize = 0;
    proof {
        reveal(Seq::filter);
    }
    assert(all.take(0).filter(wanted) =~= Seq::<Seq<char>>::empty());
    assert(crate::strings::strings_of(out@) =~= Seq::<Seq<char>>::empty());
    while i < paths.len()
        invariant
            i <= paths@.len(),
            all == crate::strings::strings_of(paths@),
            wanted == (|p: Seq<char>| is_language_file(p)),
            texts_sorted(crate::strings::strings_of(out@)),
            crate::strings::strings_of(out@).to_multiset() == all.take(i as int).filter(wanted).to_multiset(),
        decreases paths.len() - i,
    {
        let p = &paths[i];
        assert(all.take(i + 1).drop_last() =~= all.take(i as int));
        assert(all.take(i + 1).last() == p@);
        proof {
            reveal(Seq::filter);
        }
        if language_file(p) {
            let pv = chars_of(p.as_str());
            let ghost before = crate::strings::strings_of(out@);
            let mut k: usize = 0;
            while k < out.len() && !chars_lt(&pv, &chars_of(out[k].as_str()))
                invariant
                    k <= out@.len(),
                    before == crate::strings::strings_of(out@),
                    texts_sorted(before),
                    forall|j: int| 0 <= j < k ==> !lex_lt(pv@, #[trigger] before[j]),
                decreases out.len() - k,
            {
                assert(before[k as int] == out@[k as int]@);
                k += 1;
            }
            if k < out.len() {
                assert(before[k as int] == out@[k as int]@);
            }
            out.insert(k, p.clone());
            let ghost after = crate::strings::strings_of(out@);
            assert(after =~= before.insert(k as int, p@));
            assert forall|a: int, b: int| 0 <= a < b < after.len() implies !lex_lt(
                #[trigger] after[b],
                #[trigger] after[a],
            ) by {
                crate::strings::lemma_lex_irreflexive(p@);
                if b < k {
                    assert(after[a] == before[a] && after[b] == before[b]);
                } else if b == k {
                    assert(after[a] == before[a]);
                } else if a < k {
                    assert(after[a] == before[a] && after[b] == before[b - 1]);
                    crate::strings::lemma_lex_total(before[b - 1], before[a]);
                } else if a == k {
                    assert(after[b] == before[b - 1]);
                    assert(lex_lt(p@, before[k as int]));
                    crate::strings::lemma_lex_total(before[b - 1], before[k as int]);
                    crate::strings::lemma_lex_total(before[b - 1], p@);
                    if lex_lt(before[b - 1], p@) {
                        if b - 1 > k {
                            if lex_lt(before[k as int], before[b - 1]) {
                                crate::strings::lemma_lex_transitive(before[k as int], before[b - 1], p@);
                                crate::strings::lemma_lex_total(before[k as int], p@);
                            } else {
                                assert(before[k as int] == before[b - 1]);
                                crate::strings::lemma_lex_total(before[k as int], p@);
                            }
                        } else {
                            crate::strings::lemma_lex_total(before[k as int], p@);
                        }
                    }
                } else {
                    assert(after[a] == before[a - 1] && after[b] == before[b - 1]);
                }
            }
            proof {
                vstd::seq_lib::to_multiset_insert(before, k as int, p@);
                vstd::seq_lib::to_multiset_build(all.take(i as int).filter(wanted), p@);
            }
        }
        i += 1;
    }
    assert(all.take(i as int) =~= all);
    out
}

/// What the files read from the languages folder become: each readable file
/// is parsed, and one without a `code` line, or that could not be read
/// (`None`), is a problem with its path rather than a language.
pub open spec fn sorted_out(files: Seq<(Seq<char>, Option<Seq<char>>)>) -> (Seq<(Seq<char>, CatalogueView)>, Seq<(Seq<char>, FileReason)>)
    decreases files.len(),
{
    if files.len() == 0 {
        (Seq::empty(), Seq::empty())
    } else {
        let (found, problems) = sorted_out(files.drop_last());
        let (path, text) = files.last();
        match text {
            None => (found, problems.push((path, FileReason::Unreadable))),
            Some(t) => if trim(parsed(t).code).len() == 0 {
                (found, problems.push((path, FileReason::NoCode)))
            } else {
                (found.push((path, parsed(t))), problems)
            },
        }
    }
}

pub open spec fn files_view(files: Seq<(String, Option<String>)>) -> Seq<(Seq<char>, Option<Seq<char>>)> {
    Seq::new(
        files.len(),
        |i: int|
            (
                files[i].0@,
                match files[i].1 {
                    Some(t) => Some(t@),
                    None => None,
                },
            ),
    )
}

/// The languages the folder's files make, each paired with the file it came
/// from, and the files that could not be used, with why. `files` holds each
/// language file's path and its text, or `None` where it could not be read.
pub fn catalogues_from_files(files: Vec<(String, Option<String>)>) -> (r: (Vec<(String, Catalogue)>, Vec<FileProblem>))
    ensures
        (extras_view(r.0@), file_problems_view(r.1@)) == sorted_out(files_view(files@)),
{
    let ghost all = files_view(files@);
    let n = files.len();
    let mut rest = files;
    let mut found: Vec<(String, Catalogue)> = Vec::new();
    let mut problems: Vec<FileProblem> = Vec::new();
    let mut k: usize = 0;
    assert(all.take(0) =~= Seq::<(Seq<char>, Option<Seq<char>>)>::empty());
    assert(extras_view(found@) =~= Seq::<(Seq<char>, CatalogueView)>::empty());
    assert(file_problems_view(problems@) =~= Seq::<(Seq<char>, FileReason)>::empty());
    while rest.len() > 0
        invariant
            k <= all.len(),
            all.len() == n,
            rest@.len() + k == all.len(),
            files_view(rest@) == all.skip(k as int),
            (extras_view(found@), file_problems_view(problems@)) == sorted_out(all.take(k as int)),
        decreases rest.len(),
    {
        let ghost old_rest = rest@;
        assert(all.skip(k as int)[0] == all[k as int]);
        let (path, text) = rest.remove(0);
        assert forall|m: int| 0 <= m < rest@.len() implies #[trigger] files_view(rest@)[m] == files_view(old_rest)[m + 1] by {
            assert(rest@[m] == old_rest[m + 1]);
        }
        assert(files_view(rest@) =~= all.skip(k + 1));
        assert(all.take(k + 1).drop_last() =~= all.take(k as int));
        assert(all.take(k + 1).last() == all[k as int]);
        let ghost fv = extras_view(found@);
        let ghost pv = file_problems_view(problems@);
        let ghost pth = path@;
        match text {
            None => {
                problems.push(FileProblem { path, reason: FileReason::Unreadable });
                assert(file_problems_view(problems@) =~= pv.push((pth, FileReason::Unreadable)));
            },
            Some(t) => {
                let c = Catalogue::parse(t.as_str());
                let code = chars_of(c.code.as_str());
                if trimmed(&code).len() == 0 {
                    problems.push(FileProblem { path, reason: FileReason::NoCode });
                    assert(file_problems_view(problems@) =~= pv.push((pth, FileReason::NoCode)));
                } else {
                    let ghost cv = c.view();
                    found.push((path, c));
                    assert(extras_view(found@) =~= fv.push((pth, cv)));
                }
            },
        }
        k += 1;
    }
    assert(all.take(k as int) =~= all);
    (found, problems)
}

/// Runs `body` with `code` in use, then puts the language that was in use
/// back (by its code, as [`set_language`] would).
pub fn with_language<T, F: FnOnce(&Registry) -> T>(reg: &mut Registry, code: &str, body: F) -> (r: T)
    requires
        old(reg).wf(),
        forall|x: &Registry| x.wf() ==> #[trigger] body.requires((x,)),
    ensures
        final(reg).wf(),
        final(reg).view() == (RegistryView {
            current: chosen(old(reg).view().catalogues, old(reg).view().catalogues[old(reg).view().current].code),
            ..old(reg).view()
        }),
        exists|during: &Registry|
            during.view() == (RegistryView { current: chosen(old(reg).view().catalogues, code@), ..old(reg).view() })
                && #[trigger] body.ensures((during,), r),
{
    let previous = current_code(reg);
    set_language(reg, code);
    let result = body(&*reg);
    set_language(reg, previous.as_str());
    result
}

} // verus!
