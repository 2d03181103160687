//! The language-file format, and everything that can be done with one file.
//!
//! The format is small enough to explain in a paragraph, because the person
//! writing one is a translator rather than a programmer:
//!
//! ```text
//! # A comment.
//! code   = "fr"
//! name   = "Français"
//! plural = "french"
//!
//! pane.database.subtitle = "Où cette application garde vos catégories et vos dépenses"
//!
//! # A long one, continued by putting another quoted string underneath.
//! pane.spending.no_categories = "Ajoutez d'abord une catégorie — une dépense doit "
//!                               "bien aller quelque part."
//! ```
//!
//! Nothing here fails as a unit: a line the parser cannot make sense of
//! becomes a [`Problem`] and the rest of the file is still read.
//! Placeholders are named, never positional, because word order is the first
//! thing a translation changes.

use vstd::prelude::*;

use crate::strings::{
    lemma_find_char, lemma_lex_irreflexive, lemma_split_on_nonempty, lemma_lex_total, lemma_lex_transitive, chars_lt, chars_of, find_char, find_char_from, lex_lt, lower, lower_all, push_all, push_str_chars,
    same_chars, skip_ws_from, slice_of, split_on, split_on_of, str_is, string_of, to_lower, trim,
    trim_end_at, trimmed,
};

verus! {

/// A line the parser could not use, kept so the Settings pane can say what
/// is wrong with a file instead of silently ignoring part of it.
#[derive(Debug, Clone, PartialEq, Eq)]
pub struct Problem {
    /// 1-based, so it matches what the translator's text editor shows; 0 for
    /// a problem with the file as a whole.
    pub line: usize,
    pub what: String,
}

/// How a language forms its plurals.
#[derive(Debug, Clone, Copy, PartialEq, Eq)]
pub enum PluralRule {
    /// One form for 1, one for everything else.
    OneOther,
    /// French and Brazilian Portuguese: zero takes the singular too.
    French,
    /// Polish.
    Polish,
    /// Russian, Ukrainian.
    Russian,
}

impl Default for PluralRule {
    fn default() -> (r: Self)
        ensures
            r == PluralRule::OneOther,
    {
        PluralRule::OneOther
    }
}

/// Which of a plural key's variants applies. The names are CLDR's.
#[derive(Debug, Clone, Copy, PartialEq, Eq)]
pub enum Category {
    One,
    Few,
    Many,
    Other,
}

/// The suffix a category wears on the end of a key.
pub open spec fn suffix_text(c: Category) -> Seq<char> {
    match c {
        Category::One => "one"@,
        Category::Few => "few"@,
        Category::Many => "many"@,
        Category::Other => "other"@,
    }
}

impl Category {
    /// The suffix this category wears on the end of a key.
    pub fn suffix(self) -> (s: &'static str)
        ensures
            s@ == suffix_text(self),
    {
        match self {
            Category::One => "one",
            Category::Few => "few",
            Category::Many => "many",
            Category::Other => "other",
        }
    }
}

/// 2, 3, 4 and anything ending in them, except the teens.
pub open spec fn slavic_few(n: nat) -> bool {
    2 <= n % 10 <= 4 && !(12 <= n % 100 <= 14)
}

/// Which variant `n` calls for under `rule`.
pub open spec fn category_of(rule: PluralRule, n: nat) -> Category {
    match rule {
        PluralRule::OneOther => if n == 1 {
            Category::One
        } else {
            Category::Other
        },
        PluralRule::French => if n <= 1 {
            Category::One
        } else {
            Category::Other
        },
        PluralRule::Polish => if n == 1 {
            Category::One
        } else if slavic_few(n) {
            Category::Few
        } else {
            Category::Many
        },
        PluralRule::Russian => if n % 10 == 1 && n % 100 != 11 {
            Category::One
        } else if slavic_few(n) {
            Category::Few
        } else {
            Category::Many
        },
    }
}

/// How the plural rules read a count, by its last digits. Under both Slavic
/// rules a count ending in 12, 13 or 14 (the teens: "12 файлов") takes the
/// many form, as does one ending in 0 or 5 to 9. Under the Russian rule a
/// count ending in 1 but not 11 takes the one form, and 11 the many form;
/// under the Polish rule only 1 itself takes the one form. Under both, a
/// count ending in 2, 3 or 4 outside the teens takes the few form. Under the
/// French rule 0 and 1 take the one form and under the English-like rule
/// only 1 does; every other count takes the other form.
pub proof fn plural_forms_follow_the_last_digits(n: nat)
    ensures
        12 <= n % 100 <= 14 ==> category_of(PluralRule::Russian, n) == Category::Many
            && category_of(PluralRule::Polish, n) == Category::Many,
        n % 10 == 0 || n % 10 >= 5 ==> category_of(PluralRule::Russian, n) == Category::Many
            && category_of(PluralRule::Polish, n) == Category::Many,
        2 <= n % 10 <= 4 && !(12 <= n % 100 <= 14) ==> category_of(PluralRule::Russian, n) == Category::Few
            && category_of(PluralRule::Polish, n) == Category::Few,
        n % 10 == 1 && n % 100 != 11 ==> category_of(PluralRule::Russian, n) == Category::One,
        n % 100 == 11 ==> category_of(PluralRule::Russian, n) == Category::Many,
        n == 1 ==> category_of(PluralRule::Polish, n) == Category::One,
        n % 10 == 1 && n != 1 ==> category_of(PluralRule::Polish, n) == Category::Many,
        n <= 1 ==> category_of(PluralRule::French, n) == Category::One,
        n > 1 ==> category_of(PluralRule::French, n) == Category::Other,
        n == 1 ==> category_of(PluralRule::OneOther, n) == Category::One,
        n != 1 ==> category_of(PluralRule::OneOther, n) == Category::Other,
{
}

/// Every variant a counted message must supply under `rule`.
pub open spec fn categories_of(rule: PluralRule) -> Seq<Category> {
    match rule {
        PluralRule::OneOther | PluralRule::French => seq![Category::One, Category::Other],
        PluralRule::Polish | PluralRule::Russian => seq![Category::One, Category::Few, Category::Many],
    }
}

/// The rule a file's `plural` line names, ignoring case and surrounding space.
pub open spec fn rule_named(name: Seq<char>) -> Option<PluralRule> {
    let n = lower_all(trim(name));
    if n == "one_other"@ {
        Some(PluralRule::OneOther)
    } else if n == "french"@ {
        Some(PluralRule::French)
    } else if n == "polish"@ {
        Some(PluralRule::Polish)
    } else if n == "russian"@ {
        Some(PluralRule::Russian)
    } else {
        None
    }
}

impl PluralRule {
    fn parse(name: &str) -> (r: Option<Self>)
        ensures
            r == rule_named(name@),
    {
        let raw = chars_of(name);
        let t = trimmed(&raw);
        let mut lowered: Vec<char> = Vec::new();
        let mut i: usize = 0;
        while i < t.len()
            invariant
                i <= t.len(),
                lowered@ == Seq::new(i as nat, |k: int| lower(t@[k])),
            decreases t.len() - i,
        {
            lowered.push(to_lower(t[i]));
            i += 1;
            assert(lowered@ =~= Seq::new(i as nat, |k: int| lower(t@[k])));
        }
        assert(lowered@ =~= lower_all(t@));
        if str_is("one_other", &lowered) {
            Some(PluralRule::OneOther)
        } else if str_is("french", &lowered) {
            Some(PluralRule::French)
        } else if str_is("polish", &lowered) {
            Some(PluralRule::Polish)
        } else if str_is("russian", &lowered) {
            Some(PluralRule::Russian)
        } else {
            None
        }
    }

    /// Which variant `n` calls for.
    pub fn category(self, n: u64) -> (c: Category)
        ensures
            c == category_of(self, n as nat),
    {
        let slavic_few = 2 <= n % 10 && n % 10 <= 4 && !(12 <= n % 100 && n % 100 <= 14);
        match self {
            PluralRule::OneOther => {
                if n == 1 {
                    Category::One
                } else {
                    Category::Other
                }
            },
            PluralRule::French => {
                if n <= 1 {
                    Category::One
                } else {
                    Category::Other
                }
            },
            PluralRule::Polish => {
                if n == 1 {
                    Category::One
                } else if slavic_few {
                    Category::Few
                } else {
                    Category::Many
                }
            },
            PluralRule::Russian => {
                if n % 10 == 1 && n % 100 != 11 {
                    Category::One
                } else if slavic_few {
                    Category::Few
                } else {
                    Category::Many
                }
            },
        }
    }

    /// Every variant a counted message must supply for this rule.
    pub fn categories(self) -> (cs: Vec<Category>)
        ensures
            cs@ == categories_of(self),
    {
        let mut cs: Vec<Category> = Vec::new();
        match self {
            PluralRule::OneOther | PluralRule::French => {
                cs.push(Category::One);
                cs.push(Category::Other);
            },
            PluralRule::Polish | PluralRule::Russian => {
                cs.push(Category::One);
                cs.push(Category::Few);
                cs.push(Category::Many);
            },
        }
        assert(cs@ =~= categories_of(self));
        cs
    }
}

// ------------------------------------------------------------------ entries

/// Entries as `(key, value)` pairs, kept sorted by key with each key once.
pub type Entries = Seq<(Seq<char>, Seq<char>)>;

pub open spec fn pairs_view(v: Seq<(String, String)>) -> Entries {
    Seq::new(v.len(), |i: int| (v[i].0@, v[i].1@))
}

/// Index of the first entry under `k`.
pub open spec fn first_index(es: Entries, k: Seq<char>) -> Option<int>
    decreases es.len(),
{
    if es.len() == 0 {
        None
    } else if es[0].0 == k {
        Some(0)
    } else {
        match first_index(es.drop_first(), k) {
            Some(i) => Some(i + 1),
            None => None,
        }
    }
}

pub proof fn lemma_first_index(es: Entries, k: Seq<char>)
    ensures
        match first_index(es, k) {
            Some(i) => 0 <= i < es.len() && es[i].0 == k && forall|j: int|
                0 <= j < i ==> es[j].0 != k,
            None => forall|j: int| 0 <= j < es.len() ==> es[j].0 != k,
        },
    decreases es.len(),
{
    if es.len() > 0 && es[0].0 != k {
        lemma_first_index(es.drop_first(), k);
        assert forall|j: int| 0 < j < es.len() implies es[j] == es.drop_first()[j - 1] by {}
    }
}

/// The value under `k`, if there is one.
pub open spec fn lookup(es: Entries, k: Seq<char>) -> Option<Seq<char>> {
    match first_index(es, k) {
        Some(i) => Some(es[i].1),
        None => None,
    }
}

/// The entries with `more` added to the end of the value under `k`.
pub open spec fn append_to(es: Entries, k: Seq<char>, more: Seq<char>) -> Entries {
    match first_index(es, k) {
        Some(i) => es.update(i, (k, es[i].1 + more)),
        None => es,
    }
}

/// The entries without `k`, and the value it had (empty if none).
pub open spec fn take_out(es: Entries, k: Seq<char>) -> (Entries, Seq<char>) {
    match first_index(es, k) {
        Some(i) => (es.remove(i), es[i].1),
        None => (es, Seq::<char>::empty()),
    }
}

/// Where `k` belongs in sorted order: after every key that sorts before it.
pub open spec fn insert_at(es: Entries, k: Seq<char>) -> int
    decreases es.len(),
{
    if es.len() > 0 && lex_lt(es[0].0, k) {
        1 + insert_at(es.drop_first(), k)
    } else {
        0
    }
}

pub proof fn lemma_insert_at(es: Entries, k: Seq<char>)
    ensures
        0 <= insert_at(es, k) <= es.len(),
        forall|j: int| 0 <= j < insert_at(es, k) ==> lex_lt(#[trigger] es[j].0, k),
        insert_at(es, k) < es.len() ==> !lex_lt(es[insert_at(es, k)].0, k),
    decreases es.len(),
{
    if es.len() > 0 && lex_lt(es[0].0, k) {
        lemma_insert_at(es.drop_first(), k);
        assert forall|j: int| 0 < j < es.len() implies es[j] == es.drop_first()[j - 1] by {}
    }
}

/// The entries with `v` under `k`, and whether `k` already had a value,
/// which the new one replaces.
pub open spec fn put(es: Entries, k: Seq<char>, v: Seq<char>) -> (Entries, bool) {
    let i = insert_at(es, k);
    if i < es.len() && es[i].0 == k {
        (es.update(i, (k, v)), true)
    } else {
        (es.insert(i, (k, v)), false)
    }
}

/// Keys in strictly increasing order, so each key appears once.
pub open spec fn sorted_keys(es: Entries) -> bool {
    forall|i: int, j: int| 0 <= i < j < es.len() ==> lex_lt(#[trigger] es[i].0, #[trigger] es[j].0)
}

pub proof fn lemma_put_sorted(es: Entries, k: Seq<char>, v: Seq<char>)
    requires
        sorted_keys(es),
    ensures
        sorted_keys(put(es, k, v).0),
{
    let i = insert_at(es, k);
    lemma_insert_at(es, k);
    if i < es.len() && es[i].0 == k {
        let es2 = es.update(i, (k, v));
        assert forall|a: int, b: int| 0 <= a < b < es2.len() implies lex_lt(
            #[trigger] es2[a].0,
            #[trigger] es2[b].0,
        ) by {
            assert(es[a].0 == es2[a].0 && es[b].0 == es2[b].0);
        }
    } else {
        let es2 = es.insert(i, (k, v));
        if i < es.len() {
            lemma_lex_total(es[i].0, k);
        }
        assert forall|a: int, b: int| 0 <= a < b < es2.len() implies lex_lt(
            #[trigger] es2[a].0,
            #[trigger] es2[b].0,
        ) by {
            if b < i {
            } else if b == i {
                assert(lex_lt(es[a].0, k));
            } else if a < i {
                assert(es2[b] == es[b - 1]);
                assert(lex_lt(es[a].0, es[b - 1].0));
            } else if a == i {
                assert(es2[b] == es[b - 1]);
                assert(lex_lt(k, es[i].0));
                if b - 1 > i {
                    assert(lex_lt(es[i].0, es[b - 1].0));
                    lemma_lex_transitive(k, es[i].0, es[b - 1].0);
                }
            } else {
                assert(es2[a] == es[a - 1] && es2[b] == es[b - 1]);
                assert(lex_lt(es[a - 1].0, es[b - 1].0));
            }
        }
    }
}

pub proof fn lemma_append_keys(es: Entries, k: Seq<char>, more: Seq<char>)
    ensures
        append_to(es, k, more).len() == es.len(),
        forall|j: int| 0 <= j < es.len() ==> (#[trigger] append_to(es, k, more)[j]).0 == es[j].0,
{
    lemma_first_index(es, k);
}

pub proof fn lemma_take_out_sorted(es: Entries, k: Seq<char>)
    requires
        sorted_keys(es),
    ensures
        sorted_keys(take_out(es, k).0),
        first_index(take_out(es, k).0, k) == None::<int>,
        forall|j: Seq<char>| first_index(es, j) == None::<int> ==> #[trigger] first_index(take_out(es, k).0, j) == None::<int>,
{
    lemma_first_index(es, k);
    let es2 = take_out(es, k).0;
    match first_index(es, k) {
        Some(i) => {
            assert forall|a: int| 0 <= a < es2.len() implies #[trigger] es2[a] == (if a < i {
                es[a]
            } else {
                es[a + 1]
            }) by {}
            assert forall|a: int, b: int| 0 <= a < b < es2.len() implies lex_lt(
                #[trigger] es2[a].0,
                #[trigger] es2[b].0,
            ) by {
                let a1 = if a < i { a } else { a + 1 };
                let b1 = if b < i { b } else { b + 1 };
                assert(es2[a] == es[a1] && es2[b] == es[b1]);
                assert(lex_lt(es[a1].0, es[b1].0));
            }
            lemma_first_index(es2, k);
            if first_index(es2, k) is Some {
                let f = first_index(es2, k)->0;
                let f1 = if f < i { f } else { f + 1 };
                assert(es2[f] == es[f1]);
                lemma_lex_irreflexive(k);
                if f1 < i {
                    assert(lex_lt(es[f1].0, es[i].0));
                } else {
                    assert(lex_lt(es[i].0, es[f1].0));
                }
            }
            assert forall|j: Seq<char>| first_index(es, j) == None::<int> implies #[trigger] first_index(
                es2,
                j,
            ) == None::<int> by {
                lemma_first_index(es, j);
                lemma_first_index(es2, j);
                if first_index(es2, j) is Some {
                    let f = first_index(es2, j)->0;
                    let f1 = if f < i { f } else { f + 1 };
                    assert(es2[f] == es[f1]);
                }
            }
        },
        None => {},
    }
}

pub proof fn lemma_step_sorted(st: ParseState, line: int, raw: Seq<char>)
    requires
        sorted_keys(st.entries),
    ensures
        sorted_keys(step(st, line, raw).entries),
{
    let t = trim(raw);
    if t.len() > 0 && t[0] == '"' {
        if let Some(key) = st.last_key {
            if let Ok(more) = read_value(t) {
                lemma_append_keys(st.entries, key, more);
                let es2 = append_to(st.entries, key, more);
                assert forall|a: int, b: int| 0 <= a < b < es2.len() implies lex_lt(
                    #[trigger] es2[a].0,
                    #[trigger] es2[b].0,
                ) by {
                    assert(es2[a].0 == st.entries[a].0 && es2[b].0 == st.entries[b].0);
                }
            }
        }
    } else if t.len() > 0 && t[0] != '#' {
        if let Some(at) = find_char(t, '=') {
            let key = trim(t.take(at as int));
            if first_bad_char(key) is None {
                if let Ok(value) = read_value(trim(t.skip(at as int + 1))) {
                    lemma_put_sorted(st.entries, key, value);
                }
            }
        }
    }
}

pub proof fn lemma_run_sorted(ls: Seq<Seq<char>>)
    ensures
        sorted_keys(run(ls).entries),
    decreases ls.len(),
{
    if ls.len() > 0 {
        lemma_run_sorted(ls.drop_last());
        lemma_step_sorted(run(ls.drop_last()), ls.len() as int, ls.last());
    }
}

// ------------------------------------------------------------------ messages

pub open spec fn msg_continued_without_entry() -> Seq<char> {
    "a continued line with no entry above it to continue"@
}

pub open spec fn msg_no_equals() -> Seq<char> {
    "no `=`, so this is neither a comment nor an entry"@
}

pub open spec fn msg_bad_key_char(bad: char) -> Seq<char> {
    seq!['`', bad] + "` cannot appear in a key"@
}

pub open spec fn msg_given_twice(key: Seq<char>) -> Seq<char> {
    seq!['`'] + key + "` was already given a value further up"@
}

pub open spec fn msg_unquoted() -> Seq<char> {
    "a value has to be wrapped in double quotes"@
}

pub open spec fn msg_bad_escape(other: char) -> Seq<char> {
    seq!['`', '\\', other] + "` is not an escape this format knows"@
}

pub open spec fn msg_trailing_backslash() -> Seq<char> {
    "the line ends in a backslash"@
}

pub open spec fn msg_unclosed() -> Seq<char> {
    "the closing quote is missing"@
}

pub open spec fn msg_left_over(rest: Seq<char>) -> Seq<char> {
    seq!['`'] + rest + "` is left over after the closing quote"@
}

pub open spec fn msg_unknown_rule(name: Seq<char>) -> Seq<char> {
    "`plural = \""@ + name + "\"` is not a rule this app knows; using one-and-other"@
}

// ------------------------------------------------------------------ values

/// The rest of a quoted value, once the opening quote has been read and
/// `acc` holds what has been read of it so far.
pub open spec fn read_body(s: Seq<char>, acc: Seq<char>) -> Result<Seq<char>, Seq<char>>
    decreases s.len(),
{
    if s.len() == 0 {
        Err(msg_unclosed())
    } else if s[0] == '"' {
        let rest = trim(s.drop_first());
        if rest.len() > 0 && rest[0] != '#' {
            Err(msg_left_over(rest))
        } else {
            Ok(acc)
        }
    } else if s[0] == '\\' {
        if s.len() == 1 {
            Err(msg_trailing_backslash())
        } else if s[1] == 'n' {
            read_body(s.skip(2), acc.push('\n'))
        } else if s[1] == 't' {
            read_body(s.skip(2), acc.push('\t'))
        } else if s[1] == '"' {
            read_body(s.skip(2), acc.push('"'))
        } else if s[1] == '\\' {
            read_body(s.skip(2), acc.push('\\'))
        } else {
            Err(msg_bad_escape(s[1]))
        }
    } else {
        read_body(s.drop_first(), acc.push(s[0]))
    }
}

/// One `"…"` and whatever follows it, which must be nothing or a comment.
pub open spec fn read_value(t: Seq<char>) -> Result<Seq<char>, Seq<char>> {
    if t.len() == 0 || t[0] != '"' {
        Err(msg_unquoted())
    } else {
        read_body(t.drop_first(), Seq::<char>::empty())
    }
}

fn read_value_of(t: &Vec<char>) -> (r: Result<Vec<char>, String>)
    ensures
        match r {
            Ok(v) => read_value(t@) == Ok::<Seq<char>, Seq<char>>(v@),
            Err(e) => read_value(t@) == Err::<Seq<char>, Seq<char>>(e@),
        },
{
    if t.len() == 0 || t[0] != '"' {
        let e = "a value has to be wrapped in double quotes".to_owned();
        return Err(e);
    }
    let mut value: Vec<char> = Vec::new();
    let mut i: usize = 1;
    assert(t@.skip(1) =~= t@.drop_first());
    while i < t.len()
        invariant
            1 <= i <= t.len(),
            read_body(t@.skip(i as int), value@) == read_value(t@),
        decreases t.len() - i,
    {
        let c = t[i];
        let ghost s = t@.skip(i as int);
        assert(s[0] == c);
        if c == '"' {
            let after = skip_ws_from(t, i + 1);
            let end = trim_end_at(t, after, t.len());
            assert(s.drop_first() =~= t@.skip(i + 1));
            proof {
                assert(t@.skip(after as int) =~= t@.subrange(after as int, t.len() as int));
            }
            let ghost rest = trim(s.drop_first());
            assert(rest =~= t@.subrange(after as int, end as int));
            if end > after && t[after] != '#' {
                let mut e = String::new();
                e.push('`');
                let left = slice_of(t, after, end);
                push_all(&mut e, &left);
                e.append("` is left over after the closing quote");
                assert(e@ =~= msg_left_over(rest));
                return Err(e);
            }
            return Ok(value);
        } else if c == '\\' {
            if i + 1 == t.len() {
                return Err("the line ends in a backslash".to_owned());
            }
            let next = t[i + 1];
            assert(s[1] == next);
            assert(s.skip(2) =~= t@.skip(i + 2));
            if next == 'n' {
                value.push('\n');
            } else if next == 't' {
                value.push('\t');
            } else if next == '"' {
                value.push('"');
            } else if next == '\\' {
                value.push('\\');
            } else {
                let mut e = String::new();
                e.push('`');
                e.push('\\');
                e.push(next);
                e.append("` is not an escape this format knows");
                assert(e@ =~= msg_bad_escape(next));
                return Err(e);
            }
            i += 2;
        } else {
            assert(s.drop_first() =~= t@.skip(i + 1));
            value.push(c);
            i += 1;
        }
    }
    assert(t@.skip(i as int) =~= Seq::<char>::empty());
    Err("the closing quote is missing".to_owned())
}

// ------------------------------------------------------------------ parsing

/// Whether `c` may appear in a key. Keys are written by this project, so
/// anything outside this set is far more likely a typo than an intention.
pub open spec fn key_char(c: char) -> bool {
    ('a' <= c && c <= 'z') || ('0' <= c && c <= '9') || c == '.' || c == '_'
}

fn is_key_char(c: char) -> (r: bool)
    ensures
        r == key_char(c),
{
    ('a' <= c && c <= 'z') || ('0' <= c && c <= '9') || c == '.' || c == '_'
}

/// The first character of `key` that may not be in a key.
pub open spec fn first_bad_char(key: Seq<char>) -> Option<char>
    decreases key.len(),
{
    if key.len() == 0 {
        None
    } else if !key_char(key[0]) {
        Some(key[0])
    } else {
        first_bad_char(key.drop_first())
    }
}

/// The first character of `key` that may not be in a key.
fn first_bad_key_char(key: &Vec<char>) -> (r: Option<char>)
    ensures
        r == first_bad_char(key@),
{
    let mut j: usize = 0;
    assert(key@.skip(0) =~= key@);
    while j < key.len()
        invariant
            j <= key.len(),
            first_bad_char(key@) == first_bad_char(key@.skip(j as int)),
        decreases key.len() - j,
    {
        assert(key@.skip(j as int)[0] == key@[j as int]);
        if !is_key_char(key[j]) {
            return Some(key[j]);
        }
        assert(key@.skip(j as int).drop_first() =~= key@.skip(j + 1));
        j += 1;
    }
    assert(key@.skip(key.len() as int) =~= Seq::<char>::empty());
    None
}

/// What the parser knows after some lines: the entries so far, the
/// problems, and the key the next bare quoted string would continue.
pub struct ParseState {
    pub entries: Entries,
    pub problems: Seq<(int, Seq<char>)>,
    pub last_key: Option<Seq<char>>,
}

pub open spec fn start_state() -> ParseState {
    ParseState {
        entries: Seq::empty(),
        problems: Seq::empty(),
        last_key: None,
    }
}

/// The state after reading line number `line`, whose text is `raw`.
pub open spec fn step(st: ParseState, line: int, raw: Seq<char>) -> ParseState {
    let t = trim(raw);
    if t.len() == 0 {
        // A blank line ends a continuation.
        ParseState { last_key: None, ..st }
    } else if t[0] == '#' {
        st
    } else if t[0] == '"' {
        match st.last_key {
            None => ParseState {
                problems: st.problems.push((line, msg_continued_without_entry())),
                ..st
            },
            Some(key) => match read_value(t) {
                Ok(more) => ParseState { entries: append_to(st.entries, key, more), ..st },
                Err(what) => ParseState { problems: st.problems.push((line, what)), ..st },
            },
        }
    } else {
        match find_char(t, '=') {
            None => ParseState {
                problems: st.problems.push((line, msg_no_equals())),
                last_key: None,
                ..st
            },
            Some(at) => {
                let key = trim(t.take(at as int));
                match first_bad_char(key) {
                    Some(bad) => ParseState {
                        problems: st.problems.push((line, msg_bad_key_char(bad))),
                        last_key: None,
                        ..st
                    },
                    None => match read_value(trim(t.skip(at as int + 1))) {
                        Ok(value) => {
                            let (entries, existed) = put(st.entries, key, value);
                            ParseState {
                                entries,
                                problems: if existed {
                                    st.problems.push((line, msg_given_twice(key)))
                                } else {
                                    st.problems
                                },
                                last_key: Some(key),
                            }
                        },
                        Err(what) => ParseState {
                            problems: st.problems.push((line, what)),
                            last_key: None,
                            ..st
                        },
                    },
                }
            },
        }
    }
}

/// The state after reading every line, numbering them from 1.
pub open spec fn run(ls: Seq<Seq<char>>) -> ParseState
    decreases ls.len(),
{
    if ls.len() == 0 {
        start_state()
    } else {
        step(run(ls.drop_last()), ls.len() as int, ls.last())
    }
}

/// `str::lines`: split at each `\n`, a `\r` before it dropped too, and no
/// empty line after a final `\n`.
pub open spec fn lines(s: Seq<char>) -> Seq<Seq<char>> {
    let pieces = split_on(s, seq!['\n']);
    let kept = if pieces.last().len() == 0 {
        pieces.drop_last()
    } else {
        pieces
    };
    Seq::new(
        kept.len(),
        |i: int|
            if i < pieces.len() - 1 && kept[i].len() > 0 && kept[i].last() == '\r' {
                kept[i].drop_last()
            } else {
                kept[i]
            },
    )
}

/// A parsed language file, as plain values.
pub struct CatalogueView {
    pub code: Seq<char>,
    pub name: Seq<char>,
    pub plural: PluralRule,
    pub entries: Entries,
    pub problems: Seq<(int, Seq<char>)>,
}

/// What a language file reads as: its lines in order, then the header keys
/// taken out of the entries and the plural rule resolved.
pub open spec fn parsed(text: Seq<char>) -> CatalogueView {
    let st = run(lines(text));
    let (e1, code) = take_out(st.entries, "code"@);
    let (e2, name) = take_out(e1, "name"@);
    let (e3, plural_name) = take_out(e2, "plural"@);
    let (plural, problems) = if trim(plural_name).len() == 0 {
        (PluralRule::OneOther, st.problems)
    } else {
        match rule_named(plural_name) {
            Some(rule) => (rule, st.problems),
            None => (PluralRule::OneOther, st.problems.push((0int, msg_unknown_rule(plural_name)))),
        }
    };
    CatalogueView { code, name, plural, entries: e3, problems }
}

/// The key a counted message's variant is filed under: `key.one`.
pub open spec fn variant_key(key: Seq<char>, c: Category) -> Seq<char> {
    key + seq!['.'] + suffix_text(c)
}

/// The value for a counted key: the variant `n` calls for, else `.other`,
/// else `.many`, else `.one`.
pub open spec fn plural_lookup(es: Entries, rule: PluralRule, key: Seq<char>, n: nat) -> Option<
    Seq<char>,
> {
    let wanted = lookup(es, variant_key(key, category_of(rule, n)));
    let other = lookup(es, variant_key(key, Category::Other));
    let many = lookup(es, variant_key(key, Category::Many));
    if wanted is Some {
        wanted
    } else if other is Some {
        other
    } else if many is Some {
        many
    } else {
        lookup(es, variant_key(key, Category::One))
    }
}

/// A parsed file holds each key once, in key order, and none of the header
/// keys `code`, `name` and `plural` is left among its entries.
pub proof fn parsed_entries_are_unique_and_headerless(text: Seq<char>)
    ensures
        sorted_keys(parsed(text).entries),
        lookup(parsed(text).entries, "code"@) == None::<Seq<char>>,
        lookup(parsed(text).entries, "name"@) == None::<Seq<char>>,
        lookup(parsed(text).entries, "plural"@) == None::<Seq<char>>,
{
    let st = run(lines(text));
    lemma_run_sorted(lines(text));
    let e1 = take_out(st.entries, "code"@).0;
    lemma_take_out_sorted(st.entries, "code"@);
    let e2 = take_out(e1, "name"@).0;
    lemma_take_out_sorted(e1, "name"@);
    lemma_take_out_sorted(e2, "plural"@);
    assert(first_index(e2, "code"@) == None::<int>);
}

/// A key made only of characters a key may hold.
pub open spec fn spelled_as_key(k: Seq<char>) -> bool {
    forall|j: int| 0 <= j < k.len() ==> key_char(#[trigger] k[j])
}

/// Entries whose every key is [`spelled_as_key`].
pub open spec fn keys_spelled(es: Entries) -> bool {
    forall|i: int| 0 <= i < es.len() ==> spelled_as_key(#[trigger] es[i].0)
}

pub proof fn lemma_no_bad_char(k: Seq<char>)
    requires
        first_bad_char(k) is None,
    ensures
        spelled_as_key(k),
    decreases k.len(),
{
    if k.len() > 0 {
        lemma_no_bad_char(k.drop_first());
        assert forall|j: int| 0 <= j < k.len() implies key_char(#[trigger] k[j]) by {
            if j > 0 {
                assert(k[j] == k.drop_first()[j - 1]);
            }
        }
    }
}

pub proof fn lemma_step_keys(st: ParseState, line: int, raw: Seq<char>)
    requires
        keys_spelled(st.entries),
    ensures
        keys_spelled(step(st, line, raw).entries),
{
    let t = trim(raw);
    if t.len() > 0 && t[0] == '"' {
        if let Some(key) = st.last_key {
            if let Ok(more) = read_value(t) {
                lemma_append_keys(st.entries, key, more);
                let es2 = append_to(st.entries, key, more);
                assert forall|i: int| 0 <= i < es2.len() implies spelled_as_key(#[trigger] es2[i].0) by {
                    assert(es2[i].0 == st.entries[i].0);
                }
            }
        }
    } else if t.len() > 0 && t[0] != '#' {
        if let Some(at) = find_char(t, '=') {
            let key = trim(t.take(at as int));
            if first_bad_char(key) is None {
                if let Ok(value) = read_value(trim(t.skip(at as int + 1))) {
                    lemma_no_bad_char(key);
                    let es = st.entries;
                    let i = insert_at(es, key);
                    lemma_insert_at(es, key);
                    let es2 = put(es, key, value).0;
                    assert forall|a: int| 0 <= a < es2.len() implies spelled_as_key(#[trigger] es2[a].0) by {
                        if i < es.len() && es[i].0 == key {
                            assert(es2[a].0 == es[a].0);
                        } else if a < i {
                            assert(es2[a] == es[a]);
                        } else if a > i {
                            assert(es2[a] == es[a - 1]);
                        }
                    }
                }
            }
        }
    }
}

pub proof fn lemma_run_keys(ls: Seq<Seq<char>>)
    ensures
        keys_spelled(run(ls).entries),
    decreases ls.len(),
{
    if ls.len() > 0 {
        lemma_run_keys(ls.drop_last());
        lemma_step_keys(run(ls.drop_last()), ls.len() as int, ls.last());
    }
}

pub proof fn lemma_take_out_keys(es: Entries, k: Seq<char>)
    requires
        keys_spelled(es),
    ensures
        keys_spelled(take_out(es, k).0),
{
    lemma_first_index(es, k);
    if let Some(i) = first_index(es, k) {
        let es2 = es.remove(i);
        assert forall|a: int| 0 <= a < es2.len() implies spelled_as_key(#[trigger] es2[a].0) by {
            if a < i {
                assert(es2[a] == es[a]);
            } else {
                assert(es2[a] == es[a + 1]);
            }
        }
    }
}

/// Every key a file parses to is made of lower-case ASCII letters, digits,
/// points and underscores, whatever the file holds.
pub proof fn parsed_keys_are_spelled_as_keys(text: Seq<char>)
    ensures
        keys_spelled(parsed(text).entries),
{
    let st = run(lines(text));
    lemma_run_keys(lines(text));
    let e1 = take_out(st.entries, "code"@).0;
    lemma_take_out_keys(st.entries, "code"@);
    let e2 = take_out(e1, "name"@).0;
    lemma_take_out_keys(e1, "name"@);
    lemma_take_out_keys(e2, "plural"@);
}

/// Pieces of `t + e`, where `e` holds no separator: `e` joins the last piece.
pub proof fn lemma_split_append_plain(t: Seq<char>, e: Seq<char>, seps: Seq<char>)
    requires
        forall|k: int| 0 <= k < e.len() ==> !seps.contains(#[trigger] e[k]),
    ensures
        split_on(t + e, seps) == split_on(t, seps).update(
            split_on(t, seps).len() - 1,
            split_on(t, seps).last() + e,
        ),
    decreases e.len(),
{
    lemma_split_on_nonempty(t, seps);
    let p = split_on(t, seps);
    if e.len() == 0 {
        assert(t + e =~= t);
        assert(p.update(p.len() - 1, p.last() + e) =~= p) by {
            assert(p.last() + e =~= p.last());
        }
    } else {
        let e0 = e.drop_last();
        lemma_split_append_plain(t, e0, seps);
        assert((t + e).drop_last() =~= t + e0);
        assert((t + e).last() == e.last());
        let init = split_on(t + e0, seps);
        assert(init.last() == p.last() + e0);
        assert(init.last().push(e.last()) =~= p.last() + e);
        assert(init.update(init.len() - 1, init.last().push(e.last())) =~= p.update(
            p.len() - 1,
            p.last() + e,
        ));
    }
}

/// The lines of a file that ends a line (or is empty), with one more line
/// added, are its lines and that one.
pub proof fn lemma_lines_push(text: Seq<char>, e: Seq<char>)
    requires
        text.len() == 0 || text.last() == '\n',
        !e.contains('\n'),
        e.len() == 0 || e.last() != '\r',
    ensures
        lines(text + e + seq!['\n']) == lines(text).push(e),
{
    let nl = seq!['\n'];
    let p = split_on(text, nl);
    lemma_split_on_nonempty(text, nl);
    assert(p.last().len() == 0) by {
        if text.len() > 0 {
            assert(nl.contains(text.last())) by {
                assert(nl[0] == text.last());
            }
        }
    }
    assert forall|k: int| 0 <= k < e.len() implies !nl.contains(#[trigger] e[k]) by {
        if nl.contains(e[k]) {
            assert(nl[0] == '\n');
            assert(e.contains('\n'));
        }
    }
    lemma_split_append_plain(text, e, nl);
    let u = text + e + nl;
    assert(u.drop_last() =~= text + e);
    assert(nl.contains(u.last())) by {
        assert(nl[0] == u.last());
    }
    let q = split_on(u, nl);
    assert(q =~= p.drop_last().push(e).push(Seq::<char>::empty())) by {
        assert(p.last() + e =~= e);
    }
    let lt = lines(text);
    let lu = lines(u);
    assert(lu.len() == lt.len() + 1);
    assert forall|i: int| 0 <= i < lu.len() implies #[trigger] lu[i] == lt.push(e)[i] by {
        if i < lt.len() {
            assert(q[i] == p[i]);
        }
    }
    assert(lu =~= lt.push(e));
}

/// A line that is not blank, not a comment, not a continuation and has no
/// `=` in it.
pub open spec fn lacks_equals(e: Seq<char>) -> bool {
    let t = trim(e);
    &&& !e.contains('\n')
    &&& (e.len() == 0 || e.last() != '\r')
    &&& t.len() > 0
    &&& t[0] != '#'
    &&& t[0] != '"'
    &&& !t.contains('=')
}

/// A file with one more line that has no `=` parses as before, with exactly
/// one more problem, a missing `=` at that line: nothing fails as a unit.
pub proof fn a_line_without_equals_is_one_more_problem(text: Seq<char>, e: Seq<char>)
    requires
        text.len() == 0 || text.last() == '\n',
        lacks_equals(e),
    ensures
        ({
            let a = parsed(text);
            let b = parsed(text + e + seq!['\n']);
            let line = lines(text).len() as int + 1;
            &&& b.code == a.code
            &&& b.name == a.name
            &&& b.plural == a.plural
            &&& b.entries == a.entries
            &&& b.problems.len() == a.problems.len() + 1
            &&& exists|k: int|
                0 <= k < b.problems.len() && b.problems[k] == (line, msg_no_equals())
                    && #[trigger] b.problems.remove(k) == a.problems
        }),
{
    lemma_lines_push(text, e);
    let ls = lines(text);
    let lu = ls.push(e);
    assert(lu.drop_last() =~= ls);
    let t = trim(e);
    lemma_find_char(t, '=');
    assert(find_char(t, '=') is None) by {
        if let Some(i) = find_char(t, '=') {
            assert(t.contains('='));
        }
    }
    let line = ls.len() as int + 1;
    let sa = run(ls);
    let sb = run(lu);
    assert(sb.entries == sa.entries);
    assert(sb.problems == sa.problems.push((line, msg_no_equals())));
    let a = parsed(text);
    let b = parsed(text + e + seq!['\n']);
    let k = sa.problems.len() as int;
    assert(b.problems[k] == (line, msg_no_equals()));
    assert(b.problems.remove(k) =~= a.problems);
}

/// Whichever variant a rule picks for a number is one the rule asks every
/// counted message to supply.
pub proof fn category_is_one_the_rule_needs(rule: PluralRule, n: nat)
    ensures
        categories_of(rule).contains(category_of(rule, n)),
{
    let c = category_of(rule, n);
    let cs = categories_of(rule);
    match rule {
        PluralRule::OneOther | PluralRule::French => {
            if c == Category::One {
                assert(cs[0] == c);
            } else {
                assert(cs[1] == c);
            }
        },
        PluralRule::Polish | PluralRule::Russian => {
            if c == Category::One {
                assert(cs[0] == c);
            } else if c == Category::Few {
                assert(cs[1] == c);
            } else {
                assert(cs[2] == c);
            }
        },
    }
}

/// A counted message whose wanted variant is missing falls back to its
/// `.other` form rather than vanishing.
pub proof fn a_missing_variant_falls_back_to_other(
    es: Entries,
    rule: PluralRule,
    key: Seq<char>,
    n: nat,
    v: Seq<char>,
)
    requires
        lookup(es, variant_key(key, category_of(rule, n))) == None::<Seq<char>>,
        lookup(es, variant_key(key, Category::Other)) == Some(v),
    ensures
        plural_lookup(es, rule, key, n) == Some(v),
{
}

/// One language file, parsed.
#[derive(Debug, Clone)]
pub struct Catalogue {
    /// The language tag: `en`, `fr`, `pt-BR`. Matched case-insensitively.
    pub code: String,
    /// The language's name in that language, so the picker reads "Français".
    pub name: String,
    pub plural: PluralRule,
    /// Sorted by key, each key once.
    pub entries: Vec<(String, String)>,
    pub problems: Vec<Problem>,
}

pub open spec fn problems_view(ps: Seq<Problem>) -> Seq<(int, Seq<char>)> {
    Seq::new(ps.len(), |i: int| (ps[i].line as int, ps[i].what@))
}

impl Catalogue {
    /// The catalogue as plain values.
    pub open spec fn view(&self) -> CatalogueView {
        CatalogueView {
            code: self.code@,
            name: self.name@,
            plural: self.plural,
            entries: pairs_view(self.entries@),
            problems: problems_view(self.problems@),
        }
    }

    /// An empty catalogue: no code, no name, no entries.
    pub fn empty() -> (c: Catalogue)
        ensures
            c.view() == (CatalogueView {
                code: Seq::empty(),
                name: Seq::empty(),
                plural: PluralRule::OneOther,
                entries: Seq::empty(),
                problems: Seq::empty(),
            }),
    {
        let c = Catalogue {
            code: String::new(),
            name: String::new(),
            plural: PluralRule::OneOther,
            entries: Vec::new(),
            problems: Vec::new(),
        };
        assert(c.view().entries =~= Seq::<(Seq<char>, Seq<char>)>::empty());
        assert(c.view().problems =~= Seq::<(int, Seq<char>)>::empty());
        c
    }
}

impl Default for Catalogue {
    fn default() -> (c: Self)
        ensures
            c.view() == (CatalogueView {
                code: Seq::empty(),
                name: Seq::empty(),
                plural: PluralRule::OneOther,
                entries: Seq::empty(),
                problems: Seq::empty(),
            }),
    {
        Catalogue::empty()
    }
}

/// Index of the first entry under `key`, if any.
fn entry_index(entries: &Vec<(String, String)>, key: &Vec<char>) -> (r: Option<usize>)
    ensures
        match r {
            Some(i) => first_index(pairs_view(entries@), key@) == Some(i as int),
            None => first_index(pairs_view(entries@), key@) == None::<int>,
        },
{
    let ghost es = pairs_view(entries@);
    let mut i: usize = 0;
    while i < entries.len()
        invariant
            i <= entries.len(),
            es == pairs_view(entries@),
            forall|j: int| 0 <= j < i ==> es[j].0 != key@,
        decreases entries.len() - i,
    {
        let k = chars_of(entries[i].0.as_str());
        if same_chars(&k, key) {
            assert(es[i as int].0 == key@);
            proof {
                lemma_first_index(es, key@);
            }
            return Some(i);
        }
        i += 1;
    }
    proof {
        lemma_first_index(es, key@);
    }
    None
}

/// The parser's working state.
struct Parser {
    entries: Vec<(String, String)>,
    problems: Vec<Problem>,
    last_key: Option<Vec<char>>,
}

impl Parser {
    spec fn state(&self) -> ParseState {
        ParseState {
            entries: pairs_view(self.entries@),
            problems: problems_view(self.problems@),
            last_key: match self.last_key {
                Some(k) => Some(k@),
                None => None,
            },
        }
    }

    fn problem(&mut self, line: usize, what: String)
        ensures
            final(self).state() == (ParseState {
                problems: old(self).state().problems.push((line as int, what@)),
                ..old(self).state()
            }),
    {
        self.problems.push(Problem { line, what });
        assert(problems_view(self.problems@) =~= problems_view(old(self).problems@).push(
            (line as int, what@),
        ));
    }

    /// Index of the entry under `key`, if any.
    fn position(&self, key: &Vec<char>) -> (r: Option<usize>)
        ensures
            match r {
                Some(i) => first_index(pairs_view(self.entries@), key@) == Some(i as int),
                None => first_index(pairs_view(self.entries@), key@) == None::<int>,
            },
    {
        entry_index(&self.entries, key)
    }

    /// Add `more` to the value under `key`.
    fn append(&mut self, key: &Vec<char>, more: &Vec<char>)
        ensures
            final(self).state() == (ParseState {
                entries: append_to(old(self).state().entries, key@, more@),
                ..old(self).state()
            }),
    {
        proof {
            lemma_first_index(pairs_view(self.entries@), key@);
        }
        match self.position(key) {
            Some(i) => {
                let old_value = self.entries[i].1.clone();
                let old_key = self.entries[i].0.clone();
                let mut value = old_value;
                push_all(&mut value, more);
                self.entries.set(i, (old_key, value));
                proof {
                    let es = pairs_view(old(self).entries@);
                    lemma_first_index(es, key@);
                    assert(pairs_view(self.entries@) =~= es.update(
                        i as int,
                        (key@, es[i as int].1 + more@),
                    ));
                }
            },
            None => {},
        }
    }

    /// Put `value` under `key`, saying whether it replaced one.
    fn put(&mut self, key: &Vec<char>, value: &Vec<char>) -> (existed: bool)
        ensures
            (pairs_view(final(self).entries@), existed) == put(
                pairs_view(old(self).entries@),
                key@,
                value@,
            ),
            final(self).problems == old(self).problems,
            final(self).last_key == old(self).last_key,
    {
        let ghost es = pairs_view(self.entries@);
        proof {
            lemma_insert_at(es, key@);
        }
        let mut i: usize = 0;
        assert(es.skip(0) =~= es);
        while i < self.entries.len() && chars_lt(&chars_of(self.entries[i].0.as_str()), key)
            invariant
                i <= self.entries.len(),
                es == pairs_view(self.entries@),
                es == pairs_view(old(self).entries@),
                self.problems == old(self).problems,
                self.last_key == old(self).last_key,
                insert_at(es, key@) == i + insert_at(es.skip(i as int), key@),
            decreases self.entries.len() - i,
        {
            assert(es.skip(i as int)[0] == es[i as int]);
            assert(es.skip(i as int).drop_first() =~= es.skip(i + 1));
            i += 1;
        }
        if i < self.entries.len() {
            assert(es.skip(i as int)[0] == es[i as int]);
        }
        assert(insert_at(es, key@) == i);
        let k = string_of(key);
        let v = string_of(value);
        if i < self.entries.len() && str_is(self.entries[i].0.as_str(), key) {
            self.entries.set(i, (k, v));
            assert(pairs_view(self.entries@) =~= es.update(i as int, (key@, value@)));
            true
        } else {
            self.entries.insert(i, (k, v));
            assert(pairs_view(self.entries@) =~= es.insert(i as int, (key@, value@)));
            false
        }
    }

    /// Read one line.
    fn line(&mut self, line: usize, raw: &Vec<char>)
        ensures
            final(self).state() == step(old(self).state(), line as int, raw@),
    {
        let t = trimmed(raw);
        if t.len() == 0 {
            self.last_key = None;
            assert(self.state().entries == old(self).state().entries);
            assert(self.state().problems == old(self).state().problems);
            assert(self.state().last_key == step(old(self).state(), line as int, raw@).last_key);
            assert(self.state() == step(old(self).state(), line as int, raw@));
            return;
        }
        if t[0] == '#' {
            return;
        }
        if t[0] == '"' {
            match &self.last_key {
                None => {
                    self.problem(line, "a continued line with no entry above it to continue".to_owned());
                },
                Some(key) => {
                    let key = slice_of(key, 0, key.len());
                    assert(key@ =~= old(self).state().last_key->0);
                    match read_value_of(&t) {
                        Ok(more) => {
                            self.append(&key, &more);
                        },
                        Err(what) => {
                            self.problem(line, what);
                        },
                    }
                },
            }
            return;
        }
        let at = find_char_from(&t, 0, '=');
        assert(t@.skip(0) =~= t@);
        if at == t.len() {
            self.problem(line, "no `=`, so this is neither a comment nor an entry".to_owned());
            self.last_key = None;
            return;
        }
        let before = slice_of(&t, 0, at);
        assert(before@ =~= t@.take(at as int));
        let key = trimmed(&before);
        if let Some(bad) = first_bad_key_char(&key) {
            let mut e = String::new();
            e.push('`');
            e.push(bad);
            e.append("` cannot appear in a key");
            assert(e@ =~= msg_bad_key_char(bad));
            self.problem(line, e);
            self.last_key = None;
            return;
        }
        let after = slice_of(&t, at + 1, t.len());
        assert(after@ =~= t@.skip(at + 1));
        let rest = trimmed(&after);
        match read_value_of(&rest) {
            Ok(value) => {
                let existed = self.put(&key, &value);
                if existed {
                    let mut e = String::new();
                    e.push('`');
                    push_all(&mut e, &key);
                    e.append("` was already given a value further up");
                    assert(e@ =~= msg_given_twice(key@));
                    self.problem(line, e);
                }
                self.last_key = Some(key);
            },
            Err(what) => {
                self.problem(line, what);
                self.last_key = None;
            },
        }
    }

    /// Take the value under `name` out of the entries.
    fn take(&mut self, name: &str) -> (v: String)
        ensures
            (pairs_view(final(self).entries@), v@) == take_out(
                pairs_view(old(self).entries@),
                name@,
            ),
            final(self).problems == old(self).problems,
    {
        let key = chars_of(name);
        proof {
            lemma_first_index(pairs_view(self.entries@), key@);
        }
        match self.position(&key) {
            Some(i) => {
                let (_, value) = self.entries.remove(i);
                proof {
                    let es = pairs_view(old(self).entries@);
                    assert(pairs_view(self.entries@) =~= es.remove(i as int));
                }
                value
            },
            None => String::new(),
        }
    }
}

/// The lines of a text, as `str::lines` gives them.
fn lines_of(text: &Vec<char>) -> (ls: Vec<Vec<char>>)
    ensures
        ls@.len() == lines(text@).len(),
        forall|i: int| 0 <= i < ls@.len() ==> (#[trigger] ls@[i])@ == lines(text@)[i],
{
    let mut newline: Vec<char> = Vec::new();
    newline.push('\n');
    assert(newline@ =~= seq!['\n']);
    let pieces = split_on_of(text, &newline);
    let ghost sp = split_on(text@, seq!['\n']);
    proof {
        crate::strings::lemma_split_on_nonempty(text@, seq!['\n']);
    }
    let kept_len = if pieces[pieces.len() - 1].len() == 0 {
        pieces.len() - 1
    } else {
        pieces.len()
    };
    let mut out: Vec<Vec<char>> = Vec::new();
    let mut i: usize = 0;
    while i < kept_len
        invariant
            i <= kept_len <= pieces.len(),
            sp == split_on(text@, seq!['\n']),
            pieces@.len() == sp.len(),
            forall|k: int| 0 <= k < pieces@.len() ==> (#[trigger] pieces@[k])@ == sp[k],
            kept_len == lines(text@).len(),
            out@.len() == i,
            forall|k: int| 0 <= k < i ==> (#[trigger] out@[k])@ == lines(text@)[k],
        decreases kept_len - i,
    {
        let p = &pieces[i];
        let line = if i + 1 < pieces.len() && p.len() > 0 && p[p.len() - 1] == '\r' {
            slice_of(p, 0, p.len() - 1)
        } else {
            slice_of(p, 0, p.len())
        };
        proof {
            let kept = if sp.last().len() == 0 {
                sp.drop_last()
            } else {
                sp
            };
            if sp.last().len() == 0 {
                assert(kept[i as int] == sp[i as int]);
            }
            assert(kept[i as int] == sp[i as int]);
            assert(line@ =~= lines(text@)[i as int]);
        }
        out.push(line);
        i += 1;
    }
    out
}

impl Catalogue {
    /// Reads a language file. Never fails: whatever could not be understood
    /// ends up in [`Catalogue::problems`].
    pub fn parse(text: &str) -> (c: Catalogue)
        ensures
            c.view() == parsed(text@),
            c.wf(),
    {
        let chars = chars_of(text);
        let ls = lines_of(&chars);
        let ghost sl = lines(text@);
        let mut p = Parser { entries: Vec::new(), problems: Vec::new(), last_key: None };
        assert(p.state().entries =~= start_state().entries);
        assert(p.state().problems =~= start_state().problems);
        let mut i: usize = 0;
        while i < ls.len()
            invariant
                i <= ls.len(),
                ls@.len() == sl.len(),
                forall|k: int| 0 <= k < ls@.len() ==> (#[trigger] ls@[k])@ == sl[k],
                p.state() == run(sl.take(i as int)),
            decreases ls.len() - i,
        {
            assert(sl.take(i + 1).drop_last() =~= sl.take(i as int));
            assert(sl.take(i + 1).last() == ls@[i as int]@);
            p.line(i + 1, &ls[i]);
            i += 1;
        }
        assert(sl.take(ls.len() as int) =~= sl);
        let code = p.take("code");
        let name = p.take("name");
        let plural_name = p.take("plural");
        let ghost st = run(sl);
        let pn = chars_of(plural_name.as_str());
        let tpn = trimmed(&pn);
        let plural = if tpn.len() == 0 {
            PluralRule::OneOther
        } else {
            match PluralRule::parse(plural_name.as_str()) {
                Some(rule) => rule,
                None => {
                    let mut e = String::new();
                    e.append("`plural = \"");
                    e.append(plural_name.as_str());
                    e.append("\"` is not a rule this app knows; using one-and-other");
                    assert(e@ =~= msg_unknown_rule(plural_name@));
                    p.problem(0, e);
                    PluralRule::OneOther
                },
            }
        };
        let c = Catalogue {
            code,
            name,
            plural,
            entries: p.entries,
            problems: p.problems,
        };
        assert(c.view() == parsed(text@));
        proof {
            parsed_entries_are_unique_and_headerless(text@);
        }
        c
    }

    /// Whether the entries are in key order with each key once, as every
    /// catalogue this module builds is.
    pub open spec fn wf(&self) -> bool {
        sorted_keys(self.view().entries)
    }

    /// The value under `key`, if the file gave one.
    pub fn get(&self, key: &str) -> (r: Option<&str>)
        ensures
            match r {
                Some(v) => lookup(self.view().entries, key@) == Some(v@),
                None => lookup(self.view().entries, key@) == None::<Seq<char>>,
            },
    {
        let k = chars_of(key);
        proof {
            lemma_first_index(pairs_view(self.entries@), k@);
        }
        match entry_index(&self.entries, &k) {
            Some(i) => Some(self.entries[i].1.as_str()),
            None => None,
        }
    }

    /// Whether the file gave a value under `key`.
    pub fn contains(&self, key: &str) -> (r: bool)
        ensures
            r == lookup(self.view().entries, key@) is Some,
    {
        self.get(key).is_some()
    }

    /// Every key, in order.
    pub fn keys(&self) -> (ks: Vec<String>)
        ensures
            ks@.len() == self.view().entries.len(),
            forall|i: int| 0 <= i < ks@.len() ==> (#[trigger] ks@[i])@ == self.view().entries[i].0,
    {
        let mut ks: Vec<String> = Vec::new();
        let mut i: usize = 0;
        while i < self.entries.len()
            invariant
                i <= self.entries.len(),
                ks@.len() == i,
                forall|j: int| 0 <= j < i ==> (#[trigger] ks@[j])@ == self.entries@[j].0@,
            decreases self.entries.len() - i,
        {
            ks.push(self.entries[i].0.clone());
            i += 1;
        }
        ks
    }

    /// Whether the file gave no entries at all (the header does not count).
    pub fn is_empty(&self) -> (r: bool)
        ensures
            r == (self.view().entries.len() == 0),
    {
        self.entries.len() == 0
    }

    /// The value for a counted key, choosing the variant this language's rule
    /// calls for and falling back along the way rather than giving up: a file
    /// that supplies only `.other` still says something sensible.
    pub fn plural_get(&self, key: &str, n: u64) -> (r: Option<&str>)
        ensures
            match r {
                Some(v) => plural_lookup(self.view().entries, self.plural, key@, n as nat) == Some(v@),
                None => plural_lookup(self.view().entries, self.plural, key@, n as nat) == None::<Seq<char>>,
            },
    {
        let wanted = self.plural.category(n);
        let base = chars_of(key);
        let first = self.variant(&base, wanted);
        if first.is_some() {
            return first;
        }
        let other = self.variant(&base, Category::Other);
        if other.is_some() {
            return other;
        }
        let many = self.variant(&base, Category::Many);
        if many.is_some() {
            return many;
        }
        self.variant(&base, Category::One)
    }

    /// The value under `key.suffix` for one category.
    fn variant(&self, key: &Vec<char>, c: Category) -> (r: Option<&str>)
        ensures
            match r {
                Some(v) => lookup(self.view().entries, variant_key(key@, c)) == Some(v@),
                None => lookup(self.view().entries, variant_key(key@, c)) == None::<Seq<char>>,
            },
    {
        let mut full = slice_of(key, 0, key.len());
        full.push('.');
        push_str_chars(&mut full, c.suffix());
        assert(full@ =~= variant_key(key@, c));
        proof {
            lemma_first_index(pairs_view(self.entries@), full@);
        }
        match entry_index(&self.entries, &full) {
            Some(i) => Some(self.entries[i].1.as_str()),
            None => None,
        }
    }
}

// ------------------------------------------------------------------ placeholders

/// The value bound to `name`: that of the first pair under that name.
pub open spec fn bound(vals: Seq<(Seq<char>, Seq<char>)>, name: Seq<char>) -> Option<Seq<char>>
    decreases vals.len(),
{
    if vals.len() == 0 {
        None
    } else if vals[0].0 == name {
        Some(vals[0].1)
    } else {
        bound(vals.drop_first(), name)
    }
}

/// Name and value pairs as plain character sequences.
pub open spec fn bindings(values: Seq<(&str, &str)>) -> Seq<(Seq<char>, Seq<char>)> {
    Seq::new(values.len(), |i: int| (values[i].0@, values[i].1@))
}

/// Whether `t` opens with the two characters `c`, `c`.
pub open spec fn doubled(t: Seq<char>, c: char) -> bool {
    t.len() >= 2 && t[0] == c && t[1] == c
}

/// A template with each `{name}` replaced by the value bound to it. A name
/// with nothing bound is left standing, braces and all; `{{` and `}}` write
/// one brace each.
pub open spec fn filled(t: Seq<char>, vals: Seq<(Seq<char>, Seq<char>)>) -> Seq<char>
    decreases t.len(),
{
    if t.len() == 0 {
        Seq::empty()
    } else if doubled(t, '{') {
        seq!['{'] + filled(t.skip(2), vals)
    } else if doubled(t, '}') {
        seq!['}'] + filled(t.skip(2), vals)
    } else if t[0] == '{' {
        let rest = t.drop_first();
        match find_char(rest, '}') {
            Some(j) => {
                proof {
                    lemma_find_char(rest, '}');
                }
                let name = rest.take(j as int);
                let shown = match bound(vals, name) {
                    Some(v) => v,
                    None => seq!['{'] + name + seq!['}'],
                };
                shown + filled(rest.skip(j as int + 1), vals)
            },
            None => match bound(vals, rest) {
                Some(v) => v,
                None => t,
            },
        }
    } else {
        seq![t[0]] + filled(t.drop_first(), vals)
    }
}

/// Every closed `{name}` in a template, in the order they appear.
pub open spec fn placeholder_names(t: Seq<char>) -> Seq<Seq<char>>
    decreases t.len(),
{
    if t.len() == 0 {
        Seq::empty()
    } else if doubled(t, '{') || doubled(t, '}') {
        placeholder_names(t.skip(2))
    } else if t[0] == '{' {
        let rest = t.drop_first();
        match find_char(rest, '}') {
            Some(j) => {
                proof {
                    lemma_find_char(rest, '}');
                }
                seq![rest.take(j as int)] + placeholder_names(rest.skip(j as int + 1))
            },
            None => Seq::empty(),
        }
    } else {
        placeholder_names(t.drop_first())
    }
}

/// Index of the first pair named `name`, if any.
fn bound_index(values: &[(&str, &str)], name: &Vec<char>) -> (r: Option<usize>)
    ensures
        match r {
            Some(k) => k < values@.len() && bound(bindings(values@), name@) == Some(
                values@[k as int].1@,
            ),
            None => bound(bindings(values@), name@) == None::<Seq<char>>,
        },
{
    let ghost vals = bindings(values@);
    let mut k: usize = 0;
    assert(vals.skip(0) =~= vals);
    while k < values.len()
        invariant
            k <= values@.len(),
            vals == bindings(values@),
            bound(vals, name@) == bound(vals.skip(k as int), name@),
        decreases values@.len() - k,
    {
        assert(vals.skip(k as int)[0] == vals[k as int]);
        if str_is(values[k].0, name) {
            return Some(k);
        }
        assert(vals.skip(k as int).drop_first() =~= vals.skip(k + 1));
        k += 1;
    }
    None
}

/// Substitutes `{name}` for each supplied value.
///
/// A placeholder with nothing bound to it is left standing rather than
/// blanked, so the mistake shows up as `{name}` in the interface. `{{` and
/// `}}` write literal braces.
pub fn fill(template: &str, values: &[(&str, &str)]) -> (out: String)
    ensures
        out@ == filled(template@, bindings(values@)),
{
    let t = chars_of(template);
    let ghost vals = bindings(values@);
    let mut out = String::new();
    let mut i: usize = 0;
    assert(t@.skip(0) =~= t@);
    assert(out@ + filled(t@, vals) =~= filled(t@, vals));
    while i < t.len()
        invariant
            i <= t.len(),
            vals == bindings(values@),
            out@ + filled(t@.skip(i as int), vals) == filled(template@, vals),
            t@ == template@,
        decreases t.len() - i,
    {
        let ghost s = t@.skip(i as int);
        let ghost before = out@;
        let c = t[i];
        assert(s[0] == c);
        if i + 1 < t.len() {
            assert(s[1] == t@[i + 1]);
            assert(s.skip(2) =~= t@.skip(i + 2));
        }
        if c == '{' && i + 1 < t.len() && t[i + 1] == '{' {
            out.push('{');
            i += 2;
            assert(out@ + filled(t@.skip(i as int), vals) =~= before + filled(s, vals));
        } else if c == '}' && i + 1 < t.len() && t[i + 1] == '}' {
            out.push('}');
            i += 2;
            assert(out@ + filled(t@.skip(i as int), vals) =~= before + filled(s, vals));
        } else if c == '{' {
            let close = find_char_from(&t, i + 1, '}');
            let name = slice_of(&t, i + 1, close);
            let ghost rest = s.drop_first();
            assert(rest =~= t@.skip(i + 1));
            proof {
                lemma_find_char(rest, '}');
            }
            if close < t.len() {
                assert(rest.take((close - i - 1) as int) =~= name@);
                assert(rest.skip(close - i) =~= t@.skip(close + 1));
            } else {
                assert(rest =~= name@);
            }
            match bound_index(values, &name) {
                Some(k) => {
                    out.append(values[k].1);
                },
                None => {
                    out.push('{');
                    push_all(&mut out, &name);
                    if close < t.len() {
                        out.push('}');
                    }
                },
            }
            if close < t.len() {
                i = close + 1;
                assert(out@ + filled(t@.skip(i as int), vals) =~= before + filled(s, vals));
            } else {
                i = t.len();
                assert(t@.skip(i as int) =~= Seq::<char>::empty());
                assert(s =~= seq!['{'] + name@);
                assert(out@ + filled(t@.skip(i as int), vals) =~= before + filled(s, vals));
            }
        } else {
            out.push(c);
            i += 1;
            assert(s.drop_first() =~= t@.skip(i as int));
            assert(out@ + filled(t@.skip(i as int), vals) =~= before + filled(s, vals));
        }
    }
    assert(t@.skip(i as int) =~= Seq::<char>::empty());
    assert(out@ + Seq::<char>::empty() =~= out@);
    out
}

/// Every `{name}` in a template, in the order they appear.
pub fn placeholders(template: &str) -> (names: Vec<String>)
    ensures
        names@.len() == placeholder_names(template@).len(),
        forall|k: int| 0 <= k < names@.len() ==> (#[trigger] names@[k])@ == placeholder_names(template@)[k],
{
    let t = chars_of(template);
    let mut names: Vec<String> = Vec::new();
    let mut i: usize = 0;
    assert(t@.skip(0) =~= t@);
    while i < t.len()
        invariant
            i <= t.len(),
            t@ == template@,
            names@.len() + placeholder_names(t@.skip(i as int)).len() == placeholder_names(template@).len(),
            forall|k: int| 0 <= k < names@.len() ==> (#[trigger] names@[k])@ == placeholder_names(template@)[k],
            forall|k: int| 0 <= k < placeholder_names(t@.skip(i as int)).len() ==> placeholder_names(template@)[names@.len() + k] == #[trigger] placeholder_names(t@.skip(i as int))[k],
        decreases t.len() - i,
    {
        let ghost s = t@.skip(i as int);
        let c = t[i];
        assert(s[0] == c);
        if i + 1 < t.len() {
            assert(s[1] == t@[i + 1]);
            assert(s.skip(2) =~= t@.skip(i + 2));
        }
        if (c == '{' || c == '}') && i + 1 < t.len() && t[i + 1] == c {
            i += 2;
        } else if c == '{' {
            let close = find_char_from(&t, i + 1, '}');
            let ghost rest = s.drop_first();
            assert(rest =~= t@.skip(i + 1));
            proof {
                lemma_find_char(rest, '}');
            }
            if close < t.len() {
                let name = slice_of(&t, i + 1, close);
                assert(rest.take((close - i - 1) as int) =~= name@);
                assert(rest.skip(close - i) =~= t@.skip(close + 1));
                let ghost later = placeholder_names(t@.skip(close + 1));
                assert(placeholder_names(s) == seq![name@] + later);
                assert(placeholder_names(s)[0] == name@);
                assert forall|k: int| 0 <= k < later.len() implies #[trigger] later[k] == placeholder_names(s)[k + 1] by {}
                names.push(string_of(&name));
                i = close + 1;
            } else {
                assert(placeholder_names(s).len() == 0);
                i = t.len();
                assert(t@.skip(i as int) =~= Seq::<char>::empty());
            }
        } else {
            i += 1;
            assert(s.drop_first() =~= t@.skip(i as int));
        }
    }
    assert(t@.skip(i as int) =~= Seq::<char>::empty());
    names
}

/// Whether `t` holds `{{` or `}}` starting at `k`.
pub open spec fn braces_at(t: Seq<char>, k: int) -> bool {
    (t[k] == '{' && t[k + 1] == '{') || (t[k] == '}' && t[k + 1] == '}')
}

/// Whether `t` holds `{{` or `}}` anywhere.
pub open spec fn has_doubled_brace(t: Seq<char>) -> bool {
    exists|k: int| 0 <= k < t.len() - 1 && #[trigger] braces_at(t, k)
}

/// With nothing bound, a template without doubled braces comes back exactly
/// as written: an unbound placeholder stays visible rather than blanking.
pub proof fn unbound_placeholders_stay_visible(t: Seq<char>)
    requires
        !has_doubled_brace(t),
    ensures
        filled(t, Seq::empty()) == t,
    decreases t.len(),
{
    let vals = Seq::<(Seq<char>, Seq<char>)>::empty();
    if t.len() >= 2 {
        assert(!braces_at(t, 0));
    }
    if t.len() == 0 {
    } else if t[0] == '{' {
        let rest = t.drop_first();
        lemma_find_char(rest, '}');
        match find_char(rest, '}') {
            Some(j) => {
                let tail = rest.skip(j as int + 1);
                assert(!has_doubled_brace(tail)) by {
                    if has_doubled_brace(tail) {
                        let k = choose|k: int| 0 <= k < tail.len() - 1 && braces_at(tail, k);
                        assert(tail[k] == t[k + j + 2] && tail[k + 1] == t[k + j + 3]);
                        assert(braces_at(t, k + j + 2));
                    }
                }
                unbound_placeholders_stay_visible(tail);
                assert(t =~= seq!['{'] + rest.take(j as int) + seq!['}'] + tail);
            },
            None => {},
        }
    } else {
        let tail = t.drop_first();
        assert(!has_doubled_brace(tail)) by {
            if has_doubled_brace(tail) {
                let k = choose|k: int| 0 <= k < tail.len() - 1 && braces_at(tail, k);
                assert(tail[k] == t[k + 1] && tail[k + 1] == t[k + 2]);
                assert(braces_at(t, k + 1));
            }
        }
        unbound_placeholders_stay_visible(tail);
        assert(t =~= seq![t[0]] + tail);
    }
}

/// A closed placeholder whose name is bound is replaced by the value bound
/// to it, whatever text surrounds it in the template.
pub proof fn a_bound_placeholder_is_replaced(
    name: Seq<char>,
    after: Seq<char>,
    vals: Seq<(Seq<char>, Seq<char>)>,
    v: Seq<char>,
)
    requires
        bound(vals, name) == Some(v),
        !name.contains('}'),
        !(name.len() > 0 && name[0] == '{'),
    ensures
        filled(seq!['{'] + name + seq!['}'] + after, vals) == v + filled(after, vals),
{
    let t = seq!['{'] + name + seq!['}'] + after;
    let rest = t.drop_first();
    assert(rest =~= name + seq!['}'] + after);
    lemma_find_char(rest, '}');
    assert(rest[name.len() as int] == '}');
    if name.len() == 0 {
        assert(t[1] == '}');
    } else {
        assert(t[1] == name[0]);
    }
    match find_char(rest, '}') {
        Some(j) => {
            if j < name.len() {
                assert(rest[j as int] == name[j as int]);
                assert(name.contains(name[j as int]));
            }
            assert(j == name.len());
            assert(rest.take(j as int) =~= name);
            assert(rest.skip(j as int + 1) =~= after);
        },
        None => {},
    }
}

} // verus!
