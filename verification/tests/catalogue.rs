use generic_accounting_system::i18n::catalogue::{fill, placeholders, Catalogue, Category, PluralRule};

#[test]
fn a_plain_file_reads_back_as_written() {
    let cat = Catalogue::parse(
        r#"
            code   = "fr"
            name   = "Français"
            plural = "french"

            # Add New Category
            categories.add = "Ajouter une catégorie"
        "#,
    );
    assert_eq!(cat.code, "fr");
    assert_eq!(cat.name, "Français");
    assert_eq!(cat.plural, PluralRule::French);
    assert_eq!(cat.get("categories.add"), Some("Ajouter une catégorie"));
    assert!(cat.problems.is_empty(), "{:?}", cat.problems);
    // The header is not left behind as a translatable entry.
    assert!(!cat.contains("code"));
}

#[test]
fn a_quoted_line_underneath_continues_the_entry_above() {
    let cat = Catalogue::parse(
        r#"
            settings.hint = "The file is created if it is not there yet, "
                            "along with any folders leading to it."
        "#,
    );
    assert_eq!(
        cat.get("settings.hint"),
        Some("The file is created if it is not there yet, along with any folders leading to it.")
    );
    assert!(cat.problems.is_empty(), "{:?}", cat.problems);
}

#[test]
fn a_blank_line_ends_a_continuation() {
    let cat = Catalogue::parse("a = \"one\"\n\n\"stray\"\n");
    assert_eq!(cat.get("a"), Some("one"));
    assert_eq!(cat.problems.len(), 1);
    assert_eq!(cat.problems[0].line, 3);
}

#[test]
fn escapes_and_trailing_comments_are_understood() {
    let cat = Catalogue::parse(r#"a = "line\none\ttabbed \"quoted\" \\ done"   # a trailing note"#);
    assert_eq!(cat.get("a"), Some("line\none\ttabbed \"quoted\" \\ done"));
    assert!(cat.problems.is_empty(), "{:?}", cat.problems);
}

#[test]
fn a_broken_line_does_not_take_the_rest_of_the_file_with_it() {
    let cat = Catalogue::parse("good.one = \"kept\"\nbroken = \"no closing quote\ngood.two = \"also kept\"\n");
    assert_eq!(cat.get("good.one"), Some("kept"));
    assert_eq!(cat.get("good.two"), Some("also kept"));
    assert!(!cat.contains("broken"));
    assert_eq!(cat.problems.len(), 1);
    assert_eq!(cat.problems[0].line, 2);
}

#[test]
fn every_kind_of_malformed_line_is_reported_with_its_number() {
    let cases = [
        ("no equals sign here", "no `=`"),
        ("Key.Upper = \"x\"", "cannot appear in a key"),
        ("a = unquoted", "double quotes"),
        ("a = \"x\" leftover", "left over"),
        ("a = \"bad \\q escape\"", "not an escape"),
    ];
    for (text, expected) in cases {
        let cat = Catalogue::parse(text);
        assert_eq!(cat.problems.len(), 1, "for {text:?}");
        assert!(
            cat.problems[0].what.contains(expected),
            "for {text:?}, got {:?}",
            cat.problems[0].what
        );
    }
}

#[test]
fn a_key_given_twice_is_reported_rather_than_quietly_taking_the_first() {
    let cat = Catalogue::parse("a = \"first\"\na = \"second\"\n");
    assert_eq!(cat.problems.len(), 1);
    assert!(cat.problems[0].what.contains("already given"));
}

#[test]
fn an_unknown_plural_rule_falls_back_and_says_so() {
    let cat = Catalogue::parse("plural = \"klingon\"\na = \"x\"\n");
    assert_eq!(cat.plural, PluralRule::OneOther);
    assert_eq!(cat.problems.len(), 1);
    assert_eq!(cat.get("a"), Some("x"));
}

#[test]
fn plurals_pick_the_variant_the_language_calls_for() {
    assert_eq!(PluralRule::OneOther.category(0), Category::Other);
    assert_eq!(PluralRule::OneOther.category(1), Category::One);
    assert_eq!(PluralRule::OneOther.category(2), Category::Other);

    assert_eq!(PluralRule::French.category(0), Category::One);
    assert_eq!(PluralRule::French.category(1), Category::One);
    assert_eq!(PluralRule::French.category(2), Category::Other);

    assert_eq!(PluralRule::Polish.category(1), Category::One);
    assert_eq!(PluralRule::Polish.category(3), Category::Few);
    assert_eq!(PluralRule::Polish.category(5), Category::Many);
    assert_eq!(PluralRule::Polish.category(13), Category::Many);
    assert_eq!(PluralRule::Polish.category(22), Category::Few);

    assert_eq!(PluralRule::Russian.category(21), Category::One);
    assert_eq!(PluralRule::Russian.category(11), Category::Many);
    assert_eq!(PluralRule::Russian.category(2), Category::Few);
}

#[test]
fn a_counted_message_chooses_by_the_number() {
    let cat = Catalogue::parse("n.one = \"{n} word\"\nn.other = \"{n} words\"\n");
    assert_eq!(cat.plural_get("n", 1), Some("{n} word"));
    assert_eq!(cat.plural_get("n", 4), Some("{n} words"));
}

#[test]
fn a_missing_variant_falls_back_instead_of_vanishing() {
    let cat = Catalogue::parse("n.other = \"{n} words\"\n");
    assert_eq!(cat.plural_get("n", 1), Some("{n} words"));
    assert_eq!(cat.plural_get("missing", 1), None);
}

#[test]
fn placeholders_are_substituted_by_name() {
    assert_eq!(
        fill("Saved {format} to {path}.", &[("format", "CSV"), ("path", "~/Documents")]),
        "Saved CSV to ~/Documents."
    );
}

#[test]
fn a_translation_may_reorder_the_values() {
    let values = [("format", "CSV"), ("path", "~/Documents")];
    assert_eq!(fill("{format} enregistré dans {path}.", &values), "CSV enregistré dans ~/Documents.");
}

#[test]
fn an_unbound_placeholder_stays_visible_rather_than_blanking() {
    assert_eq!(fill("Saved {path}.", &[]), "Saved {path}.");
    assert_eq!(fill("Saved {unterminated", &[]), "Saved {unterminated");
}

#[test]
fn doubled_braces_write_one_brace() {
    assert_eq!(fill("{{n}} is {n}", &[("n", "3")]), "{n} is 3");
    assert!(placeholders("{{n}}").is_empty());
}

#[test]
fn placeholders_are_listed_in_order() {
    assert_eq!(placeholders("{format} saved as {path}, {path} again"), ["format", "path", "path"]);
}

// Beyond the file format's own examples.

#[test]
fn each_category_a_rule_picks_is_one_it_asks_for() {
    for rule in [PluralRule::OneOther, PluralRule::French, PluralRule::Polish, PluralRule::Russian] {
        for n in 0..200u64 {
            assert!(rule.categories().contains(&rule.category(n)), "{rule:?} {n}");
        }
    }
}

#[test]
fn keys_come_out_in_order_each_once() {
    let cat = Catalogue::parse("b = \"2\"\na = \"1\"\nc = \"3\"\na = \"again\"\n");
    assert_eq!(cat.keys(), ["a", "b", "c"]);
    assert_eq!(cat.get("a"), Some("again"));
    assert!(!cat.is_empty());
    assert!(Catalogue::parse("code = \"xx\"\n").is_empty());
}

#[test]
fn the_first_value_bound_to_a_name_wins() {
    assert_eq!(fill("{a}", &[("a", "1"), ("a", "2")]), "1");
    assert_eq!(fill("}x{", &[]), "}x{");
    assert_eq!(fill("}}", &[]), "}");
}

#[test]
fn suffixes_are_the_cldr_names() {
    assert_eq!(Category::One.suffix(), "one");
    assert_eq!(Category::Few.suffix(), "few");
    assert_eq!(Category::Many.suffix(), "many");
    assert_eq!(Category::Other.suffix(), "other");
}

#[test]
fn each_problem_has_its_own_message() {
    let cases = [
        ("\"alone\"", "a continued line with no entry above it to continue"),
        ("a = \"x\\", "the line ends in a backslash"),
        ("a = \"x", "the closing quote is missing"),
        ("a = \"x\" # fine\nb = \"y\" z", "`z` is left over after the closing quote"),
    ];
    for (text, expected) in cases {
        let cat = Catalogue::parse(text);
        assert_eq!(cat.problems.len(), 1, "for {text:?}");
        assert_eq!(cat.problems[0].what, expected);
    }
    let cat = Catalogue::parse("plural = \"klingon\"\n");
    assert_eq!(cat.problems[0].line, 0);
    assert_eq!(cat.problems[0].what, "`plural = \"klingon\"` is not a rule this app knows; using one-and-other");
}

#[test]
fn a_line_without_equals_adds_one_problem_and_changes_nothing_else() {
    let base = "code = \"de\"\nname = \"Deutsch\"\nplural = \"one_other\"\nmenu.file = \"Datei\"\nbroken line here\n";
    let a = Catalogue::parse(base);
    let extended = format!("{base}no equals sign here\n");
    let b = Catalogue::parse(&extended);
    assert_eq!(b.code, a.code);
    assert_eq!(b.name, a.name);
    assert_eq!(b.plural, a.plural);
    assert_eq!(b.keys(), a.keys());
    assert_eq!(b.get("menu.file"), a.get("menu.file"));
    assert_eq!(b.problems.len(), a.problems.len() + 1);
    let n = base.lines().count();
    assert!(b.problems.iter().any(|p| p.line == n + 1 && p.what.contains("no `=`")));
}

#[test]
fn parsed_keys_use_only_key_characters() {
    let cat = Catalogue::parse(
        "menu.file = \"Datei\"\nMenu.Edit = \"Bearbeiten\"\nsave_as.2 = \"Speichern\"\nbad key = \"x\"\n",
    );
    let keys = cat.keys();
    assert_eq!(keys, vec!["menu.file".to_string(), "save_as.2".to_string()]);
    for k in keys {
        assert!(k
            .chars()
            .all(|ch| ch.is_ascii_lowercase() || ch.is_ascii_digit() || ch == '.' || ch == '_'));
    }
}
