//! The registry, over two small language files written for these tests: the
//! shipped ones are not part of this tree.

use generic_accounting_system::calendar::Date;
use generic_accounting_system::db::NewSpend;
use generic_accounting_system::locale::Locale;
use generic_accounting_system::ui::recorded_message;
use generic_accounting_system::i18n::catalogue::{placeholders, Catalogue};
use generic_accounting_system::i18n::{
    apply_setting, available, builtins_usable, listed_name, catalogues_from_files, current_code, current_name, language_files,
    language_from_tag, normalise, plural, primary, reload, same_code, set_language, text,
    with_language, FileReason, Registry,
};

const EN: &str = r#"
code   = "en"
name   = "English"
plural = "one_other"

# Add New Category
categories.add = "Add New Category"
status.saved = "Saved {format} to {path}."
report.entry_count.one = "{n} entry"
report.entry_count.other = "{n} entries"
"#;

const FR: &str = r#"
code   = "fr"
name   = "Français"
plural = "french"

# Add New Category
categories.add = "Ajouter une catégorie"
# Saved {format} to {path}.
status.saved = "{format} enregistré dans {path}."
report.entry_count.one = "{n} dépense"
report.entry_count.other = "{n} dépenses"
"#;

const EMBEDDED: [&str; 2] = [EN, FR];

fn registry() -> Registry {
    Registry::assemble(&EMBEDDED, (Vec::new(), Vec::new()))
}

#[test]
fn english_is_the_first_embedded_language() {
    let english = Catalogue::parse(EMBEDDED[0]);
    assert_eq!(english.code, "en");
    assert!(!english.is_empty());
    assert_eq!(registry().english().code, "en");
}

#[test]
fn every_embedded_language_parses_without_a_single_problem() {
    for text in EMBEDDED {
        let catalogue = Catalogue::parse(text);
        assert!(catalogue.problems.is_empty(), "{}: {:?}", catalogue.code, catalogue.problems);
        assert!(!catalogue.name.trim().is_empty(), "{} has no name", catalogue.code);
    }
}

#[test]
fn language_codes_are_unique_and_compared_loosely() {
    let codes: Vec<String> = EMBEDDED.iter().map(|text| normalise(&Catalogue::parse(text).code)).collect();
    let mut sorted = codes.clone();
    sorted.sort();
    sorted.dedup();
    assert_eq!(sorted.len(), codes.len(), "two languages share a code");

    assert!(same_code("pt_BR", "PT-br"));
    assert!(!same_code("pt-BR", "pt"));
    assert_eq!(primary("fr-CA"), "fr");
}

#[test]
fn a_regional_code_falls_back_to_the_plain_language() {
    let mut reg = registry();
    with_language(&mut reg, "en", |_| ());
    assert_eq!(set_language(&mut reg, "fr-CA"), "fr");
    assert_eq!(set_language(&mut reg, "fr"), "fr");
    assert_eq!(set_language(&mut reg, "xx"), "en");
}

#[test]
fn a_file_that_cannot_be_used_says_which_and_why() {
    let files = vec![
        ("langs/english.toml".to_owned(), Some("code = \"EN\"\nname = \"English\"\n".to_owned())),
        ("langs/good.toml".to_owned(), Some("code = \"nl\"\nname = \"Nederlands\"\n".to_owned())),
        ("langs/nameless.toml".to_owned(), Some("name = \"Mystery\"\n".to_owned())),
    ];
    let registry = Registry::assemble(&EMBEDDED, catalogues_from_files(files));

    let codes: Vec<&str> = registry.catalogues.iter().map(|c| c.code.as_str()).collect();
    assert_eq!(codes, ["en", "fr", "nl"]);

    let mut said: Vec<(&str, &FileReason)> =
        registry.folder_problems.iter().map(|p| (p.path.rsplit('/').next().unwrap(), &p.reason)).collect();
    said.sort_by_key(|(name, _)| *name);
    assert_eq!(
        said,
        [("english.toml", &FileReason::WouldReplaceEnglish), ("nameless.toml", &FileReason::NoCode)]
    );
}

#[test]
fn a_missing_key_comes_back_as_itself_rather_than_as_blank() {
    let mut reg = registry();
    set_language(&mut reg, "en");
    assert_eq!(text(&reg, "no.such.key.exists", &[]), "no.such.key.exists");
}

#[test]
fn nothing_comes_back_empty_in_another_language() {
    let english = Catalogue::parse(EMBEDDED[0]);
    let mut reg = registry();
    set_language(&mut reg, "fr");
    for key in english.keys() {
        assert!(!text(&reg, key.as_str(), &[]).is_empty(), "`{key}` came back empty in French");
    }
}

#[test]
fn every_translation_keeps_the_placeholders_english_uses() {
    let english = Catalogue::parse(EMBEDDED[0]);
    for text in &EMBEDDED[1..] {
        let other = Catalogue::parse(text);
        for key in other.keys() {
            let (Some(theirs), Some(ours)) = (other.get(&key), english.get(&key)) else {
                continue;
            };
            let mut theirs = placeholders(theirs);
            let mut ours = placeholders(ours);
            theirs.sort();
            theirs.dedup();
            ours.sort();
            ours.dedup();
            assert_eq!(theirs, ours, "{}: `{key}` uses different placeholders from English", other.code);
        }
    }
}

#[test]
fn every_shipped_language_is_complete() {
    let english = Catalogue::parse(EMBEDDED[0]);
    for text in &EMBEDDED[1..] {
        let other = Catalogue::parse(text);
        assert_eq!(other.keys(), english.keys(), "{} differs from English", other.code);
    }
}

// Beyond the registry's own examples.

#[test]
fn an_untranslated_key_falls_back_to_english() {
    let fr_partial = "code = \"fr\"\nname = \"Français\"\ncategories.add = \"Ajouter\"\n";
    let mut reg = Registry::assemble(&[EN, fr_partial], (Vec::new(), Vec::new()));
    set_language(&mut reg, "fr");
    assert_eq!(text(&reg, "categories.add", &[]), "Ajouter");
    assert_eq!(
        text(&reg, "status.saved", &[("format", "CSV".to_owned()), ("path", "~/x".to_owned())]),
        "Saved CSV to ~/x."
    );
}

#[test]
fn counted_words_bind_n_and_follow_the_rule() {
    let mut reg = registry();
    set_language(&mut reg, "fr");
    assert_eq!(plural(&reg, "report.entry_count", 0, &[]), "0 dépense");
    assert_eq!(plural(&reg, "report.entry_count", 2, &[]), "2 dépenses");
    set_language(&mut reg, "en");
    assert_eq!(plural(&reg, "report.entry_count", 1, &[]), "1 entry");
    assert_eq!(plural(&reg, "report.entry_count", 0, &[]), "0 entries");
}

#[test]
fn a_folder_file_replaces_the_language_of_its_code_but_never_english() {
    let files = vec![
        ("l/fr.toml".to_owned(), Some("code = \"FR\"\nname = \"Français 2\"\ncategories.add = \"Nouvelle\"\n".to_owned())),
        ("l/broken.toml".to_owned(), None),
    ];
    let reg = Registry::assemble(&EMBEDDED, catalogues_from_files(files));
    assert_eq!(available(&reg), [
        ("en".to_owned(), "English".to_owned()),
        ("FR".to_owned(), "Français 2".to_owned()),
    ]);
    assert_eq!(reg.folder_problems.len(), 1);
    assert_eq!(reg.folder_problems[0].reason, FileReason::Unreadable);
}

#[test]
fn reloading_keeps_the_language_in_use() {
    let mut reg = registry();
    set_language(&mut reg, "fr");
    assert_eq!(current_name(&reg), "Français");
    assert_eq!(reload(&mut reg, &EMBEDDED, (Vec::new(), Vec::new())), "fr");
    assert_eq!(current_code(&reg), "fr");
}

#[test]
fn auto_follows_the_system_and_falls_back_to_english() {
    let mut reg = registry();
    assert_eq!(apply_setting(&mut reg, "AUTO", Some("fr-CA".to_owned())), "fr");
    assert_eq!(apply_setting(&mut reg, " ", None), "en");
    assert_eq!(apply_setting(&mut reg, "fr", Some("en".to_owned())), "fr");
}

#[test]
fn system_tags_lose_their_encoding() {
    assert_eq!(language_from_tag("fr_FR.UTF-8"), Some("fr-FR".to_owned()));
    assert_eq!(language_from_tag("de_DE@euro"), Some("de-DE".to_owned()));
    assert_eq!(language_from_tag("C"), None);
    assert_eq!(language_from_tag("POSIX"), None);
    assert_eq!(language_from_tag(""), None);
}

#[test]
fn only_toml_files_are_read_and_in_order() {
    let paths = vec![
        "d/b.toml".to_owned(),
        "d/notes.txt".to_owned(),
        "d/.toml".to_owned(),
        "d/a.toml".to_owned(),
        "d/c.toml.bak".to_owned(),
    ];
    assert_eq!(language_files(paths), ["d/a.toml", "d/b.toml"]);
}

#[test]
fn a_recorded_entry_says_its_year_only_when_it_is_another() {
    let en = "code = \"en\"\nname = \"English\"\nstatus.recorded = \"Recorded {amount} under {category}.\"\nstatus.recorded_other_year = \"Recorded {amount} under {category}, in {year}.\"\n";
    let reg = Registry::assemble(&[en], (Vec::new(), Vec::new()));
    let uk = Locale::from_tag("en-GB");
    let spend = NewSpend {
        category: "Rent".to_owned(),
        spent_on: Date::from_ymd(2025, 12, 31).unwrap(),
        amount_minor: 95_000,
        currency: "GBP".to_owned(),
        description: String::new(),
    };
    assert_eq!(recorded_message(&reg, &uk, &spend, 2025), "Recorded £950.00 under Rent.");
    assert_eq!(recorded_message(&reg, &uk, &spend, 2026), "Recorded £950.00 under Rent, in 2025.");
}

#[test]
fn the_languages_on_offer_start_with_english_and_never_repeat_a_language() {
    let files = vec![
        ("l/de.toml".to_owned(), Some("code = \"de\"\nname = \"Deutsch\"\n".to_owned())),
        ("l/de_alt.toml".to_owned(), Some("code = \"DE\"\nname = \"Deutsch 2\"\n".to_owned())),
        ("l/en.toml".to_owned(), Some("code = \"en\"\nname = \"Not English\"\n".to_owned())),
        ("l/fr_ca.toml".to_owned(), Some("code = \"fr_CA\"\nname = \"Français (Canada)\"\n".to_owned())),
    ];
    let reg = Registry::assemble(&EMBEDDED, catalogues_from_files(files));
    let offered = available(&reg);
    assert_eq!(offered[0], ("en".to_owned(), "English".to_owned()));
    for i in 0..offered.len() {
        for j in i + 1..offered.len() {
            assert!(!same_code(&offered[i].0, &offered[j].0), "{:?} twice", offered[i].0);
        }
    }
    assert_eq!(offered.len(), 4);
}

#[test]
fn built_in_languages_must_start_with_english_and_name_each_language_once() {
    assert!(builtins_usable(&EMBEDDED));
    assert!(!builtins_usable(&[]));
    assert!(!builtins_usable(&[FR, EN]));
    assert!(!builtins_usable(&[EN, FR, "code = \"FR\"\nname = \"Encore\"\n"]));
}

#[test]
fn the_picker_shows_a_languages_own_name_or_the_setting_itself() {
    let offered = available(&registry());
    assert_eq!(listed_name(&offered, "fr"), "Français");
    assert_eq!(listed_name(&offered, "en"), "English");
    assert_eq!(listed_name(&offered, "FR"), "FR");
    assert_eq!(listed_name(&offered, "de"), "de");
}
