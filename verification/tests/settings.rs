//! Paths, the saved configuration, and what the panes make of typed text.

use generic_accounting_system::app::Tab;
use generic_accounting_system::calendar::Date;
use generic_accounting_system::config::{join_path, tilde, tilde_with, untilde, untilde_with, Appearance, Backend, Config};
use generic_accounting_system::i18n::Registry;
use generic_accounting_system::locale::Locale;
use generic_accounting_system::report::Format;
use generic_accounting_system::ui::{file_name, file_url, parse_port, spend_from_fields};

const ENGLISH: &str = r#"
code = "en"
name = "English"
database.bad_port = "The port is a number from 0 to 65535."
spending.choose_a_category = "Choose a category."
spending.description_too_long = "Keep the description to 255 characters."
amount.enter = "Enter an amount."
"#;

fn registry() -> Registry {
    Registry::assemble(&[ENGLISH], (Vec::new(), Vec::new()))
}

fn home() -> Option<String> {
    dirs::home_dir().map(|p| p.to_string_lossy().into_owned())
}

/// What the status bar shows has to be something the Database tab will take
/// back, or the app is telling the user a path it cannot then open.
#[test]
fn a_displayed_path_can_be_typed_back_in() {
    let Some(home) = home() else {
        return;
    };
    let path = join_path(&join_path(&home, "Somewhere"), "accounts.sqlite");

    let shown = tilde(&path);
    assert!(shown.starts_with("~/"), "{shown}");
    assert_eq!(untilde(&shown), path);
}

#[test]
fn other_paths_are_left_exactly_as_they_are() {
    for untouched in ["/var/db/accounts.sqlite", "accounts.sqlite", "~user/db"] {
        assert_eq!(untilde(untouched), untouched);
    }
}

#[test]
fn a_given_home_is_used_both_ways() {
    let home = Some("/home/sam".to_owned());
    assert_eq!(tilde_with("/home/sam/books/a.db", home.clone()), "~/books/a.db");
    assert_eq!(tilde_with("/home/samuel/a.db", home.clone()), "/home/samuel/a.db");
    assert_eq!(untilde_with("~/books/a.db", home.clone()), "/home/sam/books/a.db");
    assert_eq!(untilde_with("~/books/a.db", None), "~/books/a.db");
    assert_eq!(untilde_with("~sam/a.db", home), "~sam/a.db");
}

/// The two shapes that were wrong before: a Windows path, whose drive letter
/// was being read as a host name, and the default macOS folder, whose space
/// ended the URL early.
#[test]
fn a_folder_becomes_a_url_its_platform_will_open() {
    assert_eq!(
        file_url(r"C:\Users\sam\AppData\Roaming\GAS\languages"),
        "file:///C:/Users/sam/AppData/Roaming/GAS/languages"
    );
    assert_eq!(
        file_url("/Users/sam/Library/Application Support/GAS"),
        "file:///Users/sam/Library/Application%20Support/GAS"
    );
    assert_eq!(file_url("/a/100%#1?"), "file:///a/100%25%231%3F");
}

#[test]
fn the_saved_configuration_leaves_passwords_out_unless_asked() {
    let mut config = Config::default();
    assert_eq!(config.backend, Backend::Sqlite);
    assert!(config.check_for_updates);
    config.mariadb.password = "one".to_owned();
    config.mssql.password = "two".to_owned();
    let saved = config.to_save();
    assert!(saved.mariadb.password.is_empty());
    assert!(saved.mssql.password.is_empty());

    config.remember_password = true;
    let saved = config.to_save();
    assert_eq!(saved.mariadb.password, "one");
    assert_eq!(saved.mssql.password, "two");
}

#[test]
fn a_set_sqlite_path_is_used_and_otherwise_the_default() {
    let config = Config { sqlite_path: Some("/srv/books.db".to_owned()), ..Config::default() };
    assert_eq!(config.sqlite_path(), "/srv/books.db");
    assert!(Config::default().sqlite_path().ends_with("accounts.sqlite"));
}

#[test]
fn a_port_is_one_number_that_fits() {
    let reg = registry();
    assert_eq!(parse_port(&reg, " 3306 "), Ok(3306));
    assert_eq!(parse_port(&reg, "+1433"), Ok(1433));
    assert_eq!(parse_port(&reg, "65535"), Ok(65535));
    assert_eq!(parse_port(&reg, "65536"), Err("The port is a number from 0 to 65535.".to_owned()));
    assert!(parse_port(&reg, "").is_err());
    assert!(parse_port(&reg, "-1").is_err());
    assert!(parse_port(&reg, "33 06").is_err());
}

#[test]
fn a_spending_entry_is_checked_field_by_field() {
    let reg = registry();
    let uk = Locale::from_tag("en-GB");
    let spend = spend_from_fields(&reg, &uk, "11/08/2026", Some("Rent".to_owned()), "£1,200", "  August  ").unwrap();
    assert_eq!(spend.spent_on, Date::from_ymd(2026, 8, 11).unwrap());
    assert_eq!(spend.category, "Rent");
    assert_eq!(spend.amount_minor, 120_000);
    assert_eq!(spend.currency, "GBP");
    assert_eq!(spend.description, "August");

    assert_eq!(
        spend_from_fields(&reg, &uk, "11/08/2026", None, "12", "").err(),
        Some("Choose a category.".to_owned())
    );
    assert_eq!(
        spend_from_fields(&reg, &uk, "11/08/2026", Some("Rent".to_owned()), " ", "").err(),
        Some("Enter an amount.".to_owned())
    );
    let long = "x".repeat(256);
    assert_eq!(
        spend_from_fields(&reg, &uk, "11/08/2026", Some("Rent".to_owned()), "12", &long).err(),
        Some("Keep the description to 255 characters.".to_owned())
    );
    assert!(spend_from_fields(&reg, &uk, "31/02/2026", Some("Rent".to_owned()), "12", "").is_err());
}

#[test]
fn a_report_is_saved_under_its_year_and_format() {
    assert_eq!(file_name(2026, Format::Csv), "spending-report-2026.csv");
    assert_eq!(file_name(-44, Format::Html), "spending-report--44.html");
}

#[test]
fn every_tab_has_a_title() {
    for tab in Tab::all() {
        assert!(!tab.title().is_empty());
    }
}

// ------------------------------------------------------------------ the Database pane

use generic_accounting_system::db::attempt::Target;
use generic_accounting_system::ui::database::{adopt, target_of, State};

#[test]
fn the_database_form_starts_from_the_saved_configuration() {
    let config = Config { sqlite_path: Some("/srv/books.db".to_owned()), ..Config::default() };
    let state = State::from_config(&config);
    assert_eq!(state.backend, Backend::Sqlite);
    assert_eq!(state.sqlite_path, "/srv/books.db");
    assert_eq!(state.mariadb_port, "3306");
    assert_eq!(state.mssql_port, "1433");
    assert!(state.error.is_none() && state.confirm_create.is_none());
}

#[test]
fn the_form_becomes_something_to_open() {
    let reg = registry();
    let mut state = State::from_config(&Config::default());
    state.sqlite_path = "  /tmp/x.db  ".to_owned();
    assert!(matches!(target_of(&reg, &state), Ok(Target::Sqlite(p)) if p == "/tmp/x.db"));

    state.backend = Backend::MariaDb;
    state.mariadb_port = " 3307 ".to_owned();
    match target_of(&reg, &state) {
        Ok(Target::MariaDb(m)) => {
            assert_eq!(m.port, 3307);
            assert_eq!(m.host, "localhost");
        }
        other => panic!("expected MariaDB, got {other:?}"),
    }
    state.mariadb_port = "lots".to_owned();
    assert_eq!(target_of(&reg, &state).err(), Some("The port is a number from 0 to 65535.".to_owned()));

    state.backend = Backend::MsSql;
    state.mssql_port = "99999".to_owned();
    assert!(target_of(&reg, &state).is_err());
}

#[test]
fn adopting_a_database_saves_the_form_but_keeps_a_good_port() {
    let mut config = Config::default();
    let mut state = State::from_config(&config);
    state.backend = Backend::MsSql;
    state.sqlite_path = " /data/a.db ".to_owned();
    state.mariadb_port = "not a port".to_owned();
    state.mssql_port = "1500".to_owned();
    state.mssql.host = "sql.example".to_owned();
    state.remember_password = true;
    adopt(&mut config, &state);
    assert_eq!(config.backend, Backend::MsSql);
    assert_eq!(config.sqlite_path.as_deref(), Some("/data/a.db"));
    assert_eq!(config.mariadb.port, 3306);
    assert_eq!(config.mssql.port, 1500);
    assert_eq!(config.mssql.host, "sql.example");
    assert!(config.remember_password);
    assert!(config.check_for_updates);
}

#[test]
fn the_saved_configuration_names_a_database_to_open() {
    let mut config = Config { sqlite_path: Some("/srv/books.db".to_owned()), ..Config::default() };
    assert!(matches!(config.target(), Target::Sqlite(p) if p == "/srv/books.db"));
    config.backend = Backend::MariaDb;
    config.mariadb.username = "budget".to_owned();
    match config.target() {
        Target::MariaDb(m) => assert_eq!(m, config.mariadb),
        other => panic!("expected MariaDB, got {other:?}"),
    }
    config.backend = Backend::MsSql;
    assert!(config.target().is_slow());
}

#[test]
fn language_and_appearance_start_on_the_systems_and_are_saved_as_chosen() {
    let mut config = Config::default();
    assert_eq!(config.language, "auto");
    assert_eq!(config.appearance, Appearance::System);
    config.language = "fr".to_owned();
    config.appearance = Appearance::Dark;
    let saved = config.to_save();
    assert_eq!(saved.language, "fr");
    assert_eq!(saved.appearance, Appearance::Dark);
    assert_eq!(Appearance::all().map(Appearance::label), ["System", "Light", "Dark"]);
    assert!(!Appearance::Light.description().is_empty());
    assert_eq!(Tab::all().len(), 6);
    assert_eq!(Tab::Settings.title(), "Settings");
}
