//! What is decided about a database before any connection is made.

use generic_accounting_system::db::attempt::{Purpose, Target};
use generic_accounting_system::db::mariadb::{self, MariaDbSettings};
use generic_accounting_system::db::mssql::{self, MsSqlSettings};
use generic_accounting_system::calendar::Date;
use generic_accounting_system::db::upgrade::{upgrade_start, upgrade_step, Dialect, Upgrade, UpgradeAction, UpgradeEvent};
use generic_accounting_system::db::{
    category_found, clean_category_name, name_free, parse_stored_date, rename_allowed, sqlite, CategoryRefusal, Error,
};
use generic_accounting_system::i18n::Registry;

const ENGLISH: &str = r#"
code = "en"
name = "English"
database.needs_host = "Enter the server's host name."
database.needs_name = "Enter the database name."
database.needs_user = "Enter the user name."
category.needs_a_name = "Give the category a name."
category.name_too_long = "Keep category names to 64 characters or fewer."
category.no_such = "There is no category called “{name}”."
category.already_exists = "“{name}” is already a category."
database.bad_stored_date = "A stored date is not a date: {date}"
"#;

fn registry() -> Registry {
    Registry::assemble(&[ENGLISH], (Vec::new(), Vec::new()))
}

// ------------------------------------------------------------------ MariaDB

/// The three fields with no sensible default are checked before any network
/// call, so a half-filled form fails immediately and says which box is empty.
#[test]
fn mariadb_incomplete_settings_are_refused_before_dialling_out() {
    let reg = registry();
    let good = MariaDbSettings { username: "budget".to_owned(), ..Default::default() };
    assert!(good.opts(&reg).is_ok());

    for missing in [
        MariaDbSettings { host: "  ".to_owned(), ..good.clone() },
        MariaDbSettings { database: String::new(), ..good.clone() },
        MariaDbSettings { username: String::new(), ..good.clone() },
    ] {
        assert!(matches!(missing.opts(&reg), Err(Error::Rejected(_))), "should have been refused: {missing:?}");
    }
}

#[test]
fn mariadb_tls_is_off_unless_asked_for() {
    let reg = registry();
    let settings = MariaDbSettings { username: "budget".to_owned(), ..Default::default() };
    assert!(!settings.use_tls);
    assert!(!settings.tls_skip_verify);
    assert!(settings.opts(&reg).unwrap().tls.is_none());
}

/// A server certificate issued in-house is only trusted if its authority's
/// path is carried through to the driver.
#[test]
fn an_in_house_authority_reaches_the_driver() {
    let reg = registry();
    let settings = MariaDbSettings {
        username: "budget".to_owned(),
        use_tls: true,
        ca_cert_path: "  /etc/ssl/company-ca.pem  ".to_owned(),
        ..Default::default()
    };
    let opts = settings.opts(&reg).unwrap();
    let tls = opts.tls.expect("TLS was asked for");
    assert_eq!(tls.root_cert_path.as_deref(), Some("/etc/ssl/company-ca.pem"), "the path should arrive trimmed");
}

/// Left blank it must stay absent rather than becoming an empty path the
/// driver then fails to open.
#[test]
fn no_authority_named_means_none_is_sent() {
    let reg = registry();
    let settings = MariaDbSettings {
        username: "budget".to_owned(),
        use_tls: true,
        ca_cert_path: "   ".to_owned(),
        ..Default::default()
    };
    let opts = settings.opts(&reg).unwrap();
    let tls = opts.tls.expect("TLS was asked for");
    assert_eq!(tls.root_cert_path, None);
}

#[test]
fn mariadb_says_which_box_is_empty_and_trims_the_rest() {
    let reg = registry();
    let blank_host = MariaDbSettings { host: " ".to_owned(), ..Default::default() };
    assert_eq!(blank_host.opts(&reg), Err(Error::Rejected("Enter the server's host name.".to_owned())));
    let blank_user = MariaDbSettings::default();
    assert_eq!(blank_user.opts(&reg), Err(Error::Rejected("Enter the user name.".to_owned())));

    let settings = MariaDbSettings {
        host: " db.example ".to_owned(),
        username: " budget ".to_owned(),
        password: " secret ".to_owned(),
        use_tls: true,
        tls_skip_verify: true,
        ..Default::default()
    };
    let opts = settings.opts(&reg).unwrap();
    assert_eq!(opts.host, "db.example");
    assert_eq!(opts.port, 3306);
    assert_eq!(opts.database, "accounts");
    assert_eq!(opts.username, "budget");
    assert_eq!(opts.password, " secret ");
    assert!(opts.tls.unwrap().skip_domain_validation);
}

#[test]
fn mariadb_refuses_an_edit_that_changed_nothing() {
    let reg = registry();
    assert!(mariadb::not_found_unless_changed(&reg, 1).is_ok());
    assert!(matches!(mariadb::not_found_unless_changed(&reg, 0), Err(Error::Rejected(_))));
}

// ------------------------------------------------------------------ SQL Server

#[test]
fn mssql_incomplete_settings_are_refused_before_dialling_out() {
    let good = MsSqlSettings { username: "budget".to_owned(), ..Default::default() };
    assert!(good.config().is_ok());

    for missing in [
        MsSqlSettings { host: "  ".to_owned(), ..good.clone() },
        MsSqlSettings { database: String::new(), ..good.clone() },
        MsSqlSettings { username: String::new(), ..good.clone() },
    ] {
        assert!(matches!(missing.config(), Err(Error::Rejected(_))), "should have been refused: {missing:?}");
    }
}

#[test]
fn mssql_tls_is_off_unless_asked_for() {
    let settings = MsSqlSettings { username: "budget".to_owned(), ..Default::default() };
    assert!(!settings.use_tls);
    assert!(!settings.tls_skip_verify);
}

#[test]
fn mssql_configuration_carries_the_settings_trimmed() {
    let settings = MsSqlSettings {
        host: " sql.example ".to_owned(),
        database: " books ".to_owned(),
        username: "budget".to_owned(),
        use_tls: true,
        ..Default::default()
    };
    let config = settings.config().unwrap();
    assert_eq!(config.host, "sql.example");
    assert_eq!(config.port, 1433);
    assert_eq!(config.database, "books");
    assert!(config.encrypt);
    assert!(!config.trust_cert);
    assert_eq!(
        MsSqlSettings { database: " ".to_owned(), ..settings }.config().unwrap_err().message(),
        "Enter the database name."
    );
}

#[test]
fn mssql_refuses_an_edit_that_changed_nothing() {
    assert!(mssql::not_found_unless_changed(&vec![0, 1]).is_ok());
    assert_eq!(
        mssql::not_found_unless_changed(&vec![0, 0]),
        Err(Error::Rejected("That entry no longer exists.".to_owned()))
    );
    assert!(mssql::not_found_unless_changed(&Vec::new()).is_err());
}

// ------------------------------------------------------------------ shared

#[test]
fn sqlite_refuses_an_edit_that_changed_nothing() {
    assert!(sqlite::not_found_unless_changed(1).is_ok());
    assert!(sqlite::not_found_unless_changed(0).is_err());
}

#[test]
fn category_names_are_trimmed_and_bounded() {
    let reg = registry();
    assert_eq!(clean_category_name(&reg, "  Groceries "), Ok("Groceries".to_owned()));
    assert_eq!(
        clean_category_name(&reg, "   "),
        Err(Error::Rejected("Give the category a name.".to_owned()))
    );
    let long = "x".repeat(65);
    assert_eq!(
        clean_category_name(&reg, &long),
        Err(Error::Rejected("Keep category names to 64 characters or fewer.".to_owned()))
    );
    let exactly = "é".repeat(64);
    assert_eq!(clean_category_name(&reg, &exactly), Ok(exactly.clone()));
}

#[test]
fn targets_say_what_they_are_before_they_are_open() {
    let maria = MariaDbSettings { username: "budget".to_owned(), ..Default::default() };
    assert_eq!(Target::MariaDb(maria).label(), "MariaDB · budget@localhost:3306/accounts");
    let ms = MsSqlSettings { username: "sa".to_owned(), ..Default::default() };
    assert_eq!(Target::MsSql(ms.clone()).label(), "SQL Server · sa@localhost:1433/accounts");
    assert!(Target::MsSql(ms).is_slow());
    let file = Target::Sqlite("/nowhere/in/particular.db".to_owned());
    assert_eq!(file.label(), "SQLite · /nowhere/in/particular.db");
    assert!(!file.is_slow());
    assert_ne!(Purpose::Test, Purpose::Adopt);
}

#[test]
fn an_error_shows_its_own_words() {
    assert_eq!(Error::Backend("disk full".to_owned()).message(), "disk full");
    assert_eq!(Error::Rejected("no".to_owned()).message(), "no");
}

// ------------------------------------------------------------------ stored dates and category names

#[test]
fn stored_dates_read_back_or_are_refused() {
    let reg = registry();
    assert_eq!(parse_stored_date(&reg, "2026-03-02"), Ok(Date { year: 2026, month: 3, day: 2 }));
    assert_eq!(parse_stored_date(&reg, "2024-02-29"), Ok(Date { year: 2024, month: 2, day: 29 }));
    assert_eq!(
        parse_stored_date(&reg, "2026-02-30"),
        Err(Error::Backend("A stored date is not a date: 2026-02-30".to_owned()))
    );
    assert_eq!(
        parse_stored_date(&reg, "yesterday"),
        Err(Error::Backend("A stored date is not a date: yesterday".to_owned()))
    );
}

#[test]
fn category_names_are_looked_up_before_they_are_changed() {
    let reg = registry();
    assert_eq!(category_found("Rent", Some(7)), Ok(7));
    assert_eq!(
        category_found("Rent", None).map_err(CategoryRefusal::in_english),
        Err(Error::Rejected("There is no category called “Rent”.".to_owned()))
    );
    assert_eq!(name_free("Rent", None), Ok(()));
    assert_eq!(
        name_free("Rent", Some(3)).map_err(|r| r.in_words(&reg)),
        Err(Error::Rejected("“Rent” is already a category.".to_owned()))
    );
    // A category may be renamed onto its own name: a change of capitals.
    assert_eq!(rename_allowed("rent", 3, Some(3)), Ok(()));
    assert_eq!(rename_allowed("Bills", 3, None), Ok(()));
    assert_eq!(
        rename_allowed("Food", 3, Some(4)).map_err(CategoryRefusal::in_english),
        Err(Error::Rejected("“Food” is already a category.".to_owned()))
    );
}

fn run_sqls(action: &UpgradeAction) -> Vec<(String, bool)> {
    match action {
        UpgradeAction::Run(statements) => statements.iter().map(|s| (s.sql.clone(), s.binds_owner)).collect(),
        _ => Vec::new(),
    }
}

#[test]
fn an_up_to_date_database_is_left_alone() {
    for dialect in [Dialect::MariaDb, Dialect::MsSql] {
        let (state, action) = upgrade_start(dialect);
        assert_eq!(state, Upgrade::LookingForOwner);
        assert!(matches!(action, UpgradeAction::AskForOwnerColumn(_)));
        let (state, action) = upgrade_step(dialect, state, UpgradeEvent::OwnerColumn(true));
        assert_eq!(state, Upgrade::Done);
        assert_eq!(action, UpgradeAction::Finish);
    }
}

#[test]
fn an_old_database_is_claimed_and_its_names_scoped_per_owner() {
    let (state, _) = upgrade_start(Dialect::MariaDb);
    let (state, action) = upgrade_step(Dialect::MariaDb, state, UpgradeEvent::OwnerColumn(false));
    assert_eq!(state, Upgrade::Claiming);
    let claims = run_sqls(&action);
    assert_eq!(claims.len(), 4);
    assert_eq!(claims.iter().filter(|(_, binds)| *binds).count(), 2);
    assert_eq!(claims[2].0, "UPDATE categories SET owner = :owner WHERE owner = ''");
    let (state, action) = upgrade_step(Dialect::MariaDb, state, UpgradeEvent::StatementsRun);
    assert_eq!(state, Upgrade::LookingForOldUnique);
    assert!(matches!(action, UpgradeAction::AskForOldUnique(_)));
    let (state, action) =
        upgrade_step(Dialect::MariaDb, state, UpgradeEvent::OldUnique(Some("name".to_owned())));
    assert_eq!(state, Upgrade::Rescoping);
    assert_eq!(
        run_sqls(&action),
        vec![
            ("DROP INDEX `name` ON categories".to_owned(), false),
            ("ALTER TABLE categories ADD CONSTRAINT categories_owner_name UNIQUE (owner, name)".to_owned(), false),
        ]
    );
    let (state, action) = upgrade_step(Dialect::MariaDb, state, UpgradeEvent::StatementsRun);
    assert_eq!(state, Upgrade::Done);
    assert_eq!(action, UpgradeAction::Finish);

    let (state, _) = upgrade_step(Dialect::MsSql, Upgrade::LookingForOldUnique, UpgradeEvent::OldUnique(Some("UQ__cat__1".to_owned())));
    assert_eq!(state, Upgrade::Rescoping);
    let (_, action) = upgrade_step(Dialect::MsSql, Upgrade::LookingForOldUnique, UpgradeEvent::OldUnique(Some("UQ__cat__1".to_owned())));
    assert_eq!(run_sqls(&action)[0].0, "ALTER TABLE categories DROP CONSTRAINT [UQ__cat__1]");
    let (_, action) = upgrade_step(Dialect::MsSql, Upgrade::LookingForOldUnique, UpgradeEvent::OldUnique(None));
    assert_eq!(run_sqls(&action).len(), 1);
}
