//! The Database pane's form: which kind of database, and the details of
//! each, held as typed until they are asked for.

use vstd::prelude::*;

use crate::config::{untilde, untilde_in, Backend, Config};
use crate::db::attempt::{Purpose, Target};
use crate::db::mariadb::MariaDbSettings;
use crate::db::mssql::MsSqlSettings;
use crate::i18n::{said, Registry};
use crate::strings::{chars_of, decimal, string_of, trim, trimmed, unsigned_text};
use crate::ui::{parse_port, port_of};

verus! {

/// What the pane holds between frames.
#[derive(Clone, Debug)]
pub struct State {
    pub backend: Backend,
    /// Edited as text so the user can paste a path in.
    pub sqlite_path: String,
    pub mariadb: MariaDbSettings,
    pub mariadb_port: String,
    pub mssql: MsSqlSettings,
    pub mssql_port: String,
    pub remember_password: bool,
    /// What went wrong with the last attempt, kept beside the fields it is
    /// about rather than only in the status bar.
    pub error: Option<String>,
    /// A SQLite file that is not there yet, waiting to be confirmed before
    /// it is brought into being.
    pub confirm_create: Option<(String, Purpose)>,
}

impl State {
    /// The form as the saved configuration fills it in.
    pub fn from_config(config: &Config) -> (s: State)
        ensures
            s.backend == config.backend,
            match config.sqlite_path {
                Some(p) => exists|home: Option<Seq<char>>| s.sqlite_path@ == untilde_in(p@, home),
                None => exists|platform: Option<Seq<char>>|
                    s.sqlite_path@ == crate::config::path_joined(
                        crate::config::data_dir_in(platform),
                        "accounts.sqlite"@,
                    ),
            },
            s.mariadb == config.mariadb,
            s.mariadb_port@ == decimal(config.mariadb.port as nat),
            s.mssql == config.mssql,
            s.mssql_port@ == decimal(config.mssql.port as nat),
            s.remember_password == config.remember_password,
            s.error is None,
            s.confirm_create is None,
    {
        State {
            backend: config.backend,
            sqlite_path: config.sqlite_path(),
            mariadb: config.mariadb.copied(),
            mariadb_port: unsigned_text(config.mariadb.port as u64),
            mssql: config.mssql.copied(),
            mssql_port: unsigned_text(config.mssql.port as u64),
            remember_password: config.remember_password,
            error: None,
            confirm_create: None,
        }
    }
}

/// The path in the SQLite box, as somewhere on disk: trimmed, and a leading
/// `~` understood as home, since that is the form the app itself shows.
pub fn sqlite_path_of(state: &State) -> (p: String)
    ensures
        exists|home: Option<Seq<char>>| p@ == untilde_in(trim(state.sqlite_path@), home),
{
    let t = string_of(&trimmed(&chars_of(state.sqlite_path.as_str())));
    untilde(t.as_str())
}

/// The settings with only the port replaced.
pub open spec fn mariadb_on_port(m: MariaDbSettings, port: u16) -> MariaDbSettings {
    MariaDbSettings { port, ..m }
}

/// The settings with only the port replaced.
pub open spec fn mssql_on_port(m: MsSqlSettings, port: u16) -> MsSqlSettings {
    MsSqlSettings { port, ..m }
}

/// What the user has asked for, as something that can be opened: the
/// SQLite path as [`sqlite_path_of`] reads it, or a server's settings with
/// the port read out of its box, refused when it is not a port.
pub fn target_of(reg: &Registry, state: &State) -> (r: Result<Target, String>)
    requires
        reg.wf(),
    ensures
        match state.backend {
            Backend::Sqlite => r matches Ok(Target::Sqlite(p)) && exists|home: Option<Seq<char>>|
                p@ == untilde_in(trim(state.sqlite_path@), home),
            Backend::MariaDb => match port_of(state.mariadb_port@) {
                Some(port) => r == Ok::<Target, String>(
                    Target::MariaDb(mariadb_on_port(state.mariadb, port as u16)),
                ),
                None => r matches Err(m) && m@ == said(reg.view(), "database.bad_port"@),
            },
            Backend::MsSql => match port_of(state.mssql_port@) {
                Some(port) => r == Ok::<Target, String>(
                    Target::MsSql(mssql_on_port(state.mssql, port as u16)),
                ),
                None => r matches Err(m) && m@ == said(reg.view(), "database.bad_port"@),
            },
        },
{
    match state.backend {
        Backend::Sqlite => Ok(Target::Sqlite(sqlite_path_of(state))),
        Backend::MariaDb => {
            let port = parse_port(reg, state.mariadb_port.as_str())?;
            let mut settings = state.mariadb.copied();
            settings.port = port;
            Ok(Target::MariaDb(settings))
        },
        Backend::MsSql => {
            let port = parse_port(reg, state.mssql_port.as_str())?;
            let mut settings = state.mssql.copied();
            settings.port = port;
            Ok(Target::MsSql(settings))
        },
    }
}

/// Takes what the form holds into the configuration once a database from it
/// is in use: the kind, the SQLite path as read, each server's settings with
/// the port from its box (the port already saved when the box is not a
/// port), and whether passwords are remembered. The rest is kept.
pub fn adopt(config: &mut Config, state: &State)
    ensures
        final(config).backend == state.backend,
        final(config).sqlite_path matches Some(p) && exists|home: Option<Seq<char>>|
            p@ == untilde_in(trim(state.sqlite_path@), home),
        final(config).mariadb == mariadb_on_port(
            state.mariadb,
            match port_of(state.mariadb_port@) {
                Some(p) => p as u16,
                None => old(config).mariadb.port,
            },
        ),
        final(config).mssql == mssql_on_port(
            state.mssql,
            match port_of(state.mssql_port@) {
                Some(p) => p as u16,
                None => old(config).mssql.port,
            },
        ),
        final(config).remember_password == state.remember_password,
        final(config).check_for_updates == old(config).check_for_updates,
        final(config).dismissed_update == old(config).dismissed_update,
        final(config).language == old(config).language,
        final(config).appearance == old(config).appearance,
{
    let mariadb_port = match crate::ui::port_value(state.mariadb_port.as_str()) {
        Some(p) => p,
        None => config.mariadb.port,
    };
    let mssql_port = match crate::ui::port_value(state.mssql_port.as_str()) {
        Some(p) => p,
        None => config.mssql.port,
    };
    config.backend = state.backend;
    config.sqlite_path = Some(sqlite_path_of(state));
    let mut mariadb = state.mariadb.copied();
    mariadb.port = mariadb_port;
    config.mariadb = mariadb;
    let mut mssql = state.mssql.copied();
    mssql.port = mssql_port;
    config.mssql = mssql;
    config.remember_password = state.remember_password;
}

} // verus!
