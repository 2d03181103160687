//! Where the app remembers which database to use, between runs, and where
//! its files live.
//!
//! Reading and writing the file is the application's; what goes into it,
//! and where things are, is decided here.

use vstd::prelude::*;

use crate::db::attempt::Target;
use crate::db::mariadb::MariaDbSettings;
use crate::db::mssql::MsSqlSettings;
use crate::strings::push_str;

verus! {

/// Which backend the user chose on the Database tab.
#[derive(Clone, Copy, Debug, PartialEq, Eq)]
pub enum Backend {
    Sqlite,
    MariaDb,
    MsSql,
}

impl Default for Backend {
    fn default() -> (b: Self)
        ensures
            b == Backend::Sqlite,
    {
        Backend::Sqlite
    }
}

/// Light or dark, or whichever the operating system is set to.
#[derive(Clone, Copy, Debug, PartialEq, Eq)]
pub enum Appearance {
    System,
    Light,
    Dark,
}

pub open spec fn appearance_label(a: Appearance) -> Seq<char> {
    match a {
        Appearance::System => "System"@,
        Appearance::Light => "Light"@,
        Appearance::Dark => "Dark"@,
    }
}

pub open spec fn appearance_description(a: Appearance) -> Seq<char> {
    match a {
        Appearance::System => "Follow the light or dark setting of the operating system."@,
        Appearance::Light => "Always light."@,
        Appearance::Dark => "Always dark."@,
    }
}

impl Appearance {
    /// Every choice, in the order the picker lists them.
    pub fn all() -> (all: [Appearance; 3])
        ensures
            all@ == seq![Appearance::System, Appearance::Light, Appearance::Dark],
    {
        let all = [Appearance::System, Appearance::Light, Appearance::Dark];
        assert(all@ =~= seq![Appearance::System, Appearance::Light, Appearance::Dark]);
        all
    }

    /// What the picker calls it.
    pub fn label(self) -> (s: &'static str)
        ensures
            s@ == appearance_label(self),
    {
        match self {
            Appearance::System => "System",
            Appearance::Light => "Light",
            Appearance::Dark => "Dark",
        }
    }

    /// What choosing it does, for the picker's hover text.
    pub fn description(self) -> (s: &'static str)
        ensures
            s@ == appearance_description(self),
    {
        match self {
            Appearance::System => "Follow the light or dark setting of the operating system.",
            Appearance::Light => "Always light.",
            Appearance::Dark => "Always dark.",
        }
    }
}

impl Default for Appearance {
    fn default() -> (a: Self)
        ensures
            a == Appearance::System,
    {
        Appearance::System
    }
}

/// What is remembered between runs.
#[derive(Clone, Debug)]
pub struct Config {
    pub backend: Backend,
    /// `None` means the default file in the app's data directory.
    pub sqlite_path: Option<String>,
    pub mariadb: MariaDbSettings,
    pub mssql: MsSqlSettings,
    /// Whether the server password may be written to the config file. Off
    /// by default: the file is plain text, and saying so is better than a
    /// surprise.
    pub remember_password: bool,
    /// Whether to ask at startup if there is a newer release.
    pub check_for_updates: bool,
    /// A version the user has already been told about and did not want.
    pub dismissed_update: Option<String>,
    /// The language to speak: a code, or `auto` for the system's.
    pub language: String,
    /// Light, dark, or whichever the system is set to.
    pub appearance: Appearance,
}

/// The default for a setting that is on unless turned off.
pub fn yes() -> (b: bool)
    ensures
        b,
{
    true
}

impl Default for Config {
    fn default() -> (c: Self)
        ensures
            c.backend == Backend::Sqlite,
            c.sqlite_path is None,
            !c.remember_password,
            c.check_for_updates,
            c.dismissed_update is None,
            c.mariadb.port == 3306,
            c.mssql.port == 1433,
            c.language@ == crate::i18n::AUTO@,
            c.appearance == Appearance::System,
    {
        Config {
            backend: Backend::Sqlite,
            sqlite_path: None,
            mariadb: MariaDbSettings::default(),
            mssql: MsSqlSettings::default(),
            remember_password: false,
            check_for_updates: yes(),
            dismissed_update: None,
            language: crate::i18n::AUTO.to_owned(),
            appearance: Appearance::System,
        }
    }
}

// ------------------------------------------------------------------ paths

/// What `PathBuf::join` makes of a base and a relative part.
pub uninterp spec fn path_joined(base: Seq<char>, part: Seq<char>) -> Seq<char>;

/// What `Path::strip_prefix` leaves of `path` once `base` is taken off the
/// front, component by component, or nothing when `base` is not a prefix.
pub uninterp spec fn path_after(path: Seq<char>, base: Seq<char>) -> Option<Seq<char>>;

/// `Path::join`, for paths held as text: `part` under `base`, or `part`
/// alone when it is absolute. What that is for given texts is named, not
/// restated.
#[verifier::external_body]
pub fn join_path(base: &str, part: &str) -> (r: String)
    ensures
        r@ == path_joined(base@, part@),
{
    std::path::Path::new(base).join(part).to_string_lossy().into_owned()
}

/// `Path::strip_prefix`, for paths held as text.
#[verifier::external_body]
fn strip_path_prefix(path: &str, base: &str) -> (r: Option<String>)
    ensures
        match r {
            Some(rest) => path_after(path@, base@) == Some(rest@),
            None => path_after(path@, base@) == None::<Seq<char>>,
        },
{
    std::path::Path::new(path).strip_prefix(base).ok().map(|rest| rest.to_string_lossy().into_owned())
}

/// `dirs::data_dir`: where this platform keeps applications' data, if it
/// will say. It depends on the machine and its user, so nothing is promised.
#[verifier::external_body]
fn platform_data_dir() -> (r: Option<String>) {
    dirs::data_dir().map(|p| p.to_string_lossy().into_owned())
}

/// `dirs::home_dir`: the user's home directory, if there is one. It depends
/// on the machine and its user, so nothing is promised.
#[verifier::external_body]
pub(crate) fn home_dir() -> (r: Option<String>) {
    dirs::home_dir().map(|p| p.to_string_lossy().into_owned())
}

/// This app's folder inside the platform's data directory, or inside the
/// current directory when the platform will not say.
pub open spec fn data_dir_in(platform: Option<Seq<char>>) -> Seq<char> {
    path_joined(
        match platform {
            Some(p) => p,
            None => "."@,
        },
        "GenericAccountingSystem"@,
    )
}

pub open spec fn opt_view(o: Option<String>) -> Option<Seq<char>> {
    match o {
        Some(s) => Some(s@),
        None => None,
    }
}

/// This app's folder inside `platform`, the platform's data directory if it
/// named one.
pub fn data_dir_under(platform: Option<String>) -> (r: String)
    ensures
        r@ == data_dir_in(opt_view(platform)),
{
    let base = match platform {
        Some(p) => p,
        None => ".".to_owned(),
    };
    join_path(base.as_str(), "GenericAccountingSystem")
}

/// `~/Library/Application Support/GenericAccountingSystem` on macOS, the
/// equivalent elsewhere, and the current directory if the platform will not
/// say: an app that cannot find a home directory should still start.
pub fn data_dir() -> (r: String)
    ensures
        exists|platform: Option<Seq<char>>| r@ == data_dir_in(platform),
{
    let platform = platform_data_dir();
    let r = data_dir_under(platform);
    assert(r@ == data_dir_in(opt_view(platform)));
    r
}

/// The default SQLite file.
pub fn default_sqlite_path() -> (r: String)
    ensures
        exists|platform: Option<Seq<char>>| r@ == path_joined(data_dir_in(platform), "accounts.sqlite"@),
{
    let dir = data_dir();
    join_path(dir.as_str(), "accounts.sqlite")
}

/// Where the config file is.
pub fn config_path() -> (r: String)
    ensures
        exists|platform: Option<Seq<char>>| r@ == path_joined(data_dir_in(platform), "config.json"@),
{
    let dir = data_dir();
    join_path(dir.as_str(), "config.json")
}

/// A path shortened for display given the home directory: `~/` and the
/// rest when it is under home, unchanged otherwise.
pub open spec fn tilde_in(path: Seq<char>, home: Option<Seq<char>>) -> Seq<char> {
    match home {
        Some(h) => match path_after(path, h) {
            Some(rest) => "~/"@ + rest,
            None => path,
        },
        None => path,
    }
}

/// A leading `~` turned back into the home directory: the rest joined onto
/// home when the path's first component is exactly `~` and there is a home;
/// unchanged otherwise, so `~user` (someone else's home) is left alone.
pub open spec fn untilde_in(path: Seq<char>, home: Option<Seq<char>>) -> Seq<char> {
    match path_after(path, "~"@) {
        Some(rest) => match home {
            Some(h) => path_joined(h, rest),
            None => path,
        },
        None => path,
    }
}

/// Shortens a path for display with the home directory given.
pub fn tilde_with(path: &str, home: Option<String>) -> (r: String)
    ensures
        r@ == tilde_in(path@, opt_view(home)),
{
    match home {
        Some(h) => match strip_path_prefix(path, h.as_str()) {
            Some(rest) => {
                let mut s = String::new();
                push_str(&mut s, "~/");
                push_str(&mut s, rest.as_str());
                s
            },
            None => path.to_owned(),
        },
        None => path.to_owned(),
    }
}

/// Turns a leading `~` back into the home directory given.
pub fn untilde_with(path: &str, home: Option<String>) -> (r: String)
    ensures
        r@ == untilde_in(path@, opt_view(home)),
{
    match strip_path_prefix(path, "~") {
        Some(rest) => match home {
            Some(h) => join_path(h.as_str(), rest.as_str()),
            None => path.to_owned(),
        },
        None => path.to_owned(),
    }
}

/// Shortens a path for display, so a status bar shows `~/Library/...`
/// rather than the user's name.
pub fn tilde(path: &str) -> (r: String)
    ensures
        exists|home: Option<Seq<char>>| r@ == tilde_in(path@, home),
{
    let home = home_dir();
    let r = tilde_with(path, home);
    assert(r@ == tilde_in(path@, opt_view(home)));
    r
}

/// Turns a leading `~` back into the home directory. A text box has no
/// shell behind it to do this, and the status bar offers paths in exactly
/// that form.
pub fn untilde(path: &str) -> (r: String)
    ensures
        exists|home: Option<Seq<char>>| r@ == untilde_in(path@, home),
{
    let home = home_dir();
    let r = untilde_with(path, home);
    assert(r@ == untilde_in(path@, opt_view(home)));
    r
}

impl Config {
    /// The database the saved configuration names: the SQLite file as
    /// [`Config::sqlite_path`] gives it, or a server's settings as saved.
    pub fn target(&self) -> (t: Target)
        ensures
            match self.backend {
                Backend::Sqlite => t matches Target::Sqlite(p) && match self.sqlite_path {
                    Some(s) => exists|home: Option<Seq<char>>| p@ == untilde_in(s@, home),
                    None => exists|platform: Option<Seq<char>>|
                        p@ == path_joined(data_dir_in(platform), "accounts.sqlite"@),
                },
                Backend::MariaDb => t == Target::MariaDb(self.mariadb),
                Backend::MsSql => t == Target::MsSql(self.mssql),
            },
    {
        match self.backend {
            Backend::Sqlite => Target::Sqlite(self.sqlite_path()),
            Backend::MariaDb => Target::MariaDb(self.mariadb.copied()),
            Backend::MsSql => Target::MsSql(self.mssql.copied()),
        }
    }
}

impl Config {
    /// The SQLite file to use: whatever the user set, with a leading `~`
    /// turned back into home, or the default.
    pub fn sqlite_path(&self) -> (r: String)
        ensures
            match self.sqlite_path {
                Some(p) => exists|home: Option<Seq<char>>| r@ == untilde_in(p@, home),
                None => exists|platform: Option<Seq<char>>| r@ == path_joined(data_dir_in(platform), "accounts.sqlite"@),
            },
    {
        match &self.sqlite_path {
            Some(p) => untilde(p.as_str()),
            None => default_sqlite_path(),
        }
    }

    /// What is written to the config file: everything, except the server
    /// passwords when the user has not asked for them to be remembered.
    pub fn to_save(&self) -> (c: Config)
        ensures
            c.backend == self.backend,
            opt_view(c.sqlite_path) == opt_view(self.sqlite_path),
            c.remember_password == self.remember_password,
            c.check_for_updates == self.check_for_updates,
            opt_view(c.dismissed_update) == opt_view(self.dismissed_update),
            c.language@ == self.language@,
            c.appearance == self.appearance,
            c.mariadb.host@ == self.mariadb.host@,
            c.mariadb.port == self.mariadb.port,
            c.mariadb.database@ == self.mariadb.database@,
            c.mariadb.username@ == self.mariadb.username@,
            c.mariadb.use_tls == self.mariadb.use_tls,
            c.mariadb.tls_skip_verify == self.mariadb.tls_skip_verify,
            c.mariadb.ca_cert_path@ == self.mariadb.ca_cert_path@,
            c.mssql.host@ == self.mssql.host@,
            c.mssql.port == self.mssql.port,
            c.mssql.database@ == self.mssql.database@,
            c.mssql.username@ == self.mssql.username@,
            c.mssql.use_tls == self.mssql.use_tls,
            c.mssql.tls_skip_verify == self.mssql.tls_skip_verify,
            c.mariadb.password@ == (if self.remember_password {
                self.mariadb.password@
            } else {
                Seq::<char>::empty()
            }),
            c.mssql.password@ == (if self.remember_password {
                self.mssql.password@
            } else {
                Seq::<char>::empty()
            }),
    {
        let keep = self.remember_password;
        let m = &self.mariadb;
        let s = &self.mssql;
        Config {
            backend: self.backend,
            sqlite_path: match &self.sqlite_path {
                Some(p) => Some(p.clone()),
                None => None,
            },
            mariadb: MariaDbSettings {
                host: m.host.clone(),
                port: m.port,
                database: m.database.clone(),
                username: m.username.clone(),
                password: if keep {
                    m.password.clone()
                } else {
                    String::new()
                },
                use_tls: m.use_tls,
                tls_skip_verify: m.tls_skip_verify,
                ca_cert_path: m.ca_cert_path.clone(),
            },
            mssql: MsSqlSettings {
                host: s.host.clone(),
                port: s.port,
                database: s.database.clone(),
                username: s.username.clone(),
                password: if keep {
                    s.password.clone()
                } else {
                    String::new()
                },
                use_tls: s.use_tls,
                tls_skip_verify: s.tls_skip_verify,
            },
            remember_password: self.remember_password,
            check_for_updates: self.check_for_updates,
            dismissed_update: match &self.dismissed_update {
                Some(d) => Some(d.clone()),
                None => None,
            },
            language: self.language.clone(),
            appearance: self.appearance,
        }
    }
}

} // verus!
