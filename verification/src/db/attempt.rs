//! A database to open, described before it is open.
//!
//! Opening one is the application's, on a thread of its own; what it is
//! called, and whether it is worth a thread, is decided here.

use vstd::prelude::*;

use crate::config::{tilde, tilde_in};
use crate::db::mariadb::MariaDbSettings;
use crate::db::mssql::MsSqlSettings;
use crate::strings::{decimal, push_str, unsigned_text};

verus! {

/// A database to open.
#[derive(Clone, Debug)]
pub enum Target {
    Sqlite(String),
    MariaDb(MariaDbSettings),
    MsSql(MsSqlSettings),
}

/// What to do with the connection once it is open.
#[derive(Clone, Copy, PartialEq, Eq, Debug)]
pub enum Purpose {
    /// Report on it and throw it away.
    Test,
    /// Start using it.
    Adopt,
}

/// `user@host:port/database`, after a name for the kind of server.
pub open spec fn server_label(kind: Seq<char>, user: Seq<char>, host: Seq<char>, port: u16, db: Seq<char>) -> Seq<char> {
    kind + user + seq!['@'] + host + seq![':'] + decimal(port as nat) + seq!['/'] + db
}

fn push_server(out: &mut String, user: &str, host: &str, port: u16, db: &str)
    ensures
        final(out)@ == old(out)@ + user@ + seq!['@'] + host@ + seq![':'] + decimal(port as nat) + seq!['/'] + db@,
{
    push_str(out, user);
    out.push('@');
    push_str(out, host);
    out.push(':');
    push_str(out, unsigned_text(port as u64).as_str());
    out.push('/');
    push_str(out, db);
}

impl Target {
    /// How to describe it before it is open, when there is no store to ask.
    pub fn label(&self) -> (s: String)
        ensures
            match self {
                Target::Sqlite(path) => exists|home: Option<Seq<char>>| s@ == "SQLite · "@ + tilde_in(path@, home),
                Target::MariaDb(m) => s@ == server_label("MariaDB · "@, m.username@, m.host@, m.port, m.database@),
                Target::MsSql(m) => s@ == server_label("SQL Server · "@, m.username@, m.host@, m.port, m.database@),
            },
    {
        let mut s = String::new();
        match self {
            Target::Sqlite(path) => {
                push_str(&mut s, "SQLite · ");
                let shown = tilde(path.as_str());
                push_str(&mut s, shown.as_str());
            },
            Target::MariaDb(m) => {
                push_str(&mut s, "MariaDB · ");
                push_server(&mut s, m.username.as_str(), m.host.as_str(), m.port, m.database.as_str());
            },
            Target::MsSql(m) => {
                push_str(&mut s, "SQL Server · ");
                push_server(&mut s, m.username.as_str(), m.host.as_str(), m.port, m.database.as_str());
            },
        }
        s
    }

    /// Whether opening this is worth going to another thread for. A local
    /// file is not: the flicker of an empty window would last longer than
    /// the work.
    pub fn is_slow(&self) -> (r: bool)
        ensures
            r == !(self is Sqlite),
    {
        match self {
            Target::Sqlite(_) => false,
            _ => true,
        }
    }
}

} // verus!
