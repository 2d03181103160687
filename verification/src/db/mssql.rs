//! What the SQL Server store is given and checks before it dials out. The
//! connection itself is the application's.

use vstd::prelude::*;

use crate::db::Error;
use crate::strings::{chars_of, string_of, trim, trimmed};

verus! {

/// Where the server is and who to log in as.
#[derive(Clone, Debug, PartialEq, Eq)]
pub struct MsSqlSettings {
    pub host: String,
    pub port: u16,
    pub database: String,
    pub username: String,
    /// Only written to disk if the user asks for it.
    pub password: String,
    pub use_tls: bool,
    /// Accept a server certificate that does not match its host name. Off by
    /// default, because it is a real hole.
    pub tls_skip_verify: bool,
}

impl MsSqlSettings {
    /// A copy, field for field.
    pub fn copied(&self) -> (r: MsSqlSettings)
        ensures
            r == *self,
    {
        MsSqlSettings {
            host: self.host.clone(),
            port: self.port,
            database: self.database.clone(),
            username: self.username.clone(),
            password: self.password.clone(),
            use_tls: self.use_tls,
            tls_skip_verify: self.tls_skip_verify,
        }
    }
}

impl Default for MsSqlSettings {
    fn default() -> (s: Self)
        ensures
            s.host@ == "localhost"@,
            s.port == 1433,
            s.database@ == "accounts"@,
            s.username@ == Seq::<char>::empty(),
            s.password@ == Seq::<char>::empty(),
            !s.use_tls,
            !s.tls_skip_verify,
    {
        MsSqlSettings {
            host: "localhost".to_owned(),
            port: 1433,
            database: "accounts".to_owned(),
            username: String::new(),
            password: String::new(),
            use_tls: false,
            tls_skip_verify: false,
        }
    }
}

/// What the driver is told: the trimmed host, database and user, the port
/// and password as given, whether the traffic is encrypted, and whether any
/// certificate is trusted.
#[derive(Clone, Debug, PartialEq, Eq)]
pub struct MsSqlConfig {
    pub host: String,
    pub port: u16,
    pub database: String,
    pub username: String,
    pub password: String,
    /// Encryption required, rather than only for the login.
    pub encrypt: bool,
    pub trust_cert: bool,
}

/// What is said for the first of host, database and user that is blank, if
/// any is, in English as this store writes it.
pub open spec fn blank_field(host: Seq<char>, database: Seq<char>, username: Seq<char>) -> Option<Seq<char>> {
    if trim(host).len() == 0 {
        Some("Enter the server's host name."@)
    } else if trim(database).len() == 0 {
        Some("Enter the database name."@)
    } else if trim(username).len() == 0 {
        Some("Enter the user name."@)
    } else {
        None
    }
}

impl MsSqlSettings {
    /// The configuration to connect with. The three fields with no sensible
    /// default are checked first, so a half-filled form is refused at once
    /// and says which box is empty.
    pub fn config(&self) -> (r: Result<MsSqlConfig, Error>)
        ensures
            match blank_field(self.host@, self.database@, self.username@) {
                Some(message) => r matches Err(Error::Rejected(m)) && m@ == message,
                None => r matches Ok(c) && {
                    &&& c.host@ == trim(self.host@)
                    &&& c.port == self.port
                    &&& c.database@ == trim(self.database@)
                    &&& c.username@ == trim(self.username@)
                    &&& c.password@ == self.password@
                    &&& c.encrypt == self.use_tls
                    &&& c.trust_cert == self.tls_skip_verify
                },
            },
    {
        let host = trimmed(&chars_of(self.host.as_str()));
        let database = trimmed(&chars_of(self.database.as_str()));
        let username = trimmed(&chars_of(self.username.as_str()));
        if host.len() == 0 {
            return Err(Error::Rejected("Enter the server's host name.".to_owned()));
        }
        if database.len() == 0 {
            return Err(Error::Rejected("Enter the database name.".to_owned()));
        }
        if username.len() == 0 {
            return Err(Error::Rejected("Enter the user name.".to_owned()));
        }
        Ok(MsSqlConfig {
            host: string_of(&host),
            port: self.port,
            database: string_of(&database),
            username: string_of(&username),
            password: self.password.clone(),
            encrypt: self.use_tls,
            trust_cert: self.tls_skip_verify,
        })
    }
}

pub open spec fn total_of(rows: Seq<u64>) -> int
    decreases rows.len(),
{
    if rows.len() == 0 {
        0
    } else {
        total_of(rows.drop_last()) + rows.last()
    }
}

/// An edit or delete that changed no row names an entry that is no longer
/// there. `rows_affected` is what the server reported for each statement.
pub fn not_found_unless_changed(rows_affected: &Vec<u64>) -> (r: Result<(), Error>)
    requires
        total_of(rows_affected@) <= u64::MAX,
    ensures
        total_of(rows_affected@) == 0 <==> r is Err,
        r matches Err(e) ==> e matches Error::Rejected(m) && m@ == "That entry no longer exists."@,
{
    let mut sum: u64 = 0;
    let mut i: usize = 0;
    while i < rows_affected.len()
        invariant
            i <= rows_affected@.len(),
            sum as int == total_of(rows_affected@.take(i as int)),
            total_of(rows_affected@) <= u64::MAX,
        decreases rows_affected.len() - i,
    {
        proof {
            lemma_total_prefix(rows_affected@, i + 1);
        }
        assert(rows_affected@.take(i + 1).drop_last() =~= rows_affected@.take(i as int));
        sum = sum + rows_affected[i];
        i += 1;
    }
    assert(rows_affected@.take(i as int) =~= rows_affected@);
    if sum == 0 {
        return Err(Error::Rejected("That entry no longer exists.".to_owned()));
    }
    Ok(())
}

pub proof fn lemma_total_prefix(rows: Seq<u64>, k: int)
    requires
        0 <= k <= rows.len(),
    ensures
        0 <= total_of(rows.take(k)) <= total_of(rows),
    decreases rows.len(),
{
    if rows.len() > 0 {
        if k == rows.len() {
            assert(rows.take(k) =~= rows);
            lemma_total_prefix(rows.drop_last(), k - 1);
        } else {
            lemma_total_prefix(rows.drop_last(), k);
            assert(rows.take(k) =~= rows.drop_last().take(k));
        }
    }
}

} // verus!
