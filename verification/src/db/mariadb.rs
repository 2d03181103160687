//! What the MariaDB (or MySQL) store is given and checks before it dials
//! out. The connection itself is the application's.

use vstd::prelude::*;

use crate::db::Error;
use crate::i18n::{owned_bindings, said, text, Registry};
use crate::strings::{chars_of, string_of, trim, trimmed};

verus! {

/// Where the server is and who to log in as.
#[derive(Clone, Debug, PartialEq, Eq)]
pub struct MariaDbSettings {
    pub host: String,
    pub port: u16,
    pub database: String,
    pub username: String,
    /// Only written to disk if the user asks for it.
    pub password: String,
    pub use_tls: bool,
    /// Accept a server certificate that does not match its host name. The
    /// issuer is still checked. Off by default, because it is still a hole.
    pub tls_skip_verify: bool,
    /// A certificate authority to trust on top of the public ones, as the
    /// path to a `.pem` or `.der` file; empty for the usual case.
    pub ca_cert_path: String,
}

impl MariaDbSettings {
    /// A copy, field for field.
    pub fn copied(&self) -> (r: MariaDbSettings)
        ensures
            r == *self,
    {
        MariaDbSettings {
            host: self.host.clone(),
            port: self.port,
            database: self.database.clone(),
            username: self.username.clone(),
            password: self.password.clone(),
            use_tls: self.use_tls,
            tls_skip_verify: self.tls_skip_verify,
            ca_cert_path: self.ca_cert_path.clone(),
        }
    }
}

impl Default for MariaDbSettings {
    fn default() -> (s: Self)
        ensures
            s.host@ == "localhost"@,
            s.port == 3306,
            s.database@ == "accounts"@,
            s.username@ == Seq::<char>::empty(),
            s.password@ == Seq::<char>::empty(),
            !s.use_tls,
            !s.tls_skip_verify,
            s.ca_cert_path@ == Seq::<char>::empty(),
    {
        MariaDbSettings {
            host: "localhost".to_owned(),
            port: 3306,
            database: "accounts".to_owned(),
            username: String::new(),
            password: String::new(),
            use_tls: false,
            tls_skip_verify: false,
            ca_cert_path: String::new(),
        }
    }
}

/// What the driver is told: the trimmed host, database and user, the port
/// and password as given, and the TLS settings when TLS is on.
#[derive(Clone, Debug, PartialEq, Eq)]
pub struct MariaDbOpts {
    pub host: String,
    pub port: u16,
    pub database: String,
    pub username: String,
    pub password: String,
    /// `Some` when TLS is on.
    pub tls: Option<MariaDbTls>,
}

/// TLS as the driver is told it.
#[derive(Clone, Debug, PartialEq, Eq)]
pub struct MariaDbTls {
    pub skip_domain_validation: bool,
    /// The extra authority to trust, trimmed; `None` when the field is blank.
    pub root_cert_path: Option<String>,
}

/// The key of the message for the first of host, database and user that is
/// blank, if any is.
pub open spec fn missing_field(host: Seq<char>, database: Seq<char>, username: Seq<char>) -> Option<Seq<char>> {
    if trim(host).len() == 0 {
        Some("database.needs_host"@)
    } else if trim(database).len() == 0 {
        Some("database.needs_name"@)
    } else if trim(username).len() == 0 {
        Some("database.needs_user"@)
    } else {
        None
    }
}

fn rejected(reg: &Registry, key: &str) -> (e: Error)
    requires
        reg.wf(),
    ensures
        e matches Error::Rejected(m) && m@ == said(reg.view(), key@),
{
    let none: Vec<(&str, String)> = Vec::new();
    assert(owned_bindings(none@) =~= Seq::empty());
    Error::Rejected(text(reg, key, none.as_slice()))
}

impl MariaDbSettings {
    /// The options to connect with. The three fields with no sensible
    /// default are checked first, so a half-filled form is refused at once
    /// and says which box is empty.
    pub fn opts(&self, reg: &Registry) -> (r: Result<MariaDbOpts, Error>)
        requires
            reg.wf(),
        ensures
            match missing_field(self.host@, self.database@, self.username@) {
                Some(key) => r matches Err(Error::Rejected(m)) && m@ == said(reg.view(), key),
                None => r matches Ok(o) && {
                    &&& o.host@ == trim(self.host@)
                    &&& o.port == self.port
                    &&& o.database@ == trim(self.database@)
                    &&& o.username@ == trim(self.username@)
                    &&& o.password@ == self.password@
                    &&& (o.tls is Some <==> self.use_tls)
                    &&& (o.tls matches Some(t) ==> t.skip_domain_validation == self.tls_skip_verify && match t.root_cert_path {
                        Some(p) => trim(self.ca_cert_path@).len() > 0 && p@ == trim(self.ca_cert_path@),
                        None => trim(self.ca_cert_path@).len() == 0,
                    })
                },
            },
    {
        let host = trimmed(&chars_of(self.host.as_str()));
        let database = trimmed(&chars_of(self.database.as_str()));
        let username = trimmed(&chars_of(self.username.as_str()));
        proof {
            reveal_strlit("database.needs_host");
            reveal_strlit("database.needs_name");
            reveal_strlit("database.needs_user");
        }
        if host.len() == 0 {
            return Err(rejected(reg, "database.needs_host"));
        }
        if database.len() == 0 {
            return Err(rejected(reg, "database.needs_name"));
        }
        if username.len() == 0 {
            return Err(rejected(reg, "database.needs_user"));
        }
        let tls = if self.use_tls {
            let ca = trimmed(&chars_of(self.ca_cert_path.as_str()));
            Some(MariaDbTls {
                skip_domain_validation: self.tls_skip_verify,
                root_cert_path: if ca.len() == 0 {
                    None
                } else {
                    Some(string_of(&ca))
                },
            })
        } else {
            None
        };
        Ok(MariaDbOpts {
            host: string_of(&host),
            port: self.port,
            database: string_of(&database),
            username: string_of(&username),
            password: self.password.clone(),
            tls,
        })
    }
}

/// An edit or delete that changed no row names an entry that is no longer
/// there.
pub fn not_found_unless_changed(reg: &Registry, changed: u64) -> (r: Result<(), Error>)
    requires
        reg.wf(),
    ensures
        changed == 0 <==> r is Err,
        r matches Err(e) ==> e matches Error::Rejected(m) && m@ == said(reg.view(), "entry.no_longer_exists"@),
{
    if changed == 0 {
        return Err(rejected(reg, "entry.no_longer_exists"));
    }
    Ok(())
}

} // verus!
