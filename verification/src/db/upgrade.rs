//! Bringing a shared server's database up to per-owner data, once.
//!
//! A database made before data was scoped per login has no `owner` column,
//! and category names unique across everybody. The first connection finds
//! that out and fixes it in place: it adds the column, hands what is there to
//! whoever connected, and swaps the old uniqueness for one scoped to
//! (owner, name). The server's old constraint was never named, so its name is
//! looked up rather than guessed.
//!
//! The steps and the SQL are decided here, one answer at a time; the store
//! asks the server, runs what it is told, and hands the answer back.

use vstd::prelude::*;

use crate::strings::push_str;

verus! {

/// Which server's SQL to speak.
#[derive(Clone, Copy, Debug, PartialEq, Eq)]
pub enum Dialect {
    MariaDb,
    MsSql,
}

/// How far the upgrade has got.
#[derive(Clone, Copy, Debug, PartialEq, Eq)]
pub enum Upgrade {
    /// Asking whether `categories` has an `owner` column.
    LookingForOwner,
    /// Adding the columns and handing the rows to the owner.
    Claiming,
    /// Asking for the name of the old unique constraint on `name`.
    LookingForOldUnique,
    /// Dropping that constraint, if there was one, and adding the new one.
    Rescoping,
    /// Nothing more to do.
    Done,
}

/// What the server said, or that the statements asked for have run.
#[derive(Clone, Debug, PartialEq, Eq)]
pub enum UpgradeEvent {
    /// Whether `categories` has an `owner` column.
    OwnerColumn(bool),
    /// The name of the old unique constraint on `categories.name`, if any.
    OldUnique(Option<String>),
    /// Every statement of the last `Run` succeeded.
    StatementsRun,
}

/// One statement, and whether the owner is passed to it as its parameter.
#[derive(Clone, Debug, PartialEq, Eq)]
pub struct Statement {
    pub sql: String,
    pub binds_owner: bool,
}

/// What the store does next.
#[derive(Clone, Debug, PartialEq, Eq)]
pub enum UpgradeAction {
    /// Run this query; it yields a row exactly when the column is there.
    AskForOwnerColumn(String),
    /// Run these statements, in order.
    Run(Vec<Statement>),
    /// Run this query; its first row's first column is the constraint's name.
    AskForOldUnique(String),
    /// Stop: the database is up to date.
    Finish,
}

/// An action as plain values.
pub enum Planned {
    AskForOwnerColumn(Seq<char>),
    Run(Seq<(Seq<char>, bool)>),
    AskForOldUnique(Seq<char>),
    Finish,
}

pub open spec fn statements_view(v: Seq<Statement>) -> Seq<(Seq<char>, bool)> {
    Seq::new(v.len(), |i: int| (v[i].sql@, v[i].binds_owner))
}

pub open spec fn planned(a: UpgradeAction) -> Planned {
    match a {
        UpgradeAction::AskForOwnerColumn(q) => Planned::AskForOwnerColumn(q@),
        UpgradeAction::Run(v) => Planned::Run(statements_view(v@)),
        UpgradeAction::AskForOldUnique(q) => Planned::AskForOldUnique(q@),
        UpgradeAction::Finish => Planned::Finish,
    }
}

// ------------------------------------------------------------------ the SQL

pub open spec fn owner_column_query(d: Dialect) -> Seq<char> {
    match d {
        Dialect::MariaDb => "SELECT 1 FROM INFORMATION_SCHEMA.COLUMNS WHERE TABLE_SCHEMA = DATABASE() AND TABLE_NAME = 'categories' AND COLUMN_NAME = 'owner'"@,
        Dialect::MsSql => "SELECT 1 FROM INFORMATION_SCHEMA.COLUMNS WHERE TABLE_NAME = 'categories' AND COLUMN_NAME = 'owner'"@,
    }
}

/// The four statements that add the column to both tables and hand every
/// row to the owner.
pub open spec fn claim_statements(d: Dialect) -> Seq<(Seq<char>, bool)> {
    match d {
        Dialect::MariaDb => seq![
            ("ALTER TABLE categories ADD COLUMN owner VARCHAR(255) NOT NULL DEFAULT ''"@, false),
            ("ALTER TABLE spending ADD COLUMN owner VARCHAR(255) NOT NULL DEFAULT ''"@, false),
            ("UPDATE categories SET owner = :owner WHERE owner = ''"@, true),
            ("UPDATE spending SET owner = :owner WHERE owner = ''"@, true),
        ],
        Dialect::MsSql => seq![
            ("ALTER TABLE categories ADD owner NVARCHAR(255) NOT NULL DEFAULT ''"@, false),
            ("ALTER TABLE spending ADD owner NVARCHAR(255) NOT NULL DEFAULT ''"@, false),
            ("UPDATE categories SET owner = @P1 WHERE owner = ''"@, true),
            ("UPDATE spending SET owner = @P1 WHERE owner = ''"@, true),
        ],
    }
}

pub open spec fn old_unique_query(d: Dialect) -> Seq<char> {
    match d {
        Dialect::MariaDb => "SELECT INDEX_NAME FROM INFORMATION_SCHEMA.STATISTICS WHERE TABLE_SCHEMA = DATABASE() AND TABLE_NAME = 'categories' AND COLUMN_NAME = 'name' AND NON_UNIQUE = 0 AND INDEX_NAME <> 'PRIMARY' LIMIT 1"@,
        Dialect::MsSql => "SELECT kc.name FROM sys.key_constraints kc JOIN sys.index_columns ic ON ic.object_id = kc.parent_object_id AND ic.index_id = kc.unique_index_id JOIN sys.columns col ON col.object_id = ic.object_id AND col.column_id = ic.column_id WHERE kc.parent_object_id = OBJECT_ID('dbo.categories') AND kc.type = 'UQ' AND col.name = 'name'"@,
    }
}

/// The statement that drops the old constraint, by the name the server gave.
pub open spec fn drop_old_unique(d: Dialect, name: Seq<char>) -> Seq<char> {
    match d {
        Dialect::MariaDb => "DROP INDEX `"@ + name + "` ON categories"@,
        Dialect::MsSql => "ALTER TABLE categories DROP CONSTRAINT ["@ + name + "]"@,
    }
}

pub open spec fn add_owner_unique() -> Seq<char> {
    "ALTER TABLE categories ADD CONSTRAINT categories_owner_name UNIQUE (owner, name)"@
}

// ------------------------------------------------------------------ the steps

/// Where the upgrade starts: asking for the owner column.
pub open spec fn upgrade_begins(d: Dialect) -> (Upgrade, Planned) {
    (Upgrade::LookingForOwner, Planned::AskForOwnerColumn(owner_column_query(d)))
}

/// The next stage and action, given what came back. An answer that does not
/// fit the stage ends the upgrade without running anything more.
pub open spec fn next_upgrade(d: Dialect, state: Upgrade, event: UpgradeEvent) -> (Upgrade, Planned) {
    match (state, event) {
        (Upgrade::LookingForOwner, UpgradeEvent::OwnerColumn(true)) => (Upgrade::Done, Planned::Finish),
        (Upgrade::LookingForOwner, UpgradeEvent::OwnerColumn(false)) => (
            Upgrade::Claiming,
            Planned::Run(claim_statements(d)),
        ),
        (Upgrade::Claiming, UpgradeEvent::StatementsRun) => (
            Upgrade::LookingForOldUnique,
            Planned::AskForOldUnique(old_unique_query(d)),
        ),
        (Upgrade::LookingForOldUnique, UpgradeEvent::OldUnique(Some(name))) => (
            Upgrade::Rescoping,
            Planned::Run(seq![(drop_old_unique(d, name@), false), (add_owner_unique(), false)]),
        ),
        (Upgrade::LookingForOldUnique, UpgradeEvent::OldUnique(None)) => (
            Upgrade::Rescoping,
            Planned::Run(seq![(add_owner_unique(), false)]),
        ),
        _ => (Upgrade::Done, Planned::Finish),
    }
}

fn statement(sql: &str, binds_owner: bool) -> (s: Statement)
    ensures
        s.sql@ == sql@,
        s.binds_owner == binds_owner,
{
    Statement { sql: sql.to_owned(), binds_owner }
}

fn owner_column_query_of(d: Dialect) -> (q: String)
    ensures
        q@ == owner_column_query(d),
{
    match d {
        Dialect::MariaDb => "SELECT 1 FROM INFORMATION_SCHEMA.COLUMNS WHERE TABLE_SCHEMA = DATABASE() AND TABLE_NAME = 'categories' AND COLUMN_NAME = 'owner'".to_owned(),
        Dialect::MsSql => "SELECT 1 FROM INFORMATION_SCHEMA.COLUMNS WHERE TABLE_NAME = 'categories' AND COLUMN_NAME = 'owner'".to_owned(),
    }
}

fn claim_statements_of(d: Dialect) -> (v: Vec<Statement>)
    ensures
        statements_view(v@) == claim_statements(d),
{
    let mut v: Vec<Statement> = Vec::new();
    match d {
        Dialect::MariaDb => {
            v.push(statement("ALTER TABLE categories ADD COLUMN owner VARCHAR(255) NOT NULL DEFAULT ''", false));
            v.push(statement("ALTER TABLE spending ADD COLUMN owner VARCHAR(255) NOT NULL DEFAULT ''", false));
            v.push(statement("UPDATE categories SET owner = :owner WHERE owner = ''", true));
            v.push(statement("UPDATE spending SET owner = :owner WHERE owner = ''", true));
        },
        Dialect::MsSql => {
            v.push(statement("ALTER TABLE categories ADD owner NVARCHAR(255) NOT NULL DEFAULT ''", false));
            v.push(statement("ALTER TABLE spending ADD owner NVARCHAR(255) NOT NULL DEFAULT ''", false));
            v.push(statement("UPDATE categories SET owner = @P1 WHERE owner = ''", true));
            v.push(statement("UPDATE spending SET owner = @P1 WHERE owner = ''", true));
        },
    }
    assert(statements_view(v@) =~= claim_statements(d));
    v
}

fn old_unique_query_of(d: Dialect) -> (q: String)
    ensures
        q@ == old_unique_query(d),
{
    match d {
        Dialect::MariaDb => "SELECT INDEX_NAME FROM INFORMATION_SCHEMA.STATISTICS WHERE TABLE_SCHEMA = DATABASE() AND TABLE_NAME = 'categories' AND COLUMN_NAME = 'name' AND NON_UNIQUE = 0 AND INDEX_NAME <> 'PRIMARY' LIMIT 1".to_owned(),
        Dialect::MsSql => "SELECT kc.name FROM sys.key_constraints kc JOIN sys.index_columns ic ON ic.object_id = kc.parent_object_id AND ic.index_id = kc.unique_index_id JOIN sys.columns col ON col.object_id = ic.object_id AND col.column_id = ic.column_id WHERE kc.parent_object_id = OBJECT_ID('dbo.categories') AND kc.type = 'UQ' AND col.name = 'name'".to_owned(),
    }
}

fn drop_old_unique_of(d: Dialect, name: &str) -> (s: String)
    ensures
        s@ == drop_old_unique(d, name@),
{
    let mut s = String::new();
    match d {
        Dialect::MariaDb => {
            push_str(&mut s, "DROP INDEX `");
            push_str(&mut s, name);
            push_str(&mut s, "` ON categories");
        },
        Dialect::MsSql => {
            push_str(&mut s, "ALTER TABLE categories DROP CONSTRAINT [");
            push_str(&mut s, name);
            push_str(&mut s, "]");
        },
    }
    assert(s@ =~= drop_old_unique(d, name@));
    s
}

/// Where the upgrade starts: asking whether the owner column is there.
pub fn upgrade_start(d: Dialect) -> (r: (Upgrade, UpgradeAction))
    ensures
        (r.0, planned(r.1)) == upgrade_begins(d),
{
    (Upgrade::LookingForOwner, UpgradeAction::AskForOwnerColumn(owner_column_query_of(d)))
}

/// The next stage of the upgrade and what the store does next, given what
/// came back from the last action.
pub fn upgrade_step(d: Dialect, state: Upgrade, event: UpgradeEvent) -> (r: (Upgrade, UpgradeAction))
    ensures
        (r.0, planned(r.1)) == next_upgrade(d, state, event),
{
    match (state, event) {
        (Upgrade::LookingForOwner, UpgradeEvent::OwnerColumn(true)) => (Upgrade::Done, UpgradeAction::Finish),
        (Upgrade::LookingForOwner, UpgradeEvent::OwnerColumn(false)) => (
            Upgrade::Claiming,
            UpgradeAction::Run(claim_statements_of(d)),
        ),
        (Upgrade::Claiming, UpgradeEvent::StatementsRun) => (
            Upgrade::LookingForOldUnique,
            UpgradeAction::AskForOldUnique(old_unique_query_of(d)),
        ),
        (Upgrade::LookingForOldUnique, UpgradeEvent::OldUnique(Some(name))) => {
            let mut v: Vec<Statement> = Vec::new();
            v.push(Statement { sql: drop_old_unique_of(d, name.as_str()), binds_owner: false });
            v.push(statement("ALTER TABLE categories ADD CONSTRAINT categories_owner_name UNIQUE (owner, name)", false));
            assert(statements_view(v@) =~= seq![(drop_old_unique(d, name@), false), (add_owner_unique(), false)]);
            (Upgrade::Rescoping, UpgradeAction::Run(v))
        },
        (Upgrade::LookingForOldUnique, UpgradeEvent::OldUnique(None)) => {
            let mut v: Vec<Statement> = Vec::new();
            v.push(statement("ALTER TABLE categories ADD CONSTRAINT categories_owner_name UNIQUE (owner, name)", false));
            assert(statements_view(v@) =~= seq![(add_owner_unique(), false)]);
            (Upgrade::Rescoping, UpgradeAction::Run(v))
        },
        _ => (Upgrade::Done, UpgradeAction::Finish),
    }
}

/// The upgrade always comes to an end: after four answers, whatever they
/// are, it is done, and a database that already has the owner column is done
/// after the first, with nothing run.
pub proof fn the_upgrade_finishes(d: Dialect, e1: UpgradeEvent, e2: UpgradeEvent, e3: UpgradeEvent, e4: UpgradeEvent)
    ensures
        ({
            let s1 = next_upgrade(d, upgrade_begins(d).0, e1).0;
            let s2 = next_upgrade(d, s1, e2).0;
            let s3 = next_upgrade(d, s2, e3).0;
            next_upgrade(d, s3, e4).0 == Upgrade::Done
        }),
        next_upgrade(d, upgrade_begins(d).0, UpgradeEvent::OwnerColumn(true)) == (Upgrade::Done, Planned::Finish),
{
}

} // verus!
