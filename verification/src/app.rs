//! The window's parts that are decisions rather than drawing: which tabs
//! there are, and what the status line says.

use vstd::prelude::*;

verus! {

/// The tabs down the left-hand side.
#[derive(Clone, Copy, PartialEq, Eq, Debug)]
pub enum Tab {
    Categories,
    Spending,
    Entries,
    Reports,
    Database,
    Settings,
}

pub open spec fn tab_title(t: Tab) -> Seq<char> {
    match t {
        Tab::Categories => "Categories"@,
        Tab::Spending => "Spending"@,
        Tab::Entries => "Entries"@,
        Tab::Reports => "Reports"@,
        Tab::Database => "Database"@,
        Tab::Settings => "Settings"@,
    }
}

impl Tab {
    /// Every tab, top to bottom.
    pub fn all() -> (ts: [Tab; 6])
        ensures
            ts@ == seq![Tab::Categories, Tab::Spending, Tab::Entries, Tab::Reports, Tab::Database, Tab::Settings],
    {
        let ts = [Tab::Categories, Tab::Spending, Tab::Entries, Tab::Reports, Tab::Database, Tab::Settings];
        assert(ts@ =~= seq![
            Tab::Categories,
            Tab::Spending,
            Tab::Entries,
            Tab::Reports,
            Tab::Database,
            Tab::Settings,
        ]);
        ts
    }

    pub fn title(self) -> (s: &'static str)
        ensures
            s@ == tab_title(self),
    {
        match self {
            Tab::Categories => "Categories",
            Tab::Spending => "Spending",
            Tab::Entries => "Entries",
            Tab::Reports => "Reports",
            Tab::Database => "Database",
            Tab::Settings => "Settings",
        }
    }
}

/// The last thing that happened, shown along the bottom of the window.
#[derive(Clone, Debug)]
pub struct Status {
    pub message: String,
    pub good: bool,
}

} // verus!
