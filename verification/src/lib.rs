//! Budgeting logic: locale-aware money and dates, language files, reports,
//! and the small decisions around storage and updates.

pub mod app;
pub mod calendar;
pub mod config;
pub mod db;
pub mod i18n;
pub mod locale;
pub mod report;
pub mod round_trip;
pub mod strings;
pub mod ui;
pub mod update;
