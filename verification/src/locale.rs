//! Locale rules, and the formatting and parsing that follow from them.
//!
//! Everything the user reads or types that is a number or a date goes through
//! here, so that a person in London sees `£12.34` and `11/08/2026` while a
//! person in Berlin sees `12,34 €` and `11.08.2026` — from the same code, and
//! parsed back the same way it was printed.
//!
//! The rules come from a table of regions. Anything not in the table falls
//! back to a neutral profile (ISO dates, the generic currency sign) rather
//! than quietly pretending to be American.

use vstd::prelude::*;

use crate::calendar::{valid_ymd, Date};
use crate::i18n::catalogue::filled;
use crate::i18n::{counted, owned_bindings, plural, said, template_of, text, Registry, RegistryView};
use crate::strings::{
    all_digits, all_digits_of, chars_of, decimal, decimal_of, digits_up_to, digits_value,
    drop_empty, find_char, find_char_from, is_alpha, is_upper, is_whitespace, is_ws,
    lemma_pow10_bounds, lemma_split_on_nonempty, nonempty_pieces_of, pow10, pow10_of, push_all,
    push_range, remove_all, remove_all_of, slice_of, split_on, split_on_of, str_eq, string_of,
    to_upper, trim, trimmed, upper, views, zero_padded, zero_padded_of, zeros,
};

verus! {

/// Order of the parts in a numeric date.
#[derive(Clone, Copy, PartialEq, Eq, Debug)]
pub enum DateOrder {
    /// 11/08/2026 — most of Europe, Latin America, Africa, Oceania.
    Dmy,
    /// 08/11/2026 — the United States and a few others.
    Mdy,
    /// 2026-08-11 — ISO order.
    Ymd,
}

/// How digits are grouped to the left of the decimal separator.
#[derive(Clone, Copy, PartialEq, Eq, Debug)]
pub enum Grouping {
    /// Groups of three: 1,234,567.
    Western,
    /// Three, then twos: 12,34,567 (the lakh/crore system).
    Indian,
}

/// Where the currency symbol sits relative to the digits.
#[derive(Clone, Copy, PartialEq, Eq, Debug)]
pub enum SymbolPosition {
    /// £12.34
    Prefix,
    /// 12,34 €
    Suffix,
}

#[derive(Clone, Copy, Debug)]
pub struct Currency {
    pub code: &'static str,
    pub symbol: &'static str,
    /// Digits after the decimal separator: 2 for most, 0 for yen and won.
    pub decimals: u32,
}

/// Everything the app needs to know about how this user writes things down.
#[derive(Clone, Debug)]
pub struct Locale {
    /// The tag resolved from, e.g. `en-GB`.
    pub tag: String,
    pub currency: Currency,
    pub symbol_position: SymbolPosition,
    /// A space between symbol and digits (a no-break one, when printed).
    pub symbol_space: bool,
    pub decimal_sep: char,
    pub group_sep: char,
    pub grouping: Grouping,
    pub date_order: DateOrder,
    pub date_sep: char,
}

/// One row of the region table.
#[derive(Clone, Copy)]
pub struct RegionRules {
    pub currency: &'static str,
    pub symbol_position: SymbolPosition,
    pub symbol_space: bool,
    pub decimal_sep: char,
    pub group_sep: char,
    pub grouping: Grouping,
    pub date_order: DateOrder,
    pub date_sep: char,
}

/// A no-break space.
pub open spec fn nbsp() -> char {
    '\u{a0}'
}

pub open spec fn rules(
    currency: &'static str,
    symbol_position: SymbolPosition,
    symbol_space: bool,
    decimal_sep: char,
    group_sep: char,
    grouping: Grouping,
    date_order: DateOrder,
    date_sep: char,
) -> RegionRules {
    RegionRules {
        currency,
        symbol_position,
        symbol_space,
        decimal_sep,
        group_sep,
        grouping,
        date_order,
        date_sep,
    }
}

/// One row of the table, built from its columns.
fn r(
    currency: &'static str,
    symbol_position: SymbolPosition,
    symbol_space: bool,
    decimal_sep: char,
    group_sep: char,
    grouping: Grouping,
    date_order: DateOrder,
    date_sep: char,
) -> (row: RegionRules)
    ensures
        row == rules(
            currency,
            symbol_position,
            symbol_space,
            decimal_sep,
            group_sep,
            grouping,
            date_order,
            date_sep,
        ),
{
    RegionRules {
        currency,
        symbol_position,
        symbol_space,
        decimal_sep,
        group_sep,
        grouping,
        date_order,
        date_sep,
    }
}

/// The rules for a two-letter region, by its letters.
pub open spec fn region_rules(a: char, b: char) -> Option<RegionRules> {
    match a {
        'G' => match b {
            'B' => Some(rules("GBP", SymbolPosition::Prefix, false, '.', ',', Grouping::Western, DateOrder::Dmy, '/')),
            'R' => Some(rules("EUR", SymbolPosition::Suffix, true, ',', '.', Grouping::Western, DateOrder::Dmy, '/')),
            _ => None,
        },
        'I' => match b {
            'E' => Some(rules("EUR", SymbolPosition::Prefix, false, '.', ',', Grouping::Western, DateOrder::Dmy, '/')),
            'T' => Some(rules("EUR", SymbolPosition::Suffix, true, ',', '.', Grouping::Western, DateOrder::Dmy, '/')),
            'S' => Some(rules("ISK", SymbolPosition::Suffix, true, ',', '.', Grouping::Western, DateOrder::Dmy, '.')),
            'L' => Some(rules("ILS", SymbolPosition::Prefix, false, '.', ',', Grouping::Western, DateOrder::Dmy, '.')),
            'N' => Some(rules("INR", SymbolPosition::Prefix, false, '.', ',', Grouping::Indian, DateOrder::Dmy, '/')),
            'D' => Some(rules("IDR", SymbolPosition::Prefix, true, ',', '.', Grouping::Western, DateOrder::Dmy, '/')),
            _ => None,
        },
        'U' => match b {
            'S' => Some(rules("USD", SymbolPosition::Prefix, false, '.', ',', Grouping::Western, DateOrder::Mdy, '/')),
            'A' => Some(rules("UAH", SymbolPosition::Suffix, true, ',', '\u{a0}', Grouping::Western, DateOrder::Dmy, '.')),
            _ => None,
        },
        'C' => match b {
            'A' => Some(rules("CAD", SymbolPosition::Prefix, false, '.', ',', Grouping::Western, DateOrder::Ymd, '-')),
            'H' => Some(rules("CHF", SymbolPosition::Prefix, true, '.', '\u{2019}', Grouping::Western, DateOrder::Dmy, '.')),
            'Z' => Some(rules("CZK", SymbolPosition::Suffix, true, ',', '\u{a0}', Grouping::Western, DateOrder::Dmy, '.')),
            'N' => Some(rules("CNY", SymbolPosition::Prefix, false, '.', ',', Grouping::Western, DateOrder::Ymd, '/')),
            'L' => Some(rules("CLP", SymbolPosition::Prefix, true, ',', '.', Grouping::Western, DateOrder::Dmy, '-')),
            'O' => Some(rules("COP", SymbolPosition::Prefix, true, ',', '.', Grouping::Western, DateOrder::Dmy, '/')),
            _ => None,
        },
        'A' => match b {
            'U' => Some(rules("AUD", SymbolPosition::Prefix, false, '.', ',', Grouping::Western, DateOrder::Dmy, '/')),
            'T' => Some(rules("EUR", SymbolPosition::Suffix, true, ',', '.', Grouping::Western, DateOrder::Dmy, '.')),
            'E' => Some(rules("AED", SymbolPosition::Prefix, true, '.', ',', Grouping::Western, DateOrder::Dmy, '/')),
            'R' => Some(rules("ARS", SymbolPosition::Prefix, true, ',', '.', Grouping::Western, DateOrder::Dmy, '/')),
            _ => None,
        },
        'N' => match b {
            'Z' => Some(rules("NZD", SymbolPosition::Prefix, false, '.', ',', Grouping::Western, DateOrder::Dmy, '/')),
            'L' => Some(rules("EUR", SymbolPosition::Prefix, true, ',', '.', Grouping::Western, DateOrder::Dmy, '-')),
            'O' => Some(rules("NOK", SymbolPosition::Suffix, true, ',', '\u{a0}', Grouping::Western, DateOrder::Dmy, '.')),
            'G' => Some(rules("NGN", SymbolPosition::Prefix, false, '.', ',', Grouping::Western, DateOrder::Dmy, '/')),
            _ => None,
        },
        'D' => match b {
            'E' => Some(rules("EUR", SymbolPosition::Suffix, true, ',', '.', Grouping::Western, DateOrder::Dmy, '.')),
            'K' => Some(rules("DKK", SymbolPosition::Suffix, true, ',', '.', Grouping::Western, DateOrder::Dmy, '.')),
            _ => None,
        },
        'F' => match b {
            'R' => Some(rules("EUR", SymbolPosition::Suffix, true, ',', '\u{202f}', Grouping::Western, DateOrder::Dmy, '/')),
            'I' => Some(rules("EUR", SymbolPosition::Suffix, true, ',', '\u{202f}', Grouping::Western, DateOrder::Dmy, '.')),
            _ => None,
        },
        'B' => match b {
            'E' => Some(rules("EUR", SymbolPosition::Suffix, true, ',', '.', Grouping::Western, DateOrder::Dmy, '/')),
            'G' => Some(rules("BGN", SymbolPosition::Suffix, true, ',', '\u{a0}', Grouping::Western, DateOrder::Dmy, '.')),
            'D' => Some(rules("BDT", SymbolPosition::Prefix, false, '.', ',', Grouping::Indian, DateOrder::Dmy, '/')),
            'R' => Some(rules("BRL", SymbolPosition::Prefix, true, ',', '.', Grouping::Western, DateOrder::Dmy, '/')),
            _ => None,
        },
        'L' => match b {
            'U' => Some(rules("EUR", SymbolPosition::Suffix, true, ',', '.', Grouping::Western, DateOrder::Dmy, '.')),
            'K' => Some(rules("LKR", SymbolPosition::Prefix, true, '.', ',', Grouping::Western, DateOrder::Dmy, '/')),
            _ => None,
        },
        'E' => match b {
            'S' => Some(rules("EUR", SymbolPosition::Suffix, true, ',', '.', Grouping::Western, DateOrder::Dmy, '/')),
            'G' => Some(rules("EGP", SymbolPosition::Prefix, true, '.', ',', Grouping::Western, DateOrder::Dmy, '/')),
            _ => None,
        },
        'P' => match b {
            'T' => Some(rules("EUR", SymbolPosition::Suffix, true, ',', '.', Grouping::Western, DateOrder::Dmy, '/')),
            'L' => Some(rules("PLN", SymbolPosition::Suffix, true, ',', '\u{a0}', Grouping::Western, DateOrder::Dmy, '.')),
            'K' => Some(rules("PKR", SymbolPosition::Prefix, true, '.', ',', Grouping::Indian, DateOrder::Dmy, '/')),
            'H' => Some(rules("PHP", SymbolPosition::Prefix, false, '.', ',', Grouping::Western, DateOrder::Mdy, '/')),
            'E' => Some(rules("PEN", SymbolPosition::Prefix, true, '.', ',', Grouping::Western, DateOrder::Dmy, '/')),
            _ => None,
        },
        'S' => match b {
            'E' => Some(rules("SEK", SymbolPosition::Suffix, true, ',', '\u{a0}', Grouping::Western, DateOrder::Ymd, '-')),
            'K' => Some(rules("EUR", SymbolPosition::Suffix, true, ',', '\u{a0}', Grouping::Western, DateOrder::Dmy, '.')),
            'I' => Some(rules("EUR", SymbolPosition::Suffix, true, ',', '.', Grouping::Western, DateOrder::Dmy, '.')),
            'A' => Some(rules("SAR", SymbolPosition::Prefix, true, '.', ',', Grouping::Western, DateOrder::Dmy, '/')),
            'G' => Some(rules("SGD", SymbolPosition::Prefix, false, '.', ',', Grouping::Western, DateOrder::Dmy, '/')),
            _ => None,
        },
        'H' => match b {
            'U' => Some(rules("HUF", SymbolPosition::Suffix, true, ',', '\u{a0}', Grouping::Western, DateOrder::Ymd, '.')),
            'R' => Some(rules("EUR", SymbolPosition::Suffix, true, ',', '.', Grouping::Western, DateOrder::Dmy, '.')),
            'K' => Some(rules("HKD", SymbolPosition::Prefix, false, '.', ',', Grouping::Western, DateOrder::Dmy, '/')),
            _ => None,
        },
        'R' => match b {
            'O' => Some(rules("RON", SymbolPosition::Suffix, true, ',', '.', Grouping::Western, DateOrder::Dmy, '.')),
            'U' => Some(rules("RUB", SymbolPosition::Suffix, true, ',', '\u{a0}', Grouping::Western, DateOrder::Dmy, '.')),
            _ => None,
        },
        'T' => match b {
            'R' => Some(rules("TRY", SymbolPosition::Prefix, false, ',', '.', Grouping::Western, DateOrder::Dmy, '.')),
            'W' => Some(rules("TWD", SymbolPosition::Prefix, false, '.', ',', Grouping::Western, DateOrder::Ymd, '/')),
            'H' => Some(rules("THB", SymbolPosition::Prefix, false, '.', ',', Grouping::Western, DateOrder::Dmy, '/')),
            _ => None,
        },
        'Z' => match b {
            'A' => Some(rules("ZAR", SymbolPosition::Prefix, true, ',', '\u{a0}', Grouping::Western, DateOrder::Ymd, '/')),
            _ => None,
        },
        'K' => match b {
            'E' => Some(rules("KES", SymbolPosition::Prefix, true, '.', ',', Grouping::Western, DateOrder::Dmy, '/')),
            'R' => Some(rules("KRW", SymbolPosition::Prefix, false, '.', ',', Grouping::Western, DateOrder::Ymd, '.')),
            _ => None,
        },
        'J' => match b {
            'P' => Some(rules("JPY", SymbolPosition::Prefix, false, '.', ',', Grouping::Western, DateOrder::Ymd, '/')),
            _ => None,
        },
        'M' => match b {
            'Y' => Some(rules("MYR", SymbolPosition::Prefix, false, '.', ',', Grouping::Western, DateOrder::Dmy, '/')),
            'X' => Some(rules("MXN", SymbolPosition::Prefix, false, '.', ',', Grouping::Western, DateOrder::Dmy, '/')),
            _ => None,
        },
        'V' => match b {
            'N' => Some(rules("VND", SymbolPosition::Suffix, true, ',', '.', Grouping::Western, DateOrder::Dmy, '/')),
            _ => None,
        },
        _ => None,
    }
}

#[verifier::rlimit(100)]
#[verifier::spinoff_prover]
fn rules_for(a: char, b: char) -> (found: Option<RegionRules>)
    ensures
        found == region_rules(a, b),
{
    match a {
        'G' => match b {
            'B' => Some(r("GBP", SymbolPosition::Prefix, false, '.', ',', Grouping::Western, DateOrder::Dmy, '/')),
            'R' => Some(r("EUR", SymbolPosition::Suffix, true, ',', '.', Grouping::Western, DateOrder::Dmy, '/')),
            _ => None,
        },
        'I' => match b {
            'E' => Some(r("EUR", SymbolPosition::Prefix, false, '.', ',', Grouping::Western, DateOrder::Dmy, '/')),
            'T' => Some(r("EUR", SymbolPosition::Suffix, true, ',', '.', Grouping::Western, DateOrder::Dmy, '/')),
            'S' => Some(r("ISK", SymbolPosition::Suffix, true, ',', '.', Grouping::Western, DateOrder::Dmy, '.')),
            'L' => Some(r("ILS", SymbolPosition::Prefix, false, '.', ',', Grouping::Western, DateOrder::Dmy, '.')),
            'N' => Some(r("INR", SymbolPosition::Prefix, false, '.', ',', Grouping::Indian, DateOrder::Dmy, '/')),
            'D' => Some(r("IDR", SymbolPosition::Prefix, true, ',', '.', Grouping::Western, DateOrder::Dmy, '/')),
            _ => None,
        },
        'U' => match b {
            'S' => Some(r("USD", SymbolPosition::Prefix, false, '.', ',', Grouping::Western, DateOrder::Mdy, '/')),
            'A' => Some(r("UAH", SymbolPosition::Suffix, true, ',', '\u{a0}', Grouping::Western, DateOrder::Dmy, '.')),
            _ => None,
        },
        'C' => match b {
            'A' => Some(r("CAD", SymbolPosition::Prefix, false, '.', ',', Grouping::Western, DateOrder::Ymd, '-')),
            'H' => Some(r("CHF", SymbolPosition::Prefix, true, '.', '\u{2019}', Grouping::Western, DateOrder::Dmy, '.')),
            'Z' => Some(r("CZK", SymbolPosition::Suffix, true, ',', '\u{a0}', Grouping::Western, DateOrder::Dmy, '.')),
            'N' => Some(r("CNY", SymbolPosition::Prefix, false, '.', ',', Grouping::Western, DateOrder::Ymd, '/')),
            'L' => Some(r("CLP", SymbolPosition::Prefix, true, ',', '.', Grouping::Western, DateOrder::Dmy, '-')),
            'O' => Some(r("COP", SymbolPosition::Prefix, true, ',', '.', Grouping::Western, DateOrder::Dmy, '/')),
            _ => None,
        },
        'A' => match b {
            'U' => Some(r("AUD", SymbolPosition::Prefix, false, '.', ',', Grouping::Western, DateOrder::Dmy, '/')),
            'T' => Some(r("EUR", SymbolPosition::Suffix, true, ',', '.', Grouping::Western, DateOrder::Dmy, '.')),
            'E' => Some(r("AED", SymbolPosition::Prefix, true, '.', ',', Grouping::Western, DateOrder::Dmy, '/')),
            'R' => Some(r("ARS", SymbolPosition::Prefix, true, ',', '.', Grouping::Western, DateOrder::Dmy, '/')),
            _ => None,
        },
        'N' => match b {
            'Z' => Some(r("NZD", SymbolPosition::Prefix, false, '.', ',', Grouping::Western, DateOrder::Dmy, '/')),
            'L' => Some(r("EUR", SymbolPosition::Prefix, true, ',', '.', Grouping::Western, DateOrder::Dmy, '-')),
            'O' => Some(r("NOK", SymbolPosition::Suffix, true, ',', '\u{a0}', Grouping::Western, DateOrder::Dmy, '.')),
            'G' => Some(r("NGN", SymbolPosition::Prefix, false, '.', ',', Grouping::Western, DateOrder::Dmy, '/')),
            _ => None,
        },
        'D' => match b {
            'E' => Some(r("EUR", SymbolPosition::Suffix, true, ',', '.', Grouping::Western, DateOrder::Dmy, '.')),
            'K' => Some(r("DKK", SymbolPosition::Suffix, true, ',', '.', Grouping::Western, DateOrder::Dmy, '.')),
            _ => None,
        },
        'F' => match b {
            'R' => Some(r("EUR", SymbolPosition::Suffix, true, ',', '\u{202f}', Grouping::Western, DateOrder::Dmy, '/')),
            'I' => Some(r("EUR", SymbolPosition::Suffix, true, ',', '\u{202f}', Grouping::Western, DateOrder::Dmy, '.')),
            _ => None,
        },
        'B' => match b {
            'E' => Some(r("EUR", SymbolPosition::Suffix, true, ',', '.', Grouping::Western, DateOrder::Dmy, '/')),
            'G' => Some(r("BGN", SymbolPosition::Suffix, true, ',', '\u{a0}', Grouping::Western, DateOrder::Dmy, '.')),
            'D' => Some(r("BDT", SymbolPosition::Prefix, false, '.', ',', Grouping::Indian, DateOrder::Dmy, '/')),
            'R' => Some(r("BRL", SymbolPosition::Prefix, true, ',', '.', Grouping::Western, DateOrder::Dmy, '/')),
            _ => None,
        },
        'L' => match b {
            'U' => Some(r("EUR", SymbolPosition::Suffix, true, ',', '.', Grouping::Western, DateOrder::Dmy, '.')),
            'K' => Some(r("LKR", SymbolPosition::Prefix, true, '.', ',', Grouping::Western, DateOrder::Dmy, '/')),
            _ => None,
        },
        'E' => match b {
            'S' => Some(r("EUR", SymbolPosition::Suffix, true, ',', '.', Grouping::Western, DateOrder::Dmy, '/')),
            'G' => Some(r("EGP", SymbolPosition::Prefix, true, '.', ',', Grouping::Western, DateOrder::Dmy, '/')),
            _ => None,
        },
        'P' => match b {
            'T' => Some(r("EUR", SymbolPosition::Suffix, true, ',', '.', Grouping::Western, DateOrder::Dmy, '/')),
            'L' => Some(r("PLN", SymbolPosition::Suffix, true, ',', '\u{a0}', Grouping::Western, DateOrder::Dmy, '.')),
            'K' => Some(r("PKR", SymbolPosition::Prefix, true, '.', ',', Grouping::Indian, DateOrder::Dmy, '/')),
            'H' => Some(r("PHP", SymbolPosition::Prefix, false, '.', ',', Grouping::Western, DateOrder::Mdy, '/')),
            'E' => Some(r("PEN", SymbolPosition::Prefix, true, '.', ',', Grouping::Western, DateOrder::Dmy, '/')),
            _ => None,
        },
        'S' => match b {
            'E' => Some(r("SEK", SymbolPosition::Suffix, true, ',', '\u{a0}', Grouping::Western, DateOrder::Ymd, '-')),
            'K' => Some(r("EUR", SymbolPosition::Suffix, true, ',', '\u{a0}', Grouping::Western, DateOrder::Dmy, '.')),
            'I' => Some(r("EUR", SymbolPosition::Suffix, true, ',', '.', Grouping::Western, DateOrder::Dmy, '.')),
            'A' => Some(r("SAR", SymbolPosition::Prefix, true, '.', ',', Grouping::Western, DateOrder::Dmy, '/')),
            'G' => Some(r("SGD", SymbolPosition::Prefix, false, '.', ',', Grouping::Western, DateOrder::Dmy, '/')),
            _ => None,
        },
        'H' => match b {
            'U' => Some(r("HUF", SymbolPosition::Suffix, true, ',', '\u{a0}', Grouping::Western, DateOrder::Ymd, '.')),
            'R' => Some(r("EUR", SymbolPosition::Suffix, true, ',', '.', Grouping::Western, DateOrder::Dmy, '.')),
            'K' => Some(r("HKD", SymbolPosition::Prefix, false, '.', ',', Grouping::Western, DateOrder::Dmy, '/')),
            _ => None,
        },
        'R' => match b {
            'O' => Some(r("RON", SymbolPosition::Suffix, true, ',', '.', Grouping::Western, DateOrder::Dmy, '.')),
            'U' => Some(r("RUB", SymbolPosition::Suffix, true, ',', '\u{a0}', Grouping::Western, DateOrder::Dmy, '.')),
            _ => None,
        },
        'T' => match b {
            'R' => Some(r("TRY", SymbolPosition::Prefix, false, ',', '.', Grouping::Western, DateOrder::Dmy, '.')),
            'W' => Some(r("TWD", SymbolPosition::Prefix, false, '.', ',', Grouping::Western, DateOrder::Ymd, '/')),
            'H' => Some(r("THB", SymbolPosition::Prefix, false, '.', ',', Grouping::Western, DateOrder::Dmy, '/')),
            _ => None,
        },
        'Z' => match b {
            'A' => Some(r("ZAR", SymbolPosition::Prefix, true, ',', '\u{a0}', Grouping::Western, DateOrder::Ymd, '/')),
            _ => None,
        },
        'K' => match b {
            'E' => Some(r("KES", SymbolPosition::Prefix, true, '.', ',', Grouping::Western, DateOrder::Dmy, '/')),
            'R' => Some(r("KRW", SymbolPosition::Prefix, false, '.', ',', Grouping::Western, DateOrder::Ymd, '.')),
            _ => None,
        },
        'J' => match b {
            'P' => Some(r("JPY", SymbolPosition::Prefix, false, '.', ',', Grouping::Western, DateOrder::Ymd, '/')),
            _ => None,
        },
        'M' => match b {
            'Y' => Some(r("MYR", SymbolPosition::Prefix, false, '.', ',', Grouping::Western, DateOrder::Dmy, '/')),
            'X' => Some(r("MXN", SymbolPosition::Prefix, false, '.', ',', Grouping::Western, DateOrder::Dmy, '/')),
            _ => None,
        },
        'V' => match b {
            'N' => Some(r("VND", SymbolPosition::Suffix, true, ',', '.', Grouping::Western, DateOrder::Dmy, '/')),
            _ => None,
        },
        _ => None,
    }
}

/// What is used when the region is missing or unknown: the generic currency
/// sign, so nothing on screen claims to be a currency that was not identified.
pub open spec fn unknown_currency() -> Currency {
    Currency { code: "XXX", symbol: "\u{a4}", decimals: 2 }
}

fn unknown_currency_of() -> (c: Currency)
    ensures
        c == unknown_currency(),
{
    Currency { code: "XXX", symbol: "\u{a4}", decimals: 2 }
}

/// Symbols and minor-unit counts, keyed by ISO 4217 code.
pub open spec fn currency_named(code: Seq<char>) -> Currency {
    if code == "GBP"@ {
        Currency { code: "GBP", symbol: "£", decimals: 2 }
    } else if code == "EUR"@ {
        Currency { code: "EUR", symbol: "€", decimals: 2 }
    } else if code == "USD"@ {
        Currency { code: "USD", symbol: "$", decimals: 2 }
    } else if code == "CAD"@ {
        Currency { code: "CAD", symbol: "$", decimals: 2 }
    } else if code == "AUD"@ {
        Currency { code: "AUD", symbol: "$", decimals: 2 }
    } else if code == "NZD"@ {
        Currency { code: "NZD", symbol: "$", decimals: 2 }
    } else if code == "CHF"@ {
        Currency { code: "CHF", symbol: "CHF", decimals: 2 }
    } else if code == "SEK"@ {
        Currency { code: "SEK", symbol: "kr", decimals: 2 }
    } else if code == "NOK"@ {
        Currency { code: "NOK", symbol: "kr", decimals: 2 }
    } else if code == "DKK"@ {
        Currency { code: "DKK", symbol: "kr", decimals: 2 }
    } else if code == "ISK"@ {
        Currency { code: "ISK", symbol: "kr", decimals: 0 }
    } else if code == "PLN"@ {
        Currency { code: "PLN", symbol: "zł", decimals: 2 }
    } else if code == "CZK"@ {
        Currency { code: "CZK", symbol: "Kč", decimals: 2 }
    } else if code == "HUF"@ {
        Currency { code: "HUF", symbol: "Ft", decimals: 2 }
    } else if code == "RON"@ {
        Currency { code: "RON", symbol: "lei", decimals: 2 }
    } else if code == "BGN"@ {
        Currency { code: "BGN", symbol: "лв.", decimals: 2 }
    } else if code == "RUB"@ {
        Currency { code: "RUB", symbol: "₽", decimals: 2 }
    } else if code == "UAH"@ {
        Currency { code: "UAH", symbol: "₴", decimals: 2 }
    } else if code == "TRY"@ {
        Currency { code: "TRY", symbol: "₺", decimals: 2 }
    } else if code == "ILS"@ {
        Currency { code: "ILS", symbol: "₪", decimals: 2 }
    } else if code == "AED"@ {
        Currency { code: "AED", symbol: "AED", decimals: 2 }
    } else if code == "SAR"@ {
        Currency { code: "SAR", symbol: "SAR", decimals: 2 }
    } else if code == "EGP"@ {
        Currency { code: "EGP", symbol: "E£", decimals: 2 }
    } else if code == "ZAR"@ {
        Currency { code: "ZAR", symbol: "R", decimals: 2 }
    } else if code == "NGN"@ {
        Currency { code: "NGN", symbol: "₦", decimals: 2 }
    } else if code == "KES"@ {
        Currency { code: "KES", symbol: "KSh", decimals: 2 }
    } else if code == "INR"@ {
        Currency { code: "INR", symbol: "₹", decimals: 2 }
    } else if code == "PKR"@ {
        Currency { code: "PKR", symbol: "Rs", decimals: 2 }
    } else if code == "BDT"@ {
        Currency { code: "BDT", symbol: "৳", decimals: 2 }
    } else if code == "LKR"@ {
        Currency { code: "LKR", symbol: "Rs", decimals: 2 }
    } else if code == "JPY"@ {
        Currency { code: "JPY", symbol: "¥", decimals: 0 }
    } else if code == "CNY"@ {
        Currency { code: "CNY", symbol: "¥", decimals: 2 }
    } else if code == "TWD"@ {
        Currency { code: "TWD", symbol: "NT$", decimals: 2 }
    } else if code == "KRW"@ {
        Currency { code: "KRW", symbol: "₩", decimals: 0 }
    } else if code == "HKD"@ {
        Currency { code: "HKD", symbol: "HK$", decimals: 2 }
    } else if code == "SGD"@ {
        Currency { code: "SGD", symbol: "S$", decimals: 2 }
    } else if code == "MYR"@ {
        Currency { code: "MYR", symbol: "RM", decimals: 2 }
    } else if code == "THB"@ {
        Currency { code: "THB", symbol: "฿", decimals: 2 }
    } else if code == "VND"@ {
        Currency { code: "VND", symbol: "₫", decimals: 0 }
    } else if code == "IDR"@ {
        Currency { code: "IDR", symbol: "Rp", decimals: 2 }
    } else if code == "PHP"@ {
        Currency { code: "PHP", symbol: "₱", decimals: 2 }
    } else if code == "BRL"@ {
        Currency { code: "BRL", symbol: "R$", decimals: 2 }
    } else if code == "MXN"@ {
        Currency { code: "MXN", symbol: "$", decimals: 2 }
    } else if code == "ARS"@ {
        Currency { code: "ARS", symbol: "$", decimals: 2 }
    } else if code == "CLP"@ {
        Currency { code: "CLP", symbol: "$", decimals: 0 }
    } else if code == "COP"@ {
        Currency { code: "COP", symbol: "$", decimals: 2 }
    } else if code == "PEN"@ {
        Currency { code: "PEN", symbol: "S/", decimals: 2 }
    } else {
        unknown_currency()
    }
}

/// The currency with this ISO 4217 code, or the generic one.
fn currency_for(code: &str) -> (c: Currency)
    ensures
        c == currency_named(code@),
{
    if str_eq(code, "GBP") {
        Currency { code: "GBP", symbol: "£", decimals: 2 }
    } else if str_eq(code, "EUR") {
        Currency { code: "EUR", symbol: "€", decimals: 2 }
    } else if str_eq(code, "USD") {
        Currency { code: "USD", symbol: "$", decimals: 2 }
    } else if str_eq(code, "CAD") {
        Currency { code: "CAD", symbol: "$", decimals: 2 }
    } else if str_eq(code, "AUD") {
        Currency { code: "AUD", symbol: "$", decimals: 2 }
    } else if str_eq(code, "NZD") {
        Currency { code: "NZD", symbol: "$", decimals: 2 }
    } else if str_eq(code, "CHF") {
        Currency { code: "CHF", symbol: "CHF", decimals: 2 }
    } else if str_eq(code, "SEK") {
        Currency { code: "SEK", symbol: "kr", decimals: 2 }
    } else if str_eq(code, "NOK") {
        Currency { code: "NOK", symbol: "kr", decimals: 2 }
    } else if str_eq(code, "DKK") {
        Currency { code: "DKK", symbol: "kr", decimals: 2 }
    } else if str_eq(code, "ISK") {
        Currency { code: "ISK", symbol: "kr", decimals: 0 }
    } else if str_eq(code, "PLN") {
        Currency { code: "PLN", symbol: "zł", decimals: 2 }
    } else if str_eq(code, "CZK") {
        Currency { code: "CZK", symbol: "Kč", decimals: 2 }
    } else if str_eq(code, "HUF") {
        Currency { code: "HUF", symbol: "Ft", decimals: 2 }
    } else if str_eq(code, "RON") {
        Currency { code: "RON", symbol: "lei", decimals: 2 }
    } else if str_eq(code, "BGN") {
        Currency { code: "BGN", symbol: "лв.", decimals: 2 }
    } else if str_eq(code, "RUB") {
        Currency { code: "RUB", symbol: "₽", decimals: 2 }
    } else if str_eq(code, "UAH") {
        Currency { code: "UAH", symbol: "₴", decimals: 2 }
    } else if str_eq(code, "TRY") {
        Currency { code: "TRY", symbol: "₺", decimals: 2 }
    } else if str_eq(code, "ILS") {
        Currency { code: "ILS", symbol: "₪", decimals: 2 }
    } else if str_eq(code, "AED") {
        Currency { code: "AED", symbol: "AED", decimals: 2 }
    } else if str_eq(code, "SAR") {
        Currency { code: "SAR", symbol: "SAR", decimals: 2 }
    } else if str_eq(code, "EGP") {
        Currency { code: "EGP", symbol: "E£", decimals: 2 }
    } else if str_eq(code, "ZAR") {
        Currency { code: "ZAR", symbol: "R", decimals: 2 }
    } else if str_eq(code, "NGN") {
        Currency { code: "NGN", symbol: "₦", decimals: 2 }
    } else if str_eq(code, "KES") {
        Currency { code: "KES", symbol: "KSh", decimals: 2 }
    } else if str_eq(code, "INR") {
        Currency { code: "INR", symbol: "₹", decimals: 2 }
    } else if str_eq(code, "PKR") {
        Currency { code: "PKR", symbol: "Rs", decimals: 2 }
    } else if str_eq(code, "BDT") {
        Currency { code: "BDT", symbol: "৳", decimals: 2 }
    } else if str_eq(code, "LKR") {
        Currency { code: "LKR", symbol: "Rs", decimals: 2 }
    } else if str_eq(code, "JPY") {
        Currency { code: "JPY", symbol: "¥", decimals: 0 }
    } else if str_eq(code, "CNY") {
        Currency { code: "CNY", symbol: "¥", decimals: 2 }
    } else if str_eq(code, "TWD") {
        Currency { code: "TWD", symbol: "NT$", decimals: 2 }
    } else if str_eq(code, "KRW") {
        Currency { code: "KRW", symbol: "₩", decimals: 0 }
    } else if str_eq(code, "HKD") {
        Currency { code: "HKD", symbol: "HK$", decimals: 2 }
    } else if str_eq(code, "SGD") {
        Currency { code: "SGD", symbol: "S$", decimals: 2 }
    } else if str_eq(code, "MYR") {
        Currency { code: "MYR", symbol: "RM", decimals: 2 }
    } else if str_eq(code, "THB") {
        Currency { code: "THB", symbol: "฿", decimals: 2 }
    } else if str_eq(code, "VND") {
        Currency { code: "VND", symbol: "₫", decimals: 0 }
    } else if str_eq(code, "IDR") {
        Currency { code: "IDR", symbol: "Rp", decimals: 2 }
    } else if str_eq(code, "PHP") {
        Currency { code: "PHP", symbol: "₱", decimals: 2 }
    } else if str_eq(code, "BRL") {
        Currency { code: "BRL", symbol: "R$", decimals: 2 }
    } else if str_eq(code, "MXN") {
        Currency { code: "MXN", symbol: "$", decimals: 2 }
    } else if str_eq(code, "ARS") {
        Currency { code: "ARS", symbol: "$", decimals: 2 }
    } else if str_eq(code, "CLP") {
        Currency { code: "CLP", symbol: "$", decimals: 0 }
    } else if str_eq(code, "COP") {
        Currency { code: "COP", symbol: "$", decimals: 2 }
    } else if str_eq(code, "PEN") {
        Currency { code: "PEN", symbol: "S/", decimals: 2 }
    } else {
        unknown_currency_of()
    }
}

/// The first part that is two ASCII letters, if any.
pub open spec fn first_letter_pair(parts: Seq<Seq<char>>) -> Option<Seq<char>>
    decreases parts.len(),
{
    if parts.len() == 0 {
        None
    } else if parts[0].len() == 2 && is_alpha(parts[0][0]) && is_alpha(parts[0][1]) {
        Some(parts[0])
    } else {
        first_letter_pair(parts.drop_first())
    }
}

/// A tag with any encoding (`.UTF-8`) or modifier (`@euro`) dropped.
pub open spec fn cleaned_tag(tag: Seq<char>) -> Seq<char> {
    split_on(tag, seq!['.', '@'])[0]
}

/// The region a tag names: the first two-letter alphabetic subtag after the
/// language subtag, upper-cased. A script subtag (`Hant`) is passed over, and
/// a tag with no such subtag (`und`, a bare `de`) names no region.
pub open spec fn region_of(cleaned: Seq<char>) -> Option<(char, char)> {
    let parts = split_on(cleaned, seq!['-', '_']);
    match first_letter_pair(parts.skip(1)) {
        Some(p) => Some((upper(p[0]), upper(p[1]))),
        None => None,
    }
}

/// The rules a tag resolves to, if its region is in the table.
pub open spec fn rules_of_tag(tag: Seq<char>) -> Option<RegionRules> {
    match region_of(cleaned_tag(tag)) {
        Some((a, b)) => region_rules(a, b),
        None => None,
    }
}

impl Locale {
    /// Small enough decimal counts for the arithmetic to fit.
    pub open spec fn wf(&self) -> bool {
        self.currency.decimals <= 18
    }

    /// The locale `tag` describes, by the region table.
    pub open spec fn describes(&self, tag: Seq<char>) -> bool {
        &&& self.tag@ == cleaned_tag(tag)
        &&& match rules_of_tag(tag) {
            Some(rules) => {
                &&& self.currency == currency_named(rules.currency@)
                &&& self.symbol_position == rules.symbol_position
                &&& self.symbol_space == rules.symbol_space
                &&& self.decimal_sep == rules.decimal_sep
                &&& self.group_sep == rules.group_sep
                &&& self.grouping == rules.grouping
                &&& self.date_order == rules.date_order
                &&& self.date_sep == rules.date_sep
            },
            None => {
                &&& self.currency == unknown_currency()
                &&& self.symbol_position == SymbolPosition::Prefix
                &&& self.symbol_space == true
                &&& self.decimal_sep == '.'
                &&& self.group_sep == ','
                &&& self.grouping == Grouping::Western
                &&& self.date_order == DateOrder::Ymd
                &&& self.date_sep == '-'
            },
        }
    }

    /// The locale a BCP 47 (`en-GB`) or POSIX (`en_GB.UTF-8`) tag names.
    pub fn from_tag(tag: &str) -> (l: Locale)
        ensures
            l.describes(tag@),
            l.wf(),
    {
        let chars = chars_of(tag);
        let mut stops: Vec<char> = Vec::new();
        stops.push('.');
        stops.push('@');
        assert(stops@ =~= seq!['.', '@']);
        let pieces = split_on_of(&chars, &stops);
        proof {
            lemma_split_on_nonempty(chars@, stops@);
        }
        let cleaned = slice_of(&pieces[0], 0, pieces[0].len());
        assert(cleaned@ =~= cleaned_tag(tag@));

        let mut dashes: Vec<char> = Vec::new();
        dashes.push('-');
        dashes.push('_');
        assert(dashes@ =~= seq!['-', '_']);
        let parts = split_on_of(&cleaned, &dashes);
        let ghost sparts = split_on(cleaned@, seq!['-', '_']);

        // The first subtag after the language that is two letters.
        proof {
            lemma_split_on_nonempty(cleaned@, seq!['-', '_']);
        }
        let mut i: usize = 1;
        while i < parts.len() && !(parts[i].len() == 2 && is_ascii_letter(parts[i][0])
            && is_ascii_letter(parts[i][1]))
            invariant
                1 <= i <= parts.len(),
                parts@.len() == sparts.len(),
                forall|k: int| 0 <= k < parts@.len() ==> (#[trigger] parts@[k])@ == sparts[k],
                first_letter_pair(sparts.skip(1)) == first_letter_pair(sparts.skip(i as int)),
            decreases parts.len() - i,
        {
            assert(parts@[i as int]@ == sparts[i as int]);
            assert(sparts.skip(i as int)[0] == sparts[i as int]);
            assert(sparts.skip(i as int).drop_first() =~= sparts.skip(i + 1));
            i += 1;
        }
        let region: Option<(char, char)> = if i < parts.len() {
            assert(parts@[i as int]@ == sparts[i as int]);
            assert(sparts.skip(i as int)[0] == sparts[i as int]);
            Some((to_upper(parts[i][0]), to_upper(parts[i][1])))
        } else {
            assert(sparts.skip(i as int) =~= Seq::<Seq<char>>::empty());
            None
        };
        assert(region == region_of(cleaned@));

        let tag_text = string_of(&cleaned);
        let found = match region {
            Some((a, b)) => rules_for(a, b),
            None => None,
        };
        match found {
            Some(rules) => Locale {
                tag: tag_text,
                currency: currency_for(rules.currency),
                symbol_position: rules.symbol_position,
                symbol_space: rules.symbol_space,
                decimal_sep: rules.decimal_sep,
                group_sep: rules.group_sep,
                grouping: rules.grouping,
                date_order: rules.date_order,
                date_sep: rules.date_sep,
            },
            None => Locale {
                tag: tag_text,
                currency: unknown_currency_of(),
                symbol_position: SymbolPosition::Prefix,
                symbol_space: true,
                decimal_sep: '.',
                group_sep: ',',
                grouping: Grouping::Western,
                date_order: DateOrder::Ymd,
                date_sep: '-',
            },
        }
    }
}


/// `sys_locale::get_locale`: the operating system's locale tag, if it will
/// say. What comes back depends on the machine, so nothing is promised of it.
#[verifier::external_body]
pub(crate) fn system_locale() -> (tag: Option<String>) {
    sys_locale::get_locale()
}

/// The tag an environment override names, when it is not blank.
pub open spec fn override_of(env_tag: Option<Seq<char>>) -> Option<Seq<char>> {
    match env_tag {
        Some(t) => if trim(t).len() > 0 {
            Some(t)
        } else {
            None
        },
        None => None,
    }
}

/// `Some(t)` when `t` is not blank.
pub fn nonblank(tag: Option<String>) -> (r: Option<String>)
    ensures
        r matches Some(t) ==> tag matches Some(u) && t@ == u@,
        (match r {
            Some(t) => Some(t@),
            None => None::<Seq<char>>,
        }) == override_of(match tag {
            Some(u) => Some(u@),
            None => None::<Seq<char>>,
        }),
{
    match tag {
        Some(t) => {
            let v = chars_of(t.as_str());
            let tv = trimmed(&v);
            if tv.len() > 0 {
                Some(t)
            } else {
                None
            }
        },
        None => None,
    }
}

impl Locale {
    /// The locale this computer is set to. `env_tag` is the `GAS_LOCALE`
    /// override, used when it is not blank; otherwise the operating system is
    /// asked, and a tag nobody can supply reads as `und`.
    pub fn detect(env_tag: Option<String>) -> (l: Locale)
        ensures
            l.wf(),
            override_of(match env_tag {
                Some(u) => Some(u@),
                None => None::<Seq<char>>,
            }) matches Some(t) ==> l.describes(t),
            exists|t: Seq<char>| l.describes(t),
    {
        let tag = match nonblank(env_tag) {
            Some(t) => t,
            None => match system_locale() {
                Some(t) => t,
                None => "und".to_owned(),
            },
        };
        let l = Locale::from_tag(tag.as_str());
        assert(l.describes(tag@));
        l
    }
}

/// A tag with any encoding (`.UTF-8`) or modifier (`@euro`) dropped.
pub fn cleaned_of(tag: &str) -> (r: Vec<char>)
    ensures
        r@ == cleaned_tag(tag@),
{
    let chars = chars_of(tag);
    let mut stops: Vec<char> = Vec::new();
    stops.push('.');
    stops.push('@');
    assert(stops@ =~= seq!['.', '@']);
    let pieces = split_on_of(&chars, &stops);
    proof {
        lemma_split_on_nonempty(chars@, stops@);
    }
    let cleaned = slice_of(&pieces[0], 0, pieces[0].len());
    assert(cleaned@ =~= cleaned_tag(tag@));
    cleaned
}

// ------------------------------------------------------------------ money

/// Digits grouped in threes from the right: 1,234,567.
pub open spec fn group_threes(d: Seq<char>, sep: char) -> Seq<char>
    decreases d.len(),
{
    if d.len() <= 3 {
        d
    } else {
        group_threes(d.take(d.len() - 3), sep).push(sep) + d.skip(d.len() - 3)
    }
}

/// Digits grouped in twos from the right: 12,34,56.
pub open spec fn group_twos(d: Seq<char>, sep: char) -> Seq<char>
    decreases d.len(),
{
    if d.len() <= 2 {
        d
    } else {
        group_twos(d.take(d.len() - 2), sep).push(sep) + d.skip(d.len() - 2)
    }
}

/// Digits grouped the way `grouping` asks: threes throughout, or a three and
/// then twos (the lakh/crore system).
pub open spec fn grouped(d: Seq<char>, sep: char, grouping: Grouping) -> Seq<char> {
    match grouping {
        Grouping::Western => group_threes(d, sep),
        Grouping::Indian => if d.len() <= 3 {
            d
        } else {
            group_twos(d.take(d.len() - 3), sep).push(sep) + d.skip(d.len() - 3)
        },
    }
}

pub open spec fn abs(x: int) -> nat {
    if x < 0 {
        (-x) as nat
    } else {
        x as nat
    }
}

impl Locale {
    /// An amount in minor units as grouped digits with the decimal separator,
    /// but no symbol.
    pub open spec fn digits_text(&self, minor: nat) -> Seq<char> {
        let scale = pow10(self.currency.decimals as nat);
        let whole = grouped(decimal(minor / scale), self.group_sep, self.grouping);
        if self.currency.decimals > 0 {
            whole.push(self.decimal_sep) + zero_padded(minor % scale, self.currency.decimals as nat)
        } else {
            whole
        }
    }

    /// An amount in minor units with its sign and currency symbol.
    pub open spec fn money_text(&self, minor: int) -> Seq<char> {
        let sign = if minor < 0 {
            seq!['-']
        } else {
            Seq::<char>::empty()
        };
        let space = if self.symbol_space {
            seq![nbsp()]
        } else {
            Seq::<char>::empty()
        };
        let digits = self.digits_text(abs(minor));
        match self.symbol_position {
            SymbolPosition::Prefix => sign + self.currency.symbol@ + space + digits,
            SymbolPosition::Suffix => sign + digits + space + self.currency.symbol@,
        }
    }

    /// Format an amount in minor units (pence, cents) with its symbol.
    pub fn format_money(&self, minor: i64) -> (s: String)
        requires
            self.wf(),
        ensures
            s@ == self.money_text(minor as int),
    {
        let mut out = String::new();
        if minor < 0 {
            out.push('-');
        }
        let magnitude: u64 = if minor < 0 {
            (0i128 - minor as i128) as u64
        } else {
            minor as u64
        };
        let digits = self.format_digits(magnitude);
        let symbol = chars_of(self.currency.symbol);
        let ghost sign_part = out@;
        match self.symbol_position {
            SymbolPosition::Prefix => {
                push_all(&mut out, &symbol);
                if self.symbol_space {
                    out.push('\u{a0}');
                }
                out.append(digits.as_str());
            },
            SymbolPosition::Suffix => {
                out.append(digits.as_str());
                if self.symbol_space {
                    out.push('\u{a0}');
                }
                push_all(&mut out, &symbol);
            },
        }
        proof {
            let sign = if minor < 0 {
                seq!['-']
            } else {
                Seq::<char>::empty()
            };
            assert(sign_part =~= sign);
        }
        assert(out@ =~= self.money_text(minor as int));
        out
    }

    /// The digits alone — grouped and with the right decimal separator, but
    /// no currency symbol. Used where the symbol is already in a heading.
    pub fn format_digits(&self, minor: u64) -> (s: String)
        requires
            self.wf(),
        ensures
            s@ == self.digits_text(minor as nat),
    {
        let scale = pow10_of(self.currency.decimals);
        proof {
            lemma_pow10_bounds(self.currency.decimals as nat);
        }
        let whole = minor / scale;
        let frac = minor % scale;
        let mut out = self.group_digits(&decimal_of(whole));
        if self.currency.decimals > 0 {
            out.push(self.decimal_sep);
            let padded = zero_padded_of(frac, self.currency.decimals as usize);
            push_range(&mut out, &padded, 0, padded.len());
            assert(padded@.subrange(0, padded@.len() as int) =~= padded@);
        }
        string_of(&out)
    }

    /// Digits with this locale's group separators put in.
    fn group_digits(&self, digits: &Vec<char>) -> (g: Vec<char>)
        ensures
            g@ == grouped(digits@, self.group_sep, self.grouping),
    {
        match self.grouping {
            Grouping::Western => group_in(digits, self.group_sep, 3),
            Grouping::Indian => {
                if digits.len() <= 3 {
                    slice_of(digits, 0, digits.len())
                } else {
                    let head = slice_of(digits, 0, digits.len() - 3);
                    let mut g = group_in(&head, self.group_sep, 2);
                    g.push(self.group_sep);
                    push_range(&mut g, digits, digits.len() - 3, digits.len());
                    assert(g@ =~= grouped(digits@, self.group_sep, self.grouping));
                    g
                }
            },
        }
    }

    /// The hint shown next to an amount field, e.g. `0.00`.
    pub fn amount_hint(&self) -> (s: String)
        ensures
            s@ == if self.currency.decimals == 0 {
                seq!['0']
            } else {
                seq!['0', self.decimal_sep] + Seq::new(self.currency.decimals as nat, |i: int| '0')
            },
    {
        let mut out = String::new();
        out.push('0');
        if self.currency.decimals > 0 {
            out.push(self.decimal_sep);
            let mut i: u32 = 0;
            while i < self.currency.decimals
                invariant
                    i <= self.currency.decimals,
                    out@ == seq!['0', self.decimal_sep] + Seq::new(i as nat, |k: int| '0'),
                decreases self.currency.decimals - i,
            {
                out.push('0');
                i += 1;
                assert(out@ =~= seq!['0', self.decimal_sep] + Seq::new(i as nat, |k: int| '0'));
            }
        } else {
            assert(out@ =~= seq!['0']);
        }
        out
    }
}

/// Digits grouped in runs of `size` from the right.
fn group_in(d: &Vec<char>, sep: char, size: usize) -> (g: Vec<char>)
    requires
        size == 2 || size == 3,
    ensures
        size == 3 ==> g@ == group_threes(d@, sep),
        size == 2 ==> g@ == group_twos(d@, sep),
    decreases d.len(),
{
    if d.len() <= size {
        slice_of(d, 0, d.len())
    } else {
        let head = slice_of(d, 0, d.len() - size);
        let mut g = group_in(&head, sep, size);
        g.push(sep);
        push_range(&mut g, d, d.len() - size, d.len());
        proof {
            if size == 3 {
                assert(g@ =~= group_threes(d@, sep));
            } else {
                assert(g@ =~= group_twos(d@, sep));
            }
        }
        g
    }
}

// ------------------------------------------------------------------ reading money

/// Why an amount could not be read.
#[derive(Clone, Debug, PartialEq, Eq)]
pub enum MoneyError {
    /// Nothing that could be an amount was typed.
    Enter,
    /// Something other than digits and one decimal separator.
    NotAnAmount { separator: char },
    /// A fractional part in a currency that has none.
    NoDecimals { code: &'static str },
    /// More digits after the separator than the currency has minor units.
    TooManyDecimals { decimals: u32 },
    /// More than fits in the amounts the app keeps.
    TooLarge,
    /// Nothing was spent.
    GreaterThanZero,
}

/// The characters left once group separators and every kind of space are
/// dropped.
pub open spec fn without_separators(s: Seq<char>, group_sep: char) -> Seq<char>
    decreases s.len(),
{
    if s.len() == 0 {
        s
    } else if s.last() != group_sep && !is_ws(s.last()) {
        without_separators(s.drop_last(), group_sep).push(s.last())
    } else {
        without_separators(s.drop_last(), group_sep)
    }
}

impl Locale {
    /// What is left to read as a number: the typed text, trimmed, with the
    /// currency symbol and code taken out wherever they were typed, and the
    /// group separators and spaces dropped.
    pub open spec fn money_body(&self, trimmed: Seq<char>) -> Seq<char> {
        without_separators(
            remove_all(remove_all(trimmed, self.currency.symbol@), self.currency.code@),
            self.group_sep,
        )
    }

    /// The amount, in minor units, that `input` reads as in this locale.
    pub open spec fn money_value(&self, input: Seq<char>) -> Result<int, MoneyError> {
        let t = trim(input);
        if t.len() == 0 {
            Err(MoneyError::Enter)
        } else {
            self.body_value(self.money_body(t))
        }
    }

    /// The amount the number left once symbol, code and separators are
    /// gone reads as.
    pub open spec fn body_value(&self, s: Seq<char>) -> Result<int, MoneyError> {
        let negative = s.len() > 0 && s[0] == '-';
        let unsigned = if s.len() > 0 && (s[0] == '-' || s[0] == '+') {
            s.drop_first()
        } else {
            s
        };
        let (whole0, frac) = match find_char(unsigned, self.decimal_sep) {
            Some(i) => (unsigned.take(i as int), unsigned.skip(i as int + 1)),
            None => (unsigned, Seq::<char>::empty()),
        };
        let whole = if whole0.len() == 0 {
            seq!['0']
        } else {
            whole0
        };
        let d = self.currency.decimals as nat;
        if unsigned.len() == 0 {
            Err(MoneyError::Enter)
        } else if !all_digits(whole) || !all_digits(frac) {
            Err(MoneyError::NotAnAmount { separator: self.decimal_sep })
        } else if frac.len() > d {
            if d == 0 {
                Err(MoneyError::NoDecimals { code: self.currency.code })
            } else {
                Err(MoneyError::TooManyDecimals { decimals: self.currency.decimals })
            }
        } else if digits_value(whole) > i64::MAX {
            Err(MoneyError::TooLarge)
        } else {
            let minor = digits_value(whole) * pow10(d) + digits_value(
                frac + zeros((d - frac.len()) as nat),
            );
            if minor > i64::MAX {
                Err(MoneyError::TooLarge)
            } else if minor == 0 {
                Err(MoneyError::GreaterThanZero)
            } else if negative {
                Ok(-minor)
            } else {
                Ok(minor as int)
            }
        }
    }

    /// Parse an amount the user typed, in this locale's conventions, into
    /// minor units. Deliberately strict about the decimal separator: `1,50`
    /// means one and a half in Berlin and one hundred and fifty in London,
    /// and guessing which was meant is how money goes missing.
    #[verifier::spinoff_prover]
    #[verifier::rlimit(40)]
    pub fn parse_money(&self, input: &str) -> (r: Result<i64, MoneyError>)
        requires
            self.wf(),
        ensures
            r == match self.money_value(input@) {
                Ok(v) => Ok(v as i64),
                Err(e) => Err::<i64, MoneyError>(e),
            },
    {
        let typed = chars_of(input);
        let t = trimmed(&typed);
        if t.len() == 0 {
            return Err(MoneyError::Enter);
        }
        let symbol = chars_of(self.currency.symbol);
        let code = chars_of(self.currency.code);
        let no_symbol = remove_all_of(&t, &symbol);
        let no_code = remove_all_of(&no_symbol, &code);

        let mut s: Vec<char> = Vec::new();
        let mut i: usize = 0;
        while i < no_code.len()
            invariant
                i <= no_code.len(),
                s@ == without_separators(no_code@.take(i as int), self.group_sep),
            decreases no_code.len() - i,
        {
            let c = no_code[i];
            assert(no_code@.take(i + 1).drop_last() =~= no_code@.take(i as int));
            if c != self.group_sep && !is_whitespace(c) {
                s.push(c);
            }
            i += 1;
        }
        assert(no_code@.take(no_code.len() as int) =~= no_code@);

        let negative = s.len() > 0 && s[0] == '-';
        let start: usize = if s.len() > 0 && (s[0] == '-' || s[0] == '+') {
            1
        } else {
            0
        };
        let unsigned = slice_of(&s, start, s.len());
        assert(start == 1 ==> unsigned@ =~= s@.drop_first());
        assert(start == 0 ==> unsigned@ =~= s@);
        if unsigned.len() == 0 {
            return Err(MoneyError::Enter);
        }

        let at = find_char_from(&unsigned, 0, self.decimal_sep);
        assert(unsigned@.skip(0) =~= unsigned@);
        let whole0 = slice_of(&unsigned, 0, at);
        let frac = if at < unsigned.len() {
            slice_of(&unsigned, at + 1, unsigned.len())
        } else {
            Vec::new()
        };
        assert(at < unsigned.len() ==> frac@ =~= unsigned@.skip(at + 1));
        assert(at == unsigned.len() ==> whole0@ =~= unsigned@);
        assert(at < unsigned.len() ==> whole0@ =~= unsigned@.take(at as int));
        let whole = if whole0.len() == 0 {
            let mut z: Vec<char> = Vec::new();
            z.push('0');
            assert(z@ =~= seq!['0']);
            z
        } else {
            whole0
        };

        if !all_digits_of(&whole) || !all_digits_of(&frac) {
            return Err(MoneyError::NotAnAmount { separator: self.decimal_sep });
        }
        let decimals = self.currency.decimals as usize;
        if frac.len() > decimals {
            if decimals == 0 {
                return Err(MoneyError::NoDecimals { code: self.currency.code });
            } else {
                return Err(MoneyError::TooManyDecimals { decimals: self.currency.decimals });
            }
        }
        let w = match digits_up_to(&whole, 9223372036854775807u64) {
            Some(w) => w,
            None => {
                return Err(MoneyError::TooLarge);
            },
        };

        let mut padded = slice_of(&frac, 0, frac.len());
        let mut k: usize = frac.len();
        while k < decimals
            invariant
                frac.len() <= k <= decimals,
                padded@ == frac@ + zeros((k - frac.len()) as nat),
            decreases decimals - k,
        {
            padded.push('0');
            k += 1;
            assert(padded@ =~= frac@ + zeros((k - frac.len()) as nat));
        }
        assert(padded@ =~= frac@ + zeros((decimals - frac.len()) as nat));
        assert(all_digits(padded@));
        let ghost fv = digits_value(frac@ + zeros((decimals - frac.len()) as nat));
        let f = match digits_up_to(&padded, 9223372036854775807u64) {
            Some(f) => f,
            None => {
                proof {
                    lemma_pow10_bounds(decimals as nat);
                    assert(w as int * pow10(decimals as nat) >= 0) by (nonlinear_arith);
                }
                return Err(MoneyError::TooLarge);
            },
        };
        let scale = pow10_of(self.currency.decimals);
        proof {
            lemma_pow10_bounds(decimals as nat);
            assert(w as int * scale as int <= 9223372036854775807 * 1_000_000_000_000_000_000)
                by (nonlinear_arith)
                requires
                    w as int <= 9223372036854775807,
                    scale as int <= 1_000_000_000_000_000_000,
            ;
            assert(w as int * scale as int >= 0) by (nonlinear_arith);
        }
        let minor: i128 = w as i128 * scale as i128 + f as i128;
        if minor > 9223372036854775807i128 {
            return Err(MoneyError::TooLarge);
        }
        if minor == 0 {
            return Err(MoneyError::GreaterThanZero);
        }
        let minor = minor as i64;
        if negative {
            Ok(-minor)
        } else {
            Ok(minor)
        }
    }
}

// ------------------------------------------------------------------ dates

/// Why a date could not be read.
#[derive(Clone, Copy, Debug, PartialEq, Eq)]
pub enum DateError {
    /// Not three groups of at most four digits.
    EnterAs,
    /// A year outside 1000 to 9999.
    BadYear,
    /// A month or day the calendar does not have.
    NoSuchDate,
}

/// The year as `{:04}` writes it.
pub open spec fn year_text(y: int) -> Seq<char> {
    if y < 0 {
        seq!['-'] + zero_padded(abs(y), 3)
    } else {
        zero_padded(y as nat, 4)
    }
}

/// The pieces of a typed date: runs of anything but `/ . -` and space.
pub open spec fn date_parts(input: Seq<char>) -> Seq<Seq<char>> {
    drop_empty(split_on(trim(input), seq!['/', '.', '-', ' ']))
}

impl Locale {
    /// Where the day, month and year sit among the three parts.
    pub open spec fn positions(&self) -> (int, int, int) {
        match self.date_order {
            DateOrder::Dmy => (0, 1, 2),
            DateOrder::Mdy => (1, 0, 2),
            DateOrder::Ymd => (2, 1, 0),
        }
    }

    /// The pattern shown beside a date field, e.g. `DD/MM/YYYY`.
    pub open spec fn hint_text(&self) -> Seq<char> {
        let s = self.date_sep;
        match self.date_order {
            DateOrder::Dmy => seq!['D', 'D', s, 'M', 'M', s, 'Y', 'Y', 'Y', 'Y'],
            DateOrder::Mdy => seq!['M', 'M', s, 'D', 'D', s, 'Y', 'Y', 'Y', 'Y'],
            DateOrder::Ymd => seq!['Y', 'Y', 'Y', 'Y', s, 'M', 'M', s, 'D', 'D'],
        }
    }

    /// A date written in this locale's order and separator.
    pub open spec fn date_text(&self, date: Date) -> Seq<char> {
        let s = self.date_sep;
        let d = zero_padded(date.day as nat, 2);
        let m = zero_padded(date.month as nat, 2);
        let y = year_text(date.year as int);
        match self.date_order {
            DateOrder::Dmy => d.push(s) + m.push(s) + y,
            DateOrder::Mdy => m.push(s) + d.push(s) + y,
            DateOrder::Ymd => y.push(s) + m.push(s) + d,
        }
    }

    /// The date `input` reads as in this locale.
    pub open spec fn date_value(&self, input: Seq<char>) -> Result<Date, DateError> {
        let parts = date_parts(input);
        if parts.len() != 3 || !all_digits(parts[0]) || !all_digits(parts[1]) || !all_digits(
            parts[2],
        ) {
            Err(DateError::EnterAs)
        } else if parts[0].len() > 4 || parts[1].len() > 4 || parts[2].len() > 4 {
            Err(DateError::EnterAs)
        } else {
            let (di, mi, yi) = self.positions();
            let d = digits_value(parts[di]);
            let m = digits_value(parts[mi]);
            let y = if parts[yi].len() <= 2 {
                digits_value(parts[yi]) + 2000int
            } else {
                digits_value(parts[yi]) as int
            };
            if !(1000 <= y <= 9999) {
                Err(DateError::BadYear)
            } else if !valid_ymd(y, m as int, d as int) {
                Err(DateError::NoSuchDate)
            } else {
                Ok(Date { year: y as i32, month: m as u32, day: d as u32 })
            }
        }
    }

    #[verifier::spinoff_prover]
    #[verifier::rlimit(40)]
    pub fn format_date(&self, date: Date) -> (s: String)
        ensures
            s@ == self.date_text(date),
    {
        let d = zero_padded_of(date.day as u64, 2);
        let m = zero_padded_of(date.month as u64, 2);
        let mut y: Vec<char> = Vec::new();
        if date.year < 0 {
            y.push('-');
            let magnitude: u64 = (0i64 - date.year as i64) as u64;
            let digits = zero_padded_of(magnitude, 3);
            push_range(&mut y, &digits, 0, digits.len());
            assert(y@ =~= year_text(date.year as int));
        } else {
            y = zero_padded_of(date.year as u64, 4);
        }
        let sep = self.date_sep;
        let (first, second, third) = match self.date_order {
            DateOrder::Dmy => (d, m, y),
            DateOrder::Mdy => (m, d, y),
            DateOrder::Ymd => (y, m, d),
        };
        let mut out: Vec<char> = Vec::new();
        push_range(&mut out, &first, 0, first.len());
        out.push(sep);
        push_range(&mut out, &second, 0, second.len());
        out.push(sep);
        push_range(&mut out, &third, 0, third.len());
        assert(out@ =~= self.date_text(date));
        string_of(&out)
    }

    /// The pattern to show as a hint next to a date field, e.g. `DD/MM/YYYY`.
    pub fn date_hint(&self) -> (s: String)
        ensures
            s@ == self.hint_text(),
    {
        let sep = self.date_sep;
        let mut out = String::new();
        match self.date_order {
            DateOrder::Dmy => {
                out.push('D');
                out.push('D');
                out.push(sep);
                out.push('M');
                out.push('M');
                out.push(sep);
                out.push('Y');
                out.push('Y');
                out.push('Y');
                out.push('Y');
            },
            DateOrder::Mdy => {
                out.push('M');
                out.push('M');
                out.push(sep);
                out.push('D');
                out.push('D');
                out.push(sep);
                out.push('Y');
                out.push('Y');
                out.push('Y');
                out.push('Y');
            },
            DateOrder::Ymd => {
                out.push('Y');
                out.push('Y');
                out.push('Y');
                out.push('Y');
                out.push(sep);
                out.push('M');
                out.push('M');
                out.push(sep);
                out.push('D');
                out.push('D');
            },
        }
        assert(out@ =~= self.hint_text());
        out
    }

    /// Parse a date in this locale's order. Any of `/ . -` or a space is
    /// accepted as the separator whatever the locale prefers, since keyboards
    /// differ, but the order of the parts is the locale's and is not guessed.
    pub fn parse_date(&self, input: &str) -> (r: Result<Date, DateError>)
        ensures
            r == self.date_value(input@),
    {
        let typed = chars_of(input);
        let t = trimmed(&typed);
        let mut seps: Vec<char> = Vec::new();
        seps.push('/');
        seps.push('.');
        seps.push('-');
        seps.push(' ');
        assert(seps@ =~= seq!['/', '.', '-', ' ']);
        let parts = nonempty_pieces_of(&t, &seps);
        let ghost sp = date_parts(input@);
        assert(views(parts@) == sp);
        if parts.len() != 3 {
            return Err(DateError::EnterAs);
        }
        assert(parts@[0]@ == sp[0] && parts@[1]@ == sp[1] && parts@[2]@ == sp[2]);
        if !all_digits_of(&parts[0]) || !all_digits_of(&parts[1]) || !all_digits_of(&parts[2]) {
            return Err(DateError::EnterAs);
        }
        if parts[0].len() > 4 || parts[1].len() > 4 || parts[2].len() > 4 {
            return Err(DateError::EnterAs);
        }
        let (di, mi, yi): (usize, usize, usize) = match self.date_order {
            DateOrder::Dmy => (0, 1, 2),
            DateOrder::Mdy => (1, 0, 2),
            DateOrder::Ymd => (2, 1, 0),
        };
        let d = match digits_up_to(&parts[di], 9999) {
            Some(v) => v,
            None => {
                proof {
                    lemma_short_digits(parts@[di as int]@);
                }
                return Err(DateError::EnterAs);
            },
        };
        let m = match digits_up_to(&parts[mi], 9999) {
            Some(v) => v,
            None => {
                proof {
                    lemma_short_digits(parts@[mi as int]@);
                }
                return Err(DateError::EnterAs);
            },
        };
        let y0 = match digits_up_to(&parts[yi], 9999) {
            Some(v) => v,
            None => {
                proof {
                    lemma_short_digits(parts@[yi as int]@);
                }
                return Err(DateError::EnterAs);
            },
        };
        let y: u64 = if parts[yi].len() <= 2 {
            y0 + 2000
        } else {
            y0
        };
        if !(1000 <= y && y <= 9999) {
            return Err(DateError::BadYear);
        }
        match Date::from_ymd(y as i32, m as u32, d as u32) {
            Some(date) => Ok(date),
            None => Err(DateError::NoSuchDate),
        }
    }
}

/// Four digits or fewer never spell more than 9999.
pub proof fn lemma_short_digits(s: Seq<char>)
    requires
        s.len() <= 4,
        all_digits(s),
    ensures
        digits_value(s) <= 9999,
        digits_value(s) < pow10(s.len()),
    decreases s.len(),
{
    if s.len() > 0 {
        lemma_short_digits(s.drop_last());
        assert(crate::strings::is_digit(s[s.len() - 1]));
        assert(pow10(s.len()) == 10 * pow10((s.len() - 1) as nat));
        assert(pow10(4) == 10000) by {
            reveal_with_fuel(pow10, 5);
        }
        crate::strings::lemma_pow10_mono(s.len(), 4);
    }
}

fn is_ascii_letter(c: char) -> (r: bool)
    ensures
        r == is_alpha(c),
{
    ('A' <= c && c <= 'Z') || ('a' <= c && c <= 'z')
}

// ------------------------------------------------------------------ messages

/// What the user is told when an amount cannot be read, in the language in
/// use.
pub open spec fn money_message(reg: RegistryView, e: MoneyError) -> Seq<char> {
    match e {
        MoneyError::Enter => said(reg, "amount.enter"@),
        MoneyError::NotAnAmount { separator } => filled(
            template_of(reg, "amount.not_an_amount"@),
            seq![("separator"@, seq![separator])],
        ),
        MoneyError::NoDecimals { code } => filled(template_of(reg, "amount.no_decimals"@), seq![("code"@, code@)]),
        MoneyError::TooManyDecimals { decimals } => counted(reg, "amount.too_many_decimals"@, decimals as nat),
        MoneyError::TooLarge => said(reg, "amount.too_large"@),
        MoneyError::GreaterThanZero => said(reg, "amount.greater_than_zero"@),
    }
}

/// What the user is told when a date cannot be read, with the pattern this
/// locale expects.
pub open spec fn date_message(reg: RegistryView, l: &Locale, e: DateError) -> Seq<char> {
    let key = match e {
        DateError::EnterAs => "date.enter_as"@,
        DateError::BadYear => "date.bad_year"@,
        DateError::NoSuchDate => "date.no_such_date"@,
    };
    filled(template_of(reg, key), seq![("format"@, l.hint_text())])
}

fn message_with(reg: &Registry, key: &str, name: &'static str, value: String) -> (s: String)
    requires
        reg.wf(),
    ensures
        s@ == filled(template_of(reg.view(), key@), seq![(name@, value@)]),
{
    let ghost v = value@;
    let mut values: Vec<(&str, String)> = Vec::new();
    values.push((name, value));
    assert(owned_bindings(values@) =~= seq![(name@, v)]);
    text(reg, key, values.as_slice())
}

fn message_of(reg: &Registry, key: &str) -> (s: String)
    requires
        reg.wf(),
    ensures
        s@ == said(reg.view(), key@),
{
    let none: Vec<(&str, String)> = Vec::new();
    assert(owned_bindings(none@) =~= Seq::empty());
    text(reg, key, none.as_slice())
}

impl MoneyError {
    /// What to tell the user, in the language in use.
    pub fn message(&self, reg: &Registry) -> (s: String)
        requires
            reg.wf(),
        ensures
            s@ == money_message(reg.view(), *self),
    {
        match self {
            MoneyError::Enter => message_of(reg, "amount.enter"),
            MoneyError::NotAnAmount { separator } => {
                let mut v = String::new();
                v.push(*separator);
                proof {
                    reveal_strlit("separator");
                }
                message_with(reg, "amount.not_an_amount", "separator", v)
            },
            MoneyError::NoDecimals { code } => message_with(reg, "amount.no_decimals", "code", (*code).to_owned()),
            MoneyError::TooManyDecimals { decimals } => {
                let none: Vec<(&str, String)> = Vec::new();
                assert(owned_bindings(none@) =~= Seq::empty());
                let s = plural(reg, "amount.too_many_decimals", *decimals as u64, none.as_slice());
                assert(seq![("n"@, decimal(*decimals as nat))] + owned_bindings(none@) =~= seq![("n"@, decimal(*decimals as nat))]);
                s
            },
            MoneyError::TooLarge => message_of(reg, "amount.too_large"),
            MoneyError::GreaterThanZero => message_of(reg, "amount.greater_than_zero"),
        }
    }
}

impl DateError {
    /// What to tell the user, in the language in use, with the pattern the
    /// locale expects.
    pub fn message(&self, reg: &Registry, locale: &Locale) -> (s: String)
        requires
            reg.wf(),
        ensures
            s@ == date_message(reg.view(), locale, *self),
    {
        let hint = locale.date_hint();
        match self {
            DateError::EnterAs => message_with(reg, "date.enter_as", "format", hint),
            DateError::BadYear => message_with(reg, "date.bad_year", "format", hint),
            DateError::NoSuchDate => message_with(reg, "date.no_such_date", "format", hint),
        }
    }
}

// ------------------------------------------------------------------ the table, row by row

/// The region table, row by row: each region's currency, where its symbol
/// goes and whether a space sets it off, its decimal and group separators,
/// its digit grouping, and how it writes a date. Australia, for one, writes
/// day, month, year (`11/08/2026` is the 11th of August).
pub proof fn the_region_table()
    ensures
        region_rules('G', 'B') == Some(rules("GBP", SymbolPosition::Prefix, false, '.', ',', Grouping::Western, DateOrder::Dmy, '/')),
        region_rules('I', 'E') == Some(rules("EUR", SymbolPosition::Prefix, false, '.', ',', Grouping::Western, DateOrder::Dmy, '/')),
        region_rules('U', 'S') == Some(rules("USD", SymbolPosition::Prefix, false, '.', ',', Grouping::Western, DateOrder::Mdy, '/')),
        region_rules('C', 'A') == Some(rules("CAD", SymbolPosition::Prefix, false, '.', ',', Grouping::Western, DateOrder::Ymd, '-')),
        region_rules('A', 'U') == Some(rules("AUD", SymbolPosition::Prefix, false, '.', ',', Grouping::Western, DateOrder::Dmy, '/')),
        region_rules('N', 'Z') == Some(rules("NZD", SymbolPosition::Prefix, false, '.', ',', Grouping::Western, DateOrder::Dmy, '/')),
        region_rules('D', 'E') == Some(rules("EUR", SymbolPosition::Suffix, true, ',', '.', Grouping::Western, DateOrder::Dmy, '.')),
        region_rules('A', 'T') == Some(rules("EUR", SymbolPosition::Suffix, true, ',', '.', Grouping::Western, DateOrder::Dmy, '.')),
        region_rules('C', 'H') == Some(rules("CHF", SymbolPosition::Prefix, true, '.', '\u{2019}', Grouping::Western, DateOrder::Dmy, '.')),
        region_rules('F', 'R') == Some(rules("EUR", SymbolPosition::Suffix, true, ',', '\u{202f}', Grouping::Western, DateOrder::Dmy, '/')),
        region_rules('B', 'E') == Some(rules("EUR", SymbolPosition::Suffix, true, ',', '.', Grouping::Western, DateOrder::Dmy, '/')),
        region_rules('N', 'L') == Some(rules("EUR", SymbolPosition::Prefix, true, ',', '.', Grouping::Western, DateOrder::Dmy, '-')),
        region_rules('L', 'U') == Some(rules("EUR", SymbolPosition::Suffix, true, ',', '.', Grouping::Western, DateOrder::Dmy, '.')),
        region_rules('E', 'S') == Some(rules("EUR", SymbolPosition::Suffix, true, ',', '.', Grouping::Western, DateOrder::Dmy, '/')),
        region_rules('I', 'T') == Some(rules("EUR", SymbolPosition::Suffix, true, ',', '.', Grouping::Western, DateOrder::Dmy, '/')),
        region_rules('P', 'T') == Some(rules("EUR", SymbolPosition::Suffix, true, ',', '.', Grouping::Western, DateOrder::Dmy, '/')),
        region_rules('G', 'R') == Some(rules("EUR", SymbolPosition::Suffix, true, ',', '.', Grouping::Western, DateOrder::Dmy, '/')),
        region_rules('F', 'I') == Some(rules("EUR", SymbolPosition::Suffix, true, ',', '\u{202f}', Grouping::Western, DateOrder::Dmy, '.')),
        region_rules('S', 'E') == Some(rules("SEK", SymbolPosition::Suffix, true, ',', '\u{a0}', Grouping::Western, DateOrder::Ymd, '-')),
        region_rules('N', 'O') == Some(rules("NOK", SymbolPosition::Suffix, true, ',', '\u{a0}', Grouping::Western, DateOrder::Dmy, '.')),
        region_rules('D', 'K') == Some(rules("DKK", SymbolPosition::Suffix, true, ',', '.', Grouping::Western, DateOrder::Dmy, '.')),
        region_rules('I', 'S') == Some(rules("ISK", SymbolPosition::Suffix, true, ',', '.', Grouping::Western, DateOrder::Dmy, '.')),
        region_rules('P', 'L') == Some(rules("PLN", SymbolPosition::Suffix, true, ',', '\u{a0}', Grouping::Western, DateOrder::Dmy, '.')),
        region_rules('C', 'Z') == Some(rules("CZK", SymbolPosition::Suffix, true, ',', '\u{a0}', Grouping::Western, DateOrder::Dmy, '.')),
        region_rules('S', 'K') == Some(rules("EUR", SymbolPosition::Suffix, true, ',', '\u{a0}', Grouping::Western, DateOrder::Dmy, '.')),
        region_rules('H', 'U') == Some(rules("HUF", SymbolPosition::Suffix, true, ',', '\u{a0}', Grouping::Western, DateOrder::Ymd, '.')),
        region_rules('R', 'O') == Some(rules("RON", SymbolPosition::Suffix, true, ',', '.', Grouping::Western, DateOrder::Dmy, '.')),
        region_rules('B', 'G') == Some(rules("BGN", SymbolPosition::Suffix, true, ',', '\u{a0}', Grouping::Western, DateOrder::Dmy, '.')),
        region_rules('H', 'R') == Some(rules("EUR", SymbolPosition::Suffix, true, ',', '.', Grouping::Western, DateOrder::Dmy, '.')),
        region_rules('S', 'I') == Some(rules("EUR", SymbolPosition::Suffix, true, ',', '.', Grouping::Western, DateOrder::Dmy, '.')),
        region_rules('R', 'U') == Some(rules("RUB", SymbolPosition::Suffix, true, ',', '\u{a0}', Grouping::Western, DateOrder::Dmy, '.')),
        region_rules('U', 'A') == Some(rules("UAH", SymbolPosition::Suffix, true, ',', '\u{a0}', Grouping::Western, DateOrder::Dmy, '.')),
        region_rules('T', 'R') == Some(rules("TRY", SymbolPosition::Prefix, false, ',', '.', Grouping::Western, DateOrder::Dmy, '.')),
        region_rules('I', 'L') == Some(rules("ILS", SymbolPosition::Prefix, false, '.', ',', Grouping::Western, DateOrder::Dmy, '.')),
        region_rules('A', 'E') == Some(rules("AED", SymbolPosition::Prefix, true, '.', ',', Grouping::Western, DateOrder::Dmy, '/')),
        region_rules('S', 'A') == Some(rules("SAR", SymbolPosition::Prefix, true, '.', ',', Grouping::Western, DateOrder::Dmy, '/')),
        region_rules('E', 'G') == Some(rules("EGP", SymbolPosition::Prefix, true, '.', ',', Grouping::Western, DateOrder::Dmy, '/')),
        region_rules('Z', 'A') == Some(rules("ZAR", SymbolPosition::Prefix, true, ',', '\u{a0}', Grouping::Western, DateOrder::Ymd, '/')),
        region_rules('N', 'G') == Some(rules("NGN", SymbolPosition::Prefix, false, '.', ',', Grouping::Western, DateOrder::Dmy, '/')),
        region_rules('K', 'E') == Some(rules("KES", SymbolPosition::Prefix, true, '.', ',', Grouping::Western, DateOrder::Dmy, '/')),
        region_rules('I', 'N') == Some(rules("INR", SymbolPosition::Prefix, false, '.', ',', Grouping::Indian, DateOrder::Dmy, '/')),
        region_rules('P', 'K') == Some(rules("PKR", SymbolPosition::Prefix, true, '.', ',', Grouping::Indian, DateOrder::Dmy, '/')),
        region_rules('B', 'D') == Some(rules("BDT", SymbolPosition::Prefix, false, '.', ',', Grouping::Indian, DateOrder::Dmy, '/')),
        region_rules('L', 'K') == Some(rules("LKR", SymbolPosition::Prefix, true, '.', ',', Grouping::Western, DateOrder::Dmy, '/')),
        region_rules('J', 'P') == Some(rules("JPY", SymbolPosition::Prefix, false, '.', ',', Grouping::Western, DateOrder::Ymd, '/')),
        region_rules('C', 'N') == Some(rules("CNY", SymbolPosition::Prefix, false, '.', ',', Grouping::Western, DateOrder::Ymd, '/')),
        region_rules('T', 'W') == Some(rules("TWD", SymbolPosition::Prefix, false, '.', ',', Grouping::Western, DateOrder::Ymd, '/')),
        region_rules('K', 'R') == Some(rules("KRW", SymbolPosition::Prefix, false, '.', ',', Grouping::Western, DateOrder::Ymd, '.')),
        region_rules('H', 'K') == Some(rules("HKD", SymbolPosition::Prefix, false, '.', ',', Grouping::Western, DateOrder::Dmy, '/')),
        region_rules('S', 'G') == Some(rules("SGD", SymbolPosition::Prefix, false, '.', ',', Grouping::Western, DateOrder::Dmy, '/')),
        region_rules('M', 'Y') == Some(rules("MYR", SymbolPosition::Prefix, false, '.', ',', Grouping::Western, DateOrder::Dmy, '/')),
        region_rules('T', 'H') == Some(rules("THB", SymbolPosition::Prefix, false, '.', ',', Grouping::Western, DateOrder::Dmy, '/')),
        region_rules('V', 'N') == Some(rules("VND", SymbolPosition::Suffix, true, ',', '.', Grouping::Western, DateOrder::Dmy, '/')),
        region_rules('I', 'D') == Some(rules("IDR", SymbolPosition::Prefix, true, ',', '.', Grouping::Western, DateOrder::Dmy, '/')),
        region_rules('P', 'H') == Some(rules("PHP", SymbolPosition::Prefix, false, '.', ',', Grouping::Western, DateOrder::Mdy, '/')),
        region_rules('B', 'R') == Some(rules("BRL", SymbolPosition::Prefix, true, ',', '.', Grouping::Western, DateOrder::Dmy, '/')),
        region_rules('M', 'X') == Some(rules("MXN", SymbolPosition::Prefix, false, '.', ',', Grouping::Western, DateOrder::Dmy, '/')),
        region_rules('A', 'R') == Some(rules("ARS", SymbolPosition::Prefix, true, ',', '.', Grouping::Western, DateOrder::Dmy, '/')),
        region_rules('C', 'L') == Some(rules("CLP", SymbolPosition::Prefix, true, ',', '.', Grouping::Western, DateOrder::Dmy, '-')),
        region_rules('C', 'O') == Some(rules("COP", SymbolPosition::Prefix, true, ',', '.', Grouping::Western, DateOrder::Dmy, '/')),
        region_rules('P', 'E') == Some(rules("PEN", SymbolPosition::Prefix, true, '.', ',', Grouping::Western, DateOrder::Dmy, '/')),
{
}

/// Only the United States and the Philippines write the month first, and
/// only these write the year first: Canada, Sweden, Hungary, South Africa,
/// Japan, China, Taiwan and Korea. Every other region of the table writes
/// the day first.
pub proof fn date_orders_by_region(a: char, b: char)
    ensures
        (region_rules(a, b) matches Some(r) && r.date_order == DateOrder::Mdy) ==> (a == 'U' && b == 'S') || (a == 'P' && b == 'H'),
        (region_rules(a, b) matches Some(r) && r.date_order == DateOrder::Ymd) ==> (a == 'C' && b == 'A') || (a == 'S' && b == 'E') || (a == 'H' && b == 'U') || (a == 'Z' && b == 'A') || (a == 'J' && b == 'P') || (a == 'C' && b == 'N') || (a == 'T' && b == 'W') || (a == 'K' && b == 'R'),
        (a == 'U' && b == 'S') || (a == 'P' && b == 'H') ==> (region_rules(a, b) matches Some(r) && r.date_order == DateOrder::Mdy),
        (a == 'C' && b == 'A') || (a == 'S' && b == 'E') || (a == 'H' && b == 'U') || (a == 'Z' && b == 'A') || (a == 'J' && b == 'P') || (a == 'C' && b == 'N') || (a == 'T' && b == 'W') || (a == 'K' && b == 'R') ==> (region_rules(a, b) matches Some(r) && r.date_order == DateOrder::Ymd),
{
}

/// The currencies by ISO 4217 code, with their symbols and how many digits
/// follow the decimal separator (none for yen, won, dong, krona and peso of
/// Chile).
#[verifier::spinoff_prover]
#[verifier::rlimit(100)]
pub proof fn the_currency_table()
    ensures
        currency_named("GBP"@) == (Currency { code: "GBP", symbol: "£", decimals: 2 }),
        currency_named("EUR"@) == (Currency { code: "EUR", symbol: "€", decimals: 2 }),
        currency_named("USD"@) == (Currency { code: "USD", symbol: "$", decimals: 2 }),
        currency_named("CAD"@) == (Currency { code: "CAD", symbol: "$", decimals: 2 }),
        currency_named("AUD"@) == (Currency { code: "AUD", symbol: "$", decimals: 2 }),
        currency_named("NZD"@) == (Currency { code: "NZD", symbol: "$", decimals: 2 }),
        currency_named("CHF"@) == (Currency { code: "CHF", symbol: "CHF", decimals: 2 }),
        currency_named("SEK"@) == (Currency { code: "SEK", symbol: "kr", decimals: 2 }),
        currency_named("NOK"@) == (Currency { code: "NOK", symbol: "kr", decimals: 2 }),
        currency_named("DKK"@) == (Currency { code: "DKK", symbol: "kr", decimals: 2 }),
        currency_named("ISK"@) == (Currency { code: "ISK", symbol: "kr", decimals: 0 }),
        currency_named("PLN"@) == (Currency { code: "PLN", symbol: "zł", decimals: 2 }),
        currency_named("CZK"@) == (Currency { code: "CZK", symbol: "Kč", decimals: 2 }),
        currency_named("HUF"@) == (Currency { code: "HUF", symbol: "Ft", decimals: 2 }),
        currency_named("RON"@) == (Currency { code: "RON", symbol: "lei", decimals: 2 }),
        currency_named("BGN"@) == (Currency { code: "BGN", symbol: "лв.", decimals: 2 }),
        currency_named("RUB"@) == (Currency { code: "RUB", symbol: "₽", decimals: 2 }),
        currency_named("UAH"@) == (Currency { code: "UAH", symbol: "₴", decimals: 2 }),
        currency_named("TRY"@) == (Currency { code: "TRY", symbol: "₺", decimals: 2 }),
        currency_named("ILS"@) == (Currency { code: "ILS", symbol: "₪", decimals: 2 }),
        currency_named("AED"@) == (Currency { code: "AED", symbol: "AED", decimals: 2 }),
        currency_named("SAR"@) == (Currency { code: "SAR", symbol: "SAR", decimals: 2 }),
        currency_named("EGP"@) == (Currency { code: "EGP", symbol: "E£", decimals: 2 }),
        currency_named("ZAR"@) == (Currency { code: "ZAR", symbol: "R", decimals: 2 }),
        currency_named("NGN"@) == (Currency { code: "NGN", symbol: "₦", decimals: 2 }),
        currency_named("KES"@) == (Currency { code: "KES", symbol: "KSh", decimals: 2 }),
        currency_named("INR"@) == (Currency { code: "INR", symbol: "₹", decimals: 2 }),
        currency_named("PKR"@) == (Currency { code: "PKR", symbol: "Rs", decimals: 2 }),
        currency_named("BDT"@) == (Currency { code: "BDT", symbol: "৳", decimals: 2 }),
        currency_named("LKR"@) == (Currency { code: "LKR", symbol: "Rs", decimals: 2 }),
        currency_named("JPY"@) == (Currency { code: "JPY", symbol: "¥", decimals: 0 }),
        currency_named("CNY"@) == (Currency { code: "CNY", symbol: "¥", decimals: 2 }),
        currency_named("TWD"@) == (Currency { code: "TWD", symbol: "NT$", decimals: 2 }),
        currency_named("KRW"@) == (Currency { code: "KRW", symbol: "₩", decimals: 0 }),
        currency_named("HKD"@) == (Currency { code: "HKD", symbol: "HK$", decimals: 2 }),
        currency_named("SGD"@) == (Currency { code: "SGD", symbol: "S$", decimals: 2 }),
        currency_named("MYR"@) == (Currency { code: "MYR", symbol: "RM", decimals: 2 }),
        currency_named("THB"@) == (Currency { code: "THB", symbol: "฿", decimals: 2 }),
        currency_named("VND"@) == (Currency { code: "VND", symbol: "₫", decimals: 0 }),
        currency_named("IDR"@) == (Currency { code: "IDR", symbol: "Rp", decimals: 2 }),
        currency_named("PHP"@) == (Currency { code: "PHP", symbol: "₱", decimals: 2 }),
        currency_named("BRL"@) == (Currency { code: "BRL", symbol: "R$", decimals: 2 }),
        currency_named("MXN"@) == (Currency { code: "MXN", symbol: "$", decimals: 2 }),
        currency_named("ARS"@) == (Currency { code: "ARS", symbol: "$", decimals: 2 }),
        currency_named("CLP"@) == (Currency { code: "CLP", symbol: "$", decimals: 0 }),
        currency_named("COP"@) == (Currency { code: "COP", symbol: "$", decimals: 2 }),
        currency_named("PEN"@) == (Currency { code: "PEN", symbol: "S/", decimals: 2 }),
        currency_named("ZZZ"@) == (Currency { code: "XXX", symbol: "\u{a4}", decimals: 2 }),
{
    reveal_strlit("GBP");
    reveal_strlit("EUR");
    reveal_strlit("USD");
    reveal_strlit("CAD");
    reveal_strlit("AUD");
    reveal_strlit("NZD");
    reveal_strlit("CHF");
    reveal_strlit("SEK");
    reveal_strlit("NOK");
    reveal_strlit("DKK");
    reveal_strlit("ISK");
    reveal_strlit("PLN");
    reveal_strlit("CZK");
    reveal_strlit("HUF");
    reveal_strlit("RON");
    reveal_strlit("BGN");
    reveal_strlit("RUB");
    reveal_strlit("UAH");
    reveal_strlit("TRY");
    reveal_strlit("ILS");
    reveal_strlit("AED");
    reveal_strlit("SAR");
    reveal_strlit("EGP");
    reveal_strlit("ZAR");
    reveal_strlit("NGN");
    reveal_strlit("KES");
    reveal_strlit("INR");
    reveal_strlit("PKR");
    reveal_strlit("BDT");
    reveal_strlit("LKR");
    reveal_strlit("JPY");
    reveal_strlit("CNY");
    reveal_strlit("TWD");
    reveal_strlit("KRW");
    reveal_strlit("HKD");
    reveal_strlit("SGD");
    reveal_strlit("MYR");
    reveal_strlit("THB");
    reveal_strlit("VND");
    reveal_strlit("IDR");
    reveal_strlit("PHP");
    reveal_strlit("BRL");
    reveal_strlit("MXN");
    reveal_strlit("ARS");
    reveal_strlit("CLP");
    reveal_strlit("COP");
    reveal_strlit("PEN");
    reveal_strlit("ZZZ");
    assert("GBP"@[0] == 'G' && "GBP"@[1] == 'B' && "GBP"@[2] == 'P');
    assert("EUR"@[0] == 'E' && "EUR"@[1] == 'U' && "EUR"@[2] == 'R');
    assert("USD"@[0] == 'U' && "USD"@[1] == 'S' && "USD"@[2] == 'D');
    assert("CAD"@[0] == 'C' && "CAD"@[1] == 'A' && "CAD"@[2] == 'D');
    assert("AUD"@[0] == 'A' && "AUD"@[1] == 'U' && "AUD"@[2] == 'D');
    assert("NZD"@[0] == 'N' && "NZD"@[1] == 'Z' && "NZD"@[2] == 'D');
    assert("CHF"@[0] == 'C' && "CHF"@[1] == 'H' && "CHF"@[2] == 'F');
    assert("SEK"@[0] == 'S' && "SEK"@[1] == 'E' && "SEK"@[2] == 'K');
    assert("NOK"@[0] == 'N' && "NOK"@[1] == 'O' && "NOK"@[2] == 'K');
    assert("DKK"@[0] == 'D' && "DKK"@[1] == 'K' && "DKK"@[2] == 'K');
    assert("ISK"@[0] == 'I' && "ISK"@[1] == 'S' && "ISK"@[2] == 'K');
    assert("PLN"@[0] == 'P' && "PLN"@[1] == 'L' && "PLN"@[2] == 'N');
    assert("CZK"@[0] == 'C' && "CZK"@[1] == 'Z' && "CZK"@[2] == 'K');
    assert("HUF"@[0] == 'H' && "HUF"@[1] == 'U' && "HUF"@[2] == 'F');
    assert("RON"@[0] == 'R' && "RON"@[1] == 'O' && "RON"@[2] == 'N');
    assert("BGN"@[0] == 'B' && "BGN"@[1] == 'G' && "BGN"@[2] == 'N');
    assert("RUB"@[0] == 'R' && "RUB"@[1] == 'U' && "RUB"@[2] == 'B');
    assert("UAH"@[0] == 'U' && "UAH"@[1] == 'A' && "UAH"@[2] == 'H');
    assert("TRY"@[0] == 'T' && "TRY"@[1] == 'R' && "TRY"@[2] == 'Y');
    assert("ILS"@[0] == 'I' && "ILS"@[1] == 'L' && "ILS"@[2] == 'S');
    assert("AED"@[0] == 'A' && "AED"@[1] == 'E' && "AED"@[2] == 'D');
    assert("SAR"@[0] == 'S' && "SAR"@[1] == 'A' && "SAR"@[2] == 'R');
    assert("EGP"@[0] == 'E' && "EGP"@[1] == 'G' && "EGP"@[2] == 'P');
    assert("ZAR"@[0] == 'Z' && "ZAR"@[1] == 'A' && "ZAR"@[2] == 'R');
    assert("NGN"@[0] == 'N' && "NGN"@[1] == 'G' && "NGN"@[2] == 'N');
    assert("KES"@[0] == 'K' && "KES"@[1] == 'E' && "KES"@[2] == 'S');
    assert("INR"@[0] == 'I' && "INR"@[1] == 'N' && "INR"@[2] == 'R');
    assert("PKR"@[0] == 'P' && "PKR"@[1] == 'K' && "PKR"@[2] == 'R');
    assert("BDT"@[0] == 'B' && "BDT"@[1] == 'D' && "BDT"@[2] == 'T');
    assert("LKR"@[0] == 'L' && "LKR"@[1] == 'K' && "LKR"@[2] == 'R');
    assert("JPY"@[0] == 'J' && "JPY"@[1] == 'P' && "JPY"@[2] == 'Y');
    assert("CNY"@[0] == 'C' && "CNY"@[1] == 'N' && "CNY"@[2] == 'Y');
    assert("TWD"@[0] == 'T' && "TWD"@[1] == 'W' && "TWD"@[2] == 'D');
    assert("KRW"@[0] == 'K' && "KRW"@[1] == 'R' && "KRW"@[2] == 'W');
    assert("HKD"@[0] == 'H' && "HKD"@[1] == 'K' && "HKD"@[2] == 'D');
    assert("SGD"@[0] == 'S' && "SGD"@[1] == 'G' && "SGD"@[2] == 'D');
    assert("MYR"@[0] == 'M' && "MYR"@[1] == 'Y' && "MYR"@[2] == 'R');
    assert("THB"@[0] == 'T' && "THB"@[1] == 'H' && "THB"@[2] == 'B');
    assert("VND"@[0] == 'V' && "VND"@[1] == 'N' && "VND"@[2] == 'D');
    assert("IDR"@[0] == 'I' && "IDR"@[1] == 'D' && "IDR"@[2] == 'R');
    assert("PHP"@[0] == 'P' && "PHP"@[1] == 'H' && "PHP"@[2] == 'P');
    assert("BRL"@[0] == 'B' && "BRL"@[1] == 'R' && "BRL"@[2] == 'L');
    assert("MXN"@[0] == 'M' && "MXN"@[1] == 'X' && "MXN"@[2] == 'N');
    assert("ARS"@[0] == 'A' && "ARS"@[1] == 'R' && "ARS"@[2] == 'S');
    assert("CLP"@[0] == 'C' && "CLP"@[1] == 'L' && "CLP"@[2] == 'P');
    assert("COP"@[0] == 'C' && "COP"@[1] == 'O' && "COP"@[2] == 'P');
    assert("PEN"@[0] == 'P' && "PEN"@[1] == 'E' && "PEN"@[2] == 'N');
    assert("ZZZ"@[0] == 'Z' && "ZZZ"@[1] == 'Z' && "ZZZ"@[2] == 'Z');
}


} // verus!
