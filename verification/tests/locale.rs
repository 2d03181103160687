//! Money and dates in the conventions of a locale.

use generic_accounting_system::ui::amount_field;
use generic_accounting_system::calendar::Date;
use generic_accounting_system::locale::{DateError, DateOrder, Locale, MoneyError};

fn uk() -> Locale {
    Locale::from_tag("en_GB.UTF-8")
}

fn day(year: i32, month: u32, day: u32) -> Date {
    Date::from_ymd(year, month, day).unwrap()
}

#[test]
fn uk_money_reads_as_sterling() {
    let l = uk();
    assert_eq!(l.currency.code, "GBP");
    assert_eq!(l.format_money(1234), "£12.34");
    assert_eq!(l.format_money(123_456_789), "£1,234,567.89");
    assert_eq!(l.format_money(-500), "-£5.00");
}

#[test]
fn german_money_puts_the_symbol_last() {
    let l = Locale::from_tag("de-DE");
    assert_eq!(l.format_money(123_456), "1.234,56\u{a0}€");
    assert_eq!(l.parse_money("1.234,56"), Ok(123_456));
    // A full stop is the grouping separator here, not a decimal point.
    assert_eq!(l.parse_money("1.5"), Ok(1500));
}

#[test]
fn indian_grouping_is_lakhs_and_crores() {
    let l = Locale::from_tag("hi-IN");
    assert_eq!(l.format_money(123_456_789), "₹12,34,567.89");
}

#[test]
fn yen_has_no_minor_units() {
    let l = Locale::from_tag("ja-JP");
    assert_eq!(l.format_money(1234), "¥1,234");
    assert_eq!(l.parse_money("1234"), Ok(1234));
    assert!(l.parse_money("12.34").is_err());
}

#[test]
fn unknown_locales_do_not_pretend_to_know_the_currency() {
    let l = Locale::from_tag("und");
    assert_eq!(l.currency.code, "XXX");
    assert_eq!(l.date_hint(), "YYYY-MM-DD");
}

#[test]
fn money_round_trips_through_parsing() {
    let l = uk();
    for minor in [1, 99, 100, 4321, 10_000_000] {
        let text = l.format_money(minor);
        assert_eq!(l.parse_money(&text), Ok(minor), "round trip of {text}");
    }
}

#[test]
fn money_parsing_rejects_the_ambiguous_and_the_impossible() {
    let l = uk();
    assert!(l.parse_money("").is_err());
    assert!(l.parse_money("twelve").is_err());
    assert!(l.parse_money("1.234").is_err()); // three decimal places
    assert!(l.parse_money("0.00").is_err()); // nothing was spent
    assert_eq!(l.parse_money("£1,234.50"), Ok(123_450));
    assert_eq!(l.parse_money(" 7 "), Ok(700));
    assert_eq!(l.parse_money(".5"), Ok(50));
}

#[test]
fn dates_use_the_local_order() {
    let uk = uk();
    let us = Locale::from_tag("en-US");
    let date = day(2026, 8, 11);
    assert_eq!(uk.format_date(date), "11/08/2026");
    assert_eq!(us.format_date(date), "08/11/2026");
    assert_eq!(uk.date_hint(), "DD/MM/YYYY");
    assert_eq!(uk.parse_date("11/08/2026"), Ok(date));
    assert_eq!(us.parse_date("08/11/2026"), Ok(date));
    // The same text means different days in the two locales.
    assert_ne!(uk.parse_date("03/04/2026"), us.parse_date("03/04/2026"));
}

#[test]
fn dates_are_forgiving_about_separators_but_not_about_order() {
    let l = uk();
    let date = day(2026, 8, 11);
    assert_eq!(l.parse_date("11-8-2026"), Ok(date));
    assert_eq!(l.parse_date("11.08.26"), Ok(date));
    assert!(l.parse_date("31/02/2026").is_err()); // no such day
    assert!(l.parse_date("2026/08/11").is_err()); // wrong order for en-GB
    assert!(l.parse_date("11/08").is_err());
}

#[test]
fn years_outside_four_digits_are_refused() {
    let l = uk();
    assert!(l.parse_date("11/08/0000").is_err());
    assert!(l.parse_date("11/08/0999").is_err());
    assert!(l.parse_date("11/08/99999").is_err());
    assert!(l.parse_date("11/08/1000").is_ok());
    assert!(l.parse_date("11/08/9999").is_ok());
}

// Beyond the module's own examples.

#[test]
fn each_money_error_has_its_input() {
    let uk = uk();
    assert_eq!(uk.parse_money("   "), Err(MoneyError::Enter));
    assert_eq!(uk.parse_money("£"), Err(MoneyError::Enter));
    assert_eq!(uk.parse_money("12x"), Err(MoneyError::NotAnAmount { separator: '.' }));
    assert_eq!(uk.parse_money("1.2.3"), Err(MoneyError::NotAnAmount { separator: '.' }));
    assert_eq!(uk.parse_money("1.234"), Err(MoneyError::TooManyDecimals { decimals: 2 }));
    assert_eq!(uk.parse_money("0"), Err(MoneyError::GreaterThanZero));
    assert_eq!(uk.parse_money("-0.00"), Err(MoneyError::GreaterThanZero));
    // A refund is typed with a minus sign and kept as one.
    assert_eq!(uk.parse_money("-3"), Ok(-300));
    assert_eq!(uk.parse_money("99999999999999999999"), Err(MoneyError::TooLarge));
    let jp = Locale::from_tag("ja-JP");
    assert_eq!(jp.parse_money("12.5"), Err(MoneyError::NoDecimals { code: "JPY" }));
}

#[test]
fn each_date_error_has_its_input() {
    let l = uk();
    assert_eq!(l.parse_date("today"), Err(DateError::EnterAs));
    assert_eq!(l.parse_date("1/2/3/4"), Err(DateError::EnterAs));
    assert_eq!(l.parse_date("11/08/0999"), Err(DateError::BadYear));
    assert_eq!(l.parse_date("30/02/2024"), Err(DateError::NoSuchDate));
    assert_eq!(l.parse_date("29/02/2024"), Ok(day(2024, 2, 29)));
    assert_eq!(l.parse_date("29/02/1900"), Err(DateError::NoSuchDate));
}

#[test]
fn a_two_digit_year_is_this_century() {
    let l = Locale::from_tag("en-US");
    assert_eq!(l.parse_date("1/2/99"), Ok(day(2099, 1, 2)));
    assert_eq!(l.parse_date("1/2/5"), Ok(day(2005, 1, 2)));
}

#[test]
fn money_round_trips_in_other_conventions_too() {
    for tag in ["de-DE", "hi-IN", "ja-JP", "fr-FR", "en-US"] {
        let l = Locale::from_tag(tag);
        for minor in [1, 7, 99, 100, 4321, 123_456_789, i64::MAX] {
            let text = l.format_money(minor);
            assert_eq!(l.parse_money(&text), Ok(minor), "{tag}: round trip of {text}");
        }
    }
}

#[test]
fn dates_round_trip_in_each_order() {
    for tag in ["en-GB", "en-US", "de-DE", "ja-JP", "und"] {
        let l = Locale::from_tag(tag);
        for date in [day(2026, 8, 11), day(1000, 1, 1), day(9999, 12, 31), day(2024, 2, 29)] {
            let text = l.format_date(date);
            assert_eq!(l.parse_date(&text), Ok(date), "{tag}: round trip of {text}");
        }
    }
}

#[test]
fn the_hints_follow_the_conventions() {
    assert_eq!(Locale::from_tag("en-US").date_hint(), "MM/DD/YYYY");
    assert_eq!(Locale::from_tag("de-DE").date_hint(), "DD.MM.YYYY");
    assert_eq!(uk().amount_hint(), "0.00");
    assert_eq!(Locale::from_tag("de-DE").amount_hint(), "0,00");
    assert_eq!(Locale::from_tag("ja-JP").amount_hint(), "0");
}

#[test]
fn the_locale_comes_from_the_environment_when_told() {
    assert_eq!(Locale::detect(Some("de_DE.UTF-8".to_owned())).currency.code, "EUR");
    assert_eq!(Locale::detect(Some("en_GB.UTF-8".to_owned())).tag, "en_GB");
}

#[test]
fn refunds_round_trip_through_parsing_too() {
    for tag in ["en-GB", "de-DE", "hi-IN", "ja-JP", "fr-FR"] {
        let l = Locale::from_tag(tag);
        for minor in [-1, -99, -4321, -123_456_789, -i64::MAX] {
            let text = l.format_money(minor);
            assert_eq!(l.parse_money(&text), Ok(minor), "{tag}: round trip of {text}");
        }
    }
}

#[test]
fn an_amount_being_edited_reads_back_as_it_was() {
    let uk = uk();
    assert_eq!(amount_field(&uk, 123_450), "1,234.50");
    assert_eq!(amount_field(&uk, -500), "-5.00");
    for tag in ["en-GB", "de-DE", "hi-IN", "ja-JP", "fr-FR"] {
        let l = Locale::from_tag(tag);
        for minor in [1, -1, 99, -4321, 123_456_789, i64::MAX, -i64::MAX] {
            let text = amount_field(&l, minor);
            assert_eq!(l.parse_money(&text), Ok(minor), "{tag}: {text}");
        }
    }
}

#[test]
fn leap_days_are_real_days_only_in_leap_years() {
    assert!(Date { year: 2024, month: 2, day: 29 }.is_valid());
    assert!(!Date { year: 2023, month: 2, day: 29 }.is_valid());
    assert!(!Date { year: 1900, month: 2, day: 29 }.is_valid());
    assert!(Date { year: 2000, month: 2, day: 29 }.is_valid());
    assert!(Date { year: -4, month: 2, day: 29 }.is_valid());
    assert!(!Date { year: -100, month: 2, day: 29 }.is_valid());
    assert!(Date { year: -400, month: 2, day: 29 }.is_valid());
    assert!(!Date { year: 2026, month: 13, day: 1 }.is_valid());
    assert!(!Date { year: 2026, month: 4, day: 31 }.is_valid());
    assert!(!Date { year: 2026, month: 1, day: 0 }.is_valid());
    assert!(Date::from_ymd(2026, 4, 30).unwrap().is_before(&Date::from_ymd(2026, 5, 1).unwrap()));
}

#[test]
fn a_script_subtag_does_not_hide_the_region() {

    let l = Locale::from_tag("zh-Hant-TW");
    assert_eq!(l.currency.code, "TWD");
    assert_eq!(l.currency.symbol, "NT$");
    assert_eq!(l.date_order, DateOrder::Ymd);
    assert_eq!(Locale::from_tag("en_GB.UTF-8").currency.code, "GBP");
    assert_eq!(Locale::from_tag("de-DE").currency.code, "EUR");
    assert_eq!(Locale::from_tag("en-gb").currency.code, "GBP");
    assert_eq!(Locale::from_tag("und").currency.code, "XXX");
    assert_eq!(Locale::from_tag("de").currency.code, "XXX");
}

#[test]
fn every_tag_locale_reads_back_its_own_amounts_refunds_and_dates() {
    let tags = [
        "en-GB", "de-DE", "fr-FR", "fr-CH", "de-CH", "pl-PL", "hi-IN", "ja-JP", "zh-Hant-TW",
        "sv_SE.UTF-8", "is-IS", "vi-VN", "und", "de",
    ];
    let day = Date::from_ymd(2024, 2, 29).unwrap();
    for tag in tags {
        let l = Locale::from_tag(tag);
        for minor in [1, -1, 99, -4321, 123_456_789, i64::MAX, -i64::MAX] {
            let text = l.format_money(minor);
            assert_eq!(l.parse_money(&text), Ok(minor), "{tag}: round trip of {text}");
        }
        let shown = l.format_date(day);
        assert_eq!(l.parse_date(&shown), Ok(day), "{tag}: round trip of {shown}");
    }
}

#[test]
fn dates_cover_the_calendar_range_not_just_four_digit_years() {
    assert!(Date::from_ymd(-4, 2, 29).is_some());
    assert!(Date::from_ymd(-5, 2, 29).is_none());
    assert!(Date::from_ymd(262_142, 12, 31).is_some());
    assert!(Date::from_ymd(262_143, 1, 1).is_none());
    assert!(Date::from_ymd(-262_143, 1, 1).is_some());
    assert!(Date::from_ymd(-262_144, 1, 1).is_none());
    assert!(Date::from_ymd(400_000, 1, 1).is_none());
}
