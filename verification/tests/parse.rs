use chart_debut::date::ChartDate;
use chart_debut::parse::{parse_chart_date, parse_ordinal};
use chart_debut::ChartError;

#[test]
fn ordinal_accepts_decimal_digits() {
    assert_eq!(parse_ordinal("123"), Ok(123));
    assert_eq!(parse_ordinal("0"), Ok(0));
    assert_eq!(parse_ordinal("0042"), Ok(42));
    assert_eq!(parse_ordinal("65535"), Ok(65535));
}

#[test]
fn ordinal_rejects_bad_strings() {
    assert_eq!(parse_ordinal(""), Err(ChartError::InvalidOrdinal));
    assert_eq!(parse_ordinal("12a"), Err(ChartError::InvalidOrdinal));
    assert_eq!(parse_ordinal("-3"), Err(ChartError::InvalidOrdinal));
    assert_eq!(parse_ordinal(" 7"), Err(ChartError::InvalidOrdinal));
    assert_eq!(parse_ordinal("65536"), Err(ChartError::InvalidOrdinal));
    assert_eq!(
        parse_ordinal("999999999999999999"),
        Err(ChartError::InvalidOrdinal)
    );
}

#[test]
fn date_accepts_real_calendar_dates() {
    assert_eq!(
        parse_chart_date("07.10.2024"),
        Ok(ChartDate { year: 2024, month: 10, day: 7 })
    );
    assert_eq!(
        parse_chart_date("31.12.1999"),
        Ok(ChartDate { year: 1999, month: 12, day: 31 })
    );
    // 2024 is a leap year, 2023 is not
    assert_eq!(
        parse_chart_date("29.02.2024"),
        Ok(ChartDate { year: 2024, month: 2, day: 29 })
    );
    assert_eq!(parse_chart_date("29.02.2023"), Err(ChartError::InvalidDate));
}

#[test]
fn date_rejects_bad_strings() {
    assert_eq!(parse_chart_date("31.04.2024"), Err(ChartError::InvalidDate));
    assert_eq!(parse_chart_date("00.01.2024"), Err(ChartError::InvalidDate));
    assert_eq!(parse_chart_date("01.13.2024"), Err(ChartError::InvalidDate));
    assert_eq!(parse_chart_date("2024-10-07"), Err(ChartError::InvalidDate));
    assert_eq!(parse_chart_date("7.10.2024"), Err(ChartError::InvalidDate));
    assert_eq!(parse_chart_date("aa.bb.cccc"), Err(ChartError::InvalidDate));
    assert_eq!(parse_chart_date(""), Err(ChartError::InvalidDate));
}

#[test]
fn style_sheet_is_fixed() {
    assert_eq!(
        chart_debut::css::style_css(),
        "body { font-family: sans-serif; margin: 2em auto; max-width: 40em; }\n"
    );
}
