use cybp_backend::calendar::{
    calculate_unix_timestamp, date_to_timestamp, days_in_month, is_leap_year, parse_date,
    CalendarDate, ValidationError,
};

#[test]
fn epoch_is_zero() {
    assert_eq!(date_to_timestamp("19700101"), Ok(0));
}

#[test]
fn leap_february_2000() {
    let feb = date_to_timestamp("20000201").unwrap();
    let mar = date_to_timestamp("20000301").unwrap();
    assert_eq!(mar - feb, 29 * 86400);
}

#[test]
fn non_leap_february_1900() {
    let feb = date_to_timestamp("19000201").unwrap();
    let mar = date_to_timestamp("19000301").unwrap();
    assert_eq!(mar - feb, 28 * 86400);
}

#[test]
fn known_timestamps() {
    assert_eq!(date_to_timestamp("20000101"), Ok(946684800));
    assert_eq!(date_to_timestamp("20231001"), Ok(1696118400));
    assert_eq!(date_to_timestamp("19700102"), Ok(86400));
}

#[test]
fn pre_epoch_dates_are_negative() {
    assert_eq!(date_to_timestamp("19691231"), Ok(-86400));
    assert_eq!(date_to_timestamp("19690101"), Ok(-365 * 86400));
    assert_eq!(date_to_timestamp("00010101"), Ok(-62135596800));
}

#[test]
fn monotonic_on_samples() {
    let dates = [
        "00010101", "19000228", "19000301", "19691231", "19700101", "19700102", "19991231",
        "20000101", "20000229", "20000301", "20231001", "99991231",
    ];
    let mut prev: Option<i64> = None;
    for d in dates {
        let t = date_to_timestamp(d).unwrap();
        if let Some(p) = prev {
            assert!(p < t, "{} not before {}", p, t);
        }
        prev = Some(t);
    }
}

#[test]
fn month_out_of_range_is_rejected() {
    assert_eq!(
        date_to_timestamp("20231301"),
        Err(ValidationError::MonthOutOfRange)
    );
    assert_eq!(
        date_to_timestamp("20230001"),
        Err(ValidationError::MonthOutOfRange)
    );
}

#[test]
fn wrong_length_is_rejected() {
    assert_eq!(date_to_timestamp("2023121"), Err(ValidationError::WrongLength));
    assert_eq!(date_to_timestamp(""), Err(ValidationError::WrongLength));
    assert_eq!(
        date_to_timestamp("202312011"),
        Err(ValidationError::WrongLength)
    );
}

#[test]
fn non_digit_is_rejected() {
    assert_eq!(date_to_timestamp("2023ab01"), Err(ValidationError::NonDigit));
    assert_eq!(date_to_timestamp("2023-1-1"), Err(ValidationError::NonDigit));
}

#[test]
fn day_out_of_range_is_rejected() {
    assert_eq!(
        date_to_timestamp("20230229"),
        Err(ValidationError::DayOutOfRange)
    );
    assert_eq!(
        date_to_timestamp("20230431"),
        Err(ValidationError::DayOutOfRange)
    );
    assert_eq!(
        date_to_timestamp("20230100"),
        Err(ValidationError::DayOutOfRange)
    );
}

#[test]
fn leap_day_of_leap_year_is_accepted() {
    assert!(date_to_timestamp("20240229").is_ok());
    assert!(date_to_timestamp("20000229").is_ok());
    assert_eq!(
        date_to_timestamp("19000229"),
        Err(ValidationError::DayOutOfRange)
    );
}

#[test]
fn parse_date_decodes_fields() {
    assert_eq!(
        parse_date("20231001"),
        Ok(CalendarDate {
            year: 2023,
            month: 10,
            day: 1
        })
    );
    assert_eq!(parse_date("20231301"), Err(ValidationError::MonthOutOfRange));
}

#[test]
fn leap_year_rule() {
    assert!(is_leap_year(2000));
    assert!(!is_leap_year(1900));
    assert!(is_leap_year(2024));
    assert!(!is_leap_year(2023));
    assert!(is_leap_year(1600));
    assert!(!is_leap_year(2100));
    assert!(is_leap_year(0));
    assert!(is_leap_year(-4));
    assert!(!is_leap_year(-1));
    assert!(!is_leap_year(-100));
    assert!(is_leap_year(-400));
}

#[test]
fn year_zero_is_leap() {
    assert_eq!(days_in_month(2, 0), 29);
    let feb = date_to_timestamp("00000201").unwrap();
    let mar = date_to_timestamp("00000301").unwrap();
    assert_eq!(mar - feb, 29 * 86400);
}

#[test]
fn days_in_month_values() {
    assert_eq!(days_in_month(1, 2023), 31);
    assert_eq!(days_in_month(2, 2023), 28);
    assert_eq!(days_in_month(2, 2024), 29);
    assert_eq!(days_in_month(4, 2023), 30);
    assert_eq!(days_in_month(12, 2023), 31);
}

#[test]
fn calculate_matches_date_to_timestamp() {
    assert_eq!(calculate_unix_timestamp(1970, 1, 1), 0);
    assert_eq!(
        calculate_unix_timestamp(2023, 10, 1),
        date_to_timestamp("20231001").unwrap()
    );
    assert_eq!(calculate_unix_timestamp(1969, 12, 31), -86400);
}
