use taskwheel::cron::{next_fire_after, parse_cron};

fn masks(s: &str) -> taskwheel::cron::CronExpr {
    parse_cron(s).expect("expression should parse")
}

fn bit(m: u64, v: u64) -> bool {
    (m >> v) & 1 == 1
}

#[test]
fn five_fields_parse_and_fire_at_second_zero() {
    let c = masks("* * * * *");
    assert!(bit(c.sec, 0));
    assert!(!bit(c.sec, 1));
    assert!(bit(c.min, 0) && bit(c.min, 59));
    assert!(bit(c.hour, 0) && bit(c.hour, 23));
    assert_eq!(next_fire_after(&c, 0), Some(60));
    assert_eq!(next_fire_after(&c, 60), Some(120));
    assert_eq!(next_fire_after(&c, 59), Some(60));
}

#[test]
fn six_fields_use_the_seconds_field() {
    let c = masks("30 * * * * *");
    assert!(bit(c.sec, 30));
    assert!(!bit(c.sec, 0));
    assert_eq!(next_fire_after(&c, 0), Some(30));
    assert_eq!(next_fire_after(&c, 30), Some(90));
}

#[test]
fn daily_at_midnight() {
    let c = masks("0 0 * * *");
    assert_eq!(next_fire_after(&c, 0), Some(86400));
    assert_eq!(next_fire_after(&c, 86399), Some(86400));
    assert_eq!(next_fire_after(&c, 86400), Some(2 * 86400));
}

#[test]
fn step_and_range_atoms() {
    let c = masks("*/15 * * * *");
    assert!(bit(c.min, 0) && bit(c.min, 15) && bit(c.min, 30) && bit(c.min, 45));
    assert!(!bit(c.min, 5));
    assert_eq!(next_fire_after(&c, 0), Some(900));

    let c2 = masks("10-20/5 * * * *");
    assert!(bit(c2.min, 10) && bit(c2.min, 15) && bit(c2.min, 20));
    assert!(!bit(c2.min, 11) && !bit(c2.min, 25));
    assert_eq!(next_fire_after(&c2, 0), Some(600));
}

#[test]
fn comma_lists_take_the_union() {
    let c = masks("1,2,59 3,4 * * *");
    assert!(bit(c.min, 1) && bit(c.min, 2) && bit(c.min, 59));
    assert!(!bit(c.min, 3));
    assert!(bit(c.hour, 3) && bit(c.hour, 4));
}

#[test]
fn weekday_field_counts_from_sunday() {
    // The epoch fell on a Thursday; the first Sunday is three days later.
    let c = masks("0 0 * * 0");
    assert_eq!(next_fire_after(&c, 0), Some(3 * 86400));
}

#[test]
fn day_of_month_and_month_fields() {
    // The first of February 1970 is day 31.
    let c = masks("0 0 1 2 *");
    assert_eq!(next_fire_after(&c, 0), Some(31 * 86400));
}

#[test]
fn malformed_expressions_are_rejected() {
    assert!(parse_cron("").is_none());
    assert!(parse_cron("* * * *").is_none());
    assert!(parse_cron("* * * * * * *").is_none());
    assert!(parse_cron("60 * * * *").is_none());
    assert!(parse_cron("* 24 * * *").is_none());
    assert!(parse_cron("* * 0 * *").is_none());
    assert!(parse_cron("* * 32 * *").is_none());
    assert!(parse_cron("* * * 13 *").is_none());
    assert!(parse_cron("* * * * 7").is_none());
    assert!(parse_cron("*/0 * * * *").is_none());
    assert!(parse_cron("5-3 * * * *").is_none());
    assert!(parse_cron("a * * * *").is_none());
    assert!(parse_cron("*  * * * *").is_none());
    assert!(parse_cron("007 * * * *").is_none());
}
