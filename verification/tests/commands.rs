use std::time::Duration;

use chrono::{Datelike, NaiveDateTime, Timelike};
use tesira_text_protocol::builder::{DelayValue, FilterSlope, FilterType};
use tesira_text_protocol::decimal::Decimal;
use tesira_text_protocol::proto::commands::{
    COMMAND_DECREMENT, COMMAND_GET, COMMAND_INCREMENT, COMMAND_SET, COMMAND_SUBSCRIBE,
    COMMAND_TOGGLE, COMMAND_UNSUBSCRIBE,
};
use tesira_text_protocol::proto::{Command, IntoTTP};
use tesira_text_protocol::DateTime;

#[test]
fn should_serialize_date() {
    let moment = NaiveDateTime::parse_from_str("2025-06-01T12:56:43.000Z", "%+").unwrap();
    let date = DateTime::new(
        moment.year() as u16,
        moment.month() as u8,
        moment.day() as u8,
        moment.hour() as u8,
        moment.minute() as u8,
        moment.second() as u8,
    )
    .unwrap();
    assert_eq!(date.into_ttp(), "\"12:56:43:6:01:2025\"")
}

#[test]
fn should_serialize_get_alias_command() {
    assert_eq!(
        Command::new_get("SESSION", "aliases", vec![]).into_ttp(),
        "SESSION get aliases"
    );
}

#[test]
fn should_serialize_get_command() {
    assert_eq!(
        Command::new_get("Level3", "level", vec![2]).into_ttp(),
        "Level3 get level 2"
    );
}

#[test]
fn should_serialize_set_command() {
    assert_eq!(
        Command::new_set("level3", "mute", vec![3], true).into_ttp(),
        "level3 set mute 3 true"
    );

    assert_eq!(
        Command::new_set("level3", "mute", vec![0], true).into_ttp(),
        "level3 set mute 0 true"
    );
}

#[test]
fn command_constructors_pick_their_verb() {
    assert_eq!(Command::new_get("a", "b", vec![]).command, COMMAND_GET);
    assert_eq!(Command::new_set("a", "b", vec![], 1).command, COMMAND_SET);
    assert_eq!(
        Command::new_increment("a", "b", vec![], 1).command,
        COMMAND_INCREMENT
    );
    assert_eq!(
        Command::new_decrement("a", "b", vec![], 1).command,
        COMMAND_DECREMENT
    );
    assert_eq!(
        Command::new_subscribe("a", "b", vec![], "l").command,
        COMMAND_SUBSCRIBE
    );
    assert_eq!(
        Command::new_unsubscribe("a", "b", vec![], "l").command,
        COMMAND_UNSUBSCRIBE
    );
    assert_eq!(COMMAND_TOGGLE, "toggle");
}

#[test]
fn should_serialize_commands_with_several_indexes_and_values() {
    assert_eq!(
        Command::new_increment("Mixer1", "crosspointLevel", vec![1, 12, 18446744073709551615], -3)
            .into_ttp(),
        "Mixer1 increment crosspointLevel 1 12 18446744073709551615 -3"
    );
    assert_eq!(
        Command::new_decrement("Mixer1", "crosspointLevel", vec![10, 200], 1024_u64).into_ttp(),
        "Mixer1 decrement crosspointLevel 10 200 1024"
    );
    assert_eq!(
        Command::new_subscribe_with_rate(
            "AudioMeter1",
            "level",
            vec![1],
            "MySubscription",
            Duration::from_millis(500)
        )
        .into_ttp(),
        "AudioMeter1 subscribe level 1 MySubscription 500"
    );
    assert_eq!(
        Command::new_unsubscribe("AudioMeter1", "level", vec![1], "MySubscription").into_ttp(),
        "AudioMeter1 unsubscribe level 1 MySubscription"
    );
    let by_hand = Command {
        instance_tag: "Dialer1".to_owned(),
        command: "dial",
        attribute: "line",
        indexes: vec![1, 2],
        values: vec!["\"5551234\"".to_owned(), "true".to_owned()],
    };
    assert_eq!(by_hand.into_ttp(), "Dialer1 dial line 1 2 \"5551234\" true");
}

#[test]
fn should_serialize_plain_values() {
    assert_eq!(true.into_ttp(), "true");
    assert_eq!(false.into_ttp(), "false");
    assert_eq!(0_i32.into_ttp(), "0");
    assert_eq!((-15_i32).into_ttp(), "-15");
    assert_eq!(i32::MIN.into_ttp(), "-2147483648");
    assert_eq!(i32::MAX.into_ttp(), "2147483647");
    assert_eq!(7_u64.into_ttp(), "7");
    assert_eq!(u64::MAX.into_ttp(), "18446744073709551615");
    assert_eq!(
        u128::MAX.into_ttp(),
        "340282366920938463463374607431768211455"
    );
    assert_eq!("\"quoted\"".to_owned().into_ttp(), "\"quoted\"");
    assert_eq!(Decimal::parse("-0.50").unwrap().into_ttp(), "-0.5");
}

#[test]
fn should_serialize_delay_values() {
    assert_eq!(
        DelayValue::Milliseconds(Duration::from_millis(42)).into_ttp(),
        "{\"units\":Milliseconds \"delay\":42}"
    );
    assert_eq!(
        DelayValue::Milliseconds(Duration::from_micros(1999)).into_ttp(),
        "{\"units\":Milliseconds \"delay\":1}"
    );
    assert_eq!(
        DelayValue::Centimeters(Decimal::parse("12.5").unwrap()).into_ttp(),
        "{\"units\":Centimeters \"delay\":12.5}"
    );
    assert_eq!(
        DelayValue::Meters(Decimal::parse("3").unwrap()).into_ttp(),
        "{\"units\":Meters \"delay\":3}"
    );
    assert_eq!(
        DelayValue::Inches(Decimal::parse("0.25").unwrap()).into_ttp(),
        "{\"units\":Inches \"delay\":0.25}"
    );
    assert_eq!(
        DelayValue::Feet(Decimal::parse("10").unwrap()).into_ttp(),
        "{\"units\":Feet \"delay\":10}"
    );
}

#[test]
fn should_serialize_filter_values() {
    assert_eq!(FilterType::Butterworth.into_ttp(), "Butterworth");
    assert_eq!(FilterType::LinkwitzRiley.into_ttp(), "Linkwitz-Riley");
    assert_eq!(FilterType::Bessel.into_ttp(), "Bessel");
    assert_eq!(FilterSlope::new(24).unwrap().into_ttp(), "24");
}

#[test]
fn should_serialize_dates_with_padding_but_for_the_month() {
    assert_eq!(
        DateTime::new(7, 12, 9, 0, 5, 60).unwrap().into_ttp(),
        "\"00:05:60:12:09:0007\""
    );
    assert_eq!(
        DateTime::new(9999, 1, 31, 23, 59, 59).unwrap().into_ttp(),
        "\"23:59:59:1:31:9999\""
    );
}

#[test]
fn dates_must_be_on_the_calendar() {
    assert!(DateTime::new(2024, 2, 29, 0, 0, 0).is_some());
    assert!(DateTime::new(2023, 2, 29, 0, 0, 0).is_none());
    assert!(DateTime::new(1900, 2, 29, 0, 0, 0).is_none());
    assert!(DateTime::new(2000, 2, 29, 0, 0, 0).is_some());
    assert!(DateTime::new(2025, 4, 31, 0, 0, 0).is_none());
    assert!(DateTime::new(2025, 0, 1, 0, 0, 0).is_none());
    assert!(DateTime::new(2025, 13, 1, 0, 0, 0).is_none());
    assert!(DateTime::new(2025, 1, 0, 0, 0, 0).is_none());
    assert!(DateTime::new(2025, 1, 1, 24, 0, 0).is_none());
    assert!(DateTime::new(2025, 1, 1, 0, 60, 0).is_none());
    assert!(DateTime::new(2025, 1, 1, 0, 0, 61).is_none());
    assert!(DateTime::new(10000, 1, 1, 0, 0, 0).is_none());
    assert_eq!(DateTime::month_length(2024, 2), 29);
    assert_eq!(DateTime::month_length(2025, 11), 30);
    assert_eq!(DateTime::month_length(2025, 12), 31);
    assert_eq!(DateTime::month_length(2025, 13), 0);
}
