use std::time::Duration;

use tesira_text_protocol::builder::{
    frequency_gain_token, type_slope_token, DelayValue, FilterSlope, FilterType, InvalidSlopeError,
};
use tesira_text_protocol::catalog::{
    truth_values, Argument, AttributeSpec, Block, IndexRole, SurfaceError, ValueSpec, Verb,
};
use tesira_text_protocol::decimal::Decimal;
use tesira_text_protocol::proto::{Command, IntoTTP};
use tesira_text_protocol::{CommandBuilder, DateTime};

fn names(values: &[&str]) -> Vec<String> {
    values.iter().map(|it| it.to_string()).collect()
}

fn attribute(
    name: &str,
    commands: Vec<Verb>,
    indexes: Vec<IndexRole>,
    value: ValueSpec,
) -> AttributeSpec {
    AttributeSpec {
        name: name.to_owned(),
        description: format!("the {name}"),
        commands,
        indexes,
        value,
    }
}

fn level() -> AttributeSpec {
    attribute(
        "level",
        vec![Verb::Get, Verb::Assign, Verb::Subscribe, Verb::Unsubscribe],
        vec![IndexRole::Channel],
        ValueSpec::Range {
            min: Decimal::parse("-100"),
            max: Decimal::parse("12"),
        },
    )
}

#[test]
fn session_aliases_encode_to_the_session_request() {
    assert_eq!(
        CommandBuilder::new().session().aliases().into_ttp(),
        "SESSION get aliases"
    );
    assert_eq!(
        Command::builder().session().aliases().into_ttp(),
        "SESSION get aliases"
    );
}

#[test]
fn filter_slope_admits_the_multiples_of_six_up_to_48() {
    assert!(FilterSlope::new(7).is_err());
    assert!(FilterSlope::new(12).is_ok());
    for slope in 0..=60_u64 {
        let valid = [6, 12, 18, 24, 30, 36, 42, 48].contains(&slope);
        match FilterSlope::new(slope) {
            Ok(made) => {
                assert!(valid);
                assert_eq!(made.value(), slope);
                assert_eq!(*made, slope);
            }
            Err(InvalidSlopeError) => assert!(!valid),
        }
    }
    assert!(FilterSlope::new(u64::MAX).is_err());
    assert_eq!(FilterSlope::six().value(), 6);
    assert_eq!(FilterSlope::twelve().value(), 12);
    assert_eq!(FilterSlope::heighteen().value(), 18);
    assert_eq!(FilterSlope::twentyfour().value(), 24);
    assert_eq!(FilterSlope::thirty().value(), 30);
    assert_eq!(FilterSlope::thirtysix().value(), 36);
    assert_eq!(FilterSlope::fourtytwo().value(), 42);
    assert_eq!(FilterSlope::fourtyheight().value(), 48);
    assert_eq!(
        InvalidSlopeError.message(),
        "Invalid slope, allowed slopes are 6, 12, 18, 24, 30, 36, 42, 48"
    );
}

#[test]
fn structured_tokens_are_space_separated_mappings() {
    assert_eq!(
        type_slope_token(FilterType::LinkwitzRiley, FilterSlope::new(24).unwrap()),
        "{\"type\":Linkwitz-Riley \"slope\":24}"
    );
    assert_eq!(
        frequency_gain_token(
            &Decimal::parse("1000").unwrap(),
            &Decimal::parse("-3.5").unwrap()
        ),
        "{\"frequency\":1000 \"gain\":-3.5}"
    );
}

#[test]
fn discrete_attribute_takes_exactly_its_constants() {
    let mode = attribute(
        "mode",
        vec![Verb::Get, Verb::Assign],
        vec![],
        ValueSpec::Discrete {
            values: names(&["A", "B", "C"]),
        },
    );
    let block = CommandBuilder::new().block("Router1");
    for constant in ["A", "B", "C"] {
        let cmd = block
            .set(&mode, vec![], Some(Argument::Choice(constant.to_owned())))
            .unwrap();
        assert_eq!(cmd.values, vec![constant.to_owned()]);
        assert_eq!(cmd.into_ttp(), format!("Router1 set mode {constant}"));
    }
    for other in ["D", "a", "", "AB", "true"] {
        assert_eq!(
            block
                .set(&mode, vec![], Some(Argument::Choice(other.to_owned())))
                .unwrap_err(),
            SurfaceError::ValueKind
        );
    }
    assert_eq!(
        block
            .set(&mode, vec![], Some(Argument::Flag(true)))
            .unwrap_err(),
        SurfaceError::ValueKind
    );
    assert_eq!(
        block.set(&mode, vec![], None).unwrap_err(),
        SurfaceError::ValueKind
    );
}

#[test]
fn discrete_truth_values_collapse_to_a_flag() {
    assert!(truth_values(&names(&["true", "false"])));
    assert!(truth_values(&names(&["false", "true", "true"])));
    assert!(!truth_values(&names(&["true"])));
    assert!(!truth_values(&names(&["false", "true", "maybe"])));
    assert!(!truth_values(&names(&[])));
    let mute = attribute(
        "mute",
        vec![Verb::Assign],
        vec![IndexRole::Channel],
        ValueSpec::Discrete {
            values: names(&["true", "false"]),
        },
    );
    let block = CommandBuilder::new().block("Level3");
    assert_eq!(
        block
            .set(&mute, vec![3], Some(Argument::Flag(true)))
            .unwrap()
            .into_ttp(),
        "Level3 set mute 3 true"
    );
    assert_eq!(
        block
            .set(&mute, vec![3], Some(Argument::Choice("true".to_owned())))
            .unwrap_err(),
        SurfaceError::ValueKind
    );
}

#[test]
fn surface_takes_only_declared_verbs_and_indexes() {
    let level = level();
    let block = CommandBuilder::new().block("Level3");
    assert_eq!(
        block.get(&level, vec![2]).unwrap().into_ttp(),
        "Level3 get level 2"
    );
    assert_eq!(
        block.get(&level, vec![]).unwrap_err(),
        SurfaceError::IndexCount
    );
    assert_eq!(
        block.get(&level, vec![1, 2]).unwrap_err(),
        SurfaceError::IndexCount
    );
    let read_only = attribute("peak", vec![Verb::Get], vec![], ValueSpec::Nothing);
    assert_eq!(
        block.set(&read_only, vec![], None).unwrap_err(),
        SurfaceError::VerbNotDeclared
    );
    assert_eq!(
        block.subscribe(&read_only, vec![], "S0").unwrap_err(),
        SurfaceError::VerbNotDeclared
    );
    assert_eq!(
        block.unsubscribe(&read_only, vec![], "S0").unwrap_err(),
        SurfaceError::VerbNotDeclared
    );
    assert_eq!(
        block
            .subscribe_with_rate(&read_only, vec![], "S0", Duration::from_millis(1))
            .unwrap_err(),
        SurfaceError::VerbNotDeclared
    );
    let write_only = attribute("reset", vec![Verb::Assign], vec![], ValueSpec::Nothing);
    assert_eq!(
        block.get(&write_only, vec![]).unwrap_err(),
        SurfaceError::VerbNotDeclared
    );
    assert_eq!(
        block.set(&write_only, vec![], None).unwrap().into_ttp(),
        "Level3 set reset"
    );
}

#[test]
fn unused_index_roles_are_skipped() {
    let gain = attribute(
        "gain",
        vec![Verb::Get],
        vec![IndexRole::Unused, IndexRole::Input, IndexRole::Unused, IndexRole::Output],
        ValueSpec::Nothing,
    );
    assert_eq!(gain.index_count(), 2);
    let block = CommandBuilder::new().block("Mixer1");
    assert_eq!(
        block.get(&gain, vec![4, 7]).unwrap().into_ttp(),
        "Mixer1 get gain 4 7"
    );
    assert_eq!(
        block.get(&gain, vec![1, 2, 3, 4]).unwrap_err(),
        SurfaceError::IndexCount
    );
    assert_eq!(IndexRole::Unused.parameter_name(), None);
    assert_eq!(IndexRole::Channel.parameter_name(), Some("channel_index"));
    assert_eq!(IndexRole::Band.parameter_name(), Some("band"));
    assert_eq!(IndexRole::Hostname.parameter_name(), Some("hostname"));
}

#[test]
fn surface_types_values_by_their_kind() {
    let block = CommandBuilder::new().block("Block1");
    let set_of = |value: ValueSpec, argument: Option<Argument>| {
        let spec = attribute("x", vec![Verb::Assign], vec![], value);
        block
            .set(&spec, vec![], argument)
            .map(|cmd| cmd.into_ttp())
    };
    assert_eq!(
        set_of(
            ValueSpec::Range { min: None, max: None },
            Some(Argument::Number(Decimal::parse("-10.50").unwrap()))
        )
        .unwrap(),
        "Block1 set x -10.5"
    );
    assert_eq!(
        set_of(
            ValueSpec::Unbounded,
            Some(Argument::Token("\"any text\"".to_owned()))
        )
        .unwrap(),
        "Block1 set x \"any text\""
    );
    assert_eq!(
        set_of(
            ValueSpec::Delay,
            Some(Argument::Delay(DelayValue::Milliseconds(
                Duration::from_millis(42)
            )))
        )
        .unwrap(),
        "Block1 set x {\"units\":Milliseconds \"delay\":42}"
    );
    assert_eq!(
        set_of(
            ValueSpec::TypeSlope,
            Some(Argument::TypeSlope(
                FilterType::Bessel,
                FilterSlope::new(48).unwrap()
            ))
        )
        .unwrap(),
        "Block1 set x {\"type\":Bessel \"slope\":48}"
    );
    assert_eq!(
        set_of(
            ValueSpec::FreqGain,
            Some(Argument::FreqGain(
                Decimal::parse("440").unwrap(),
                Decimal::parse("6").unwrap()
            ))
        )
        .unwrap(),
        "Block1 set x {\"frequency\":440 \"gain\":6}"
    );
    assert_eq!(
        set_of(
            ValueSpec::Date,
            Some(Argument::Date(
                DateTime::new(2025, 6, 1, 12, 56, 43).unwrap()
            ))
        )
        .unwrap(),
        "Block1 set x \"12:56:43:6:01:2025\""
    );
    assert_eq!(
        set_of(ValueSpec::Range { min: None, max: None }, Some(Argument::Flag(true))).unwrap_err(),
        SurfaceError::ValueKind
    );
    assert_eq!(
        set_of(ValueSpec::Nothing, Some(Argument::Flag(true))).unwrap_err(),
        SurfaceError::ValueKind
    );
    assert_eq!(
        set_of(ValueSpec::Delay, None).unwrap_err(),
        SurfaceError::ValueKind
    );
    assert_eq!(
        set_of(
            ValueSpec::CommandAndString,
            Some(Argument::Token("x".to_owned()))
        )
        .unwrap_err(),
        SurfaceError::NotOffered
    );
    assert_eq!(
        set_of(ValueSpec::VideoBandwidth, None).unwrap_err(),
        SurfaceError::NotOffered
    );
}

#[test]
fn subscriptions_carry_their_label_and_rate() {
    let level = level();
    let meter = CommandBuilder::new().block("AudioMeter1");
    assert_eq!(
        meter
            .subscribe(&level, vec![1], "MySubscription")
            .unwrap()
            .into_ttp(),
        "AudioMeter1 subscribe level 1 MySubscription"
    );
    assert_eq!(
        meter
            .subscribe_with_rate(&level, vec![1], "MySubscription", Duration::from_secs(2))
            .unwrap()
            .into_ttp(),
        "AudioMeter1 subscribe level 1 MySubscription 2000"
    );
    assert_eq!(
        meter
            .unsubscribe(&level, vec![1], "MySubscription")
            .unwrap()
            .into_ttp(),
        "AudioMeter1 unsubscribe level 1 MySubscription"
    );
}

#[test]
fn reserved_tags_address_the_device_services() {
    let serial = attribute("serialNumber", vec![Verb::Get], vec![], ValueSpec::Nothing);
    assert_eq!(
        CommandBuilder::new()
            .device()
            .get(&serial, vec![])
            .unwrap()
            .into_ttp(),
        "DEVICE get serialNumber"
    );
    assert_eq!(
        CommandBuilder::new()
            .session()
            .services()
            .get(&serial, vec![])
            .unwrap()
            .into_ttp(),
        "SESSION get serialNumber"
    );
}

#[test]
fn verbs_are_written_in_lower_case_but_for_three() {
    let written: Vec<&str> = [
        Verb::Get,
        Verb::Assign,
        Verb::Increment,
        Verb::Decrement,
        Verb::Toggle,
        Verb::Subscribe,
        Verb::Unsubscribe,
        Verb::Dial,
        Verb::SpeedDial,
        Verb::Redial,
        Verb::End,
        Verb::Flash,
        Verb::Send,
        Verb::Dtmf,
        Verb::Answer,
        Verb::Lconf,
        Verb::Resume,
        Verb::Hold,
        Verb::OffHook,
        Verb::OnHook,
    ]
    .iter()
    .map(|verb| verb.keyword())
    .collect();
    assert_eq!(
        written,
        vec![
            "get",
            "set",
            "increment",
            "decrement",
            "toggle",
            "subscribe",
            "unsubscribe",
            "dial",
            "speedDial",
            "redial",
            "end",
            "flash",
            "send",
            "dtmf",
            "answer",
            "lconf",
            "resume",
            "hold",
            "offHook",
            "onHook"
        ]
    );
}

#[test]
fn block_finds_its_attributes_by_name() {
    let block = Block {
        group: "Control".to_owned(),
        attributes: vec![
            level(),
            attribute("mute", vec![Verb::Get], vec![], ValueSpec::Nothing),
            attribute("level", vec![], vec![], ValueSpec::Nothing),
        ],
    };
    assert_eq!(block.attribute("mute").unwrap().commands, vec![Verb::Get]);
    assert_eq!(block.attribute("level").unwrap().commands.len(), 4);
    assert!(block.attribute("Level").is_none());
    assert!(block.attribute("").is_none());
}
