use tesira_text_protocol::catalog::{
    AttributeSpec, Block, BlockCommandBuilder, Catalog, IndexRole, ValueSpec, Verb,
};
use tesira_text_protocol::naming::{accessor_name, find_method, method_name, stem, Method};

fn by_the_rule(name: &str) -> String {
    name.trim()
        .chars()
        .map(|it| if it.is_whitespace() { '_' } else { it })
        .filter(|it| it.is_alphanumeric() || *it == '_')
        .flat_map(|it| it.to_lowercase())
        .collect::<String>()
}

fn attribute(name: &str, commands: Vec<Verb>, value: ValueSpec) -> AttributeSpec {
    AttributeSpec {
        name: name.to_owned(),
        description: String::new(),
        commands,
        indexes: vec![IndexRole::Channel],
        value,
    }
}

#[test]
fn stems_are_lower_case_words_joined_by_underscores() {
    assert_eq!(stem("level"), "level");
    assert_eq!(stem("crosspointLevel"), "crosspointlevel");
    assert_eq!(stem("  Peak Occurring! "), "peak_occurring");
    assert_eq!(stem("Audio Meter"), "audio_meter");
    assert_eq!(stem("VoIP Control/Status"), "voip_controlstatus");
    assert_eq!(stem("a\tb  c"), "a_b__c");
    assert_eq!(stem(""), "");
    assert_eq!(stem(" \t\n "), "");
    assert_eq!(stem("__X__"), "__x__");
    assert_eq!(stem("\u{c9}MILE \u{1c4}\u{130}"), "\u{e9}mile_\u{1c6}i\u{307}");
    for name in [
        "level",
        " Snake  Case ",
        "MiXeD 123 !@# \u{e9}\u{c9}\u{df}\u{1e9e}\u{130}\u{3a3}\u{4e2d}\u{2003}x",
        "\u{a0}nbsp\u{a0}",
        "tab\tsep",
        "Z",
        "@",
        "_ _",
    ] {
        assert_eq!(stem(name), by_the_rule(name), "{name:?}");
    }
}

#[test]
fn methods_are_named_by_verb_and_attribute() {
    assert_eq!(method_name(Verb::Get, "Hold Time", false).unwrap(), "hold_time");
    assert_eq!(
        method_name(Verb::Assign, "Hold Time", false).unwrap(),
        "set_hold_time"
    );
    assert_eq!(
        method_name(Verb::Subscribe, "level", false).unwrap(),
        "subscribe_level"
    );
    assert_eq!(
        method_name(Verb::Subscribe, "level", true).unwrap(),
        "subscribe_level_with_rate"
    );
    assert_eq!(
        method_name(Verb::Unsubscribe, "level", false).unwrap(),
        "unsubscribe_level"
    );
    assert_eq!(method_name(Verb::Get, "level", true), None);
    assert_eq!(method_name(Verb::Assign, "level", true), None);
    assert_eq!(method_name(Verb::Unsubscribe, "level", true), None);
    for reserved in [
        Verb::Increment,
        Verb::Decrement,
        Verb::Toggle,
        Verb::Dial,
        Verb::SpeedDial,
        Verb::Redial,
        Verb::End,
        Verb::Flash,
        Verb::Send,
        Verb::Dtmf,
        Verb::Answer,
        Verb::Lconf,
        Verb::Resume,
        Verb::Hold,
        Verb::OffHook,
        Verb::OnHook,
    ] {
        assert_eq!(method_name(reserved, "line", false), None);
        assert_eq!(method_name(reserved, "line", true), None);
    }
}

#[test]
fn families_are_reached_by_their_stem() {
    assert_eq!(accessor_name("Audio Meter"), "audio_meter");
    assert_eq!(accessor_name("Session Services"), "session");
    assert_eq!(accessor_name("Device Services"), "device");
    assert_eq!(accessor_name("session services"), "session_services");
    assert_eq!(
        BlockCommandBuilder::for_family("Session Services", "ignored").instance_tag(),
        "SESSION"
    );
    assert_eq!(
        BlockCommandBuilder::for_family("Device Services", "ignored").instance_tag(),
        "DEVICE"
    );
    assert_eq!(
        BlockCommandBuilder::for_family("Audio Meter", "AudioMeter1").instance_tag(),
        "AudioMeter1"
    );
}

#[test]
fn block_has_one_method_for_each_declared_verb() {
    let block = Block {
        group: "Meters".to_owned(),
        attributes: vec![
            attribute(
                "level",
                vec![Verb::Get, Verb::Subscribe, Verb::Unsubscribe],
                ValueSpec::Range { min: None, max: None },
            ),
            attribute("Hold Time", vec![Verb::Get, Verb::Assign], ValueSpec::Unbounded),
            attribute("dialString", vec![Verb::Assign, Verb::Dial], ValueSpec::CommandAndString),
            attribute("level", vec![Verb::Assign], ValueSpec::Unbounded),
        ],
    };
    let method = |attribute, verb, with_rate| {
        Some(Method {
            attribute,
            verb,
            with_rate,
        })
    };
    assert_eq!(block.method("level"), method(0, Verb::Get, false));
    assert_eq!(block.method("subscribe_level"), method(0, Verb::Subscribe, false));
    assert_eq!(
        block.method("subscribe_level_with_rate"),
        method(0, Verb::Subscribe, true)
    );
    assert_eq!(
        block.method("unsubscribe_level"),
        method(0, Verb::Unsubscribe, false)
    );
    assert_eq!(block.method("set_level"), method(3, Verb::Assign, false));
    assert_eq!(block.method("hold_time"), method(1, Verb::Get, false));
    assert_eq!(block.method("set_hold_time"), method(1, Verb::Assign, false));
    assert_eq!(block.method("subscribe_hold_time"), None);
    assert_eq!(block.method("set_dialstring"), None);
    assert_eq!(block.method("dial_dialstring"), None);
    assert_eq!(block.method("dialstring"), None);
    assert_eq!(block.method("Level"), None);
    assert_eq!(block.method(""), None);
    assert_eq!(
        find_method(&block.attributes[1], "set_hold_time"),
        Some((Verb::Assign, false))
    );
    assert_eq!(find_method(&block.attributes[1], "level"), None);
}

#[test]
fn catalog_finds_its_families_by_name() {
    let catalog = Catalog {
        families: vec![
            (
                "Level".to_owned(),
                Block {
                    group: "Control".to_owned(),
                    attributes: vec![],
                },
            ),
            (
                "Audio Meter".to_owned(),
                Block {
                    group: "Meters".to_owned(),
                    attributes: vec![attribute("level", vec![Verb::Get], ValueSpec::Nothing)],
                },
            ),
            (
                "Level".to_owned(),
                Block {
                    group: "Shadowed".to_owned(),
                    attributes: vec![],
                },
            ),
        ],
    };
    assert_eq!(catalog.family("Level").unwrap().group, "Control");
    assert_eq!(catalog.family("Audio Meter").unwrap().attributes.len(), 1);
    assert!(catalog.family("audio meter").is_none());
    assert!(catalog.family("").is_none());
}
