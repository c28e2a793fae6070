use std::time::Duration;

use tesira_text_protocol::builder::{frequency_gain_token, DelayValue};
use tesira_text_protocol::decimal::Decimal;
use tesira_text_protocol::proto::parser::{parse_response, ttp_value};
use tesira_text_protocol::proto::{IntoTTP, OkResponse, Response, Value};
use tesira_text_protocol::text::Text;

fn number(text: &str) -> Value {
    Value::Number(Decimal::parse(text).unwrap())
}

fn string(text: &str) -> Value {
    Value::String(text.to_owned())
}

fn constant(text: &str) -> Value {
    Value::Constant(text.to_owned())
}

fn read_back(value: Value, written: &str) {
    let expected = {
        let text = Text::new(written);
        let (read, end) = ttp_value(&text, 0).unwrap();
        assert_eq!(end, written.chars().count());
        read
    };
    assert_eq!(expected, value);
    assert_eq!(value.into_ttp(), written);
    let reply = format!("+OK \"value\":{written}");
    assert_eq!(
        parse_response(&reply),
        Ok(("", Response::Success(OkResponse::WithValue(expected))))
    );
}

#[test]
fn scalars_read_back_as_written() {
    read_back(number("0"), "0");
    read_back(number("-0"), "0");
    read_back(number("-15"), "-15");
    read_back(number("5.2"), "5.2");
    read_back(number("5.200000"), "5.2");
    read_back(number("-0.000001"), "-0.000001");
    read_back(
        number("123456789012345678901234567890.000000000000000000001"),
        "123456789012345678901234567890.000000000000000000001",
    );
    read_back(string(""), "\"\"");
    read_back(string("abc def"), "\"abc def\"");
    read_back(string("{[ ]} true 12"), "\"{[ ]} true 12\"");
    read_back(constant("LINK_1_GB"), "LINK_1_GB");
    read_back(constant("_"), "_");
    read_back(constant("tru"), "tru");
    read_back(constant("10GB"), "10GB");
    read_back(constant("1st"), "1st");
    read_back(constant("true_x"), "true_x");
    read_back(constant("falsehood"), "falsehood");
    read_back(constant("0x1F"), "0x1F");
    read_back(Value::Boolean(true), "true");
    read_back(Value::Boolean(false), "false");
}

#[test]
fn collections_read_back_as_written() {
    read_back(Value::Array(vec![]), "[]");
    read_back(Value::Mapping(vec![]), "{}");
    read_back(
        Value::Array(vec![number("5.2"), number("3"), number("-10"), number("-60")]),
        "[5.2 3 -10 -60]",
    );
    read_back(
        Value::Array(vec![Value::Array(vec![]), Value::Mapping(vec![]), string("")]),
        "[[] {} \"\"]",
    );
    read_back(
        Value::Mapping(vec![
            ("schemaVersion".to_owned(), number("2")),
            ("".to_owned(), constant("DHCP")),
            (
                "nested".to_owned(),
                Value::Array(vec![Value::Mapping(vec![(
                    "addressSource".to_owned(),
                    constant("DHCP"),
                )])]),
            ),
            ("mDNSEnabled".to_owned(), Value::Boolean(true)),
        ]),
        "{\"schemaVersion\":2 \"\":DHCP \"nested\":[{\"addressSource\":DHCP}] \"mDNSEnabled\":true}",
    );
}

#[test]
fn values_that_the_grammar_cannot_express_do_not_read_back() {
    let text = Text::new("true");
    assert_eq!(ttp_value(&text, 0), Some((Value::Boolean(true), 4)));
    assert_eq!(constant("true").into_ttp(), "true");
    let text = Text::new("12");
    assert_eq!(ttp_value(&text, 0), Some((number("12"), 2)));
    assert_eq!(constant("12").into_ttp(), "12");
    assert_eq!(string("a\"b").into_ttp(), "\"a\"b\"");
    let text = Text::new("\"a\"b\"");
    assert_eq!(ttp_value(&text, 0), Some((string("a"), 3)));
    assert_eq!(constant("two words").into_ttp(), "two words");
    let text = Text::new("two words");
    assert_eq!(ttp_value(&text, 0), Some((constant("two"), 3)));
}

#[test]
fn structured_tokens_follow_the_grammar_of_mappings() {
    let token = DelayValue::Milliseconds(Duration::from_millis(42)).into_ttp();
    let text = Text::new(&token);
    assert_eq!(
        ttp_value(&text, 0),
        Some((
            Value::Mapping(vec![
                ("units".to_owned(), constant("Milliseconds")),
                ("delay".to_owned(), number("42")),
            ]),
            text.len()
        ))
    );
    let token = frequency_gain_token(
        &Decimal::parse("1000").unwrap(),
        &Decimal::parse("-3.5").unwrap(),
    );
    let text = Text::new(&token);
    assert_eq!(
        ttp_value(&text, 0),
        Some((
            Value::Mapping(vec![
                ("gain".to_owned(), number("-3.5")),
                ("frequency".to_owned(), number("1000")),
            ]),
            text.len()
        ))
    );
}
