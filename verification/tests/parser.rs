use tesira_text_protocol::decimal::Decimal;
use tesira_text_protocol::proto::parser::{
    delimited_str, err_response, float_str, ok_response, parse_response, publish_token_response,
    response, ttp_entry, ttp_list_of_values, ttp_mapping, ttp_value,
};
use tesira_text_protocol::text::Text;
use tesira_text_protocol::proto::{
    ErrResponse, Error, OkResponse, PublishToken, Response, Value,
};

fn number(text: &str) -> Value {
    Value::Number(Decimal::parse(text).unwrap())
}

fn string(text: &str) -> Value {
    Value::String(text.to_owned())
}

fn constant(text: &str) -> Value {
    Value::Constant(text.to_owned())
}

fn entry(key: &str, value: Value) -> (String, Value) {
    (key.to_owned(), value)
}

fn as_f64(number: &Decimal) -> f64 {
    let mut text = String::new();
    if number.is_negative() {
        text.push('-');
    }
    text.push_str(number.whole_digits());
    if !number.fraction_digits().is_empty() {
        text.push('.');
        text.push_str(number.fraction_digits());
    }
    text.parse().unwrap()
}

#[test]
fn should_parse_float() {
    let (rest, value) = float_str("0").unwrap();
    assert_eq!((rest, as_f64(&value)), ("", 0.0_f64));
    let (rest, value) = float_str("-0").unwrap();
    assert_eq!((rest, as_f64(&value)), ("", 0.0_f64));
    let (rest, value) = float_str("-15").unwrap();
    assert_eq!((rest, as_f64(&value)), ("", -15.0_f64));
    let (rest, value) = float_str("0.00000000000").unwrap();
    assert_eq!((rest, as_f64(&value)), ("", 0.0_f64));
    let (rest, value) = float_str("5.2000000000").unwrap();
    assert_eq!((rest, as_f64(&value)), ("", 5.2_f64));
    let (rest, value) = float_str("12").unwrap();
    assert_eq!((rest, as_f64(&value)), ("", 12.0_f64));
    let (rest, value) = float_str("12.000").unwrap();
    assert_eq!((rest, as_f64(&value)), ("", 12.0_f64));
}

#[test]
fn should_parse_simple_ok_response() {
    assert_eq!(
        Response::parse_ttp("+OK").unwrap(),
        Response::Success(OkResponse::Bare)
    );
}

#[test]
fn should_parse_ok_response_with_value() {
    assert_eq!(
        Response::parse_ttp("+OK \"value\":0.000000").unwrap(),
        Response::Success(OkResponse::WithValue(number("0")))
    );
}

#[test]
fn should_parse_ok_response_with_empty_string_value() {
    assert_eq!(
        Response::parse_ttp("+OK \"value\":\"\"").unwrap(),
        Response::Success(OkResponse::WithValue(string("")))
    );
}

#[test]
fn should_parse_ok_response_with_array_value() {
    let expected_value = Value::Array(vec![
        number("2"),
        string("TesiraForte05953601"),
        string("0.0.0.0"),
        Value::Boolean(true),
        Value::Boolean(true),
        Value::Boolean(false),
        Value::Boolean(false),
        Value::Boolean(false),
        Value::Boolean(false),
    ]);

    assert_eq!(Response::parse_ttp("+OK \"value\":[2 \"TesiraForte05953601\" \"0.0.0.0\" true true false false false false]").unwrap(), Response::Success(OkResponse::WithValue(expected_value)));
}

#[test]
fn should_parse_ok_response_with_map_value() {
    let expected_value = Value::Mapping(vec![
        entry("schemaVersion", number("2")),
        entry("hostname", string("TesiraForte05953601")),
        entry("defaultGatewayStatus", string("0.0.0.0")),
        entry("mDNSEnabled", Value::Boolean(true)),
        entry("telnetDisabled", Value::Boolean(true)),
        entry("sshDisabled", Value::Boolean(false)),
        entry("rstpEnabled", Value::Boolean(false)),
        entry("httpsEnabled", Value::Boolean(false)),
        entry("igmpEnabled", Value::Boolean(false)),
    ]);

    assert_eq!(Response::parse_ttp("+OK \"value\":{\"schemaVersion\":2 \"hostname\":\"TesiraForte05953601\" \"defaultGatewayStatus\":\"0.0.0.0\" \"mDNSEnabled\":true \"telnetDisabled\":true \"sshDisabled\":false \"rstpEnabled\":false \"httpsEnabled\":false \"igmpEnabled\":false}").unwrap(), Response::Success(OkResponse::WithValue(expected_value)));
}

#[test]
fn should_parse_ok_response_with_constant_value() {
    assert_eq!(
        Response::parse_ttp("+OK \"value\":LINK_1_GB").unwrap(),
        Response::Success(OkResponse::WithValue(constant("LINK_1_GB")))
    );
}

#[test]
fn should_parse_ok_response_with_nested_value() {
    let expected_value = Value::Mapping(vec![
        entry("schemaVersion", number("2")),
        entry("hostname", string("TesiraForte05953601")),
        entry("defaultGatewayStatus", string("0.0.0.0")),
        entry(
            "networkInterfaceStatusWithName",
            Value::Array(vec![Value::Mapping(vec![
                entry("interfaceId", string("control")),
                entry(
                    "networkInterfaceStatus",
                    Value::Mapping(vec![
                        entry("macAddress", string("78:45:01:3d:86:92")),
                        entry("linkStatus", constant("LINK_1_GB")),
                        entry("addressSource", constant("DHCP")),
                        entry("ip", string("10.0.151.235")),
                        entry("netmask", string("255.255.252.0")),
                        entry(
                            "dhcpLeaseObtainedDate",
                            string("Wed Jun 26 16:45:27 UTC 2024"),
                        ),
                        entry(
                            "dhcpLeaseExpiresDate",
                            string("Thu Jun 27 16:45:27 UTC 2024"),
                        ),
                        entry("gateway", string("10.0.148.1")),
                    ]),
                ),
            ])]),
        ),
        entry(
            "dnsStatus",
            Value::Mapping(vec![
                entry("primaryDNSServer", string("10.0.148.1")),
                entry("secondaryDNSServer", string("")),
                entry("domainName", string("")),
            ]),
        ),
        entry("mDNSEnabled", Value::Boolean(true)),
        entry("telnetDisabled", Value::Boolean(true)),
        entry("sshDisabled", Value::Boolean(false)),
        entry("networkPortMode", constant("PORT_MODE_SEPARATE")),
        entry("rstpEnabled", Value::Boolean(false)),
        entry("httpsEnabled", Value::Boolean(false)),
        entry("igmpEnabled", Value::Boolean(false)),
        entry(
            "switchPortMode",
            constant("SWITCH_PORT_MODE_CONTROL_AND_MEDIA"),
        ),
    ]);

    assert_eq!(Response::parse_ttp("+OK \"value\":{\"schemaVersion\":2 \"hostname\":\"TesiraForte05953601\" \"defaultGatewayStatus\":\"0.0.0.0\" \"networkInterfaceStatusWithName\":[{\"interfaceId\":\"control\" \"networkInterfaceStatus\":{\"macAddress\":\"78:45:01:3d:86:92\" \"linkStatus\":LINK_1_GB \"addressSource\":DHCP \"ip\":\"10.0.151.235\" \"netmask\":\"255.255.252.0\" \"dhcpLeaseObtainedDate\":\"Wed Jun 26 16:45:27 UTC 2024\" \"dhcpLeaseExpiresDate\":\"Thu Jun 27 16:45:27 UTC 2024\" \"gateway\":\"10.0.148.1\"}}] \"dnsStatus\":{\"primaryDNSServer\":\"10.0.148.1\" \"secondaryDNSServer\":\"\" \"domainName\":\"\"} \"mDNSEnabled\":true \"telnetDisabled\":true \"sshDisabled\":false \"networkPortMode\":PORT_MODE_SEPARATE \"rstpEnabled\":false \"httpsEnabled\":false \"igmpEnabled\":false \"switchPortMode\":SWITCH_PORT_MODE_CONTROL_AND_MEDIA}").unwrap(), Response::Success(OkResponse::WithValue(expected_value)));
}

#[test]
fn should_parse_ok_response_with_list() {
    assert_eq!(Response::parse_ttp("+OK \"list\":[\"AecInput1\" \"AudioMeter2\" \"AudioMeter4\" \"DEVICE\" \"DanteInput1\" \"DanteOutput1\" \"Level1\" \"Level2\" \"Level3\" \"Mixer1\" \"NoiseGenerator1\" \"Output1\" \"Router1\" \"ToneGenerator1\" \"ToneGenerator2\" \"USBInput1\" \"USBOutput1\"]").unwrap(), Response::Success(OkResponse::WithList(vec![
                string("AecInput1"),
                string("AudioMeter2"),
                string("AudioMeter4"),
                string("DEVICE"),
                string("DanteInput1"),
                string("DanteOutput1"),
                string("Level1"),
                string("Level2"),
                string("Level3"),
                string("Mixer1"),
                string("NoiseGenerator1"),
                string("Output1"),
                string("Router1"),
                string("ToneGenerator1"),
                string("ToneGenerator2"),
                string("USBInput1"),
                string("USBOutput1")
            ])));
}

#[test]
fn should_parse_publish_token() {
    assert_eq!(
        Response::parse_ttp("! \"publishToken\":\"MyLevel4CH1\" \"value\":6.000000").unwrap(),
        Response::PublishToken(PublishToken {
            label: "MyLevel4CH1".to_owned(),
            value: number("6")
        })
    );
    assert_eq!(Response::parse_ttp("! \"publishToken\":\"MyLevel4ALL\" \"value\":[5.200000 3.000000 -10.000000 -60.000000]").unwrap(), Response::PublishToken(PublishToken {
        label: "MyLevel4ALL".to_owned(),
        value: Value::Array(vec![
            number("5.2"),
            number("3"),
            number("-10"),
            number("-60")
        ])
    }));
}

#[test]
fn should_parse_err() {
    assert_eq!(
        Response::parse_ttp(
            "-ERR address not found: {\"deviceId\":0 \"classCode\":0 \"instanceNum\":0}"
        )
        .unwrap(),
        Response::Failure(ErrResponse {
            message: "address not found: {\"deviceId\":0 \"classCode\":0 \"instanceNum\":0}"
                .to_owned()
        })
    );
    assert_eq!(
        Response::parse_ttp(
            "-ERR address not found: {\"deviceId\":0 \"classCode\":0 \"instanceNum\":0}\nAAAAA"
        )
        .unwrap(),
        Response::Failure(ErrResponse {
            message: "address not found: {\"deviceId\":0 \"classCode\":0 \"instanceNum\":0}"
                .to_owned()
        })
    );
    assert_eq!(
        Response::parse_ttp("-ERR").unwrap(),
        Response::Failure(ErrResponse {
            message: "".to_owned()
        })
    );
}

#[test]
fn parse_error_holds_the_rest_of_the_input() {
    assert_eq!(Response::parse_ttp("hello"), Err(Error::ParseError("hello")));
    assert_eq!(
        Response::parse_ttp("! \"publishToken\":\"X\" \"value\":@"),
        Err(Error::ParseError("@"))
    );
    assert_eq!(
        Response::parse_ttp("! \"publishToken\":\"X\" value"),
        Err(Error::ParseError("value"))
    );
    assert_eq!(
        Response::parse_ttp("! \"publishToken\":\"X"),
        Err(Error::ParseError("X"))
    );
}

#[test]
fn input_that_stops_short_is_an_unexpected_end() {
    assert_eq!(Response::parse_ttp(""), Err(Error::UnexpectedEnd));
    assert_eq!(
        Response::parse_ttp("! \"publishToken\":"),
        Err(Error::UnexpectedEnd)
    );
    assert_eq!(
        Response::parse_ttp("! \"publishToken\":\"X\""),
        Err(Error::UnexpectedEnd)
    );
    assert_eq!(
        Response::parse_ttp("! \"publishToken\":\"X\" \"value\":"),
        Err(Error::UnexpectedEnd)
    );
}

#[test]
fn error_message_stops_at_the_line_feed() {
    assert_eq!(
        parse_response(
            "-ERR address not found: {\"deviceId\":0 \"classCode\":0 \"instanceNum\":0}\nGARBAGE"
        ),
        Ok((
            "\nGARBAGE",
            Response::Failure(ErrResponse {
                message: "address not found: {\"deviceId\":0 \"classCode\":0 \"instanceNum\":0}"
                    .to_owned()
            })
        ))
    );
    assert_eq!(
        parse_response("-ERR    spaced out  \r\n"),
        Ok((
            "\n",
            Response::Failure(ErrResponse {
                message: "spaced out  \r".to_owned()
            })
        ))
    );
    assert_eq!(
        parse_response("-ERRoneous"),
        Ok((
            "oneous",
            Response::Failure(ErrResponse {
                message: "".to_owned()
            })
        ))
    );
    assert_eq!(
        parse_response("-ERR \n"),
        Ok((
            "\n",
            Response::Failure(ErrResponse {
                message: "".to_owned()
            })
        ))
    );
}

#[test]
fn publish_token_with_a_list_of_numbers() {
    assert_eq!(
        Response::parse_ttp("! \"publishToken\":\"X\" \"value\":[5.2 3.0 -10 -60]").unwrap(),
        Response::PublishToken(PublishToken {
            label: "X".to_owned(),
            value: Value::Array(vec![
                number("5.2"),
                number("3.0"),
                number("-10"),
                number("-60")
            ])
        })
    );
    assert_eq!(
        Response::parse_ttp("! \"publishToken\":\"\"   \"value\":\"\"\n").unwrap(),
        Response::PublishToken(PublishToken {
            label: "".to_owned(),
            value: string("")
        })
    );
}

#[test]
fn positive_response_takes_what_it_can_read() {
    assert_eq!(
        parse_response("+OK\r\n"),
        Ok(("\r\n", Response::Success(OkResponse::Bare)))
    );
    assert_eq!(
        parse_response("+OK \"value\":@"),
        Ok((" \"value\":@", Response::Success(OkResponse::Bare)))
    );
    assert_eq!(
        parse_response("+OK \"list\":12"),
        Ok((" \"list\":12", Response::Success(OkResponse::Bare)))
    );
    assert_eq!(
        parse_response("+OK\"value\":1"),
        Ok(("\"value\":1", Response::Success(OkResponse::Bare)))
    );
    assert_eq!(
        parse_response("+OK   \"value\":true1"),
        Ok((
            "",
            Response::Success(OkResponse::WithValue(constant("true1")))
        ))
    );
    assert_eq!(
        parse_response("+OK \"list\":[] rest"),
        Ok((" rest", Response::Success(OkResponse::WithList(vec![]))))
    );
    assert_eq!(
        parse_response("+OK \"value\":[1 2 ]"),
        Ok((
            " \"value\":[1 2 ]",
            Response::Success(OkResponse::Bare)
        ))
    );
    assert_eq!(
        parse_response("+OK \"value\":12.x"),
        Ok((" \"value\":12.x", Response::Success(OkResponse::Bare)))
    );
    assert_eq!(
        parse_response("+OK \"value\":12 x"),
        Ok((
            " x",
            Response::Success(OkResponse::WithValue(number("12")))
        ))
    );
}

#[test]
fn readers_say_where_they_stopped() {
    let text = Text::new("x \"a b\" [1  \"\" {}] {\"k\":-0.50 \"\":[]}!");
    assert_eq!(delimited_str(&text, 2), Some(("a b".to_owned(), 7)));
    assert_eq!(delimited_str(&text, 0), None);
    assert_eq!(delimited_str(&text, 6), Some((" [1  ".to_owned(), 13)));
    assert_eq!(delimited_str(&text, 30), Some(("".to_owned(), 32)));
    assert_eq!(delimited_str(&text, 31), None);
    assert_eq!(delimited_str(&text, 37), None);
    assert_eq!(
        ttp_list_of_values(&text, 8),
        Some((vec![number("1"), string(""), Value::Mapping(vec![])], 18))
    );
    assert_eq!(ttp_list_of_values(&text, 9), None);
    assert_eq!(
        ttp_mapping(&text, 19),
        Some((
            vec![entry("k", number("-0.5")), entry("", Value::Array(vec![]))],
            36
        ))
    );
    assert_eq!(ttp_mapping(&text, 15), Some((vec![], 17)));
    assert_eq!(ttp_entry(&text, 20), Some((entry("k", number("-0.5")), 29)));
    assert_eq!(ttp_entry(&text, 21), None);
    assert_eq!(ttp_value(&text, 0), Some((constant("x"), 1)));
    assert_eq!(ttp_value(&text, 1), None);
    assert_eq!(ttp_value(&text, 36), None);
    assert_eq!(ttp_value(&text, 37), None);
    let text = Text::new("{\"a\":1,\"b\":2}");
    assert_eq!(ttp_value(&text, 0), None);
    let text = Text::new("[1\t2]");
    assert_eq!(ttp_value(&text, 0), None);
    let text = Text::new("{\"a\" :1}");
    assert_eq!(ttp_value(&text, 0), None);
    let text = Text::new("+OK \"value\":1");
    assert_eq!(err_response(&text), None);
    assert_eq!(publish_token_response(&text), Err(0));
    assert_eq!(
        ok_response(&text),
        Some((OkResponse::WithValue(number("1")), 13))
    );
    assert_eq!(
        response(&text),
        Ok((Response::Success(OkResponse::WithValue(number("1"))), 13))
    );
    let text = Text::new("! \"publishToken\":\"X\"  \"value\" :1");
    assert_eq!(ok_response(&text), None);
    assert_eq!(publish_token_response(&text), Err(22));
    assert_eq!(response(&text), Err(22));
}

fn token(text: &str) -> Option<(Value, usize)> {
    ttp_value(&Text::new(text), 0)
}

#[test]
fn tokens_are_read_whole() {
    assert_eq!(token("10GB"), Some((constant("10GB"), 4)));
    assert_eq!(token("true_x"), Some((constant("true_x"), 6)));
    assert_eq!(token("truest"), Some((constant("truest"), 6)));
    assert_eq!(token("falsehood"), Some((constant("falsehood"), 9)));
    assert_eq!(token("1st"), Some((constant("1st"), 3)));
    assert_eq!(token("007_"), Some((constant("007_"), 4)));
    assert_eq!(token("_"), Some((constant("_"), 1)));
    assert_eq!(token("tru"), Some((constant("tru"), 3)));
    assert_eq!(token("1e3"), Some((constant("1e3"), 3)));
    assert_eq!(token("true"), Some((Value::Boolean(true), 4)));
    assert_eq!(token("false"), Some((Value::Boolean(false), 5)));
    assert_eq!(token("007"), Some((number("7"), 3)));
    assert_eq!(token("-15"), Some((number("-15"), 3)));
    assert_eq!(token("5.200"), Some((number("5.2"), 5)));
    assert_eq!(token("\"10GB\""), Some((string("10GB"), 6)));
    for no_value in [
        "5.2abc", "5.2.3", "12.", "-5abc", "-", "-x", "1e-3", "abc-def", "a.b", "true.x",
        "true\n", "1\n", "1\t", "abc,", "10GB\"", "", ".5", "+1", "@",
    ] {
        assert_eq!(token(no_value), None, "{no_value:?}");
    }
    for (text, value, end) in [
        ("10GB ", constant("10GB"), 4),
        ("true]", Value::Boolean(true), 4),
        ("1}", number("1"), 1),
        ("true_x x", constant("true_x"), 6),
    ] {
        assert_eq!(token(text), Some((value, end)), "{text:?}");
    }
    assert_eq!(
        Response::parse_ttp("+OK \"value\":10GB").unwrap(),
        Response::Success(OkResponse::WithValue(constant("10GB")))
    );
    assert_eq!(
        Response::parse_ttp("+OK \"value\":true_x").unwrap(),
        Response::Success(OkResponse::WithValue(constant("true_x")))
    );
    assert_eq!(
        Response::parse_ttp("! \"publishToken\":\"X\" \"value\":[10GB true_x 10 true]").unwrap(),
        Response::PublishToken(PublishToken {
            label: "X".to_owned(),
            value: Value::Array(vec![
                constant("10GB"),
                constant("true_x"),
                number("10"),
                Value::Boolean(true)
            ])
        })
    );
    assert_eq!(
        Response::parse_ttp("! \"publishToken\":\"X\" \"value\":5.2abc"),
        Err(Error::ParseError("5.2abc"))
    );
}
