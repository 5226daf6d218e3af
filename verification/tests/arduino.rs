use commcomm::arduino::protocol::{
    decode_reply, device_info_from, done_from, event_from, push_byte, sensor_values_from, verify,
    Request,
};
use commcomm::arduino::{DeviceInfo, Event, Port, ResponseCode, SensorConfig};
use commcomm::error::{Error, Failure};
use commcomm::json::{parse, render, try_render, Json};

#[test]
fn new_configuration_has_the_widest_thresholds() {
    let config = SensorConfig::new(10, 1000);
    assert_eq!(config.range(), (10, 1000));
    assert_eq!(config.thresholds(), (0, 255));
}

#[test]
fn thresholds_are_replaced() {
    let mut config = SensorConfig::new(0, 1023);
    config.set_thresholds(100, 150);
    assert_eq!(config.thresholds(), (100, 150));
    assert_eq!(config.range(), (0, 1023));
}

#[test]
fn checked_configuration_refuses_what_is_out_of_order() {
    assert_eq!(SensorConfig::checked(0, 1023, 100, 150).map(|c| c.range()), Some((0, 1023)));
    assert_eq!(SensorConfig::checked(0, 1023, 100, 150).map(|c| c.thresholds()), Some((100, 150)));
    assert_eq!(SensorConfig::checked(5, 5, 100, 150), None);
    assert_eq!(SensorConfig::checked(6, 5, 100, 150), None);
    assert_eq!(SensorConfig::checked(0, 1024, 100, 150), None);
    assert_eq!(SensorConfig::checked(0, 1023, 150, 150), None);
    assert_eq!(SensorConfig::checked(0, 1023, 151, 150), None);
}

#[test]
fn response_codes_go_by_their_ordinals() {
    assert_eq!(ResponseCode::from_code(0), Some(ResponseCode::JsonParse));
    assert_eq!(ResponseCode::from_code(1), Some(ResponseCode::JsonAlloc));
    assert_eq!(ResponseCode::from_code(2), Some(ResponseCode::RequestTooLong));
    assert_eq!(ResponseCode::from_code(3), Some(ResponseCode::UnknownCommand));
    assert_eq!(ResponseCode::from_code(4), Some(ResponseCode::BufferTooSmall));
    assert_eq!(ResponseCode::from_code(5), Some(ResponseCode::InvalidParam));
    assert_eq!(ResponseCode::from_code(6), None);
    assert_eq!(ResponseCode::from_code(u64::MAX), None);
}

#[test]
fn ports_are_compared_by_name() {
    assert_eq!(Port::new("COM3"), Port::new("COM3"));
    assert_ne!(Port::new("COM3"), Port::new("COM4"));
    assert_eq!(Port::new("COM3").name(), "COM3");
    assert!(Port::new("COM3") < Port::new("COM4"));
}

#[test]
fn requests_are_one_line_of_json() {
    assert_eq!(Request::DeviceInfo.to_line(), "{\"command\":\"device_info\"}\n");
    assert_eq!(Request::PollEvent.to_line(), "{\"command\":\"poll_event\"}\n");
    assert_eq!(
        Request::SensorValues { raw: true }.to_line(),
        "{\"command\":\"sensor_values\",\"raw\":true}\n"
    );
    assert_eq!(
        Request::UnsetSensor { id: 7 }.to_line(),
        "{\"command\":\"unset_sensor\",\"id\":7}\n"
    );
}

#[test]
fn set_sensor_request_names_every_setting() {
    let mut config = SensorConfig::new(3, 1020);
    config.set_thresholds(100, 150);
    let request = Request::SetSensor { id: 2, config };
    assert_eq!(request.command(), "set_sensor");
    assert_eq!(
        request.to_line(),
        "{\"command\":\"set_sensor\",\"high\":150,\"id\":2,\"low\":100,\"max\":1020,\"min\":3}\n"
    );
    assert_eq!(
        request.to_json(),
        Json::Object(vec![
            ("id".to_string(), Json::Unsigned(2)),
            ("min".to_string(), Json::Unsigned(3)),
            ("max".to_string(), Json::Unsigned(1020)),
            ("low".to_string(), Json::Unsigned(100)),
            ("high".to_string(), Json::Unsigned(150)),
            ("command".to_string(), Json::Text("set_sensor".to_string())),
        ])
    );
}

#[test]
fn documents_are_read_from_text() {
    assert_eq!(parse("null"), Some(Json::Null));
    assert_eq!(parse("true"), Some(Json::Bool(true)));
    assert_eq!(parse("17"), Some(Json::Unsigned(17)));
    assert_eq!(parse("18446744073709551615"), Some(Json::Unsigned(u64::MAX)));
    assert_eq!(parse("-4"), Some(Json::Negative(-4)));
    assert_eq!(parse("1.5"), Some(Json::Real));
    assert_eq!(parse("\"a\\nb\""), Some(Json::Text("a\nb".to_string())));
    assert_eq!(
        parse("[1, null, [\"x\"]]"),
        Some(Json::List(vec![
            Json::Unsigned(1),
            Json::Null,
            Json::List(vec![Json::Text("x".to_string())])
        ]))
    );
    assert_eq!(
        parse("{\"b\": {\"c\": false}, \"a\": 1}"),
        Some(Json::Object(vec![
            ("a".to_string(), Json::Unsigned(1)),
            (
                "b".to_string(),
                Json::Object(vec![("c".to_string(), Json::Bool(false))])
            ),
        ]))
    );
    assert_eq!(parse("{\"a\": 1"), None);
    assert_eq!(parse(""), None);
    assert_eq!(parse("flexed"), None);
}

#[test]
fn documents_are_written_as_text() {
    let document = Json::Object(vec![
        ("list".to_string(), Json::List(vec![Json::Negative(-3), Json::Null, Json::Bool(false)])),
        ("text".to_string(), Json::Text("a\"b".to_string())),
    ]);
    let text = render(&document);
    assert_eq!(text, "{\"list\":[-3,null,false],\"text\":\"a\\\"b\"}");
    assert_eq!(parse(&text), Some(document));
}

#[test]
fn field_is_the_first_with_its_name() {
    let document = Json::Object(vec![
        ("a".to_string(), Json::Unsigned(1)),
        ("b".to_string(), Json::Unsigned(2)),
        ("a".to_string(), Json::Unsigned(3)),
    ]);
    assert_eq!(document.field("a"), Some(&Json::Unsigned(1)));
    assert_eq!(document.field("b"), Some(&Json::Unsigned(2)));
    assert_eq!(document.field("c"), None);
    assert_eq!(Json::Null.field("a"), None);
    assert_eq!(Json::Unsigned(5).integer(), Some(5));
    assert_eq!(Json::Negative(-5).integer(), Some(-5));
    assert_eq!(Json::Real.integer(), None);
    assert_eq!(Json::Text("x".to_string()).text(), Some(&"x".to_string()));
    assert_eq!(Json::Null.text(), None);
}

#[test]
fn response_line_leaves_out_carriage_returns() {
    let mut line = String::new();
    let mut complete = Vec::new();
    for byte in b"nu\rll\r\nrest" {
        if push_byte(&mut line, *byte) {
            complete.push(line.clone());
            line.clear();
        }
    }
    assert_eq!(complete, vec!["null".to_string()]);
    assert_eq!(line, "rest");
}

#[test]
fn response_bytes_stand_for_their_characters() {
    let mut line = String::new();
    assert!(!push_byte(&mut line, 0xe9));
    assert!(!push_byte(&mut line, b'a'));
    assert_eq!(line, "\u{e9}a");
}

#[test]
fn bare_number_is_an_error_ordinal() {
    assert_eq!(
        decode_reply("poll_event", "3"),
        Err(Error::ArduinoResponse("poll_event".to_string(), ResponseCode::UnknownCommand))
    );
    assert_eq!(
        decode_reply("set_sensor", "5"),
        Err(Error::ArduinoResponse("set_sensor".to_string(), ResponseCode::InvalidParam))
    );
    assert_eq!(
        decode_reply("set_sensor", "0"),
        Err(Error::ArduinoResponse("set_sensor".to_string(), ResponseCode::JsonParse))
    );
}

#[test]
fn ordinal_without_a_code_is_a_protocol_error() {
    assert_eq!(decode_reply("poll_event", "6"), Err(Error::UnknownCode(6)));
    assert_eq!(decode_reply("poll_event", "-1"), Err(Error::UnknownCode(-1)));
    assert_eq!(
        decode_reply("poll_event", "18446744073709551615"),
        Err(Error::UnknownCode(u64::MAX as i128))
    );
}

#[test]
fn response_that_is_not_json_is_malformed() {
    assert_eq!(decode_reply("poll_event", "{\"flexed\""), Err(Error::MalformedResponse));
    assert_eq!(decode_reply("poll_event", ""), Err(Error::MalformedResponse));
}

#[test]
fn other_responses_are_handed_on() {
    assert_eq!(decode_reply("poll_event", "null"), Ok(Json::Null));
    assert_eq!(decode_reply("poll_event", "1.5"), Ok(Json::Real));
    assert_eq!(
        decode_reply("poll_event", "{\"flexed\":3}"),
        Ok(Json::Object(vec![("flexed".to_string(), Json::Unsigned(3))]))
    );
}

#[test]
fn events_are_read_from_their_answer() {
    assert_eq!(event_from(&parse("null").unwrap()), Ok(None));
    assert_eq!(event_from(&parse("{\"flexed\":3}").unwrap()), Ok(Some(Event::SensorFlexed(3))));
    assert_eq!(
        event_from(&parse("{\"extended\":255}").unwrap()),
        Ok(Some(Event::SensorExtended(255)))
    );
}

#[test]
fn answers_that_are_no_event_are_refused() {
    for text in [
        "{\"extended\":256}",
        "{\"flexed\":-1}",
        "{\"flexed\":1.5}",
        "{\"bent\":3}",
        "{}",
        "{\"flexed\":3,\"extended\":4}",
        "\"flexed\"",
        "[3]",
        "true",
    ] {
        assert_eq!(event_from(&parse(text).unwrap()), Err(Error::UnexpectedResponse), "{}", text);
    }
}

#[test]
fn device_info_is_read_from_its_answer() {
    assert_eq!(device_info_from(&parse("null").unwrap()), Ok(None));
    let answer = parse("{\"name\":\"glove\",\"version\":\"0.1.0\",\"timestamp\":1480000000}").unwrap();
    assert_eq!(device_info_from(&answer), Ok(Some(DeviceInfo::new("glove", "0.1.0", 1480000000))));
    let info = device_info_from(&answer).unwrap().unwrap();
    assert_eq!(info.name(), "glove");
    assert_eq!(info.version(), "0.1.0");
    assert_eq!(info.timestamp(), 1480000000);
    let answer = parse("{\"timestamp\":-5,\"extra\":[],\"version\":\"v\",\"name\":\"n\"}").unwrap();
    assert_eq!(device_info_from(&answer), Ok(Some(DeviceInfo::new("n", "v", -5))));
}

#[test]
fn time_stamp_beyond_the_largest_wraps_round() {
    let answer = parse("{\"name\":\"n\",\"version\":\"v\",\"timestamp\":18446744073709551615}").unwrap();
    assert_eq!(device_info_from(&answer), Ok(Some(DeviceInfo::new("n", "v", -1))));
    let answer = parse("{\"name\":\"n\",\"version\":\"v\",\"timestamp\":9223372036854775808}").unwrap();
    assert_eq!(device_info_from(&answer), Ok(Some(DeviceInfo::new("n", "v", i64::MIN))));
    let answer = parse("{\"name\":\"n\",\"version\":\"v\",\"timestamp\":9223372036854775807}").unwrap();
    assert_eq!(device_info_from(&answer), Ok(Some(DeviceInfo::new("n", "v", i64::MAX))));
}

#[test]
fn answers_that_are_no_device_info_are_refused() {
    for text in [
        "{\"name\":\"n\",\"version\":\"v\"}",
        "{\"name\":\"n\",\"timestamp\":1}",
        "{\"version\":\"v\",\"timestamp\":1}",
        "{\"name\":1,\"version\":\"v\",\"timestamp\":1}",
        "{\"name\":\"n\",\"version\":\"v\",\"timestamp\":\"1\"}",
        "{\"name\":\"n\",\"version\":\"v\",\"timestamp\":1.5}",
        "[\"n\",\"v\",1]",
        "\"n\"",
        "false",
    ] {
        assert_eq!(
            device_info_from(&parse(text).unwrap()),
            Err(Error::UnexpectedResponse),
            "{}",
            text
        );
    }
}

#[test]
fn sensor_values_are_read_from_their_answer() {
    assert_eq!(sensor_values_from(&parse("[]").unwrap()), Ok(vec![]));
    assert_eq!(
        sensor_values_from(&parse("[0,null,1023,65535]").unwrap()),
        Ok(vec![Some(0), None, Some(1023), Some(65535)])
    );
    for text in ["[65536]", "[-1]", "[1.5]", "[\"1\"]", "[[1]]", "null", "{}", "1.5"] {
        assert_eq!(
            sensor_values_from(&parse(text).unwrap()),
            Err(Error::UnexpectedResponse),
            "{}",
            text
        );
    }
}

#[test]
fn commands_without_an_answer_are_answered_with_null() {
    assert_eq!(done_from(&Json::Null), Ok(()));
    assert_eq!(done_from(&Json::Bool(true)), Err(Error::UnexpectedResponse));
    assert_eq!(done_from(&Json::List(vec![])), Err(Error::UnexpectedResponse));
}

#[test]
fn device_that_matches_is_verified() {
    let expected = DeviceInfo::new("glove", "0.1.0", 1480000000);
    let same = DeviceInfo::new("glove", "0.1.0", 1480000000);
    assert_eq!(verify(&expected, &Ok(Some(same))), Ok(()));
    assert_eq!(verify(&expected, &Ok(None)), Ok(()));
}

#[test]
fn device_that_does_not_match_fails_verification() {
    let expected = DeviceInfo::new("glove", "0.1.0", 1480000000);
    let mismatch = Err(Error::ArduinoVerification(Some(
        "Device information does not match".to_string(),
    )));
    for other in [
        DeviceInfo::new("glove", "0.1.0", 1480000001),
        DeviceInfo::new("glove", "0.1.1", 1480000000),
        DeviceInfo::new("mitten", "0.1.0", 1480000000),
    ] {
        assert_eq!(verify(&expected, &Ok(Some(other))), mismatch);
    }
}

#[test]
fn device_that_cannot_be_asked_fails_verification() {
    let expected = DeviceInfo::new("glove", "0.1.0", 1480000000);
    assert_eq!(
        verify(&expected, &Err(Error::Io("timed out".to_string()))),
        Err(Error::ArduinoVerification(None))
    );
    assert_eq!(
        verify(&expected, &Err(Error::MalformedResponse)),
        Err(Error::ArduinoVerification(None))
    );
}

#[test]
fn failures_are_told_apart() {
    assert_eq!(Error::Io("gone".to_string()).failure(), Failure::Io);
    assert_eq!(Error::ArduinoVerification(None).failure(), Failure::Verification);
    assert_eq!(Error::MalformedResponse.failure(), Failure::Other);
    assert_eq!(Error::UnknownCode(9).failure(), Failure::Other);
    assert_eq!(Error::UnexpectedResponse.failure(), Failure::Other);
    assert_eq!(
        Error::ArduinoResponse("poll_event".to_string(), ResponseCode::JsonAlloc).failure(),
        Failure::Other
    );
    assert_eq!(Error::UploadFailed(Some(1)).failure(), Failure::Other);
    assert_eq!(Error::UploadTimeout.failure(), Failure::Other);
}

#[test]
fn response_codes_say_what_they_mean() {
    assert_eq!(ResponseCode::JsonParse.message(), "Could not parse the request");
    assert_eq!(ResponseCode::JsonAlloc.message(), "JSON buffer is full");
    assert_eq!(ResponseCode::RequestTooLong.message(), "Request too long");
    assert_eq!(ResponseCode::UnknownCommand.message(), "Unknown command");
    assert_eq!(ResponseCode::BufferTooSmall.message(), "Response buffer too small");
    assert_eq!(ResponseCode::InvalidParam.message(), "Illegal parameter");
}

#[test]
fn device_info_is_compared_field_by_field() {
    let info = DeviceInfo::new("glove", "0.1.0", 7);
    assert!(info.matches(&DeviceInfo::new("glove", "0.1.0", 7)));
    assert!(!info.matches(&DeviceInfo::new("glove", "0.1.0", 8)));
    assert!(!info.matches(&DeviceInfo::new("glove", "0.1", 7)));
    assert!(!info.matches(&DeviceInfo::new("Glove", "0.1.0", 7)));
}

#[test]
fn thresholds_out_of_order_are_refused() {
    let config = SensorConfig::new(0, 1023);
    assert_eq!(config.with_thresholds(100, 150).map(|c| c.thresholds()), Some((100, 150)));
    assert_eq!(config.with_thresholds(100, 150).map(|c| c.range()), Some((0, 1023)));
    assert_eq!(config.with_thresholds(150, 150), None);
    assert_eq!(config.with_thresholds(151, 150), None);
    assert_eq!(config.with_thresholds(0, 1).map(|c| c.thresholds()), Some((0, 1)));
}

#[test]
fn document_without_the_worth_of_a_number_is_not_written() {
    assert!(Json::Unsigned(3).is_exact());
    assert!(!Json::Real.is_exact());
    assert_eq!(try_render(&Json::Unsigned(3)), Some("3".to_string()));
    assert_eq!(try_render(&Json::Real), None);
    let nested = Json::Object(vec![(
        "a".to_string(),
        Json::List(vec![Json::Null, Json::Object(vec![("b".to_string(), Json::Real)])]),
    )]);
    assert!(!nested.is_exact());
    assert_eq!(try_render(&nested), None);
    let whole = Json::Object(vec![(
        "a".to_string(),
        Json::List(vec![Json::Null, Json::Object(vec![("b".to_string(), Json::Negative(-1))])]),
    )]);
    assert_eq!(try_render(&whole), Some("{\"a\":[null,{\"b\":-1}]}".to_string()));
    assert_eq!(try_render(&parse("[1, 2.5]").unwrap()), None);
}
