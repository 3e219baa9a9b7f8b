use websocat_api::host::{HostReading, HostReadings};
use websocat_api::interpret::InterpretError;
use websocat_api::number::{
    format_bool, format_i64, format_u16, parse_bool, parse_i64, parse_u16, NumberError,
};
use websocat_api::value::{NodeId, PropertyValue, PropertyValueType, SchemaId};

fn readings() -> HostReadings {
    let mut host = HostReadings::new();
    host.record(
        b"1e3".to_vec(),
        HostReading { float: Some(b"1000".to_vec()), ip_addr: None, sock_addr: None },
    );
    host.record(
        b"127.0.0.1".to_vec(),
        HostReading {
            float: None,
            ip_addr: Some(b"127.0.0.1".to_vec()),
            sock_addr: None,
        },
    );
    host.record(
        b"[0::1]:080".to_vec(),
        HostReading { float: None, ip_addr: None, sock_addr: Some(b"[::1]:80".to_vec()) },
    );
    host
}

#[test]
fn signed_integers_as_the_platform_reads_them() {
    let texts = [
        "0", "7", "-7", "+7", "007", "-0", "+0", "", "+", "-", "--1", "+-1", "1 ", " 1", "1_0",
        "12a", "a12", "9223372036854775807", "9223372036854775808", "-9223372036854775808",
        "-9223372036854775809", "+9223372036854775807", "00000000000000000000000000001",
        "99999999999999999999999999", "-99999999999999999999999999", "1.0", "0x10", "१",
    ];
    for text in texts {
        let expected: Option<i64> = text.parse().ok();
        assert_eq!(parse_i64(text.as_bytes()).ok(), expected, "text {:?}", text);
    }
}

#[test]
fn port_numbers_as_the_platform_reads_them() {
    let texts = [
        "0", "80", "+80", "-80", "-0", "65535", "65536", "065535", "", "+", "8o", "99999999999",
        "18446744073709551616",
    ];
    for text in texts {
        let expected: Option<u16> = text.parse().ok();
        assert_eq!(parse_u16(text.as_bytes()).ok(), expected, "text {:?}", text);
    }
}

#[test]
fn integer_faults() {
    assert_eq!(parse_i64(b"abc"), Err(NumberError::Malformed));
    assert_eq!(parse_i64(b""), Err(NumberError::Malformed));
    assert_eq!(parse_i64(b"9223372036854775808"), Err(NumberError::OutOfRange));
    assert_eq!(parse_i64(b"9223372036854775808x"), Err(NumberError::Malformed));
    assert_eq!(parse_u16(b"65536"), Err(NumberError::OutOfRange));
    assert_eq!(parse_u16(b"-1"), Err(NumberError::Malformed));
    assert_eq!(parse_i64(b"-9223372036854775808"), Ok(i64::MIN));
}

#[test]
fn truth_values() {
    assert_eq!(parse_bool(b"true"), Some(true));
    assert_eq!(parse_bool(b"false"), Some(false));
    for text in ["True", "FALSE", "1", "0", "", "true ", "yes", "tru", "falsee"] {
        let expected: Option<bool> = text.parse().ok();
        assert_eq!(parse_bool(text.as_bytes()), expected, "text {:?}", text);
    }
}

#[test]
fn numbers_print_as_the_platform_prints_them() {
    for v in [0i64, 1, -1, 9, 10, 11, 99, 100, 12345, -12345, i64::MAX, i64::MIN, i64::MIN + 1] {
        assert_eq!(format_i64(v), format!("{}", v).into_bytes());
        assert_eq!(parse_i64(&format_i64(v)), Ok(v));
    }
    for v in [0u16, 1, 9, 10, 80, 8080, 65535] {
        assert_eq!(format_u16(v), format!("{}", v).into_bytes());
        assert_eq!(parse_u16(&format_u16(v)), Ok(v));
    }
    assert_eq!(format_bool(true), b"true".to_vec());
    assert_eq!(format_bool(false), b"false".to_vec());
}

#[test]
fn interpret_plain_kinds() {
    let host = HostReadings::new();
    assert_eq!(
        PropertyValueType::Stringy.interpret(b"any \xff thing", &host),
        Ok(PropertyValue::Stringy(b"any \xff thing".to_vec()))
    );
    assert_eq!(PropertyValueType::Numbery.interpret(b"-42", &host), Ok(PropertyValue::Numbery(-42)));
    assert_eq!(PropertyValueType::Booly.interpret(b"true", &host), Ok(PropertyValue::Booly(true)));
    assert_eq!(
        PropertyValueType::PortNumber.interpret(b"80", &host),
        Ok(PropertyValue::PortNumber(80))
    );
}

#[test]
fn interpret_faults() {
    let host = readings();
    assert_eq!(
        PropertyValueType::Numbery.interpret(b"abc", &host),
        Err(InterpretError::Number(NumberError::Malformed))
    );
    assert_eq!(
        PropertyValueType::PortNumber.interpret(b"70000", &host),
        Err(InterpretError::Number(NumberError::OutOfRange))
    );
    assert_eq!(PropertyValueType::Booly.interpret(b"maybe", &host), Err(InterpretError::NotBoolean));
    assert_eq!(
        PropertyValueType::Floaty.interpret(b"127.0.0.1", &host),
        Err(InterpretError::HostRejected)
    );
    assert_eq!(PropertyValueType::Floaty.interpret(b"2.5", &host), Err(InterpretError::HostUnread));
    assert_eq!(
        PropertyValueType::IpAddr.interpret(b"1e3", &host),
        Err(InterpretError::HostRejected)
    );
    assert_eq!(
        PropertyValueType::SockAddr.interpret(b"nowhere", &host),
        Err(InterpretError::HostUnread)
    );
    for kind in [
        PropertyValueType::Path,
        PropertyValueType::Uri,
        PropertyValueType::Duration,
        PropertyValueType::Enummy(SchemaId(0)),
    ] {
        assert_eq!(kind.interpret(b"x", &host), Err(InterpretError::Unimplemented));
    }
}

#[test]
fn interpret_host_kinds() {
    let host = readings();
    assert_eq!(
        PropertyValueType::Floaty.interpret(b"1e3", &host),
        Ok(PropertyValue::Floaty(b"1000".to_vec()))
    );
    assert_eq!(
        PropertyValueType::IpAddr.interpret(b"127.0.0.1", &host),
        Ok(PropertyValue::IpAddr(b"127.0.0.1".to_vec()))
    );
    assert_eq!(
        PropertyValueType::SockAddr.interpret(b"[0::1]:080", &host),
        Ok(PropertyValue::SockAddr(b"[::1]:80".to_vec()))
    );
}

#[test]
fn latest_reading_wins() {
    let mut host = readings();
    assert_eq!(host.lookup(b"1e3").unwrap().float, Some(b"1000".to_vec()));
    assert!(host.lookup(b"1e4").is_none());
    host.record(
        b"1e3".to_vec(),
        HostReading { float: Some(b"1e3".to_vec()), ip_addr: None, sock_addr: None },
    );
    assert_eq!(host.lookup(b"1e3").unwrap().float, Some(b"1e3".to_vec()));
    assert_eq!(host.lookup(b"127.0.0.1").unwrap().ip_addr, Some(b"127.0.0.1".to_vec()));
}

#[test]
fn text_of_values() {
    assert_eq!(PropertyValue::Stringy(b"a b".to_vec()).to_bytes(), Some(b"a b".to_vec()));
    assert_eq!(PropertyValue::Numbery(-5).to_bytes(), Some(b"-5".to_vec()));
    assert_eq!(PropertyValue::Booly(false).to_bytes(), Some(b"false".to_vec()));
    assert_eq!(PropertyValue::PortNumber(443).to_bytes(), Some(b"443".to_vec()));
    assert_eq!(PropertyValue::Floaty(b"1.5".to_vec()).to_bytes(), Some(b"1.5".to_vec()));
    assert_eq!(PropertyValue::IpAddr(b"::1".to_vec()).to_bytes(), Some(b"::1".to_vec()));
    assert_eq!(
        PropertyValue::SockAddr(b"1.2.3.4:5".to_vec()).to_bytes(),
        Some(b"1.2.3.4:5".to_vec())
    );
    assert_eq!(PropertyValue::Uri(b"ws://h/".to_vec()).to_bytes(), Some(b"ws://h/".to_vec()));
    assert_eq!(PropertyValue::ChildNode(NodeId(3)).to_bytes(), Some(b"[???]".to_vec()));
    assert_eq!(PropertyValue::Enummy(1).to_bytes(), None);
    assert_eq!(PropertyValue::Duration(1, 5).to_bytes(), None);
}

#[test]
fn text_of_paths() {
    assert_eq!(PropertyValue::Path(b"/tmp/x".to_vec()).to_bytes(), Some(b"/tmp/x".to_vec()));
    assert_eq!(
        PropertyValue::Path("/tmp/\u{e9}\u{4e2d}".as_bytes().to_vec()).to_bytes(),
        Some("/tmp/\u{e9}\u{4e2d}".as_bytes().to_vec())
    );
    assert_eq!(PropertyValue::Path(vec![b'/', 0xff]).to_bytes(), Some(b"(?:/??)".to_vec()));
    assert_eq!(PropertyValue::Path(vec![0xc3]).to_bytes(), Some(b"(?:/??)".to_vec()));
    assert_eq!(PropertyValue::Path(vec![]).to_bytes(), Some(vec![]));
}

#[test]
fn plain_values_read_back_from_their_text() {
    let host = HostReadings::new();
    let values = [
        (PropertyValueType::Stringy, PropertyValue::Stringy(b"x y".to_vec())),
        (PropertyValueType::Numbery, PropertyValue::Numbery(i64::MIN)),
        (PropertyValueType::Numbery, PropertyValue::Numbery(77)),
        (PropertyValueType::Booly, PropertyValue::Booly(true)),
        (PropertyValueType::PortNumber, PropertyValue::PortNumber(65535)),
    ];
    for (kind, value) in values {
        let text = value.to_bytes().unwrap();
        assert_eq!(kind.interpret(&text, &host), Ok(value));
    }
}
