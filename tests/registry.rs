use sn_launch_tool::decimal::decimal_string;
use sn_launch_tool::{
    parse_contacts, parse_endpoint, read_registry, serialize_contacts, Endpoint, ReadError,
};

fn ep(a: u8, b: u8, c: u8, d: u8, port: u16) -> Endpoint {
    Endpoint::new(a, b, c, d, port)
}

#[test]
fn decimal_numerals() {
    assert_eq!(decimal_string(0), "0");
    assert_eq!(decimal_string(7), "7");
    assert_eq!(decimal_string(10), "10");
    assert_eq!(decimal_string(65535), "65535");
    assert_eq!(decimal_string(u64::MAX), "18446744073709551615");
}

#[test]
fn endpoint_text_is_dotted_quad_and_port() {
    assert_eq!(ep(127, 0, 0, 1, 12000).to_text(), "127.0.0.1:12000");
    assert_eq!(ep(255, 255, 255, 255, 65535).to_text(), "255.255.255.255:65535");
    assert_eq!(Endpoint::localhost(0).to_text(), "127.0.0.1:0");
}

#[test]
fn endpoint_parses_canonical_text() {
    assert_eq!(parse_endpoint("10.0.0.2:12000"), Some(ep(10, 0, 0, 2, 12000)));
    assert_eq!(parse_endpoint("0.0.0.0:0"), Some(ep(0, 0, 0, 0, 0)));
    assert_eq!(
        parse_endpoint("255.255.255.255:65535"),
        Some(ep(255, 255, 255, 255, 65535))
    );
}

#[test]
fn endpoint_rejects_other_text() {
    for bad in [
        "",
        "10.0.0.2",
        "10.0.0.2:",
        "10.0.0:1",
        "256.0.0.1:1",
        "1.2.3.4:65536",
        "01.2.3.4:1",
        "1.2.3.4:080",
        "1.2.3.4:1 ",
        " 1.2.3.4:1",
        "1.2.3.4.5:1",
        "a.b.c.d:1",
        "1.2.3.4:123456",
        "[::1]:80",
        "1.2.3.4:é",
    ] {
        assert_eq!(parse_endpoint(bad), None, "{bad}");
    }
}

#[test]
fn registry_text_is_a_json_array_of_strings() {
    let addrs = vec![ep(127, 0, 0, 1, 12000), ep(10, 0, 0, 2, 8080)];
    assert_eq!(
        serialize_contacts(&addrs),
        "[\"127.0.0.1:12000\",\"10.0.0.2:8080\"]"
    );
    assert_eq!(serialize_contacts(&vec![]), "[]");
}

#[test]
fn registry_round_trip_gives_the_same_set() {
    let addrs = vec![
        ep(127, 0, 0, 1, 12000),
        ep(10, 0, 0, 2, 8080),
        ep(127, 0, 0, 1, 12000),
        ep(192, 168, 1, 100, 1),
    ];
    let text = serialize_contacts(&addrs);
    let reg = read_registry(Some(text.as_str())).unwrap();
    assert_eq!(reg.addresses.len(), 3);
    for a in &addrs {
        assert!(reg.addresses.contains(a));
    }
    for a in &reg.addresses {
        assert!(addrs.contains(a));
    }
}

#[test]
fn registry_round_trip_of_one_and_none() {
    let one = vec![ep(1, 2, 3, 4, 5)];
    let text = serialize_contacts(&one);
    assert_eq!(read_registry(Some(text.as_str())).unwrap().addresses, one);
    let text = serialize_contacts(&vec![]);
    assert!(read_registry(Some(text.as_str())).unwrap().addresses.is_empty());
}

#[test]
fn parse_keeps_order_and_duplicates() {
    let v = parse_contacts("[\"1.1.1.1:1\",\"2.2.2.2:2\",\"1.1.1.1:1\"]").unwrap();
    assert_eq!(v, vec![ep(1, 1, 1, 1, 1), ep(2, 2, 2, 2, 2), ep(1, 1, 1, 1, 1)]);
}

#[test]
fn registry_absent_file_is_not_found() {
    assert_eq!(read_registry(None).unwrap_err(), ReadError::NotFound);
}

#[test]
fn registry_malformed_text_is_malformed() {
    for bad in [
        "",
        "[",
        "]",
        "[,]",
        "[\"1.1.1.1:1\",]",
        "[\"1.1.1.1:1\"",
        "[\"1.1.1.1:1\"]x",
        "[\"1.1.1.1\"]",
        "[1.1.1.1:1]",
        "{\"a\":1}",
        "[\"1.1.1.1:1\" ]",
        "[\"1.1.1.1:1\",,\"2.2.2.2:2\"]",
        "[\"300.1.1.1:1\"]",
        "[\"é\"]",
    ] {
        assert_eq!(
            read_registry(Some(bad)).unwrap_err(),
            ReadError::Malformed,
            "{bad}"
        );
    }
}
