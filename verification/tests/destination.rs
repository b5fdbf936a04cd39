use tsmux::destination::{check_port, parse_decimal, parse_destination, Destination};
use tsmux::error::MuxError;

fn file(path: &str) -> Destination {
    Destination::File { path: path.as_bytes().to_vec() }
}

fn udp(host: &str, port: i32) -> Destination {
    Destination::Udp { host: host.as_bytes().to_vec(), port }
}

#[test]
fn file_scheme_names_a_file() {
    assert_eq!(parse_destination(b"file:///tmp/out.ts"), Ok(file("/tmp/out.ts")));
    assert_eq!(parse_destination(b"file://out.ts"), Ok(file("out.ts")));
    assert_eq!(parse_destination(b"file://"), Ok(file("")));
    assert_eq!(parse_destination(b"file://udp://a:1"), Ok(file("udp://a:1")));
}

#[test]
fn text_without_a_scheme_names_a_file() {
    assert_eq!(parse_destination(b"out.ts"), Ok(file("out.ts")));
    assert_eq!(parse_destination(b""), Ok(file("")));
    assert_eq!(parse_destination(b"--"), Ok(file("--")));
    assert_eq!(parse_destination(b"file:/x"), Ok(file("file:/x")));
    assert_eq!(parse_destination(b"udp:/x:1"), Ok(file("udp:/x:1")));
    assert_eq!(parse_destination("víd\u{e9}o.ts".as_bytes()), Ok(file("víd\u{e9}o.ts")));
}

#[test]
fn dash_names_standard_output() {
    assert_eq!(parse_destination(b"-"), Ok(Destination::Stdout));
}

#[test]
fn udp_scheme_names_host_and_port() {
    assert_eq!(parse_destination(b"udp://127.0.0.1:5000"), Ok(udp("127.0.0.1", 5000)));
    assert_eq!(parse_destination(b"udp://host:+7"), Ok(udp("host", 7)));
    assert_eq!(parse_destination(b"udp://:0005"), Ok(udp("", 5)));
    assert_eq!(parse_destination(b"udp://h:0"), Ok(udp("h", 0)));
    assert_eq!(parse_destination(b"udp://h:-0"), Ok(udp("h", 0)));
    assert_eq!(parse_destination(b"udp://h:65535"), Ok(udp("h", 65535)));
}

#[test]
fn a_number_that_is_no_port_is_a_configuration_error() {
    for bad in [
        "udp://127.0.0.1:-1",
        "udp://h:65536",
        "udp://h:2147483647",
        "udp://h:-2147483648",
    ] {
        assert_eq!(parse_destination(bad.as_bytes()), Err(MuxError::Configuration), "{}", bad);
    }
    assert!(check_port(0));
    assert!(check_port(65535));
    assert!(!check_port(-1));
    assert!(!check_port(65536));
}

#[test]
fn malformed_udp_address_is_a_configuration_error() {
    for bad in [
        "udp://",
        "udp://host",
        "udp://host:",
        "udp://a:b:1",
        "udp://[::1]:5000",
        "udp://host:port",
        "udp://host:12a",
        "udp://host: 12",
        "udp://host:+",
        "udp://host:-",
        "udp://host:2147483648",
        "udp://host:-2147483649",
        "udp://host:99999999999999999999999999",
    ] {
        assert_eq!(parse_destination(bad.as_bytes()), Err(MuxError::Configuration), "{}", bad);
    }
}

#[test]
fn decimal_agrees_with_the_standard_parser() {
    for text in [
        "0", "1", "-0", "+0", "007", "-007", "2147483647", "2147483648", "-2147483648",
        "-2147483649", "", "+", "-", "++1", "1-", "1 ", " 1", "١", "12345678901", "00000000000001",
        "4294967296", "9999999999", "-9999999999", "18446744073709551616", "1e3", "0x10",
    ] {
        assert_eq!(parse_decimal(&text.as_bytes().to_vec()), text.parse::<i32>().ok(), "{:?}", text);
    }
}
