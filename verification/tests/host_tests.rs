use mongo_topology::error::{Error, ErrorKind};
use mongo_topology::host::{parse_host, parse_port, Host, DEFAULT_PORT};

#[test]
fn parse_host_without_port_uses_default() {
    let h = parse_host("db.example.com").unwrap();
    assert_eq!(h.host_name, "db.example.com");
    assert_eq!(h.port, 27017);
    assert_eq!(DEFAULT_PORT, 27017);
}

#[test]
fn parse_host_with_port() {
    let h = parse_host("db.example.com:27018").unwrap();
    assert_eq!(h, Host { host_name: "db.example.com".to_string(), port: 27018 });
}

#[test]
fn parse_host_with_bad_port_is_format_error() {
    let e = parse_host("db.example.com:abc").unwrap_err();
    assert_eq!(e.kind, ErrorKind::Format);
    assert_eq!(e.name, "unexpected host string format");
    assert!(e.detail.contains("db.example.com:abc"));
}

#[test]
fn parse_host_edge_cases() {
    assert_eq!(parse_host("").unwrap(), Host { host_name: String::new(), port: 27017 });
    assert_eq!(parse_host(":5").unwrap(), Host { host_name: String::new(), port: 5 });
    assert_eq!(parse_host("h:007").unwrap(), Host { host_name: "h".to_string(), port: 7 });
    assert_eq!(parse_host("h:0").unwrap().port, 0);
    assert!(parse_host("h:").is_err());
    assert!(parse_host("h:1:2").is_err());
    assert!(parse_host("h:+5").is_err());
    assert!(parse_host("h:-5").is_err());
    assert!(parse_host("h: 5").is_err());
    assert!(parse_host("h:5x").is_err());
}

#[test]
fn parse_host_port_limits() {
    assert_eq!(parse_host("h:18446744073709551615").unwrap().port, u64::MAX);
    assert!(parse_host("h:18446744073709551616").is_err());
    assert!(parse_host("h:99999999999999999999999").is_err());
}

#[test]
fn parse_host_non_ascii_name() {
    let h = parse_host("h\u{f4}te.example:27019").unwrap();
    assert_eq!(h.host_name, "h\u{f4}te.example");
    assert_eq!(h.port, 27019);
}

#[test]
fn parse_port_values() {
    assert_eq!(parse_port("27017"), Some(27017));
    assert_eq!(parse_port("0"), Some(0));
    assert_eq!(parse_port(""), None);
    assert_eq!(parse_port("12a"), None);
    assert_eq!(parse_port("18446744073709551615"), Some(u64::MAX));
    assert_eq!(parse_port("18446744073709551616"), None);
}

#[test]
fn host_equality_is_by_value() {
    let a = Host::new("a".to_string(), 1);
    let b = Host::new("a".to_string(), 1);
    let c = Host::new("a".to_string(), 2);
    let d = Host::new("b".to_string(), 1);
    assert!(a.same_as(&b));
    assert!(!a.same_as(&c));
    assert!(!a.same_as(&d));
    assert!(a.duplicate().same_as(&a));
    assert_eq!(a, b);
}

#[test]
fn error_text_is_one_line_rendering() {
    let e = Error::new(ErrorKind::Connection, "here", "refused", "port closed".to_string());
    assert_eq!(e.to_text(), "ERR | here | refused => port closed");
    let d = e.duplicate();
    assert_eq!(d.kind, ErrorKind::Connection);
    assert_eq!(d.site, "here");
    assert_eq!(d.name, "refused");
    assert_eq!(d.detail, "port closed");
}
