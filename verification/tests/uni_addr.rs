//! Reading and writing unified addresses.

use uni_addr::inet;
use uni_addr::ipv4::Ipv4Addr;
use uni_addr::ipv6::Ipv6Addr;
use uni_addr::platform::Platform;
use uni_addr::unix;
use uni_addr::{ParseError, UniAddr, UniAddrInner, UNIX_URI_PREFIX};

fn round_trip(addr: &str) {
    let addr_displayed = UniAddr::new(addr).unwrap().to_str();

    assert_eq!(addr_displayed, addr, "addr_displayed {addr_displayed:?} != {addr:?}");
}

fn error_of(addr: &str) -> ParseError {
    UniAddr::new(addr).unwrap_err()
}

#[test]
fn new_display_v4_any_port_zero() {
    round_trip("0.0.0.0:0");
}

#[test]
fn new_display_v4_any() {
    round_trip("0.0.0.0:8080");
}

#[test]
fn new_display_v4_loopback_port_zero() {
    round_trip("127.0.0.1:0");
}

#[test]
fn new_display_v4_loopback() {
    round_trip("127.0.0.1:8080");
}

#[test]
fn new_display_v6_any_port_zero() {
    round_trip("[::]:0");
}

#[test]
fn new_display_v6_any() {
    round_trip("[::]:8080");
}

#[test]
fn new_display_v6_loopback_port_zero() {
    round_trip("[::1]:0");
}

#[test]
fn new_display_v6_loopback() {
    round_trip("[::1]:8080");
}

#[test]
fn new_display_host() {
    round_trip("example.com:8080");
}

#[test]
fn new_display_host_digit_first() {
    round_trip("1example.com:8080");
}

#[test]
fn new_display_unix_unnamed() {
    round_trip("unix://");
}

#[test]
fn new_display_unix_abstract_empty() {
    round_trip("unix://@");
}

#[test]
fn new_display_unix_pathname() {
    round_trip("unix:///tmp/test_UniAddr_new_Display.socket");
}

#[test]
fn new_display_unix_abstract() {
    round_trip("unix://@test_UniAddr_new_Display.socket");
}

#[test]
fn new_display_documented_cases() {
    round_trip("unix:///tmp/test.socket");
    round_trip("unix://@abstract.name");
}

#[test]
fn new_display_largest_port() {
    round_trip("255.255.255.255:65535");
    round_trip("[ffff:ffff:ffff:ffff:ffff:ffff:ffff:ffff]:65535");
}

#[test]
fn new_kinds() {
    let v4 = UniAddr::new("127.0.0.1:8080").unwrap();
    assert_eq!(
        *v4.as_inner(),
        UniAddrInner::Inet(inet::SocketAddr::V4(Ipv4Addr::new(127, 0, 0, 1), 8080))
    );
    let v6 = UniAddr::new("[::1]:8080").unwrap();
    assert_eq!(
        *v6.as_inner(),
        UniAddrInner::Inet(inet::SocketAddr::V6(Ipv6Addr::new([0, 0, 0, 0, 0, 0, 0, 1]), 8080))
    );
    let host = UniAddr::new("example.com:8080").unwrap();
    assert_eq!(*host.as_inner(), UniAddrInner::Host("example.com:8080".to_string()));
    let path = UniAddr::new("unix:///run/a.socket").unwrap();
    assert_eq!(
        *path.as_inner(),
        UniAddrInner::Unix(unix::SocketAddr::new("/run/a.socket").unwrap())
    );
}

#[test]
fn new_host_display() {
    for addr in ["example.com:8080", "1example.com:8080"] {
        let addr_displayed = UniAddr::new_host(addr, None).unwrap().to_str();
        assert_eq!(addr_displayed, addr, "addr_displayed {addr_displayed:?} != {addr:?}");
    }
}

#[test]
fn new_host_with_parts() {
    let addr = UniAddr::new_host("example.com:8080", Some(("example.com", 8080))).unwrap();
    assert_eq!(addr.to_str(), "example.com:8080");
    assert_eq!(addr, UniAddr::new("example.com:8080").unwrap());
}

#[test]
fn new_host_reads_the_text_itself() {
    assert_eq!(
        UniAddr::new_host("not a host:80", Some(("example.com", 80))).unwrap_err(),
        ParseError::InvalidHost
    );
    assert_eq!(
        UniAddr::new_host("example.com", Some(("example.com", 80))).unwrap_err(),
        ParseError::InvalidPort
    );
    assert_eq!(UniAddr::new_host("127.0.0.1:80", None).unwrap_err(), ParseError::InvalidHost);
}

#[test]
fn new_host_without_port() {
    assert_eq!(UniAddr::new_host("1example.com", None).unwrap_err(), ParseError::InvalidPort);
    assert_eq!(UniAddr::new_host("1example.com.", None).unwrap_err(), ParseError::InvalidPort);
}

#[test]
fn new_host_trailing_dot() {
    assert_eq!(
        UniAddr::new_host("1example.com.:14514", None).unwrap_err(),
        ParseError::InvalidHost
    );
}

#[test]
fn new_host_port_out_of_range() {
    assert_eq!(
        UniAddr::new_host("1example.com:1919810", None).unwrap_err(),
        ParseError::InvalidPort
    );
    assert_eq!(error_of("1example.com:1919810"), ParseError::InvalidPort);
}

#[test]
fn new_host_too_long() {
    let addr = "this-is-a-long-host-name-this-is-a-long-host-name-this-is-a-long-host-name-this-is-a-long-host-name-this-is-a-long-host-name-this-is-a-long-host-name-this-is-a-long-host-name-this-is-a-long-host-name-this-is-a-long-host-name-this-is-a-long-host-name-this-is-a-long-host-name:19810";
    assert_eq!(UniAddr::new_host(addr, None).unwrap_err(), ParseError::InvalidHost);
    assert_eq!(error_of(addr), ParseError::InvalidHost);
}

#[test]
fn new_invalid_empty() {
    assert_eq!(error_of(""), ParseError::Empty);
}

#[test]
fn new_invalid_no_port() {
    assert_eq!(error_of("not-an-address"), ParseError::InvalidPort);
    assert_eq!(error_of("127.0.0.1"), ParseError::InvalidPort);
    assert_eq!(error_of("example.com"), ParseError::InvalidPort);
    assert_eq!(error_of("[::1]"), ParseError::InvalidPort);
    assert_eq!(error_of("example.com:"), ParseError::InvalidPort);
}

#[test]
fn new_invalid_port_out_of_range() {
    assert_eq!(error_of("127.0.0.1:99999"), ParseError::InvalidPort);
    assert_eq!(error_of("127.0.0.256:99999"), ParseError::InvalidPort);
    assert_eq!(error_of("[::1]:99999"), ParseError::InvalidPort);
    assert_eq!(error_of("example.com:99999"), ParseError::InvalidPort);
    assert_eq!(error_of("examp\u{1F600}le.com:99999"), ParseError::InvalidPort);
    assert_eq!(error_of("127.0.0.1:65536"), ParseError::InvalidPort);
}

#[test]
fn new_invalid_port_before_host() {
    // The port is looked at first: a bad host behind a bad port is a bad port.
    assert_eq!(error_of("[::gg]:99999"), ParseError::InvalidPort);
    assert_eq!(error_of("[::gg]:8080"), ParseError::InvalidHost);
}

#[test]
fn new_invalid_port_with_sign() {
    assert_eq!(error_of("127.0.0.1:+80"), ParseError::InvalidPort);
    assert_eq!(error_of("127.0.0.1:-80"), ParseError::InvalidPort);
    assert_eq!(error_of("example.com: 80"), ParseError::InvalidPort);
}

#[test]
fn new_invalid_host() {
    assert_eq!(error_of("::1"), ParseError::InvalidHost);
    assert_eq!(error_of("[::1:8080"), ParseError::InvalidHost);
    assert_eq!(error_of("[]:8080"), ParseError::InvalidHost);
    assert_eq!(error_of("[:8080"), ParseError::InvalidHost);
    assert_eq!(error_of(":8080"), ParseError::InvalidHost);
    assert_eq!(error_of("examp\u{1F600}le.com:8080"), ParseError::InvalidHost);
    assert_eq!(error_of("127.0.0.256:8080"), ParseError::InvalidHost);
    assert_eq!(error_of("-leading-hyphen.com:80"), ParseError::InvalidHost);
}

#[test]
fn new_bracketed_host_is_never_a_host_name() {
    assert_eq!(error_of("[example.com]:8080"), ParseError::InvalidHost);
    assert_eq!(error_of("[127.0.0.1]:8080"), ParseError::InvalidHost);
}

#[test]
fn new_invalid_unix() {
    let long = format!("unix:///{}", "a".repeat(107));
    assert_eq!(
        error_of(&long),
        ParseError::InvalidUDSAddress(unix::AddrError::PathTooLong)
    );
    assert_eq!(
        error_of("unix:///tmp/a\0b"),
        ParseError::InvalidUDSAddress(unix::AddrError::InteriorNul)
    );
    let long = format!("unix://@{}", "a".repeat(108));
    assert_eq!(
        error_of(&long),
        ParseError::InvalidUDSAddress(unix::AddrError::NameTooLong)
    );
}

#[test]
#[allow(non_snake_case)]
fn test_UniAddr_new_unsupported() {
    // Unix sockets should be unsupported on non-Unix platforms
    let result = UniAddr::new_for("unix:///tmp/test.sock", Platform::Other);

    assert!(matches!(result.unwrap_err(), ParseError::Unsupported));
}

#[test]
fn new_for_other_platforms() {
    assert_eq!(
        UniAddr::new_for("unix://@name", Platform::Other).unwrap_err(),
        ParseError::Unsupported
    );
    assert_eq!(
        UniAddr::new_for("unix://@name", Platform::Unix).unwrap_err(),
        ParseError::InvalidUDSAddress(unix::AddrError::Unsupported)
    );
    assert_eq!(
        UniAddr::new_for("unix:///tmp/test.sock", Platform::Unix).unwrap().to_str(),
        "unix:///tmp/test.sock"
    );
    assert_eq!(
        UniAddr::new_for("127.0.0.1:80", Platform::Other).unwrap().to_str(),
        "127.0.0.1:80"
    );
    assert_eq!(
        UniAddr::new_for("example.com:80", Platform::Other).unwrap().to_str(),
        "example.com:80"
    );
}

#[test]
fn digit_leading_host_falls_back() {
    let addr = UniAddr::new("1.2.3.4.com:80").unwrap();
    assert_eq!(*addr.as_inner(), UniAddrInner::Host("1.2.3.4.com:80".to_string()));
    let addr = UniAddr::new("1.2.3.4:80").unwrap();
    assert_eq!(
        *addr.as_inner(),
        UniAddrInner::Inet(inet::SocketAddr::V4(Ipv4Addr::new(1, 2, 3, 4), 80))
    );
    let addr = UniAddr::new("1.2.3.4a:80").unwrap();
    assert_eq!(*addr.as_inner(), UniAddrInner::Host("1.2.3.4a:80".to_string()));
    assert_eq!(error_of("1.2.3:80"), ParseError::InvalidHost);
    assert_eq!(error_of("01.2.3.4:80"), ParseError::InvalidHost);
    assert_eq!(error_of("1.2.3.4.5:80"), ParseError::InvalidHost);
}

#[test]
fn text_that_is_not_in_written_form() {
    assert_eq!(UniAddr::new("127.0.0.1:0080").unwrap().to_str(), "127.0.0.1:80");
    assert_eq!(UniAddr::new("[0:0:0:0:0:0:0:1]:80").unwrap().to_str(), "[::1]:80");
    assert_eq!(UniAddr::new("[::FFFF:1.2.3.4]:80").unwrap().to_str(), "[::ffff:1.2.3.4]:80");
    assert_eq!(UniAddr::new("unix://\0name").unwrap().to_str(), "unix://@name");
    assert_eq!(UniAddr::new("example.com:0080").unwrap().to_str(), "example.com:0080");
}

#[test]
fn written_text_is_read_back() {
    for text in [
        "10.20.30.40:1234",
        "[2001:db8::8a2e:370:7334]:443",
        "[::ffff:192.0.2.128]:80",
        "host-1.example.com:65535",
        "unix:///run/some.socket",
        "unix://@some.name",
        "unix://",
    ] {
        let addr = UniAddr::new(text).unwrap();
        let again = UniAddr::new(&addr.to_str()).unwrap();
        assert_eq!(addr, again);
        assert_eq!(again.to_str(), text);
    }
}

#[test]
fn equality_is_by_kind() {
    let v4 = UniAddr::new("127.0.0.1:80").unwrap();
    let v6 = UniAddr::new("[::ffff:127.0.0.1]:80").unwrap();
    let host = UniAddr::new("localhost:80").unwrap();
    let unix = UniAddr::new("unix://localhost:80").unwrap();
    assert_eq!(v4, v4.clone());
    assert_ne!(v4, v6);
    assert_ne!(v4, host);
    assert_ne!(host, unix);
    assert_ne!(v4, UniAddr::new("127.0.0.1:81").unwrap());
    assert_ne!(v4, UniAddr::new("127.0.0.2:80").unwrap());
    assert_ne!(host, UniAddr::new("localhost:0080").unwrap());
}

#[test]
fn from_str_reads_as_new_does() {
    let addr: UniAddr = "example.com:8080".parse().unwrap();
    assert_eq!(addr, UniAddr::new("example.com:8080").unwrap());
    assert!(matches!("".parse::<UniAddr>(), Err(ParseError::Empty)));
}

#[test]
fn prefix_is_unix_uri() {
    assert_eq!(UNIX_URI_PREFIX, "unix://");
}

#[test]
fn inner_to_str() {
    let inner = UniAddrInner::Host("example.com:1".to_string());
    assert_eq!(inner.to_str(), "example.com:1");
    let inner = UniAddrInner::Inet(inet::SocketAddr::V4(Ipv4Addr::new(8, 8, 4, 4), 53));
    assert_eq!(inner.to_str(), "8.8.4.4:53");
    let inner = UniAddrInner::Unix(unix::SocketAddr::new_abstract(b"n").unwrap());
    assert_eq!(inner.to_str(), "unix://@n");
    let inner = UniAddrInner::Unix(unix::SocketAddr::new_abstract(&[0xff, b'n']).unwrap());
    assert_eq!(inner.to_str(), "unix://@\u{fffd}n");
}
