//! Unified addresses and the socket addresses of an operating system.

use uni_addr::inet;
use uni_addr::ipv4::Ipv4Addr;
use uni_addr::native::{NativeAddr, NativeError};
use uni_addr::unix;
use uni_addr::{ParseError, UniAddr, UniAddrInner};

fn there_and_back(addr: &str) {
    let uni_addr = UniAddr::new(addr).unwrap();
    let native = uni_addr.to_native().unwrap();
    let uni_addr_converted = UniAddr::from_native(&native).unwrap();

    assert_eq!(uni_addr, uni_addr_converted, "{uni_addr:?} != {uni_addr_converted:?}");
    assert_eq!(uni_addr_converted.to_str(), addr);
}

#[test]
fn native_conversion_v4() {
    there_and_back("0.0.0.0:0");
    there_and_back("0.0.0.0:8080");
    there_and_back("127.0.0.1:0");
    there_and_back("127.0.0.1:8080");
}

#[test]
fn native_conversion_v6() {
    there_and_back("[::]:0");
    there_and_back("[::]:8080");
    there_and_back("[::1]:0");
    there_and_back("[::1]:8080");
}

#[test]
fn native_conversion_unix() {
    there_and_back("unix:///tmp/test_socket2_sock_addr_conversion.socket");
    there_and_back("unix://@test_socket2_sock_addr_conversion.socket");
    there_and_back("unix://");
    there_and_back("unix://@");
}

#[test]
fn native_form_of_each_kind() {
    let addr = UniAddr::new("1.2.3.4:5").unwrap();
    assert!(matches!(
        addr.to_native().unwrap(),
        NativeAddr::Inet(a) if a == inet::SocketAddr::V4(Ipv4Addr::new(1, 2, 3, 4), 5)
    ));
    let addr = UniAddr::new("unix:///run/a").unwrap();
    assert!(matches!(addr.to_native().unwrap(), NativeAddr::Unix(p) if p == b"/run/a"));
    let addr = UniAddr::new("unix://@name").unwrap();
    assert!(matches!(addr.to_native().unwrap(), NativeAddr::Unix(p) if p == b"\0name"));
    let addr = UniAddr::new("unix://").unwrap();
    assert!(matches!(addr.to_native().unwrap(), NativeAddr::Unix(p) if p.is_empty()));
}

#[test]
fn host_name_is_no_socket_address() {
    let addr = UniAddr::new("example.com:8080").unwrap();
    assert_eq!(addr.to_native().unwrap_err(), NativeError::Unresolved);
}

#[test]
fn native_addresses_that_are_refused() {
    assert_eq!(
        UniAddr::from_native(&NativeAddr::Other).unwrap_err(),
        NativeError::UnsupportedFamily
    );
    assert_eq!(
        UniAddr::from_native(&NativeAddr::Unix(vec![b'a'; 108])).unwrap_err(),
        NativeError::InvalidUnix(unix::AddrError::PathTooLong)
    );
    assert_eq!(
        UniAddr::from_native(&NativeAddr::Unix(vec![0; 109])).unwrap_err(),
        NativeError::InvalidUnix(unix::AddrError::NameTooLong)
    );
    assert_eq!(
        UniAddr::from_native(&NativeAddr::Unix(b"/a\0".to_vec())).unwrap_err(),
        NativeError::InvalidUnix(unix::AddrError::InteriorNul)
    );
}

#[test]
fn at_sign_marks_nothing_in_a_native_path() {
    let addr = UniAddr::from_native(&NativeAddr::Unix(b"@name".to_vec())).unwrap();
    assert_eq!(
        *addr.as_inner(),
        UniAddrInner::Unix(unix::SocketAddr::new_pathname(b"@name").unwrap())
    );
    // Its text is that of an abstract name, and is read as one.
    assert_eq!(addr.to_str(), "unix://@name");
    assert_ne!(UniAddr::new(&addr.to_str()).unwrap(), addr);
    let addr = unix::SocketAddr::from_os_string(b"\0@name").unwrap();
    assert_eq!(addr.as_abstract_name().unwrap(), b"@name");
    assert!(unix::SocketAddr::from_os_string(b"").unwrap().is_unnamed());
    assert_eq!(unix::SocketAddr::from_os_string(b"\0").unwrap().as_abstract_name().unwrap(), b"");
}

#[test]
fn conversions_from_the_kinds() {
    let inet = inet::SocketAddr::V4(Ipv4Addr::new(10, 0, 0, 1), 22);
    assert_eq!(UniAddr::from(inet), UniAddr::new("10.0.0.1:22").unwrap());
    let unix = unix::SocketAddr::new("/run/a").unwrap();
    assert_eq!(UniAddr::from(unix), UniAddr::new("unix:///run/a").unwrap());
    UniAddr::new("10.0.0.1:22").unwrap().valid();
    unix::SocketAddr::new("/run/a").unwrap().valid();
}

#[test]
fn hash_keys() {
    assert_eq!(unix::SocketAddr::new("/run/a").unwrap().hash_key(), b"/run/a");
    assert_eq!(unix::SocketAddr::new("@name").unwrap().hash_key(), b"\0name");
    assert_eq!(unix::SocketAddr::new("@").unwrap().hash_key(), b"\0");
    assert_eq!(unix::SocketAddr::new_unnamed().hash_key(), b"(unnamed)\0");
    assert_eq!(unix::SocketAddr::new_abstract(b"(unnamed)\0").unwrap().hash_key(), b"\0(unnamed)\0");
}

#[test]
fn error_messages() {
    assert_eq!(ParseError::Empty.message(), "empty address string");
    assert_eq!(ParseError::InvalidHost.message(), "invalid or missing host address");
    assert_eq!(ParseError::InvalidPort.message(), "invalid or missing port");
    assert_eq!(ParseError::Unsupported.message(), "unsupported address type on this platform");
    assert_eq!(
        ParseError::InvalidUDSAddress(unix::AddrError::InteriorNul).message(),
        "invalid UDS address: paths must not contain interior null bytes"
    );
    assert_eq!(
        ParseError::InvalidUDSAddress(unix::AddrError::PathTooLong).message(),
        "invalid UDS address: path must be shorter than SUN_LEN"
    );
    assert_eq!(
        unix::AddrError::NameTooLong.message(),
        "abstract socket name must be shorter than SUN_LEN"
    );
    assert_eq!(
        unix::AddrError::NulInName.message(),
        "parse abstract socket name in strict mode: reject NULL bytes"
    );
    assert_eq!(
        unix::AddrError::Unsupported.message(),
        "abstract unix socket address is not supported"
    );
}

#[test]
fn error_sources() {
    assert_eq!(ParseError::Empty.source(), None);
    assert_eq!(ParseError::InvalidHost.source(), None);
    assert_eq!(
        ParseError::InvalidUDSAddress(unix::AddrError::NameTooLong).source(),
        Some(unix::AddrError::NameTooLong)
    );
    let e = UniAddr::new("unix:///a\0").unwrap_err();
    assert_eq!(e.source(), Some(unix::AddrError::InteriorNul));
}
