//! Unix-domain addresses.

use std::collections::hash_map::DefaultHasher;
use std::hash::{Hash, Hasher};

use uni_addr::platform::Platform;
use uni_addr::unix::{AddrError, SocketAddr};

#[test]
fn test_unnamed() {
    const TEST_CASE: &str = "";

    let addr = SocketAddr::new(TEST_CASE).unwrap();

    assert!(addr.is_unnamed());
}

#[test]
fn test_pathname() {
    const TEST_CASE: &str = "/tmp/test_pathname.socket";

    let addr = SocketAddr::new(TEST_CASE).unwrap();

    assert_eq!(std::str::from_utf8(&addr.to_os_string()).unwrap(), TEST_CASE);
    assert_eq!(addr.to_string_lossy(), TEST_CASE);
    assert_eq!(std::str::from_utf8(addr.as_pathname().unwrap()).unwrap(), TEST_CASE);
}

#[test]
fn test_abstract() {
    const TEST_CASE_1: &[u8] = b"@abstract.socket";
    const TEST_CASE_2: &[u8] = b"\0abstract.socket";
    const TEST_CASE_3: &[u8] = b"@";
    const TEST_CASE_4: &[u8] = b"\0";

    assert_eq!(
        SocketAddr::from_bytes(TEST_CASE_1).unwrap().as_abstract_name().unwrap(),
        &TEST_CASE_1[1..]
    );

    assert_eq!(
        SocketAddr::from_bytes(TEST_CASE_2).unwrap().as_abstract_name().unwrap(),
        &TEST_CASE_2[1..]
    );

    assert_eq!(
        SocketAddr::from_bytes(TEST_CASE_3).unwrap().as_abstract_name().unwrap(),
        &TEST_CASE_3[1..]
    );

    assert_eq!(
        SocketAddr::from_bytes(TEST_CASE_4).unwrap().as_abstract_name().unwrap(),
        &TEST_CASE_4[1..]
    );
}

#[test]
#[should_panic]
fn test_pathname_with_null_byte() {
    let _addr = SocketAddr::new_pathname("(unamed)\0".as_bytes()).unwrap();
}

#[test]
fn test_partial_eq_hash() {
    let addr_pathname_1 = SocketAddr::new("/tmp/test_pathname_1.socket").unwrap();
    let addr_pathname_2 = SocketAddr::new("/tmp/test_pathname_2.socket").unwrap();
    let addr_unnamed = SocketAddr::new_unnamed();

    assert_eq!(addr_pathname_1, addr_pathname_1);
    assert_ne!(addr_pathname_1, addr_pathname_2);
    assert_ne!(addr_pathname_2, addr_pathname_1);

    assert_eq!(addr_unnamed, addr_unnamed);
    assert_ne!(addr_pathname_1, addr_unnamed);
    assert_ne!(addr_unnamed, addr_pathname_1);
    assert_ne!(addr_pathname_2, addr_unnamed);
    assert_ne!(addr_unnamed, addr_pathname_2);

    {
        let addr_abstract_1 = SocketAddr::new_abstract(b"/tmp/test_pathname_1.socket").unwrap();
        let addr_abstract_2 = SocketAddr::new_abstract(b"/tmp/test_pathname_2.socket").unwrap();
        let addr_abstract_empty = SocketAddr::new_abstract(&[]).unwrap();
        let addr_abstract_unnamed_hash = SocketAddr::new_abstract(b"(unamed)\0").unwrap();

        assert_eq!(addr_abstract_1, addr_abstract_1);
        assert_ne!(addr_abstract_1, addr_abstract_2);
        assert_ne!(addr_abstract_2, addr_abstract_1);

        // Empty abstract addresses should be equal to unnamed addresses
        assert_ne!(addr_unnamed, addr_abstract_empty);

        // Abstract addresses should not be equal to pathname addresses
        assert_ne!(addr_pathname_1, addr_abstract_1);

        // Abstract unnamed address `@(unamed)\0`' hash should not be equal to unname
        // ones'
        let addr_unnamed_hash = {
            let mut state = DefaultHasher::new();
            addr_unnamed.hash(&mut state);
            state.finish()
        };
        let addr_abstract_unnamed_hash = {
            let mut state = DefaultHasher::new();
            addr_abstract_unnamed_hash.hash(&mut state);
            state.finish()
        };
        assert_ne!(addr_unnamed_hash, addr_abstract_unnamed_hash);
    }
}

fn hash_of(addr: &SocketAddr) -> u64 {
    let mut state = DefaultHasher::new();
    addr.hash(&mut state);
    state.finish()
}

#[test]
fn equal_addresses_hash_alike() {
    let a = SocketAddr::new("/a").unwrap();
    assert_eq!(hash_of(&a), hash_of(&a.clone()));
    assert_eq!(hash_of(&a), hash_of(&SocketAddr::new_pathname(b"/a").unwrap()));
    let n = SocketAddr::new("@a").unwrap();
    assert_eq!(hash_of(&n), hash_of(&SocketAddr::new_abstract(b"a").unwrap()));
    assert_eq!(hash_of(&SocketAddr::new("").unwrap()), hash_of(&SocketAddr::new_unnamed()));
}

#[test]
fn kinds_hash_apart() {
    let path = SocketAddr::new_pathname(b"/a").unwrap();
    let name = SocketAddr::new_abstract(b"/a").unwrap();
    let unnamed = SocketAddr::new_unnamed();
    let sentinel = SocketAddr::new_abstract(b"(unnamed)\0").unwrap();
    assert_ne!(hash_of(&path), hash_of(&name));
    assert_ne!(hash_of(&path), hash_of(&unnamed));
    assert_ne!(hash_of(&name), hash_of(&unnamed));
    assert_ne!(hash_of(&sentinel), hash_of(&unnamed));
    assert_ne!(hash_of(&SocketAddr::new_abstract(b"").unwrap()), hash_of(&unnamed));
}

#[test]
fn equality_of_kinds() {
    let a = SocketAddr::new_pathname(b"/a").unwrap();
    let b = SocketAddr::new_pathname(b"/b").unwrap();
    assert_ne!(a, b);
    assert_eq!(SocketAddr::new_unnamed(), SocketAddr::new_unnamed());
    assert_ne!(SocketAddr::new_abstract(b"/a").unwrap(), a);
    assert_ne!(SocketAddr::new_abstract(&[]).unwrap(), SocketAddr::new_unnamed());
    assert_eq!(SocketAddr::new_abstract(b"x\0y").unwrap(), SocketAddr::new("@x\0y").unwrap());
    assert_ne!(SocketAddr::new_abstract(b"x").unwrap(), SocketAddr::new_abstract(b"x\0").unwrap());
}

#[test]
fn kinds_by_first_byte() {
    assert_eq!(SocketAddr::new("@name").unwrap().as_abstract_name().unwrap(), b"name");
    assert_eq!(SocketAddr::new("\0name").unwrap().as_abstract_name().unwrap(), b"name");
    assert_eq!(SocketAddr::new("@@").unwrap().as_abstract_name().unwrap(), b"@");
    assert_eq!(SocketAddr::new("a@").unwrap().as_pathname().unwrap(), b"a@");
    assert!(SocketAddr::new("@name").unwrap().as_pathname().is_none());
    assert!(SocketAddr::new("/p").unwrap().as_abstract_name().is_none());
    assert!(!SocketAddr::new("/p").unwrap().is_unnamed());
    assert!(!SocketAddr::new("@").unwrap().is_unnamed());
    assert!(SocketAddr::new_pathname(b"").unwrap().is_unnamed());
    assert!(SocketAddr::from_bytes(b"").unwrap().is_unnamed());
}

#[test]
fn text_forms() {
    let name = SocketAddr::new("@abstract.name").unwrap();
    assert_eq!(name.to_os_string(), b"\0abstract.name");
    assert_eq!(name.to_string_lossy(), "@abstract.name");
    assert_eq!(name.to_os_string_impl(b"unix://", b"@"), b"unix://@abstract.name");
    let path = SocketAddr::new("/run/p.socket").unwrap();
    assert_eq!(path.to_os_string(), b"/run/p.socket");
    assert_eq!(path.to_string_lossy(), "/run/p.socket");
    assert_eq!(path.to_os_string_impl(b"unix://", b"@"), b"unix:///run/p.socket");
    let unnamed = SocketAddr::new_unnamed();
    assert_eq!(unnamed.to_os_string(), b"");
    assert_eq!(unnamed.to_string_lossy(), "");
    assert_eq!(unnamed.to_os_string_impl(b"unix://", b"@"), b"unix://");
}

#[test]
fn lossy_text_of_bytes_that_are_not_utf8() {
    let name = SocketAddr::new_abstract(&[b'a', 0xff, b'b']).unwrap();
    assert_eq!(name.to_os_string(), [0, b'a', 0xff, b'b']);
    assert_eq!(name.to_string_lossy(), "@a\u{fffd}b");
    let path = SocketAddr::new_pathname(&[b'/', 0xc3, 0xa9, 0xc3]).unwrap();
    assert_eq!(path.to_string_lossy(), "/\u{e9}\u{fffd}");
    let path = SocketAddr::new("/caf\u{e9}").unwrap();
    assert_eq!(path.to_string_lossy(), "/caf\u{e9}");
}

#[test]
fn length_limits() {
    assert!(SocketAddr::new_pathname(&[b'a'; 107]).is_ok());
    assert_eq!(SocketAddr::new_pathname(&[b'a'; 108]).unwrap_err(), AddrError::PathTooLong);
    assert!(SocketAddr::new_abstract(&[b'a'; 107]).is_ok());
    assert_eq!(SocketAddr::new_abstract(&[b'a'; 108]).unwrap_err(), AddrError::NameTooLong);
    assert!(SocketAddr::new_abstract(&[0; 107]).is_ok());
    let mut marked = vec![b'@'];
    marked.extend_from_slice(&[b'a'; 107]);
    assert!(SocketAddr::from_bytes(&marked).is_ok());
    marked.push(b'a');
    assert_eq!(SocketAddr::from_bytes(&marked).unwrap_err(), AddrError::NameTooLong);
}

#[test]
fn nul_is_looked_for_before_the_length() {
    let mut path = vec![b'a'; 200];
    path[150] = 0;
    assert_eq!(SocketAddr::new_pathname(&path).unwrap_err(), AddrError::InteriorNul);
    assert_eq!(SocketAddr::new_abstract_strict(&path).unwrap_err(), AddrError::NulInName);
    assert_eq!(SocketAddr::new_abstract(&path).unwrap_err(), AddrError::NameTooLong);
}

#[test]
fn strict_reading() {
    assert_eq!(SocketAddr::new_strict("@a\0b").unwrap_err(), AddrError::NulInName);
    assert_eq!(SocketAddr::new_strict("\0a\0").unwrap_err(), AddrError::NulInName);
    assert_eq!(SocketAddr::new_abstract_strict(b"\0").unwrap_err(), AddrError::NulInName);
    assert_eq!(SocketAddr::new_strict("@ab").unwrap().as_abstract_name().unwrap(), b"ab");
    assert_eq!(SocketAddr::new_strict("\0ab").unwrap().as_abstract_name().unwrap(), b"ab");
    assert_eq!(SocketAddr::new_abstract_strict(b"ab").unwrap().to_string_lossy(), "@ab");
    assert_eq!(SocketAddr::new_strict("/a").unwrap().as_pathname().unwrap(), b"/a");
    assert_eq!(SocketAddr::new_strict("/a\0").unwrap_err(), AddrError::InteriorNul);
    assert!(SocketAddr::new_strict("").unwrap().is_unnamed());
    assert!(SocketAddr::new("@a\0b").is_ok());
}

#[test]
fn abstract_names_need_the_platform() {
    assert_eq!(SocketAddr::new_for(b"@a", Platform::Unix).unwrap_err(), AddrError::Unsupported);
    assert_eq!(SocketAddr::new_for(b"\0a", Platform::Other).unwrap_err(), AddrError::Unsupported);
    assert_eq!(
        SocketAddr::new_strict_for(b"@a", Platform::Unix).unwrap_err(),
        AddrError::Unsupported
    );
    assert!(SocketAddr::new_for(b"@a", Platform::Linux).is_ok());
    assert!(SocketAddr::new_for(b"/a", Platform::Unix).is_ok());
    assert!(SocketAddr::new_strict_for(b"/a", Platform::Unix).is_ok());
    assert!(SocketAddr::new_strict_for(b"@a", Platform::Linux).is_ok());
}
