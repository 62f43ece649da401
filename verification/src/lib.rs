//! A unified socket address: an Internet address with a port, a Unix-domain
//! address, or a host name with a port that is still to be resolved.

use vstd::prelude::*;
use vstd::slice::slice_subrange;
use vstd::string::{StringExecFns, StringSliceAdditionalSpecFns};
use vstd::utf8::{encode_utf8, encode_utf8_decode_utf8};
use crate::ascii::{digit, AT, BRACKET_CLOSE, BRACKET_OPEN, COLON};
use crate::bytes::{has_prefix, split_last};
use crate::decimal::parse_number;
use crate::grammar::{address_of, host_address_of, host_port_of, unix_uri_prefix, Address};
use crate::hostname::validate_host_name;
use crate::ipv4::Ipv4Addr;
use crate::ipv6::Ipv6Addr;
use crate::platform::Platform;
use crate::text::{decode_lossy, lemma_encoded_is_shown, shown};

pub mod ascii;
pub mod bytes;
pub mod decimal;
pub mod grammar;
pub mod hex;
pub mod hostname;
pub mod inet;
pub mod ipv4;
pub mod ipv6;
pub mod laws;
pub mod native;
pub mod platform;
pub mod text;
pub mod unix;

verus! {

/// What stands in front of a Unix-domain address in the text of a unified
/// address: `unix:///run/some.socket` is a path name,
/// `unix://@some.name` an abstract name.
pub const UNIX_URI_PREFIX: &'static str = "unix://";

/// Why text was not taken as an address.
#[derive(Clone, Copy, Debug, PartialEq, Eq, Structural)]
pub enum ParseError {
    /// The text is empty.
    Empty,
    /// The host is neither an IP address nor a host name.
    InvalidHost,
    /// There is no port, or it is no number from 0 to 65535.
    InvalidPort,
    /// What stands behind `unix://` is no Unix-domain address.
    InvalidUDSAddress(unix::AddrError),
    /// The target has no addresses of this kind.
    Unsupported,
}

impl ParseError {
    /// What the error says.
    pub open spec fn message_text(self) -> Seq<char> {
        match self {
            ParseError::Empty => "empty address string"@,
            ParseError::InvalidHost => "invalid or missing host address"@,
            ParseError::InvalidPort => "invalid or missing port"@,
            ParseError::InvalidUDSAddress(e) => "invalid UDS address: "@ + e.message_text(),
            ParseError::Unsupported => "unsupported address type on this platform"@,
        }
    }

    /// What the error says.
    pub fn message(&self) -> (r: String)
        ensures
            r@ == self.message_text(),
    {
        match self {
            ParseError::Empty => "empty address string".to_owned(),
            ParseError::InvalidHost => "invalid or missing host address".to_owned(),
            ParseError::InvalidPort => "invalid or missing port".to_owned(),
            ParseError::InvalidUDSAddress(e) => {
                let mut text = "invalid UDS address: ".to_owned();
                text.append(e.message());
                text
            },
            ParseError::Unsupported => "unsupported address type on this platform".to_owned(),
        }
    }

    /// The error of the Unix-domain address that lies under this one.
    pub fn source(&self) -> (r: Option<unix::AddrError>)
        ensures
            r == match *self {
                ParseError::InvalidUDSAddress(e) => Some(e),
                _ => None,
            },
    {
        match self {
            ParseError::InvalidUDSAddress(e) => Some(*e),
            _ => None,
        }
    }
}

/// The bytes of `unix://`.
fn unix_uri_prefix_bytes() -> (r: &'static [u8])
    ensures
        r@ == unix_uri_prefix(),
{
    proof {
        reveal_strlit("unix://");
        vstd::string::is_ascii_spec_bytes(UNIX_URI_PREFIX);
    }
    assert(UNIX_URI_PREFIX.spec_bytes() =~= unix_uri_prefix());
    UNIX_URI_PREFIX.as_bytes()
}

/// Cuts `text` at its last colon into a host and a port.
fn split_host_port(text: &[u8]) -> (r: Option<(&[u8], u16)>)
    ensures
        match r {
            Some((host, port)) => host_port_of(text@) == Some((host@, port)),
            None => host_port_of(text@) is None,
        },
{
    match split_last(text, COLON) {
        Some((host, port)) => match parse_number(port, 0xffff) {
            Some(n) => Some((host, n as u16)),
            None => None,
        },
        None => None,
    }
}

/// The three kinds of unified address, open to pattern matching. An address
/// that is known to be valid is a [`UniAddr`].
#[non_exhaustive]
#[derive(Debug, Hash)]
pub enum UniAddrInner {
    /// An Internet address and a port.
    Inet(inet::SocketAddr),
    /// A Unix-domain address.
    Unix(unix::SocketAddr),
    /// A host name and a port, as the text they were given in.
    Host(String),
}

impl View for UniAddrInner {
    type V = Address;

    open spec fn view(&self) -> Address {
        match self {
            UniAddrInner::Inet(addr) => Address::Inet(addr@),
            UniAddrInner::Unix(addr) => Address::Unix(addr@),
            UniAddrInner::Host(text) => Address::Host(encode_utf8(text@)),
        }
    }
}

impl UniAddrInner {
    /// The text of the address; bytes of a Unix-domain address that are not
    /// UTF-8 are shown lossily.
    pub fn to_str(&self) -> (r: String)
        ensures
            r@ == shown(self@.text()),
    {
        match self {
            UniAddrInner::Inet(addr) => {
                let mut out: Vec<u8> = Vec::new();
                addr.write(&mut out);
                assert(out@ =~= self@.text());
                decode_lossy(out.as_slice())
            },
            UniAddrInner::Unix(addr) => {
                let marker: [u8; 1] = [AT];
                assert(marker@ =~= seq![AT]);
                let out = addr.to_os_string_impl(unix_uri_prefix_bytes(), marker.as_slice());
                decode_lossy(out.as_slice())
            },
            UniAddrInner::Host(text) => {
                proof {
                    lemma_encoded_is_shown(text@);
                }
                text.clone()
            },
        }
    }
}

impl Clone for UniAddrInner {
    fn clone(&self) -> (r: Self)
        ensures
            r@ == self@,
    {
        match self {
            UniAddrInner::Inet(addr) => UniAddrInner::Inet(*addr),
            UniAddrInner::Unix(addr) => UniAddrInner::Unix(addr.clone()),
            UniAddrInner::Host(text) => UniAddrInner::Host(text.clone()),
        }
    }
}

impl PartialEq for UniAddrInner {
    fn eq(&self, other: &Self) -> (r: bool) {
        match (self, other) {
            (UniAddrInner::Inet(a), UniAddrInner::Inet(b)) => a.eq(b),
            (UniAddrInner::Unix(a), UniAddrInner::Unix(b)) => a.eq(b),
            (UniAddrInner::Host(a), UniAddrInner::Host(b)) => {
                proof {
                    encode_utf8_decode_utf8(a@);
                    encode_utf8_decode_utf8(b@);
                }
                a.eq(b)
            },
            _ => false,
        }
    }
}

impl Eq for UniAddrInner {

}

impl vstd::std_specs::cmp::PartialEqSpecImpl for UniAddrInner {
    open spec fn obeys_eq_spec() -> bool {
        true
    }

    open spec fn eq_spec(&self, other: &Self) -> bool {
        self@ == other@
    }
}

/// A unified address: an Internet address with a port, a Unix-domain
/// address, or a host name with a port.
///
/// Every value is valid: it is one that reading text can give.
#[derive(Debug, Hash)]
pub struct UniAddr {
    inner: UniAddrInner,
}

impl View for UniAddr {
    type V = Address;

    closed spec fn view(&self) -> Address {
        self.inner@
    }
}

impl UniAddr {
    /// Every address is valid: a host name with a port is kept only where
    /// its host is a host name, and a Unix-domain address only where the
    /// operating system can hold it.
    #[verifier::type_invariant]
    pub closed spec fn inv(self) -> bool {
        self@.is_valid()
    }

    /// The address that is `inner`.
    pub closed spec fn of_inner(inner: UniAddrInner) -> Self {
        UniAddr { inner }
    }

    /// Makes known that the address is valid.
    pub fn valid(&self)
        ensures
            self@.is_valid(),
    {
        proof {
            use_type_invariant(self);
        }
    }

    /// What the address is: one of the three kinds.
    pub fn as_inner(&self) -> (r: &UniAddrInner)
        ensures
            r@ == self@,
    {
        &self.inner
    }

    /// Reads an address from its text, as a Linux target takes it, where
    /// every kind of address is at hand.
    pub fn new(addr: &str) -> (r: Result<Self, ParseError>)
        ensures
            match address_of(Platform::Linux, addr.spec_bytes()) {
                Ok(address) => r is Ok && r->Ok_0@ == address,
                Err(e) => r == Err::<Self, ParseError>(e),
            },
    {
        Self::new_for(addr, Platform::Linux)
    }

    /// Reads an address from its text, as `platform` takes it.
    pub fn new_for(addr: &str, platform: Platform) -> (r: Result<Self, ParseError>)
        ensures
            match address_of(platform, addr.spec_bytes()) {
                Ok(address) => r is Ok && r->Ok_0@ == address,
                Err(e) => r == Err::<Self, ParseError>(e),
            },
    {
        let text = addr.as_bytes();
        if text.len() == 0 {
            return Err(ParseError::Empty);
        }
        if has_prefix(text, unix_uri_prefix_bytes()) {
            if !platform.unix_sockets() {
                return Err(ParseError::Unsupported);
            }
            let rest = slice_subrange(text, 7, text.len());
            return match unix::SocketAddr::new_for(rest, platform) {
                Ok(unix_addr) => {
                    unix_addr.valid();
                    Ok(UniAddr { inner: UniAddrInner::Unix(unix_addr) })
                },
                Err(e) => Err(ParseError::InvalidUDSAddress(e)),
            };
        }
        let (host, port) = match split_host_port(text) {
            Some(cut) => cut,
            None => {
                return Err(ParseError::InvalidPort);
            },
        };
        if host.len() > 0 && digit(host[0]) {
            return match Ipv4Addr::parse(host) {
                Some(ip) => {
                    proof {
                        ip.lemma_len();
                    }
                    Ok(UniAddr { inner: UniAddrInner::Inet(inet::SocketAddr::V4(ip, port)) })
                },
                None => Self::host_with_port(addr, host),
            };
        }
        if host.len() >= 2 && host[0] == BRACKET_OPEN && host[host.len() - 1] == BRACKET_CLOSE {
            return match Ipv6Addr::parse(slice_subrange(host, 1, host.len() - 1)) {
                Some(ip) => {
                    proof {
                        ip.lemma_len();
                    }
                    Ok(UniAddr { inner: UniAddrInner::Inet(inet::SocketAddr::V6(ip, port)) })
                },
                None => Err(ParseError::InvalidHost),
            };
        }
        Self::host_with_port(addr, host)
    }

    /// Takes `addr` as a host name and a port, where `host` is what stands
    /// in it before the port.
    fn host_with_port(addr: &str, host: &[u8]) -> (r: Result<Self, ParseError>)
        requires
            host_port_of(addr.spec_bytes()) matches Some((h, _)) && h == host@,
        ensures
            match host_address_of(addr.spec_bytes(), host@) {
                Ok(address) => r is Ok && r->Ok_0@ == address,
                Err(e) => r == Err::<Self, ParseError>(e),
            },
    {
        match validate_host_name(host) {
            Ok(()) => Ok(UniAddr { inner: UniAddrInner::Host(addr.to_owned()) }),
            Err(()) => Err(ParseError::InvalidHost),
        }
    }

    /// Reads a host name and a port, such as `example.com:8080`.
    ///
    /// `parsed` is for a caller that has cut `addr` into host and port
    /// already. It decides nothing: the host name is looked for in `addr`
    /// itself, so that the address that results is the one that `addr`
    /// stands for.
    pub fn new_host(addr: &str, parsed: Option<(&str, u16)>) -> (r: Result<Self, ParseError>)
        ensures
            match host_port_of(addr.spec_bytes()) {
                Some((host, _)) => match host_address_of(addr.spec_bytes(), host) {
                    Ok(address) => r is Ok && r->Ok_0@ == address,
                    Err(e) => r == Err::<Self, ParseError>(e),
                },
                None => r == Err::<Self, ParseError>(ParseError::InvalidPort),
            },
    {
        let _ = parsed;
        match split_host_port(addr.as_bytes()) {
            Some((host, _)) => Self::host_with_port(addr, host),
            None => Err(ParseError::InvalidPort),
        }
    }

    /// The text of the address; bytes of a Unix-domain address that are not
    /// UTF-8 are shown lossily.
    pub fn to_str(&self) -> (r: String)
        ensures
            r@ == shown(self@.text()),
    {
        self.inner.to_str()
    }
}

impl Clone for UniAddr {
    fn clone(&self) -> (r: Self)
        ensures
            r@ == self@,
    {
        proof {
            use_type_invariant(self);
        }
        UniAddr { inner: self.inner.clone() }
    }
}

impl PartialEq for UniAddr {
    fn eq(&self, other: &Self) -> (r: bool) {
        self.inner.eq(&other.inner)
    }
}

impl Eq for UniAddr {

}

impl vstd::std_specs::cmp::PartialEqSpecImpl for UniAddr {
    open spec fn obeys_eq_spec() -> bool {
        true
    }

    open spec fn eq_spec(&self, other: &Self) -> bool {
        self@ == other@
    }
}

impl From<inet::SocketAddr> for UniAddr {
    fn from(addr: inet::SocketAddr) -> (r: Self)
        ensures
            r@ == Address::Inet(addr@),
    {
        proof {
            addr.lemma_valid();
        }
        UniAddr { inner: UniAddrInner::Inet(addr) }
    }
}

impl vstd::std_specs::convert::FromSpecImpl<inet::SocketAddr> for UniAddr {
    open spec fn obeys_from_spec() -> bool {
        true
    }

    open spec fn from_spec(addr: inet::SocketAddr) -> Self {
        UniAddr::of_inner(UniAddrInner::Inet(addr))
    }
}

impl vstd::std_specs::convert::FromSpecImpl<unix::SocketAddr> for UniAddr {
    open spec fn obeys_from_spec() -> bool {
        true
    }

    open spec fn from_spec(addr: unix::SocketAddr) -> Self {
        UniAddr::of_inner(UniAddrInner::Unix(addr))
    }
}

impl From<unix::SocketAddr> for UniAddr {
    fn from(addr: unix::SocketAddr) -> (r: Self)
        ensures
            r@ == Address::Unix(addr@),
    {
        addr.valid();
        UniAddr { inner: UniAddrInner::Unix(addr) }
    }
}

impl core::str::FromStr for UniAddr {
    type Err = ParseError;

    fn from_str(addr: &str) -> (r: Result<Self, ParseError>)
        ensures
            match address_of(Platform::Linux, addr.spec_bytes()) {
                Ok(address) => r is Ok && r->Ok_0@ == address,
                Err(e) => r == Err::<Self, ParseError>(e),
            },
    {
        Self::new(addr)
    }
}

} // verus!
