//! The grammar of address text: which address each text stands for, and
//! which text is written for each address.
//!
//! ```text
//! address    := unix_addr | bracket_v6 | v4_literal | host_port
//! unix_addr  := "unix://" ("@" name | path)
//! bracket_v6 := "[" ipv6-literal "]" ":" port
//! v4_literal := ipv4-literal ":" port
//! host_port  := hostname ":" port
//! port       := 0..65535, in decimal, without a sign
//! ```

use vstd::prelude::*;
use crate::ascii::{is_digit, AT, BRACKET_CLOSE, BRACKET_OPEN, COLON, SLASH};
use crate::bytes::cut_at_last;
use crate::decimal::number_up_to;
use crate::hostname::is_host_name;
use crate::inet::Inet;
use crate::ipv4::ipv4_of;
use crate::ipv6::ipv6_of;
use crate::platform::Platform;
use crate::unix::{unix_name_of, UnixName};
use crate::ParseError;

verus! {

/// What a unified address is.
pub enum Address {
    /// An Internet address and a port.
    Inet(Inet),
    /// A Unix-domain address.
    Unix(UnixName),
    /// A host name and a port, kept as the text they were given in.
    Host(Seq<u8>),
}

/// The bytes of `unix://`.
pub open spec fn unix_uri_prefix() -> Seq<u8> {
    seq![0x75u8, 0x6eu8, 0x69u8, 0x78u8, COLON, SLASH, SLASH]
}

/// `text` cut at its last colon into a host and a port from 0 to 65535.
pub open spec fn host_port_of(text: Seq<u8>) -> Option<(Seq<u8>, u16)> {
    match cut_at_last(text, COLON) {
        Some((host, port)) => match number_up_to(port, 0xffff) {
            Some(n) => Some((host, n as u16)),
            None => None,
        },
        None => None,
    }
}

/// Whether `text` is a host name, a colon and a port.
pub open spec fn is_host_text(text: Seq<u8>) -> bool {
    match host_port_of(text) {
        Some((host, _)) => is_host_name(host),
        None => false,
    }
}

/// Whether `host` stands in square brackets.
pub open spec fn is_bracketed(host: Seq<u8>) -> bool {
    host.len() >= 2 && host[0] == BRACKET_OPEN && host.last() == BRACKET_CLOSE
}

/// The address that `text` stands for where its part before the port,
/// `host`, is to be a host name.
pub open spec fn host_address_of(text: Seq<u8>, host: Seq<u8>) -> Result<Address, ParseError> {
    if is_host_name(host) {
        Ok(Address::Host(text))
    } else {
        Err(ParseError::InvalidHost)
    }
}

/// The address that `text` stands for on `platform`.
///
/// Empty text stands for none. Text behind `unix://` is a Unix-domain
/// address. Any other text is cut at its last colon into a host and a port.
/// A host that begins with a digit is an IPv4 address where it reads as one,
/// and else a host name, since a host name may begin with a digit too. A
/// host in square brackets is an IPv6 address and nothing else. Any other
/// host is a host name.
pub open spec fn address_of(platform: Platform, text: Seq<u8>) -> Result<Address, ParseError> {
    if text.len() == 0 {
        Err(ParseError::Empty)
    } else if unix_uri_prefix().is_prefix_of(text) {
        if platform.has_unix_sockets() {
            match unix_name_of(platform, text.skip(7), false) {
                Ok(name) => Ok(Address::Unix(name)),
                Err(e) => Err(ParseError::InvalidUDSAddress(e)),
            }
        } else {
            Err(ParseError::Unsupported)
        }
    } else {
        match host_port_of(text) {
            Some((host, port)) => if host.len() > 0 && is_digit(host[0]) {
                match ipv4_of(host) {
                    Some(octets) => Ok(Address::Inet(Inet::V4 { octets, port })),
                    None => host_address_of(text, host),
                }
            } else if is_bracketed(host) {
                match ipv6_of(host.subrange(1, host.len() - 1)) {
                    Some(segments) => Ok(Address::Inet(Inet::V6 { segments, port })),
                    None => Err(ParseError::InvalidHost),
                }
            } else {
                host_address_of(text, host)
            },
            None => Err(ParseError::InvalidPort),
        }
    }
}

impl Address {
    /// Whether the address is one that reading text can give.
    pub open spec fn is_valid(self) -> bool {
        match self {
            Address::Inet(inet) => inet.is_valid(),
            Address::Unix(name) => name.is_valid(),
            Address::Host(text) => is_host_text(text),
        }
    }

    /// The text of the address: a Unix-domain address behind `unix://`, its
    /// abstract name marked by `@`; a host name as it was given.
    pub open spec fn text(self) -> Seq<u8> {
        match self {
            Address::Inet(inet) => inet.text(),
            Address::Unix(name) => name.text(unix_uri_prefix(), seq![AT]),
            Address::Host(text) => text,
        }
    }
}

} // verus!
