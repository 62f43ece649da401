//! Internet socket addresses: an IP address and a port.
//!
//! The text of an IPv4 socket address is the dotted address, a colon and the
//! port; that of an IPv6 socket address has the address in square brackets.

use vstd::prelude::*;
use crate::ascii::{BRACKET_CLOSE, BRACKET_OPEN, COLON};
use crate::decimal::{decimal_text, push_decimal};
use crate::ipv4::{ipv4_text, Ipv4Addr};
use crate::ipv6::{ipv6_text, Ipv6Addr};

verus! {

/// What an Internet socket address is.
pub enum Inet {
    /// Four octets and a port.
    V4 { octets: Seq<u8>, port: u16 },
    /// Eight groups and a port.
    V6 { segments: Seq<u16>, port: u16 },
}

impl Inet {
    /// Whether the address has as many octets or groups as its family asks.
    pub open spec fn is_valid(self) -> bool {
        match self {
            Inet::V4 { octets, .. } => octets.len() == 4,
            Inet::V6 { segments, .. } => segments.len() == 8,
        }
    }

    /// The port.
    pub open spec fn port(self) -> u16 {
        match self {
            Inet::V4 { port, .. } => port,
            Inet::V6 { port, .. } => port,
        }
    }

    /// The text of the address.
    pub open spec fn text(self) -> Seq<u8> {
        match self {
            Inet::V4 { octets, port } => ipv4_text(octets) + seq![COLON] + decimal_text(
                port as nat,
            ),
            Inet::V6 { segments, port } => seq![BRACKET_OPEN] + ipv6_text(segments) + seq![
                BRACKET_CLOSE,
                COLON,
            ] + decimal_text(port as nat),
        }
    }
}

/// An Internet socket address.
#[derive(Clone, Copy, Debug, Hash)]
pub enum SocketAddr {
    /// An IPv4 address and a port.
    V4(Ipv4Addr, u16),
    /// An IPv6 address and a port.
    V6(Ipv6Addr, u16),
}

impl View for SocketAddr {
    type V = Inet;

    open spec fn view(&self) -> Inet {
        match *self {
            SocketAddr::V4(ip, port) => Inet::V4 { octets: ip@, port },
            SocketAddr::V6(ip, port) => Inet::V6 { segments: ip@, port },
        }
    }
}

impl SocketAddr {
    /// The port.
    pub fn port(&self) -> (r: u16)
        ensures
            r == self@.port(),
    {
        match self {
            SocketAddr::V4(_, port) => *port,
            SocketAddr::V6(_, port) => *port,
        }
    }

    /// Every address has as many octets or groups as its family asks.
    pub proof fn lemma_valid(self)
        ensures
            self@.is_valid(),
    {
        match self {
            SocketAddr::V4(ip, _) => ip.lemma_len(),
            SocketAddr::V6(ip, _) => ip.lemma_len(),
        }
    }

    /// Writes the text of the address behind what `out` holds.
    pub fn write(&self, out: &mut Vec<u8>)
        ensures
            final(out)@ == old(out)@ + self@.text(),
    {
        match self {
            SocketAddr::V4(ip, port) => {
                ip.write(out);
                out.push(COLON);
                push_decimal(out, *port as u32);
            },
            SocketAddr::V6(ip, port) => {
                out.push(BRACKET_OPEN);
                ip.write(out);
                out.push(BRACKET_CLOSE);
                out.push(COLON);
                push_decimal(out, *port as u32);
            },
        }
        assert(final(out)@ =~= old(out)@ + self@.text());
    }
}

impl PartialEq for SocketAddr {
    fn eq(&self, other: &Self) -> (r: bool) {
        match (self, other) {
            (SocketAddr::V4(a, p), SocketAddr::V4(b, q)) => a == b && *p == *q,
            (SocketAddr::V6(a, p), SocketAddr::V6(b, q)) => a == b && *p == *q,
            _ => false,
        }
    }
}

impl Eq for SocketAddr {

}

impl vstd::std_specs::cmp::PartialEqSpecImpl for SocketAddr {
    open spec fn obeys_eq_spec() -> bool {
        true
    }

    open spec fn eq_spec(&self, other: &Self) -> bool {
        self@ == other@
    }
}

} // verus!
