//! What holds of reading and writing addresses, whatever the address.

use vstd::prelude::*;
use vstd::utf8::{decode_utf8_encode_utf8, encode_utf8, valid_utf8};
use crate::ascii::{is_digit, AT, BRACKET_CLOSE, BRACKET_OPEN, COLON, DOT, NUL};
use crate::bytes::{
    cut_at_first, cut_at_last, free_of, lemma_cut_at_first_none, lemma_cut_at_last,
    lemma_cut_at_last_joined,
};
use crate::decimal::{
    all_digits, decimal_text, is_short_form, lemma_decimal_text, lemma_short_form_is_text,
    number_up_to,
};
use crate::grammar::{
    address_of, host_port_of, is_bracketed, is_host_text, unix_uri_prefix, Address,
};
use crate::hostname::{is_host_name, is_label_byte, is_label_list, lemma_label_list_bytes};
use crate::inet::Inet;
use crate::ipv4::{
    ipv4_of, ipv4_text, lemma_ipv4_of_is_text, lemma_ipv4_text_is_read, lemma_ipv4_text_shape,
    octet_of,
};
use crate::hex::is_hex_digit;
use crate::ipv6::{ipv6_text, lemma_ipv6_of_len, lemma_ipv6_text_bytes, lemma_ipv6_text_is_read};
use crate::platform::Platform;
use crate::text::{all_ascii, lemma_ascii_is_shown, lemma_encoded_is_shown, shown};
use crate::unix::{unix_name_of, AddrError, UnixName};
use crate::ParseError;

verus! {

/// The text of a port is read back as that port.
pub proof fn lemma_port_text_is_read(port: u16)
    ensures
        number_up_to(decimal_text(port as nat), 0xffff) == Some(port as nat),
        free_of(decimal_text(port as nat), COLON),
        decimal_text(port as nat).len() >= 1,
{
    lemma_decimal_text(port as nat);
    let t = decimal_text(port as nat);
    assert forall|i: int| 0 <= i < t.len() implies #[trigger] t[i] != COLON by {
        assert(is_digit(t[i]));
    }
}

/// What reads as an IPv4 address is no host name: its last label holds
/// digits only.
pub proof fn lemma_ipv4_is_no_host_name(host: Seq<u8>)
    requires
        ipv4_of(host) is Some,
    ensures
        !is_host_name(host),
{
    let (first, behind_first) = cut_at_first(host, DOT)->0;
    let (second, behind_second) = cut_at_first(behind_first, DOT)->0;
    let (third, fourth) = cut_at_first(behind_second, DOT)->0;
    assert(octet_of(fourth) is Some);
    assert(all_digits(fourth));
    assert(free_of(fourth, DOT)) by {
        assert forall|i: int| 0 <= i < fourth.len() implies #[trigger] fourth[i] != DOT by {
            assert(is_digit(fourth[i]));
        }
    }
    lemma_cut_at_first_none(fourth, DOT);
    assert(!is_label_list(fourth));
    assert(!is_label_list(behind_second));
    assert(!is_label_list(behind_first));
}

/// Digit-leading hosts: text whose host begins with a digit stands for an
/// IPv4 address where the host reads as one, and never for a host name then;
/// where it does not, the text stands for a host name exactly if the host is
/// one.
pub proof fn lemma_digit_leading_host(platform: Platform, text: Seq<u8>, host: Seq<u8>, port: u16)
    requires
        host_port_of(text) == Some((host, port)),
        host.len() > 0,
        is_digit(host[0]),
    ensures
        address_of(platform, text) == match ipv4_of(host) {
            Some(octets) => Ok::<Address, ParseError>(Address::Inet(Inet::V4 { octets, port })),
            None => if is_host_name(host) {
                Ok(Address::Host(text))
            } else {
                Err(ParseError::InvalidHost)
            },
        },
        ipv4_of(host) is Some ==> !is_host_name(host),
{
    lemma_cut_at_last(text, COLON);
    assert(text[0] == host[0]);
    lemma_not_unix_text(text);
    if ipv4_of(host) is Some {
        lemma_ipv4_is_no_host_name(host);
    }
}

/// No text whose host reads as an IPv4 address stands for a host name.
pub proof fn lemma_ipv4_is_never_host(platform: Platform, text: Seq<u8>, host: Seq<u8>, port: u16)
    requires
        host_port_of(text) == Some((host, port)),
        ipv4_of(host) is Some,
    ensures
        !(address_of(platform, text) matches Ok(Address::Host(_))),
{
    lemma_ipv4_is_no_host_name(host);
}

/// What reading text gives is a valid address.
pub proof fn lemma_read_address_is_valid(platform: Platform, text: Seq<u8>)
    ensures
        address_of(platform, text) matches Ok(address) ==> address.is_valid(),
{
    if let Ok(address) = address_of(platform, text) {
        match address {
            Address::Inet(Inet::V4 { octets, .. }) => {
                let (host, _) = host_port_of(text)->0;
                lemma_ipv4_of_is_text(host);
            },
            Address::Inet(Inet::V6 { segments, .. }) => {
                let (host, _) = host_port_of(text)->0;
                if host.len() > 0 && is_digit(host[0]) {
                } else {
                    lemma_ipv6_of_len(host.subrange(1, host.len() - 1));
                }
            },
            Address::Unix(_) => {},
            Address::Host(_) => {},
        }
    }
}

/// Text that begins with a digit or a square bracket does not begin with
/// `unix://`.
proof fn lemma_not_unix_text(text: Seq<u8>)
    requires
        text.len() > 0,
        is_digit(text[0]) || text[0] == BRACKET_OPEN,
    ensures
        !unix_uri_prefix().is_prefix_of(text),
{
    if unix_uri_prefix().is_prefix_of(text) {
        assert(text[0] == text.subrange(0, 7)[0]);
    }
}

/// A host and the text of a port, joined by a colon, are cut into that host
/// and that port.
proof fn lemma_host_port_joined(host: Seq<u8>, port: u16)
    ensures
        host_port_of(host + seq![COLON] + decimal_text(port as nat)) == Some((host, port)),
{
    lemma_port_text_is_read(port);
    lemma_cut_at_last_joined(host, COLON, decimal_text(port as nat));
}

/// The text of an IPv4 socket address is read back as that address.
proof fn lemma_v4_text_is_read_back(platform: Platform, octets: Seq<u8>, port: u16)
    requires
        octets.len() == 4,
    ensures
        address_of(platform, Inet::V4 { octets, port }.text()) == Ok::<Address, ParseError>(
            Address::Inet(Inet::V4 { octets, port }),
        ),
{
    let host = ipv4_text(octets);
    let text = host + seq![COLON] + decimal_text(port as nat);
    assert(host.len() > 0 && is_digit(host[0])) by {
        lemma_ipv4_text_shape(octets);
    }
    assert(text[0] == host[0]);
    lemma_not_unix_text(text);
    lemma_host_port_joined(host, port);
    lemma_ipv4_text_is_read(octets);
}

/// The text of an IPv6 socket address is read back as that address.
proof fn lemma_v6_text_is_read_back(platform: Platform, segments: Seq<u16>, port: u16)
    requires
        segments.len() == 8,
    ensures
        address_of(platform, Inet::V6 { segments, port }.text()) == Ok::<Address, ParseError>(
            Address::Inet(Inet::V6 { segments, port }),
        ),
{
    let inner = ipv6_text(segments);
    let host = seq![BRACKET_OPEN] + inner + seq![BRACKET_CLOSE];
    let text = Inet::V6 { segments, port }.text();
    assert(text =~= host + seq![COLON] + decimal_text(port as nat));
    assert(text[0] == BRACKET_OPEN);
    lemma_not_unix_text(text);
    lemma_host_port_joined(host, port);
    assert(host.subrange(1, host.len() - 1) =~= inner);
    assert(is_bracketed(host));
    lemma_ipv6_text_is_read(segments);
}

/// The text of a host name with a port is read back as what it is.
proof fn lemma_host_text_is_read_back(platform: Platform, text: Seq<u8>)
    requires
        is_host_text(text),
    ensures
        address_of(platform, text) == Ok::<Address, ParseError>(Address::Host(text)),
{
    let (host, port) = host_port_of(text)->0;
    let (_, port_text) = cut_at_last(text, COLON)->0;
    lemma_cut_at_last(text, COLON);
    lemma_label_list_bytes(host);
    assert(text =~= host + seq![COLON] + port_text);
    assert(!unix_uri_prefix().is_prefix_of(text)) by {
        if unix_uri_prefix().is_prefix_of(text) {
            let p = text.subrange(0, 7);
            assert(text[4] == p[4]);
            assert(text[5] == p[5]);
            if host.len() > 4 {
                assert(host[4] == text[4]);
                assert(is_label_byte(host[4]) || host[4] == DOT);
            } else if host.len() == 4 {
                assert(port_text[0] == text[5]);
                assert(is_digit(port_text[0]));
            } else {
                assert(text[4] == port_text[3 - host.len()]);
            }
        }
    }
    if is_digit(host[0]) {
        if ipv4_of(host) is Some {
            lemma_ipv4_is_no_host_name(host);
        }
    }
}

/// The text of a Unix-domain address is read back as that address.
proof fn lemma_unix_text_is_read_back(platform: Platform, name: UnixName)
    requires
        name.is_valid(),
        platform.has_unix_sockets(),
        name is Abstract ==> platform.has_abstract_names(),
        name matches UnixName::Pathname(path) ==> path[0] != AT,
    ensures
        address_of(platform, Address::Unix(name).text()) == Ok::<Address, ParseError>(
            Address::Unix(name),
        ),
{
    let prefix = unix_uri_prefix();
    let text = Address::Unix(name).text();
    match name {
        UnixName::Abstract(bytes) => {
            assert(text.subrange(0, 7) =~= prefix);
            assert(text.skip(7) =~= seq![AT] + bytes);
            assert(text.skip(7).skip(1) =~= bytes);
        },
        UnixName::Pathname(path) => {
            assert(text.subrange(0, 7) =~= prefix);
            assert(text.skip(7) =~= path);
            assert(path[0] != NUL) by {
                if path[0] == NUL {
                    assert(path.contains(NUL));
                }
            }
        },
        UnixName::Unnamed => {
            assert(text.subrange(0, 7) =~= prefix);
            assert(text.skip(7) =~= Seq::<u8>::empty());
            assert(!Seq::<u8>::empty().contains(NUL));
        },
    }
}

/// The text of an Internet address or of a host name with a port is ASCII.
pub proof fn lemma_text_is_ascii(address: Address)
    requires
        address.is_valid(),
        !(address is Unix),
    ensures
        all_ascii(address.text()),
        valid_utf8(address.text()),
{
    let text = address.text();
    match address {
        Address::Inet(Inet::V4 { octets, port }) => {
            let host = ipv4_text(octets);
            let port_text = decimal_text(port as nat);
            lemma_ipv4_text_shape(octets);
            lemma_decimal_text(port as nat);
            assert forall|i: int| 0 <= i < text.len() implies #[trigger] text[i] < 128 by {
                if i < host.len() {
                    assert(text[i] == host[i]);
                    assert(is_digit(host[i]) || host[i] == DOT);
                } else if i > host.len() {
                    assert(text[i] == port_text[i - host.len() - 1]);
                    assert(is_digit(port_text[i - host.len() - 1]));
                }
            }
        },
        Address::Inet(Inet::V6 { segments, port }) => {
            let inner = ipv6_text(segments);
            let port_text = decimal_text(port as nat);
            lemma_ipv6_text_bytes(segments);
            lemma_decimal_text(port as nat);
            assert forall|i: int| 0 <= i < text.len() implies #[trigger] text[i] < 128 by {
                if 1 <= i <= inner.len() {
                    assert(text[i] == inner[i - 1]);
                    assert(is_hex_digit(inner[i - 1]) || inner[i - 1] == COLON || inner[i - 1]
                        == DOT);
                } else if i > inner.len() + 2 {
                    assert(text[i] == port_text[i - inner.len() - 3]);
                    assert(is_digit(port_text[i - inner.len() - 3]));
                }
            }
        },
        Address::Host(_) => {
            let (host, port) = host_port_of(text)->0;
            let (_, port_text) = cut_at_last(text, COLON)->0;
            lemma_cut_at_last(text, COLON);
            lemma_label_list_bytes(host);
            assert(text =~= host + seq![COLON] + port_text);
            assert forall|i: int| 0 <= i < text.len() implies #[trigger] text[i] < 128 by {
                if i < host.len() {
                    assert(text[i] == host[i]);
                    assert(is_label_byte(host[i]) || host[i] == DOT);
                } else if i > host.len() {
                    assert(text[i] == port_text[i - host.len() - 1]);
                    assert(is_digit(port_text[i - host.len() - 1]));
                }
            }
        },
        Address::Unix(_) => {},
    }
    lemma_ascii_is_shown(text);
}

/// Whether reading the text of `address` on `platform` can give it back: the
/// platform has addresses of its kind, and a path does not begin with `@`,
/// which would make an abstract name of it.
pub open spec fn is_readable_on(platform: Platform, address: Address) -> bool {
    match address {
        Address::Unix(UnixName::Abstract(_)) => platform.has_abstract_names(),
        Address::Unix(UnixName::Pathname(path)) => platform.has_unix_sockets() && path[0] != AT,
        Address::Unix(UnixName::Unnamed) => platform.has_unix_sockets(),
        _ => true,
    }
}

/// Reading the text of an address gives that address back.
///
/// This holds of the bytes of the text, and of the string that they are
/// shown as wherever they are UTF-8, which the text of an Internet address
/// and of a host name always is.
pub proof fn lemma_text_is_read_back(platform: Platform, address: Address)
    requires
        address.is_valid(),
        is_readable_on(platform, address),
    ensures
        address_of(platform, address.text()) == Ok::<Address, ParseError>(address),
        valid_utf8(address.text()) ==> address_of(platform, encode_utf8(shown(address.text())))
            == Ok::<Address, ParseError>(address),
        !(address is Unix) ==> valid_utf8(address.text()),
{
    match address {
        Address::Inet(Inet::V4 { octets, port }) => {
            lemma_v4_text_is_read_back(platform, octets, port);
        },
        Address::Inet(Inet::V6 { segments, port }) => {
            lemma_v6_text_is_read_back(platform, segments, port);
        },
        Address::Unix(name) => {
            lemma_unix_text_is_read_back(platform, name);
        },
        Address::Host(text) => {
            lemma_host_text_is_read_back(platform, text);
        },
    }
    if !(address is Unix) {
        lemma_text_is_ascii(address);
    }
    if valid_utf8(address.text()) {
        decode_utf8_encode_utf8(address.text());
    }
}

/// Whether `text`, which stands for `address`, is written the way an
/// address is written: a port without needless zeros, an IPv6 address in its
/// one written form, an abstract name marked by `@` and not by NUL.
pub open spec fn is_written_form(text: Seq<u8>, address: Address) -> bool {
    match address {
        Address::Inet(inet) => match cut_at_last(text, COLON) {
            Some((host, port)) => is_short_form(port) && (inet matches Inet::V6 { segments, .. }
                ==> host == seq![BRACKET_OPEN] + ipv6_text(segments) + seq![BRACKET_CLOSE]),
            None => false,
        },
        Address::Unix(UnixName::Abstract(_)) => text.len() > 7 && text[7] == AT,
        _ => true,
    }
}

/// Text that was read as an Internet address, with a port in short form
/// and, for IPv6, the address in its written form, is what is written for
/// that address.
proof fn lemma_inet_text_is_written_back(text: Seq<u8>, host: Seq<u8>, port_text: Seq<u8>, inet: Inet)
    requires
        cut_at_last(text, COLON) == Some((host, port_text)),
        is_short_form(port_text),
        number_up_to(port_text, 0xffff) == Some(inet.port() as nat),
        inet matches Inet::V4 { octets, .. } ==> ipv4_of(host) == Some(octets),
        inet matches Inet::V6 { segments, .. } ==> host == seq![BRACKET_OPEN] + ipv6_text(segments)
            + seq![BRACKET_CLOSE],
    ensures
        inet.text() == text,
{
    lemma_cut_at_last(text, COLON);
    lemma_short_form_is_text(port_text);
    match inet {
        Inet::V4 { octets, port } => {
            lemma_ipv4_of_is_text(host);
        },
        Inet::V6 { segments, port } => {
            assert(inet.text() =~= host + seq![COLON] + port_text);
        },
    }
}

/// Text that was read as a Unix-domain address, an abstract name marked by
/// `@`, is what is written for that address.
proof fn lemma_unix_text_is_written_back(platform: Platform, text: Seq<u8>, name: UnixName)
    requires
        unix_uri_prefix().is_prefix_of(text),
        unix_name_of(platform, text.skip(7), false) == Ok::<UnixName, AddrError>(name),
        name is Abstract ==> text.len() > 7 && text[7] == AT,
    ensures
        Address::Unix(name).text() == text,
{
    let rest = text.skip(7);
    assert(text =~= unix_uri_prefix() + rest);
    match name {
        UnixName::Abstract(bytes) => {
            assert(rest =~= seq![AT] + bytes);
            assert(Address::Unix(name).text() =~= text);
        },
        UnixName::Pathname(path) => {},
        UnixName::Unnamed => {
            assert(rest =~= Seq::<u8>::empty());
            assert(Address::Unix(name).text() =~= text);
        },
    }
}

/// Writing the address that text was read as gives that text back, byte for
/// byte, where the text is in written form.
///
/// It holds of the string that the text is the bytes of as well. Host
/// names, IPv4 addresses and path names have one form only, so that for them
/// nothing is asked but a port without needless zeros.
pub proof fn lemma_read_text_is_written_back(platform: Platform, text: Seq<u8>, address: Address)
    requires
        address_of(platform, text) == Ok::<Address, ParseError>(address),
        is_written_form(text, address),
    ensures
        address.text() == text,
        forall|chars: Seq<char>| #[trigger]
            encode_utf8(chars) == text ==> shown(address.text()) == chars,
{
    match address {
        Address::Inet(inet) => {
            let (host, port_text) = cut_at_last(text, COLON)->0;
            lemma_inet_text_is_written_back(text, host, port_text, inet);
        },
        Address::Unix(name) => {
            lemma_unix_text_is_written_back(platform, text, name);
        },
        Address::Host(_) => {},
    }
    assert forall|chars: Seq<char>| #[trigger] encode_utf8(chars) == text implies shown(
        address.text(),
    ) == chars by {
        lemma_encoded_is_shown(chars);
    }
}

} // verus!
