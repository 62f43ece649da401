//! Unified addresses and the socket addresses of an operating system.
//!
//! An operating system holds an Internet address with its port, or, for a
//! Unix-domain socket, the bytes of a path field: none for the unnamed
//! address, an abstract name behind a NUL byte, and else a path. A host name
//! is no socket address before it is resolved.

use vstd::prelude::*;
use crate::ascii::NUL;
use crate::grammar::Address;
use crate::inet;
use crate::inet::Inet;
use crate::unix;
use crate::unix::{lemma_os_string_round_trip, unix_name_of_os_string, AddrError};
use crate::{UniAddr, UniAddrInner};

verus! {

/// What a socket address of the operating system is.
pub enum Native {
    /// An Internet address and a port.
    Inet(Inet),
    /// The path field of a Unix-domain address.
    Unix(Seq<u8>),
    /// An address of another family.
    Other,
}

/// A socket address as the operating system holds it.
#[derive(Debug)]
pub enum NativeAddr {
    /// An Internet address and a port.
    Inet(inet::SocketAddr),
    /// The path field of a Unix-domain address.
    Unix(Vec<u8>),
    /// An address of another family.
    Other,
}

impl View for NativeAddr {
    type V = Native;

    open spec fn view(&self) -> Native {
        match self {
            NativeAddr::Inet(addr) => Native::Inet(addr@),
            NativeAddr::Unix(path) => Native::Unix(path@),
            NativeAddr::Other => Native::Other,
        }
    }
}

/// Why a unified address and a socket address did not go over into each
/// other.
#[derive(Clone, Copy, Debug, PartialEq, Eq, Structural)]
pub enum NativeError {
    /// A host name is to be resolved before it is a socket address.
    Unresolved,
    /// The socket address is neither an Internet nor a Unix-domain address.
    UnsupportedFamily,
    /// The path field holds no Unix-domain address.
    InvalidUnix(AddrError),
}

/// The socket address that `address` is.
pub open spec fn native_of(address: Address) -> Result<Native, NativeError> {
    match address {
        Address::Inet(inet) => Ok(Native::Inet(inet)),
        Address::Unix(name) => Ok(Native::Unix(name.text(Seq::empty(), seq![NUL]))),
        Address::Host(_) => Err(NativeError::Unresolved),
    }
}

/// The unified address that `native` is.
pub open spec fn address_of_native(native: Native) -> Result<Address, NativeError> {
    match native {
        Native::Inet(inet) => Ok(Address::Inet(inet)),
        Native::Unix(path) => match unix_name_of_os_string(path) {
            Ok(name) => Ok(Address::Unix(name)),
            Err(e) => Err(NativeError::InvalidUnix(e)),
        },
        Native::Other => Err(NativeError::UnsupportedFamily),
    }
}

/// The socket address of a valid address goes back into that address, and
/// the address of a socket address goes back into that socket address.
pub proof fn lemma_native_round_trip(address: Address, native: Native)
    ensures
        address.is_valid() ==> (native_of(address) matches Ok(n) ==> address_of_native(n) == Ok::<
            Address,
            NativeError,
        >(address)),
        address_of_native(native) matches Ok(a) ==> native_of(a) == Ok::<Native, NativeError>(
            native,
        ),
{
    if let Address::Unix(name) = address {
        lemma_os_string_round_trip(name, Seq::empty());
    }
    if let Native::Unix(path) = native {
        lemma_os_string_round_trip(unix::UnixName::Unnamed, path);
    }
}

impl UniAddr {
    /// The socket address that this address is; none for a host name.
    pub fn to_native(&self) -> (r: Result<NativeAddr, NativeError>)
        ensures
            match native_of(self@) {
                Ok(native) => r is Ok && r->Ok_0@ == native,
                Err(e) => r == Err::<NativeAddr, NativeError>(e),
            },
    {
        match self.as_inner() {
            UniAddrInner::Inet(addr) => Ok(NativeAddr::Inet(*addr)),
            UniAddrInner::Unix(addr) => Ok(NativeAddr::Unix(addr.to_os_string())),
            UniAddrInner::Host(_) => Err(NativeError::Unresolved),
        }
    }

    /// The unified address that `native` is.
    pub fn from_native(native: &NativeAddr) -> (r: Result<Self, NativeError>)
        ensures
            match address_of_native(native@) {
                Ok(address) => r is Ok && r->Ok_0@ == address,
                Err(e) => r == Err::<Self, NativeError>(e),
            },
    {
        match native {
            NativeAddr::Inet(addr) => Ok(UniAddr::from(*addr)),
            NativeAddr::Unix(path) => match unix::SocketAddr::from_os_string(path.as_slice()) {
                Ok(addr) => Ok(UniAddr::from(addr)),
                Err(e) => Err(NativeError::InvalidUnix(e)),
            },
            NativeAddr::Other => Err(NativeError::UnsupportedFamily),
        }
    }
}

} // verus!
