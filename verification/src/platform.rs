//! What a target offers of Unix-domain sockets.

use vstd::prelude::*;

verus! {

/// The kinds of target that differ in the Unix-domain addresses they know.
#[derive(Clone, Copy, Debug, PartialEq, Eq, Structural)]
pub enum Platform {
    /// Linux and its kin: path names, unnamed addresses and the abstract
    /// namespace.
    Linux,
    /// Any other Unix: path names and unnamed addresses.
    Unix,
    /// A target without Unix-domain sockets.
    Other,
}

impl Platform {
    /// Whether the target has Unix-domain sockets at all.
    pub open spec fn has_unix_sockets(self) -> bool {
        self != Platform::Other
    }

    /// Whether the target has the abstract namespace.
    pub open spec fn has_abstract_names(self) -> bool {
        self == Platform::Linux
    }

    /// Whether the target has Unix-domain sockets at all.
    pub fn unix_sockets(self) -> (r: bool)
        ensures
            r == self.has_unix_sockets(),
    {
        match self {
            Platform::Other => false,
            _ => true,
        }
    }

    /// Whether the target has the abstract namespace.
    pub fn abstract_names(self) -> (r: bool)
        ensures
            r == self.has_abstract_names(),
    {
        match self {
            Platform::Linux => true,
            _ => false,
        }
    }
}

} // verus!
