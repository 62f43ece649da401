//! Unix-domain socket addresses.
//!
//! An address is a path name, a name in the abstract namespace, or unnamed.
//! Its text form marks an abstract name with `@` or a NUL byte in front;
//! anything else that is not empty is a path name, and empty text is the
//! unnamed address.

use vstd::prelude::*;
use vstd::string::StringSliceAdditionalSpecFns;
use crate::ascii::{AT, NUL};
use crate::bytes::{contains_byte, same_bytes};
use crate::platform::Platform;
use crate::text::{decode_lossy, shown};

verus! {

/// The room that a Unix-domain address has for a path, the closing NUL
/// counted; an abstract name has one byte less, for the NUL in front.
pub const SUN_PATH_LEN: usize = 108;

/// Why text was not taken as a Unix-domain address.
#[derive(Clone, Copy, Debug, PartialEq, Eq, Structural)]
pub enum AddrError {
    /// The target has no abstract namespace.
    Unsupported,
    /// The path holds a NUL byte.
    InteriorNul,
    /// The path does not fit.
    PathTooLong,
    /// The abstract name does not fit.
    NameTooLong,
    /// The abstract name holds a NUL byte, and strict reading was asked for.
    NulInName,
}

impl AddrError {
    /// What the error says.
    pub open spec fn message_text(self) -> Seq<char> {
        match self {
            AddrError::Unsupported => "abstract unix socket address is not supported"@,
            AddrError::InteriorNul => "paths must not contain interior null bytes"@,
            AddrError::PathTooLong => "path must be shorter than SUN_LEN"@,
            AddrError::NameTooLong => "abstract socket name must be shorter than SUN_LEN"@,
            AddrError::NulInName => "parse abstract socket name in strict mode: reject NULL bytes"@,
        }
    }

    /// What the error says.
    pub fn message(&self) -> (r: &'static str)
        ensures
            r@ == self.message_text(),
    {
        match self {
            AddrError::Unsupported => "abstract unix socket address is not supported",
            AddrError::InteriorNul => "paths must not contain interior null bytes",
            AddrError::PathTooLong => "path must be shorter than SUN_LEN",
            AddrError::NameTooLong => "abstract socket name must be shorter than SUN_LEN",
            AddrError::NulInName => "parse abstract socket name in strict mode: reject NULL bytes",
        }
    }
}

/// `(unnamed)` and a NUL: what is hashed for the unnamed address. No path
/// holds a NUL, and every abstract name is hashed with a NUL in front.
pub open spec fn unnamed_hash_key() -> Seq<u8> {
    seq![0x28u8, 0x75u8, 0x6eu8, 0x6eu8, 0x61u8, 0x6du8, 0x65u8, 0x64u8, 0x29u8, NUL]
}

/// What a Unix-domain address is.
pub enum UnixName {
    /// A name in the abstract namespace: any bytes.
    Abstract(Seq<u8>),
    /// A path in the file system.
    Pathname(Seq<u8>),
    /// No name.
    Unnamed,
}

impl UnixName {
    /// Whether the operating system can hold the address: a path is not
    /// empty, holds no NUL and fits; an abstract name fits.
    pub open spec fn is_valid(self) -> bool {
        match self {
            UnixName::Abstract(name) => name.len() < SUN_PATH_LEN,
            UnixName::Pathname(path) => 0 < path.len() < SUN_PATH_LEN && !path.contains(NUL),
            UnixName::Unnamed => true,
        }
    }

    /// The bytes that stand for the address where it is hashed.
    pub open spec fn hash_key(self) -> Seq<u8> {
        match self {
            UnixName::Abstract(name) => seq![NUL] + name,
            UnixName::Pathname(path) => path,
            UnixName::Unnamed => unnamed_hash_key(),
        }
    }

    /// The text of the address behind `prefix`, an abstract name marked by
    /// `marker`.
    pub open spec fn text(self, prefix: Seq<u8>, marker: Seq<u8>) -> Seq<u8> {
        match self {
            UnixName::Abstract(name) => prefix + marker + name,
            UnixName::Pathname(path) => prefix + path,
            UnixName::Unnamed => prefix,
        }
    }
}

/// The address that a path stands for: unnamed where the path is empty.
pub open spec fn pathname_of(path: Seq<u8>) -> Result<UnixName, AddrError> {
    if path.contains(NUL) {
        Err(AddrError::InteriorNul)
    } else if path.len() >= SUN_PATH_LEN {
        Err(AddrError::PathTooLong)
    } else if path.len() == 0 {
        Ok(UnixName::Unnamed)
    } else {
        Ok(UnixName::Pathname(path))
    }
}

/// The address that an abstract name stands for; strict reading refuses a NUL
/// inside the name.
pub open spec fn abstract_of(name: Seq<u8>, strict: bool) -> Result<UnixName, AddrError> {
    if strict && name.contains(NUL) {
        Err(AddrError::NulInName)
    } else if name.len() >= SUN_PATH_LEN {
        Err(AddrError::NameTooLong)
    } else {
        Ok(UnixName::Abstract(name))
    }
}

/// Whether `text` begins with a marker of the abstract namespace.
pub open spec fn is_marked_abstract(text: Seq<u8>) -> bool {
    text.len() > 0 && (text[0] == AT || text[0] == NUL)
}

/// The address that `text` stands for on `platform`.
pub open spec fn unix_name_of(platform: Platform, text: Seq<u8>, strict: bool) -> Result<
    UnixName,
    AddrError,
> {
    if is_marked_abstract(text) {
        if platform.has_abstract_names() {
            abstract_of(text.skip(1), strict)
        } else {
            Err(AddrError::Unsupported)
        }
    } else {
        pathname_of(text)
    }
}

/// The address that the operating system means by `bytes`: an abstract name
/// behind a NUL, else a path, and the unnamed address where there are none.
pub open spec fn unix_name_of_os_string(bytes: Seq<u8>) -> Result<UnixName, AddrError> {
    if bytes.len() > 0 && bytes[0] == NUL {
        abstract_of(bytes.skip(1), false)
    } else {
        pathname_of(bytes)
    }
}

/// What was read is valid.
pub proof fn lemma_unix_name_is_valid(platform: Platform, text: Seq<u8>, strict: bool)
    ensures
        unix_name_of(platform, text, strict) matches Ok(name) ==> name.is_valid(),
{
}

/// The three kinds.
#[derive(Debug)]
enum Name {
    Abstract(Vec<u8>),
    Pathname(Vec<u8>),
    Unnamed,
}

/// A Unix-domain socket address.
///
/// Two addresses are equal when they are of one kind and have the same
/// name: an abstract name never equals a path, whatever the bytes, nor the
/// unnamed address. Hashing goes by bytes that tell the kinds apart, so that
/// no name can meet the unnamed address there.
#[derive(Debug)]
pub struct SocketAddr {
    name: Name,
}

impl View for SocketAddr {
    type V = UnixName;

    closed spec fn view(&self) -> UnixName {
        match self.name {
            Name::Abstract(name) => UnixName::Abstract(name@),
            Name::Pathname(path) => UnixName::Pathname(path@),
            Name::Unnamed => UnixName::Unnamed,
        }
    }
}

/// Copies bytes into a vector of their own.
fn copy_bytes(bytes: &[u8]) -> (r: Vec<u8>)
    ensures
        r@ == bytes@,
{
    let mut r: Vec<u8> = Vec::new();
    r.extend_from_slice(bytes);
    r
}

impl SocketAddr {
    /// Every address is one that the operating system can hold.
    #[verifier::type_invariant]
    pub closed spec fn inv(self) -> bool {
        self@.is_valid()
    }

    /// Makes known that the address is one that the operating system can
    /// hold.
    pub fn valid(&self)
        ensures
            self@.is_valid(),
    {
        proof {
            use_type_invariant(self);
        }
    }

    /// Reads an address as Linux does, where all three kinds are at hand:
    /// text that begins with `@` or NUL is an abstract name, other text a
    /// path, empty text the unnamed address.
    pub fn new(addr: &str) -> (r: Result<Self, AddrError>)
        ensures
            match unix_name_of(Platform::Linux, addr.spec_bytes(), false) {
                Ok(name) => r is Ok && r->Ok_0@ == name,
                Err(e) => r == Err::<Self, AddrError>(e),
            },
    {
        Self::new_for(addr.as_bytes(), Platform::Linux)
    }

    /// Reads an address as `new` does, and refuses an abstract name with a
    /// NUL byte in it.
    pub fn new_strict(addr: &str) -> (r: Result<Self, AddrError>)
        ensures
            match unix_name_of(Platform::Linux, addr.spec_bytes(), true) {
                Ok(name) => r is Ok && r->Ok_0@ == name,
                Err(e) => r == Err::<Self, AddrError>(e),
            },
    {
        Self::new_strict_for(addr.as_bytes(), Platform::Linux)
    }

    /// Reads an address as `new` does, from bytes.
    pub fn from_bytes(bytes: &[u8]) -> (r: Result<Self, AddrError>)
        ensures
            match unix_name_of(Platform::Linux, bytes@, false) {
                Ok(name) => r is Ok && r->Ok_0@ == name,
                Err(e) => r == Err::<Self, AddrError>(e),
            },
    {
        Self::new_for(bytes, Platform::Linux)
    }

    /// Reads an address as `platform` takes it: where there is no abstract
    /// namespace, text that is marked abstract is unsupported.
    pub fn new_for(addr: &[u8], platform: Platform) -> (r: Result<Self, AddrError>)
        ensures
            match unix_name_of(platform, addr@, false) {
                Ok(name) => r is Ok && r->Ok_0@ == name,
                Err(e) => r == Err::<Self, AddrError>(e),
            },
    {
        if addr.len() > 0 && (addr[0] == AT || addr[0] == NUL) {
            if platform.abstract_names() {
                Self::new_abstract(vstd::slice::slice_subrange(addr, 1, addr.len()))
            } else {
                Err(AddrError::Unsupported)
            }
        } else {
            Self::new_pathname(addr)
        }
    }

    /// Reads an address as `new_for` does, and refuses an abstract name with
    /// a NUL byte in it.
    pub fn new_strict_for(addr: &[u8], platform: Platform) -> (r: Result<Self, AddrError>)
        ensures
            match unix_name_of(platform, addr@, true) {
                Ok(name) => r is Ok && r->Ok_0@ == name,
                Err(e) => r == Err::<Self, AddrError>(e),
            },
    {
        if addr.len() > 0 && (addr[0] == AT || addr[0] == NUL) {
            if platform.abstract_names() {
                Self::new_abstract_strict(vstd::slice::slice_subrange(addr, 1, addr.len()))
            } else {
                Err(AddrError::Unsupported)
            }
        } else {
            Self::new_pathname(addr)
        }
    }

    /// Reads the bytes that the operating system holds for an address, as
    /// `to_os_string` gives them: here `@` marks nothing.
    pub fn from_os_string(bytes: &[u8]) -> (r: Result<Self, AddrError>)
        ensures
            match unix_name_of_os_string(bytes@) {
                Ok(name) => r is Ok && r->Ok_0@ == name,
                Err(e) => r == Err::<Self, AddrError>(e),
            },
    {
        if bytes.len() > 0 && bytes[0] == NUL {
            Self::new_abstract(vstd::slice::slice_subrange(bytes, 1, bytes.len()))
        } else {
            Self::new_pathname(bytes)
        }
    }

    /// The address in the abstract namespace with the name `bytes`, which
    /// may hold any byte, NUL too.
    pub fn new_abstract(bytes: &[u8]) -> (r: Result<Self, AddrError>)
        ensures
            match abstract_of(bytes@, false) {
                Ok(name) => r is Ok && r->Ok_0@ == name,
                Err(e) => r == Err::<Self, AddrError>(e),
            },
    {
        if bytes.len() >= SUN_PATH_LEN {
            return Err(AddrError::NameTooLong);
        }
        Ok(SocketAddr { name: Name::Abstract(copy_bytes(bytes)) })
    }

    /// The address in the abstract namespace with the name `bytes`, which
    /// may not hold a NUL byte.
    pub fn new_abstract_strict(bytes: &[u8]) -> (r: Result<Self, AddrError>)
        ensures
            match abstract_of(bytes@, true) {
                Ok(name) => r is Ok && r->Ok_0@ == name,
                Err(e) => r == Err::<Self, AddrError>(e),
            },
    {
        if contains_byte(bytes, NUL) {
            return Err(AddrError::NulInName);
        }
        Self::new_abstract(bytes)
    }

    /// The address with the path `pathname`; the unnamed address where the
    /// path is empty. Nothing in the file system is touched.
    pub fn new_pathname(pathname: &[u8]) -> (r: Result<Self, AddrError>)
        ensures
            match pathname_of(pathname@) {
                Ok(name) => r is Ok && r->Ok_0@ == name,
                Err(e) => r == Err::<Self, AddrError>(e),
            },
    {
        if contains_byte(pathname, NUL) {
            return Err(AddrError::InteriorNul);
        }
        if pathname.len() >= SUN_PATH_LEN {
            return Err(AddrError::PathTooLong);
        }
        if pathname.len() == 0 {
            return Ok(Self::new_unnamed());
        }
        Ok(SocketAddr { name: Name::Pathname(copy_bytes(pathname)) })
    }

    /// The unnamed address.
    pub fn new_unnamed() -> (r: Self)
        ensures
            r@ == UnixName::Unnamed,
    {
        SocketAddr { name: Name::Unnamed }
    }

    /// The path, where the address has one.
    pub fn as_pathname(&self) -> (r: Option<&[u8]>)
        ensures
            match self@ {
                UnixName::Pathname(path) => r is Some && r->0@ == path,
                _ => r is None,
            },
    {
        match &self.name {
            Name::Pathname(path) => Some(path.as_slice()),
            _ => None,
        }
    }

    /// The abstract name, where the address has one.
    pub fn as_abstract_name(&self) -> (r: Option<&[u8]>)
        ensures
            match self@ {
                UnixName::Abstract(name) => r is Some && r->0@ == name,
                _ => r is None,
            },
    {
        match &self.name {
            Name::Abstract(name) => Some(name.as_slice()),
            _ => None,
        }
    }

    /// Whether the address is unnamed.
    pub fn is_unnamed(&self) -> (r: bool)
        ensures
            r == (self@ is Unnamed),
    {
        match &self.name {
            Name::Unnamed => true,
            _ => false,
        }
    }

    /// The bytes that are hashed: the path, which holds no NUL; the abstract
    /// name behind a NUL; for the unnamed address `(unnamed)` and a NUL, which
    /// is neither.
    pub fn hash_key(&self) -> (r: Vec<u8>)
        ensures
            r@ == self@.hash_key(),
    {
        match &self.name {
            Name::Pathname(path) => copy_bytes(path.as_slice()),
            Name::Abstract(name) => {
                let mut key: Vec<u8> = Vec::new();
                key.push(NUL);
                key.extend_from_slice(name.as_slice());
                key
            },
            Name::Unnamed => {
                let key: [u8; 10] = [0x28, 0x75, 0x6e, 0x6e, 0x61, 0x6d, 0x65, 0x64, 0x29, NUL];
                assert(key@ =~= unnamed_hash_key());
                copy_bytes(key.as_slice())
            },
        }
    }

    /// The bytes that the operating system takes: the path, the abstract
    /// name behind a NUL byte, or nothing.
    pub fn to_os_string(&self) -> (r: Vec<u8>)
        ensures
            r@ == self@.text(Seq::empty(), seq![NUL]),
    {
        let prefix: [u8; 0] = [];
        let marker: [u8; 1] = [NUL];
        let r = self.to_os_string_impl(prefix.as_slice(), marker.as_slice());
        assert(prefix@ =~= Seq::<u8>::empty());
        assert(marker@ =~= seq![NUL]);
        r
    }

    /// The address as a string: the path, the abstract name behind `@`, or
    /// nothing; bytes that are not UTF-8 are shown lossily.
    pub fn to_string_lossy(&self) -> (r: String)
        ensures
            r@ == shown(self@.text(Seq::empty(), seq![AT])),
    {
        let prefix: [u8; 0] = [];
        let marker: [u8; 1] = [AT];
        let bytes = self.to_os_string_impl(prefix.as_slice(), marker.as_slice());
        assert(prefix@ =~= Seq::<u8>::empty());
        assert(marker@ =~= seq![AT]);
        decode_lossy(bytes.as_slice())
    }

    /// The text of the address behind `prefix`, an abstract name marked by
    /// `abstract_identifier`.
    pub fn to_os_string_impl(&self, prefix: &[u8], abstract_identifier: &[u8]) -> (r: Vec<u8>)
        ensures
            r@ == self@.text(prefix@, abstract_identifier@),
    {
        let mut os_string = copy_bytes(prefix);
        match &self.name {
            Name::Pathname(path) => {
                os_string.extend_from_slice(path.as_slice());
            },
            Name::Abstract(name) => {
                os_string.extend_from_slice(abstract_identifier);
                os_string.extend_from_slice(name.as_slice());
            },
            Name::Unnamed => {},
        }
        os_string
    }
}

impl Clone for SocketAddr {
    fn clone(&self) -> (r: Self)
        ensures
            r@ == self@,
    {
        proof {
            use_type_invariant(self);
        }
        match &self.name {
            Name::Abstract(name) => SocketAddr { name: Name::Abstract(copy_bytes(name.as_slice())) },
            Name::Pathname(path) => SocketAddr { name: Name::Pathname(copy_bytes(path.as_slice())) },
            Name::Unnamed => SocketAddr { name: Name::Unnamed },
        }
    }
}

/// Hands `key` to `state`.
///
/// Calls `Hash::hash` of std on the byte slice, which feeds the hasher the
/// length and the bytes. Nothing is claimed of the state that results.
#[verifier::external_body]
fn feed<H: core::hash::Hasher>(state: &mut H, key: &[u8]) {
    core::hash::Hash::hash(key, state)
}

impl core::hash::Hash for SocketAddr {
    fn hash<H: core::hash::Hasher>(&self, state: &mut H) {
        let key = self.hash_key();
        feed(state, key.as_slice());
    }
}

impl PartialEq for SocketAddr {
    fn eq(&self, other: &Self) -> (r: bool) {
        match (&self.name, &other.name) {
            (Name::Pathname(l), Name::Pathname(r)) => same_bytes(l.as_slice(), r.as_slice()),
            (Name::Abstract(l), Name::Abstract(r)) => same_bytes(l.as_slice(), r.as_slice()),
            (Name::Unnamed, Name::Unnamed) => true,
            _ => false,
        }
    }
}

impl Eq for SocketAddr {

}

impl vstd::std_specs::cmp::PartialEqSpecImpl for SocketAddr {
    open spec fn obeys_eq_spec() -> bool {
        true
    }

    open spec fn eq_spec(&self, other: &Self) -> bool {
        self@ == other@
    }
}

/// Addresses of different kinds are never equal, and addresses of one kind
/// are equal exactly when their names are.
pub proof fn lemma_equality_by_kind(x: Seq<u8>, y: Seq<u8>)
    ensures
        UnixName::Abstract(x) != UnixName::Pathname(y),
        UnixName::Abstract(x) != UnixName::Unnamed,
        UnixName::Pathname(x) != UnixName::Unnamed,
        UnixName::Unnamed == UnixName::Unnamed,
        (UnixName::Abstract(x) == UnixName::Abstract(y)) == (x == y),
        (UnixName::Pathname(x) == UnixName::Pathname(y)) == (x == y),
{
}

/// The bytes that the operating system holds for a valid address are read
/// back as that address, and what is read from such bytes is written back as
/// them.
pub proof fn lemma_os_string_round_trip(name: UnixName, bytes: Seq<u8>)
    ensures
        name.is_valid() ==> unix_name_of_os_string(name.text(Seq::empty(), seq![NUL])) == Ok::<
            UnixName,
            AddrError,
        >(name),
        unix_name_of_os_string(bytes) matches Ok(read) ==> read.text(Seq::empty(), seq![NUL])
            == bytes,
{
    if name.is_valid() {
        let text = name.text(Seq::empty(), seq![NUL]);
        match name {
            UnixName::Abstract(n) => {
                assert(text.skip(1) =~= n);
            },
            UnixName::Pathname(path) => {
                assert(text =~= path);
                assert(path.contains(path[0]));
            },
            UnixName::Unnamed => {
                assert(!text.contains(NUL));
            },
        }
    }
    if let Ok(read) = unix_name_of_os_string(bytes) {
        assert(read.text(Seq::empty(), seq![NUL]) =~= bytes);
    }
}

/// Two valid addresses are hashed by the same bytes only if they are the
/// same address: no path and no abstract name meets the unnamed address, and
/// no path meets an abstract name.
pub proof fn lemma_hash_keys_differ(a: UnixName, b: UnixName)
    requires
        a.is_valid(),
        b.is_valid(),
    ensures
        (a.hash_key() == b.hash_key()) == (a == b),
{
    if a.hash_key() == b.hash_key() {
        lemma_hash_key_kind(a);
        lemma_hash_key_kind(b);
        match (a, b) {
            (UnixName::Abstract(x), UnixName::Abstract(y)) => {
                assert(x =~= a.hash_key().skip(1));
                assert(y =~= b.hash_key().skip(1));
            },
            _ => {},
        }
    }
}

/// The bytes that a valid address is hashed by tell its kind: a NUL in front
/// for an abstract name, `(unnamed)` and a NUL for the unnamed address, and
/// for a path no NUL at all.
proof fn lemma_hash_key_kind(a: UnixName)
    requires
        a.is_valid(),
    ensures
        a is Abstract <==> a.hash_key().len() > 0 && a.hash_key()[0] == NUL,
        a is Unnamed <==> a.hash_key() == unnamed_hash_key(),
{
    let key = a.hash_key();
    match a {
        UnixName::Pathname(path) => {
            assert(path.contains(path[0]));
            if key == unnamed_hash_key() {
                assert(path.contains(path[9]));
            }
        },
        _ => {},
    }
}

} // verus!
