//! The capability registry: a type-fingerprint-keyed directory of
//! constructible remote objects.
//!
//! A process registers zero-argument factories under the 32-byte fingerprint
//! of the produced type's wire schema; a peer acquires by fingerprint alone.
//! Registration overwrites: the last writer for a fingerprint wins.  Each
//! acquisition is independent and stateless; entries are only ever added.
//! The registry is handed across the boundary as a [`Handle`], whose only
//! boundary operation is acquire-by-fingerprint.

use vstd::prelude::*;
use crate::kind::ConstructError;

verus! {

/// A fixed 32-byte value identifying a type's wire schema.  Collisions are
/// undefined behavior: callers must derive it from a cryptographically
/// sized hash of a canonical type descriptor.
#[derive(Clone, Copy, Debug)]
pub struct Fingerprint {
    pub bytes: [u8; 32],
}

/// Byte-for-byte equality of fingerprints.
pub fn fingerprint_eq(a: &Fingerprint, b: &Fingerprint) -> (r: bool)
    ensures
        r == (a.bytes@ == b.bytes@),
{
    let mut k: usize = 0;
    while k < 32
        invariant
            k <= 32,
            a.bytes@.len() == 32,
            b.bytes@.len() == 32,
            forall|j: int| 0 <= j < k ==> a.bytes@[j] == b.bytes@[j],
        decreases 32 - k,
    {
        if a.bytes[k] != b.bytes[k] {
            return false;
        }
        k += 1;
    }
    proof {
        assert(a.bytes@ =~= b.bytes@);
    }
    true
}

/// An explicit "not supported here" signal, distinct from mere absence.
#[derive(Clone, Debug, PartialEq)]
pub struct UnimplementedError {
    pub feature: String,
}

impl UnimplementedError {
    /// A readable rendering of the error.
    pub fn message(&self) -> (r: String)
        ensures
            r@ == self.feature@ + " is unimplemented on this target"@,
    {
        let mut s = self.feature.clone();
        s.append(" is unimplemented on this target");
        s
    }
}

/// Failure of a registry or boundary acquisition.
#[derive(Clone, Debug, PartialEq)]
pub enum CoreError {
    /// No registration under the fingerprint, or no active boundary.
    Unavailable,
    /// The capability exists but is not supported on this target.
    Unimplemented(UnimplementedError),
    /// The acquired channel could not be decoded, wrapping the cause.
    Construct(ConstructError),
}

impl CoreError {
    /// A readable rendering of the error.
    pub fn message(&self) -> (r: String)
        ensures
            self is Unavailable ==> r@ == "this feature is unavailable or unregistered"@,
            self matches CoreError::Unimplemented(e) ==> r@ == e.feature@
                + " is unimplemented on this target"@,
            self is Construct ==> r@ == "handle transfer failed"@,
    {
        match self {
            CoreError::Unavailable => "this feature is unavailable or unregistered".to_owned(),
            CoreError::Unimplemented(e) => e.message(),
            CoreError::Construct(c) => "handle transfer failed".to_owned(),
        }
    }
}

/// The boundary contract behind a [`Handle`]: acquire a constructible
/// product by fingerprint, and nothing else.  A process's own [`Core`]
/// implements it; a generated proxy on the far side of a transport would
/// implement it too.
pub trait HandleInner {
    /// What an acquisition yields.
    type Product;

    /// The directory this side offers: what each fingerprint resolves to.
    spec fn offers(&self, fingerprint: Seq<u8>) -> Option<Self::Product>;

    /// Resolves a fingerprint: the offered product, or `Unavailable`.
    fn acquire<'a>(&'a self, ty: &Fingerprint) -> (r: Result<&'a Self::Product, CoreError>)
        ensures
            self.offers(ty.bytes@) matches Some(p) ==> (r matches Ok(q) && *q == p),
            self.offers(ty.bytes@) is None ==> r matches Err(CoreError::Unavailable),
    ;
}

/// The registered entries, later registrations shadowing earlier ones.
pub open spec fn entries_map<T>(s: Seq<(Fingerprint, T)>) -> Map<Seq<u8>, T>
    decreases s.len(),
{
    if s.len() == 0 {
        Map::<Seq<u8>, T>::empty()
    } else {
        entries_map(s.drop_last()).insert(s.last().0.bytes@, s.last().1)
    }
}

/// A process's capability registry.
pub struct Core<T> {
    entries: Vec<(Fingerprint, T)>,
}

/// The entry standing at `k` is the one a lookup finds when no later entry
/// carries the same fingerprint.
proof fn lemma_entries_map_at<T>(s: Seq<(Fingerprint, T)>, fp: Seq<u8>, k: int)
    requires
        0 <= k < s.len(),
        s[k].0.bytes@ == fp,
        forall|j: int| k < j < s.len() ==> (#[trigger] s[j]).0.bytes@ != fp,
    ensures
        entries_map(s).contains_key(fp),
        entries_map(s)[fp] == s[k].1,
    decreases s.len(),
{
    if k == s.len() - 1 {
    } else {
        assert(s.drop_last()[k] == s[k]);
        lemma_entries_map_at(s.drop_last(), fp, k);
        assert(s.last().0.bytes@ != fp);
    }
}

/// A fingerprint no entry carries resolves to nothing.
proof fn lemma_entries_map_absent<T>(s: Seq<(Fingerprint, T)>, fp: Seq<u8>)
    requires
        forall|j: int| 0 <= j < s.len() ==> (#[trigger] s[j]).0.bytes@ != fp,
    ensures
        !entries_map(s).contains_key(fp),
    decreases s.len(),
{
    if s.len() > 0 {
        lemma_entries_map_absent(s.drop_last(), fp);
    }
}

impl<T> Core<T> {
    /// The directory as a map: fingerprint to the factory that will serve
    /// an acquisition, the last registration winning.
    pub closed spec fn table(&self) -> Map<Seq<u8>, T> {
        entries_map(self.entries@)
    }

    /// An empty registry.
    pub fn new() -> (c: Core<T>)
        ensures
            c.table() == Map::<Seq<u8>, T>::empty(),
    {
        Core { entries: Vec::new() }
    }

    /// Stores a factory under a fingerprint.  Concurrent registration is
    /// serialized by the exclusive borrow; the last writer for a given
    /// fingerprint wins, entries are never removed.
    pub fn register(&mut self, fingerprint: Fingerprint, factory: T)
        ensures
            final(self).table() == old(self).table().insert(fingerprint.bytes@, factory),
    {
        self.entries.push((fingerprint, factory));
        proof {
            assert(self.entries@.drop_last() =~= old(self).entries@);
        }
    }

    /// Wraps the registry as the boundary handle of this process.
    pub fn into_handle(self) -> (h: Handle<Core<T>>)
        ensures
            forall|fp: Seq<u8>| h.offers(fp) == self.offers(fp),
    {
        Handle { inner: self }
    }
}

impl<T> HandleInner for Core<T> {
    type Product = T;

    /// What the registry offers: its table entry, if any.
    open spec fn offers(&self, fingerprint: Seq<u8>) -> Option<T> {
        if self.table().contains_key(fingerprint) {
            Some(self.table()[fingerprint])
        } else {
            None
        }
    }

    fn acquire<'a>(&'a self, ty: &Fingerprint) -> (r: Result<&'a T, CoreError>) {
        let n = self.entries.len();
        let mut k: usize = n;
        while k > 0
            invariant
                k <= n,
                n == self.entries@.len(),
                forall|j: int| k <= j < n ==> (#[trigger] self.entries@[j]).0.bytes@ != ty.bytes@,
            decreases k,
        {
            k -= 1;
            if fingerprint_eq(&self.entries[k].0, ty) {
                proof {
                    lemma_entries_map_at(self.entries@, ty.bytes@, k as int);
                }
                return Ok(&self.entries[k].1);
            }
        }
        proof {
            lemma_entries_map_absent(self.entries@, ty.bytes@);
        }
        Err(CoreError::Unavailable)
    }
}

/// An opaque capability reference: the boundary-crossing side of a
/// registry.  Valid for the lifetime of the underlying transport; its one
/// operation is acquisition by fingerprint.
pub struct Handle<I: HandleInner> {
    inner: I,
}

impl<I: HandleInner> Handle<I> {
    /// The directory the far side offers through this handle.
    pub closed spec fn offers(&self, fingerprint: Seq<u8>) -> Option<I::Product> {
        self.inner.offers(fingerprint)
    }

    /// Asks the peer's registry for the fingerprint's product: the offered
    /// value, or `Unavailable` when nothing is registered under it.
    pub fn acquire<'a>(&'a self, ty: &Fingerprint) -> (r: Result<&'a I::Product, CoreError>)
        ensures
            self.offers(ty.bytes@) matches Some(p) ==> (r matches Ok(q) && *q == p),
            self.offers(ty.bytes@) is None ==> r matches Err(CoreError::Unavailable),
    {
        self.inner.acquire(ty)
    }
}

/// Registering a factory for a fingerprint makes exactly that factory the
/// one an acquisition for the fingerprint yields, whatever stood there
/// before; other fingerprints are untouched.
pub proof fn lemma_register_then_acquire<T>(
    table: Map<Seq<u8>, T>,
    fingerprint: Seq<u8>,
    factory: T,
)
    ensures
        table.insert(fingerprint, factory).contains_key(fingerprint),
        table.insert(fingerprint, factory)[fingerprint] == factory,
        forall|other: Seq<u8>|
            other != fingerprint ==> table.insert(fingerprint, factory).contains_key(other)
                == table.contains_key(other),
{
}

/// The process logger; writing the message out is the host's concern.
pub struct Logger {
    _private: (),
}

impl Logger {
    pub fn new() -> Logger {
        Logger { _private: () }
    }
}

} // verus!
