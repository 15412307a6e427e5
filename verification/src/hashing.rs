use vstd::prelude::*;

use sha2::Digest;

verus! {

/// The digest that the outside hash function assigns to a byte sequence.
/// Named only: nothing in this crate states what the digest is, beyond
/// its length and that it depends on the bytes alone.
pub uninterp spec fn sha256_of(data: Seq<u8>) -> Seq<u8>;

/// Opaque holder of the outside hash state. Verus cannot declare the
/// hasher's type (it is an alias of a deeply instantiated generic), so
/// the state is hidden whole behind this struct and reached only through
/// the trusted methods of `HashState`.
#[verifier::external_body]
pub struct Sha256Holder {
    h: sha2::Sha256,
}

/// A rolling hash over a byte stream, fed chunk by chunk. The ghost
/// `fed` records every byte handed in; the digest is a function of that
/// sequence alone, so hashing a stream in chunks equals hashing the
/// whole buffer at once.
pub struct HashState {
    pub inner: Sha256Holder,
    /// Everything fed so far.
    pub fed: Ghost<Seq<u8>>,
}

/// Relies on sha2::Sha256::new: a fresh hasher has absorbed nothing.
#[verifier::external_body]
fn new_holder() -> Sha256Holder {
    Sha256Holder { h: sha2::Sha256::new() }
}

impl HashState {
    pub fn new() -> (r: HashState)
        ensures
            r.fed@ == Seq::<u8>::empty(),
    {
        HashState { inner: new_holder(), fed: Ghost(Seq::empty()) }
    }

    /// Relies on sha2::Sha256::update: absorbing bytes incrementally
    /// hashes their concatenation.
    #[verifier::external_body]
    pub fn update(&mut self, chunk: &[u8])
        ensures
            final(self).fed@ == old(self).fed@ + chunk@,
    {
        self.inner.h.update(chunk);
    }

    /// Relies on sha2::Sha256::finalize: the digest of everything fed,
    /// always 32 bytes.
    #[verifier::external_body]
    pub fn finalize(self) -> (r: Vec<u8>)
        ensures
            r@ == sha256_of(self.fed@),
            r@.len() == 32,
    {
        self.inner.h.finalize().to_vec()
    }
}

/// The digest of a whole buffer, in one pass.
pub fn sha256_digest(data: &[u8]) -> (r: Vec<u8>)
    ensures
        r@ == sha256_of(data@),
        r@.len() == 32,
{
    let mut h = HashState::new();
    h.update(data);
    proof {
        assert(h.fed@ =~= data@);
    }
    h.finalize()
}

} // verus!
