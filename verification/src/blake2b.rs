//! The personalized BLAKE2b-256 hasher that derives state keys.

use vstd::prelude::*;
use blake2b_ref::{Blake2b, Blake2bBuilder};

verus! {

#[verifier::external_type_specification]
#[verifier::external_body]
pub struct ExBlake2b(Blake2b);

/// The 32-byte BLAKE2b digest of `data`, unkeyed, with personalization
/// `personal` (padded with zero bytes to sixteen).
pub uninterp spec fn blake2b_256(personal: Seq<u8>, data: Seq<u8>) -> Seq<u8>;

/// The personalization of every hash that the chain computes.
pub const CKB_PERSONALIZATION: [u8; 16] = [
    99, 107, 98, 45, 100, 101, 102, 97, 117, 108, 116, 45, 104, 97, 115, 104,
];

/// The hash of `data` under the chain's personalization.
pub open spec fn ckb_hash(data: Seq<u8>) -> Seq<u8> {
    blake2b_256(CKB_PERSONALIZATION@, data)
}

/// An incremental hasher, with the personalization it was built with and
/// the bytes it has been fed.
pub struct Hasher {
    state: Blake2b,
    personal: Ghost<Seq<u8>>,
    fed: Ghost<Seq<u8>>,
}

impl Hasher {
    /// The personalization the hasher was built with.
    pub closed spec fn personal(&self) -> Seq<u8> {
        self.personal@
    }

    /// The bytes fed to the hasher so far, in order.
    pub closed spec fn fed(&self) -> Seq<u8> {
        self.fed@
    }

    /// A 32-byte BLAKE2b hasher with the given personalization
    /// (`Blake2bBuilder::new(32).personal(personal).build()` of `blake2b-ref`),
    /// which has been fed nothing. The builder panics on a personalization
    /// longer than sixteen bytes, which `requires` leaves out.
    #[verifier::external_body]
    fn with_personal(personal: &[u8]) -> (h: Hasher)
        requires
            personal@.len() <= 16,
        ensures
            h.personal() == personal@,
            h.fed() == Seq::<u8>::empty(),
    {
        Hasher {
            state: Blake2bBuilder::new(32).personal(personal).build(),
            personal: Ghost(personal@),
            fed: Ghost(Seq::empty()),
        }
    }

    /// Feeds `data` to the hasher (`Blake2b::update`): the bytes fed so far
    /// are extended by `data`.
    #[verifier::external_body]
    pub(crate) fn update(&mut self, data: &[u8])
        ensures
            final(self).personal() == old(self).personal(),
            final(self).fed() == old(self).fed() + data@,
    {
        self.state.update(data);
    }

    /// Ends the hash (`Blake2b::finalize` into a 32-byte buffer): the result
    /// is the digest of every byte fed, in order.
    #[verifier::external_body]
    pub(crate) fn finalize(self) -> (digest: [u8; 32])
        ensures
            digest@ == blake2b_256(self.personal(), self.fed()),
    {
        let mut digest = [0u8; 32];
        self.state.finalize(&mut digest);
        digest
    }
}

/// A hasher with the chain's personalization that has been fed nothing.
pub fn new_blake2b() -> (h: Hasher)
    ensures
        h.personal() == CKB_PERSONALIZATION@,
        h.fed() == Seq::<u8>::empty(),
{
    let personal = CKB_PERSONALIZATION;
    Hasher::with_personal(personal.as_slice())
}

} // verus!
