//! The sparse Merkle tree of the `sparse-merkle-tree` crate, with BLAKE2b
//! hashing and its in-memory store, as the leaves it holds and its root.

use vstd::prelude::*;
use crate::h256::zero_word;
use crate::state::{kv_write, Error};

verus! {

/// A sparse Merkle tree over 256-bit words, kept in memory.
#[verifier::external_body]
pub struct SmtTree {
    inner: sparse_merkle_tree::SparseMerkleTree<
        sparse_merkle_tree::blake2b::Blake2bHasher,
        sparse_merkle_tree::H256,
        sparse_merkle_tree::default_store::DefaultStore<sparse_merkle_tree::H256>,
    >,
}

/// The leaves of the tree: the leaf map of its store, from key bytes to
/// value bytes.
pub uninterp spec fn smt_leaves(tree: SmtTree) -> Map<Seq<u8>, Seq<u8>>;

/// The Merkle root of a sparse Merkle tree (BLAKE2b hasher of the crate)
/// whose leaves are `leaves`.
pub uninterp spec fn smt_root_of_leaves(leaves: Map<Seq<u8>, Seq<u8>>) -> Seq<u8>;

impl SmtTree {
    /// An empty tree (`SparseMerkleTree::default()`): no leaves, and the
    /// zero root that `Default` gives, which is the root of no leaves.
    #[verifier::external_body]
    pub(crate) fn new() -> (tree: SmtTree)
        ensures
            smt_leaves(tree).is_empty(),
            smt_root_of_leaves(smt_leaves(tree)) == zero_word(),
    {
        SmtTree { inner: sparse_merkle_tree::SparseMerkleTree::default() }
    }

    /// Sets the leaf at `key` (`SparseMerkleTree::update`): a zero `value`
    /// removes the leaf from the store, any other value inserts it. The
    /// in-memory store never fails, so neither does the update.
    #[verifier::external_body]
    pub(crate) fn update(&mut self, key: [u8; 32], value: [u8; 32]) -> (r: Result<(), Error>)
        ensures
            r is Ok,
            smt_leaves(*final(self)) == kv_write(smt_leaves(*old(self)), key@, value@),
    {
        match self.inner.update(key.into(), value.into()) {
            Ok(_) => Ok(()),
            Err(_) => Err(Error::Store),
        }
    }

    /// The leaf stored at `key`, looked up in the leaf map of the store
    /// (`store().leaves_map().get(..)`).
    #[verifier::external_body]
    pub(crate) fn leaf(&self, key: [u8; 32]) -> (r: Option<[u8; 32]>)
        ensures
            r matches Some(v) ==> smt_leaves(*self).contains_key(key@) && v@ == smt_leaves(
                *self,
            )[key@],
            r is None ==> !smt_leaves(*self).contains_key(key@),
    {
        match self.inner.store().leaves_map().get(&sparse_merkle_tree::H256::from(key)) {
            Some(v) => Some((*v).into()),
            None => None,
        }
    }

    /// The root of the tree (`SparseMerkleTree::root`). The crate keeps the
    /// root equal to the Merkle root of the leaves: `default` starts both
    /// empty and `update` recomputes the path of the changed leaf. A tree here
    /// is only ever made by `new` and changed by `update`.
    #[verifier::external_body]
    pub(crate) fn root(&self) -> (r: [u8; 32])
        ensures
            r@ == smt_root_of_leaves(smt_leaves(*self)),
    {
        (*self.inner.root()).into()
    }
}

} // verus!
