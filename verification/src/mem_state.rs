//! An account state held in memory, in a sparse Merkle tree.

use vstd::prelude::*;
use crate::h256::{zero_word, H256};
use crate::smt::{smt_leaves, smt_root_of_leaves, SmtTree};
use crate::state::{Error, Faults, State, StoreRequest};

verus! {

/// An account state whose leaves live in an in-memory sparse Merkle tree,
/// with the account counter beside it.
pub struct MemState {
    tree: SmtTree,
    account_count: u32,
}

impl MemState {
    /// An empty state: no leaves and no accounts.
    pub fn new() -> (s: MemState)
        ensures
            s.kv().is_empty(),
            s.account_count() == 0,
            smt_root_of_leaves(s.kv()) == zero_word(),
    {
        MemState { tree: SmtTree::new(), account_count: 0 }
    }
}

impl State for MemState {
    closed spec fn kv(&self) -> Map<Seq<u8>, Seq<u8>> {
        smt_leaves(self.tree)
    }

    closed spec fn account_count(&self) -> u32 {
        self.account_count
    }

    open spec fn faults(&self) -> Faults {
        |request: StoreRequest| None::<Error>
    }

    fn get_raw(&self, key: &H256) -> (r: Result<H256, Error>) {
        match self.tree.leaf(key.to_bytes()) {
            Some(v) => Ok(H256::from_bytes(v)),
            None => Ok(H256::zero()),
        }
    }

    fn update_raw(&mut self, key: H256, value: H256) -> (r: Result<(), Error>) {
        self.tree.update(key.to_bytes(), value.to_bytes())
    }

    fn get_account_count(&self) -> (r: Result<u32, Error>) {
        Ok(self.account_count)
    }

    fn set_account_count(&mut self, count: u32) -> (r: Result<(), Error>) {
        self.account_count = count;
        Ok(())
    }

    fn calculate_root(&self) -> (r: Result<H256, Error>)
        ensures
            r matches Ok(root) && root@ == smt_root_of_leaves(self.kv()),
    {
        Ok(H256::from_bytes(self.tree.root()))
    }
}

} // verus!
