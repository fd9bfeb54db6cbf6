//! Keys of the account state tree, and the account state interface with the
//! operations every state offers on top of its key-value store.

use vstd::prelude::*;
use crate::blake2b::{ckb_hash, new_blake2b};
use crate::h256::{
    lemma_u128_word_roundtrip, lemma_u32_word_roundtrip, lemma_u32_word_zero, le_u32_bytes, u128_word, u32_word, word_u128, word_u32, zero_bytes, zero_word, H256,
};

verus! {

broadcast use crate::h256::lemma_h256_len;

/// Field tag of an account's key-value entries.
pub const GW_ACCOUNT_KV: u8 = 0;

/// Field tag of an account's nonce.
pub const GW_ACCOUNT_NONCE: u8 = 1;

/// Field tag of an account's script hash.
pub const GW_ACCOUNT_SCRIPT_HASH: u8 = 2;

/// Prefix of the key that maps a script hash to an account id.
pub const GW_SCRIPT_HASH_TO_ID_PREFIX: [u8; 5] = [0, 0, 0, 0, 3];

/// Prefix of the key that marks a data hash as stored.
pub const GW_DATA_HASH_PREFIX: [u8; 5] = [0, 0, 0, 0, 4];

/// The key of entry `key` of account `id`: the hash of `id` (little-endian),
/// the key-value tag and `key`.
pub open spec fn account_key(id: u32, key: Seq<u8>) -> Seq<u8> {
    ckb_hash(le_u32_bytes(id) + seq![GW_ACCOUNT_KV] + key)
}

/// The key of field `type_` of account `id`: `id` (little-endian), the tag,
/// then zero bytes.
pub open spec fn account_field_key(id: u32, type_: u8) -> Seq<u8> {
    le_u32_bytes(id) + seq![type_] + zero_bytes(27)
}

/// The key under which the id of the account with `script_hash` is kept.
pub open spec fn script_hash_to_account_id_key(script_hash: Seq<u8>) -> Seq<u8> {
    ckb_hash(GW_SCRIPT_HASH_TO_ID_PREFIX@ + script_hash)
}

/// The key that marks `data_hash` as stored.
pub open spec fn data_hash_key(data_hash: Seq<u8>) -> Seq<u8> {
    ckb_hash(GW_DATA_HASH_PREFIX@ + data_hash)
}

/// The key of entry `key` of account `id` in the state tree.
pub fn build_account_key(id: u32, key: &[u8]) -> (r: H256)
    ensures
        r@ == account_key(id, key@),
{
    let id_bytes: [u8; 4] = [
        (id & 0xff) as u8,
        ((id >> 8) & 0xff) as u8,
        ((id >> 16) & 0xff) as u8,
        ((id >> 24) & 0xff) as u8,
    ];
    let tag: [u8; 1] = [GW_ACCOUNT_KV];
    let mut hasher = new_blake2b();
    hasher.update(id_bytes.as_slice());
    hasher.update(tag.as_slice());
    hasher.update(key);
    let digest = hasher.finalize();
    assert(id_bytes@ =~= le_u32_bytes(id));
    assert(tag@ =~= seq![GW_ACCOUNT_KV]);
    H256::from_bytes(digest)
}

/// The key of field `type_` of account `id`.
pub fn build_account_field_key(id: u32, type_: u8) -> (r: H256)
    ensures
        r@ == account_field_key(id, type_),
{
    let mut key = H256::zero().to_bytes();
    key[0] = (id & 0xff) as u8;
    key[1] = ((id >> 8) & 0xff) as u8;
    key[2] = ((id >> 16) & 0xff) as u8;
    key[3] = ((id >> 24) & 0xff) as u8;
    key[4] = type_;
    assert(key@ =~= account_field_key(id, type_));
    H256::from_bytes(key)
}

/// The key under which the id of the account with `script_hash` is kept.
pub fn build_script_hash_to_account_id_key(script_hash: &[u8]) -> (r: H256)
    ensures
        r@ == script_hash_to_account_id_key(script_hash@),
{
    let prefix = GW_SCRIPT_HASH_TO_ID_PREFIX;
    let mut hasher = new_blake2b();
    hasher.update(prefix.as_slice());
    hasher.update(script_hash);
    H256::from_bytes(hasher.finalize())
}

/// The key that marks `data_hash` as stored.
pub fn build_data_hash_key(data_hash: &[u8]) -> (r: H256)
    ensures
        r@ == data_hash_key(data_hash@),
{
    let prefix = GW_DATA_HASH_PREFIX;
    let mut hasher = new_blake2b();
    hasher.update(prefix.as_slice());
    hasher.update(data_hash);
    H256::from_bytes(hasher.finalize())
}

/// What a state operation can fail with.
#[derive(Clone, Copy, Debug, PartialEq, Eq, Structural)]
pub enum Error {
    /// A balance would leave the range of `u128`.
    AmountOverflow,
    /// The store behind the state failed to answer.
    Store,
}

/// A withdrawal waiting to be made.
pub struct PrepareWithdrawalRecord {
    pub withdrawal_lock_hash: H256,
    pub amount: u128,
    pub block_number: u64,
}

/// The word a key reads as in the tree leaves `m`: the word stored there, or
/// the zero word for a key that holds none.
pub open spec fn kv_read(m: Map<Seq<u8>, Seq<u8>>, k: Seq<u8>) -> Seq<u8> {
    if m.contains_key(k) {
        m[k]
    } else {
        zero_word()
    }
}

/// The leaves after writing `v` at `k`: writing the zero word deletes the key.
pub open spec fn kv_write(m: Map<Seq<u8>, Seq<u8>>, k: Seq<u8>, v: Seq<u8>) -> Map<
    Seq<u8>,
    Seq<u8>,
> {
    if v == zero_word() {
        m.remove(k)
    } else {
        m.insert(k, v)
    }
}

/// Whether no leaf holds the zero word.
pub open spec fn kv_canonical(m: Map<Seq<u8>, Seq<u8>>) -> bool {
    forall|k: Seq<u8>| #[trigger] m.contains_key(k) ==> m[k] != zero_word()
}

/// The script hash recorded for account `id`.
pub open spec fn script_hash_of(m: Map<Seq<u8>, Seq<u8>>, id: u32) -> Seq<u8> {
    kv_read(m, account_field_key(id, GW_ACCOUNT_SCRIPT_HASH))
}

/// The nonce recorded for account `id`.
pub open spec fn nonce_of(m: Map<Seq<u8>, Seq<u8>>, id: u32) -> u32 {
    word_u32(kv_read(m, account_field_key(id, GW_ACCOUNT_NONCE)))
}

/// The account id recorded for `script_hash`: none where the word kept for
/// it is zero.
pub open spec fn account_id_of(m: Map<Seq<u8>, Seq<u8>>, script_hash: Seq<u8>) -> Option<u32> {
    let v = kv_read(m, script_hash_to_account_id_key(script_hash));
    if v == zero_word() {
        None
    } else {
        Some(word_u32(v))
    }
}

/// The key of the balance of account `id` in token `sudt_id`.
pub open spec fn balance_key(sudt_id: u32, id: u32) -> Seq<u8> {
    account_key(sudt_id, u32_word(id))
}

/// The balance of account `id` in token `sudt_id`.
pub open spec fn sudt_balance_of(m: Map<Seq<u8>, Seq<u8>>, sudt_id: u32, id: u32) -> u128 {
    word_u128(kv_read(m, balance_key(sudt_id, id)))
}

/// The leaves after setting the balance of account `id` in token `sudt_id`.
pub open spec fn with_balance(
    m: Map<Seq<u8>, Seq<u8>>,
    sudt_id: u32,
    id: u32,
    balance: u128,
) -> Map<Seq<u8>, Seq<u8>> {
    kv_write(m, balance_key(sudt_id, id), u128_word(balance))
}

/// Whether `data_hash` is marked as stored.
pub open spec fn data_hash_stored(m: Map<Seq<u8>, Seq<u8>>, data_hash: Seq<u8>) -> bool {
    kv_read(m, data_hash_key(data_hash)) == u32_word(1)
}

/// The leaves after creating account `id` with `script_hash`: nonce zero,
/// the script hash, and the id kept under the script hash.
pub open spec fn after_create(m: Map<Seq<u8>, Seq<u8>>, id: u32, script_hash: Seq<u8>) -> Map<
    Seq<u8>,
    Seq<u8>,
> {
    kv_write(
        kv_write(
            kv_write(m, account_field_key(id, GW_ACCOUNT_NONCE), zero_word()),
            account_field_key(id, GW_ACCOUNT_SCRIPT_HASH),
            script_hash,
        ),
        script_hash_to_account_id_key(script_hash),
        u32_word(id),
    )
}

/// A request to the store behind a state.
pub enum StoreRequest {
    /// Reading the word at a key.
    Read(Seq<u8>),
    /// Writing a word at a key.
    Write(Seq<u8>, Seq<u8>),
    /// Reading the account counter.
    ReadCount,
    /// Setting the account counter.
    WriteCount(u32),
    /// Computing the root.
    Root,
}

/// Which requests a store refuses, and with which error.
pub type Faults = spec_fn(StoreRequest) -> Option<Error>;

/// What reading `key` gives from a store with faults `f` and leaves `kv`:
/// the store's error for the read, or the word the key reads as.
pub open spec fn read_matches(
    f: Faults,
    kv: Map<Seq<u8>, Seq<u8>>,
    key: Seq<u8>,
    r: Result<H256, Error>,
) -> bool {
    match r {
        Ok(v) => f(StoreRequest::Read(key)) is None && v@ == kv_read(kv, key),
        Err(e) => f(StoreRequest::Read(key)) == Some(e),
    }
}

/// What writing `value` at `key` gives, from leaves `old_kv` and counter
/// `old_count` to `new_kv` and `new_count`: the store's error for the write
/// with the state unchanged, or the write done with the counter kept.
pub open spec fn write_matches(
    f: Faults,
    old_kv: Map<Seq<u8>, Seq<u8>>,
    old_count: u32,
    new_kv: Map<Seq<u8>, Seq<u8>>,
    new_count: u32,
    unchanged: bool,
    key: Seq<u8>,
    value: Seq<u8>,
    r: Result<(), Error>,
) -> bool {
    match r {
        Ok(_) => {
            &&& f(StoreRequest::Write(key, value)) is None
            &&& new_kv == kv_write(old_kv, key, value)
            &&& new_count == old_count
        },
        Err(e) => f(StoreRequest::Write(key, value)) == Some(e) && unchanged,
    }
}

/// What creating an account for `script_hash` gives, from leaves `old_kv`
/// and counter `id` to `new_kv` and `new_count`: the first error met
/// (reading the counter, then the three writes, then storing the counter),
/// passed on with the writes made before it kept, or the new id.
pub open spec fn create_account_matches(
    f: Faults,
    old_kv: Map<Seq<u8>, Seq<u8>>,
    id: u32,
    new_kv: Map<Seq<u8>, Seq<u8>>,
    new_count: u32,
    unchanged: bool,
    script_hash: Seq<u8>,
    r: Result<u32, Error>,
) -> bool {
    let nonce_key = account_field_key(id, GW_ACCOUNT_NONCE);
    let hash_key = account_field_key(id, GW_ACCOUNT_SCRIPT_HASH);
    let id_key = script_hash_to_account_id_key(script_hash);
    let m1 = kv_write(old_kv, nonce_key, zero_word());
    let m2 = kv_write(m1, hash_key, script_hash);
    let m3 = kv_write(m2, id_key, u32_word(id));
    match f(StoreRequest::ReadCount) {
        Some(e) => r == Err::<u32, Error>(e) && unchanged,
        None => match f(StoreRequest::Write(nonce_key, zero_word())) {
            Some(e) => r == Err::<u32, Error>(e) && unchanged,
            None => match f(StoreRequest::Write(hash_key, script_hash)) {
                Some(e) => r == Err::<u32, Error>(e) && new_kv == m1 && new_count == id,
                None => match f(StoreRequest::Write(id_key, u32_word(id))) {
                    Some(e) => r == Err::<u32, Error>(e) && new_kv == m2 && new_count == id,
                    None => match f(StoreRequest::WriteCount((id + 1) as u32)) {
                        Some(e) => r == Err::<u32, Error>(e) && new_kv == m3 && new_count == id,
                        None => r == Ok::<u32, Error>(id) && new_kv == m3 && new_count == id + 1,
                    },
                },
            },
        },
    }
}

/// What changing the balance of account `id` in token `sudt_id` by `amount`
/// gives (adding where `mint`, else taking away): the read's error, or
/// `AmountOverflow` where the result leaves `u128` (both with the state
/// unchanged), or what writing the new balance gives.
pub open spec fn balance_change_matches(
    f: Faults,
    old_kv: Map<Seq<u8>, Seq<u8>>,
    old_count: u32,
    new_kv: Map<Seq<u8>, Seq<u8>>,
    new_count: u32,
    unchanged: bool,
    sudt_id: u32,
    id: u32,
    amount: u128,
    mint: bool,
    r: Result<(), Error>,
) -> bool {
    let k = balance_key(sudt_id, id);
    let b = sudt_balance_of(old_kv, sudt_id, id);
    let n: int = if mint {
        b + amount
    } else {
        b - amount
    };
    match f(StoreRequest::Read(k)) {
        Some(e) => r == Err::<(), Error>(e) && unchanged,
        None => if n < 0 || n > u128::MAX {
            r == Err::<(), Error>(Error::AmountOverflow) && unchanged
        } else {
            write_matches(
                f,
                old_kv,
                old_count,
                new_kv,
                new_count,
                unchanged,
                k,
                u128_word(n as u128),
                r,
            )
        },
    }
}

/// The account state of the rollup: a key-value store of 256-bit words
/// (the leaves of the state tree) and an account counter, with the account,
/// token and data-hash operations built on them. Which requests the store
/// refuses, and with which error, is part of the state (`faults`); a
/// refused request changes nothing, and no request changes the faults.
pub trait State: Sized {
    /// The leaves of the state tree.
    spec fn kv(&self) -> Map<Seq<u8>, Seq<u8>>;

    /// The number of accounts.
    spec fn account_count(&self) -> u32;

    /// The error each request to the store fails with, if it fails.
    spec fn faults(&self) -> Faults;

    /// The word stored at `key`.
    fn get_raw(&self, key: &H256) -> (r: Result<H256, Error>)
        ensures
            read_matches(self.faults(), self.kv(), key@, r),
    ;

    /// Stores `value` at `key`.
    fn update_raw(&mut self, key: H256, value: H256) -> (r: Result<(), Error>)
        ensures
            final(self).faults() == old(self).faults(),
            write_matches(
                old(self).faults(),
                old(self).kv(),
                old(self).account_count(),
                final(self).kv(),
                final(self).account_count(),
                *final(self) == *old(self),
                key@,
                value@,
                r,
            ),
    ;

    /// The number of accounts.
    fn get_account_count(&self) -> (r: Result<u32, Error>)
        ensures
            r == match (self.faults())(StoreRequest::ReadCount) {
                Some(e) => Err::<u32, Error>(e),
                None => Ok(self.account_count()),
            },
    ;

    /// Sets the number of accounts.
    fn set_account_count(&mut self, count: u32) -> (r: Result<(), Error>)
        ensures
            final(self).faults() == old(self).faults(),
            match r {
                Ok(_) => {
                    &&& (old(self).faults())(StoreRequest::WriteCount(count)) is None
                    &&& final(self).kv() == old(self).kv()
                    &&& final(self).account_count() == count
                },
                Err(e) => (old(self).faults())(StoreRequest::WriteCount(count)) == Some(e)
                    && *final(self) == *old(self),
            },
    ;

    /// The root of the state tree.
    fn calculate_root(&self) -> (r: Result<H256, Error>)
        ensures
            match r {
                Ok(_) => (self.faults())(StoreRequest::Root) is None,
                Err(e) => (self.faults())(StoreRequest::Root) == Some(e),
            },
    ;

    /// Entry `key` of account `id`.
    fn get_value(&self, id: u32, key: &H256) -> (r: Result<H256, Error>)
        ensures
            read_matches(self.faults(), self.kv(), account_key(id, key@), r),
    {
        let raw_key = build_account_key(id, key.as_slice());
        self.get_raw(&raw_key)
    }

    /// Sets entry `key` of account `id` to `value`.
    fn update_value(&mut self, id: u32, key: &H256, value: H256) -> (r: Result<(), Error>)
        ensures
            final(self).faults() == old(self).faults(),
            write_matches(
                old(self).faults(),
                old(self).kv(),
                old(self).account_count(),
                final(self).kv(),
                final(self).account_count(),
                *final(self) == *old(self),
                account_key(id, key@),
                value@,
                r,
            ),
    {
        let raw_key = build_account_key(id, key.as_slice());
        self.update_raw(raw_key, value)?;
        Ok(())
    }

    /// Creates an account for `script_hash`, with the next free id, and
    /// returns the id.
    fn create_account(&mut self, script_hash: H256) -> (r: Result<u32, Error>)
        requires
            old(self).account_count() < u32::MAX,
        ensures
            final(self).faults() == old(self).faults(),
            create_account_matches(
                old(self).faults(),
                old(self).kv(),
                old(self).account_count(),
                final(self).kv(),
                final(self).account_count(),
                *final(self) == *old(self),
                script_hash@,
                r,
            ),
    {
        let id = self.get_account_count()?;
        self.update_raw(build_account_field_key(id, GW_ACCOUNT_NONCE), H256::zero())?;
        self.update_raw(build_account_field_key(id, GW_ACCOUNT_SCRIPT_HASH), script_hash)?;
        self.update_raw(
            build_script_hash_to_account_id_key(script_hash.as_slice()),
            H256::from_u32(id),
        )?;
        self.set_account_count(id + 1)?;
        Ok(id)
    }

    /// The script hash of account `id`.
    fn get_script_hash(&self, id: u32) -> (r: Result<H256, Error>)
        ensures
            read_matches(
                self.faults(),
                self.kv(),
                account_field_key(id, GW_ACCOUNT_SCRIPT_HASH),
                r,
            ),
    {
        let value = self.get_raw(&build_account_field_key(id, GW_ACCOUNT_SCRIPT_HASH))?;
        Ok(value)
    }

    /// The nonce of account `id`.
    fn get_nonce(&self, id: u32) -> (r: Result<u32, Error>)
        ensures
            match r {
                Ok(n) => (self.faults())(StoreRequest::Read(account_field_key(id, GW_ACCOUNT_NONCE))) is None && n
                    == nonce_of(self.kv(), id),
                Err(e) => (self.faults())(StoreRequest::Read(account_field_key(id, GW_ACCOUNT_NONCE))) == Some(e),
            },
    {
        let value = self.get_raw(&build_account_field_key(id, GW_ACCOUNT_NONCE))?;
        Ok(value.to_u32())
    }

    /// The id of the account with `script_hash`, if one is recorded.
    fn get_account_id_by_script_hash(&self, script_hash: &H256) -> (r: Result<Option<u32>, Error>)
        ensures
            match r {
                Ok(found) => (self.faults())(StoreRequest::Read(script_hash_to_account_id_key(script_hash@))) is None
                    && found == account_id_of(self.kv(), script_hash@),
                Err(e) => (self.faults())(StoreRequest::Read(script_hash_to_account_id_key(script_hash@))) == Some(e),
            },
    {
        let value = self.get_raw(&build_script_hash_to_account_id_key(script_hash.as_slice()))?;
        if value.is_zero() {
            return Ok(None);
        }
        let id = value.to_u32();
        Ok(Some(id))
    }

    /// The balance of account `id` in token `sudt_id`.
    fn get_sudt_balance(&self, sudt_id: u32, id: u32) -> (r: Result<u128, Error>)
        ensures
            match r {
                Ok(b) => (self.faults())(StoreRequest::Read(balance_key(sudt_id, id))) is None && b
                    == sudt_balance_of(self.kv(), sudt_id, id),
                Err(e) => (self.faults())(StoreRequest::Read(balance_key(sudt_id, id))) == Some(e),
            },
    {
        let balance = self.get_value(sudt_id, &H256::from_u32(id))?;
        Ok(balance.to_u128())
    }

    /// Marks `data_hash` as stored.
    fn store_data_hash(&mut self, data_hash: H256) -> (r: Result<(), Error>)
        ensures
            final(self).faults() == old(self).faults(),
            write_matches(
                old(self).faults(),
                old(self).kv(),
                old(self).account_count(),
                final(self).kv(),
                final(self).account_count(),
                *final(self) == *old(self),
                data_hash_key(data_hash@),
                u32_word(1),
                r,
            ),
    {
        let key = build_data_hash_key(data_hash.as_slice());
        self.update_raw(key, H256::one())?;
        Ok(())
    }

    /// Whether `data_hash` is marked as stored.
    fn get_data_hash(&mut self, data_hash: &H256) -> (r: Result<bool, Error>)
        ensures
            *final(self) == *old(self),
            match r {
                Ok(b) => (old(self).faults())(StoreRequest::Read(data_hash_key(data_hash@))) is None && b
                    == data_hash_stored(old(self).kv(), data_hash@),
                Err(e) => (old(self).faults())(StoreRequest::Read(data_hash_key(data_hash@))) == Some(e),
            },
    {
        let key = build_data_hash_key(data_hash.as_slice());
        let v = self.get_raw(&key)?;
        Ok(v.same_as(&H256::one()))
    }

    /// Adds `amount` to the balance of account `id` in token `sudt_id`,
    /// failing with `AmountOverflow` where the sum leaves `u128`.
    fn mint_sudt(&mut self, sudt_id: u32, id: u32, amount: u128) -> (r: Result<(), Error>)
        ensures
            final(self).faults() == old(self).faults(),
            balance_change_matches(
                old(self).faults(),
                old(self).kv(),
                old(self).account_count(),
                final(self).kv(),
                final(self).account_count(),
                *final(self) == *old(self),
                sudt_id,
                id,
                amount,
                true,
                r,
            ),
    {
        let raw_key = build_account_key(sudt_id, H256::from_u32(id).as_slice());
        let balance = self.get_raw(&raw_key)?.to_u128();
        let balance = match balance.checked_add(amount) {
            Some(b) => b,
            None => return Err(Error::AmountOverflow),
        };
        self.update_raw(raw_key, H256::from_u128(balance))?;
        Ok(())
    }

    /// Takes `amount` from the balance of account `id` in token `sudt_id`,
    /// failing with `AmountOverflow` where the balance is smaller.
    fn burn_sudt(&mut self, sudt_id: u32, id: u32, amount: u128) -> (r: Result<(), Error>)
        ensures
            final(self).faults() == old(self).faults(),
            balance_change_matches(
                old(self).faults(),
                old(self).kv(),
                old(self).account_count(),
                final(self).kv(),
                final(self).account_count(),
                *final(self) == *old(self),
                sudt_id,
                id,
                amount,
                false,
                r,
            ),
    {
        let raw_key = build_account_key(sudt_id, H256::from_u32(id).as_slice());
        let balance = self.get_raw(&raw_key)?.to_u128();
        let balance = match balance.checked_sub(amount) {
            Some(b) => b,
            None => return Err(Error::AmountOverflow),
        };
        self.update_raw(raw_key, H256::from_u128(balance))?;
        Ok(())
    }
}

/// A word written at a key reads back from that key; every other key reads
/// as before.
pub proof fn lemma_read_after_write(
    m: Map<Seq<u8>, Seq<u8>>,
    k: Seq<u8>,
    v: Seq<u8>,
    other: Seq<u8>,
)
    ensures
        kv_read(kv_write(m, k, v), k) == v,
        other != k ==> kv_read(kv_write(m, k, v), other) == kv_read(m, other),
{
}

/// A second write at a key replaces the first.
pub proof fn lemma_write_overwrites(m: Map<Seq<u8>, Seq<u8>>, k: Seq<u8>, a: Seq<u8>, b: Seq<u8>)
    ensures
        kv_write(kv_write(m, k, a), k, b) == kv_write(m, k, b),
{
    assert(kv_write(kv_write(m, k, a), k, b) =~= kv_write(m, k, b));
}

/// Writing back the word a key reads as leaves leaves that hold no zero word
/// unchanged.
pub proof fn lemma_write_back(m: Map<Seq<u8>, Seq<u8>>, k: Seq<u8>)
    requires
        kv_canonical(m),
    ensures
        kv_write(m, k, kv_read(m, k)) == m,
{
    assert(kv_write(m, k, kv_read(m, k)) =~= m);
}

/// Writes never leave a zero word in the leaves.
pub proof fn lemma_write_keeps_canonical(m: Map<Seq<u8>, Seq<u8>>, k: Seq<u8>, v: Seq<u8>)
    requires
        kv_canonical(m),
    ensures
        kv_canonical(kv_write(m, k, v)),
{
}

/// Field keys of different accounts, or of different fields, differ.
pub proof fn lemma_account_field_keys_distinct(id1: u32, t1: u8, id2: u32, t2: u8)
    ensures
        (account_field_key(id1, t1) == account_field_key(id2, t2)) <==> (id1 == id2 && t1 == t2),
{
    lemma_u32_word_roundtrip(id1);
    lemma_u32_word_roundtrip(id2);
    if account_field_key(id1, t1) == account_field_key(id2, t2) {
        let f1 = account_field_key(id1, t1);
        let f2 = account_field_key(id2, t2);
        assert(f1[4] == t1 && f2[4] == t2);
        assert(word_u32(f1) == word_u32(u32_word(id1)));
        assert(word_u32(f2) == word_u32(u32_word(id2)));
    }
}

/// After an account is created, its script hash reads back, its nonce is
/// zero, and its id is found by its script hash; except that id 0 is kept
/// as the zero word, which reads as no account. This holds wherever the key
/// kept for the script hash differs from the two field keys of the account.
pub proof fn lemma_create_account_reads(m: Map<Seq<u8>, Seq<u8>>, id: u32, script_hash: Seq<u8>)
    requires
        script_hash_to_account_id_key(script_hash) != account_field_key(id, GW_ACCOUNT_NONCE),
        script_hash_to_account_id_key(script_hash) != account_field_key(
            id,
            GW_ACCOUNT_SCRIPT_HASH,
        ),
    ensures
        script_hash_of(after_create(m, id, script_hash), id) == script_hash,
        nonce_of(after_create(m, id, script_hash), id) == 0,
        id != 0 ==> account_id_of(after_create(m, id, script_hash), script_hash) == Some(id),
        id == 0 ==> account_id_of(after_create(m, id, script_hash), script_hash) is None,
{
    let nonce_key = account_field_key(id, GW_ACCOUNT_NONCE);
    let hash_key = account_field_key(id, GW_ACCOUNT_SCRIPT_HASH);
    let id_key = script_hash_to_account_id_key(script_hash);
    lemma_account_field_keys_distinct(id, GW_ACCOUNT_NONCE, id, GW_ACCOUNT_SCRIPT_HASH);
    let m1 = kv_write(m, nonce_key, zero_word());
    let m2 = kv_write(m1, hash_key, script_hash);
    let m3 = kv_write(m2, id_key, u32_word(id));
    lemma_read_after_write(m, nonce_key, zero_word(), hash_key);
    lemma_read_after_write(m1, hash_key, script_hash, nonce_key);
    lemma_read_after_write(m2, id_key, u32_word(id), hash_key);
    lemma_read_after_write(m2, id_key, u32_word(id), nonce_key);
    lemma_u32_word_zero(id);
    lemma_u32_word_zero(0);
    lemma_u32_word_roundtrip(0);
    lemma_u32_word_roundtrip(id);
}

/// A balance that is set reads back; balances kept under other keys stay.
pub proof fn lemma_balance_after_set(
    m: Map<Seq<u8>, Seq<u8>>,
    sudt_id: u32,
    id: u32,
    balance: u128,
    other_sudt_id: u32,
    other_id: u32,
)
    ensures
        sudt_balance_of(with_balance(m, sudt_id, id, balance), sudt_id, id) == balance,
        balance_key(other_sudt_id, other_id) != balance_key(sudt_id, id) ==> sudt_balance_of(
            with_balance(m, sudt_id, id, balance),
            other_sudt_id,
            other_id,
        ) == sudt_balance_of(m, other_sudt_id, other_id),
{
    lemma_u128_word_roundtrip(balance);
    lemma_read_after_write(
        m,
        balance_key(sudt_id, id),
        u128_word(balance),
        balance_key(other_sudt_id, other_id),
    );
}

/// Minting an amount and then burning the same amount gives the balance
/// back; where the balance was stored as a plain balance word, the leaves
/// are as they were.
pub proof fn lemma_mint_then_burn(m: Map<Seq<u8>, Seq<u8>>, sudt_id: u32, id: u32, amount: u128)
    requires
        sudt_balance_of(m, sudt_id, id) + amount <= u128::MAX,
    ensures
        ({
            let b = sudt_balance_of(m, sudt_id, id);
            let minted = with_balance(m, sudt_id, id, (b + amount) as u128);
            &&& sudt_balance_of(minted, sudt_id, id) == b + amount
            &&& amount <= sudt_balance_of(minted, sudt_id, id)
            &&& with_balance(
                minted,
                sudt_id,
                id,
                (sudt_balance_of(minted, sudt_id, id) - amount) as u128,
            ) == with_balance(m, sudt_id, id, b)
            &&& sudt_balance_of(with_balance(m, sudt_id, id, b), sudt_id, id) == b
            &&& (kv_canonical(m) && kv_read(m, balance_key(sudt_id, id)) == u128_word(b))
                ==> with_balance(m, sudt_id, id, b) == m
        }),
{
    let b = sudt_balance_of(m, sudt_id, id);
    let k = balance_key(sudt_id, id);
    lemma_u128_word_roundtrip((b + amount) as u128);
    lemma_u128_word_roundtrip(b);
    lemma_read_after_write(m, k, u128_word((b + amount) as u128), k);
    lemma_read_after_write(m, k, u128_word(b), k);
    lemma_write_overwrites(m, k, u128_word((b + amount) as u128), u128_word(b));
    if kv_canonical(m) && kv_read(m, k) == u128_word(b) {
        lemma_write_back(m, k);
    }
}

/// A data hash that is stored reads as stored.
pub proof fn lemma_data_hash_stored_after_store(m: Map<Seq<u8>, Seq<u8>>, data_hash: Seq<u8>)
    ensures
        data_hash_stored(kv_write(m, data_hash_key(data_hash), u32_word(1)), data_hash),
{
    lemma_read_after_write(m, data_hash_key(data_hash), u32_word(1), data_hash_key(data_hash));
}

/// Accounts created one after another get fresh ids in order: where the
/// `i`-th of `n` successive creations succeeds from state `i` to state
/// `i + 1`, it returns the starting count plus `i`, and the count ends `n`
/// higher.
pub proof fn lemma_successive_creations(
    faults: Seq<Faults>,
    kvs: Seq<Map<Seq<u8>, Seq<u8>>>,
    counts: Seq<u32>,
    unchanged: Seq<bool>,
    script_hashes: Seq<Seq<u8>>,
    ids: Seq<u32>,
)
    requires
        counts.len() == ids.len() + 1,
        kvs.len() == ids.len() + 1,
        faults.len() == ids.len(),
        unchanged.len() == ids.len(),
        script_hashes.len() == ids.len(),
        forall|i: int|
            0 <= i < ids.len() ==> #[trigger] create_account_matches(
                faults[i],
                kvs[i],
                counts[i],
                kvs[i + 1],
                counts[i + 1],
                unchanged[i],
                script_hashes[i],
                Ok::<u32, Error>(ids[i]),
            ),
    ensures
        forall|i: int| 0 <= i < ids.len() ==> #[trigger] ids[i] == counts[0] + i,
        counts[ids.len() as int] == counts[0] + ids.len(),
        forall|i: int, j: int| 0 <= i < j < ids.len() ==> ids[i] < ids[j],
{
    assert forall|k: int| 0 <= k <= ids.len() implies #[trigger] counts[k] == counts[0] + k by {
        lemma_creation_counts(faults, kvs, counts, unchanged, script_hashes, ids, k);
    }
    assert forall|i: int| 0 <= i < ids.len() implies #[trigger] ids[i] == counts[0] + i by {
        assert(create_account_matches(
            faults[i],
            kvs[i],
            counts[i],
            kvs[i + 1],
            counts[i + 1],
            unchanged[i],
            script_hashes[i],
            Ok::<u32, Error>(ids[i]),
        ));
        assert(counts[i] == counts[0] + i);
    }
}

/// The count after `k` successful creations is `k` higher.
proof fn lemma_creation_counts(
    faults: Seq<Faults>,
    kvs: Seq<Map<Seq<u8>, Seq<u8>>>,
    counts: Seq<u32>,
    unchanged: Seq<bool>,
    script_hashes: Seq<Seq<u8>>,
    ids: Seq<u32>,
    k: int,
)
    requires
        0 <= k <= ids.len(),
        counts.len() == ids.len() + 1,
        kvs.len() == ids.len() + 1,
        faults.len() == ids.len(),
        unchanged.len() == ids.len(),
        script_hashes.len() == ids.len(),
        forall|i: int|
            0 <= i < ids.len() ==> #[trigger] create_account_matches(
                faults[i],
                kvs[i],
                counts[i],
                kvs[i + 1],
                counts[i + 1],
                unchanged[i],
                script_hashes[i],
                Ok::<u32, Error>(ids[i]),
            ),
    ensures
        counts[k] == counts[0] + k,
        0 < k ==> ids[k - 1] == counts[k - 1],
    decreases k,
{
    if k > 0 {
        lemma_creation_counts(faults, kvs, counts, unchanged, script_hashes, ids, k - 1);
        assert(create_account_matches(
            faults[k - 1],
            kvs[k - 1],
            counts[k - 1],
            kvs[(k - 1) + 1],
            counts[(k - 1) + 1],
            unchanged[k - 1],
            script_hashes[k - 1],
            Ok::<u32, Error>(ids[k - 1]),
        ));
    }
}

/// Whether two different messages hash alike under the chain's
/// personalization.
pub open spec fn ckb_hash_collides(a: Seq<u8>, b: Seq<u8>) -> bool {
    a != b && ckb_hash(a) == ckb_hash(b)
}

/// The id a message of at least four bytes begins with, little-endian.
proof fn lemma_message_id(id: u32, rest: Seq<u8>)
    ensures
        word_u32(le_u32_bytes(id) + rest) == id,
{
    lemma_u32_word_roundtrip(id);
    let m = le_u32_bytes(id) + rest;
    let w = u32_word(id);
    assert(m[0] == w[0] && m[1] == w[1] && m[2] == w[2] && m[3] == w[3]);
}

/// Entries of two different accounts, or two different entries of one
/// account, share a key only where the hash collides.
pub proof fn lemma_account_keys_distinct(id1: u32, key1: Seq<u8>, id2: u32, key2: Seq<u8>)
    requires
        account_key(id1, key1) == account_key(id2, key2),
        id1 != id2 || key1 != key2,
    ensures
        exists|a: Seq<u8>, b: Seq<u8>| #[trigger] ckb_hash_collides(a, b),
{
    let m1 = le_u32_bytes(id1) + seq![GW_ACCOUNT_KV] + key1;
    let m2 = le_u32_bytes(id2) + seq![GW_ACCOUNT_KV] + key2;
    lemma_message_id(id1, seq![GW_ACCOUNT_KV] + key1);
    lemma_message_id(id2, seq![GW_ACCOUNT_KV] + key2);
    assert(m1 =~= le_u32_bytes(id1) + (seq![GW_ACCOUNT_KV] + key1));
    assert(m2 =~= le_u32_bytes(id2) + (seq![GW_ACCOUNT_KV] + key2));
    assert(m1.subrange(5, m1.len() as int) =~= key1);
    assert(m2.subrange(5, m2.len() as int) =~= key2);
    assert(m1 != m2);
    assert(ckb_hash_collides(m1, m2));
}

/// Ids of two different script hashes are kept under the same key only
/// where the hash collides, and never under a data-hash key unless it does.
pub proof fn lemma_script_hash_keys_distinct(script_hash: Seq<u8>, other: Seq<u8>)
    ensures
        (script_hash_to_account_id_key(script_hash) == script_hash_to_account_id_key(other)
            && script_hash != other) ==> exists|a: Seq<u8>, b: Seq<u8>| #[trigger]
            ckb_hash_collides(a, b),
        script_hash_to_account_id_key(script_hash) == data_hash_key(other) ==> exists|
            a: Seq<u8>,
            b: Seq<u8>,
        | #[trigger] ckb_hash_collides(a, b),
{
    let m1 = GW_SCRIPT_HASH_TO_ID_PREFIX@ + script_hash;
    let m2 = GW_SCRIPT_HASH_TO_ID_PREFIX@ + other;
    let m3 = GW_DATA_HASH_PREFIX@ + other;
    assert(m1[4] == 3u8 && m3[4] == 4u8);
    assert(m1 != m3);
    assert(m1.subrange(5, m1.len() as int) =~= script_hash);
    assert(m2.subrange(5, m2.len() as int) =~= other);
    if script_hash_to_account_id_key(script_hash) == script_hash_to_account_id_key(other)
        && script_hash != other {
        assert(ckb_hash_collides(m1, m2));
    }
    if script_hash_to_account_id_key(script_hash) == data_hash_key(other) {
        assert(ckb_hash_collides(m1, m3));
    }
}

/// A nonce that is written reads back as the number written.
pub proof fn lemma_nonce_after_write(m: Map<Seq<u8>, Seq<u8>>, id: u32, nonce: u32)
    ensures
        nonce_of(kv_write(m, account_field_key(id, GW_ACCOUNT_NONCE), u32_word(nonce)), id)
            == nonce,
{
    lemma_u32_word_roundtrip(nonce);
    lemma_read_after_write(
        m,
        account_field_key(id, GW_ACCOUNT_NONCE),
        u32_word(nonce),
        account_field_key(id, GW_ACCOUNT_NONCE),
    );
}

/// An account id that is written under a script hash is found by that
/// script hash, except id 0, which is the zero word and reads as no account.
pub proof fn lemma_account_id_after_write(m: Map<Seq<u8>, Seq<u8>>, script_hash: Seq<u8>, id: u32)
    ensures
        id != 0 ==> account_id_of(
            kv_write(m, script_hash_to_account_id_key(script_hash), u32_word(id)),
            script_hash,
        ) == Some(id),
        id == 0 ==> account_id_of(
            kv_write(m, script_hash_to_account_id_key(script_hash), u32_word(id)),
            script_hash,
        ) is None,
{
    let k = script_hash_to_account_id_key(script_hash);
    lemma_u32_word_roundtrip(id);
    lemma_u32_word_zero(id);
    lemma_read_after_write(m, k, u32_word(id), k);
}

/// What a successful account creation did: it took the counter as the id,
/// raised the counter by one, and left the leaves with nonce zero, the
/// script hash, and the id found under the script hash (for every id but 0).
/// This holds wherever the key kept for the script hash differs from the
/// account's two field keys.
pub proof fn lemma_create_account_success(
    f: Faults,
    old_kv: Map<Seq<u8>, Seq<u8>>,
    count: u32,
    new_kv: Map<Seq<u8>, Seq<u8>>,
    new_count: u32,
    unchanged: bool,
    script_hash: Seq<u8>,
    id: u32,
)
    requires
        create_account_matches(
            f,
            old_kv,
            count,
            new_kv,
            new_count,
            unchanged,
            script_hash,
            Ok::<u32, Error>(id),
        ),
        script_hash_to_account_id_key(script_hash) != account_field_key(count, GW_ACCOUNT_NONCE),
        script_hash_to_account_id_key(script_hash) != account_field_key(
            count,
            GW_ACCOUNT_SCRIPT_HASH,
        ),
    ensures
        id == count,
        new_count == count + 1,
        new_kv == after_create(old_kv, id, script_hash),
        script_hash_of(new_kv, id) == script_hash,
        nonce_of(new_kv, id) == 0,
        id != 0 ==> account_id_of(new_kv, script_hash) == Some(id),
{
    lemma_create_account_reads(old_kv, id, script_hash);
}

/// Where the store refuses none of its five requests, creating an account
/// succeeds with the counter as the id.
pub proof fn lemma_create_account_succeeds(
    f: Faults,
    old_kv: Map<Seq<u8>, Seq<u8>>,
    count: u32,
    new_kv: Map<Seq<u8>, Seq<u8>>,
    new_count: u32,
    unchanged: bool,
    script_hash: Seq<u8>,
    r: Result<u32, Error>,
)
    requires
        create_account_matches(f, old_kv, count, new_kv, new_count, unchanged, script_hash, r),
        f(StoreRequest::ReadCount) is None,
        f(StoreRequest::Write(account_field_key(count, GW_ACCOUNT_NONCE), zero_word())) is None,
        f(StoreRequest::Write(account_field_key(count, GW_ACCOUNT_SCRIPT_HASH), script_hash))
            is None,
        f(StoreRequest::Write(script_hash_to_account_id_key(script_hash), u32_word(count)))
            is None,
        f(StoreRequest::WriteCount((count + 1) as u32)) is None,
    ensures
        r == Ok::<u32, Error>(count),
{
}

/// Minting onto a store that refuses neither the read nor the write
/// succeeds exactly when the sum fits in `u128`, and then the balance is the
/// old balance plus the amount while other balances stay; otherwise it fails
/// with `AmountOverflow` and changes nothing.
pub proof fn lemma_mint_outcome(
    f: Faults,
    old_kv: Map<Seq<u8>, Seq<u8>>,
    old_count: u32,
    new_kv: Map<Seq<u8>, Seq<u8>>,
    new_count: u32,
    unchanged: bool,
    sudt_id: u32,
    id: u32,
    amount: u128,
    r: Result<(), Error>,
    other_sudt_id: u32,
    other_id: u32,
)
    requires
        balance_change_matches(
            f,
            old_kv,
            old_count,
            new_kv,
            new_count,
            unchanged,
            sudt_id,
            id,
            amount,
            true,
            r,
        ),
        f(StoreRequest::Read(balance_key(sudt_id, id))) is None,
        f(
            StoreRequest::Write(
                balance_key(sudt_id, id),
                u128_word((sudt_balance_of(old_kv, sudt_id, id) + amount) as u128),
            ),
        ) is None,
    ensures
        r is Ok <==> sudt_balance_of(old_kv, sudt_id, id) + amount <= u128::MAX,
        r is Ok ==> sudt_balance_of(new_kv, sudt_id, id) == sudt_balance_of(old_kv, sudt_id, id)
            + amount,
        r is Ok && balance_key(other_sudt_id, other_id) != balance_key(sudt_id, id)
            ==> sudt_balance_of(new_kv, other_sudt_id, other_id) == sudt_balance_of(
            old_kv,
            other_sudt_id,
            other_id,
        ),
        r is Err ==> r == Err::<(), Error>(Error::AmountOverflow) && unchanged,
{
    let b = sudt_balance_of(old_kv, sudt_id, id);
    if b + amount <= u128::MAX {
        lemma_balance_after_set(old_kv, sudt_id, id, (b + amount) as u128, other_sudt_id, other_id);
    }
}

/// Burning from a store that refuses neither the read nor the write
/// succeeds exactly when the balance covers the amount, and then the balance
/// is the old balance less the amount while other balances stay; otherwise
/// it fails with `AmountOverflow` and changes nothing.
pub proof fn lemma_burn_outcome(
    f: Faults,
    old_kv: Map<Seq<u8>, Seq<u8>>,
    old_count: u32,
    new_kv: Map<Seq<u8>, Seq<u8>>,
    new_count: u32,
    unchanged: bool,
    sudt_id: u32,
    id: u32,
    amount: u128,
    r: Result<(), Error>,
    other_sudt_id: u32,
    other_id: u32,
)
    requires
        balance_change_matches(
            f,
            old_kv,
            old_count,
            new_kv,
            new_count,
            unchanged,
            sudt_id,
            id,
            amount,
            false,
            r,
        ),
        f(StoreRequest::Read(balance_key(sudt_id, id))) is None,
        f(
            StoreRequest::Write(
                balance_key(sudt_id, id),
                u128_word((sudt_balance_of(old_kv, sudt_id, id) - amount) as u128),
            ),
        ) is None,
    ensures
        r is Ok <==> amount <= sudt_balance_of(old_kv, sudt_id, id),
        r is Ok ==> sudt_balance_of(new_kv, sudt_id, id) == sudt_balance_of(old_kv, sudt_id, id)
            - amount,
        r is Ok && balance_key(other_sudt_id, other_id) != balance_key(sudt_id, id)
            ==> sudt_balance_of(new_kv, other_sudt_id, other_id) == sudt_balance_of(
            old_kv,
            other_sudt_id,
            other_id,
        ),
        r is Err ==> r == Err::<(), Error>(Error::AmountOverflow) && unchanged,
{
    let b = sudt_balance_of(old_kv, sudt_id, id);
    if amount <= b {
        lemma_balance_after_set(old_kv, sudt_id, id, (b - amount) as u128, other_sudt_id, other_id);
    }
}

/// A data hash whose marker key holds nothing is not found as stored.
pub proof fn lemma_data_hash_absent(m: Map<Seq<u8>, Seq<u8>>, data_hash: Seq<u8>)
    requires
        !m.contains_key(data_hash_key(data_hash)),
    ensures
        !data_hash_stored(m, data_hash),
{
    lemma_u32_word_zero(1);
}

} // verus!
