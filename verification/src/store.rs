//! The content-addressed contract store: bytecode blobs keyed by the
//! BLAKE2s-256 digest of their bytes. Storing the same bytes always yields
//! the same key.

use vstd::prelude::*;
use blake2::Digest;
use crate::bytes::bytes_eq;
use crate::bytes::copy_bytes;

verus! {

/// The BLAKE2s-256 digest of a byte string.
pub uninterp spec fn blake2s_of(data: Seq<u8>) -> Seq<u8>;

/// Relies on blake2::Blake2s256: a 32-byte digest depending on the input
/// bytes alone.
#[verifier::external_body]
fn blake2s_digest(data: &Vec<u8>) -> (r: Vec<u8>)
    ensures
        r@ == blake2s_of(data@),
        r@.len() == 32,
{
    let mut h = blake2::Blake2s256::new();
    h.update(data.as_slice());
    h.finalize().to_vec()
}

/// A contract: its content-addressed key and its bytecode.
pub struct Contract {
    key: Vec<u8>,
    data: Vec<u8>,
}

impl Contract {
    /// The key is the digest of the bytecode.
    pub open spec fn well_formed(self) -> bool {
        self.spec_key() == blake2s_of(self.spec_data()) && self.spec_key().len() == 32
    }

    /// The contract's key bytes.
    pub closed spec fn spec_key(self) -> Seq<u8> {
        self.key@
    }

    /// The contract's bytecode.
    pub closed spec fn spec_data(self) -> Seq<u8> {
        self.data@
    }

    /// Wrap bytecode, deriving its content-addressed key. The same bytes
    /// always produce the same key.
    pub fn new(data: Vec<u8>) -> (r: Contract)
        ensures
            r.well_formed(),
            r.spec_data() == data@,
            r.spec_key() == blake2s_of(data@),
    {
        let key = blake2s_digest(&data);
        Contract { key, data }
    }

    /// The contract's key bytes.
    pub fn key(&self) -> (r: Vec<u8>)
        ensures
            r@ == self.spec_key(),
    {
        copy_bytes(&self.key)
    }

    /// The contract's bytecode.
    pub fn data(&self) -> (r: &Vec<u8>)
        ensures
            r@ == self.spec_data(),
    {
        &self.data
    }
}

/// An in-memory content-addressed store of contract bytecode.
pub struct ContractStore {
    entries: Vec<Contract>,
    max_size: usize,
}

impl ContractStore {
    /// Every stored contract is well formed.
    pub closed spec fn inv(self) -> bool {
        forall|i: int| 0 <= i < self.entries@.len() ==> (#[trigger] self.entries@[i]).well_formed()
    }

    /// The keys the store holds.
    pub closed spec fn spec_keys(self) -> Seq<Seq<u8>> {
        self.entries@.map_values(|c: Contract| c.spec_key())
    }

    /// Whether the store holds bytecode under `key`.
    pub open spec fn spec_contains(self, key: Seq<u8>) -> bool {
        self.spec_keys().contains(key)
    }

    /// The bytecode stored under `key` (the first matching entry).
    pub closed spec fn spec_get(self, key: Seq<u8>) -> Seq<u8> {
        self.entries@[self.spec_keys().index_of_first(key).unwrap()].spec_data()
    }

    /// An empty store with the given capacity hint in bytes.
    pub fn new(max_size: usize) -> (r: ContractStore)
        ensures
            r.inv(),
            forall|k: Seq<u8>| !r.spec_contains(k),
    {
        ContractStore { entries: Vec::new(), max_size }
    }

    /// Store a contract. Afterwards its bytecode can be fetched under its
    /// key — for a fresh key, exactly the stored bytes — and the keys and
    /// bytecode already present are untouched.
    pub fn store_contract(&mut self, contract: Contract)
        requires
            old(self).inv(),
            contract.well_formed(),
        ensures
            final(self).inv(),
            final(self).spec_contains(contract.spec_key()),
            forall|k: Seq<u8>|
                #[trigger] final(self).spec_contains(k) <==> (old(self).spec_contains(k) || k
                    == contract.spec_key()),
            !old(self).spec_contains(contract.spec_key()) ==> final(self).spec_get(
                contract.spec_key(),
            ) == contract.spec_data(),
            forall|k: Seq<u8>| #[trigger]
                old(self).spec_contains(k) ==> final(self).spec_get(k) == old(self).spec_get(k),
    {
        let ghost pre = self.entries@;
        self.entries.push(contract);
        proof {
            assert forall|k: Seq<u8>| #[trigger]
                self.spec_keys().contains(k) <==> (pre.map_values(
                    |c: Contract| c.spec_key(),
                ).contains(k) || k == contract.spec_key()) by {
                let ks = self.spec_keys();
                let ks0 = pre.map_values(|c: Contract| c.spec_key());
                if ks.contains(k) {
                    let i = choose|i: int| 0 <= i < ks.len() && ks[i] == k;
                    if i < pre.len() {
                        assert(ks0[i] == k);
                    }
                }
                if ks0.contains(k) {
                    let i = choose|i: int| 0 <= i < ks0.len() && ks0[i] == k;
                    assert(ks[i] == k);
                }
                if k == contract.spec_key() {
                    assert(ks[ks.len() - 1] == k);
                }
            }
            let ks = self.spec_keys();
            let ks0 = pre.map_values(|c: Contract| c.spec_key());
            assert(forall|j: int| 0 <= j < ks0.len() ==> ks[j] == ks0[j]);
            if !old(self).spec_contains(contract.spec_key()) {
                let ck = contract.spec_key();
                assert(ks.contains(ck)) by {
                    assert(ks[ks.len() - 1] == ck);
                }
                ks.index_of_first_ensures(ck);
                let f = ks.index_of_first(ck).unwrap();
                assert(f == ks.len() - 1) by {
                    if f < ks0.len() {
                        assert(ks0[f] == ck);
                        assert(ks0.contains(ck));
                    }
                }
                assert(self.spec_get(ck) == contract.spec_data());
            }
            assert forall|k: Seq<u8>| #[trigger]
                old(self).spec_contains(k) implies self.spec_get(k) == old(self).spec_get(k) by {
                let w = choose|w: int| 0 <= w < ks0.len() && ks0[w] == k;
                assert(ks[w] == k);
                assert(ks.contains(k) && ks0.contains(k));
                ks.index_of_first_ensures(k);
                ks0.index_of_first_ensures(k);
                let f1 = ks.index_of_first(k).unwrap();
                let f0 = ks0.index_of_first(k).unwrap();
                assert(f1 <= f0) by {
                    assert(ks[f0] == k);
                }
                assert(ks0[f1] == k);
                assert(f0 <= f1);
                assert(self.entries@[f1] == pre[f0]);
            }
        }
    }

    /// The bytecode stored under `key`, if any.
    pub fn fetch_contract(&self, key: &Vec<u8>) -> (r: Option<Vec<u8>>)
        requires
            self.inv(),
        ensures
            r is Some <==> self.spec_contains(key@),
            r is Some ==> r.unwrap()@ == self.spec_get(key@),
    {
        let n = self.entries.len();
        let mut i: usize = 0;
        while i < n
            invariant
                self.inv(),
                n == self.entries@.len(),
                i <= n,
                forall|k: int| 0 <= k < i ==> (#[trigger] self.entries@[k]).spec_key() != key@,
            decreases n - i,
        {
            if bytes_eq(&self.entries[i].key, key) {
                proof {
                    let ks = self.spec_keys();
                    assert(ks[i as int] == key@);
                    assert(ks.contains(key@));
                    ks.index_of_first_ensures(key@);
                    let f = ks.index_of_first(key@);
                    assert(f is Some);
                    assert(f.unwrap() == i) by {
                        if f.unwrap() < i {
                            assert(self.entries@[f.unwrap()].spec_key() == key@);
                        }
                    }
                }
                return Some(copy_bytes(&self.entries[i].data));
            }
            i = i + 1;
        }
        proof {
            if self.spec_contains(key@) {
                let w = choose|w: int|
                    0 <= w < self.spec_keys().len() && self.spec_keys()[w] == key@;
                assert(self.entries@[w].spec_key() == key@);
            }
        }
        None
    }
}

} // verus!
