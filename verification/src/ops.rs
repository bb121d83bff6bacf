//! Actors, causal counters and operations: the units the merge engine folds.

use vstd::prelude::*;

verus! {

/// An actor's public signing key, 32 bytes.
pub type UserPubKey = Vec<u8>;

/// An actor's secret signing key, 64 bytes.
pub type UserSecKey = Vec<u8>;

/// A causal counter: the per-actor strictly increasing sequence number that
/// orders that actor's own operations.
pub type Counter = u64;

pub open spec fn pub_key_wf(k: Seq<u8>) -> bool {
    k.len() == 32
}

pub open spec fn sec_key_wf(k: Seq<u8>) -> bool {
    k.len() == 64
}

/// The signing identity of one actor. The secret key never leaves the
/// context that owns it.
pub struct Account {
    pub pk: UserPubKey,
    pub sk: UserSecKey,
}

impl Account {
    pub open spec fn wf(self) -> bool {
        pub_key_wf(self.pk@) && sec_key_wf(self.sk@)
    }
}

pub fn create_account(pk: UserPubKey, sk: UserSecKey) -> (r: Account)
    ensures
        r.pk == pk,
        r.sk == sk,
{
    Account { pk, sk }
}

/// The part of an operation that is persisted inside its actor's sub-log:
/// the causal counter, the mutation payload, and a signature over both.
#[derive(Debug)]
pub struct OperationSigned<D> {
    pub counter: Counter,
    pub description: D,
    pub signature: Vec<u8>,
}

/// A full operation: the persisted record together with the public key of
/// the actor whose sub-log held it.
#[derive(Debug)]
pub struct Operation<D> {
    pub user_pub_key: UserPubKey,
    pub data: OperationSigned<D>,
}

/// The mathematical picture of an operation, over plain sequences.
#[verifier::ext_equal]
pub struct OpModel<D> {
    pub actor: Seq<u8>,
    pub counter: nat,
    pub description: D,
    pub signature: Seq<u8>,
}

impl<D> OpModel<D> {
    /// The identifier under which the merge engine deduplicates: operations
    /// with one (actor, counter) pair are folded in at most once.
    pub open spec fn id(self) -> (Seq<u8>, nat) {
        (self.actor, self.counter)
    }
}

impl<D> Operation<D> {
    pub open spec fn model(self) -> OpModel<D> {
        OpModel {
            actor: self.user_pub_key@,
            counter: self.data.counter as nat,
            description: self.data.description,
            signature: self.data.signature@,
        }
    }
}

/// Byte-wise equality of two keys, proved rather than taken from a derived
/// implementation.
pub fn bytes_eq(a: &Vec<u8>, b: &Vec<u8>) -> (r: bool)
    ensures
        r <==> a@ == b@,
{
    if a.len() != b.len() {
        return false;
    }
    let mut i: usize = 0;
    while i < a.len()
        invariant
            i <= a.len(),
            a@.len() == b@.len(),
            forall|k: int| 0 <= k < i ==> a@[k] == b@[k],
        decreases a.len() - i,
    {
        if a[i] != b[i] {
            return false;
        }
        i += 1;
    }
    proof {
        assert(a@ =~= b@);
    }
    true
}

/// A verified copy of a byte vector.
pub fn clone_bytes(v: &Vec<u8>) -> (r: Vec<u8>)
    ensures
        r@ == v@,
{
    let mut r: Vec<u8> = Vec::new();
    let mut i: usize = 0;
    while i < v.len()
        invariant
            i <= v.len(),
            r@ == v@.subrange(0, i as int),
        decreases v.len() - i,
    {
        r.push(v[i]);
        proof {
            assert(r@ =~= v@.subrange(0, i + 1 as int));
        }
        i += 1;
    }
    proof {
        assert(v@.subrange(0, v@.len() as int) =~= v@);
    }
    r
}

} // verus!
