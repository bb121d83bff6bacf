//! The actor identity provider: a keystore of signing keypairs, one per
//! dataset location. Identity is scoped to a location, not to a user or
//! machine, so a duplicated working copy never reuses another copy's
//! counter sequence. Loading and persisting the keystore document is the
//! caller's concern; every decision about its contents is made here.
//!
//! The keystore persists secret keys in plain text. That is a known
//! weakness of this design: a security-sensitive deployment must layer
//! at-rest protection on top.

use vstd::prelude::*;

use crate::ops::{bytes_eq, clone_bytes, pub_key_wf, sec_key_wf, UserPubKey, UserSecKey};
use crate::trusted::{gen_keypair, hash_of_str, hash_str};

verus! {

/// The keypair that signs operations created in one dataset location. It
/// is not needed to read operations, and should stay private to its
/// location.
pub struct DirectoryLevelUserInfo {
    pub pk: UserPubKey,
    pub sk: UserSecKey,
}

impl DirectoryLevelUserInfo {
    pub open spec fn wf(self) -> bool {
        pub_key_wf(self.pk@) && sec_key_wf(self.sk@)
    }

    pub open spec fn pair_view(self) -> (Seq<u8>, Seq<u8>) {
        (self.pk@, self.sk@)
    }
}

/// The machine-level keypair: a reserved extension point for attesting the
/// per-location keys, not required for the merge protocol.
pub struct ComputerLevelUserInfo {
    pub computer_pk: UserPubKey,
    pub computer_sk: UserSecKey,
}

impl ComputerLevelUserInfo {
    pub open spec fn wf(self) -> bool {
        pub_key_wf(self.computer_pk@) && sec_key_wf(self.computer_sk@)
    }
}

/// The persisted keystore: the machine-level pair, and one pair per
/// dataset location, keyed by the hash of the location's canonical path.
pub struct SavedKeys {
    pub computer_level_user_info: ComputerLevelUserInfo,
    pub dir_level_keys: Vec<(Vec<u8>, DirectoryLevelUserInfo)>,
}

pub open spec fn has_key(keys: Seq<(Vec<u8>, DirectoryLevelUserInfo)>, k: Seq<u8>) -> bool {
    exists|i: int| 0 <= i < keys.len() && (#[trigger] keys[i]).0@ == k
}

pub open spec fn key_index(keys: Seq<(Vec<u8>, DirectoryLevelUserInfo)>, k: Seq<u8>) -> int {
    choose|i: int| 0 <= i < keys.len() && (#[trigger] keys[i]).0@ == k
}

impl SavedKeys {
    /// The keystore as a map from location hash to keypair.
    pub open spec fn dir_keys_map(self) -> Map<Seq<u8>, (Seq<u8>, Seq<u8>)> {
        Map::new(
            |k: Seq<u8>| has_key(self.dir_level_keys@, k),
            |k: Seq<u8>| self.dir_level_keys@[key_index(self.dir_level_keys@, k)].1.pair_view(),
        )
    }

    /// No location hash occurs twice, and every stored pair has keys of
    /// the right lengths.
    pub open spec fn wf(self) -> bool {
        &&& self.computer_level_user_info.wf()
        &&& forall|i: int, j: int|
            0 <= i < j < self.dir_level_keys@.len() ==> (#[trigger] self.dir_level_keys@[i]).0@
                != (#[trigger] self.dir_level_keys@[j]).0@
        &&& forall|i: int|
            0 <= i < self.dir_level_keys@.len() ==> (#[trigger] self.dir_level_keys@[i]).1.wf()
    }

    /// Looks up the keypair of the location hashed to `k`; generates,
    /// stores and returns a fresh one if the location has none yet. A
    /// location that already has a pair always gets that pair back,
    /// unchanged.
    pub fn get_or_create_by_key(&mut self, k: &Vec<u8>) -> (r: DirectoryLevelUserInfo)
        requires
            old(self).wf(),
        ensures
            final(self).wf(),
            r.wf(),
            final(self).computer_level_user_info == old(self).computer_level_user_info,
            if old(self).dir_keys_map().contains_key(k@) {
                &&& r.pair_view() == old(self).dir_keys_map()[k@]
                &&& final(self).dir_keys_map() == old(self).dir_keys_map()
            } else {
                final(self).dir_keys_map() == old(self).dir_keys_map().insert(k@, r.pair_view())
            },
    {
        let ghost keys0 = self.dir_level_keys@;
        let mut i: usize = 0;
        while i < self.dir_level_keys.len()
            invariant
                i <= keys0.len(),
                *self == *old(self),
                old(self).wf(),
                self.dir_level_keys@ == keys0,
                forall|j: int| 0 <= j < i ==> (#[trigger] keys0[j]).0@ != k@,
            decreases keys0.len() - i,
        {
            if bytes_eq(&self.dir_level_keys[i].0, k) {
                let found = &self.dir_level_keys[i].1;
                let r = DirectoryLevelUserInfo {
                    pk: clone_bytes(&found.pk),
                    sk: clone_bytes(&found.sk),
                };
                proof {
                    assert(keys0[i as int].0@ == k@);
                    assert(has_key(keys0, k@));
                    let w = key_index(keys0, k@);
                    assert(keys0[w].0@ == k@);
                    assert(w == i as int);
                    assert(self.dir_keys_map().contains_key(k@));
                    assert(r.pair_view() == self.dir_keys_map()[k@]);
                    assert((*self).wf());
                }
                return r;
            }
            i += 1;
        }
        proof {
            assert(!has_key(keys0, k@));
            assert(!self.dir_keys_map().contains_key(k@));
        }
        let (pk, sk) = gen_keypair();
        let fresh = DirectoryLevelUserInfo { pk, sk };
        let r = DirectoryLevelUserInfo {
            pk: clone_bytes(&fresh.pk),
            sk: clone_bytes(&fresh.sk),
        };
        self.dir_level_keys.push((clone_bytes(k), fresh));
        proof {
            let keys1 = self.dir_level_keys@;
            assert(keys1 =~= keys0.push((self.dir_level_keys@[keys0.len() as int].0,
                self.dir_level_keys@[keys0.len() as int].1)));
            let m0 = Map::new(
                |x: Seq<u8>| has_key(keys0, x),
                |x: Seq<u8>| keys0[key_index(keys0, x)].1.pair_view(),
            );
            assert forall|x: Seq<u8>| #[trigger]
                has_key(keys1, x) implies has_key(keys0, x) || x == k@ by {
                let w = choose|w: int| 0 <= w < keys1.len() && (#[trigger] keys1[w]).0@ == x;
                if w < keys0.len() {
                    assert(keys0[w].0@ == x);
                } else {
                    assert(x == k@);
                }
            };
            assert forall|x: Seq<u8>| has_key(keys0, x) implies #[trigger] has_key(keys1, x) by {
                let w = choose|w: int| 0 <= w < keys0.len() && (#[trigger] keys0[w]).0@ == x;
                assert(keys1[w].0@ == x);
            };
            assert(has_key(keys1, k@)) by {
                assert(keys1[keys0.len() as int].0@ == k@);
            };
            assert forall|x: Seq<u8>| has_key(keys1, x) && x != k@ implies keys1[key_index(
                keys1,
                x,
            )].1.pair_view() == keys0[key_index(keys0, x)].1.pair_view() by {
                let w1 = key_index(keys1, x);
                assert(0 <= w1 < keys1.len() && keys1[w1].0@ == x);
                assert(w1 < keys0.len());
                assert(keys0[w1].0@ == x);
                let w0 = key_index(keys0, x);
                assert(0 <= w0 < keys0.len() && keys0[w0].0@ == x);
                assert(w0 == w1);
            };
            assert(keys1[key_index(keys1, k@)].1.pair_view() == r.pair_view()) by {
                let w = key_index(keys1, k@);
                assert(0 <= w < keys1.len() && keys1[w].0@ == k@);
                assert(w == keys0.len() as int);
            };
            assert(self.dir_keys_map() =~= m0.insert(k@, r.pair_view()));
            assert forall|p: int, q: int|
                0 <= p < q < keys1.len() implies (#[trigger] keys1[p]).0@
                != (#[trigger] keys1[q]).0@ by {
                if q == keys0.len() as int {
                    assert(keys0[p].0@ != k@);
                }
            };
        }
        r
    }

    /// Resolves the identity for a dataset location given its canonical
    /// path: the path's hash keys the store.
    pub fn get_keypair(&mut self, context_path: &str) -> (r: DirectoryLevelUserInfo)
        requires
            old(self).wf(),
        ensures
            final(self).wf(),
            r.wf(),
            final(self).computer_level_user_info == old(self).computer_level_user_info,
            if old(self).dir_keys_map().contains_key(hash_of_str(context_path@)) {
                &&& r.pair_view() == old(self).dir_keys_map()[hash_of_str(context_path@)]
                &&& final(self).dir_keys_map() == old(self).dir_keys_map()
            } else {
                final(self).dir_keys_map() == old(self).dir_keys_map().insert(
                    hash_of_str(context_path@),
                    r.pair_view(),
                )
            },
    {
        let k = hash_str(context_path);
        self.get_or_create_by_key(&k)
    }
}

/// A fresh keystore for a machine that has none yet: a newly generated
/// machine-level pair and no per-location pairs.
pub fn new_keystore() -> (r: SavedKeys)
    ensures
        r.wf(),
        r.dir_keys_map() == Map::<Seq<u8>, (Seq<u8>, Seq<u8>)>::empty(),
{
    let (pk, sk) = gen_keypair();
    let r = SavedKeys {
        computer_level_user_info: ComputerLevelUserInfo { computer_pk: pk, computer_sk: sk },
        dir_level_keys: Vec::new(),
    };
    proof {
        assert(r.dir_keys_map() =~= Map::<Seq<u8>, (Seq<u8>, Seq<u8>)>::empty());
    }
    r
}

/// Resolving identity twice for one location returns the identical pair:
/// however the first resolution left the store, the second finds the pair
/// it recorded and changes nothing.
pub proof fn lemma_identity_stable(
    m0: Map<Seq<u8>, (Seq<u8>, Seq<u8>)>,
    m1: Map<Seq<u8>, (Seq<u8>, Seq<u8>)>,
    m2: Map<Seq<u8>, (Seq<u8>, Seq<u8>)>,
    k: Seq<u8>,
    r1: (Seq<u8>, Seq<u8>),
    r2: (Seq<u8>, Seq<u8>),
)
    requires
        if m0.contains_key(k) {
            r1 == m0[k] && m1 == m0
        } else {
            m1 == m0.insert(k, r1)
        },
        if m1.contains_key(k) {
            r2 == m1[k] && m2 == m1
        } else {
            m2 == m1.insert(k, r2)
        },
    ensures
        r2 == r1,
        m2 == m1,
{
    assert(m1.contains_key(k));
    assert(m1[k] == r1);
}

} // verus!
