//! The generic merge engine: folds operations into a replicated value under
//! an algebra that is commutative and idempotent, so the fold of a set of
//! operations does not depend on the order in which they arrive.

use vstd::prelude::*;

use crate::codec::{u64_le, u64_to_le_bytes};
use crate::ops::{bytes_eq, clone_bytes, Account, Counter, OpModel, Operation, OperationSigned,
    UserPubKey};
use crate::trusted::{sig_of, sign_bytes};

verus! {

/// The capability interface of a replicated value: how a mutation
/// description merges into the value, how descriptions are read from text
/// and serialized, and how the value is shown. The engine is parametrized
/// over this interface, never over a closed list of concrete types.
pub trait Applyable: Sized {
    type Description;

    /// The mathematical merge of one description into the value.
    spec fn merge_spec(v: Self, d: Self::Description) -> Self;

    /// The law the engine rests on: folding two descriptions in either
    /// order yields the same value. For a merge function that is
    /// commutative and associative this always holds.
    proof fn merge_commutes(v: Self, a: Self::Description, b: Self::Description)
        ensures
            Self::merge_spec(Self::merge_spec(v, a), b) == Self::merge_spec(
                Self::merge_spec(v, b),
                a,
            ),
    ;

    fn merge(&self, d: &Self::Description) -> (r: Self)
        ensures
            r == Self::merge_spec(*self, *d),
    ;

    /// What `parse` returns on any text.
    spec fn parse_spec(text: Seq<char>) -> Option<Self::Description>;

    /// Reads a description from one line of text; `None` on text that does
    /// not describe a mutation of this type.
    fn parse(text: &str) -> (r: Option<Self::Description>)
        ensures
            r == Self::parse_spec(text@),
    ;

    /// The byte serialization of a description, as persisted and signed.
    spec fn desc_bytes_spec(d: Self::Description) -> Seq<u8>;

    fn desc_bytes(d: &Self::Description) -> (r: Vec<u8>)
        ensures
            r@ == Self::desc_bytes_spec(*d),
    ;

    /// What `display` returns on any value.
    spec fn display_spec(self) -> Seq<char>;

    /// The presentation of the current value; not part of the merge algebra.
    fn display(&self) -> (r: String)
        ensures
            r@ == Self::display_spec(*self),
    ;
}

/// The genesis record of a replicated dataset: the initial value and a
/// dataset identifier, created once when a project is first established.
pub struct CRDTInfo<T> {
    pub value: T,
    pub id: u64,
}

pub fn create_crdt_info<T>(value: T, id: u64) -> (r: CRDTInfo<T>)
    ensures
        r.value == value,
        r.id == id,
{
    CRDTInfo { value, id }
}

/// An applied-operation identifier as the engine stores it.
pub struct OpId {
    pub actor: UserPubKey,
    pub counter: Counter,
}

impl OpId {
    pub open spec fn id_spec(self) -> (Seq<u8>, nat) {
        (self.actor@, self.counter as nat)
    }
}

/// The mathematical picture of the engine: the current value, the set of
/// applied (actor, counter) identifiers, and the buffer of operations not
/// yet flushed to the store.
#[verifier::ext_equal]
pub struct EngineModel<T: Applyable> {
    pub value: T,
    pub applied: Set<(Seq<u8>, nat)>,
    pub pending: Seq<OpModel<T::Description>>,
}

/// One step of the merge algebra. An operation whose identifier was already
/// applied changes nothing; a fresh one merges its description into the
/// value and records its identifier.
pub open spec fn spec_apply<T: Applyable>(
    m: EngineModel<T>,
    op: OpModel<T::Description>,
) -> EngineModel<T> {
    if m.applied.contains(op.id()) {
        m
    } else {
        EngineModel {
            value: T::merge_spec(m.value, op.description),
            applied: m.applied.insert(op.id()),
            pending: m.pending,
        }
    }
}

/// The merge engine. Its value always equals the fold of every operation
/// ever applied to it; operations on disk, not this in-memory state, are
/// the durable source of truth.
///
/// Operations carry a signature, but it is not checked here: authenticity
/// is not a guarantee of this engine, and any party able to write into an
/// actor's sub-log can forge that actor's operations. A deployment that
/// needs authenticity must verify signatures before handing operations to
/// the engine.
pub struct CRDT<T: Applyable> {
    pub value: T,
    applied: Vec<OpId>,
    pending: Vec<Operation<T::Description>>,
}

impl<T: Applyable> View for CRDT<T> {
    type V = EngineModel<T>;

    closed spec fn view(&self) -> EngineModel<T> {
        EngineModel {
            value: self.value,
            applied: self.applied@.map_values(|o: OpId| o.id_spec()).to_set(),
            pending: self.pending@.map_values(|op: Operation<T::Description>| op.model()),
        }
    }
}

impl<T: Applyable> CRDT<T> {
    /// Every pending operation has already been applied, and no two pending
    /// operations share an identifier: each is persisted exactly once.
    pub closed spec fn wf(self) -> bool {
        &&& forall|i: int|
            0 <= i < self.pending@.len() ==> self@.applied.contains(
                #[trigger] self.pending@[i].model().id(),
            )
        &&& forall|i: int, j: int|
            0 <= i < j < self.pending@.len() ==> self.pending@[i].model().id()
                != self.pending@[j].model().id()
    }

    /// The current merged value.
    pub fn value(&self) -> (r: &T)
        ensures
            *r == self@.value,
    {
        &self.value
    }

    /// Merges one operation: a no-op if its (actor, counter) identifier was
    /// already applied, else the description is folded into the value.
    /// The signature is not verified here; see the type's documentation.
    pub fn apply(self, op: Operation<T::Description>) -> (r: Self)
        requires
            self.wf(),
        ensures
            r.wf(),
            r@ == spec_apply(self@, op.model()),
    {
        let ghost m = self@;
        let ghost opm = op.model();
        let Operation { user_pub_key, data } = op;
        let OperationSigned { counter, description, signature: _ } = data;
        let CRDT { value, mut applied, pending } = self;
        let ghost ids = applied@.map_values(|o: OpId| o.id_spec());
        proof {
            assert(opm.id() == (user_pub_key@, counter as nat));
            assert(m.applied == ids.to_set());
        }

        let mut i: usize = 0;
        let mut found = false;
        while !found && i < applied.len()
            invariant
                i <= applied@.len(),
                ids == applied@.map_values(|o: OpId| o.id_spec()),
                opm.id() == (user_pub_key@, counter as nat),
                m.applied == ids.to_set(),
                found ==> m.applied.contains(opm.id()),
                !found ==> forall|k: int| 0 <= k < i ==> ids[k] != opm.id(),
            decreases applied@.len() - i + (if found { 0int } else { 1int }),
        {
            proof {
                assert(ids.len() == applied@.len());
                assert(ids[i as int] == applied@[i as int].id_spec());
            }
            if applied[i].counter == counter && bytes_eq(&applied[i].actor, &user_pub_key) {
                proof {
                    assert(applied@[i as int].id_spec() == opm.id());
                    assert(ids.contains(opm.id()));
                }
                found = true;
            } else {
                proof {
                    assert(ids[i as int] != opm.id());
                }
                i += 1;
            }
        }

        if found {
            let r = CRDT { value, applied, pending };
            proof {
                assert(r@ =~= spec_apply(m, opm));
            }
            r
        } else {
            proof {
                assert(forall|k: int| 0 <= k < ids.len() ==> ids[k] != opm.id());
                assert(!ids.contains(opm.id()));
                assert(!m.applied.contains(opm.id()));
            }
            let new_value = value.merge(&description);
            applied.push(OpId { actor: user_pub_key, counter });
            let r = CRDT { value: new_value, applied, pending };
            proof {
                let f = |o: OpId| o.id_spec();
                assert(applied@.map_values(f) =~= ids.push(opm.id()));
                lemma_to_set_push(ids, opm.id());
                assert(applied@.map_values(f).to_set() =~= m.applied.insert(opm.id()));
                assert(r@ =~= spec_apply(m, opm));
            }
            r
        }
    }
}

/// A local mutation cannot be given a causal counter when this actor has
/// already issued the largest representable one.
#[derive(Clone, Copy, Debug, PartialEq, Eq, Structural)]
pub enum EngineError {
    CounterExhausted,
}

/// The bytes that are signed and persisted for one operation: the causal
/// counter, then the serialized description.
pub open spec fn signed_payload<T: Applyable>(counter: u64, d: T::Description) -> Seq<u8> {
    u64_le(counter) + T::desc_bytes_spec(d)
}

/// The highest causal counter this actor has issued, scanned from the
/// applied identifiers; `r.0` says whether the actor has issued any.
fn max_counter_for(applied: &Vec<OpId>, pk: &Vec<u8>) -> (r: (bool, u64))
    ensures
        !r.0 ==> forall|j: int| 0 <= j < applied@.len() ==> (#[trigger] applied@[j]).actor@ != pk@,
        !r.0 ==> r.1 == 0,
        r.0 ==> exists|j: int|
            0 <= j < applied@.len() && (#[trigger] applied@[j]).actor@ == pk@ && applied@[j].counter
                == r.1,
        forall|j: int|
            0 <= j < applied@.len() && (#[trigger] applied@[j]).actor@ == pk@ ==> applied@[j].counter
                <= r.1,
{
    let mut found = false;
    let mut m: u64 = 0;
    let mut i: usize = 0;
    while i < applied.len()
        invariant
            i <= applied@.len(),
            !found ==> forall|j: int| 0 <= j < i ==> (#[trigger] applied@[j]).actor@ != pk@,
            !found ==> m == 0,
            found ==> exists|j: int|
                0 <= j < i && (#[trigger] applied@[j]).actor@ == pk@ && applied@[j].counter == m,
            forall|j: int|
                0 <= j < i && (#[trigger] applied@[j]).actor@ == pk@ ==> applied@[j].counter <= m,
        decreases applied@.len() - i,
    {
        if bytes_eq(&applied[i].actor, pk) {
            if !found || applied[i].counter > m {
                m = applied[i].counter;
            }
            found = true;
        }
        i += 1;
    }
    (found, m)
}

impl<T: Applyable> CRDT<T> {
    /// The local-mutation entry point: allocates the next causal counter
    /// for this actor (one greater than the highest it has issued), builds
    /// and signs the operation, merges it into the value at once, and
    /// buffers it as pending for the next flush. Returns the allocated
    /// counter.
    pub fn apply_description(&mut self, account: &Account, description: T::Description) -> (r:
        Result<Counter, EngineError>)
        requires
            old(self).wf(),
            account.wf(),
        ensures
            final(self).wf(),
            match r {
                Ok(c) => {
                    &&& 1 <= c
                    &&& forall|k: nat|
                        old(self)@.applied.contains((account.pk@, k)) ==> k < c as nat
                    &&& (c == 1 || old(self)@.applied.contains((account.pk@, (c - 1) as nat)))
                    &&& final(self)@.value == T::merge_spec(old(self)@.value, description)
                    &&& final(self)@.applied == old(self)@.applied.insert((account.pk@, c as nat))
                    &&& final(self)@.pending == old(self)@.pending.push(
                        OpModel {
                            actor: account.pk@,
                            counter: c as nat,
                            description,
                            signature: sig_of(signed_payload::<T>(c, description), account.sk@),
                        },
                    )
                },
                Err(e) => {
                    &&& e == EngineError::CounterExhausted
                    &&& old(self)@.applied.contains((account.pk@, u64::MAX as nat))
                    &&& *final(self) == *old(self)
                },
            },
    {
        let ghost m0 = self@;
        let ghost ids = self.applied@.map_values(|o: OpId| o.id_spec());
        let (found, m) = max_counter_for(&self.applied, &account.pk);
        proof {
            assert forall|k: nat| m0.applied.contains((account.pk@, k)) implies k <= m as nat by {
                let j = choose|j: int| 0 <= j < ids.len() && ids[j] == (account.pk@, k);
                assert(self.applied@[j].actor@ == account.pk@);
            };
        }
        if found && m == u64::MAX {
            proof {
                let j = choose|j: int|
                    0 <= j < self.applied@.len() && (#[trigger] self.applied@[j]).actor@
                        == account.pk@ && self.applied@[j].counter == m;
                assert(ids[j] == (account.pk@, u64::MAX as nat));
                assert(ids.contains((account.pk@, u64::MAX as nat)));
            }
            return Err(EngineError::CounterExhausted);
        }
        let c = m + 1;
        proof {
            if found {
                let j = choose|j: int|
                    0 <= j < self.applied@.len() && (#[trigger] self.applied@[j]).actor@
                        == account.pk@ && self.applied@[j].counter == m;
                assert(ids[j] == (account.pk@, m as nat));
                assert(ids.contains((account.pk@, m as nat)));
                assert(m0.applied.contains((account.pk@, (c - 1) as nat)));
            }
            assert(!m0.applied.contains((account.pk@, c as nat)));
        }
        let mut msg = u64_to_le_bytes(c);
        let mut db = T::desc_bytes(&description);
        msg.append(&mut db);
        let sig = sign_bytes(&msg, &account.sk);
        proof {
            assert(msg@ == signed_payload::<T>(c, description));
        }
        let new_value = self.value.merge(&description);
        self.value = new_value;
        self.applied.push(OpId { actor: clone_bytes(&account.pk), counter: c });
        self.pending.push(
            Operation {
                user_pub_key: clone_bytes(&account.pk),
                data: OperationSigned { counter: c, description, signature: sig },
            },
        );
        proof {
            let f = |o: OpId| o.id_spec();
            assert(self.applied@.map_values(f) =~= ids.push((account.pk@, c as nat)));
            lemma_to_set_push(ids, (account.pk@, c as nat));
            assert(self@.applied =~= m0.applied.insert((account.pk@, c as nat)));
            let g = |op: Operation<T::Description>| op.model();
            assert(self.pending@.map_values(g) =~= m0.pending.push(
                OpModel {
                    actor: account.pk@,
                    counter: c as nat,
                    description,
                    signature: sig_of(signed_payload::<T>(c, description), account.sk@),
                },
            ));
            assert forall|i: int| 0 <= i < self.pending@.len() implies self@.applied.contains(
                #[trigger] self.pending@[i].model().id(),
            ) by {
                if i < m0.pending.len() {
                    assert(self.pending@[i].model().id() == m0.pending[i].id());
                    assert(m0.applied.contains(m0.pending[i].id()));
                }
            };
            assert forall|i: int, j: int|
                0 <= i < j < self.pending@.len() implies self.pending@[i].model().id()
                != self.pending@[j].model().id() by {
                if j < m0.pending.len() {
                } else {
                    assert(self.pending@[j].model().id() == (account.pk@, c as nat));
                    assert(m0.applied.contains(self.pending@[i].model().id()));
                }
            };
        }
        Ok(c)
    }

    /// Returns the operations produced since construction or the last
    /// flush, and clears the buffer; the value and the applied set are
    /// untouched. The caller persists what is returned.
    pub fn flush(&mut self) -> (r: Vec<Operation<T::Description>>)
        requires
            old(self).wf(),
        ensures
            final(self).wf(),
            r@.map_values(|op: Operation<T::Description>| op.model()) == old(self)@.pending,
            final(self)@.pending == Seq::<OpModel<T::Description>>::empty(),
            final(self)@.value == old(self)@.value,
            final(self)@.applied == old(self)@.applied,
    {
        let mut out: Vec<Operation<T::Description>> = Vec::new();
        core::mem::swap(&mut self.pending, &mut out);
        proof {
            assert(self.pending@.map_values(|op: Operation<T::Description>| op.model())
                =~= Seq::<OpModel<T::Description>>::empty());
        }
        out
    }
}

/// Counter monotonicity: once an actor has issued a counter, any counter
/// the engine later allocates for that actor is strictly greater, so one
/// actor's sequence is strictly increasing and never repeats.
pub proof fn lemma_counter_monotonic<T: Applyable>(
    m: EngineModel<T>,
    actor: Seq<u8>,
    c1: nat,
    c2: nat,
)
    requires
        m.applied.contains((actor, c1)),
        forall|k: nat| m.applied.contains((actor, k)) ==> k < c2,
    ensures
        c1 < c2,
{
}

pub fn create_crdt<T: Applyable>(info: CRDTInfo<T>) -> (r: CRDT<T>)
    ensures
        r.wf(),
        r@.value == info.value,
        r@.applied == Set::<(Seq<u8>, nat)>::empty(),
        r@.pending == Seq::<OpModel<T::Description>>::empty(),
{
    let r = CRDT { value: info.value, applied: Vec::new(), pending: Vec::new() };
    proof {
        assert(r@.applied =~= Set::<(Seq<u8>, nat)>::empty());
        assert(r@.pending =~= Seq::<OpModel<T::Description>>::empty());
    }
    r
}

/// The set of elements of a sequence grows by insertion when the sequence
/// grows by one element.
proof fn lemma_to_set_push<A>(s: Seq<A>, x: A)
    ensures
        s.push(x).to_set() =~= s.to_set().insert(x),
{
    let p = s.push(x);
    assert forall|y: A| p.to_set().contains(y) implies s.to_set().insert(x).contains(y) by {
        let k = choose|k: int| 0 <= k < p.len() && p[k] == y;
        if k < s.len() {
            assert(s[k] == y);
        } else {
            assert(y == x);
        }
    };
    assert forall|y: A| s.to_set().insert(x).contains(y) implies p.to_set().contains(y) by {
        if s.to_set().contains(y) {
            let k = choose|k: int| 0 <= k < s.len() && s[k] == y;
            assert(p[k] == y);
        } else {
            assert(p[s.len() as int] == y);
        }
        assert(p.contains(y));
    };
}

/// Merging is commutative: two operations with distinct identifiers land on
/// the same state in either order.
pub proof fn lemma_apply_commutes<T: Applyable>(
    m: EngineModel<T>,
    a: OpModel<T::Description>,
    b: OpModel<T::Description>,
)
    requires
        a.id() != b.id(),
    ensures
        spec_apply(spec_apply(m, a), b) == spec_apply(spec_apply(m, b), a),
{
    T::merge_commutes(m.value, a.description, b.description);
    assert(spec_apply(spec_apply(m, a), b) =~= spec_apply(spec_apply(m, b), a));
}

/// Merging is idempotent: re-applying an operation changes nothing.
pub proof fn lemma_apply_idempotent<T: Applyable>(m: EngineModel<T>, a: OpModel<T::Description>)
    ensures
        spec_apply(spec_apply(m, a), a) == spec_apply(m, a),
{
    assert(spec_apply(spec_apply(m, a), a) =~= spec_apply(m, a));
}

/// The fold of a whole sequence of operations, first to last.
pub open spec fn apply_all<T: Applyable>(
    m: EngineModel<T>,
    ops: Seq<OpModel<T::Description>>,
) -> EngineModel<T>
    decreases ops.len(),
{
    if ops.len() == 0 {
        m
    } else {
        apply_all(spec_apply(m, ops[0]), ops.drop_first())
    }
}

/// A well-formed log: per actor a counter is never reused, so two entries
/// that share an identifier are the same operation (a duplicate discovered
/// twice), never a conflicting pair.
pub open spec fn log_wf<D>(ops: Seq<OpModel<D>>) -> bool {
    forall|i: int, j: int|
        #![trigger ops[i].id(), ops[j].id()]
        0 <= i < ops.len() && 0 <= j < ops.len() && ops[i].id() == ops[j].id() ==> ops[i] == ops[j]
}

/// Two operations that are either distinct in identifier or wholly equal
/// land on the same state in either order.
proof fn lemma_apply_exchange<T: Applyable>(
    m: EngineModel<T>,
    a: OpModel<T::Description>,
    b: OpModel<T::Description>,
)
    requires
        a.id() == b.id() ==> a == b,
    ensures
        spec_apply(spec_apply(m, a), b) == spec_apply(spec_apply(m, b), a),
{
    if a.id() == b.id() {
    } else {
        lemma_apply_commutes(m, a, b);
    }
}

proof fn lemma_log_wf_remove<D>(ops: Seq<OpModel<D>>, i: int)
    requires
        log_wf(ops),
        0 <= i < ops.len(),
    ensures
        log_wf(ops.remove(i)),
{
    let r = ops.remove(i);
    assert forall|p: int, q: int|
        #![trigger r[p].id(), r[q].id()]
        0 <= p < r.len() && 0 <= q < r.len() && r[p].id() == r[q].id() implies r[p] == r[q] by {
        let p1 = if p < i {
            p
        } else {
            p + 1
        };
        let q1 = if q < i {
            q
        } else {
            q + 1
        };
        assert(r[p] == ops[p1]);
        assert(r[q] == ops[q1]);
        assert(ops[p1].id() == ops[q1].id());
    }
}

/// A log that holds the same operations as a well-formed one, in any order,
/// is itself well-formed.
proof fn lemma_log_wf_multiset<D>(ops1: Seq<OpModel<D>>, ops2: Seq<OpModel<D>>)
    requires
        log_wf(ops1),
        ops1.to_multiset() == ops2.to_multiset(),
    ensures
        log_wf(ops2),
{
    broadcast use vstd::seq_lib::group_to_multiset_ensures;

    assert forall|i: int, j: int|
        #![trigger ops2[i].id(), ops2[j].id()]
        0 <= i < ops2.len() && 0 <= j < ops2.len() && ops2[i].id() == ops2[j].id() implies ops2[i]
        == ops2[j] by {
        assert(ops2.contains(ops2[i]));
        assert(ops2.contains(ops2[j]));
        assert(ops2.to_multiset().count(ops2[i]) > 0);
        assert(ops2.to_multiset().count(ops2[j]) > 0);
        assert(ops1.to_multiset().count(ops2[i]) > 0);
        assert(ops1.to_multiset().count(ops2[j]) > 0);
        assert(ops1.contains(ops2[i]));
        assert(ops1.contains(ops2[j]));
        let p = choose|p: int| 0 <= p < ops1.len() && ops1[p] == ops2[i];
        let q = choose|q: int| 0 <= q < ops1.len() && ops1[q] == ops2[j];
        assert(ops1[p].id() == ops1[q].id());
    }
}

/// Folding any entry of a well-formed log first, then the rest, gives the
/// fold of the whole log.
proof fn lemma_apply_all_remove<T: Applyable>(
    m: EngineModel<T>,
    ops: Seq<OpModel<T::Description>>,
    i: int,
)
    requires
        log_wf(ops),
        0 <= i < ops.len(),
    ensures
        apply_all(m, ops) == apply_all(spec_apply(m, ops[i]), ops.remove(i)),
    decreases i,
{
    if i == 0 {
        assert(ops.remove(0) =~= ops.drop_first());
    } else {
        let a = ops[0];
        let b = ops[i];
        let rest = ops.drop_first();
        assert(rest =~= ops.remove(0));
        lemma_log_wf_remove(ops, 0);
        assert(rest[i - 1] == b);
        lemma_apply_all_remove(spec_apply(m, a), rest, i - 1);
        assert(a.id() == b.id() ==> a == b);
        lemma_apply_exchange(m, a, b);
        assert(ops.remove(i)[0] == a);
        assert(ops.remove(i).drop_first() =~= rest.remove(i - 1));
        assert(apply_all(spec_apply(m, b), ops.remove(i)) == apply_all(
            spec_apply(spec_apply(m, b), a),
            rest.remove(i - 1),
        ));
    }
}

/// Replay-order independence: folding the operations of a well-formed log
/// does not depend on the order in which they were discovered. Restoring
/// one on-disk log under any enumeration, with any duplication preserved,
/// produces one state.
pub proof fn lemma_replay_order_independent<T: Applyable>(
    m: EngineModel<T>,
    ops1: Seq<OpModel<T::Description>>,
    ops2: Seq<OpModel<T::Description>>,
)
    requires
        log_wf(ops1),
        ops1.to_multiset() == ops2.to_multiset(),
    ensures
        apply_all(m, ops1) == apply_all(m, ops2),
    decreases ops1.len(),
{
    broadcast use vstd::seq_lib::group_to_multiset_ensures;

    if ops1.len() == 0 {
        assert(ops1.len() == ops1.to_multiset().len());
        assert(ops2.len() == ops2.to_multiset().len());
        assert(ops2.len() == 0);
        assert(ops2 =~= ops1);
    } else {
        let a = ops1[0];
        assert(ops1.contains(a));
        assert(ops1.to_multiset().count(a) > 0);
        assert(ops2.to_multiset().count(a) > 0);
        assert(ops2.contains(a));
        let j = choose|j: int| 0 <= j < ops2.len() && ops2[j] == a;
        lemma_log_wf_multiset(ops1, ops2);
        lemma_apply_all_remove(m, ops2, j);
        assert(ops1.drop_first() =~= ops1.remove(0));
        lemma_log_wf_remove(ops1, 0);
        assert(ops1.remove(0).to_multiset() == ops1.to_multiset().remove(a));
        assert(ops2.remove(j).to_multiset() == ops2.to_multiset().remove(a));
        lemma_replay_order_independent(spec_apply(m, a), ops1.drop_first(), ops2.remove(j));
    }
}

} // verus!
