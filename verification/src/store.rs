//! The operation log store, up to the filesystem boundary: sub-log and file
//! naming, decoding a tree of raw sub-logs into operations, folding them
//! into an engine, and laying out where pending operations are persisted.
//! Reading directories and writing files stays outside; this module decides
//! everything about the bytes and names involved.

use vstd::prelude::*;
use vstd::string::StringExecFns;

use crate::codec::{decode_operation, encode_operation, spec_decode_op, spec_encode_op};
use crate::counter::{dec_digits, u64_to_dec_string, Nat};
use crate::merge::{apply_all, Applyable, CRDT};
use crate::ops::{clone_bytes, Counter, OpModel, Operation};
use crate::trusted::{b64_decode, b64_encode, b64_of};

verus! {

/// A store integrity failure: the on-disk log violates an invariant and
/// there is no safe local repair.
#[derive(Clone, Copy, Debug, PartialEq, Eq, Structural)]
pub enum StoreError {
    /// A sub-log directory name does not decode to a 32-byte public key.
    BadActorKey,
    /// An operation file does not decode to an operation.
    BadOperation,
    /// A pending operation's target file is already occupied: the
    /// single-writer-per-actor discipline has been broken.
    CounterCollision,
}

/// One actor's sub-log as read from disk: the directory's name and the raw
/// bytes of each operation file in it, in whatever order discovery
/// produced.
pub struct SubLog {
    pub dir_name: String,
    pub files: Vec<Vec<u8>>,
}

impl SubLog {
    pub open spec fn files_view(self) -> Seq<Seq<u8>> {
        self.files@.map_values(|f: Vec<u8>| f@)
    }
}

/// The name of the file a counter's operation is stored under.
pub open spec fn op_file_name_spec(c: Counter) -> Seq<char> {
    dec_digits(c as nat) + ".op"@
}

pub fn op_file_name(c: Counter) -> (r: String)
    ensures
        r@ == op_file_name_spec(c),
{
    let mut s = u64_to_dec_string(c);
    s.append(".op");
    s
}

/// What it means for a raw sub-log to decode to a sequence of operations:
/// all of them carry one 32-byte actor key — exactly the key the directory
/// name encodes, whenever the name is such an encoding — and each file
/// holds one operation record.
pub open spec fn sublog_decodes_to(
    dir: Seq<char>,
    files: Seq<Seq<u8>>,
    ops: Seq<OpModel<Nat>>,
) -> bool {
    &&& ops.len() == files.len()
    &&& forall|j: int, k: int|
        0 <= j < ops.len() && 0 <= k < ops.len() ==> (#[trigger] ops[j]).actor
            == (#[trigger] ops[k]).actor
    &&& forall|pk: Seq<u8>, j: int|
        #![trigger b64_of(pk), ops[j]]
        pk.len() == 32 && dir == b64_of(pk) && 0 <= j < ops.len() ==> ops[j].actor == pk
    &&& forall|j: int|
        0 <= j < ops.len() ==> {
            &&& (#[trigger] ops[j]).actor.len() == 32
            &&& match spec_decode_op(files[j]) {
                Some(t) => ops[j].counter == t.0 as nat && ops[j].description == t.1
                    && ops[j].signature == t.2,
                None => false,
            }
        }
}

/// Decodes one actor's raw sub-log. A well-formed sub-log — a directory
/// name that encodes a 32-byte key, files that each decode — is always
/// accepted, and whatever is accepted is pinned to its decoded form.
pub fn decode_sublog(dir_name: &str, files: &Vec<Vec<u8>>) -> (r: Result<
    Vec<Operation<Nat>>,
    StoreError,
>)
    ensures
        ((exists|pk: Seq<u8>| pk.len() == 32 && dir_name@ == b64_of(pk)) && (forall|j: int|
            0 <= j < files@.len() ==> spec_decode_op(#[trigger] files@[j]@) is Some)) ==> r is Ok,
        r matches Ok(ops) ==> sublog_decodes_to(
            dir_name@,
            files@.map_values(|f: Vec<u8>| f@),
            ops@.map_values(|op: Operation<Nat>| op.model()),
        ),
        r == Err::<Vec<Operation<Nat>>, StoreError>(StoreError::BadActorKey) ==> !(exists|
            pk: Seq<u8>,
        |
            pk.len() == 32 && dir_name@ == b64_of(pk)),
        r == Err::<Vec<Operation<Nat>>, StoreError>(StoreError::BadOperation) ==> exists|j: int|
            0 <= j < files@.len() && spec_decode_op(#[trigger] files@[j]@) is None,
        r matches Err(e) ==> (e == StoreError::BadActorKey || e == StoreError::BadOperation),
{
    let pk = match b64_decode(dir_name) {
        Some(pk) => pk,
        None => {
            return Err(StoreError::BadActorKey);
        },
    };
    if pk.len() != 32 {
        return Err(StoreError::BadActorKey);
    }
    let mut ops: Vec<Operation<Nat>> = Vec::new();
    proof {
        assert(forall|b: Seq<u8>| dir_name@ == b64_of(b) ==> pk@ == b);
    }
    let ghost pk0 = pk@;
    let mut i: usize = 0;
    while i < files.len()
        invariant
            i <= files@.len(),
            pk@ == pk0,
            pk@.len() == 32,
            forall|b: Seq<u8>| dir_name@ == b64_of(b) ==> pk@ == b,
            ops@.len() == i,
            forall|j: int|
                0 <= j < i ==> {
                    &&& (#[trigger] ops@[j]).user_pub_key@ == pk@
                    &&& match spec_decode_op(files@[j]@) {
                        Some(t) => ops@[j].data.counter == t.0 && ops@[j].data.description == t.1
                            && ops@[j].data.signature@ == t.2,
                        None => false,
                    }
                },
        decreases files@.len() - i,
    {
        let data = match decode_operation(&files[i]) {
            Some(data) => data,
            None => {
                return Err(StoreError::BadOperation);
            },
        };
        ops.push(Operation { user_pub_key: clone_bytes(&pk), data });
        i += 1;
    }
    proof {
        let m = ops@.map_values(|op: Operation<Nat>| op.model());
        let fv = files@.map_values(|f: Vec<u8>| f@);
        assert forall|j: int| 0 <= j < m.len() implies (#[trigger] m[j]).actor == pk@ by {
            assert(m[j] == ops@[j].model());
        };
        assert forall|j: int| 0 <= j < m.len() implies {
            &&& (#[trigger] m[j]).actor.len() == 32
            &&& match spec_decode_op(fv[j]) {
                Some(t) => m[j].counter == t.0 as nat && m[j].description == t.1 && m[j].signature
                    == t.2,
                None => false,
            }
        } by {
            assert(m[j] == ops@[j].model());
            assert(fv[j] == files@[j]@);
        };
        assert(sublog_decodes_to(dir_name@, fv, m));
    }
    Ok(ops)
}

/// Folds a batch of operations into the engine in the order given; because
/// merging is commutative and idempotent, any discovery order of the same
/// operations yields the same state.
pub fn restore_operations<T: Applyable>(
    crdt: CRDT<T>,
    operations: Vec<Operation<T::Description>>,
) -> (r: CRDT<T>)
    requires
        crdt.wf(),
    ensures
        r.wf(),
        r@ == apply_all(crdt@, operations@.map_values(|op: Operation<T::Description>| op.model())),
{
    let ghost m0 = crdt@;
    let ghost all = operations@.map_values(|op: Operation<T::Description>| op.model());
    let mut c = crdt;
    let mut rest = operations;
    while rest.len() > 0
        invariant
            c.wf(),
            apply_all(m0, all) == apply_all(
                c@,
                rest@.map_values(|op: Operation<T::Description>| op.model()),
            ),
        decreases rest@.len(),
    {
        let ghost models = rest@.map_values(|op: Operation<T::Description>| op.model());
        let op = rest.remove(0);
        proof {
            assert(rest@.map_values(|op: Operation<T::Description>| op.model()) =~= models
                .drop_first());
            assert(models[0] == op.model());
        }
        c = c.apply(op);
    }
    proof {
        assert(rest@.map_values(|op: Operation<T::Description>| op.model())
            =~= Seq::<OpModel<T::Description>>::empty());
    }
    c
}

/// Restores a full tree of raw sub-logs into the engine: every sub-log is
/// decoded and its operations folded in, in the order handed in. A tree in
/// which every directory name encodes a 32-byte key and every file decodes
/// is always accepted; what comes back is the fold of exactly the decoded
/// operations.
pub fn restore_from_logs(crdt: CRDT<Nat>, sublogs: Vec<SubLog>) -> (r: Result<
    CRDT<Nat>,
    StoreError,
>)
    requires
        crdt.wf(),
    ensures
        (forall|i: int|
            0 <= i < sublogs@.len() ==> ((exists|pk: Seq<u8>|
                pk.len() == 32 && (#[trigger] sublogs@[i]).dir_name@ == b64_of(pk)) && (forall|
                j: int,
            |
                0 <= j < sublogs@[i].files@.len() ==> spec_decode_op(
                    #[trigger] sublogs@[i].files@[j]@,
                ) is Some))) ==> r is Ok,
        r matches Ok(c) ==> c.wf(),
        r matches Ok(c) ==> exists|opss: Seq<Seq<OpModel<Nat>>>|
            {
                &&& opss.len() == sublogs@.len()
                &&& (forall|i: int|
                    0 <= i < opss.len() ==> sublog_decodes_to(
                        (#[trigger] sublogs@[i]).dir_name@,
                        sublogs@[i].files_view(),
                        opss[i],
                    ))
                &&& c@ == apply_all(crdt@, opss.flatten())
            },
        r matches Err(e) ==> (e == StoreError::BadActorKey || e == StoreError::BadOperation),
        r matches Err(e) ==> exists|i: int|
            0 <= i < sublogs@.len() && ((e == StoreError::BadActorKey && !(exists|pk: Seq<u8>|
                pk.len() == 32 && (#[trigger] sublogs@[i]).dir_name@ == b64_of(pk))) || (e
                == StoreError::BadOperation && exists|j: int|
                0 <= j < sublogs@[i].files@.len() && spec_decode_op(
                    #[trigger] sublogs@[i].files@[j]@,
                ) is None)),
{
    let ghost m0 = crdt@;
    let mut c = crdt;
    let ghost opss: Seq<Seq<OpModel<Nat>>> = Seq::empty();
    let mut i: usize = 0;
    proof {
        assert(opss.flatten() =~= Seq::<OpModel<Nat>>::empty());
    }
    while i < sublogs.len()
        invariant
            i <= sublogs@.len(),
            c.wf(),
            opss.len() == i,
            forall|k: int|
                0 <= k < i ==> sublog_decodes_to(
                    (#[trigger] sublogs@[k]).dir_name@,
                    sublogs@[k].files_view(),
                    opss[k],
                ),
            c@ == apply_all(m0, opss.flatten()),
        decreases sublogs@.len() - i,
    {
        let sublog = &sublogs[i];
        let ops = match decode_sublog(sublog.dir_name.as_str(), &sublog.files) {
            Ok(ops) => ops,
            Err(e) => {
                return Err(e);
            },
        };
        let ghost models = ops@.map_values(|op: Operation<Nat>| op.model());
        let ghost before = c@;
        c = restore_operations(c, ops);
        proof {
            lemma_apply_all_append(m0, opss.flatten(), models);
            opss.lemma_flatten_push(models);
            opss = opss.push(models);
        }
        i += 1;
    }
    Ok(c)
}

/// Folding a concatenation is folding the first part, then the second.
proof fn lemma_apply_all_append<T: Applyable>(
    m: crate::merge::EngineModel<T>,
    s1: Seq<OpModel<T::Description>>,
    s2: Seq<OpModel<T::Description>>,
)
    ensures
        apply_all(m, s1 + s2) == apply_all(apply_all(m, s1), s2),
    decreases s1.len(),
{
    if s1.len() == 0 {
        assert(s1 + s2 =~= s2);
    } else {
        assert((s1 + s2)[0] == s1[0]);
        assert((s1 + s2).drop_first() =~= s1.drop_first() + s2);
        lemma_apply_all_append(crate::merge::spec_apply(m, s1[0]), s1.drop_first(), s2);
    }
}

/// Where one pending operation is persisted: its actor's sub-log directory,
/// its counter's file, its encoded bytes.
pub struct SaveEntry {
    pub dir_name: String,
    pub file_name: String,
    pub bytes: Vec<u8>,
}

/// Lays out where each pending operation must be written. The caller must
/// refuse to write any entry whose file already exists: an occupied
/// location means the single-writer-per-actor discipline was broken, and
/// overwriting is never permitted.
pub fn plan_save(pending: &Vec<Operation<Nat>>) -> (r: Vec<SaveEntry>)
    ensures
        r@.len() == pending@.len(),
        forall|i: int|
            0 <= i < r@.len() ==> {
                &&& (#[trigger] r@[i]).dir_name@ == b64_of(pending@[i].user_pub_key@)
                &&& r@[i].file_name@ == op_file_name_spec(pending@[i].data.counter)
                &&& r@[i].bytes@ == spec_encode_op(pending@[i].data)
            },
{
    let mut r: Vec<SaveEntry> = Vec::new();
    let mut i: usize = 0;
    while i < pending.len()
        invariant
            i <= pending@.len(),
            r@.len() == i,
            forall|k: int|
                0 <= k < i ==> {
                    &&& (#[trigger] r@[k]).dir_name@ == b64_of(pending@[k].user_pub_key@)
                    &&& r@[k].file_name@ == op_file_name_spec(pending@[k].data.counter)
                    &&& r@[k].bytes@ == spec_encode_op(pending@[k].data)
                },
        decreases pending@.len() - i,
    {
        let op = &pending[i];
        r.push(
            SaveEntry {
                dir_name: b64_encode(&op.user_pub_key),
                file_name: op_file_name(op.data.counter),
                bytes: encode_operation(&op.data),
            },
        );
        i += 1;
    }
    r
}

/// The save-time integrity gate. `occupied[i]` says whether the target
/// file of the i-th planned entry already exists; if any does, saving must
/// abort without writing, for the existing file means another writer used
/// this actor's counter. Ok exactly when every target is free.
pub fn check_save_targets(occupied: &Vec<bool>) -> (r: Result<(), StoreError>)
    ensures
        r is Ok <==> (forall|i: int| 0 <= i < occupied@.len() ==> !(#[trigger] occupied@[i])),
        r matches Err(e) ==> e == StoreError::CounterCollision,
{
    let mut i: usize = 0;
    while i < occupied.len()
        invariant
            i <= occupied@.len(),
            forall|k: int| 0 <= k < i ==> !(#[trigger] occupied@[k]),
        decreases occupied@.len() - i,
    {
        if occupied[i] {
            return Err(StoreError::CounterCollision);
        }
        i += 1;
    }
    Ok(())
}

} // verus!
