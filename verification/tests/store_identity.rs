use replicant::codec::{
    decode_genesis, decode_operation, encode_genesis, encode_operation, get_random_id,
};
use replicant::counter::Nat;
use replicant::identity::{new_keystore, SavedKeys};
use replicant::merge::{create_crdt, create_crdt_info, CRDT};
use replicant::ops::{create_account, Account, Operation, OperationSigned};
use replicant::store::{
    check_save_targets, decode_sublog, op_file_name, plan_save, restore_from_logs,
    restore_operations, StoreError, SubLog,
};

fn fresh_crdt(base: u64) -> CRDT<Nat> {
    create_crdt(create_crdt_info(Nat::from(base), 42))
}

fn account(tag: u8) -> Account {
    create_account(vec![tag; 32], vec![tag.wrapping_add(1); 64])
}

/// One actor applies a delta to a fresh copy; what its flush would persist,
/// as one sub-log.
fn sublog_of(tag: u8, delta: u64) -> SubLog {
    let mut c = fresh_crdt(0);
    let acct = account(tag);
    c.apply_description(&acct, Nat::from(delta)).unwrap();
    let pending = c.flush();
    let entries = plan_save(&pending);
    SubLog {
        dir_name: entries[0].dir_name.clone(),
        files: entries.into_iter().map(|e| e.bytes).collect(),
    }
}

#[test]
fn genesis_round_trips() {
    let info = create_crdt_info(Nat::from(17), 987654321);
    let bytes = encode_genesis(&info);
    assert_eq!(bytes.len(), 16);
    let back = decode_genesis(&bytes).unwrap();
    assert_eq!(back.value.n, 17);
    assert_eq!(back.id, 987654321);
}

#[test]
fn genesis_of_wrong_length_is_rejected() {
    assert!(decode_genesis(&vec![0u8; 15]).is_none());
    assert!(decode_genesis(&vec![0u8; 17]).is_none());
    assert!(decode_genesis(&vec![]).is_none());
}

#[test]
fn operation_round_trips() {
    let op = OperationSigned { counter: 3, description: Nat::from(44), signature: vec![5u8; 64] };
    let bytes = encode_operation(&op);
    assert_eq!(bytes.len(), 80);
    let back = decode_operation(&bytes).unwrap();
    assert_eq!(back.counter, 3);
    assert_eq!(back.description.n, 44);
    assert_eq!(back.signature, vec![5u8; 64]);
}

#[test]
fn short_operation_is_rejected() {
    assert!(decode_operation(&vec![0u8; 15]).is_none());
    assert!(decode_operation(&vec![]).is_none());
}

#[test]
fn file_names_are_counter_dot_op() {
    assert_eq!(op_file_name(1), "1.op");
    assert_eq!(op_file_name(2), "2.op");
    assert_eq!(op_file_name(1234), "1234.op");
}

#[test]
fn save_plan_lays_out_the_sublog() {
    let mut c = fresh_crdt(0);
    let acct = account(0);
    c.apply_description(&acct, Nat::from(3)).unwrap();
    c.apply_description(&acct, Nat::from(4)).unwrap();
    let entries = plan_save(&c.flush());
    assert_eq!(entries.len(), 2);
    // base64, URL-safe and unpadded, of 32 zero bytes
    assert_eq!(entries[0].dir_name, "AAAAAAAAAAAAAAAAAAAAAAAAAAAAAAAAAAAAAAAAAAA");
    assert_eq!(entries[0].file_name, "1.op");
    assert_eq!(entries[1].file_name, "2.op");
    assert_eq!(entries[0].bytes.len(), 80);
}

#[test]
fn restore_is_order_independent_across_sublogs() {
    let log_a = sublog_of(1, 2);
    let log_b = sublog_of(2, 5);
    let log_a2 = sublog_of(1, 2);
    let log_b2 = sublog_of(2, 5);
    let one = restore_from_logs(fresh_crdt(10), vec![log_a, log_b]).unwrap();
    let two = restore_from_logs(fresh_crdt(10), vec![log_b2, log_a2]).unwrap();
    assert_eq!(one.value().n, 17);
    assert_eq!(two.value().n, 17);
}

#[test]
fn restore_is_order_independent_within_a_sublog() {
    let mut c = fresh_crdt(0);
    let acct = account(4);
    c.apply_description(&acct, Nat::from(2)).unwrap();
    c.apply_description(&acct, Nat::from(5)).unwrap();
    let entries = plan_save(&c.flush());
    let dir_name = entries[0].dir_name.clone();
    let files: Vec<Vec<u8>> = entries.into_iter().map(|e| e.bytes).collect();
    let reversed: Vec<Vec<u8>> = files.iter().rev().cloned().collect();
    let one = restore_from_logs(
        fresh_crdt(1),
        vec![SubLog { dir_name: dir_name.clone(), files }],
    )
    .unwrap();
    let two = restore_from_logs(fresh_crdt(1), vec![SubLog { dir_name, files: reversed }]).unwrap();
    assert_eq!(one.value().n, 8);
    assert_eq!(two.value().n, 8);
}

#[test]
fn duplicate_discovery_applies_once() {
    let mut log = sublog_of(1, 9);
    let copy = log.files[0].clone();
    log.files.push(copy);
    let c = restore_from_logs(fresh_crdt(0), vec![log]).unwrap();
    assert_eq!(c.value().n, 9);
}

#[test]
fn duplicate_raw_operations_apply_once() {
    let a = Operation {
        user_pub_key: vec![1u8; 32],
        data: OperationSigned { counter: 1, description: Nat::from(6), signature: vec![] },
    };
    let again = Operation {
        user_pub_key: vec![1u8; 32],
        data: OperationSigned { counter: 1, description: Nat::from(6), signature: vec![] },
    };
    let c = restore_operations(fresh_crdt(0), vec![a, again]);
    assert_eq!(c.value().n, 6);
}

#[test]
fn bad_actor_directory_is_rejected() {
    let r = decode_sublog("!!!not-base64!!!", &vec![]);
    assert_eq!(r.unwrap_err(), StoreError::BadActorKey);
    // valid base64, but not of a 32-byte key
    let r = decode_sublog("AAAA", &vec![]);
    assert_eq!(r.unwrap_err(), StoreError::BadActorKey);
}

#[test]
fn bad_operation_file_is_rejected() {
    let log = sublog_of(3, 1);
    let r = decode_sublog(log.dir_name.as_str(), &vec![vec![0u8; 4]]);
    assert_eq!(r.unwrap_err(), StoreError::BadOperation);
}

#[test]
fn occupied_save_target_is_a_collision() {
    assert!(check_save_targets(&vec![false, false]).is_ok());
    assert_eq!(
        check_save_targets(&vec![false, true]).unwrap_err(),
        StoreError::CounterCollision
    );
    assert!(check_save_targets(&vec![]).is_ok());
}

#[test]
fn identity_is_stable_per_context() {
    let mut keys: SavedKeys = new_keystore();
    let first = keys.get_keypair("/home/someone/project");
    let second = keys.get_keypair("/home/someone/project");
    assert_eq!(first.pk, second.pk);
    assert_eq!(first.sk, second.sk);
    assert_eq!(first.pk.len(), 32);
    assert_eq!(first.sk.len(), 64);
    assert_eq!(keys.dir_level_keys.len(), 1);
}

#[test]
fn distinct_contexts_get_distinct_slots() {
    let mut keys = new_keystore();
    let first = keys.get_keypair("/home/someone/project");
    let other = keys.get_keypair("/home/someone/copy-of-project");
    assert_eq!(keys.dir_level_keys.len(), 2);
    assert_ne!(first.pk, other.pk);
}

#[test]
fn random_ids_are_produced() {
    let a = get_random_id();
    let b = get_random_id();
    let c = get_random_id();
    // three draws of 64 random bits never all coincide in practice
    assert!(!(a == b && b == c));
}

#[test]
fn signatures_are_not_the_payload() {
    let mut c = fresh_crdt(0);
    let acct = account(5);
    c.apply_description(&acct, Nat::from(3)).unwrap();
    let pending = c.flush();
    let sig = &pending[0].data.signature;
    assert_eq!(sig.len(), 64);
    // signing the same payload with the same key is deterministic
    let mut c2 = fresh_crdt(0);
    let acct2 = account(5);
    c2.apply_description(&acct2, Nat::from(3)).unwrap();
    let pending2 = c2.flush();
    assert_eq!(*sig, pending2[0].data.signature);
}
