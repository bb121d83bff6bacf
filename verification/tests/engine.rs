use replicant::counter::{parse_u64_dec, u64_to_dec_string, Nat};
use replicant::merge::{create_crdt, create_crdt_info, Applyable, EngineError, CRDT};
use replicant::ops::{create_account, Account, Operation, OperationSigned};

fn fresh_crdt(base: u64) -> CRDT<Nat> {
    create_crdt(create_crdt_info(Nat::from(base), 42))
}

fn account_a() -> Account {
    create_account(vec![1u8; 32], vec![7u8; 64])
}

fn account_b() -> Account {
    create_account(vec![2u8; 32], vec![9u8; 64])
}

fn raw_op(pk: Vec<u8>, counter: u64, delta: u64) -> Operation<Nat> {
    Operation {
        user_pub_key: pk,
        data: OperationSigned { counter, description: Nat::from(delta), signature: vec![0u8; 64] },
    }
}

#[test]
fn apply_commutes_on_distinct_operations() {
    let a = raw_op(vec![1u8; 32], 1, 3);
    let b = raw_op(vec![2u8; 32], 1, 4);
    let a2 = raw_op(vec![1u8; 32], 1, 3);
    let b2 = raw_op(vec![2u8; 32], 1, 4);
    let one = fresh_crdt(0).apply(a).apply(b);
    let two = fresh_crdt(0).apply(b2).apply(a2);
    assert_eq!(one.value().n, 7);
    assert_eq!(two.value().n, 7);
}

#[test]
fn apply_commutes_for_one_actor_distinct_counters() {
    let a = raw_op(vec![1u8; 32], 1, 3);
    let b = raw_op(vec![1u8; 32], 2, 4);
    let a2 = raw_op(vec![1u8; 32], 1, 3);
    let b2 = raw_op(vec![1u8; 32], 2, 4);
    let one = fresh_crdt(1).apply(a).apply(b);
    let two = fresh_crdt(1).apply(b2).apply(a2);
    assert_eq!(one.value().n, 8);
    assert_eq!(two.value().n, 8);
}

#[test]
fn apply_is_idempotent() {
    let a = raw_op(vec![1u8; 32], 1, 3);
    let a_again = raw_op(vec![1u8; 32], 1, 3);
    let c = fresh_crdt(0).apply(a).apply(a_again);
    assert_eq!(c.value().n, 3);
}

#[test]
fn fresh_project_applies_two_increments() {
    let mut c = fresh_crdt(0);
    let account = account_a();
    let three = Nat::parse("+3").unwrap();
    let four = Nat::parse("+4").unwrap();
    assert_eq!(c.apply_description(&account, three), Ok(1));
    assert_eq!(c.apply_description(&account, four), Ok(2));
    assert_eq!(c.value().n, 7);
    let pending = c.flush();
    assert_eq!(pending.len(), 2);
    assert_eq!(pending[0].data.counter, 1);
    assert_eq!(pending[1].data.counter, 2);
    assert_eq!(pending[0].data.description.n, 3);
    assert_eq!(pending[1].data.description.n, 4);
    assert_eq!(pending[0].data.signature.len(), 64);
}

#[test]
fn counters_increase_strictly() {
    let mut c = fresh_crdt(0);
    let account = account_a();
    let mut last = 0u64;
    for _ in 0..5 {
        let counter = c.apply_description(&account, Nat::from(1)).unwrap();
        assert!(counter > last);
        last = counter;
    }
    assert_eq!(last, 5);
}

#[test]
fn counters_continue_after_flush() {
    let mut c = fresh_crdt(0);
    let account = account_a();
    assert_eq!(c.apply_description(&account, Nat::from(1)), Ok(1));
    let _ = c.flush();
    assert_eq!(c.apply_description(&account, Nat::from(1)), Ok(2));
}

#[test]
fn counter_exhaustion_is_reported() {
    let base = fresh_crdt(0);
    let account = account_a();
    let top = raw_op(vec![1u8; 32], u64::MAX, 1);
    let mut c = replicant::store::restore_operations(base, vec![top]);
    assert_eq!(
        c.apply_description(&account, Nat::from(1)),
        Err(EngineError::CounterExhausted)
    );
    assert_eq!(c.value().n, 1);
}

#[test]
fn flush_clears_pending_but_keeps_value() {
    let mut c = fresh_crdt(10);
    let account = account_a();
    c.apply_description(&account, Nat::from(5)).unwrap();
    let first = c.flush();
    assert_eq!(first.len(), 1);
    let second = c.flush();
    assert_eq!(second.len(), 0);
    assert_eq!(c.value().n, 15);
}

#[test]
fn merge_saturates_at_the_top() {
    let a = Nat::from(u64::MAX - 1);
    let r = a.merge(&Nat::from(5));
    assert_eq!(r.n, u64::MAX);
    let b = Nat::from(3);
    assert_eq!(b.merge(&Nat::from(4)).n, 7);
}

#[test]
fn two_actors_merge_to_one_value() {
    let mut one = fresh_crdt(0);
    let a = account_a();
    let b = account_b();
    one.apply_description(&a, Nat::from(2)).unwrap();
    one.apply_description(&b, Nat::from(5)).unwrap();
    assert_eq!(one.value().n, 7);
}

#[test]
fn parse_accepts_decimal_with_optional_plus() {
    assert_eq!(parse_u64_dec("+3"), Some(3));
    assert_eq!(parse_u64_dec("17"), Some(17));
    assert_eq!(parse_u64_dec("0"), Some(0));
    assert_eq!(parse_u64_dec("18446744073709551615"), Some(u64::MAX));
}

#[test]
fn parse_rejects_bad_text() {
    assert_eq!(parse_u64_dec(""), None);
    assert_eq!(parse_u64_dec("+"), None);
    assert_eq!(parse_u64_dec("abc"), None);
    assert_eq!(parse_u64_dec("12x"), None);
    assert_eq!(parse_u64_dec("-3"), None);
    assert_eq!(parse_u64_dec("18446744073709551616"), None);
    assert_eq!(parse_u64_dec("99999999999999999999999"), None);
}

#[test]
fn display_prints_decimal() {
    assert_eq!(u64_to_dec_string(0), "0");
    assert_eq!(u64_to_dec_string(7), "7");
    assert_eq!(u64_to_dec_string(1234567890), "1234567890");
    assert_eq!(u64_to_dec_string(u64::MAX), "18446744073709551615");
    assert_eq!(Nat::from(42).display(), "42");
}
