use weighing::account::{account, account_entropy};

#[test]
fn entropy_is_a_32_byte_digest_of_the_inputs() {
    let a = account_entropy("caller", 1, 2);
    assert_eq!(a.len(), 32);
    assert_eq!(a, account_entropy("caller", 1, 2));
    assert_ne!(a, account_entropy("caller", 1, 3));
}

#[test]
fn account_is_deterministic() {
    let a: u64 = account("caller", 1, 2);
    let b: u64 = account("caller", 1, 2);
    assert_eq!(a, b);
}

#[test]
fn account_depends_on_the_seed() {
    // The raw encoding of the triple is shorter than a `u128`; only the
    // digest makes both identities decodable, and makes them differ.
    let a: u128 = account("x", 0, 0);
    let b: u128 = account("x", 0, 1);
    assert_ne!(a, b);
    assert_ne!(a, 0);
}

#[test]
fn account_depends_on_name_and_index() {
    let a: u64 = account("alice", 0, 0);
    let b: u64 = account("bob", 0, 0);
    let c: u64 = account("alice", 1, 0);
    assert_ne!(a, b);
    assert_ne!(a, c);
}
