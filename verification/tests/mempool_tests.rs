use minichain::crypto::ValidatorIdentity;
use minichain::error::MiniChainError;
use minichain::json::JsonValue;
use minichain::mempool::{Duration, Mempool, is_expired};
use minichain::transaction::{Operation, Timestamp, Transaction};

fn at(seconds: i64) -> Timestamp {
    Timestamp { seconds, nanos: 0 }
}

fn transaction(id: u128, seconds: i64) -> Transaction {
    let identity = ValidatorIdentity::from_secret_bytes("validator-1", [41; 32]);
    Transaction::with_identity(
        id,
        at(seconds),
        Operation::CreateRecord,
        "CERT-POOL",
        JsonValue::Null,
        Vec::new(),
        &identity,
    )
}

fn minute() -> Duration {
    Duration { seconds: 60, nanos: 0 }
}

#[test]
fn mempool_accepts_valid_fresh_transactions_once() {
    let mut pool = Mempool::new(2, minute());
    pool.insert_at(transaction(1, 1_000), at(1_010)).unwrap();
    assert_eq!(pool.len(), 1);
    assert_eq!(
        pool.insert_at(transaction(1, 1_000), at(1_010)).unwrap_err(),
        MiniChainError::DuplicateMempoolTransaction { id: 1 }
    );
    pool.insert_at(transaction(2, 1_000), at(1_010)).unwrap();
    assert_eq!(
        pool.insert_at(transaction(3, 1_000), at(1_010)).unwrap_err(),
        MiniChainError::MempoolFull { capacity: 2 }
    );
    assert_eq!(pool.get(2).unwrap().id, 2);
    assert!(pool.get(3).is_none());
}

#[test]
fn mempool_refuses_expired_and_invalid_transactions() {
    let mut pool = Mempool::new(10, minute());
    assert_eq!(
        pool.insert_at(transaction(1, 1_000), at(1_061)).unwrap_err(),
        MiniChainError::ExpiredTransaction { id: 1 }
    );
    let mut tampered = transaction(2, 1_000);
    tampered.record_id = "OTHER".to_owned();
    assert!(pool.insert_at(tampered, at(1_001)).is_err());
    assert!(pool.is_empty());
}

#[test]
fn mempool_drops_committed_and_expired_transactions() {
    let mut pool = Mempool::new(10, minute());
    pool.insert_at(transaction(1, 1_000), at(1_000)).unwrap();
    pool.insert_at(transaction(2, 1_030), at(1_030)).unwrap();
    pool.insert_at(transaction(3, 1_050), at(1_050)).unwrap();
    assert_eq!(pool.remove_committed(&[2, 2, 9]), 1);
    assert_eq!(pool.len(), 2);
    assert_eq!(pool.remove_expired(at(1_080)), 1);
    assert_eq!(pool.len(), 1);
    assert!(pool.get(3).is_some());
}

#[test]
fn expiry_is_strictly_older_than_the_maximum_age() {
    assert!(!is_expired(at(1_000), at(1_060), minute()));
    assert!(is_expired(at(999), at(1_060), minute()));
    let half = Timestamp { seconds: 999, nanos: 999_999_999 };
    assert!(is_expired(half, at(1_060), minute()));
    let forever = Duration { seconds: u64::MAX, nanos: 0 };
    assert!(!is_expired(at(0), at(1_000_000), forever));
}

#[test]
fn expiry_steps_back_from_a_leap_second() {
    let leap = Timestamp { seconds: 1_483_228_799, nanos: 1_500_000_000 };
    let ten = Duration { seconds: 10, nanos: 0 };
    let half = Duration { seconds: 0, nanos: 700_000_000 };
    let made = |seconds: i64, nanos: u32| Timestamp { seconds, nanos };
    assert!(is_expired(made(1_483_228_790, 400_000_000), leap, ten));
    assert!(!is_expired(made(1_483_228_790, 600_000_000), leap, ten));
    assert!(is_expired(made(1_483_228_799, 700_000_000), leap, half));
    assert!(!is_expired(made(1_483_228_799, 800_000_000), leap, half));
}
