use evmstate::digest::{digest_bytes, digest_is_reproducible, logs_digest, serialize_logs};
use evmstate::state::LogRecord;
use evmstate::words::{Address, W256};

fn w(x: u64) -> W256 {
    W256::from_u64(x)
}

fn sample_logs() -> Vec<LogRecord> {
    vec![
        LogRecord {
            address: Address::from_u64(1),
            topics: vec![w(10), w(20)],
            data: vec![1, 2, 3],
        },
        LogRecord { address: Address::from_u64(2), topics: vec![], data: vec![] },
    ]
}

#[test]
fn digest_of_bytes_matches_the_fold() {
    let bytes: Vec<u8> = vec![0xab, 0xcd];
    let mut expected: u64 = 0xcbf2_9ce4_8422_2325;
    for b in &bytes {
        expected = (expected ^ (*b as u64)).wrapping_mul(0x100_0000_01b3);
    }
    assert_eq!(digest_bytes(&bytes), expected);
}

#[test]
fn unchanged_logs_reproduce_the_digest() {
    let logs = sample_logs();
    assert!(digest_is_reproducible(&logs));
    assert_eq!(logs_digest(&logs), logs_digest(&logs));
    assert_eq!(logs_digest(&sample_logs()), logs_digest(&sample_logs()));
}

#[test]
fn serialization_is_stable_and_sized() {
    let logs = sample_logs();
    let s1 = serialize_logs(&logs);
    let s2 = serialize_logs(&logs);
    assert_eq!(s1, s2);
    // count + (address, topic count, 2 topics, data length, 3 data
    // bytes) + (address, topic count, data length)
    assert_eq!(s1.len(), 8 + (20 + 8 + 64 + 8 + 3) + (20 + 8 + 8));
}

#[test]
fn one_flipped_data_byte_changes_the_digest() {
    let logs = sample_logs();
    let mut mutated = sample_logs();
    mutated[0].data[1] ^= 1;
    assert_ne!(logs_digest(&logs), logs_digest(&mutated));
}

#[test]
fn one_changed_topic_changes_the_digest() {
    let logs = sample_logs();
    let mut mutated = sample_logs();
    mutated[0].topics[1] = w(21);
    assert_ne!(logs_digest(&logs), logs_digest(&mutated));
}

#[test]
fn a_changed_address_changes_the_digest() {
    let logs = sample_logs();
    let mut mutated = sample_logs();
    mutated[1].address = Address::from_u64(3);
    assert_ne!(logs_digest(&logs), logs_digest(&mutated));
}

#[test]
fn log_order_matters_to_the_digest() {
    let logs = sample_logs();
    let mut reordered = sample_logs();
    reordered.swap(0, 1);
    assert_ne!(logs_digest(&logs), logs_digest(&reordered));
}
