use evmstate::errors::Fault;
use evmstate::greet;
use evmstate::parse::{parse_address, parse_hex_bytes, parse_quantity};
use evmstate::words::{Address, W256};

fn w(x: u64) -> W256 {
    W256::from_u64(x)
}

#[test]
fn greet_says_hello() {
    assert_eq!(greet(), "Hello world from Rust!");
}

#[test]
fn add_carries_across_limbs() {
    let a = W256 { limb0: u64::MAX, limb1: 0, limb2: 0, limb3: 0 };
    let r = a.checked_add(w(1)).unwrap();
    assert_eq!(r, W256 { limb0: 0, limb1: 1, limb2: 0, limb3: 0 });
}

#[test]
fn add_overflow_is_detected() {
    let max = W256 {
        limb0: u64::MAX,
        limb1: u64::MAX,
        limb2: u64::MAX,
        limb3: u64::MAX,
    };
    assert!(max.checked_add(w(1)).is_none());
    assert_eq!(max.saturating_add(w(1)), max);
    assert_eq!(w(2).saturating_add(w(3)), w(5));
}

#[test]
fn sub_undoes_add() {
    let a = W256 { limb0: 5, limb1: 7, limb2: 0, limb3: 1 };
    let b = W256 { limb0: u64::MAX, limb1: 2, limb2: 9, limb3: 0 };
    let s = a.checked_add(b).unwrap();
    assert_eq!(s.sub(b), a);
    assert_eq!(s.sub(a), b);
}

#[test]
fn comparisons_follow_values() {
    let small = W256 { limb0: u64::MAX, limb1: u64::MAX, limb2: 0, limb3: 0 };
    let big = W256 { limb0: 0, limb1: 0, limb2: 1, limb3: 0 };
    assert!(small.lt(big));
    assert!(small.le(big));
    assert!(!big.le(small));
    assert!(w(4).le(w(4)));
    assert!(!w(4).lt(w(4)));
}

#[test]
fn quantity_decimal() {
    let r = parse_quantity(&b"100".to_vec()).unwrap();
    assert_eq!(r, w(100));
    let r = parse_quantity(&b"0".to_vec()).unwrap();
    assert_eq!(r, W256::zero());
    let r = parse_quantity(&b"18446744073709551616".to_vec()).unwrap();
    assert_eq!(r, W256 { limb0: 0, limb1: 1, limb2: 0, limb3: 0 });
}

#[test]
fn quantity_hexadecimal() {
    let r = parse_quantity(&b"0x1f".to_vec()).unwrap();
    assert_eq!(r, w(31));
    let r = parse_quantity(&b"0xDeadBeef".to_vec()).unwrap();
    assert_eq!(r, w(0xdead_beef));
    let all_f: String = format!("0x{}", "f".repeat(64));
    let r = parse_quantity(&all_f.into_bytes()).unwrap();
    assert_eq!(r, W256::max_value());
}

#[test]
fn quantity_malformed() {
    assert_eq!(parse_quantity(&b"".to_vec()), Err(Fault::MalformedScenario));
    assert_eq!(parse_quantity(&b"0x".to_vec()), Err(Fault::MalformedScenario));
    assert_eq!(parse_quantity(&b"12a".to_vec()), Err(Fault::MalformedScenario));
    assert_eq!(parse_quantity(&b"0xg1".to_vec()), Err(Fault::MalformedScenario));
    let too_big: String = format!("0x1{}", "0".repeat(64));
    assert_eq!(
        parse_quantity(&too_big.into_bytes()),
        Err(Fault::MalformedScenario)
    );
    let big_dec: String = "9".repeat(80);
    assert_eq!(
        parse_quantity(&big_dec.into_bytes()),
        Err(Fault::MalformedScenario)
    );
}

#[test]
fn address_round_trip() {
    let text = format!("0x{}{}", "0".repeat(39), "1");
    let a = parse_address(&text.into_bytes()).unwrap();
    assert_eq!(a, Address::from_u64(1));
    let text2 = b"0xffffffffaaaaaaaaaaaaaaaabbbbbbbbbbbbbbbb".to_vec();
    let a2 = parse_address(&text2).unwrap();
    assert_eq!(
        a2,
        Address {
            limb0: 0xbbbb_bbbb_bbbb_bbbb,
            limb1: 0xaaaa_aaaa_aaaa_aaaa,
            limb2: 0xffff_ffff,
        }
    );
}

#[test]
fn address_malformed() {
    assert_eq!(parse_address(&b"0x123".to_vec()), Err(Fault::MalformedScenario));
    let no_prefix: String = "0".repeat(42);
    assert_eq!(
        parse_address(&no_prefix.into_bytes()),
        Err(Fault::MalformedScenario)
    );
}

#[test]
fn hex_bytes_decode() {
    let r = parse_hex_bytes(&b"0xdeadBEEF".to_vec()).unwrap();
    assert_eq!(r, vec![0xde, 0xad, 0xbe, 0xef]);
    let r = parse_hex_bytes(&b"0x".to_vec()).unwrap();
    assert_eq!(r, Vec::<u8>::new());
}

#[test]
fn hex_bytes_malformed() {
    assert_eq!(parse_hex_bytes(&b"0xabc".to_vec()), Err(Fault::MalformedScenario));
    assert_eq!(parse_hex_bytes(&b"abcd".to_vec()), Err(Fault::MalformedScenario));
    assert_eq!(parse_hex_bytes(&b"0xzz".to_vec()), Err(Fault::MalformedScenario));
}
