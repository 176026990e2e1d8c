//! Parsing of the scenario format's textual number fields.
//!
//! A numeric field is either `0x`-prefixed hexadecimal, read
//! big-endian, or unprefixed base-10 decimal, read as an unbounded
//! integer; a value that does not fit the 256-bit word range is
//! malformed. Byte-string fields are `0x`-prefixed even-length
//! hexadecimal.

use vstd::prelude::*;

use crate::errors::Fault;
use crate::words::{pow256, Address, W256};

verus! {

/// 2^160, one past the largest address value.
pub open spec fn pow160() -> nat {
    0x1_0000_0000_0000_0000_0000_0000_0000_0000_0000_0000nat
}

/// Whether `c` is an ASCII decimal digit.
pub open spec fn is_dec_digit(c: u8) -> bool {
    48 <= c <= 57
}

/// The value of an ASCII decimal digit.
pub open spec fn dec_val(c: u8) -> nat {
    (c - 48) as nat
}

/// Whether `c` is an ASCII hexadecimal digit, either case.
pub open spec fn is_hex_digit(c: u8) -> bool {
    (48 <= c <= 57) || (97 <= c <= 102) || (65 <= c <= 70)
}

/// The value of an ASCII hexadecimal digit.
pub open spec fn hex_val(c: u8) -> nat {
    if 48 <= c <= 57 {
        (c - 48) as nat
    } else if 97 <= c <= 102 {
        (c - 87) as nat
    } else {
        (c - 55) as nat
    }
}

/// Whether every byte of `s` is a decimal digit.
pub open spec fn all_dec(s: Seq<u8>) -> bool {
    forall|i: int| 0 <= i < s.len() ==> is_dec_digit(#[trigger] s[i])
}

/// Whether every byte of `s` is a hexadecimal digit.
pub open spec fn all_hex(s: Seq<u8>) -> bool {
    forall|i: int| 0 <= i < s.len() ==> is_hex_digit(#[trigger] s[i])
}

/// The big-endian base-10 value of `s`.
pub open spec fn dec_value(s: Seq<u8>) -> nat
    decreases s.len(),
{
    if s.len() == 0 {
        0
    } else {
        dec_value(s.drop_last()) * 10 + dec_val(s.last())
    }
}

/// The big-endian base-16 value of `s`.
pub open spec fn hex_value(s: Seq<u8>) -> nat
    decreases s.len(),
{
    if s.len() == 0 {
        0
    } else {
        hex_value(s.drop_last()) * 16 + hex_val(s.last())
    }
}

/// Whether `s` starts with the two bytes `0x`.
pub open spec fn has_hex_prefix(s: Seq<u8>) -> bool {
    s.len() >= 2 && s[0] == 48 && s[1] == 120
}

/// What a numeric field denotes: `0x`-prefixed text read as
/// hexadecimal, unprefixed text as decimal; `None` for empty digits,
/// a stray byte, or a value at or above 2^256.
pub open spec fn spec_quantity(s: Seq<u8>) -> Option<nat> {
    if has_hex_prefix(s) {
        let rest = s.subrange(2, s.len() as int);
        if rest.len() > 0 && all_hex(rest) && hex_value(rest) < pow256() {
            Some(hex_value(rest))
        } else {
            None
        }
    } else {
        if s.len() > 0 && all_dec(s) && dec_value(s) < pow256() {
            Some(dec_value(s))
        } else {
            None
        }
    }
}

/// What an address field denotes: `0x` and exactly 40 hexadecimal
/// digits, read big-endian.
pub open spec fn spec_address(s: Seq<u8>) -> Option<nat> {
    if has_hex_prefix(s) {
        let rest = s.subrange(2, s.len() as int);
        if rest.len() == 40 && all_hex(rest) && hex_value(rest) < pow160() {
            Some(hex_value(rest))
        } else {
            None
        }
    } else {
        None
    }
}

/// What a byte-string field denotes: `0x` and an even number of
/// hexadecimal digits, two per byte.
pub open spec fn spec_hex_bytes(s: Seq<u8>) -> Option<Seq<u8>> {
    if has_hex_prefix(s) {
        let rest = s.subrange(2, s.len() as int);
        if rest.len() % 2 == 0 && all_hex(rest) {
            Some(
                Seq::new(
                    (rest.len() / 2) as nat,
                    |i: int| (hex_val(rest[2 * i]) * 16 + hex_val(rest[2 * i + 1])) as u8,
                ),
            )
        } else {
            None
        }
    } else {
        None
    }
}

/// A digit prefix never denotes more than the whole digit string.
proof fn lemma_hex_prefix_le(s: Seq<u8>, i: int)
    requires
        0 <= i <= s.len(),
    ensures
        hex_value(s.subrange(0, i)) <= hex_value(s),
    decreases s.len() - i,
{
    if i < s.len() {
        let shorter = s.drop_last();
        assert(s.subrange(0, i) =~= shorter.subrange(0, i));
        lemma_hex_prefix_le(shorter, i);
    } else {
        assert(s.subrange(0, i) =~= s);
    }
}

/// A digit prefix never denotes more than the whole digit string.
proof fn lemma_dec_prefix_le(s: Seq<u8>, i: int)
    requires
        0 <= i <= s.len(),
    ensures
        dec_value(s.subrange(0, i)) <= dec_value(s),
    decreases s.len() - i,
{
    if i < s.len() {
        let shorter = s.drop_last();
        assert(s.subrange(0, i) =~= shorter.subrange(0, i));
        lemma_dec_prefix_le(shorter, i);
    } else {
        assert(s.subrange(0, i) =~= s);
    }
}

/// The value of `c` as a hexadecimal digit, if it is one.
fn hex_digit_val(c: u8) -> (r: Option<u64>)
    ensures
        match r {
            Some(v) => is_hex_digit(c) && v == hex_val(c) && v < 16,
            None => !is_hex_digit(c),
        },
{
    if 48 <= c && c <= 57 {
        Some((c - 48) as u64)
    } else if 97 <= c && c <= 102 {
        Some((c - 87) as u64)
    } else if 65 <= c && c <= 70 {
        Some((c - 55) as u64)
    } else {
        None
    }
}

/// The value of `c` as a decimal digit, if it is one.
fn dec_digit_val(c: u8) -> (r: Option<u64>)
    ensures
        match r {
            Some(v) => is_dec_digit(c) && v == dec_val(c) && v < 10,
            None => !is_dec_digit(c),
        },
{
    if 48 <= c && c <= 57 {
        Some((c - 48) as u64)
    } else {
        None
    }
}

/// Parses a numeric field: `0x`-prefixed hexadecimal or unprefixed
/// decimal, rejected with `MalformedScenario` exactly when the text
/// is empty, holds a stray byte, or denotes 2^256 or more.
pub fn parse_quantity(s: &Vec<u8>) -> (r: Result<W256, Fault>)
    ensures
        match r {
            Ok(w) => spec_quantity(s@) == Some(w.as_nat()),
            Err(f) => f == Fault::MalformedScenario && spec_quantity(s@) is None,
        },
{
    let n = s.len();
    let is_hex = n >= 2 && s[0] == 48 && s[1] == 120;
    let start: usize = if is_hex {
        2
    } else {
        0
    };
    if n == start {
        return Err(Fault::MalformedScenario);
    }
    let ghost digits = s@.subrange(start as int, n as int);
    let mut acc = W256::zero();
    let mut i: usize = start;
    while i < n
        invariant
            n == s@.len(),
            start <= i <= n,
            start == 0 || start == 2,
            is_hex == (start == 2),
            is_hex == has_hex_prefix(s@),
            digits == s@.subrange(start as int, n as int),
            forall|j: int|
                start <= j < i ==> if is_hex {
                    is_hex_digit(#[trigger] s@[j])
                } else {
                    is_dec_digit(s@[j])
                },
            acc.as_nat() == if is_hex {
                hex_value(s@.subrange(start as int, i as int))
            } else {
                dec_value(s@.subrange(start as int, i as int))
            },
        decreases n - i,
    {
        let c = s[i];
        let ghost done = s@.subrange(start as int, i as int);
        let ghost more = s@.subrange(start as int, i + 1 as int);
        proof {
            assert(more.drop_last() =~= done);
            assert(more.last() == s@[i as int]);
        }
        if is_hex {
            let d = match hex_digit_val(c) {
                Some(d) => d,
                None => {
                    proof {
                        assert(digits[i - start] == s@[i as int]);
                        assert(!all_hex(digits));
                    }
                    return Err(Fault::MalformedScenario);
                },
            };
            acc = match acc.mul16_add(d) {
                Some(x) => x,
                None => {
                    proof {
                        lemma_hex_prefix_le(digits, i + 1 - start);
                        assert(more =~= digits.subrange(0, i + 1 - start));
                        assert(hex_value(digits) >= pow256());
                    }
                    return Err(Fault::MalformedScenario);
                },
            };
        } else {
            let d = match dec_digit_val(c) {
                Some(d) => d,
                None => {
                    proof {
                        assert(!all_dec(s@));
                    }
                    return Err(Fault::MalformedScenario);
                },
            };
            acc = match acc.mul10_add(d) {
                Some(x) => x,
                None => {
                    proof {
                        lemma_dec_prefix_le(digits, i + 1 - start);
                        assert(more =~= digits.subrange(0, i + 1 - start));
                        assert(digits =~= s@);
                        assert(dec_value(s@) >= pow256());
                    }
                    return Err(Fault::MalformedScenario);
                },
            };
        }
        i = i + 1;
    }
    proof {
        assert(forall|j: int| 0 <= j < digits.len() ==> digits[j] == s@[j + start]);
        acc.lemma_bound();
        if is_hex {
            assert forall|j: int| 0 <= j < digits.len() implies is_hex_digit(
                #[trigger] digits[j],
            ) by {
                assert(digits[j] == s@[j + start]);
            }
            assert(all_hex(digits));
            assert(acc.as_nat() == hex_value(digits));
        } else {
            assert(digits =~= s@);
            assert(all_dec(s@));
            assert(acc.as_nat() == dec_value(s@));
        }
    }
    Ok(acc)
}

/// Parses an address field: `0x` and exactly 40 hexadecimal digits,
/// read big-endian; anything else is `MalformedScenario`.
pub fn parse_address(s: &Vec<u8>) -> (r: Result<Address, Fault>)
    ensures
        match r {
            Ok(a) => spec_address(s@) == Some(a.as_nat()),
            Err(f) => f == Fault::MalformedScenario && spec_address(s@) is None,
        },
{
    let n = s.len();
    if !(n == 42 && s[0] == 48 && s[1] == 120) {
        return Err(Fault::MalformedScenario);
    }
    let ghost digits = s@.subrange(2, n as int);
    let mut acc = W256::zero();
    let mut i: usize = 2;
    while i < n
        invariant
            n == s@.len(),
            n == 42,
            2 <= i <= n,
            has_hex_prefix(s@),
            digits == s@.subrange(2, n as int),
            forall|j: int| 2 <= j < i ==> is_hex_digit(#[trigger] s@[j]),
            acc.as_nat() == hex_value(s@.subrange(2, i as int)),
        decreases n - i,
    {
        let c = s[i];
        let ghost done = s@.subrange(2, i as int);
        let ghost more = s@.subrange(2, i + 1 as int);
        proof {
            assert(more.drop_last() =~= done);
            assert(more.last() == s@[i as int]);
        }
        let d = match hex_digit_val(c) {
            Some(d) => d,
            None => {
                proof {
                    assert(digits[i - 2] == s@[i as int]);
                    assert(!all_hex(digits));
                }
                return Err(Fault::MalformedScenario);
            },
        };
        acc = match acc.mul16_add(d) {
            Some(x) => x,
            None => {
                proof {
                    lemma_hex_prefix_le(digits, i + 1 - 2);
                    assert(more =~= digits.subrange(0, i + 1 - 2));
                    assert(hex_value(digits) >= pow256());
                    assert(pow256() >= pow160());
                }
                return Err(Fault::MalformedScenario);
            },
        };
        i = i + 1;
    }
    proof {
        assert(forall|j: int| 0 <= j < digits.len() ==> digits[j] == s@[j + 2]);
        assert forall|j: int| 0 <= j < digits.len() implies is_hex_digit(
            #[trigger] digits[j],
        ) by {
            assert(digits[j] == s@[j + 2]);
        }
        assert(all_hex(digits));
        assert(acc.as_nat() == hex_value(digits));
    }
    if acc.limb3 == 0 && acc.limb2 <= 0xffff_ffff {
        let a = Address { limb0: acc.limb0, limb1: acc.limb1, limb2: acc.limb2 as u32 };
        proof {
            assert(a.as_nat() == acc.as_nat());
        }
        Ok(a)
    } else {
        proof {
            assert(acc.as_nat() >= pow160());
        }
        Err(Fault::MalformedScenario)
    }
}

/// Parses a byte-string field: `0x` and an even number of
/// hexadecimal digits, two per byte; anything else is
/// `MalformedScenario`.
pub fn parse_hex_bytes(s: &Vec<u8>) -> (r: Result<Vec<u8>, Fault>)
    ensures
        match r {
            Ok(v) => spec_hex_bytes(s@) == Some(v@),
            Err(f) => f == Fault::MalformedScenario && spec_hex_bytes(s@) is None,
        },
{
    let n = s.len();
    if !(n >= 2 && s[0] == 48 && s[1] == 120) {
        return Err(Fault::MalformedScenario);
    }
    if (n - 2) % 2 != 0 {
        return Err(Fault::MalformedScenario);
    }
    let ghost digits = s@.subrange(2, n as int);
    let mut out: Vec<u8> = Vec::new();
    let mut i: usize = 2;
    while i < n
        invariant
            n == s@.len(),
            n >= 2,
            (n - 2) % 2 == 0,
            2 <= i <= n,
            (i - 2) % 2 == 0,
            (n - i) % 2 == 0,
            has_hex_prefix(s@),
            digits == s@.subrange(2, n as int),
            forall|j: int| 2 <= j < i ==> is_hex_digit(#[trigger] s@[j]),
            out@.len() == (i - 2) / 2,
            forall|j: int|
                0 <= j < out@.len() ==> out@[j] == (hex_val(s@[2 * j + 2]) * 16 + hex_val(
                    s@[2 * j + 3],
                )) as u8,
        decreases n - i,
    {
        proof {
            assert(i + 1 < n);
        }
        let hi = match hex_digit_val(s[i]) {
            Some(d) => d,
            None => {
                proof {
                    assert(digits[i - 2] == s@[i as int]);
                    assert(!all_hex(digits));
                }
                return Err(Fault::MalformedScenario);
            },
        };
        let lo = match hex_digit_val(s[i + 1]) {
            Some(d) => d,
            None => {
                proof {
                    assert(digits[i - 1] == s@[i + 1 as int]);
                    assert(!all_hex(digits));
                }
                return Err(Fault::MalformedScenario);
            },
        };
        out.push((hi * 16 + lo) as u8);
        i = i + 2;
    }
    proof {
        assert(forall|j: int| 0 <= j < digits.len() ==> digits[j] == s@[j + 2]);
        assert forall|j: int| 0 <= j < digits.len() implies is_hex_digit(
            #[trigger] digits[j],
        ) by {
            assert(digits[j] == s@[j + 2]);
        }
        assert(all_hex(digits));
        let expected = Seq::new(
            (digits.len() / 2) as nat,
            |j: int| (hex_val(digits[2 * j]) * 16 + hex_val(digits[2 * j + 1])) as u8,
        );
        assert forall|j: int| 0 <= j < out@.len() implies out@[j] == expected[j] by {
            assert(digits[2 * j] == s@[2 * j + 2]);
            assert(digits[2 * j + 1] == s@[2 * j + 3]);
        }
        assert(out@ =~= expected);
    }
    Ok(out)
}

} // verus!
