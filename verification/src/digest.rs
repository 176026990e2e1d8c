//! A canonical content digest over an ordered log list, used to check
//! a run's emitted logs against a scenario's expected value.
//!
//! The serialization is fixed and unambiguous — little-endian limbs,
//! explicit length prefixes — and the digest is a 64-bit
//! multiply-and-fold over those bytes. Both are specified exactly, so
//! equal log lists provably yield equal digests.

use vstd::prelude::*;

use crate::state::{LogRecord, LogV};
use crate::words::{Address, W256};

verus! {

/// The divisor that brings byte `i` of a little-endian encoding into
/// the low eight bits.
pub open spec fn byte_weight(i: int) -> u64 {
    if i <= 0 {
        1
    } else if i == 1 {
        0x100
    } else if i == 2 {
        0x1_0000
    } else if i == 3 {
        0x100_0000
    } else if i == 4 {
        0x1_0000_0000
    } else if i == 5 {
        0x100_0000_0000
    } else if i == 6 {
        0x1_0000_0000_0000
    } else {
        0x100_0000_0000_0000
    }
}

/// The eight little-endian bytes of a 64-bit value.
pub open spec fn u64_le_bytes(x: u64) -> Seq<u8> {
    Seq::new(8, |i: int| (x / byte_weight(i) % 256) as u8)
}

/// The four little-endian bytes of a 32-bit value.
pub open spec fn u32_le_bytes(x: u32) -> Seq<u8> {
    Seq::new(4, |i: int| (x as u64 / byte_weight(i) % 256) as u8)
}

/// The 32 bytes of a word, least significant limb first.
pub open spec fn w256_bytes(w: W256) -> Seq<u8> {
    u64_le_bytes(w.limb0) + u64_le_bytes(w.limb1) + u64_le_bytes(w.limb2) + u64_le_bytes(w.limb3)
}

/// The 20 bytes of an address, least significant limb first.
pub open spec fn address_bytes(a: Address) -> Seq<u8> {
    u64_le_bytes(a.limb0) + u64_le_bytes(a.limb1) + u32_le_bytes(a.limb2)
}

/// The serialized topics of one log, from index `i` on.
pub open spec fn topics_bytes_from(ts: Seq<W256>, i: int) -> Seq<u8>
    decreases ts.len() - i,
{
    if i < 0 || i >= ts.len() {
        Seq::empty()
    } else {
        w256_bytes(ts[i]) + topics_bytes_from(ts, i + 1)
    }
}

/// The canonical bytes of one log record: address, topic count,
/// topics, data length, data.
pub open spec fn log_bytes(l: LogV) -> Seq<u8> {
    address_bytes(l.address) + u64_le_bytes(l.topics.len() as u64) + topics_bytes_from(l.topics, 0)
        + u64_le_bytes(l.data.len() as u64) + l.data
}

/// The serialized log list, from index `i` on.
pub open spec fn logs_bytes_from(ls: Seq<LogV>, i: int) -> Seq<u8>
    decreases ls.len() - i,
{
    if i < 0 || i >= ls.len() {
        Seq::empty()
    } else {
        log_bytes(ls[i]) + logs_bytes_from(ls, i + 1)
    }
}

/// The canonical serialization of an ordered log list: the count,
/// then each record in order.
pub open spec fn spec_serialize_logs(ls: Seq<LogV>) -> Seq<u8> {
    u64_le_bytes(ls.len() as u64) + logs_bytes_from(ls, 0)
}

/// One digest step: fold a byte into the accumulator.
pub open spec fn digest_step(acc: u64, b: u8) -> u64 {
    ((((acc ^ (b as u64)) as u128) * 0x100_0000_01b3) % 0x1_0000_0000_0000_0000) as u64
}

/// The digest of the bytes of `s`, folded onto `acc`.
pub open spec fn digest_bytes_from(s: Seq<u8>, i: int, acc: u64) -> u64
    decreases s.len() - i,
{
    if i < 0 || i >= s.len() {
        acc
    } else {
        digest_bytes_from(s, i + 1, digest_step(acc, s[i]))
    }
}

/// The canonical digest of a byte sequence.
pub open spec fn spec_digest_bytes(s: Seq<u8>) -> u64 {
    digest_bytes_from(s, 0, 0xcbf2_9ce4_8422_2325)
}

/// The canonical digest of an ordered log list.
pub open spec fn spec_logs_digest(ls: Seq<LogV>) -> u64 {
    spec_digest_bytes(spec_serialize_logs(ls))
}

/// Multiplying by the odd fold constant modulo 2^64 is injective:
/// the constant has a multiplicative inverse.
proof fn lemma_mul_fold_cancel(z1: u64, z2: u64)
    requires
        ((((z1 as u128) * 0x100_0000_01b3) % 0x1_0000_0000_0000_0000) as u64) == ((((
        z2 as u128) * 0x100_0000_01b3) % 0x1_0000_0000_0000_0000) as u64),
    ensures
        z1 == z2,
{
    assert((((z1 as u128) * 0x100_0000_01b3) % 0x1_0000_0000_0000_0000)
        < 0x1_0000_0000_0000_0000);
    assert((((z2 as u128) * 0x100_0000_01b3) % 0x1_0000_0000_0000_0000)
        < 0x1_0000_0000_0000_0000);
    assert(((z1 as u128) * 0x100_0000_01b3) % 0x1_0000_0000_0000_0000 == ((z2 as u128)
        * 0x100_0000_01b3) % 0x1_0000_0000_0000_0000);
    assert(((((z1 as u128) * 0x100_0000_01b3) % 0x1_0000_0000_0000_0000)
        * 0xce96_5057_aff6_957b) % 0x1_0000_0000_0000_0000 == z1 as u128) by (bit_vector);
    assert(((((z2 as u128) * 0x100_0000_01b3) % 0x1_0000_0000_0000_0000)
        * 0xce96_5057_aff6_957b) % 0x1_0000_0000_0000_0000 == z2 as u128) by (bit_vector);
}

/// One digest step taken with the same byte is injective in the
/// accumulator: xor with a fixed byte and multiplication by the odd
/// constant are both bijections.
proof fn lemma_digest_step_acc_injective(a1: u64, a2: u64, b: u8)
    requires
        digest_step(a1, b) == digest_step(a2, b),
    ensures
        a1 == a2,
{
    let z1 = a1 ^ (b as u64);
    let z2 = a2 ^ (b as u64);
    lemma_mul_fold_cancel(z1, z2);
    assert((a1 ^ (b as u64)) ^ (b as u64) == a1) by (bit_vector);
    assert((a2 ^ (b as u64)) ^ (b as u64) == a2) by (bit_vector);
}

/// One digest step taken from the same accumulator is injective in
/// the byte.
proof fn lemma_digest_step_byte_injective(acc: u64, b1: u8, b2: u8)
    requires
        digest_step(acc, b1) == digest_step(acc, b2),
    ensures
        b1 == b2,
{
    let z1 = acc ^ (b1 as u64);
    let z2 = acc ^ (b2 as u64);
    lemma_mul_fold_cancel(z1, z2);
    assert((acc ^ (b1 as u64)) == (acc ^ (b2 as u64)) ==> (b1 as u64) == (b2 as u64))
        by (bit_vector);
}

/// Folding the same byte suffix onto different accumulators gives
/// different digests: every step is a bijection of the accumulator.
proof fn lemma_digest_suffix_injective(s1: Seq<u8>, s2: Seq<u8>, i: int, a1: u64, a2: u64)
    requires
        s1.len() == s2.len(),
        0 <= i <= s1.len(),
        forall|j: int| i <= j < s1.len() ==> s1[j] == s2[j],
        a1 != a2,
    ensures
        digest_bytes_from(s1, i, a1) != digest_bytes_from(s2, i, a2),
    decreases s1.len() - i,
{
    if i < s1.len() {
        let c = s1[i];
        assert(s2[i] == c);
        if digest_step(a1, c) == digest_step(a2, c) {
            lemma_digest_step_acc_injective(a1, a2, c);
        }
        lemma_digest_suffix_injective(s1, s2, i + 1, digest_step(a1, c), digest_step(a2, c));
    }
}

/// Folding two byte strings that differ at exactly one position at
/// or after `i` onto the same accumulator gives different digests.
proof fn lemma_digest_single_diff(s1: Seq<u8>, s2: Seq<u8>, p: int, i: int, acc: u64)
    requires
        s1.len() == s2.len(),
        0 <= i <= p < s1.len(),
        forall|j: int| i <= j < s1.len() && j != p ==> s1[j] == s2[j],
        s1[p] != s2[p],
    ensures
        digest_bytes_from(s1, i, acc) != digest_bytes_from(s2, i, acc),
    decreases p - i,
{
    if i == p {
        if digest_step(acc, s1[p]) == digest_step(acc, s2[p]) {
            lemma_digest_step_byte_injective(acc, s1[p], s2[p]);
        }
        lemma_digest_suffix_injective(
            s1,
            s2,
            p + 1,
            digest_step(acc, s1[p]),
            digest_step(acc, s2[p]),
        );
    } else {
        assert(s1[i] == s2[i]);
        lemma_digest_single_diff(s1, s2, p, i + 1, digest_step(acc, s1[i]));
    }
}

/// The digest is sensitive to any single in-place byte change: two
/// byte strings of the same length that differ at exactly one
/// position never share a digest. Each fold step xors one byte into
/// the accumulator and multiplies by an odd constant modulo 2^64 — a
/// bijection of the accumulator — so the divergence introduced at
/// the changed byte never cancels out.
pub proof fn lemma_digest_sensitive(s1: Seq<u8>, s2: Seq<u8>, p: int)
    requires
        s1.len() == s2.len(),
        0 <= p < s1.len(),
        s1[p] != s2[p],
        forall|j: int| 0 <= j < s1.len() && j != p ==> s1[j] == s2[j],
    ensures
        spec_digest_bytes(s1) != spec_digest_bytes(s2),
{
    lemma_digest_single_diff(s1, s2, p, 0, 0xcbf2_9ce4_8422_2325);
}

/// Mutating a single byte of a log list's canonical serialization —
/// where every byte of every record's address, topics and data lands
/// at a fixed offset — changes the log digest.
pub proof fn lemma_logs_digest_sensitive(ls1: Seq<LogV>, ls2: Seq<LogV>, p: int)
    requires
        spec_serialize_logs(ls1).len() == spec_serialize_logs(ls2).len(),
        0 <= p < spec_serialize_logs(ls1).len(),
        spec_serialize_logs(ls1)[p] != spec_serialize_logs(ls2)[p],
        forall|j: int|
            0 <= j < spec_serialize_logs(ls1).len() && j != p ==> spec_serialize_logs(ls1)[j]
                == spec_serialize_logs(ls2)[j],
    ensures
        spec_logs_digest(ls1) != spec_logs_digest(ls2),
{
    lemma_digest_sensitive(spec_serialize_logs(ls1), spec_serialize_logs(ls2), p);
}

/// Splitting two equal byte strings at the same point gives equal
/// parts.
proof fn lemma_concat_parts(a1: Seq<u8>, b1: Seq<u8>, a2: Seq<u8>, b2: Seq<u8>)
    requires
        a1 + b1 == a2 + b2,
        a1.len() == a2.len(),
    ensures
        a1 == a2,
        b1 == b2,
{
    assert((a1 + b1).len() == a1.len() + b1.len());
    assert((a2 + b2).len() == a2.len() + b2.len());
    assert forall|i: int| 0 <= i < a1.len() implies a1[i] == a2[i] by {
        assert(a1[i] == (a1 + b1)[i]);
        assert(a2[i] == (a2 + b2)[i]);
    }
    assert(a1 =~= a2);
    assert(b1.len() == b2.len());
    assert forall|i: int| 0 <= i < b1.len() implies b1[i] == b2[i] by {
        assert(b1[i] == (a1 + b1)[i + a1.len()]);
        assert(b2[i] == (a2 + b2)[i + a2.len()]);
    }
    assert(b1 =~= b2);
}

/// A 64-bit value is recovered from its eight little-endian bytes.
proof fn lemma_u64_le_bytes_injective(x: u64, y: u64)
    requires
        u64_le_bytes(x) == u64_le_bytes(y),
    ensures
        x == y,
{
    assert forall|k: int|
        0 <= k < 8 implies x / byte_weight(k) % 256 == y / byte_weight(k) % 256 by {
        assert(u64_le_bytes(x)[k] == (x / byte_weight(k) % 256) as u8);
        assert(u64_le_bytes(y)[k] == (y / byte_weight(k) % 256) as u8);
        assert(u64_le_bytes(x)[k] == u64_le_bytes(y)[k]);
    }
    assert(x / byte_weight(0) % 256 == y / byte_weight(0) % 256);
    assert(x / byte_weight(1) % 256 == y / byte_weight(1) % 256);
    assert(x / byte_weight(2) % 256 == y / byte_weight(2) % 256);
    assert(x / byte_weight(3) % 256 == y / byte_weight(3) % 256);
    assert(x / byte_weight(4) % 256 == y / byte_weight(4) % 256);
    assert(x / byte_weight(5) % 256 == y / byte_weight(5) % 256);
    assert(x / byte_weight(6) % 256 == y / byte_weight(6) % 256);
    assert(x / byte_weight(7) % 256 == y / byte_weight(7) % 256);
    assert(x / 1 % 256 == y / 1 % 256);
    assert(x / 0x100 % 256 == y / 0x100 % 256);
    assert(x / 0x1_0000 % 256 == y / 0x1_0000 % 256);
    assert(x / 0x100_0000 % 256 == y / 0x100_0000 % 256);
    assert(x / 0x1_0000_0000 % 256 == y / 0x1_0000_0000 % 256);
    assert(x / 0x100_0000_0000 % 256 == y / 0x100_0000_0000 % 256);
    assert(x / 0x1_0000_0000_0000 % 256 == y / 0x1_0000_0000_0000 % 256);
    assert(x / 0x100_0000_0000_0000 % 256 == y / 0x100_0000_0000_0000 % 256);
    assert(x == (x / 1 % 256) + (x / 0x100 % 256) * 0x100 + (x / 0x1_0000 % 256) * 0x1_0000 + (
    x / 0x100_0000 % 256) * 0x100_0000 + (x / 0x1_0000_0000 % 256) * 0x1_0000_0000 + (x
        / 0x100_0000_0000 % 256) * 0x100_0000_0000 + (x / 0x1_0000_0000_0000 % 256)
        * 0x1_0000_0000_0000 + (x / 0x100_0000_0000_0000 % 256) * 0x100_0000_0000_0000)
        by (bit_vector);
    assert(y == (y / 1 % 256) + (y / 0x100 % 256) * 0x100 + (y / 0x1_0000 % 256) * 0x1_0000 + (
    y / 0x100_0000 % 256) * 0x100_0000 + (y / 0x1_0000_0000 % 256) * 0x1_0000_0000 + (y
        / 0x100_0000_0000 % 256) * 0x100_0000_0000 + (y / 0x1_0000_0000_0000 % 256)
        * 0x1_0000_0000_0000 + (y / 0x100_0000_0000_0000 % 256) * 0x100_0000_0000_0000)
        by (bit_vector);
}

/// A 32-bit value is recovered from its four little-endian bytes.
proof fn lemma_u32_le_bytes_injective(x: u32, y: u32)
    requires
        u32_le_bytes(x) == u32_le_bytes(y),
    ensures
        x == y,
{
    let xw = x as u64;
    let yw = y as u64;
    assert forall|k: int|
        0 <= k < 4 implies xw / byte_weight(k) % 256 == yw / byte_weight(k) % 256 by {
        assert(u32_le_bytes(x)[k] == (xw / byte_weight(k) % 256) as u8);
        assert(u32_le_bytes(y)[k] == (yw / byte_weight(k) % 256) as u8);
        assert(u32_le_bytes(x)[k] == u32_le_bytes(y)[k]);
    }
    assert(xw / byte_weight(0) % 256 == yw / byte_weight(0) % 256);
    assert(xw / byte_weight(1) % 256 == yw / byte_weight(1) % 256);
    assert(xw / byte_weight(2) % 256 == yw / byte_weight(2) % 256);
    assert(xw / byte_weight(3) % 256 == yw / byte_weight(3) % 256);
    assert(xw / 1 % 256 == yw / 1 % 256);
    assert(xw / 0x100 % 256 == yw / 0x100 % 256);
    assert(xw / 0x1_0000 % 256 == yw / 0x1_0000 % 256);
    assert(xw / 0x100_0000 % 256 == yw / 0x100_0000 % 256);
    assert(xw < 0x1_0000_0000 && yw < 0x1_0000_0000 ==> ((xw / 1 % 256 == yw / 1 % 256 && xw
        / 0x100 % 256 == yw / 0x100 % 256 && xw / 0x1_0000 % 256 == yw / 0x1_0000 % 256 && xw
        / 0x100_0000 % 256 == yw / 0x100_0000 % 256) ==> xw == yw)) by (bit_vector);
    assert(xw < 0x1_0000_0000);
    assert(yw < 0x1_0000_0000);
}

/// A word is recovered from its 32 serialized bytes.
proof fn lemma_w256_bytes_injective(x: W256, y: W256)
    requires
        w256_bytes(x) == w256_bytes(y),
    ensures
        x == y,
{
    lemma_concat_parts(
        u64_le_bytes(x.limb0) + u64_le_bytes(x.limb1) + u64_le_bytes(x.limb2),
        u64_le_bytes(x.limb3),
        u64_le_bytes(y.limb0) + u64_le_bytes(y.limb1) + u64_le_bytes(y.limb2),
        u64_le_bytes(y.limb3),
    );
    lemma_concat_parts(
        u64_le_bytes(x.limb0) + u64_le_bytes(x.limb1),
        u64_le_bytes(x.limb2),
        u64_le_bytes(y.limb0) + u64_le_bytes(y.limb1),
        u64_le_bytes(y.limb2),
    );
    lemma_concat_parts(
        u64_le_bytes(x.limb0),
        u64_le_bytes(x.limb1),
        u64_le_bytes(y.limb0),
        u64_le_bytes(y.limb1),
    );
    lemma_u64_le_bytes_injective(x.limb0, y.limb0);
    lemma_u64_le_bytes_injective(x.limb1, y.limb1);
    lemma_u64_le_bytes_injective(x.limb2, y.limb2);
    lemma_u64_le_bytes_injective(x.limb3, y.limb3);
}

/// An address is recovered from its 20 serialized bytes.
proof fn lemma_address_bytes_injective(x: Address, y: Address)
    requires
        address_bytes(x) == address_bytes(y),
    ensures
        x == y,
{
    lemma_concat_parts(
        u64_le_bytes(x.limb0) + u64_le_bytes(x.limb1),
        u32_le_bytes(x.limb2),
        u64_le_bytes(y.limb0) + u64_le_bytes(y.limb1),
        u32_le_bytes(y.limb2),
    );
    lemma_concat_parts(
        u64_le_bytes(x.limb0),
        u64_le_bytes(x.limb1),
        u64_le_bytes(y.limb0),
        u64_le_bytes(y.limb1),
    );
    lemma_u64_le_bytes_injective(x.limb0, y.limb0);
    lemma_u64_le_bytes_injective(x.limb1, y.limb1);
    lemma_u32_le_bytes_injective(x.limb2, y.limb2);
}

/// The serialized topics from index `i` on take 32 bytes per topic.
proof fn lemma_topics_bytes_len(ts: Seq<W256>, i: int)
    requires
        0 <= i <= ts.len(),
    ensures
        topics_bytes_from(ts, i).len() == 32 * (ts.len() - i),
    decreases ts.len() - i,
{
    if i < ts.len() {
        lemma_topics_bytes_len(ts, i + 1);
    }
}

/// Equal-length topic lists serializing to the same bytes are equal
/// topic for topic.
proof fn lemma_topics_bytes_injective(t1: Seq<W256>, t2: Seq<W256>, i: int)
    requires
        t1.len() == t2.len(),
        0 <= i <= t1.len(),
        topics_bytes_from(t1, i) == topics_bytes_from(t2, i),
    ensures
        forall|j: int| i <= j < t1.len() ==> t1[j] == t2[j],
    decreases t1.len() - i,
{
    if i < t1.len() {
        lemma_concat_parts(
            w256_bytes(t1[i]),
            topics_bytes_from(t1, i + 1),
            w256_bytes(t2[i]),
            topics_bytes_from(t2, i + 1),
        );
        lemma_w256_bytes_injective(t1[i], t2[i]);
        lemma_topics_bytes_injective(t1, t2, i + 1);
    }
}

/// The canonical bytes of one record take 36 bytes of framing plus
/// 32 per topic plus the data.
proof fn lemma_log_bytes_len(l: LogV)
    ensures
        log_bytes(l).len() == 36 + 32 * l.topics.len() + l.data.len(),
{
    lemma_topics_bytes_len(l.topics, 0);
    let a = address_bytes(l.address);
    let b = u64_le_bytes(l.topics.len() as u64);
    let c = topics_bytes_from(l.topics, 0);
    let d = u64_le_bytes(l.data.len() as u64);
    let e = l.data;
    assert(u64_le_bytes(l.address.limb0).len() == 8);
    assert(u64_le_bytes(l.address.limb1).len() == 8);
    assert(u32_le_bytes(l.address.limb2).len() == 4);
    assert(a.len() == 20);
    assert(b.len() == 8);
    assert(d.len() == 8);
    assert(log_bytes(l) == a + b + c + d + e);
    assert((a + b + c + d + e).len() == a.len() + b.len() + c.len() + d.len() + e.len());
    assert(c.len() == 32 * l.topics.len());
    assert(log_bytes(l).len() == 20 + 8 + c.len() + 8 + e.len());
}

/// Records of the same shape — as many topics, as much data — that
/// serialize to the same bytes are the same record.
proof fn lemma_log_bytes_injective(l1: LogV, l2: LogV)
    requires
        l1.topics.len() == l2.topics.len(),
        l1.data.len() == l2.data.len(),
        log_bytes(l1) == log_bytes(l2),
    ensures
        l1 =~~= l2,
{
    lemma_topics_bytes_len(l1.topics, 0);
    lemma_topics_bytes_len(l2.topics, 0);
    lemma_concat_parts(
        address_bytes(l1.address) + u64_le_bytes(l1.topics.len() as u64) + topics_bytes_from(
            l1.topics,
            0,
        ) + u64_le_bytes(l1.data.len() as u64),
        l1.data,
        address_bytes(l2.address) + u64_le_bytes(l2.topics.len() as u64) + topics_bytes_from(
            l2.topics,
            0,
        ) + u64_le_bytes(l2.data.len() as u64),
        l2.data,
    );
    lemma_concat_parts(
        address_bytes(l1.address) + u64_le_bytes(l1.topics.len() as u64) + topics_bytes_from(
            l1.topics,
            0,
        ),
        u64_le_bytes(l1.data.len() as u64),
        address_bytes(l2.address) + u64_le_bytes(l2.topics.len() as u64) + topics_bytes_from(
            l2.topics,
            0,
        ),
        u64_le_bytes(l2.data.len() as u64),
    );
    lemma_concat_parts(
        address_bytes(l1.address) + u64_le_bytes(l1.topics.len() as u64),
        topics_bytes_from(l1.topics, 0),
        address_bytes(l2.address) + u64_le_bytes(l2.topics.len() as u64),
        topics_bytes_from(l2.topics, 0),
    );
    lemma_concat_parts(
        address_bytes(l1.address),
        u64_le_bytes(l1.topics.len() as u64),
        address_bytes(l2.address),
        u64_le_bytes(l2.topics.len() as u64),
    );
    lemma_address_bytes_injective(l1.address, l2.address);
    lemma_topics_bytes_injective(l1.topics, l2.topics, 0);
}

/// The serialized record list from index `i` on, lengthwise.
proof fn lemma_logs_bytes_same_shape(ls1: Seq<LogV>, ls2: Seq<LogV>, i: int)
    requires
        ls1.len() == ls2.len(),
        0 <= i <= ls1.len(),
        forall|j: int|
            0 <= j < ls1.len() ==> (#[trigger] ls1[j]).topics.len() == ls2[j].topics.len()
                && ls1[j].data.len() == ls2[j].data.len(),
        logs_bytes_from(ls1, i) == logs_bytes_from(ls2, i),
    ensures
        forall|j: int| i <= j < ls1.len() ==> ls1[j] =~~= ls2[j],
    decreases ls1.len() - i,
{
    if i < ls1.len() {
        lemma_log_bytes_len(ls1[i]);
        lemma_log_bytes_len(ls2[i]);
        lemma_concat_parts(
            log_bytes(ls1[i]),
            logs_bytes_from(ls1, i + 1),
            log_bytes(ls2[i]),
            logs_bytes_from(ls2, i + 1),
        );
        lemma_log_bytes_injective(ls1[i], ls2[i]);
        lemma_logs_bytes_same_shape(ls1, ls2, i + 1);
    }
}

/// The canonical serialization discriminates: two log lists of the
/// same shape — as many records, each with as many topics and as
/// much data — that serialize to the same bytes are equal record for
/// record. Mutating any single byte of any record's address, topics
/// or data therefore changes the canonical serialization; and by
/// [`lemma_digest_sensitive`], a single in-place byte change also
/// changes the digest itself.
pub proof fn lemma_serialization_injective(ls1: Seq<LogV>, ls2: Seq<LogV>)
    requires
        ls1.len() == ls2.len(),
        forall|j: int|
            0 <= j < ls1.len() ==> (#[trigger] ls1[j]).topics.len() == ls2[j].topics.len()
                && ls1[j].data.len() == ls2[j].data.len(),
        spec_serialize_logs(ls1) == spec_serialize_logs(ls2),
    ensures
        ls1 =~~= ls2,
{
    lemma_concat_parts(
        u64_le_bytes(ls1.len() as u64),
        logs_bytes_from(ls1, 0),
        u64_le_bytes(ls2.len() as u64),
        logs_bytes_from(ls2, 0),
    );
    lemma_logs_bytes_same_shape(ls1, ls2, 0);
    assert(ls1 =~~= ls2);
}

/// Appends the eight little-endian bytes of `x`.
fn push_u64_le(out: &mut Vec<u8>, x: u64)
    ensures
        final(out)@ == old(out)@ + u64_le_bytes(x),
{
    out.push((x % 256) as u8);
    out.push(((x / 256) % 256) as u8);
    out.push(((x / 0x1_0000) % 256) as u8);
    out.push(((x / 0x100_0000) % 256) as u8);
    out.push(((x / 0x1_0000_0000) % 256) as u8);
    out.push(((x / 0x100_0000_0000) % 256) as u8);
    out.push(((x / 0x1_0000_0000_0000) % 256) as u8);
    out.push(((x / 0x100_0000_0000_0000) % 256) as u8);
    proof {
        assert(x / byte_weight(0) == x);
        assert(final(out)@ =~= old(out)@ + u64_le_bytes(x));
    }
}

/// Appends the four little-endian bytes of `x`.
fn push_u32_le(out: &mut Vec<u8>, x: u32)
    ensures
        final(out)@ == old(out)@ + u32_le_bytes(x),
{
    out.push((x % 256) as u8);
    out.push(((x / 256) % 256) as u8);
    out.push(((x / 0x1_0000) % 256) as u8);
    out.push(((x / 0x100_0000) % 256) as u8);
    proof {
        assert(x as u64 / byte_weight(0) == x as u64);
        assert(x % 256 == x as u64 % 256);
        assert(x / 256 % 256 == x as u64 / 0x100 % 256);
        assert(x / 0x1_0000 % 256 == x as u64 / 0x1_0000 % 256);
        assert(x / 0x100_0000 % 256 == x as u64 / 0x100_0000 % 256);
        assert(final(out)@ =~= old(out)@ + u32_le_bytes(x));
    }
}

/// Appends the 32 bytes of a word.
fn push_w256(out: &mut Vec<u8>, w: W256)
    ensures
        final(out)@ == old(out)@ + w256_bytes(w),
{
    push_u64_le(out, w.limb0);
    push_u64_le(out, w.limb1);
    push_u64_le(out, w.limb2);
    push_u64_le(out, w.limb3);
    proof {
        assert(final(out)@ =~= old(out)@ + w256_bytes(w));
    }
}

/// Appends the 20 bytes of an address.
fn push_address(out: &mut Vec<u8>, a: Address)
    ensures
        final(out)@ == old(out)@ + address_bytes(a),
{
    push_u64_le(out, a.limb0);
    push_u64_le(out, a.limb1);
    push_u32_le(out, a.limb2);
    proof {
        assert(final(out)@ =~= old(out)@ + address_bytes(a));
    }
}

/// Appends the canonical bytes of one log record.
fn push_log(out: &mut Vec<u8>, l: &LogRecord)
    ensures
        final(out)@ == old(out)@ + log_bytes(l@),
{
    push_address(out, l.address);
    push_u64_le(out, l.topics.len() as u64);
    let n_topics = l.topics.len();
    let mut i: usize = 0;
    let ghost mid = out@;
    while i < n_topics
        invariant
            n_topics == l.topics@.len(),
            i <= n_topics,
            out@ + topics_bytes_from(l.topics@, i as int) == mid + topics_bytes_from(
                l.topics@,
                0,
            ),
        decreases n_topics - i,
    {
        push_w256(out, l.topics[i]);
        proof {
            assert(out@ + topics_bytes_from(l.topics@, i + 1 as int) =~= mid
                + topics_bytes_from(l.topics@, 0));
        }
        i = i + 1;
    }
    push_u64_le(out, l.data.len() as u64);
    let n_data = l.data.len();
    let mut j: usize = 0;
    let ghost mid2 = out@;
    while j < n_data
        invariant
            n_data == l.data@.len(),
            j <= n_data,
            out@ == mid2 + l.data@.subrange(0, j as int),
        decreases n_data - j,
    {
        out.push(l.data[j]);
        proof {
            assert(out@ =~= mid2 + l.data@.subrange(0, j + 1 as int));
        }
        j = j + 1;
    }
    proof {
        assert(l.data@.subrange(0, l.data@.len() as int) =~= l.data@);
        assert(final(out)@ =~= old(out)@ + log_bytes(l@));
    }
}

/// The canonical serialization of the given log list.
pub fn serialize_logs(logs: &Vec<LogRecord>) -> (r: Vec<u8>)
    ensures
        r@ == spec_serialize_logs(logs@.map_values(|l: LogRecord| l@)),
{
    let ghost view = logs@.map_values(|l: LogRecord| l@);
    let mut out: Vec<u8> = Vec::new();
    push_u64_le(&mut out, logs.len() as u64);
    let n = logs.len();
    let mut i: usize = 0;
    let ghost head = out@;
    while i < n
        invariant
            n == logs@.len(),
            view == logs@.map_values(|l: LogRecord| l@),
            view.len() == n,
            i <= n,
            out@ + logs_bytes_from(view, i as int) == head + logs_bytes_from(view, 0),
        decreases n - i,
    {
        push_log(&mut out, &logs[i]);
        proof {
            assert(logs@[i as int]@ == view[i as int]);
            assert(out@ + logs_bytes_from(view, i + 1 as int) =~= head + logs_bytes_from(view, 0));
        }
        i = i + 1;
    }
    proof {
        assert(out@ =~= spec_serialize_logs(view));
    }
    out
}

/// The canonical digest of a byte sequence.
pub fn digest_bytes(s: &Vec<u8>) -> (r: u64)
    ensures
        r == spec_digest_bytes(s@),
{
    let mut acc: u64 = 0xcbf2_9ce4_8422_2325;
    let n = s.len();
    let mut i: usize = 0;
    while i < n
        invariant
            n == s@.len(),
            i <= n,
            digest_bytes_from(s@, i as int, acc) == spec_digest_bytes(s@),
        decreases n - i,
    {
        let x: u128 = (acc ^ (s[i] as u64)) as u128;
        acc = ((x * 0x100_0000_01b3u128) % 0x1_0000_0000_0000_0000u128) as u64;
        i = i + 1;
    }
    acc
}

/// The canonical digest of the given log list.
pub fn logs_digest(logs: &Vec<LogRecord>) -> (r: u64)
    ensures
        r == spec_logs_digest(logs@.map_values(|l: LogRecord| l@)),
{
    let bytes = serialize_logs(logs);
    digest_bytes(&bytes)
}

/// Canonical-serializing and hashing an unchanged log list reproduces
/// the same digest on repeated calls.
pub fn digest_is_reproducible(logs: &Vec<LogRecord>) -> (r: bool)
    ensures
        r,
{
    let d1 = logs_digest(logs);
    let d2 = logs_digest(logs);
    d1 == d2
}

} // verus!
