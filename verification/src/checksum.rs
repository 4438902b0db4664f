//! The checksum of a byte stream, and the changes that it cannot miss.

use vstd::prelude::*;

verus! {

/// The CRC-32 register after one shift: the low bit leaves, and where it was
/// set the polynomial is taken off.
pub open spec fn shift(register: u32) -> u32 {
    if register & 1 == 1 {
        (register >> 1) ^ 0xedb8_8320
    } else {
        register >> 1
    }
}

/// The register after several shifts.
pub open spec fn shifts(register: u32, count: nat) -> u32
    decreases count,
{
    if count == 0 {
        register
    } else {
        shift(shifts(register, (count - 1) as nat))
    }
}

/// The register after one byte.
pub open spec fn feed_byte(register: u32, byte: u8) -> u32 {
    shifts(register ^ (byte as u32), 8)
}

/// The register after several bytes.
pub open spec fn feed(register: u32, bytes: Seq<u8>) -> u32
    decreases bytes.len(),
{
    if bytes.len() == 0 {
        register
    } else {
        feed_byte(feed(register, bytes.drop_last()), bytes.last())
    }
}

/// The CRC-32 (IEEE) of a sequence of bytes: the register starts out with
/// every bit set, takes the bytes in turn, and is inverted at the end.
pub open spec fn crc32(bytes: Seq<u8>) -> u32 {
    !feed(0xffff_ffff, bytes)
}

/// `crc32fast::hash` gives the CRC-32 (IEEE) of the bytes that it is handed.
pub assume_specification[ crc32fast::hash ](buf: &[u8]) -> (checksum: u32)
    ensures
        checksum == crc32(buf@),
;

/// Whether two streams differ in no more than four bytes in a row.
pub open spec fn close(left: Seq<u8>, right: Seq<u8>) -> bool {
    &&& left.len() == right.len()
    &&& exists|at: int| differ_within(left, right, at)
}

/// Whether two streams agree outside of the four bytes from `at` on.
pub open spec fn differ_within(left: Seq<u8>, right: Seq<u8>, at: int) -> bool {
    &&& 0 <= at
    &&& forall|k: int|
        0 <= k < left.len() && !(at <= k < at + 4) ==> #[trigger] left[k] == right[k]
}

/// Shifts that leave registers apart in low bits only had them apart in the
/// same bits, one place higher.
proof fn lemma_unshift(a: u32, b: u32, d: u32)
    requires
        shift(a) ^ shift(b) == d,
        d < 0x8000_0000,
    ensures
        a ^ b == d << 1,
{
    assert(a ^ b == d << 1) by (bit_vector)
        requires
            (if a & 1 == 1 {
                (a >> 1) ^ 0xedb8_8320
            } else {
                a >> 1
            }) ^ (if b & 1 == 1 {
                (b >> 1) ^ 0xedb8_8320
            } else {
                b >> 1
            }) == d,
            d < 0x8000_0000,
    ;
}

/// A byte that leaves registers apart in low bits only found them apart in
/// the same bits, eight places higher, and in what the bytes differ in.
proof fn lemma_unfeed(a: u32, b: u32, x: u8, y: u8, d: u32)
    requires
        feed_byte(a, x) ^ feed_byte(b, y) == d,
        d < 0x100_0000,
    ensures
        a ^ b == (d << 8) ^ (x as u32) ^ (y as u32),
{
    reveal_with_fuel(shifts, 9);
    let p = a ^ (x as u32);
    let q = b ^ (y as u32);
    assert(d << 1 < 0x8000_0000 && d << 2 < 0x8000_0000 && d << 3 < 0x8000_0000 && d << 4
        < 0x8000_0000 && d << 5 < 0x8000_0000 && d << 6 < 0x8000_0000 && d << 7 < 0x8000_0000)
        by (bit_vector)
        requires
            d < 0x100_0000,
    ;
    assert((d << 1) << 1 == d << 2 && (d << 2) << 1 == d << 3 && (d << 3) << 1 == d << 4 && (d
        << 4) << 1 == d << 5 && (d << 5) << 1 == d << 6 && (d << 6) << 1 == d << 7 && (d << 7)
        << 1 == d << 8) by (bit_vector);
    lemma_unshift(shifts(p, 7), shifts(q, 7), d);
    lemma_unshift(shifts(p, 6), shifts(q, 6), d << 1);
    lemma_unshift(shifts(p, 5), shifts(q, 5), d << 2);
    lemma_unshift(shifts(p, 4), shifts(q, 4), d << 3);
    lemma_unshift(shifts(p, 3), shifts(q, 3), d << 4);
    lemma_unshift(shifts(p, 2), shifts(q, 2), d << 5);
    lemma_unshift(shifts(p, 1), shifts(q, 1), d << 6);
    lemma_unshift(p, q, d << 7);
    let v = x as u32;
    let w = y as u32;
    let e = d << 8;
    assert(a ^ b == e ^ v ^ w) by (bit_vector)
        requires
            (a ^ v) ^ (b ^ w) == e,
    ;
}

/// Four bytes tell from a register what they were.
proof fn lemma_four_bytes(register: u32, x: Seq<u8>, y: Seq<u8>)
    requires
        x.len() == 4,
        y.len() == 4,
        feed(register, x) == feed(register, y),
    ensures
        x == y,
{
    reveal_with_fuel(feed, 5);
    let x3 = x.drop_last();
    let x2 = x3.drop_last();
    let x1 = x2.drop_last();
    let y3 = y.drop_last();
    let y2 = y3.drop_last();
    let y1 = y2.drop_last();
    let a3 = feed(register, x3);
    let b3 = feed(register, y3);
    let a2 = feed(register, x2);
    let b2 = feed(register, y2);
    let a1 = feed(register, x1);
    let b1 = feed(register, y1);
    assert(a1 == feed_byte(register, x[0]));
    assert(b1 == feed_byte(register, y[0]));
    let end = feed(register, x);
    assert(end ^ end == 0) by (bit_vector);
    lemma_unfeed(a3, b3, x[3], y[3], 0);
    let p3 = x[3];
    let q3 = y[3];
    let p2 = x[2];
    let q2 = y[2];
    let p1 = x[1];
    let q1 = y[1];
    let p0 = x[0];
    let q0 = y[0];
    let d3 = (0u32 << 8) ^ (p3 as u32) ^ (q3 as u32);
    assert(d3 < 0x100) by (bit_vector)
        requires
            d3 == (0u32 << 8) ^ (p3 as u32) ^ (q3 as u32),
    ;
    lemma_unfeed(a2, b2, p2, q2, d3);
    let d2 = (d3 << 8) ^ (p2 as u32) ^ (q2 as u32);
    assert(d2 < 0x1_0000) by (bit_vector)
        requires
            d3 < 0x100,
            d2 == (d3 << 8) ^ (p2 as u32) ^ (q2 as u32),
    ;
    lemma_unfeed(a1, b1, p1, q1, d2);
    let d1 = (d2 << 8) ^ (p1 as u32) ^ (q1 as u32);
    assert(d1 < 0x100_0000) by (bit_vector)
        requires
            d2 < 0x1_0000,
            d1 == (d2 << 8) ^ (p1 as u32) ^ (q1 as u32),
    ;
    lemma_unfeed(register, register, p0, q0, d1);
    assert(p0 == q0 && p1 == q1 && p2 == q2 && p3 == q3) by (bit_vector)
        requires
            d3 == (0u32 << 8) ^ (p3 as u32) ^ (q3 as u32),
            d2 == (d3 << 8) ^ (p2 as u32) ^ (q2 as u32),
            d1 == (d2 << 8) ^ (p1 as u32) ^ (q1 as u32),
            register ^ register == (d1 << 8) ^ (p0 as u32) ^ (q0 as u32),
    ;
    assert(x =~= y);
}

/// Bytes after bytes.
proof fn lemma_feed_append(register: u32, first: Seq<u8>, second: Seq<u8>)
    ensures
        feed(register, first + second) == feed(feed(register, first), second),
    decreases second.len(),
{
    if second.len() == 0 {
        assert(first + second =~= first);
    } else {
        assert((first + second).drop_last() =~= first + second.drop_last());
        lemma_feed_append(register, first, second.drop_last());
    }
}

/// Equal bytes bring together only registers that were equal.
proof fn lemma_feed_injective(a: u32, b: u32, bytes: Seq<u8>)
    requires
        feed(a, bytes) == feed(b, bytes),
    ensures
        a == b,
    decreases bytes.len(),
{
    if bytes.len() > 0 {
        let p = feed(a, bytes.drop_last());
        let q = feed(b, bytes.drop_last());
        let byte = bytes.last();
        let end = feed(a, bytes);
        assert(end ^ end == 0) by (bit_vector);
        lemma_unfeed(p, q, byte, byte, 0);
        assert(p == q) by (bit_vector)
            requires
                p ^ q == (0u32 << 8) ^ (byte as u32) ^ (byte as u32),
        ;
        lemma_feed_injective(a, b, bytes.drop_last());
    }
}

/// The checksum misses no change that is confined to four bytes in a row:
/// two streams of the same length that differ, and agree outside of such a
/// stretch, have different checksums.
pub proof fn law_burst_shows(left: Seq<u8>, right: Seq<u8>)
    requires
        close(left, right),
        left != right,
    ensures
        crc32(left) != crc32(right),
{
    if crc32(left) == crc32(right) {
        let start = 0xffff_ffffu32;
        let p = feed(start, left);
        let q = feed(start, right);
        assert(p == q) by (bit_vector)
            requires
                !p == !q,
        ;
        let len = left.len() as int;
        let at = choose|at: int| differ_within(left, right, at);
        if at >= len {
            assert(left =~= right);
        } else {
            let end = if at + 4 <= len {
                at + 4
            } else {
                len
            };
            let head = left.take(at);
            let x = left.subrange(at, end);
            let y = right.subrange(at, end);
            let tail = left.skip(end);
            assert(right.take(at) =~= head);
            assert(right.skip(end) =~= tail);
            assert(left =~= head + x + tail);
            assert(right =~= head + y + tail);
            let register = feed(start, head);
            lemma_feed_append(start, head + x, tail);
            lemma_feed_append(start, head + y, tail);
            lemma_feed_append(start, head, x);
            lemma_feed_append(start, head, y);
            lemma_feed_injective(feed(register, x), feed(register, y), tail);
            let rest = Seq::new((4 - (end - at)) as nat, |i: int| 0u8);
            lemma_feed_append(register, x, rest);
            lemma_feed_append(register, y, rest);
            lemma_four_bytes(register, x + rest, y + rest);
            assert(x =~= (x + rest).take(end - at));
            assert(y =~= (y + rest).take(end - at));
        }
    }
}

} // verus!
