//! Byte streams: little-endian numbers, and pieces laid end to end.

use vstd::prelude::*;

verus! {

/// The byte of weight `256^place` of a number.
pub open spec fn digit(value: int, place: nat) -> u8
    decreases place,
{
    if place == 0 {
        (value % 256) as u8
    } else {
        digit(value / 256, (place - 1) as nat)
    }
}

/// A number as two bytes, the lowest first.
pub open spec fn le16(value: int) -> Seq<u8> {
    seq![digit(value, 0), digit(value, 1)]
}

/// A number as four bytes, the lowest first. A negative number counts down
/// from `2^32`.
pub open spec fn le32(value: int) -> Seq<u8> {
    seq![digit(value, 0), digit(value, 1), digit(value, 2), digit(value, 3)]
}

/// The pieces `piece(0)`, `piece(1)` to `piece(count - 1)`, end to end.
pub open spec fn chain<T>(count: nat, piece: spec_fn(int) -> Seq<T>) -> Seq<T>
    decreases count,
{
    if count == 0 {
        Seq::empty()
    } else {
        chain((count - 1) as nat, piece) + piece(count - 1)
    }
}

/// A number is made up of its digits.
proof fn lemma_digits(value: int)
    ensures
        value % 0x1_0000 == digit(value, 0) + 0x100 * digit(value, 1),
        value % 0x1_0000_0000 == digit(value, 0) + 0x100 * digit(value, 1) + 0x1_0000 * digit(
            value,
            2,
        ) + 0x100_0000 * digit(value, 3),
{
    reveal_with_fuel(digit, 4);
    let a = value / 256;
    let b = a / 256;
    let c = b / 256;
    assert(0 <= value % 256 < 256 && 0 <= a % 256 < 256 && 0 <= b % 256 < 256 && 0 <= c % 256
        < 256);
}

/// Two bytes tell apart any two numbers of 16 bits.
pub proof fn lemma_le16_injective(a: int, b: int)
    requires
        le16(a) == le16(b),
        0 <= a < 0x1_0000,
        0 <= b < 0x1_0000,
    ensures
        a == b,
{
    lemma_digits(a);
    lemma_digits(b);
    assert(le16(a)[0] == le16(b)[0] && le16(a)[1] == le16(b)[1]);
}

/// Four bytes tell apart any two signed or unsigned numbers of 32 bits.
pub proof fn lemma_le32_injective(a: int, b: int)
    requires
        le32(a) == le32(b),
        -0x8000_0000 <= a < 0x8000_0000 && -0x8000_0000 <= b < 0x8000_0000 || 0 <= a
            < 0x1_0000_0000 && 0 <= b < 0x1_0000_0000,
    ensures
        a == b,
{
    lemma_digits(a);
    lemma_digits(b);
    assert(le32(a)[0] == le32(b)[0] && le32(a)[1] == le32(b)[1] && le32(a)[2] == le32(b)[2]
        && le32(a)[3] == le32(b)[3]);
}

/// Two sums of pieces are equal only if the pieces are, where the first
/// pieces are equally long.
pub proof fn lemma_split<T>(a: Seq<T>, b: Seq<T>, c: Seq<T>, d: Seq<T>)
    requires
        a + b == c + d,
        a.len() == c.len(),
    ensures
        a == c,
        b == d,
{
    assert(a =~= (a + b).subrange(0, a.len() as int));
    assert(c =~= (c + d).subrange(0, c.len() as int));
    assert(b =~= (a + b).subrange(a.len() as int, (a + b).len() as int));
    assert(d =~= (c + d).subrange(c.len() as int, (c + d).len() as int));
}

/// Chains of pieces of equal lengths are equal only if all their pieces are.
pub proof fn lemma_chain_injective<T>(
    count: nat,
    left: spec_fn(int) -> Seq<T>,
    right: spec_fn(int) -> Seq<T>,
)
    requires
        chain(count, left) == chain(count, right),
        forall|i: int| 0 <= i < count ==> (#[trigger] left(i)).len() == right(i).len(),
    ensures
        forall|i: int| 0 <= i < count ==> #[trigger] left(i) == right(i),
    decreases count,
{
    if count > 0 {
        let before = (count - 1) as nat;
        lemma_chain_len(before, left, right);
        lemma_split(
            chain(before, left),
            left(before as int),
            chain(before, right),
            right(before as int),
        );
        lemma_chain_injective(before, left, right);
    }
}

/// Chains of pieces of equal lengths are equally long.
pub proof fn lemma_chain_len<T>(
    count: nat,
    left: spec_fn(int) -> Seq<T>,
    right: spec_fn(int) -> Seq<T>,
)
    requires
        forall|i: int| 0 <= i < count ==> (#[trigger] left(i)).len() == right(i).len(),
    ensures
        chain(count, left).len() == chain(count, right).len(),
    decreases count,
{
    if count > 0 {
        lemma_chain_len((count - 1) as nat, left, right);
        assert(left(count - 1).len() == right(count - 1).len());
    }
}

/// Chains of equal pieces are equal.
pub proof fn lemma_chain_equal<T>(
    count: nat,
    left: spec_fn(int) -> Seq<T>,
    right: spec_fn(int) -> Seq<T>,
)
    requires
        forall|i: int| 0 <= i < count ==> #[trigger] left(i) == right(i),
    ensures
        chain(count, left) == chain(count, right),
    decreases count,
{
    if count > 0 {
        lemma_chain_equal((count - 1) as nat, left, right);
        assert(left(count - 1) == right(count - 1));
    }
}

/// What holds of every element of every piece holds of every element of the
/// chain.
pub proof fn lemma_chain_all<T>(
    count: nat,
    piece: spec_fn(int) -> Seq<T>,
    good: spec_fn(T) -> bool,
)
    requires
        forall|i: int, j: int|
            0 <= i < count && 0 <= j < piece(i).len() ==> good(#[trigger] piece(i)[j]),
    ensures
        forall|k: int|
            0 <= k < chain(count, piece).len() ==> good(#[trigger] chain(count, piece)[k]),
    decreases count,
{
    if count > 0 {
        let before = (count - 1) as nat;
        lemma_chain_all(before, piece, good);
        assert forall|k: int| 0 <= k < chain(count, piece).len() implies good(
            #[trigger] chain(count, piece)[k],
        ) by {
            let head = chain(before, piece);
            if k < head.len() {
                assert(chain(count, piece)[k] == head[k]);
            } else {
                assert(chain(count, piece)[k] == piece(count - 1)[k - head.len()]);
            }
        }
    }
}

/// A chain contains what its pieces contain.
pub proof fn lemma_chain_contains<T>(count: nat, piece: spec_fn(int) -> Seq<T>, element: T)
    ensures
        chain(count, piece).contains(element) <==> exists|i: int|
            0 <= i < count && (#[trigger] piece(i)).contains(element),
    decreases count,
{
    if count > 0 {
        let before = (count - 1) as nat;
        lemma_chain_contains(before, piece, element);
        lemma_sum_contains(chain(before, piece), piece(count - 1), element);
        if chain(before, piece).contains(element) {
            let i = choose|i: int|
                0 <= i < before && (#[trigger] piece(i)).contains(element);
            assert(0 <= i < count && piece(i).contains(element));
        }
    } else {
        assert(!chain(count, piece).contains(element));
    }
}

/// Whether two sequences are equally long and `same` relates their elements,
/// one by one.
pub open spec fn alike<T>(left: Seq<T>, right: Seq<T>, same: spec_fn(T, T) -> bool) -> bool {
    &&& left.len() == right.len()
    &&& forall|k: int| 0 <= k < left.len() ==> same(#[trigger] left[k], right[k])
}

/// Sums of parts that are alike are alike.
pub proof fn lemma_sum_alike<T>(
    a: Seq<T>,
    b: Seq<T>,
    c: Seq<T>,
    d: Seq<T>,
    same: spec_fn(T, T) -> bool,
)
    requires
        alike(a, c, same),
        alike(b, d, same),
    ensures
        alike(a + b, c + d, same),
{
    assert forall|k: int| 0 <= k < (a + b).len() implies same(
        #[trigger] (a + b)[k],
        (c + d)[k],
    ) by {
        if k < a.len() {
            assert(same(a[k], c[k]));
        } else {
            assert(same(b[k - a.len()], d[k - a.len()]));
        }
    }
}

/// Chains of pieces that are alike are alike.
pub proof fn lemma_chain_alike<T>(
    count: nat,
    left: spec_fn(int) -> Seq<T>,
    right: spec_fn(int) -> Seq<T>,
    same: spec_fn(T, T) -> bool,
)
    requires
        forall|i: int| 0 <= i < count ==> alike(#[trigger] left(i), right(i), same),
    ensures
        alike(chain(count, left), chain(count, right), same),
    decreases count,
{
    if count > 0 {
        let before = (count - 1) as nat;
        lemma_chain_alike(before, left, right, same);
        assert(alike(left(count - 1), right(count - 1), same));
        lemma_sum_alike(
            chain(before, left),
            left(count - 1),
            chain(before, right),
            right(count - 1),
            same,
        );
    }
}

/// A sum contains what its parts contain.
pub proof fn lemma_sum_contains<T>(a: Seq<T>, b: Seq<T>, element: T)
    ensures
        (a + b).contains(element) <==> a.contains(element) || b.contains(element),
{
    vstd::seq_lib::lemma_seq_concat_contains_all_elements(a, b, element);
}

/// Appends a number as two bytes.
pub fn push_le16(out: &mut Vec<u8>, value: u16)
    ensures
        final(out)@ == old(out)@ + le16(value as int),
{
    proof {
        reveal_with_fuel(digit, 2);
    }
    out.push((value % 256) as u8);
    out.push((value / 256) as u8);
    assert(out@ =~= old(out)@ + le16(value as int));
}

/// Appends an unsigned number as four bytes.
pub fn push_le32(out: &mut Vec<u8>, value: u32)
    ensures
        final(out)@ == old(out)@ + le32(value as int),
{
    proof {
        reveal_with_fuel(digit, 4);
    }
    out.push((value % 256) as u8);
    out.push((value / 256 % 256) as u8);
    out.push((value / 256 / 256 % 256) as u8);
    out.push((value / 256 / 256 / 256) as u8);
    assert(out@ =~= old(out)@ + le32(value as int));
}

/// Appends a signed number as four bytes.
pub fn push_le32_signed(out: &mut Vec<u8>, value: i32)
    ensures
        final(out)@ == old(out)@ + le32(value as int),
{
    let bits: u32 = value as u32;
    assert(bits as int == value as int || bits as int == value as int + 0x1_0000_0000) by {
        assert(value >= 0 ==> value as u32 == value) by (bit_vector);
        assert(value < 0 ==> value as u32 == value + 0x1_0000_0000) by (bit_vector);
    }
    push_le32(out, bits);
    proof {
        lemma_le32_shift(value as int);
    }
}

/// Four bytes hold a number up to multiples of `2^32`.
proof fn lemma_le32_shift(value: int)
    ensures
        le32(value + 0x1_0000_0000) == le32(value),
{
    reveal_with_fuel(digit, 4);
    let a = value / 256;
    let b = a / 256;
    let c = b / 256;
    assert((value + 0x1_0000_0000) / 256 == a + 0x100_0000);
    assert((a + 0x100_0000) / 256 == b + 0x1_0000);
    assert((b + 0x1_0000) / 256 == c + 0x100);
}

/// Appends a piece.
pub fn push_bytes(out: &mut Vec<u8>, bytes: &Vec<u8>)
    ensures
        final(out)@ == old(out)@ + bytes@,
{
    out.extend_from_slice(bytes.as_slice());
    assert(out@ =~= old(out)@ + bytes@);
}

} // verus!
