//! What a divergence in a single field does to the digest of a snapshot.

use vstd::prelude::*;

use crate::bytes::lemma_chain_equal;
use crate::checksum::law_burst_shows;
use crate::snapshot::SnapshotView;
use crate::snapshot_laws::law_divergence_shows;

verus! {

/// A digested field of a player: one register, one RAM or blob byte, or one
/// number of a channel. None is wider than 32 bits.
pub enum Field {
    /// A general purpose register.
    Gpr { register: int },
    /// The program status register.
    Cpsr,
    /// A byte of the external work RAM.
    Wram { at: int },
    /// A byte of the internal work RAM.
    Iwram { at: int },
    /// A byte of the driver's blob.
    Blob { at: int },
    /// A word of a FIFO channel's ring.
    FifoWord { lane: int, word: int },
    /// A FIFO channel's write pointer.
    FifoWrite { lane: int },
    /// A FIFO channel's read pointer.
    FifoRead { lane: int },
    /// A FIFO channel's sample countdown.
    FifoRemaining { lane: int },
    /// A DMA channel's control register.
    DmaReg { lane: int },
    /// A DMA channel's cycles.
    DmaCycles { lane: int },
    /// A DMA channel's source offset.
    DmaSource { lane: int },
    /// A DMA channel's destination offset.
    DmaDest { lane: int },
}

impl Field {
    /// Whether player `i` of the snapshot has the field.
    pub open spec fn exists_in(self, snapshot: SnapshotView, i: int) -> bool {
        &&& 0 <= i < snapshot.cores.len()
        &&& match self {
            Field::Gpr { register } => 0 <= register < 16,
            Field::Cpsr => true,
            Field::Wram { at } => 0 <= at < snapshot.cores[i].wram@.len(),
            Field::Iwram { at } => 0 <= at < snapshot.cores[i].iwram@.len(),
            Field::Blob { at } => 0 <= at < snapshot.blob_stream(i).len(),
            Field::FifoWord { lane, word } => 0 <= lane < 2 && 0 <= word < 8,
            Field::FifoWrite { lane } => 0 <= lane < 2,
            Field::FifoRead { lane } => 0 <= lane < 2,
            Field::FifoRemaining { lane } => 0 <= lane < 2,
            Field::DmaReg { lane } => 0 <= lane < 4,
            Field::DmaCycles { lane } => 0 <= lane < 4,
            Field::DmaSource { lane } => 0 <= lane < 4,
            Field::DmaDest { lane } => 0 <= lane < 4,
        }
    }

    /// What the field of player `i` holds.
    pub open spec fn of(self, snapshot: SnapshotView, i: int) -> int {
        match self {
            Field::Gpr { register } => snapshot.cores[i].gprs[register] as int,
            Field::Cpsr => snapshot.cores[i].cpsr as int,
            Field::Wram { at } => snapshot.cores[i].wram@[at] as int,
            Field::Iwram { at } => snapshot.cores[i].iwram@[at] as int,
            Field::Blob { at } => snapshot.blob_stream(i)[at] as int,
            Field::FifoWord { lane, word } => {
                snapshot.audio_fifos[i][lane].fifo[word] as int
            },
            Field::FifoWrite { lane } => snapshot.audio_fifos[i][lane].write as int,
            Field::FifoRead { lane } => snapshot.audio_fifos[i][lane].read as int,
            Field::FifoRemaining { lane } => {
                snapshot.audio_fifos[i][lane].internal_remaining as int
            },
            Field::DmaReg { lane } => snapshot.dmas[i][lane].reg as int,
            Field::DmaCycles { lane } => snapshot.dmas[i][lane].cycles as int,
            Field::DmaSource { lane } => snapshot.dmas[i][lane].source_offset as int,
            Field::DmaDest { lane } => snapshot.dmas[i][lane].dest_offset as int,
        }
    }

    /// Whether the field is one of FIFO channel `l`.
    spec fn of_fifo(self, l: int) -> bool {
        match self {
            Field::FifoWord { lane, .. } => lane == l,
            Field::FifoWrite { lane } => lane == l,
            Field::FifoRead { lane } => lane == l,
            Field::FifoRemaining { lane } => lane == l,
            _ => false,
        }
    }

    /// Whether the field is one of DMA channel `l`.
    spec fn of_dma(self, l: int) -> bool {
        match self {
            Field::DmaReg { lane } => lane == l,
            Field::DmaCycles { lane } => lane == l,
            Field::DmaSource { lane } => lane == l,
            Field::DmaDest { lane } => lane == l,
            _ => false,
        }
    }
}

/// Whether two snapshots agree in a field, if they have it.
pub open spec fn agree_in(a: SnapshotView, b: SnapshotView, i: int, field: Field) -> bool {
    field.exists_in(a, i) ==> field.of(a, i) == field.of(b, i)
}

/// Whether two snapshots of links of the same shape differ in this field of
/// player `i`, and in no other field of any player.
pub open spec fn differ_only_in(a: SnapshotView, b: SnapshotView, i: int, field: Field) -> bool {
    &&& crate::snapshot_laws::same_shape(a, b)
    &&& field.exists_in(a, i)
    &&& field.of(a, i) != field.of(b, i)
    &&& forall|j: int, other: Field| j != i || other != field ==> #[trigger] agree_in(a, b, j, other)
}

/// Equally long streams of four bytes at most.
proof fn lemma_short_close(x: Seq<u8>, y: Seq<u8>)
    requires
        x.len() == y.len() <= 4,
    ensures
        crate::checksum::close(x, y),
{
    assert(crate::checksum::differ_within(x, y, 0));
}

/// Streams that differ in no more than one byte.
proof fn lemma_byte_close(x: Seq<u8>, y: Seq<u8>, at: int)
    requires
        x.len() == y.len(),
        0 <= at,
        forall|k: int| 0 <= k < x.len() && k != at ==> #[trigger] x[k] == y[k],
    ensures
        crate::checksum::close(x, y),
{
    assert(crate::checksum::differ_within(x, y, at));
}

/// Sums of which one part is close and the other is the same.
proof fn lemma_sum_close(a: Seq<u8>, b: Seq<u8>, c: Seq<u8>, d: Seq<u8>)
    requires
        crate::checksum::close(a, c),
        crate::checksum::close(b, d),
        a == c || b == d,
    ensures
        crate::checksum::close(a + b, c + d),
{
    if b == d {
        let at = choose|at: int| crate::checksum::differ_within(a, c, at);
        let window = if at < a.len() {
            at
        } else {
            (a + b).len() as int
        };
        assert forall|k: int|
            0 <= k < (a + b).len() && !(window <= k < window + 4) implies #[trigger] (a + b)[k] == (
        c + d)[k] by {
            if k < a.len() {
                assert(a[k] == c[k]);
            }
        }
        assert(crate::checksum::differ_within(a + b, c + d, window));
    } else {
        let at = choose|at: int| crate::checksum::differ_within(b, d, at);
        let window = a.len() + at;
        assert forall|k: int|
            0 <= k < (a + b).len() && !(window <= k < window + 4) implies #[trigger] (a + b)[k] == (
        c + d)[k] by {
            if k >= a.len() {
                assert(b[k - a.len()] == d[k - a.len()]);
            }
        }
        assert(crate::checksum::differ_within(a + b, c + d, window));
    }
}

/// Chains of which one piece is close and the others are the same.
proof fn lemma_chain_close(
    count: nat,
    left: spec_fn(int) -> Seq<u8>,
    right: spec_fn(int) -> Seq<u8>,
    i: int,
)
    requires
        forall|j: int| 0 <= j < count && j != i ==> #[trigger] left(j) == right(j),
        0 <= i < count ==> crate::checksum::close(left(i), right(i)),
    ensures
        crate::checksum::close(
            crate::bytes::chain(count, left),
            crate::bytes::chain(count, right),
        ),
    decreases count,
{
    if count == 0 {
        lemma_short_close(
            crate::bytes::chain(count, left),
            crate::bytes::chain(count, right),
        );
    } else {
        let before = (count - 1) as nat;
        let last = before as int;
        lemma_chain_close(before, left, right, i);
        if last == i {
            lemma_chain_equal(before, left, right);
        } else {
            assert(left(last) == right(last));
            lemma_byte_close(left(last), right(last), 0);
        }
        lemma_sum_close(
            crate::bytes::chain(before, left),
            left(last),
            crate::bytes::chain(before, right),
            right(last),
        );
    }
}

/// All that a player's streams need: the two are of the same shape and agree
/// in every field of the player but one.
spec fn agree_but_for(a: SnapshotView, b: SnapshotView, i: int, field: Field) -> bool {
    &&& a.valid()
    &&& b.valid()
    &&& crate::snapshot_laws::same_shape(a, b)
    &&& 0 <= i < a.cores.len()
    &&& forall|other: Field| other != field ==> #[trigger] agree_in(a, b, i, other)
}

proof fn lemma_core_close(a: SnapshotView, b: SnapshotView, i: int, field: Field)
    requires
        agree_but_for(a, b, i, field),
    ensures
        ({
            let x = crate::snapshot::core_stream(a.cores[i]);
            let y = crate::snapshot::core_stream(b.cores[i]);
            &&& crate::checksum::close(x, y)
            &&& !field.exists_in(a, i) || !(field is Gpr || field is Cpsr || field is Wram
                || field is Iwram) ==> x == y
        }),
{
    let p = a.cores[i];
    let q = b.cores[i];
    assert(p.wram.len() == q.wram.len() && p.iwram.len() == q.iwram.len());
    let xs = |r: int| crate::bytes::le32(p.gprs[r] as int);
    let ys = |r: int| crate::bytes::le32(q.gprs[r] as int);
    let x0 = crate::bytes::chain(16, xs);
    let y0 = crate::bytes::chain(16, ys);
    let x1 = crate::bytes::le32(p.cpsr as int);
    let y1 = crate::bytes::le32(q.cpsr as int);
    let register = if let Field::Gpr { register } = field {
        register
    } else {
        -1
    };
    assert forall|r: int| 0 <= r < 16 && r != register implies #[trigger] xs(r) == ys(r) by {
        assert(agree_in(a, b, i, Field::Gpr { register: r }));
    }
    if 0 <= register < 16 {
        lemma_short_close(xs(register), ys(register));
    } else {
        lemma_chain_equal(16, xs, ys);
    }
    lemma_chain_close(16, xs, ys, register);
    lemma_short_close(x1, y1);
    assert(!(field is Cpsr) ==> x1 == y1) by {
        assert(agree_in(a, b, i, Field::Cpsr) || field is Cpsr);
    }
    let wram = if let Field::Wram { at } = field {
        at
    } else {
        -1
    };
    assert forall|k: int| 0 <= k < p.wram@.len() && k != wram implies #[trigger] p.wram@[k]
        == q.wram@[k] by {
        assert(agree_in(a, b, i, Field::Wram { at: k }));
    }
    if 0 <= wram < p.wram@.len() {
        lemma_byte_close(p.wram@, q.wram@, wram);
    } else {
        assert(p.wram@ =~= q.wram@);
        lemma_byte_close(p.wram@, q.wram@, 0);
    }
    let iwram = if let Field::Iwram { at } = field {
        at
    } else {
        -1
    };
    assert forall|k: int| 0 <= k < p.iwram@.len() && k != iwram implies #[trigger] p.iwram@[k]
        == q.iwram@[k] by {
        assert(agree_in(a, b, i, Field::Iwram { at: k }));
    }
    if 0 <= iwram < p.iwram@.len() {
        lemma_byte_close(p.iwram@, q.iwram@, iwram);
    } else {
        assert(p.iwram@ =~= q.iwram@);
        lemma_byte_close(p.iwram@, q.iwram@, 0);
    }
    lemma_sum_close(x0, x1, y0, y1);
    lemma_sum_close(x0 + x1, p.wram@, y0 + y1, q.wram@);
    lemma_sum_close(x0 + x1 + p.wram@, p.iwram@, y0 + y1 + q.wram@, q.iwram@);
}

proof fn lemma_blob_close(a: SnapshotView, b: SnapshotView, i: int, field: Field)
    requires
        agree_but_for(a, b, i, field),
    ensures
        crate::checksum::close(a.blob_stream(i), b.blob_stream(i)),
        !field.exists_in(a, i) || !(field is Blob) ==> a.blob_stream(i) == b.blob_stream(i),
{
    let x = a.blob_stream(i);
    let y = b.blob_stream(i);
    if i < a.drivers.len() {
        assert(a.drivers[i].len() == b.drivers[i].len());
    }
    let at = if let Field::Blob { at } = field {
        at
    } else {
        -1
    };
    assert forall|k: int| 0 <= k < x.len() && k != at implies #[trigger] x[k] == y[k] by {
        assert(agree_in(a, b, i, Field::Blob { at: k }));
    }
    if 0 <= at < x.len() {
        lemma_byte_close(x, y, at);
    } else {
        assert(x =~= y);
        lemma_byte_close(x, y, 0);
    }
}

proof fn lemma_fifo_close(a: SnapshotView, b: SnapshotView, i: int, field: Field, l: int)
    requires
        agree_but_for(a, b, i, field),
        0 <= l < 2,
    ensures
        ({
            let x = crate::snapshot::fifo_stream(a.audio_fifos[i][l]);
            let y = crate::snapshot::fifo_stream(b.audio_fifos[i][l]);
            &&& crate::checksum::close(x, y)
            &&& !field.exists_in(a, i) || !field.of_fifo(l) ==> x == y
        }),
{
    let p = a.audio_fifos[i][l];
    let q = b.audio_fifos[i][l];
    let xs = |w: int| crate::bytes::le32(p.fifo[w] as int);
    let ys = |w: int| crate::bytes::le32(q.fifo[w] as int);
    let x0 = crate::bytes::chain(8, xs);
    let y0 = crate::bytes::chain(8, ys);
    let x1 = crate::bytes::le32(p.write as int);
    let y1 = crate::bytes::le32(q.write as int);
    let x2 = crate::bytes::le32(p.read as int);
    let y2 = crate::bytes::le32(q.read as int);
    let x3 = crate::bytes::le32(p.internal_remaining as int);
    let y3 = crate::bytes::le32(q.internal_remaining as int);
    let changed = match field {
        Field::FifoWord { lane, word } => if lane == l {
            word
        } else {
            -1
        },
        _ => -1,
    };
    assert forall|w: int| 0 <= w < 8 && w != changed implies #[trigger] xs(w) == ys(w) by {
        assert(agree_in(a, b, i, Field::FifoWord { lane: l, word: w }));
    }
    if 0 <= changed < 8 {
        lemma_short_close(xs(changed), ys(changed));
    } else {
        lemma_chain_equal(8, xs, ys);
    }
    lemma_chain_close(8, xs, ys, changed);
    lemma_short_close(x1, y1);
    lemma_short_close(x2, y2);
    lemma_short_close(x3, y3);
    assert(field != (Field::FifoWrite { lane: l }) ==> agree_in(
        a,
        b,
        i,
        Field::FifoWrite { lane: l },
    ));
    assert(field != (Field::FifoRead { lane: l }) ==> agree_in(
        a,
        b,
        i,
        Field::FifoRead { lane: l },
    ));
    assert(field != (Field::FifoRemaining { lane: l }) ==> agree_in(
        a,
        b,
        i,
        Field::FifoRemaining { lane: l },
    ));
    lemma_sum_close(x0, x1, y0, y1);
    lemma_sum_close(x0 + x1, x2, y0 + y1, y2);
    lemma_sum_close(x0 + x1 + x2, x3, y0 + y1 + y2, y3);
}

proof fn lemma_dma_close(a: SnapshotView, b: SnapshotView, i: int, field: Field, l: int)
    requires
        agree_but_for(a, b, i, field),
        0 <= l < 4,
    ensures
        ({
            let x = crate::snapshot::dma_stream(a.dmas[i][l]);
            let y = crate::snapshot::dma_stream(b.dmas[i][l]);
            &&& crate::checksum::close(x, y)
            &&& !field.exists_in(a, i) || !field.of_dma(l) ==> x == y
        }),
{
    let p = a.dmas[i][l];
    let q = b.dmas[i][l];
    let x0 = crate::bytes::le16(p.reg as int);
    let y0 = crate::bytes::le16(q.reg as int);
    let x1 = crate::bytes::le32(p.cycles as int);
    let y1 = crate::bytes::le32(q.cycles as int);
    let x2 = crate::bytes::le32(p.source_offset as int);
    let y2 = crate::bytes::le32(q.source_offset as int);
    let x3 = crate::bytes::le32(p.dest_offset as int);
    let y3 = crate::bytes::le32(q.dest_offset as int);
    lemma_short_close(x0, y0);
    lemma_short_close(x1, y1);
    lemma_short_close(x2, y2);
    lemma_short_close(x3, y3);
    assert(field != (Field::DmaReg { lane: l }) ==> agree_in(
        a,
        b,
        i,
        Field::DmaReg { lane: l },
    ));
    assert(field != (Field::DmaCycles { lane: l }) ==> agree_in(
        a,
        b,
        i,
        Field::DmaCycles { lane: l },
    ));
    assert(field != (Field::DmaSource { lane: l }) ==> agree_in(
        a,
        b,
        i,
        Field::DmaSource { lane: l },
    ));
    assert(field != (Field::DmaDest { lane: l }) ==> agree_in(
        a,
        b,
        i,
        Field::DmaDest { lane: l },
    ));
    lemma_sum_close(x0, x1, y0, y1);
    lemma_sum_close(x0 + x1, x2, y0 + y1, y2);
    lemma_sum_close(x0 + x1 + x2, x3, y0 + y1 + y2, y3);
}

/// The channel of a field, where it is one of a FIFO or a DMA channel.
spec fn lane_of(field: Field) -> int {
    match field {
        Field::FifoWord { lane, .. } => lane,
        Field::FifoWrite { lane } => lane,
        Field::FifoRead { lane } => lane,
        Field::FifoRemaining { lane } => lane,
        Field::DmaReg { lane } => lane,
        Field::DmaCycles { lane } => lane,
        Field::DmaSource { lane } => lane,
        Field::DmaDest { lane } => lane,
        _ => -1,
    }
}

/// The channels of a player.
proof fn lemma_channels_close(a: SnapshotView, b: SnapshotView, i: int, field: Field)
    requires
        agree_but_for(a, b, i, field),
    ensures
        ({
            let x = crate::snapshot::fifos_stream(a.audio_fifos[i]);
            let y = crate::snapshot::fifos_stream(b.audio_fifos[i]);
            let u = crate::snapshot::dmas_stream(a.dmas[i]);
            let v = crate::snapshot::dmas_stream(b.dmas[i]);
            &&& crate::checksum::close(x, y)
            &&& crate::checksum::close(u, v)
            &&& !field.exists_in(a, i) || !field.of_fifo(lane_of(field)) ==> x == y
            &&& !field.exists_in(a, i) || !field.of_dma(lane_of(field)) ==> u == v
        }),
{
    let fx = |l: int| crate::snapshot::fifo_stream(a.audio_fifos[i][l]);
    let fy = |l: int| crate::snapshot::fifo_stream(b.audio_fifos[i][l]);
    let dx = |l: int| crate::snapshot::dma_stream(a.dmas[i][l]);
    let dy = |l: int| crate::snapshot::dma_stream(b.dmas[i][l]);
    let lane = lane_of(field);
    assert forall|l: int| 0 <= l < 2 && (l != lane || !field.exists_in(a, i) || !field.of_fifo(
        lane,
    )) implies #[trigger] fx(l) == fy(l) by {
        lemma_fifo_close(a, b, i, field, l);
    }
    assert forall|l: int| 0 <= l < 4 && (l != lane || !field.exists_in(a, i) || !field.of_dma(
        lane,
    )) implies #[trigger] dx(l) == dy(l) by {
        lemma_dma_close(a, b, i, field, l);
    }
    if 0 <= lane < 2 {
        lemma_fifo_close(a, b, i, field, lane);
    }
    if 0 <= lane < 4 {
        lemma_dma_close(a, b, i, field, lane);
    }
    lemma_chain_close(2, fx, fy, lane);
    lemma_chain_close(4, dx, dy, lane);
    if !field.exists_in(a, i) || !field.of_fifo(lane) {
        lemma_chain_equal(2, fx, fy);
    }
    if !field.exists_in(a, i) || !field.of_dma(lane) {
        lemma_chain_equal(4, dx, dy);
    }
}

/// A player's bytes are close where all fields but one agree, and the same
/// where the player has no such field.
proof fn lemma_player_close(a: SnapshotView, b: SnapshotView, i: int, field: Field)
    requires
        agree_but_for(a, b, i, field),
    ensures
        crate::checksum::close(a.player_stream(i), b.player_stream(i)),
        !field.exists_in(a, i) ==> a.player_stream(i) == b.player_stream(i),
{
    lemma_core_close(a, b, i, field);
    lemma_blob_close(a, b, i, field);
    lemma_channels_close(a, b, i, field);
    let x0 = crate::snapshot::core_stream(a.cores[i]);
    let y0 = crate::snapshot::core_stream(b.cores[i]);
    let x1 = a.blob_stream(i);
    let y1 = b.blob_stream(i);
    let x2 = crate::snapshot::fifos_stream(a.audio_fifos[i]);
    let y2 = crate::snapshot::fifos_stream(b.audio_fifos[i]);
    let x3 = crate::snapshot::dmas_stream(a.dmas[i]);
    let y3 = crate::snapshot::dmas_stream(b.dmas[i]);
    lemma_sum_close(x0, x1, y0, y1);
    lemma_sum_close(x0 + x1, x2, y0 + y1, y2);
    lemma_sum_close(x0 + x1 + x2, x3, y0 + y1 + y2, y3);
}

/// A divergence shows in the digest: snapshots of links of the same shape
/// that differ in exactly one digested field of one player have different
/// digests, whichever player and whichever field it is.
pub proof fn law_digest_tells_fields_apart(
    a: SnapshotView,
    b: SnapshotView,
    i: int,
    field: Field,
)
    requires
        a.valid(),
        b.valid(),
        differ_only_in(a, b, i, field),
    ensures
        crate::checksum::crc32(a.stream()) != crate::checksum::crc32(b.stream()),
{
    let left = |j: int| a.player_stream(j);
    let right = |j: int| b.player_stream(j);
    let none = Field::Gpr { register: -1 };
    assert forall|j: int| 0 <= j < a.cores.len() && j != i implies #[trigger] left(j) == right(
        j,
    ) by {
        assert forall|other: Field| other != none implies #[trigger] agree_in(
            a,
            b,
            j,
            other,
        ) by {}
        lemma_player_close(a, b, j, none);
    }
    lemma_player_close(a, b, i, field);
    lemma_chain_close(a.cores.len(), left, right, i);
    if crate::snapshot_laws::same_link(a, b) {
        let p = a.cores[i];
        let q = b.cores[i];
        assert(crate::snapshot_laws::same_core(p, q));
        match field {
            Field::Gpr { register } => {
                assert(p.gprs@[register] == q.gprs@[register]);
            },
            _ => {},
        }
        assert(false);
    }
    law_divergence_shows(a, b);
    law_burst_shows(a.stream(), b.stream());
}

} // verus!
