//! Which byte stands where in the digested bytes of a snapshot.

use vstd::prelude::*;

use crate::snapshot::SnapshotView;

verus! {

/// Byte `place` of a number, the lowest being byte 0.
pub open spec fn byte_of(value: int, place: int) -> int {
    if place == 0 {
        value % 0x100
    } else if place == 1 {
        value / 0x100 % 0x100
    } else if place == 2 {
        value / 0x1_0000 % 0x100
    } else {
        value / 0x100_0000 % 0x100
    }
}

/// How many bytes of a player's blob are digested.
pub open spec fn blob_size(snapshot: SnapshotView, i: int) -> int {
    if i < snapshot.drivers.len() {
        snapshot.drivers[i]@.len() as int
    } else {
        0
    }
}

/// How many bytes of a player are digested.
pub open spec fn player_size(snapshot: SnapshotView, i: int) -> int {
    68 + snapshot.cores[i].wram@.len() + snapshot.cores[i].iwram@.len() + blob_size(snapshot, i)
        + 88 + 56
}

/// Where the bytes of player `i` begin: after those of all players before.
pub open spec fn player_start(snapshot: SnapshotView, i: nat) -> int
    decreases i,
{
    if i == 0 {
        0
    } else {
        player_start(snapshot, (i - 1) as nat) + player_size(snapshot, i - 1)
    }
}

/// Byte `k` of a player: the sixteen registers, the status register, both
/// RAMs, the driver's blob if there is one, the two FIFO channels and the four
/// DMA channels, every number with its lowest byte first.
pub open spec fn player_byte(snapshot: SnapshotView, i: int, k: int) -> int {
    let core = snapshot.cores[i];
    let wram: int = 68;
    let iwram = wram + core.wram@.len();
    let blob = iwram + core.iwram@.len();
    let fifos = blob + blob_size(snapshot, i);
    let dmas = fifos + 88;
    if k < 64 {
        byte_of(core.gprs[k / 4] as int, k % 4)
    } else if k < wram {
        byte_of(core.cpsr as int, k - 64)
    } else if k < iwram {
        core.wram@[k - wram] as int
    } else if k < blob {
        core.iwram@[k - iwram] as int
    } else if k < fifos {
        snapshot.drivers[i]@[k - blob] as int
    } else if k < dmas {
        let lane = snapshot.audio_fifos[i][(k - fifos) / 44];
        let at = (k - fifos) % 44;
        if at < 32 {
            byte_of(lane.fifo[at / 4] as int, at % 4)
        } else if at < 36 {
            byte_of(lane.write as int, at - 32)
        } else if at < 40 {
            byte_of(lane.read as int, at - 36)
        } else {
            byte_of(lane.internal_remaining as int, at - 40)
        }
    } else {
        let lane = snapshot.dmas[i][(k - dmas) / 14];
        let at = (k - dmas) % 14;
        if at < 2 {
            byte_of(lane.reg as int, at)
        } else if at < 6 {
            byte_of(lane.cycles as int, at - 2)
        } else if at < 10 {
            byte_of(lane.source_offset as int, at - 6)
        } else {
            byte_of(lane.dest_offset as int, at - 10)
        }
    }
}

/// The bytes of a number.
proof fn lemma_le(value: int)
    ensures
        crate::bytes::le16(value).len() == 2,
        crate::bytes::le32(value).len() == 4,
        forall|b: int| 0 <= b < 2 ==> #[trigger] crate::bytes::le16(value)[b] == byte_of(value, b),
        forall|b: int| 0 <= b < 4 ==> #[trigger] crate::bytes::le32(value)[b] == byte_of(value, b),
{
    reveal_with_fuel(crate::bytes::digit, 4);
    assert(value / 0x100 / 0x100 == value / 0x1_0000);
    assert(value / 0x100 / 0x100 / 0x100 == value / 0x100_0000);
}

/// Pieces of one length, end to end.
proof fn lemma_even_chain(count: nat, piece: spec_fn(int) -> Seq<u8>, size: int)
    requires
        size > 0,
        forall|i: int| 0 <= i < count ==> (#[trigger] piece(i)).len() == size,
    ensures
        crate::bytes::chain(count, piece).len() == count * size,
    decreases count,
{
    if count > 0 {
        let last = count - 1;
        lemma_even_chain(last as nat, piece, size);
        assert(piece(last).len() == size);
        assert(count * size == last * size + size) by (nonlinear_arith)
            requires
                last == count - 1,
        ;
    } else {
        assert(count * size == 0) by (nonlinear_arith)
            requires
                count == 0,
        ;
    }
}

/// Byte `k` of such a chain.
proof fn lemma_even_byte(count: nat, piece: spec_fn(int) -> Seq<u8>, size: int, k: int)
    requires
        size > 0,
        0 <= k < count * size,
        forall|i: int| 0 <= i < count ==> (#[trigger] piece(i)).len() == size,
    ensures
        0 <= k / size < count,
        0 <= k % size < size,
        crate::bytes::chain(count, piece)[k] == piece(k / size)[k % size],
    decreases count,
{
    assert(k == (k / size) * size + k % size && 0 <= k % size < size && 0 <= k / size < count)
        by (nonlinear_arith)
        requires
            size > 0,
            0 <= k < count * size,
    ;
    let last = count - 1;
    let head = crate::bytes::chain(last as nat, piece);
    lemma_even_chain(last as nat, piece, size);
    assert(piece(last).len() == size);
    if k < last * size {
        lemma_even_byte(last as nat, piece, size, k);
    } else {
        assert(k / size == last && k % size == k - last * size) by (nonlinear_arith)
            requires
                size > 0,
                last * size <= k < count * size,
                last == count - 1,
        ;
    }
}

proof fn lemma_core_bytes(snapshot: SnapshotView, i: int, k: int)
    requires
        0 <= i < snapshot.cores.len(),
    ensures
        ({
            let core = snapshot.cores[i];
            let stream = crate::snapshot::core_stream(core);
            &&& stream.len() == 68 + core.wram@.len() + core.iwram@.len()
            &&& 0 <= k < stream.len() ==> stream[k] == player_byte(snapshot, i, k)
        }),
{
    let core = snapshot.cores[i];
    let words = |r: int| crate::bytes::le32(core.gprs[r] as int);
    let stream = crate::snapshot::core_stream(core);
    lemma_even_chain(16, words, 4);
    lemma_le(core.cpsr as int);
    if 0 <= k < 64 {
        lemma_even_byte(16, words, 4, k);
        lemma_le(core.gprs[k / 4] as int);
        assert(stream[k] == crate::bytes::chain(16, words)[k]);
        assert(words(k / 4)[k % 4] == byte_of(core.gprs[k / 4] as int, k % 4));
    }
}

proof fn lemma_fifo_bytes(snapshot: SnapshotView, i: int, m: int)
    requires
        0 <= i < snapshot.cores.len(),
        snapshot.valid(),
    ensures
        ({
            let stream = crate::snapshot::fifos_stream(snapshot.audio_fifos[i]);
            let start = 68 + snapshot.cores[i].wram@.len() + snapshot.cores[i].iwram@.len()
                + blob_size(snapshot, i);
            &&& stream.len() == 88
            &&& 0 <= m < 88 ==> stream[m] == player_byte(snapshot, i, start + m)
        }),
{
    let lanes = snapshot.audio_fifos[i];
    let piece = |l: int| crate::snapshot::fifo_stream(lanes[l]);
    assert forall|l: int| 0 <= l < 2 implies (#[trigger] piece(l)).len() == 44 by {
        lemma_even_chain(8, |w: int| crate::bytes::le32(lanes[l].fifo[w] as int), 4);
    }
    lemma_even_chain(2, piece, 44);
    if 0 <= m < 88 {
        lemma_even_byte(2, piece, 44, m);
        let lane = lanes[m / 44];
        let at = m % 44;
        let words = |w: int| crate::bytes::le32(lane.fifo[w] as int);
        lemma_even_chain(8, words, 4);
        lemma_le(lane.write as int);
        lemma_le(lane.read as int);
        lemma_le(lane.internal_remaining as int);
        let stream = crate::snapshot::fifo_stream(lane);
        if at < 32 {
            lemma_even_byte(8, words, 4, at);
            lemma_le(lane.fifo[at / 4] as int);
            assert(stream[at] == crate::bytes::chain(8, words)[at]);
            assert(words(at / 4)[at % 4] == byte_of(lane.fifo[at / 4] as int, at % 4));
        }
    }
}

proof fn lemma_dma_bytes(snapshot: SnapshotView, i: int, m: int)
    requires
        0 <= i < snapshot.cores.len(),
        snapshot.valid(),
    ensures
        ({
            let stream = crate::snapshot::dmas_stream(snapshot.dmas[i]);
            let start = 68 + snapshot.cores[i].wram@.len() + snapshot.cores[i].iwram@.len()
                + blob_size(snapshot, i) + 88;
            &&& stream.len() == 56
            &&& 0 <= m < 56 ==> stream[m] == player_byte(snapshot, i, start + m)
        }),
{
    let lanes = snapshot.dmas[i];
    let piece = |l: int| crate::snapshot::dma_stream(lanes[l]);
    lemma_even_chain(4, piece, 14);
    if 0 <= m < 56 {
        lemma_even_byte(4, piece, 14, m);
        let lane = lanes[m / 14];
        lemma_le(lane.reg as int);
        lemma_le(lane.cycles as int);
        lemma_le(lane.source_offset as int);
        lemma_le(lane.dest_offset as int);
    }
}

proof fn lemma_player_bytes(snapshot: SnapshotView, i: int, k: int)
    requires
        snapshot.valid(),
        0 <= i < snapshot.cores.len(),
    ensures
        snapshot.player_stream(i).len() == player_size(snapshot, i),
        0 <= k < player_size(snapshot, i) ==> snapshot.player_stream(i)[k] == player_byte(
            snapshot,
            i,
            k,
        ),
{
    let core = snapshot.cores[i];
    let blob = 68 + core.wram@.len() + core.iwram@.len();
    let fifos = blob + blob_size(snapshot, i);
    lemma_core_bytes(snapshot, i, k);
    lemma_fifo_bytes(snapshot, i, k - fifos);
    lemma_dma_bytes(snapshot, i, k - fifos - 88);
}

/// The digested bytes, one by one: those of each player in turn, and of each
/// player everything that is digested, at its place. No player and no field
/// is left out, and nothing else is digested.
pub proof fn law_stream_layout(snapshot: SnapshotView, i: nat, k: int)
    requires
        snapshot.valid(),
        i < snapshot.cores.len(),
        0 <= k < player_size(snapshot, i as int),
    ensures
        snapshot.stream().len() == player_start(snapshot, snapshot.cores.len()),
        0 <= player_start(snapshot, i) + k < snapshot.stream().len(),
        snapshot.stream()[player_start(snapshot, i) + k] == player_byte(snapshot, i as int, k),
{
    lemma_player_bytes(snapshot, i as int, k);
    lemma_stream(snapshot, snapshot.cores.len(), i, k);
}

proof fn lemma_stream(snapshot: SnapshotView, count: nat, i: nat, k: int)
    requires
        snapshot.valid(),
        count <= snapshot.cores.len(),
        0 <= k,
        i < count ==> k < player_size(snapshot, i as int),
    ensures
        ({
            let stream = crate::bytes::chain(count, |j: int| snapshot.player_stream(j));
            &&& stream.len() == player_start(snapshot, count)
            &&& i < count ==> {
                &&& 0 <= player_start(snapshot, i) + k < stream.len()
                &&& stream[player_start(snapshot, i) + k] == snapshot.player_stream(i as int)[k]
            }
        }),
    decreases count,
{
    if count > 0 {
        let last = (count - 1) as nat;
        lemma_player_bytes(snapshot, last as int, 0);
        if i == last {
            lemma_stream(snapshot, last, i, 0);
        } else {
            lemma_stream(snapshot, last, i, k);
        }
    }
}

} // verus!
