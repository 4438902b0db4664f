//! What the digest of a snapshot shows.

use vstd::prelude::*;

use crate::bytes::{
    lemma_chain_equal, lemma_chain_injective, lemma_chain_len, lemma_le16_injective,
    lemma_le32_injective, lemma_split,
};
use crate::gba::{DmaLane, FifoLane};
use crate::snapshot::{CoreState, SnapshotView};

verus! {

/// Whether two savestates agree in all that the digest reads. The serialized
/// images may differ.
pub open spec fn same_core(a: CoreState, b: CoreState) -> bool {
    &&& a.gprs@ == b.gprs@
    &&& a.cpsr == b.cpsr
    &&& a.wram@ == b.wram@
    &&& a.iwram@ == b.iwram@
}

/// Whether two snapshots agree in all that the digest reads.
pub open spec fn same_link(a: SnapshotView, b: SnapshotView) -> bool {
    &&& a.cores.len() == b.cores.len()
    &&& forall|i: int| 0 <= i < a.cores.len() ==> #[trigger] same_core(a.cores[i], b.cores[i])
    &&& a.drivers.len() == b.drivers.len()
    &&& forall|i: int| 0 <= i < a.drivers.len() ==> (#[trigger] a.drivers[i])@ == b.drivers[i]@
    &&& a.audio_fifos == b.audio_fifos
    &&& a.dmas == b.dmas
}

/// Whether two snapshots are of links of the same shape: as many players, as
/// many drivers, and RAMs and blobs of the same sizes.
pub open spec fn same_shape(a: SnapshotView, b: SnapshotView) -> bool {
    &&& a.cores.len() == b.cores.len()
    &&& a.drivers.len() == b.drivers.len()
    &&& forall|i: int|
        0 <= i < a.cores.len() ==> {
            &&& (#[trigger] a.cores[i]).wram.len() == b.cores[i].wram.len()
            &&& a.cores[i].iwram.len() == b.cores[i].iwram.len()
        }
    &&& forall|i: int|
        0 <= i < a.drivers.len() ==> (#[trigger] a.drivers[i]).len() == b.drivers[i].len()
}

/// Peers in the same state have the same digest: what a savestate holds
/// beyond the digested fields does not show in it.
pub proof fn law_digest_is_comparable(a: SnapshotView, b: SnapshotView)
    requires
        a.valid(),
        b.valid(),
        same_link(a, b),
    ensures
        a.stream() == b.stream(),
        crate::checksum::crc32(a.stream()) == crate::checksum::crc32(b.stream()),
{
    let left = |i: int| a.player_stream(i);
    let right = |i: int| b.player_stream(i);
    assert forall|i: int| 0 <= i < a.cores.len() implies #[trigger] left(i) == right(i) by {
        let x = a.cores[i];
        let y = b.cores[i];
        assert(same_core(x, y));
        let xs = |r: int| crate::bytes::le32(x.gprs[r] as int);
        let ys = |r: int| crate::bytes::le32(y.gprs[r] as int);
        assert forall|r: int| 0 <= r < 16 implies #[trigger] xs(r) == ys(r) by {
            assert(x.gprs@[r] == y.gprs@[r]);
        }
        lemma_chain_equal(16, xs, ys);
        assert(crate::snapshot::core_stream(x) == crate::snapshot::core_stream(y));
    }
    lemma_chain_equal(a.cores.len(), left, right);
}

/// FIFO channels take equally many bytes.
proof fn lemma_fifo_len(a: FifoLane, b: FifoLane)
    ensures
        crate::snapshot::fifo_stream(a).len() == crate::snapshot::fifo_stream(b).len(),
{
    lemma_chain_len(
        8,
        |w: int| crate::bytes::le32(a.fifo[w] as int),
        |w: int| crate::bytes::le32(b.fifo[w] as int),
    );
}

/// The bytes of a FIFO channel tell its state.
proof fn lemma_fifo_injective(a: FifoLane, b: FifoLane)
    requires
        crate::snapshot::fifo_stream(a) == crate::snapshot::fifo_stream(b),
    ensures
        a == b,
{
    let xs = |w: int| crate::bytes::le32(a.fifo[w] as int);
    let ys = |w: int| crate::bytes::le32(b.fifo[w] as int);
    let x0 = crate::bytes::chain(8, xs);
    let y0 = crate::bytes::chain(8, ys);
    let x1 = crate::bytes::le32(a.write as int);
    let y1 = crate::bytes::le32(b.write as int);
    let x2 = crate::bytes::le32(a.read as int);
    let y2 = crate::bytes::le32(b.read as int);
    let x3 = crate::bytes::le32(a.internal_remaining as int);
    let y3 = crate::bytes::le32(b.internal_remaining as int);
    lemma_chain_len(8, xs, ys);
    lemma_split(x0 + x1 + x2, x3, y0 + y1 + y2, y3);
    lemma_split(x0 + x1, x2, y0 + y1, y2);
    lemma_split(x0, x1, y0, y1);
    lemma_le32_injective(a.write as int, b.write as int);
    lemma_le32_injective(a.read as int, b.read as int);
    lemma_le32_injective(a.internal_remaining as int, b.internal_remaining as int);
    lemma_chain_injective(8, xs, ys);
    assert forall|w: int| 0 <= w < 8 implies #[trigger] a.fifo@[w] == b.fifo@[w] by {
        assert(xs(w) == ys(w));
        lemma_le32_injective(a.fifo[w] as int, b.fifo[w] as int);
    }
    assert(a.fifo =~= b.fifo);
}

/// The bytes of a DMA channel tell its state.
proof fn lemma_dma_injective(a: DmaLane, b: DmaLane)
    requires
        crate::snapshot::dma_stream(a) == crate::snapshot::dma_stream(b),
    ensures
        a == b,
{
    let x0 = crate::bytes::le16(a.reg as int);
    let y0 = crate::bytes::le16(b.reg as int);
    let x1 = crate::bytes::le32(a.cycles as int);
    let y1 = crate::bytes::le32(b.cycles as int);
    let x2 = crate::bytes::le32(a.source_offset as int);
    let y2 = crate::bytes::le32(b.source_offset as int);
    let x3 = crate::bytes::le32(a.dest_offset as int);
    let y3 = crate::bytes::le32(b.dest_offset as int);
    lemma_split(x0 + x1 + x2, x3, y0 + y1 + y2, y3);
    lemma_split(x0 + x1, x2, y0 + y1, y2);
    lemma_split(x0, x1, y0, y1);
    lemma_le16_injective(a.reg as int, b.reg as int);
    lemma_le32_injective(a.cycles as int, b.cycles as int);
    lemma_le32_injective(a.source_offset as int, b.source_offset as int);
    lemma_le32_injective(a.dest_offset as int, b.dest_offset as int);
}

/// The bytes of a core tell its registers and RAMs, where the RAMs are of the
/// same sizes.
proof fn lemma_core_injective(a: CoreState, b: CoreState)
    requires
        crate::snapshot::core_stream(a) == crate::snapshot::core_stream(b),
        a.wram.len() == b.wram.len(),
        a.iwram.len() == b.iwram.len(),
    ensures
        same_core(a, b),
{
    let xs = |r: int| crate::bytes::le32(a.gprs[r] as int);
    let ys = |r: int| crate::bytes::le32(b.gprs[r] as int);
    let x0 = crate::bytes::chain(16, xs);
    let y0 = crate::bytes::chain(16, ys);
    let x1 = crate::bytes::le32(a.cpsr as int);
    let y1 = crate::bytes::le32(b.cpsr as int);
    lemma_chain_len(16, xs, ys);
    lemma_split(x0 + x1 + a.wram@, a.iwram@, y0 + y1 + b.wram@, b.iwram@);
    lemma_split(x0 + x1, a.wram@, y0 + y1, b.wram@);
    lemma_split(x0, x1, y0, y1);
    lemma_le32_injective(a.cpsr as int, b.cpsr as int);
    lemma_chain_injective(16, xs, ys);
    assert forall|r: int| 0 <= r < 16 implies #[trigger] a.gprs@[r] == b.gprs@[r] by {
        assert(xs(r) == ys(r));
        lemma_le32_injective(a.gprs[r] as int, b.gprs[r] as int);
    }
    assert(a.gprs@ =~= b.gprs@);
}

/// The bytes of players of the same shape are equally many.
proof fn lemma_player_len(a: SnapshotView, b: SnapshotView, i: int)
    requires
        a.valid(),
        b.valid(),
        same_shape(a, b),
        0 <= i < a.cores.len(),
    ensures
        crate::snapshot::core_stream(a.cores[i]).len() == crate::snapshot::core_stream(
            b.cores[i],
        ).len(),
        a.blob_stream(i).len() == b.blob_stream(i).len(),
        crate::snapshot::fifos_stream(a.audio_fifos[i]).len() == crate::snapshot::fifos_stream(
            b.audio_fifos[i],
        ).len(),
        crate::snapshot::dmas_stream(a.dmas[i]).len() == crate::snapshot::dmas_stream(
            b.dmas[i],
        ).len(),
{
    let x = a.cores[i];
    let y = b.cores[i];
    lemma_chain_len(
        16,
        |r: int| crate::bytes::le32(x.gprs[r] as int),
        |r: int| crate::bytes::le32(y.gprs[r] as int),
    );
    let fx = |l: int| crate::snapshot::fifo_stream(a.audio_fifos[i][l]);
    let fy = |l: int| crate::snapshot::fifo_stream(b.audio_fifos[i][l]);
    assert forall|l: int| 0 <= l < 2 implies (#[trigger] fx(l)).len() == fy(l).len() by {
        lemma_fifo_len(a.audio_fifos[i][l], b.audio_fifos[i][l]);
    }
    lemma_chain_len(2, fx, fy);
    let dx = |l: int| crate::snapshot::dma_stream(a.dmas[i][l]);
    let dy = |l: int| crate::snapshot::dma_stream(b.dmas[i][l]);
    lemma_chain_len(4, dx, dy);
}

/// The bytes of a player tell all of the player's digested state.
proof fn lemma_player_injective(a: SnapshotView, b: SnapshotView, i: int)
    requires
        a.valid(),
        b.valid(),
        same_shape(a, b),
        0 <= i < a.cores.len(),
        a.player_stream(i) == b.player_stream(i),
    ensures
        same_core(a.cores[i], b.cores[i]),
        a.blob_stream(i) == b.blob_stream(i),
        a.audio_fifos[i] == b.audio_fifos[i],
        a.dmas[i] == b.dmas[i],
{
    lemma_player_len(a, b, i);
    let x0 = crate::snapshot::core_stream(a.cores[i]);
    let y0 = crate::snapshot::core_stream(b.cores[i]);
    let x1 = a.blob_stream(i);
    let y1 = b.blob_stream(i);
    let fa = a.audio_fifos[i];
    let fb = b.audio_fifos[i];
    let da = a.dmas[i];
    let db = b.dmas[i];
    let x2 = crate::snapshot::fifos_stream(fa);
    let y2 = crate::snapshot::fifos_stream(fb);
    let x3 = crate::snapshot::dmas_stream(da);
    let y3 = crate::snapshot::dmas_stream(db);
    lemma_split(x0 + x1 + x2, x3, y0 + y1 + y2, y3);
    lemma_split(x0 + x1, x2, y0 + y1, y2);
    lemma_split(x0, x1, y0, y1);
    lemma_core_injective(a.cores[i], b.cores[i]);
    let fx = |l: int| crate::snapshot::fifo_stream(fa[l]);
    let fy = |l: int| crate::snapshot::fifo_stream(fb[l]);
    assert forall|l: int| 0 <= l < 2 implies (#[trigger] fx(l)).len() == fy(l).len() by {
        lemma_fifo_len(fa[l], fb[l]);
    }
    lemma_chain_injective(2, fx, fy);
    assert forall|l: int| 0 <= l < 2 implies #[trigger] fa@[l] == fb@[l] by {
        assert(fx(l) == fy(l));
        lemma_fifo_injective(fa[l], fb[l]);
    }
    assert(fa =~= fb);
    let dx = |l: int| crate::snapshot::dma_stream(da[l]);
    let dy = |l: int| crate::snapshot::dma_stream(db[l]);
    lemma_chain_injective(4, dx, dy);
    assert forall|l: int| 0 <= l < 4 implies #[trigger] da@[l] == db@[l] by {
        assert(dx(l) == dy(l));
        lemma_dma_injective(da[l], db[l]);
    }
    assert(da =~= db);
}

/// The digested bytes leave nothing out: links of the same shape that differ
/// in a register, a RAM byte, a driver blob, a FIFO channel or a DMA channel
/// have different bytes to digest.
pub proof fn law_divergence_shows(a: SnapshotView, b: SnapshotView)
    requires
        a.valid(),
        b.valid(),
        same_shape(a, b),
        !same_link(a, b),
    ensures
        a.stream() != b.stream(),
{
    if a.stream() == b.stream() {
        let left = |i: int| a.player_stream(i);
        let right = |i: int| b.player_stream(i);
        assert forall|i: int| 0 <= i < a.cores.len() implies (#[trigger] left(i)).len() == right(
            i,
        ).len() by {
            lemma_player_len(a, b, i);
        }
        lemma_chain_injective(a.cores.len(), left, right);
        assert forall|i: int| 0 <= i < a.cores.len() implies {
            &&& #[trigger] same_core(a.cores[i], b.cores[i])
            &&& a.blob_stream(i) == b.blob_stream(i)
            &&& a.audio_fifos[i] == b.audio_fifos[i]
            &&& a.dmas[i] == b.dmas[i]
        } by {
            assert(left(i) == right(i));
            lemma_player_injective(a, b, i);
        }
        assert forall|i: int| 0 <= i < a.drivers.len() implies (#[trigger] a.drivers[i])@
            == b.drivers[i]@ by {
            assert(same_core(a.cores[i], b.cores[i]));
        }
        assert forall|i: int| 0 <= i < a.audio_fifos.len() implies #[trigger] a.audio_fifos[i]
            == b.audio_fifos[i] by {
            assert(same_core(a.cores[i], b.cores[i]));
        }
        assert forall|i: int| 0 <= i < a.dmas.len() implies #[trigger] a.dmas[i]
            == b.dmas[i] by {
            assert(same_core(a.cores[i], b.cores[i]));
        }
        assert(a.audio_fifos =~= b.audio_fifos);
        assert(a.dmas =~= b.dmas);
    }
}

} // verus!
