//! Which tiles and item movements the factory's presentation shows.
use vstd::prelude::*;
use crate::sim::{Game, Item, Kind, TileModel};

verus! {

/// An item moving from one tile to another during a tick.
#[derive(Clone, Copy, Debug, PartialEq, Eq, Structural)]
pub struct ItemTransfer {
    pub from: usize,
    pub to: usize,
    pub item: Item,
}

/// Whether the tile holds a building that makes things and shows a progress bar.
pub open spec fn is_producer(t: TileModel) -> bool {
    t.building matches Some(b) && (b.kind == Kind::Miner || b.kind == Kind::Furnace || b.kind
        == Kind::Assembler)
}

/// The indices among the first `n` tiles that hold a miner, furnace or assembler, in order.
pub open spec fn producers_upto(tiles: Seq<TileModel>, n: nat) -> Seq<usize>
    decreases n,
{
    if n == 0 {
        seq![]
    } else if is_producer(tiles[n - 1]) {
        producers_upto(tiles, (n - 1) as nat).push((n - 1) as usize)
    } else {
        producers_upto(tiles, (n - 1) as nat)
    }
}

pub fn producer_indices(game: &Game) -> (indices: Vec<usize>)
    ensures
        indices@ == producers_upto(game@.tiles, game@.tiles.len()),
{
    let mut indices: Vec<usize> = Vec::new();
    let mut index: usize = 0;
    while index < game.tiles.len()
        invariant
            index <= game@.tiles.len(),
            indices@ == producers_upto(game@.tiles, index as nat),
        decreases game@.tiles.len() - index,
    {
        let producer = match &game.tiles[index].building {
            Some(b) => b.kind == Kind::Miner || b.kind == Kind::Furnace || b.kind == Kind::Assembler,
            None => false,
        };
        assert(game.tiles@[index as int]@ == game@.tiles[index as int]);
        if producer {
            indices.push(index);
        }
        index += 1;
    }
    indices
}

/// Whether motion `m` ends where transfer `t` starts, carrying the same item.
pub open spec fn continues(m: ItemTransfer, t: ItemTransfer) -> bool {
    m.to == t.from && m.item == t.item
}

/// The first of the first `n` motions that `t` continues, if any.
pub open spec fn first_continued(motions: Seq<ItemTransfer>, t: ItemTransfer, n: nat) -> Option<int>
    decreases n,
{
    if n == 0 {
        None
    } else {
        match first_continued(motions, t, (n - 1) as nat) {
            Some(j) => Some(j),
            None => if continues(motions[n - 1], t) {
                Some(n - 1)
            } else {
                None
            },
        }
    }
}

/// Adding transfer `t` to the motions shown: it extends the first motion it continues, or
/// becomes a motion of its own.
pub open spec fn add_transfer(motions: Seq<ItemTransfer>, t: ItemTransfer) -> Seq<ItemTransfer> {
    match first_continued(motions, t, motions.len()) {
        Some(j) => motions.update(j, ItemTransfer { to: t.to, ..motions[j] }),
        None => motions.push(t),
    }
}

/// The motions shown for a tick's transfers, taken in order.
pub open spec fn collapsed(transfers: Seq<ItemTransfer>) -> Seq<ItemTransfer>
    decreases transfers.len(),
{
    if transfers.len() == 0 {
        seq![]
    } else {
        add_transfer(collapsed(transfers.drop_last()), transfers.last())
    }
}

proof fn lemma_first_continued(motions: Seq<ItemTransfer>, t: ItemTransfer, n: nat)
    requires
        n <= motions.len(),
    ensures
        first_continued(motions, t, n) matches Some(j) ==> 0 <= j < n && continues(motions[j], t)
            && forall|k: int| 0 <= k < j ==> !continues(#[trigger] motions[k], t),
        first_continued(motions, t, n) is None ==> forall|k: int|
            0 <= k < n ==> !continues(#[trigger] motions[k], t),
    decreases n,
{
    if n > 0 {
        lemma_first_continued(motions, t, (n - 1) as nat);
    }
}

pub fn collapse_transfers(transfers: &[ItemTransfer]) -> (motions: Vec<ItemTransfer>)
    ensures
        motions@ == collapsed(transfers@),
{
    let mut motions: Vec<ItemTransfer> = Vec::new();
    let mut i: usize = 0;
    while i < transfers.len()
        invariant
            i <= transfers@.len(),
            motions@ == collapsed(transfers@.take(i as int)),
        decreases transfers@.len() - i,
    {
        let transfer = transfers[i];
        let mut j: usize = 0;
        let mut found: Option<usize> = None;
        while j < motions.len()
            invariant_except_break
                found is None,
            invariant
                j <= motions@.len(),
                forall|k: int| 0 <= k < j ==> !continues(#[trigger] motions@[k], transfer),
            ensures
                found matches Some(f) ==> f < motions@.len() && continues(motions@[f as int], transfer)
                    && forall|k: int| 0 <= k < f ==> !continues(#[trigger] motions@[k], transfer),
                found is None ==> forall|k: int|
                    0 <= k < motions@.len() ==> !continues(#[trigger] motions@[k], transfer),
            decreases motions@.len() - j,
        {
            if motions[j].to == transfer.from && motions[j].item == transfer.item {
                found = Some(j);
                break;
            }
            j += 1;
        }
        proof {
            lemma_first_continued(motions@, transfer, motions@.len());
            assert(transfers@.take(i + 1).drop_last() =~= transfers@.take(i as int));
            assert(transfers@.take(i + 1).last() == transfer);
            match found {
                Some(f) => {
                    let g = first_continued(motions@, transfer, motions@.len());
                    assert(g is Some);
                    if g->0 < f {
                        assert(!continues(motions@[g->0], transfer));
                    }
                    if g->0 > f {
                        assert(!continues(motions@[f as int], transfer));
                    }
                },
                None => {},
            }
        }
        match found {
            Some(j) => {
                let previous = motions[j];
                motions.set(j, ItemTransfer { to: transfer.to, ..previous });
            },
            None => {
                motions.push(transfer);
            },
        }
        i += 1;
    }
    assert(transfers@.take(transfers@.len() as int) =~= transfers@);
    motions
}

/// Collapsing never shows more motions than there were transfers.
pub proof fn lemma_collapse_never_grows(transfers: Seq<ItemTransfer>)
    ensures
        collapsed(transfers).len() <= transfers.len(),
    decreases transfers.len(),
{
    if transfers.len() > 0 {
        lemma_collapse_never_grows(transfers.drop_last());
        let before = collapsed(transfers.drop_last());
        lemma_first_continued(before, transfers.last(), before.len());
        assert(add_transfer(before, transfers.last()).len() <= before.len() + 1);
    }
}

/// `idx` picks, in increasing order, for each motion the transfer it started from.
pub open spec fn picks_sources(motions: Seq<ItemTransfer>, transfers: Seq<ItemTransfer>, idx: Seq<int>) -> bool {
    &&& idx.len() == motions.len()
    &&& forall|k: int|
        0 <= k < idx.len() ==> 0 <= #[trigger] idx[k] < transfers.len() && motions[k].from
            == transfers[idx[k]].from
    &&& forall|a: int, b: int| 0 <= a < b < idx.len() ==> idx[a] < idx[b]
}

/// No transfer continues an earlier one: none starts where an earlier one, with the same
/// item, ended.
pub open spec fn unchained(transfers: Seq<ItemTransfer>) -> bool {
    forall|i: int, j: int|
        0 <= i < j < transfers.len() ==> !continues(#[trigger] transfers[i], #[trigger] transfers[j])
}

proof fn lemma_collapse_sources(transfers: Seq<ItemTransfer>) -> (idx: Seq<int>)
    ensures
        picks_sources(collapsed(transfers), transfers, idx),
    decreases transfers.len(),
{
    if transfers.len() == 0 {
        seq![]
    } else {
        let rest = transfers.drop_last();
        let prev = lemma_collapse_sources(rest);
        let before = collapsed(rest);
        let t = transfers.last();
        lemma_first_continued(before, t, before.len());
        assert forall|k: int| 0 <= k < prev.len() implies transfers[prev[k]] == rest[prev[k]] by {}
        match first_continued(before, t, before.len()) {
            Some(j) => {
                let after = collapsed(transfers);
                assert(after == before.update(j, ItemTransfer { to: t.to, ..before[j] }));
                assert forall|k: int| 0 <= k < prev.len() implies 0 <= #[trigger] prev[k]
                    < transfers.len() && after[k].from == transfers[prev[k]].from by {
                    assert(transfers[prev[k]] == rest[prev[k]]);
                }
                prev
            },
            None => {
                let idx = prev.push(transfers.len() - 1);
                let after = collapsed(transfers);
                assert(after == before.push(t));
                assert forall|k: int| 0 <= k < idx.len() implies 0 <= #[trigger] idx[k]
                    < transfers.len() && after[k].from == transfers[idx[k]].from by {
                    if k < prev.len() {
                        assert(idx[k] == prev[k]);
                        assert(transfers[prev[k]] == rest[prev[k]]);
                    }
                }
                assert forall|a: int, b: int| 0 <= a < b < idx.len() implies idx[a] < idx[b] by {
                    if b < prev.len() {
                        assert(idx[a] == prev[a] && idx[b] == prev[b]);
                    } else {
                        assert(idx[a] == prev[a]);
                    }
                }
                idx
            },
        }
    }
}

proof fn lemma_collapse_unchained(transfers: Seq<ItemTransfer>)
    requires
        unchained(transfers),
    ensures
        collapsed(transfers) == transfers,
    decreases transfers.len(),
{
    if transfers.len() > 0 {
        let rest = transfers.drop_last();
        assert forall|i: int, j: int| 0 <= i < j < rest.len() implies !continues(
            #[trigger] rest[i],
            #[trigger] rest[j],
        ) by {
            assert(rest[i] == transfers[i] && rest[j] == transfers[j]);
        }
        lemma_collapse_unchained(rest);
        let t = transfers.last();
        lemma_first_continued(rest, t, rest.len());
        assert(first_continued(rest, t, rest.len()) is None) by {
            if first_continued(rest, t, rest.len()) is Some {
                let j = first_continued(rest, t, rest.len())->0;
                assert(rest[j] == transfers[j]);
                assert(!continues(transfers[j], transfers[transfers.len() - 1]));
            }
        }
        assert(rest.push(t) =~= transfers);
    }
}

/// What the motions shown for a tick's transfers keep of them: never more motions than
/// transfers; each motion starts where a transfer started, in the transfers' order; and
/// where no transfer continues an earlier one, every transfer is shown as it is.
pub proof fn lemma_collapse_keeps_sources(transfers: Seq<ItemTransfer>)
    ensures
        collapsed(transfers).len() <= transfers.len(),
        exists|idx: Seq<int>| picks_sources(collapsed(transfers), transfers, idx),
        unchained(transfers) ==> collapsed(transfers) == transfers,
{
    lemma_collapse_never_grows(transfers);
    let idx = lemma_collapse_sources(transfers);
    assert(picks_sources(collapsed(transfers), transfers, idx));
    if unchained(transfers) {
        lemma_collapse_unchained(transfers);
    }
}

proof fn lemma_producers_upto(tiles: Seq<TileModel>, n: nat)
    requires
        n <= tiles.len() <= usize::MAX,
    ensures
        forall|a: int, b: int|
            0 <= a < b < producers_upto(tiles, n).len() ==> producers_upto(tiles, n)[a]
                < producers_upto(tiles, n)[b],
        forall|k: int|
            0 <= k < producers_upto(tiles, n).len() ==> #[trigger] producers_upto(tiles, n)[k] < n,
        forall|i: int|
            0 <= i < n ==> (producers_upto(tiles, n).contains(i as usize) <==> is_producer(
                #[trigger] tiles[i],
            )),
    decreases n,
{
    if n > 0 {
        let m = (n - 1) as nat;
        lemma_producers_upto(tiles, m);
        let prev = producers_upto(tiles, m);
        let r = producers_upto(tiles, n);
        assert forall|a: int, b: int| 0 <= a < b < r.len() implies r[a] < r[b] by {
            if b < prev.len() {
                assert(r[a] == prev[a] && r[b] == prev[b]);
            } else {
                assert(r[a] == prev[a]);
                assert(prev[a] < m);
            }
        }
        assert forall|k: int| 0 <= k < r.len() implies #[trigger] r[k] < n by {
            if k < prev.len() {
                assert(r[k] == prev[k]);
            }
        }
        assert forall|i: int| 0 <= i < n implies (r.contains(i as usize) <==> is_producer(
            #[trigger] tiles[i],
        )) by {
            if i < m {
                if prev.contains(i as usize) {
                    let k = choose|k: int| 0 <= k < prev.len() && prev[k] == i as usize;
                    assert(r[k] == prev[k]);
                }
                if r.contains(i as usize) {
                    let k = choose|k: int| 0 <= k < r.len() && r[k] == i as usize;
                    if k < prev.len() {
                        assert(r[k] == prev[k]);
                    }
                }
            } else {
                if is_producer(tiles[i]) {
                    assert(r[r.len() - 1] == i as usize);
                }
                if r.contains(i as usize) {
                    let k = choose|k: int| 0 <= k < r.len() && r[k] == i as usize;
                    if k < prev.len() {
                        assert(r[k] == prev[k]);
                    }
                }
            }
        }
    }
}

/// The producer tiles are listed in increasing order, and exactly the miners, furnaces and
/// assemblers are among them. (Tiles held in memory number at most `usize::MAX`.)
pub proof fn lemma_producers_exact(tiles: Seq<TileModel>)
    requires
        tiles.len() <= usize::MAX,
    ensures
        forall|a: int, b: int|
            0 <= a < b < producers_upto(tiles, tiles.len()).len() ==> producers_upto(
                tiles,
                tiles.len(),
            )[a] < producers_upto(tiles, tiles.len())[b],
        forall|i: int|
            0 <= i < tiles.len() ==> (producers_upto(tiles, tiles.len()).contains(i as usize)
                <==> is_producer(#[trigger] tiles[i])),
        forall|k: int|
            0 <= k < producers_upto(tiles, tiles.len()).len() ==> #[trigger] producers_upto(
                tiles,
                tiles.len(),
            )[k] < tiles.len(),
{
    lemma_producers_upto(tiles, tiles.len());
}

} // verus!
