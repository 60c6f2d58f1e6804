//! What the validator answers on whole classes of maps, whatever the order
//! in which the path tiles are listed.

use crate::path::{
    first_neighbor, first_start, is_first_neighbor, is_first_start, lemma_first_neighbor_unique,
    lemma_first_start_unique, verdict, walk,
};
use crate::tilemap::{lists_path_tiles, on_path, EnemyTile, TileCoord, TileType};
use vstd::prelude::*;

verus! {

/// `coord` is a tile of the enemy path with the role `role`.
pub open spec fn has_role(tiles: Map<TileCoord, TileType>, coord: TileCoord, role: EnemyTile) -> bool {
    tiles.contains_key(coord) && tiles[coord] == TileType::EnemyMap(role)
}

/// The map holds a `Start` tile.
pub open spec fn has_start(tiles: Map<TileCoord, TileType>) -> bool {
    exists|c: TileCoord| has_role(tiles, c, EnemyTile::Start)
}

/// `chain` leads from a `Start` tile to a `Finish` tile over path tiles,
/// each adjacent to the next.
pub open spec fn is_chain(tiles: Map<TileCoord, TileType>, chain: Seq<TileCoord>) -> bool {
    &&& chain.len() >= 2
    &&& forall|k: int| 0 <= k < chain.len() ==> on_path(tiles, #[trigger] chain[k])
    &&& has_role(tiles, chain[0], EnemyTile::Start)
    &&& has_role(tiles, chain.last(), EnemyTile::Finish)
    &&& forall|k: int| 0 <= k < chain.len() - 1 ==> (#[trigger] chain[k]).adjacent(chain[k + 1])
}

/// Some chain of adjacent path tiles leads from a `Start` to a `Finish`.
pub open spec fn connected(tiles: Map<TileCoord, TileType>) -> bool {
    exists|chain: Seq<TileCoord>| is_chain(tiles, chain)
}

/// `chain` is a chain from the only `Start` to the only `Finish` that visits
/// no tile twice and does not branch: beside a tile of the chain before the
/// finish lie no path tiles but its neighbours in the chain.
pub open spec fn is_simple_chain(tiles: Map<TileCoord, TileType>, chain: Seq<TileCoord>) -> bool {
    &&& is_chain(tiles, chain)
    &&& chain.no_duplicates()
    &&& forall|c: TileCoord| #[trigger] has_role(tiles, c, EnemyTile::Start) ==> c == chain[0]
    &&& forall|c: TileCoord| #[trigger] has_role(tiles, c, EnemyTile::Finish) ==> c == chain.last()
    &&& forall|k: int, c: TileCoord|
        0 <= k < chain.len() - 1 && on_path(tiles, c) && #[trigger] chain[k].adjacent(c) ==> (k > 0
            && c == chain[k - 1]) || c == chain[k + 1]
}

/// Where some tile is adjacent to `loc`, there is a first such tile, at or
/// before it.
proof fn lemma_neighbor_has_first(loc: TileCoord, tiles: Seq<(TileCoord, EnemyTile)>, at: int)
    requires
        0 <= at < tiles.len(),
        loc.adjacent(tiles[at].0),
    ensures
        first_neighbor(loc, tiles) is Some,
        first_neighbor(loc, tiles)->0 <= at,
        is_first_neighbor(loc, tiles, first_neighbor(loc, tiles)->0),
    decreases at,
{
    if exists|j: int| 0 <= j < at && loc.adjacent((#[trigger] tiles[j]).0) {
        let j = choose|j: int| 0 <= j < at && loc.adjacent((#[trigger] tiles[j]).0);
        lemma_neighbor_has_first(loc, tiles, j);
    } else {
        assert(is_first_neighbor(loc, tiles, at));
        lemma_first_neighbor_unique(loc, tiles, at);
    }
}

/// Where some tile has the role `Start`, there is a first such tile.
proof fn lemma_start_has_first(tiles: Seq<(TileCoord, EnemyTile)>, at: int)
    requires
        0 <= at < tiles.len(),
        tiles[at].1 == EnemyTile::Start,
    ensures
        first_start(tiles) is Some,
        is_first_start(tiles, first_start(tiles)->0),
    decreases at,
{
    if exists|j: int| 0 <= j < at && (#[trigger] tiles[j]).1 == EnemyTile::Start {
        let j = choose|j: int| 0 <= j < at && (#[trigger] tiles[j]).1 == EnemyTile::Start;
        lemma_start_has_first(tiles, j);
    } else {
        assert(is_first_start(tiles, at));
        lemma_first_start_unique(tiles, at);
    }
}

/// The validator gives no answer exactly on the maps without a `Start` tile.
pub proof fn lemma_no_start_no_verdict(
    tiles: Map<TileCoord, TileType>,
    listing: Seq<(TileCoord, EnemyTile)>,
)
    requires
        lists_path_tiles(tiles, listing),
    ensures
        verdict(listing) is None <==> !has_start(tiles),
{
    if has_start(tiles) {
        let c = choose|c: TileCoord| has_role(tiles, c, EnemyTile::Start);
        let i = choose|i: int| 0 <= i < listing.len() && (#[trigger] listing[i]).0 == c;
        lemma_start_has_first(listing, i);
    }
    if first_start(listing) is Some {
        let s = first_start(listing)->0;
        assert(is_first_start(listing, s));
        assert(has_role(tiles, listing[s].0, EnemyTile::Start));
    }
}

/// A walk that succeeds went along a chain of adjacent tiles: from `loc`
/// over locations of `tiles` to a `Finish` tile of `tiles`.
proof fn lemma_walk_follows_chain(loc: TileCoord, tiles: Seq<(TileCoord, EnemyTile)>) -> (chain:
    Seq<TileCoord>)
    requires
        walk(loc, tiles).0,
    ensures
        chain.len() >= 2,
        chain[0] == loc,
        forall|k: int|
            1 <= k < chain.len() ==> exists|i: int|
                0 <= i < tiles.len() && (#[trigger] tiles[i]).0 == #[trigger] chain[k],
        exists|i: int| 0 <= i < tiles.len() && #[trigger] tiles[i] == (chain.last(), EnemyTile::Finish),
        forall|k: int| 0 <= k < chain.len() - 1 ==> (#[trigger] chain[k]).adjacent(chain[k + 1]),
    decreases tiles.len(),
{
    let i = first_neighbor(loc, tiles)->0;
    assert(is_first_neighbor(loc, tiles, i));
    if tiles[i].1 == EnemyTile::Finish {
        let chain = seq![loc, tiles[i].0];
        assert(tiles[i] == (chain.last(), EnemyTile::Finish));
        chain
    } else {
        let rest = tiles.remove(i);
        tiles.remove_ensures(i);
        let tail = lemma_walk_follows_chain(tiles[i].0, rest);
        let chain = seq![loc] + tail;
        assert forall|k: int| 1 <= k < chain.len() implies exists|j: int|
            0 <= j < tiles.len() && (#[trigger] tiles[j]).0 == #[trigger] chain[k] by {
            if k == 1 {
                assert(tiles[i].0 == chain[k]);
            } else {
                assert(chain[k] == tail[k - 1]);
                let j = choose|j: int| 0 <= j < rest.len() && (#[trigger] rest[j]).0 == tail[k - 1];
                if j < i {
                    assert(tiles[j].0 == chain[k]);
                } else {
                    assert(tiles[j + 1].0 == chain[k]);
                }
            }
        }
        let f = choose|j: int|
            0 <= j < rest.len() && #[trigger] rest[j] == (tail.last(), EnemyTile::Finish);
        if f < i {
            assert(tiles[f] == (chain.last(), EnemyTile::Finish));
        } else {
            assert(tiles[f + 1] == (chain.last(), EnemyTile::Finish));
        }
        assert forall|k: int| 0 <= k < chain.len() - 1 implies (#[trigger] chain[k]).adjacent(
            chain[k + 1],
        ) by {
            if k > 0 {
                assert(chain[k] == tail[k - 1]);
                assert(chain[k + 1] == tail[k]);
            }
        }
        chain
    }
}

/// Where the validator reports a map valid, a chain of adjacent path tiles
/// leads from a `Start` to a `Finish`.
pub proof fn lemma_valid_is_connected(
    tiles: Map<TileCoord, TileType>,
    listing: Seq<(TileCoord, EnemyTile)>,
)
    requires
        lists_path_tiles(tiles, listing),
        verdict(listing) == Some(true),
    ensures
        connected(tiles),
{
    let s = first_start(listing)->0;
    assert(is_first_start(listing, s));
    let rest = listing.remove(s);
    listing.remove_ensures(s);
    let chain = lemma_walk_follows_chain(listing[s].0, rest);
    assert forall|k: int| 0 <= k < chain.len() implies on_path(tiles, #[trigger] chain[k]) by {
        if k > 0 {
            let j = choose|j: int| 0 <= j < rest.len() && (#[trigger] rest[j]).0 == chain[k];
            if j < s {
                assert(listing[j].0 == chain[k]);
            } else {
                assert(listing[j + 1].0 == chain[k]);
            }
        }
    }
    let f = choose|j: int|
        0 <= j < rest.len() && #[trigger] rest[j] == (chain.last(), EnemyTile::Finish);
    if f < s {
        assert(listing[f] == (chain.last(), EnemyTile::Finish));
    } else {
        assert(listing[f + 1] == (chain.last(), EnemyTile::Finish));
    }
    assert(is_chain(tiles, chain));
}

/// On a map with a `Start` tile from which no chain of adjacent path tiles
/// leads to a `Finish`, the validator reports invalid.
pub proof fn lemma_disconnected_is_invalid(
    tiles: Map<TileCoord, TileType>,
    listing: Seq<(TileCoord, EnemyTile)>,
)
    requires
        lists_path_tiles(tiles, listing),
        has_start(tiles),
        !connected(tiles),
    ensures
        verdict(listing) == Some(false),
{
    lemma_no_start_no_verdict(tiles, listing);
    if verdict(listing) == Some(true) {
        lemma_valid_is_connected(tiles, listing);
    }
}

/// The candidates that the walk along `chain` has left when it stands on
/// `chain[at]`: path tiles of the map, each coordinate once, with every
/// later tile of the chain among them and none of the earlier ones.
spec fn left_at(
    tiles: Map<TileCoord, TileType>,
    chain: Seq<TileCoord>,
    at: int,
    left: Seq<(TileCoord, EnemyTile)>,
) -> bool {
    &&& forall|i: int| 0 <= i < left.len() ==> has_role(tiles, (#[trigger] left[i]).0, left[i].1)
    &&& forall|i: int, j: int|
        0 <= i < j < left.len() ==> (#[trigger] left[i]).0 != (#[trigger] left[j]).0
    &&& forall|k: int|
        at < k < chain.len() ==> exists|i: int|
            0 <= i < left.len() && (#[trigger] left[i]).0 == #[trigger] chain[k]
    &&& forall|k: int, i: int|
        0 <= k <= at && 0 <= i < left.len() ==> (#[trigger] left[i]).0 != #[trigger] chain[k]
}

/// From any tile of a simple chain before the finish, the walk over what is
/// left reaches the finish.
proof fn lemma_walk_along_chain(
    tiles: Map<TileCoord, TileType>,
    chain: Seq<TileCoord>,
    at: int,
    left: Seq<(TileCoord, EnemyTile)>,
)
    requires
        is_simple_chain(tiles, chain),
        0 <= at < chain.len() - 1,
        left_at(tiles, chain, at, left),
    ensures
        walk(chain[at], left).0,
    decreases chain.len() - at,
{
    let next = chain[at + 1];
    let p = choose|i: int| 0 <= i < left.len() && (#[trigger] left[i]).0 == chain[at + 1];
    assert(chain[at].adjacent(chain[at + 1]));
    lemma_neighbor_has_first(chain[at], left, p);
    let i = first_neighbor(chain[at], left)->0;
    assert(has_role(tiles, left[i].0, left[i].1));
    assert(on_path(tiles, left[i].0));
    assert(chain[at].adjacent(left[i].0));
    if at > 0 && left[i].0 == chain[at - 1] {
        assert(left[i].0 != chain[at - 1]);
    }
    assert(left[i].0 == next);
    if at + 1 == chain.len() - 1 {
        assert(left[i].1 == EnemyTile::Finish);
    } else {
        if left[i].1 == EnemyTile::Finish {
            assert(has_role(tiles, next, EnemyTile::Finish));
            assert(next == chain.last());
        }
        let rest = left.remove(i);
        left.remove_ensures(i);
        assert forall|k: int| at + 1 < k < chain.len() implies exists|j: int|
            0 <= j < rest.len() && (#[trigger] rest[j]).0 == #[trigger] chain[k] by {
            let j = choose|j: int| 0 <= j < left.len() && (#[trigger] left[j]).0 == chain[k];
            assert(chain[k] != chain[at + 1]);
            if j < i {
                assert(rest[j].0 == chain[k]);
            } else {
                assert(rest[j - 1].0 == chain[k]);
            }
        }
        assert forall|k: int, j: int| 0 <= k <= at + 1 && 0 <= j < rest.len() implies (
        #[trigger] rest[j]).0 != #[trigger] chain[k] by {
            if j < i {
                assert(rest[j] == left[j]);
            } else {
                assert(rest[j] == left[j + 1]);
            }
        }
        assert(left_at(tiles, chain, at + 1, rest));
        lemma_walk_along_chain(tiles, chain, at + 1, rest);
    }
}

/// On a map whose one `Start` and one `Finish` are joined by a simple chain
/// of adjacent path tiles, the validator reports valid.
pub proof fn lemma_simple_chain_is_valid(
    tiles: Map<TileCoord, TileType>,
    listing: Seq<(TileCoord, EnemyTile)>,
    chain: Seq<TileCoord>,
)
    requires
        lists_path_tiles(tiles, listing),
        is_simple_chain(tiles, chain),
    ensures
        verdict(listing) == Some(true),
{
    assert(has_start(tiles));
    lemma_no_start_no_verdict(tiles, listing);
    let s = first_start(listing)->0;
    assert(is_first_start(listing, s));
    assert(has_role(tiles, listing[s].0, EnemyTile::Start));
    assert(listing[s].0 == chain[0]);
    let rest = listing.remove(s);
    listing.remove_ensures(s);
    assert forall|k: int| 0 < k < chain.len() implies exists|j: int|
        0 <= j < rest.len() && (#[trigger] rest[j]).0 == #[trigger] chain[k] by {
        assert(on_path(tiles, chain[k]));
        let j = choose|j: int| 0 <= j < listing.len() && (#[trigger] listing[j]).0 == chain[k];
        assert(chain[k] != chain[0]);
        if j < s {
            assert(rest[j].0 == chain[k]);
        } else {
            assert(rest[j - 1].0 == chain[k]);
        }
    }
    assert forall|i: int| 0 <= i < rest.len() implies has_role(
        tiles,
        (#[trigger] rest[i]).0,
        rest[i].1,
    ) by {
        if i < s {
            assert(rest[i] == listing[i]);
        } else {
            assert(rest[i] == listing[i + 1]);
        }
    }
    assert forall|k: int, j: int| 0 <= k <= 0 && 0 <= j < rest.len() implies (#[trigger] rest[j]).0
        != #[trigger] chain[k] by {
        if j < s {
            assert(rest[j] == listing[j]);
        } else {
            assert(rest[j] == listing[j + 1]);
        }
    }
    assert(left_at(tiles, chain, 0, rest));
    lemma_walk_along_chain(tiles, chain, 0, rest);
}

/// On a map whose only `Start` has a `Finish` beside it, and beside it no
/// path tile of another role, the validator reports valid at the first
/// step: the walk takes no tile from the candidates.
pub proof fn lemma_adjacent_finish_is_valid_at_once(
    tiles: Map<TileCoord, TileType>,
    listing: Seq<(TileCoord, EnemyTile)>,
    start: TileCoord,
    finish: TileCoord,
)
    requires
        lists_path_tiles(tiles, listing),
        has_role(tiles, start, EnemyTile::Start),
        forall|c: TileCoord| #[trigger] has_role(tiles, c, EnemyTile::Start) ==> c == start,
        has_role(tiles, finish, EnemyTile::Finish),
        start.adjacent(finish),
        forall|c: TileCoord|
            on_path(tiles, c) && #[trigger] start.adjacent(c) ==> has_role(
                tiles,
                c,
                EnemyTile::Finish,
            ),
    ensures
        verdict(listing) == Some(true),
        first_start(listing) matches Some(s) && listing[s].0 == start && walk(
            start,
            listing.remove(s),
        ) == (true, listing.remove(s)),
{
    assert(has_start(tiles));
    lemma_no_start_no_verdict(tiles, listing);
    let s = first_start(listing)->0;
    assert(is_first_start(listing, s));
    assert(has_role(tiles, listing[s].0, EnemyTile::Start));
    let rest = listing.remove(s);
    listing.remove_ensures(s);
    let j = choose|j: int| 0 <= j < listing.len() && (#[trigger] listing[j]).0 == finish;
    assert(j != s);
    let p = if j < s {
        j
    } else {
        j - 1
    };
    assert(rest[p].0 == finish);
    lemma_neighbor_has_first(start, rest, p);
    let i = first_neighbor(start, rest)->0;
    if i < s {
        assert(rest[i] == listing[i]);
    } else {
        assert(rest[i] == listing[i + 1]);
    }
    assert(on_path(tiles, rest[i].0));
    assert(has_role(tiles, rest[i].0, EnemyTile::Finish));
}

} // verus!
