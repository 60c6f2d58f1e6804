//! The enemy-path walk: from the start tile, step to the first adjacent
//! path tile that is left, until the finish is adjacent or nothing is.

use crate::tilemap::{EnemyTile, TileCoord};
use vstd::prelude::*;

verus! {

/// `index` is the first tile of `tiles` that is adjacent to `loc`.
pub open spec fn is_first_neighbor(
    loc: TileCoord,
    tiles: Seq<(TileCoord, EnemyTile)>,
    index: int,
) -> bool {
    &&& 0 <= index < tiles.len()
    &&& loc.adjacent(tiles[index].0)
    &&& forall|j: int| 0 <= j < index ==> !loc.adjacent((#[trigger] tiles[j]).0)
}

/// The index of the first tile of `tiles` that is adjacent to `loc`.
pub open spec fn first_neighbor(loc: TileCoord, tiles: Seq<(TileCoord, EnemyTile)>) -> Option<int> {
    if exists|i: int| is_first_neighbor(loc, tiles, i) {
        Some(choose|i: int| is_first_neighbor(loc, tiles, i))
    } else {
        None
    }
}

/// `index` is the first tile of `tiles` whose role is `Start`.
pub open spec fn is_first_start(tiles: Seq<(TileCoord, EnemyTile)>, index: int) -> bool {
    &&& 0 <= index < tiles.len()
    &&& tiles[index].1 == EnemyTile::Start
    &&& forall|j: int| 0 <= j < index ==> (#[trigger] tiles[j]).1 != EnemyTile::Start
}

/// The index of the first tile of `tiles` whose role is `Start`.
pub open spec fn first_start(tiles: Seq<(TileCoord, EnemyTile)>) -> Option<int> {
    if exists|i: int| is_first_start(tiles, i) {
        Some(choose|i: int| is_first_start(tiles, i))
    } else {
        None
    }
}

/// The walk from `loc` over the candidates `tiles`: whether it ends beside
/// a `Finish` tile, and the candidates that it leaves.
///
/// Each step takes the first candidate adjacent to the current tile. A
/// `Finish` there ends the walk with success. Any other tile leaves the
/// candidates and becomes the current tile. With no adjacent candidate the
/// walk fails. It never goes back to try another branch.
pub open spec fn walk(loc: TileCoord, tiles: Seq<(TileCoord, EnemyTile)>) -> (
    bool,
    Seq<(TileCoord, EnemyTile)>,
)
    decreases tiles.len(),
{
    match first_neighbor(loc, tiles) {
        None => (false, tiles),
        Some(i) => if tiles[i].1 == EnemyTile::Finish {
            (true, tiles)
        } else {
            walk(tiles[i].0, tiles.remove(i))
        },
    }
}

/// The validator's answer for the path tiles in the order `tiles`: nothing
/// without a `Start` tile, else whether the walk from the first `Start`
/// over the other tiles succeeds.
pub open spec fn verdict(tiles: Seq<(TileCoord, EnemyTile)>) -> Option<bool> {
    match first_start(tiles) {
        None => None,
        Some(s) => Some(walk(tiles[s].0, tiles.remove(s)).0),
    }
}

/// The index that `first_neighbor` names is the only one that
/// `is_first_neighbor` accepts.
pub proof fn lemma_first_neighbor_unique(
    loc: TileCoord,
    tiles: Seq<(TileCoord, EnemyTile)>,
    index: int,
)
    requires
        is_first_neighbor(loc, tiles, index),
    ensures
        first_neighbor(loc, tiles) == Some(index),
{
    let chosen = choose|i: int| is_first_neighbor(loc, tiles, i);
    if chosen < index {
        assert(!loc.adjacent(tiles[chosen].0));
    }
    if index < chosen {
        assert(!loc.adjacent(tiles[index].0));
    }
}

/// The index that `first_start` names is the only one that `is_first_start`
/// accepts.
pub proof fn lemma_first_start_unique(tiles: Seq<(TileCoord, EnemyTile)>, index: int)
    requires
        is_first_start(tiles, index),
    ensures
        first_start(tiles) == Some(index),
{
    let chosen = choose|i: int| is_first_start(tiles, i);
    if chosen < index {
        assert(tiles[chosen].1 != EnemyTile::Start);
    }
    if index < chosen {
        assert(tiles[index].1 != EnemyTile::Start);
    }
}

/// The first tile of `tiles` adjacent to `loc`, if there is one.
pub fn find_neighbor(loc: &TileCoord, tiles: &Vec<(TileCoord, EnemyTile)>) -> (found: Option<usize>)
    ensures
        match found {
            Some(i) => first_neighbor(*loc, tiles@) == Some(i as int),
            None => first_neighbor(*loc, tiles@) is None,
        },
{
    let mut i: usize = 0;
    while i < tiles.len()
        invariant
            0 <= i <= tiles.len(),
            forall|j: int| 0 <= j < i ==> !loc.adjacent((#[trigger] tiles@[j]).0),
        decreases tiles.len() - i,
    {
        if loc.is_adjacent(&tiles[i].0) {
            proof {
                lemma_first_neighbor_unique(*loc, tiles@, i as int);
            }
            return Some(i);
        }
        i = i + 1;
    }
    None
}

/// The first tile of `tiles` whose role is `Start`, if there is one.
pub fn find_start(tiles: &Vec<(TileCoord, EnemyTile)>) -> (found: Option<usize>)
    ensures
        match found {
            Some(i) => first_start(tiles@) == Some(i as int),
            None => first_start(tiles@) is None,
        },
{
    let mut i: usize = 0;
    while i < tiles.len()
        invariant
            0 <= i <= tiles.len(),
            forall|j: int| 0 <= j < i ==> (#[trigger] tiles@[j]).1 != EnemyTile::Start,
        decreases tiles.len() - i,
    {
        if tiles[i].1 == EnemyTile::Start {
            proof {
                lemma_first_start_unique(tiles@, i as int);
            }
            return Some(i);
        }
        i = i + 1;
    }
    None
}

/// Walks from `loc` over the candidates `tiles` and says whether the walk
/// ends beside a `Finish` tile. The tiles that the walk stepped on have left
/// `tiles` afterwards.
pub fn check_valid_neighbor(loc: &TileCoord, tiles: &mut Vec<(TileCoord, EnemyTile)>) -> (valid:
    bool)
    ensures
        valid == walk(*loc, old(tiles)@).0,
        final(tiles)@ == walk(*loc, old(tiles)@).1,
{
    let mut current = *loc;
    loop
        invariant
            walk(current, tiles@) == walk(*loc, old(tiles)@),
        decreases tiles.len(),
    {
        match find_neighbor(&current, tiles) {
            None => {
                return false;
            },
            Some(i) => {
                if tiles[i].1 == EnemyTile::Finish {
                    return true;
                }
                current = tiles[i].0;
                tiles.remove(i);
            },
        }
    }
}

/// The validator on the path tiles in the order given: `None` without a
/// `Start` tile, else whether the walk from the first `Start` reaches a
/// `Finish`.
pub fn verify_path(tiles: Vec<(TileCoord, EnemyTile)>) -> (valid: Option<bool>)
    ensures
        valid == verdict(tiles@),
{
    let mut rest = tiles;
    match find_start(&rest) {
        None => None,
        Some(s) => {
            let start = rest.remove(s);
            Some(check_valid_neighbor(&start.0, &mut rest))
        },
    }
}

} // verus!
