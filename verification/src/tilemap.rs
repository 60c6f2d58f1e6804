//! The tile map store: coordinates, tile classifications and the sparse grid
//! that maps one to the other.

use std::collections::HashMap;
use vstd::prelude::*;
use vstd::std_specs::iter::IteratorSpec;

verus! {

broadcast use vstd::std_specs::hash::group_hash_axioms;

/// Side length of the square grid that a fresh map covers.
pub const MAP_SIZE: i32 = 12;

/// Integer coordinate of one tile.
#[derive(Debug, Clone, Copy, PartialEq, Eq, Hash, Structural)]
pub struct TileCoord {
    pub x: i32,
    pub y: i32,
}

/// Role of a tile that belongs to the enemy path.
#[derive(Debug, Clone, Copy, PartialEq, Eq, Hash, Structural)]
pub enum EnemyTile {
    Start,
    TopLeft,
    TopRight,
    BottomLeft,
    BottomRight,
    Horizontal,
    Vertical,
    Finish,
}

/// Kind of tower that stands on a tile.
#[derive(Debug, Clone, Copy, PartialEq, Eq, Hash, Structural)]
pub enum TowerType {
    T1,
    T2,
    T3,
}

/// Classification of a tile.
#[derive(Debug, Clone, Copy, PartialEq, Eq, Hash, Structural)]
pub enum TileType {
    EnemyMap(EnemyTile),
    Blocked,
    Free,
    Tower(TowerType),
}

/// Coordinate that a tile entity carries.
#[derive(Debug, Clone, Copy, PartialEq, Eq, Hash, Structural)]
pub struct TileLocation(pub TileCoord);

/// Life cycle of the displayed map.
#[derive(Debug, Clone, Copy, PartialEq, Eq, Hash, Structural)]
pub enum MapState {
    NotSpawned,
    Spawned,
    Reloaded,
    NeedsVerify,
    VerifyFailed,
}

/// Appearance class of a tile; the renderer turns it into a colour.
#[derive(Debug, Clone, Copy, PartialEq, Eq, Hash, Structural)]
pub enum TileColor {
    Enemy,
    Blocked,
    Ground,
}

impl Default for EnemyTile {
    fn default() -> (tile: Self)
        ensures
            tile == EnemyTile::Vertical,
    {
        EnemyTile::Vertical
    }
}

impl Default for TileType {
    fn default() -> (tile: Self)
        ensures
            tile == TileType::Free,
    {
        TileType::Free
    }
}

impl Default for MapState {
    fn default() -> (state: Self)
        ensures
            state == MapState::NotSpawned,
    {
        MapState::NotSpawned
    }
}

impl TileCoord {
    pub fn new(x: i32, y: i32) -> (coord: Self)
        ensures
            coord == (TileCoord { x, y }),
    {
        TileCoord { x, y }
    }

    /// Two coordinates are adjacent when they differ by exactly one step
    /// along exactly one axis.
    pub open spec fn adjacent(self, other: TileCoord) -> bool {
        ||| self.x == other.x && (self.y - other.y == 1 || other.y - self.y == 1)
        ||| self.y == other.y && (self.x - other.x == 1 || other.x - self.x == 1)
    }

    pub fn is_adjacent(&self, other: &TileCoord) -> (adjacent: bool)
        ensures
            adjacent == self.adjacent(*other),
    {
        let dx: i64 = self.x as i64 - other.x as i64;
        let dy: i64 = self.y as i64 - other.y as i64;
        (dx == 0 && (dy == 1 || dy == -1)) || (dy == 0 && (dx == 1 || dx == -1))
    }

    /// The integer under which the map stores this coordinate: both axes
    /// shifted to start at zero, `x` in the upper half of the word.
    pub closed spec fn spec_key(self) -> u64 {
        ((self.x - i32::MIN) * 0x1_0000_0000 + (self.y - i32::MIN)) as u64
    }

    pub closed spec fn spec_from_key(key: u64) -> TileCoord {
        TileCoord {
            x: (key / 0x1_0000_0000 + i32::MIN) as i32,
            y: (key % 0x1_0000_0000 + i32::MIN) as i32,
        }
    }

    pub(crate) fn key(&self) -> (key: u64)
        ensures
            key == self.spec_key(),
    {
        let kx: u64 = (self.x as i64 - i32::MIN as i64) as u64;
        let ky: u64 = (self.y as i64 - i32::MIN as i64) as u64;
        kx * 0x1_0000_0000 + ky
    }

    pub(crate) fn from_key(key: u64) -> (coord: TileCoord)
        ensures
            coord == Self::spec_from_key(key),
    {
        let kx: i64 = (key / 0x1_0000_0000) as i64;
        let ky: i64 = (key % 0x1_0000_0000) as i64;
        TileCoord { x: (kx + i32::MIN as i64) as i32, y: (ky + i32::MIN as i64) as i32 }
    }

    /// Keys and coordinates correspond one to one.
    pub(crate) proof fn lemma_key_of_coord(self)
        ensures
            Self::spec_from_key(self.spec_key()) == self,
    {
    }

    pub(crate) proof fn lemma_coord_of_key(key: u64)
        ensures
            Self::spec_from_key(key).spec_key() == key,
    {
    }
}

/// The grid that a fresh map of side `size` holds: every coordinate of the
/// square, each classified `Free`.
pub open spec fn free_grid(size: int) -> Map<TileCoord, TileType> {
    Map::new(|c: TileCoord| 0 <= c.x < size && 0 <= c.y < size, |c: TileCoord| TileType::Free)
}

/// The same coordinates as `tiles`, each classified `Free`.
pub open spec fn cleared(tiles: Map<TileCoord, TileType>) -> Map<TileCoord, TileType> {
    Map::new(|c: TileCoord| tiles.contains_key(c), |c: TileCoord| TileType::Free)
}

/// `tiles` classifies every coordinate of the square of side `size`.
pub open spec fn covers_grid(tiles: Map<TileCoord, TileType>, size: int) -> bool {
    forall|c: TileCoord| 0 <= c.x < size && 0 <= c.y < size ==> tiles.contains_key(c)
}

/// `listing` names every tile of `tiles` exactly once, in some order.
pub open spec fn lists_tiles(
    tiles: Map<TileCoord, TileType>,
    listing: Seq<(TileCoord, TileType)>,
) -> bool {
    &&& forall|i: int, j: int|
        0 <= i < j < listing.len() ==> (#[trigger] listing[i]).0 != (#[trigger] listing[j]).0
    &&& forall|i: int|
        0 <= i < listing.len() ==> tiles.contains_key((#[trigger] listing[i]).0)
            && tiles[listing[i].0] == listing[i].1
    &&& forall|c: TileCoord| #[trigger]
        tiles.contains_key(c) ==> exists|i: int|
            0 <= i < listing.len() && (#[trigger] listing[i]).0 == c
}

/// `listing` names every tile of `tiles` that belongs to the enemy path
/// exactly once, with its role, in some order.
pub open spec fn lists_path_tiles(
    tiles: Map<TileCoord, TileType>,
    listing: Seq<(TileCoord, EnemyTile)>,
) -> bool {
    &&& forall|i: int, j: int|
        0 <= i < j < listing.len() ==> (#[trigger] listing[i]).0 != (#[trigger] listing[j]).0
    &&& forall|i: int|
        0 <= i < listing.len() ==> tiles.contains_key((#[trigger] listing[i]).0)
            && tiles[listing[i].0] == TileType::EnemyMap(listing[i].1)
    &&& forall|c: TileCoord| #[trigger]
        tiles.contains_key(c) && tiles[c] is EnemyMap ==> exists|i: int|
            0 <= i < listing.len() && (#[trigger] listing[i]).0 == c
}

spec fn coord_view(tiles: Map<u64, TileType>) -> Map<TileCoord, TileType> {
    Map::new(
        |c: TileCoord| tiles.contains_key(c.spec_key()),
        |c: TileCoord| tiles[c.spec_key()],
    )
}

proof fn lemma_coord_view_insert(tiles: Map<u64, TileType>, coord: TileCoord, tile: TileType)
    ensures
        coord_view(tiles.insert(coord.spec_key(), tile)) == coord_view(tiles).insert(coord, tile),
{
    assert forall|c: TileCoord| c.spec_key() == coord.spec_key() implies c == coord by {
        c.lemma_key_of_coord();
        coord.lemma_key_of_coord();
    }
    assert(coord_view(tiles.insert(coord.spec_key(), tile)) =~= coord_view(tiles).insert(
        coord,
        tile,
    ));
}

/// The sparse grid: one classification for each coordinate that it holds.
#[derive(Debug)]
pub struct GameTilemap {
    tiles: HashMap<u64, TileType>,
}

impl View for GameTilemap {
    type V = Map<TileCoord, TileType>;

    closed spec fn view(&self) -> Map<TileCoord, TileType> {
        coord_view(self.tiles@)
    }
}

impl Default for GameTilemap {
    fn default() -> (gtm: Self)
        ensures
            gtm@ == Map::<TileCoord, TileType>::empty(),
    {
        let gtm = GameTilemap { tiles: HashMap::new() };
        assert(gtm@ =~= Map::<TileCoord, TileType>::empty());
        gtm
    }
}

impl Clone for GameTilemap {
    fn clone(&self) -> (gtm: Self)
        ensures
            gtm@ == self@,
    {
        GameTilemap { tiles: self.tiles.clone() }
    }
}

impl GameTilemap {
    /// A map that covers the square of side `size`, every tile `Free`.
    pub fn new(size: i32) -> (gtm: Self)
        ensures
            gtm@ == free_grid(size as int),
    {
        let mut tiles: HashMap<u64, TileType> = HashMap::new();
        let mut i: i32 = 0;
        while i < size
            invariant
                0 <= i,
                i <= size || size < 0,
                coord_view(tiles@) =~= Map::new(
                    |c: TileCoord| 0 <= c.x < i && 0 <= c.y < size,
                    |c: TileCoord| TileType::Free,
                ),
            decreases size - i,
        {
            let mut j: i32 = 0;
            while j < size
                invariant
                    0 <= i < size,
                    0 <= j <= size,
                    coord_view(tiles@) =~= Map::new(
                        |c: TileCoord|
                            0 <= c.y < size && (0 <= c.x < i || (c.x == i && 0 <= c.y < j)),
                        |c: TileCoord| TileType::Free,
                    ),
                decreases size - j,
            {
                let coord = TileCoord::new(i, j);
                proof {
                    lemma_coord_view_insert(tiles@, coord, TileType::Free);
                }
                tiles.insert(coord.key(), TileType::Free);
                j = j + 1;
            }
            i = i + 1;
        }
        GameTilemap { tiles }
    }

    /// The classification of `coord`, if the map holds that coordinate.
    pub fn get(&self, coord: &TileCoord) -> (tile: Option<TileType>)
        ensures
            tile == (if self@.contains_key(*coord) {
                Some(self@[*coord])
            } else {
                None
            }),
    {
        let key = coord.key();
        match self.tiles.get(&key) {
            Some(tile) => Some(*tile),
            None => None,
        }
    }

    pub fn contains(&self, coord: &TileCoord) -> (held: bool)
        ensures
            held == self@.contains_key(*coord),
    {
        let key = coord.key();
        self.tiles.contains_key(&key)
    }

    /// Classifies `coord` as `tile`, and hands back what it was before.
    pub fn insert(&mut self, coord: TileCoord, tile: TileType) -> (previous: Option<TileType>)
        ensures
            final(self)@ == old(self)@.insert(coord, tile),
            previous == (if old(self)@.contains_key(coord) {
                Some(old(self)@[coord])
            } else {
                None
            }),
    {
        proof {
            lemma_coord_view_insert(self.tiles@, coord, tile);
        }
        self.tiles.insert(coord.key(), tile)
    }

    /// Sets every tile of the map to `Free`; the map keeps its coordinates.
    pub fn reset_map(&mut self)
        ensures
            final(self)@ == cleared(old(self)@),
    {
        let mut fresh: HashMap<u64, TileType> = HashMap::new();
        for entry in it: self.tiles.iter()
            invariant
                it.seq() == self.tiles.iter().remaining(),
                forall|k: u64| #[trigger]
                    fresh@.contains_key(k) <==> exists|i: int|
                        0 <= i < it.index() && *(#[trigger] it.seq()[i]).0 == k,
                forall|k: u64| #[trigger] fresh@.contains_key(k) ==> fresh@[k] == TileType::Free,
        {
            let (key, _tile) = entry;
            fresh.insert(*key, TileType::Free);
        }
        proof {
            let listing = self.tiles.iter().remaining();
            assert forall|k: u64| fresh@.contains_key(k) == self.tiles@.contains_key(k) by {
                if self.tiles@.contains_key(k) {
                    assert(listing.contains((&k, &self.tiles@[k])));
                    let i = choose|i: int|
                        0 <= i < listing.len() && listing[i] == (&k, &self.tiles@[k]);
                    assert(*listing[i].0 == k);
                }
                if fresh@.contains_key(k) {
                    let i = choose|i: int| 0 <= i < listing.len() && *(#[trigger] listing[i]).0 == k;
                    assert(self.tiles@.contains_key(*listing[i].0));
                }
            }
            assert(coord_view(fresh@) =~= cleared(coord_view(self.tiles@)));
        }
        self.tiles = fresh;
    }

    /// Every tile of the map with its coordinate, each once. The order is
    /// that in which the underlying table hands its entries out.
    pub fn entries(&self) -> (listing: Vec<(TileCoord, TileType)>)
        ensures
            lists_tiles(self@, listing@),
    {
        let mut listing: Vec<(TileCoord, TileType)> = Vec::new();
        for entry in it: self.tiles.iter()
            invariant
                it.seq() == self.tiles.iter().remaining(),
                listing@.len() == it.index(),
                forall|i: int|
                    0 <= i < listing@.len() ==> (#[trigger] listing@[i]).0
                        == TileCoord::spec_from_key(*it.seq()[i].0) && listing@[i].1
                        == *it.seq()[i].1,
        {
            let (key, tile) = entry;
            listing.push((TileCoord::from_key(*key), *tile));
        }
        proof {
            let table = self.tiles.iter().remaining();
            assert(table.no_duplicates());
            assert forall|i: int, j: int| 0 <= i < j < listing@.len() implies (#[trigger] listing@[i]).0
                != (#[trigger] listing@[j]).0 by {
                TileCoord::lemma_coord_of_key(*table[i].0);
                TileCoord::lemma_coord_of_key(*table[j].0);
                assert(self.tiles@.contains_key(*table[i].0));
                assert(self.tiles@.contains_key(*table[j].0));
                if *table[i].0 == *table[j].0 {
                    assert(*table[i].1 == *table[j].1);
                    assert(table[i] == table[j]);
                }
            }
            assert forall|i: int| 0 <= i < listing@.len() implies self@.contains_key(
                (#[trigger] listing@[i]).0,
            ) && self@[listing@[i].0] == listing@[i].1 by {
                TileCoord::lemma_coord_of_key(*table[i].0);
                assert(self.tiles@.contains_key(*table[i].0));
            }
            assert forall|c: TileCoord| #[trigger] self@.contains_key(c) implies exists|i: int|
                0 <= i < listing@.len() && (#[trigger] listing@[i]).0 == c by {
                let k = c.spec_key();
                assert(table.contains((&k, &self.tiles@[k])));
                let i = choose|i: int| 0 <= i < table.len() && table[i] == (&k, &self.tiles@[k]);
                c.lemma_key_of_coord();
                assert(listing@[i].0 == c);
            }
        }
        listing
    }

    /// The tiles of the enemy path with their roles, each once, in the order
    /// in which `entries` hands them out.
    pub fn enemy_tiles(&self) -> (listing: Vec<(TileCoord, EnemyTile)>)
        ensures
            lists_path_tiles(self@, listing@),
    {
        let entries = self.entries();
        let mut listing: Vec<(TileCoord, EnemyTile)> = Vec::new();
        let ghost mut source: Seq<int> = Seq::empty();
        let mut i: usize = 0;
        while i < entries.len()
            invariant
                0 <= i <= entries.len(),
                lists_tiles(self@, entries@),
                source.len() == listing@.len(),
                forall|a: int| 0 <= a < source.len() ==> 0 <= #[trigger] source[a] < i,
                forall|a: int, b: int| 0 <= a < b < source.len() ==> source[a] < source[b],
                forall|a: int|
                    0 <= a < listing@.len() ==> entries@[source[a]] == ((#[trigger] listing@[a]).0, TileType::EnemyMap(
                        listing@[a].1,
                    )),
                forall|b: int|
                    0 <= b < i && (#[trigger] entries@[b]).1 is EnemyMap ==> exists|a: int|
                        0 <= a < source.len() && #[trigger] source[a] == b,
            decreases entries.len() - i,
        {
            let (coord, tile) = entries[i];
            match tile {
                TileType::EnemyMap(role) => {
                    listing.push((coord, role));
                    proof {
                        let ghost before = source;
                        source = source.push(i as int);
                        assert forall|b: int|
                            0 <= b < i + 1 && (#[trigger] entries@[b]).1 is EnemyMap implies exists|
                            a: int,
                        | 0 <= a < source.len() && #[trigger] source[a] == b by {
                            if b < i {
                                let a = choose|a: int|
                                    0 <= a < before.len() && #[trigger] before[a] == b;
                                assert(source[a] == b);
                            } else {
                                assert(source[source.len() - 1] == b);
                            }
                        }
                    }
                },
                _ => {},
            }
            i = i + 1;
        }
        proof {
            assert forall|a: int, b: int| 0 <= a < b < listing@.len() implies (#[trigger] listing@[a]).0
                != (#[trigger] listing@[b]).0 by {
                assert(entries@[source[a]].0 != entries@[source[b]].0);
            }
            assert forall|a: int| 0 <= a < listing@.len() implies self@.contains_key(
                (#[trigger] listing@[a]).0,
            ) && self@[listing@[a].0] == TileType::EnemyMap(listing@[a].1) by {
                assert(self@.contains_key(entries@[source[a]].0));
            }
            assert forall|c: TileCoord| #[trigger]
                self@.contains_key(c) && self@[c] is EnemyMap implies exists|a: int|
                0 <= a < listing@.len() && (#[trigger] listing@[a]).0 == c by {
                let b = choose|b: int| 0 <= b < entries@.len() && (#[trigger] entries@[b]).0 == c;
                assert(entries@[b].1 is EnemyMap);
                let a = choose|a: int| 0 <= a < source.len() && #[trigger] source[a] == b;
                assert(listing@[a].0 == c);
            }
        }
        listing
    }
}

/// A cleared map holds the coordinates that it held before, every one of
/// them classified `Free`; so a map that covered the grid still covers it,
/// all of it free. Clearing a second time changes nothing.
pub proof fn lemma_cleared_is_free(tiles: Map<TileCoord, TileType>, size: int)
    ensures
        forall|c: TileCoord| cleared(tiles).contains_key(c) <==> tiles.contains_key(c),
        forall|c: TileCoord| tiles.contains_key(c) ==> cleared(tiles)[c] == TileType::Free,
        covers_grid(tiles, size) ==> covers_grid(cleared(tiles), size),
        covers_grid(tiles, size) ==> forall|c: TileCoord|
            0 <= c.x < size && 0 <= c.y < size ==> cleared(tiles).contains_key(c) && cleared(
                tiles,
            )[c] == TileType::Free,
        cleared(cleared(tiles)) == cleared(tiles),
        cleared(free_grid(size)) == free_grid(size),
{
    assert(cleared(cleared(tiles)) =~= cleared(tiles));
    assert(cleared(free_grid(size)) =~= free_grid(size));
}

/// `coord` is a tile of the enemy path.
pub open spec fn on_path(tiles: Map<TileCoord, TileType>, coord: TileCoord) -> bool {
    tiles.contains_key(coord) && tiles[coord] is EnemyMap
}

/// The colour class in which a tile of classification `tile` is drawn.
pub open spec fn tile_color(tile: TileType) -> TileColor {
    match tile {
        TileType::EnemyMap(_) => TileColor::Enemy,
        TileType::Blocked => TileColor::Blocked,
        TileType::Free => TileColor::Ground,
        TileType::Tower(_) => TileColor::Ground,
    }
}

/// The colour class in which a tile is drawn when the map is first put on
/// screen: path tiles stand out, every other tile is ground.
pub open spec fn spawn_color(tile: TileType) -> TileColor {
    match tile {
        TileType::EnemyMap(_) => TileColor::Enemy,
        _ => TileColor::Ground,
    }
}

impl TileType {
    /// The colour class of this classification.
    pub fn color(&self) -> (color: TileColor)
        ensures
            color == tile_color(*self),
    {
        match self {
            TileType::EnemyMap(_) => TileColor::Enemy,
            TileType::Blocked => TileColor::Blocked,
            TileType::Free => TileColor::Ground,
            TileType::Tower(_) => TileColor::Ground,
        }
    }
}

/// The colour of a tile under the pointer, and whether the hover shade is
/// laid over it: blocked tiles keep their plain colour.
pub fn recolor(tile: &TileType) -> (shade: (TileColor, bool))
    ensures
        shade.0 == tile_color(*tile),
        shade.1 == (*tile != TileType::Blocked),
{
    match tile {
        TileType::EnemyMap(_) => (TileColor::Enemy, true),
        TileType::Blocked => (TileColor::Blocked, false),
        _ => (TileColor::Ground, true),
    }
}

/// The route of the enemies, as far as it is known; its first tile is where
/// they appear.
#[derive(Debug, Clone)]
pub struct EnemyPath(pub Option<Vec<TileCoord>>);

/// The route that a new game starts with.
pub open spec fn default_path() -> Seq<TileCoord> {
    seq![
        TileCoord { x: 1, y: 1 },
        TileCoord { x: 1, y: 2 },
        TileCoord { x: 1, y: 3 },
        TileCoord { x: 1, y: 4 },
        TileCoord { x: 1, y: 5 },
        TileCoord { x: 2, y: 5 },
        TileCoord { x: 2, y: 6 },
        TileCoord { x: 3, y: 6 },
        TileCoord { x: 4, y: 6 },
        TileCoord { x: 5, y: 6 },
        TileCoord { x: 5, y: 7 },
        TileCoord { x: 5, y: 8 },
        TileCoord { x: 6, y: 8 },
        TileCoord { x: 7, y: 8 },
        TileCoord { x: 8, y: 8 },
    ]
}

/// The role that the tile at place `index` of a route of `len` tiles gets:
/// the first is the start, the last the finish, all between are plain.
pub open spec fn route_role(len: int, index: int) -> EnemyTile {
    if index == 0 {
        EnemyTile::Start
    } else if index == len - 1 {
        EnemyTile::Finish
    } else {
        EnemyTile::Vertical
    }
}

/// `after` is `before` with the route `path` laid over it: every tile of
/// the route is a path tile with the role of its place, all other tiles are
/// as they were. A coordinate that the route visits more than once has the
/// role of the last visit.
pub open spec fn routed(
    before: Map<TileCoord, TileType>,
    path: Seq<TileCoord>,
    after: Map<TileCoord, TileType>,
) -> bool {
    &&& forall|c: TileCoord| #[trigger]
        after.contains_key(c) <==> before.contains_key(c) || path.contains(c)
    &&& forall|c: TileCoord|
        before.contains_key(c) && !path.contains(c) ==> #[trigger] after[c] == before[c]
    &&& forall|i: int|
        0 <= i < path.len() && (forall|j: int| i < j < path.len() ==> path[j] != path[i])
            ==> after[#[trigger] path[i]] == TileType::EnemyMap(
            route_role(path.len() as int, i),
        )
}

impl EnemyPath {
    pub fn default_route() -> (path: Vec<TileCoord>)
        ensures
            path@ == default_path(),
    {
        let mut path: Vec<TileCoord> = Vec::new();
        path.push(TileCoord::new(1, 1));
        path.push(TileCoord::new(1, 2));
        path.push(TileCoord::new(1, 3));
        path.push(TileCoord::new(1, 4));
        path.push(TileCoord::new(1, 5));
        path.push(TileCoord::new(2, 5));
        path.push(TileCoord::new(2, 6));
        path.push(TileCoord::new(3, 6));
        path.push(TileCoord::new(4, 6));
        path.push(TileCoord::new(5, 6));
        path.push(TileCoord::new(5, 7));
        path.push(TileCoord::new(5, 8));
        path.push(TileCoord::new(6, 8));
        path.push(TileCoord::new(7, 8));
        path.push(TileCoord::new(8, 8));
        assert(path@ =~= default_path());
        path
    }
}

/// Lays the enemies' route over the map. An unknown route becomes the
/// default route first.
pub fn setup_tilemap(gtm: &mut GameTilemap, enemy_path: &mut EnemyPath)
    ensures
        final(enemy_path).0 is Some,
        final(enemy_path).0->0@ == (match old(enemy_path).0 {
            Some(path) => path@,
            None => default_path(),
        }),
        routed(old(gtm)@, final(enemy_path).0->0@, final(gtm)@),
{
    if enemy_path.0.is_none() {
        enemy_path.0 = Some(EnemyPath::default_route());
    }
    let ghost before = gtm@;
    match &enemy_path.0 {
        Some(path) => {
            let len = path.len();
            let mut idx: usize = 0;
            while idx < len
                invariant
                    0 <= idx <= len,
                    len == path@.len(),
                    forall|c: TileCoord| #[trigger]
                        gtm@.contains_key(c) <==> before.contains_key(c) || exists|i: int|
                            0 <= i < idx && path@[i] == c,
                    forall|c: TileCoord|
                        before.contains_key(c) && !(exists|i: int| 0 <= i < idx && path@[i] == c)
                            ==> #[trigger] gtm@[c] == before[c],
                    forall|i: int|
                        0 <= i < idx && (forall|j: int| i < j < idx ==> path@[j] != path@[i])
                            ==> gtm@[#[trigger] path@[i]] == TileType::EnemyMap(
                            route_role(len as int, i),
                        ),
                decreases len - idx,
            {
                let role = if idx == 0 {
                    EnemyTile::Start
                } else if idx == len - 1 {
                    EnemyTile::Finish
                } else {
                    EnemyTile::Vertical
                };
                gtm.insert(path[idx], TileType::EnemyMap(role));
                idx = idx + 1;
            }
        },
        None => {},
    }
}

/// The map `before` after it took over the map `loaded`: it holds the
/// coordinates of both; a coordinate of `loaded` has its classification
/// there, every other coordinate is `Free`.
pub open spec fn overlaid(
    before: Map<TileCoord, TileType>,
    loaded: Map<TileCoord, TileType>,
) -> Map<TileCoord, TileType> {
    Map::new(
        |c: TileCoord| before.contains_key(c) || loaded.contains_key(c),
        |c: TileCoord|
            if loaded.contains_key(c) {
                loaded[c]
            } else {
                TileType::Free
            },
    )
}

/// Takes over a map that was loaded. The map keeps every coordinate that it
/// holds and gains those of `loaded_map`; a coordinate of `loaded_map` takes
/// its classification from there, every other one becomes `Free`. The
/// enemies' route lists the path tiles of the new map, each once, in no
/// particular order, and the map is due for validation.
pub fn update_gametilemap(
    gtm: &mut GameTilemap,
    enemy_path: &mut EnemyPath,
    loaded_map: &GameTilemap,
) -> (next: MapState)
    ensures
        final(gtm)@ == overlaid(old(gtm)@, loaded_map@),
        covers_grid(old(gtm)@, MAP_SIZE as int) ==> covers_grid(final(gtm)@, MAP_SIZE as int),
        next == MapState::NeedsVerify,
        final(enemy_path).0 is Some,
        final(enemy_path).0->0@.no_duplicates(),
        forall|c: TileCoord|
            final(enemy_path).0->0@.contains(c) <==> on_path(final(gtm)@, c),
{
    let ghost before = gtm@;
    gtm.reset_map();
    let entries = loaded_map.entries();
    let mut k: usize = 0;
    while k < entries.len()
        invariant
            0 <= k <= entries.len(),
            lists_tiles(loaded_map@, entries@),
            forall|c: TileCoord| #[trigger]
                gtm@.contains_key(c) <==> before.contains_key(c) || exists|j: int|
                    0 <= j < k && (#[trigger] entries@[j]).0 == c,
            forall|c: TileCoord| #[trigger]
                gtm@.contains_key(c) ==> gtm@[c] == (if exists|j: int|
                    0 <= j < k && (#[trigger] entries@[j]).0 == c {
                    loaded_map@[c]
                } else {
                    TileType::Free
                }),
        decreases entries.len() - k,
    {
        gtm.insert(entries[k].0, entries[k].1);
        k = k + 1;
    }
    proof {
        assert forall|c: TileCoord| loaded_map@.contains_key(c) <==> exists|j: int|
            0 <= j < entries@.len() && (#[trigger] entries@[j]).0 == c by {
            if exists|j: int| 0 <= j < entries@.len() && (#[trigger] entries@[j]).0 == c {
                let j = choose|j: int| 0 <= j < entries@.len() && (#[trigger] entries@[j]).0 == c;
                assert(loaded_map@.contains_key(entries@[j].0));
            }
        }
        assert(gtm@ =~= overlaid(before, loaded_map@));
    }
    let tiles = gtm.enemy_tiles();
    let mut path: Vec<TileCoord> = Vec::new();
    let mut i: usize = 0;
    while i < tiles.len()
        invariant
            0 <= i <= tiles.len(),
            path@.len() == i,
            forall|j: int| 0 <= j < i ==> #[trigger] path@[j] == tiles@[j].0,
        decreases tiles.len() - i,
    {
        path.push(tiles[i].0);
        i = i + 1;
    }
    proof {
        assert forall|a: int, b: int| 0 <= a < b < path@.len() implies path@[a] != path@[b] by {
            assert(tiles@[a].0 != tiles@[b].0);
        }
        assert forall|c: TileCoord| path@.contains(c) <==> on_path(gtm@, c) by {
            if path@.contains(c) {
                let j = choose|j: int| 0 <= j < path@.len() && path@[j] == c;
                assert(gtm@.contains_key(tiles@[j].0));
            }
            if on_path(gtm@, c) {
                let j = choose|j: int| 0 <= j < tiles@.len() && (#[trigger] tiles@[j]).0 == c;
                assert(path@[j] == c);
            }
        }
    }
    enemy_path.0 = Some(path);
    MapState::NeedsVerify
}

/// Taking over a loaded map loses no coordinate, so a map that covered the
/// grid still covers it; and the path tiles of the new map are those of the
/// loaded one.
pub proof fn lemma_overlaid_keeps_grid(
    before: Map<TileCoord, TileType>,
    loaded: Map<TileCoord, TileType>,
    size: int,
)
    ensures
        forall|c: TileCoord| before.contains_key(c) ==> overlaid(before, loaded).contains_key(c),
        covers_grid(before, size) ==> covers_grid(overlaid(before, loaded), size),
        forall|c: TileCoord| on_path(overlaid(before, loaded), c) <==> on_path(loaded, c),
        (forall|c: TileCoord| before.contains_key(c) ==> loaded.contains_key(c)) ==> overlaid(
            before,
            loaded,
        ) == loaded,
{
    if forall|c: TileCoord| before.contains_key(c) ==> loaded.contains_key(c) {
        assert(overlaid(before, loaded) =~= loaded);
    }
}

/// The map's tiles as they are to be put on screen, and the state that the
/// map enters: each tile once with its coordinate, classification and
/// colour, and `Spawned` once a tile was put out. Nothing where the map is
/// on screen already.
pub fn spawn_map(gtm: &GameTilemap, map_state: &MapState) -> (spawned: (
    Vec<(TileLocation, TileType, TileColor)>,
    Option<MapState>,
))
    ensures
        *map_state == MapState::Spawned ==> spawned.0@.len() == 0,
        *map_state != MapState::Spawned ==> lists_tiles(
            gtm@,
            spawned.0@.map_values(|t: (TileLocation, TileType, TileColor)| (t.0.0, t.1)),
        ),
        forall|i: int|
            0 <= i < spawned.0@.len() ==> (#[trigger] spawned.0@[i]).2 == spawn_color(
                spawned.0@[i].1,
            ),
        spawned.1 == (if spawned.0@.len() > 0 {
            Some(MapState::Spawned)
        } else {
            None
        }),
{
    let mut tiles: Vec<(TileLocation, TileType, TileColor)> = Vec::new();
    match map_state {
        MapState::Spawned => {
            return (tiles, None);
        },
        _ => {},
    }
    let entries = gtm.entries();
    let mut i: usize = 0;
    while i < entries.len()
        invariant
            0 <= i <= entries.len(),
            tiles@.len() == i,
            forall|j: int|
                0 <= j < i ==> (#[trigger] tiles@[j]).0.0 == entries@[j].0 && tiles@[j].1
                    == entries@[j].1 && tiles@[j].2 == spawn_color(entries@[j].1),
        decreases entries.len() - i,
    {
        let (coord, tile) = entries[i];
        let color = match tile {
            TileType::EnemyMap(_) => TileColor::Enemy,
            _ => TileColor::Ground,
        };
        tiles.push((TileLocation(coord), tile, color));
        i = i + 1;
    }
    assert(tiles@.map_values(|t: (TileLocation, TileType, TileColor)| (t.0.0, t.1)) =~= entries@);
    let next = if tiles.len() > 0 {
        Some(MapState::Spawned)
    } else {
        None
    };
    (tiles, next)
}

/// Brings the tiles on screen in line with the map: for the tile entity at
/// each of `locations`, the classification that it takes over from the map
/// and its colour; and the state that the map enters.
pub fn update_tile_colors(gtm: &GameTilemap, locations: &Vec<TileLocation>) -> (updated: (
    Vec<(TileType, TileColor)>,
    MapState,
))
    requires
        forall|i: int| 0 <= i < locations@.len() ==> gtm@.contains_key((#[trigger] locations@[i]).0),
    ensures
        updated.0@.len() == locations@.len(),
        forall|i: int|
            0 <= i < locations@.len() ==> #[trigger] updated.0@[i] == (
                gtm@[locations@[i].0],
                tile_color(gtm@[locations@[i].0]),
            ),
        updated.1 == MapState::Spawned,
{
    let mut tiles: Vec<(TileType, TileColor)> = Vec::new();
    let mut i: usize = 0;
    while i < locations.len()
        invariant
            0 <= i <= locations.len(),
            tiles@.len() == i,
            forall|j: int|
                0 <= j < locations@.len() ==> gtm@.contains_key((#[trigger] locations@[j]).0),
            forall|j: int|
                0 <= j < i ==> #[trigger] tiles@[j] == (
                    gtm@[locations@[j].0],
                    tile_color(gtm@[locations@[j].0]),
                ),
        decreases locations.len() - i,
    {
        match gtm.get(&locations[i].0) {
            Some(tile) => {
                tiles.push((tile, tile.color()));
            },
            None => {},
        }
        i = i + 1;
    }
    (tiles, MapState::Spawned)
}

} // verus!
