//! The level editor: its palette buttons, the preview tile's state, saving,
//! loading and clearing the map, and the validation of a loaded map.

use crate::path::{verdict, verify_path};
use crate::path_laws::{
    connected, has_start, is_simple_chain, lemma_disconnected_is_invalid,
    lemma_no_start_no_verdict, lemma_simple_chain_is_valid,
};
use crate::tilemap::{
    cleared, covers_grid, lists_path_tiles, on_path, overlaid, tile_color, update_gametilemap,
    EnemyPath, EnemyTile, GameTilemap, MapState, TileColor, TileCoord, TileLocation, TileType,
    MAP_SIZE,
};
use crate::ui::{ButtonType, Interaction, MenuType, PreviousButtonState};
use crate::AppState;
use vstd::prelude::*;

verus! {

/// Life cycle of the preview tile that follows the pointer.
#[derive(Debug, Clone, Copy, PartialEq, Eq, Hash, Structural)]
pub enum MiniTileState {
    Spawned,
    NotSpawned,
    Despawn,
}

/// What can happen to the preview tile.
#[derive(Debug, Clone, Copy, PartialEq, Eq, Hash, Structural)]
pub enum MiniTileEvent {
    /// A classification was picked from the palette.
    Selected,
    /// The preview is to go.
    DespawnRequested,
    /// The preview has been taken off the screen.
    Despawned,
}

/// What a button of the editor asks for.
#[derive(Debug, Clone, Copy, PartialEq, Eq, Hash, Structural)]
pub enum EditorAction {
    /// Replace the preview tile by one of this classification.
    SelectTile(TileType),
    SaveMap,
    LoadMap,
    ClearMap,
}

impl Default for MiniTileState {
    fn default() -> (state: Self)
        ensures
            state == MiniTileState::NotSpawned,
    {
        MiniTileState::NotSpawned
    }
}

impl MiniTileState {
    /// The state after `event`. Picking a classification always puts a
    /// preview on screen. A request to remove it counts only while one is
    /// there, and its removal only when it was asked for.
    pub open spec fn after(self, event: MiniTileEvent) -> MiniTileState {
        match event {
            MiniTileEvent::Selected => MiniTileState::Spawned,
            MiniTileEvent::DespawnRequested => if self == MiniTileState::Spawned {
                MiniTileState::Despawn
            } else {
                self
            },
            MiniTileEvent::Despawned => if self == MiniTileState::Despawn {
                MiniTileState::NotSpawned
            } else {
                self
            },
        }
    }

    pub fn step(&self, event: &MiniTileEvent) -> (next: MiniTileState)
        ensures
            next == self.after(*event),
    {
        match (event, self) {
            (MiniTileEvent::Selected, _) => MiniTileState::Spawned,
            (MiniTileEvent::DespawnRequested, MiniTileState::Spawned) => MiniTileState::Despawn,
            (MiniTileEvent::Despawned, MiniTileState::Despawn) => MiniTileState::NotSpawned,
            _ => *self,
        }
    }
}

/// What a button of type `button_type` asks of the editor under
/// `interaction`, `previous` being its interaction in the frame before. Only
/// a press asks for anything; loading and clearing ask once for each press,
/// however long the button is held.
pub open spec fn editor_action(
    button_type: ButtonType,
    interaction: Interaction,
    previous: PreviousButtonState,
) -> Option<EditorAction> {
    if interaction != Interaction::Pressed {
        None
    } else {
        match button_type {
            ButtonType::Editor(tile) => Some(EditorAction::SelectTile(tile)),
            ButtonType::Menu(MenuType::Save) => Some(EditorAction::SaveMap),
            ButtonType::Menu(MenuType::Load) => if previous.0 != Interaction::Pressed {
                Some(EditorAction::LoadMap)
            } else {
                None
            },
            ButtonType::Menu(MenuType::Clear) => if previous.0 != Interaction::Pressed {
                Some(EditorAction::ClearMap)
            } else {
                None
            },
            ButtonType::Menu(_) => None,
        }
    }
}

/// Decides what one button whose interaction changed asks of the editor.
/// The editor's buttons react in the application state `InEditor` only.
pub fn editor_buttons(
    app_state: &AppState,
    button_type: &ButtonType,
    interaction: &Interaction,
    previous: &PreviousButtonState,
) -> (action: Option<EditorAction>)
    ensures
        action == (if *app_state == AppState::InEditor {
            editor_action(*button_type, *interaction, *previous)
        } else {
            None
        }),
{
    match app_state {
        AppState::InEditor => {},
        _ => {
            return None;
        },
    }
    match interaction {
        Interaction::Pressed => {},
        _ => {
            return None;
        },
    }
    let held = match previous.0 {
        Interaction::Pressed => true,
        _ => false,
    };
    match button_type {
        ButtonType::Editor(tile) => Some(EditorAction::SelectTile(*tile)),
        ButtonType::Menu(MenuType::Save) => Some(EditorAction::SaveMap),
        ButtonType::Menu(MenuType::Load) => if held {
            None
        } else {
            Some(EditorAction::LoadMap)
        },
        ButtonType::Menu(MenuType::Clear) => if held {
            None
        } else {
            Some(EditorAction::ClearMap)
        },
        ButtonType::Menu(_) => None,
    }
}

/// A click on the tile at `location` while the editor holds a preview of
/// classification `selected`. With the preview on screen and the tile in
/// the map, the tile takes the preview's classification and the colour of
/// that classification is handed back. Otherwise nothing changes.
pub fn alter_tile(
    gtm: &mut GameTilemap,
    minitile_state: &MiniTileState,
    selected: &TileType,
    location: &TileLocation,
) -> (color: Option<TileColor>)
    ensures
        *minitile_state == MiniTileState::Spawned && old(gtm)@.contains_key(location.0) ==> color
            == Some(tile_color(*selected)) && final(gtm)@ == old(gtm)@.insert(
            location.0,
            *selected,
        ),
        !(*minitile_state == MiniTileState::Spawned && old(gtm)@.contains_key(location.0))
            ==> color is None && final(gtm)@ == old(gtm)@,
{
    match minitile_state {
        MiniTileState::Spawned => {},
        _ => {
            return None;
        },
    }
    if !gtm.contains(&location.0) {
        return None;
    }
    gtm.insert(location.0, *selected);
    Some(selected.color())
}

/// Clears the map: every tile becomes `Free`, the map keeps its
/// coordinates.
pub fn clear_map(gtm: &mut GameTilemap)
    ensures
        final(gtm)@ == cleared(old(gtm)@),
{
    gtm.reset_map();
}

/// The verdict of the validator as a state of the map.
pub open spec fn verdict_state(valid: Option<bool>) -> Option<MapState> {
    match valid {
        None => None,
        Some(true) => Some(MapState::Reloaded),
        Some(false) => Some(MapState::VerifyFailed),
    }
}

/// Validates the enemy path of a map that is due for it, and hands back
/// the state that the map enters: `Reloaded` where the walk from the start
/// tile reaches the finish, `VerifyFailed` where it does not. Nothing where
/// the map is not due for validation, and nothing where it has no start
/// tile.
///
/// The walk goes over the path tiles in the order in which the map hands
/// them out, so on a map whose path branches the answer can depend on that
/// order. It does not on the maps of the last three clauses.
pub fn map_verify(map_state: &MapState, gtm: &GameTilemap) -> (next: Option<MapState>)
    ensures
        *map_state != MapState::NeedsVerify ==> next is None,
        *map_state == MapState::NeedsVerify ==> exists|listing: Seq<(TileCoord, EnemyTile)>|
            lists_path_tiles(gtm@, listing) && next == verdict_state(#[trigger] verdict(listing)),
        *map_state == MapState::NeedsVerify ==> (next is None <==> !has_start(gtm@)),
        *map_state == MapState::NeedsVerify && (exists|chain: Seq<TileCoord>|
            is_simple_chain(gtm@, chain)) ==> next == Some(MapState::Reloaded),
        *map_state == MapState::NeedsVerify && has_start(gtm@) && !connected(gtm@) ==> next
            == Some(MapState::VerifyFailed),
{
    match map_state {
        MapState::NeedsVerify => {},
        _ => {
            return None;
        },
    }
    let tiles = gtm.enemy_tiles();
    proof {
        lemma_no_start_no_verdict(gtm@, tiles@);
        if exists|chain: Seq<TileCoord>| is_simple_chain(gtm@, chain) {
            let chain = choose|chain: Seq<TileCoord>| is_simple_chain(gtm@, chain);
            lemma_simple_chain_is_valid(gtm@, tiles@, chain);
        }
        if has_start(gtm@) && !connected(gtm@) {
            lemma_disconnected_is_invalid(gtm@, tiles@);
        }
    }
    match verify_path(tiles) {
        None => None,
        Some(true) => Some(MapState::Reloaded),
        Some(false) => Some(MapState::VerifyFailed),
    }
}

/// The saved form of a map: for each classification that occurs, the
/// coordinates of the tiles that have it.
#[derive(Debug)]
pub struct SavedTileMap {
    groups: Vec<(TileType, Vec<TileCoord>)>,
}

spec fn group_at(groups: Seq<(TileType, Vec<TileCoord>)>, tile: TileType, index: int) -> bool {
    0 <= index < groups.len() && groups[index].0 == tile
}

spec fn distinct_groups(groups: Seq<(TileType, Vec<TileCoord>)>) -> bool {
    forall|i: int, j: int|
        0 <= i < j < groups.len() ==> (#[trigger] groups[i]).0 != (#[trigger] groups[j]).0
}

spec fn groups_view(groups: Seq<(TileType, Vec<TileCoord>)>) -> Map<TileType, Seq<TileCoord>> {
    Map::new(
        |t: TileType| exists|i: int| group_at(groups, t, i),
        |t: TileType| groups[choose|i: int| group_at(groups, t, i)].1@,
    )
}

proof fn lemma_group_view(groups: Seq<(TileType, Vec<TileCoord>)>, tile: TileType, index: int)
    requires
        distinct_groups(groups),
        group_at(groups, tile, index),
    ensures
        groups_view(groups).contains_key(tile),
        groups_view(groups)[tile] == groups[index].1@,
{
    let chosen = choose|i: int| group_at(groups, tile, i);
    if chosen < index {
        assert(groups[chosen].0 != groups[index].0);
    }
    if index < chosen {
        assert(groups[index].0 != groups[chosen].0);
    }
}

impl View for SavedTileMap {
    type V = Map<TileType, Seq<TileCoord>>;

    closed spec fn view(&self) -> Map<TileType, Seq<TileCoord>> {
        groups_view(self.groups@)
    }
}

/// The coordinates saved under `tile`, none where the classification does
/// not occur.
pub open spec fn saved_group(saved: Map<TileType, Seq<TileCoord>>, tile: TileType) -> Seq<
    TileCoord,
> {
    if saved.contains_key(tile) {
        saved[tile]
    } else {
        Seq::empty()
    }
}

/// `listing` names every group of `saved` exactly once, in some order.
pub open spec fn lists_groups(
    saved: Map<TileType, Seq<TileCoord>>,
    listing: Seq<(TileType, Seq<TileCoord>)>,
) -> bool {
    &&& forall|i: int, j: int|
        0 <= i < j < listing.len() ==> (#[trigger] listing[i]).0 != (#[trigger] listing[j]).0
    &&& forall|i: int|
        0 <= i < listing.len() ==> saved.contains_key((#[trigger] listing[i]).0)
            && saved[listing[i].0] == listing[i].1
    &&& forall|t: TileType| #[trigger]
        saved.contains_key(t) ==> exists|i: int|
            0 <= i < listing.len() && (#[trigger] listing[i]).0 == t
}

fn copy_coords(coords: &Vec<TileCoord>) -> (copy: Vec<TileCoord>)
    ensures
        copy@ == coords@,
{
    let mut copy: Vec<TileCoord> = Vec::new();
    let mut i: usize = 0;
    while i < coords.len()
        invariant
            0 <= i <= coords.len(),
            copy@ == coords@.take(i as int),
        decreases coords.len() - i,
    {
        copy.push(coords[i]);
        assert(coords@.take(i as int + 1) =~= coords@.take(i as int).push(coords@[i as int]));
        i = i + 1;
    }
    assert(coords@.take(coords@.len() as int) =~= coords@);
    copy
}

impl SavedTileMap {
    #[verifier::type_invariant]
    spec fn well_formed(self) -> bool {
        distinct_groups(self.groups@)
    }

    /// A saved map without tiles.
    pub fn new() -> (saved: Self)
        ensures
            saved@ == Map::<TileType, Seq<TileCoord>>::empty(),
    {
        let saved = SavedTileMap { groups: Vec::new() };
        assert(saved@ =~= Map::<TileType, Seq<TileCoord>>::empty());
        saved
    }

    fn find(&self, tile: &TileType) -> (found: Option<usize>)
        ensures
            match found {
                Some(i) => group_at(self.groups@, *tile, i as int),
                None => forall|i: int| !group_at(self.groups@, *tile, i),
            },
    {
        let mut i: usize = 0;
        while i < self.groups.len()
            invariant
                0 <= i <= self.groups.len(),
                forall|j: int| 0 <= j < i ==> !group_at(self.groups@, *tile, j),
            decreases self.groups.len() - i,
        {
            if self.groups[i].0 == *tile {
                return Some(i);
            }
            i = i + 1;
        }
        None
    }

    /// The coordinates saved under `tile`, if the classification occurs.
    pub fn get(&self, tile: &TileType) -> (coords: Option<Vec<TileCoord>>)
        ensures
            match coords {
                Some(coords) => self@.contains_key(*tile) && coords@ == self@[*tile],
                None => !self@.contains_key(*tile),
            },
    {
        proof {
            use_type_invariant(self);
        }
        match self.find(tile) {
            Some(i) => {
                proof {
                    lemma_group_view(self.groups@, *tile, i as int);
                }
                Some(copy_coords(&self.groups[i].1))
            },
            None => None,
        }
    }

    /// Saves `coords` under `tile`, in place of what was saved under it.
    pub fn insert(&mut self, tile: TileType, coords: Vec<TileCoord>)
        ensures
            final(self)@ == old(self)@.insert(tile, coords@),
    {
        proof {
            use_type_invariant(&*self);
        }
        let ghost before = self.groups@;
        let ghost saved = coords@;
        let found = self.find(&tile);
        let mut groups: Vec<(TileType, Vec<TileCoord>)> = Vec::new();
        core::mem::swap(&mut groups, &mut self.groups);
        match found {
            Some(i) => {
                groups.set(i, (tile, coords));
            },
            None => {
                groups.push((tile, coords));
            },
        }
        proof {
            assert forall|a: int, b: int| 0 <= a < b < groups@.len() implies (#[trigger] groups@[a]).0
                != (#[trigger] groups@[b]).0 by {
                if b < before.len() {
                    assert(before[a].0 != before[b].0);
                } else {
                    assert(!group_at(before, tile, a));
                }
            }
            assert forall|t: TileType| #[trigger]
                groups_view(groups@).contains_key(t) <==> groups_view(before).insert(
                    tile,
                    saved,
                ).contains_key(t) by {
                if exists|i: int| group_at(groups@, t, i) {
                    let i = choose|i: int| group_at(groups@, t, i);
                    if t != tile {
                        assert(group_at(before, t, i));
                    }
                }
                if t != tile && exists|i: int| group_at(before, t, i) {
                    let i = choose|i: int| group_at(before, t, i);
                    assert(group_at(groups@, t, i));
                }
                if t == tile {
                    match found {
                        Some(i) => {
                            assert(group_at(groups@, t, i as int));
                        },
                        None => {
                            assert(group_at(groups@, t, groups@.len() - 1));
                        },
                    }
                }
            }
            assert forall|t: TileType| #[trigger]
                groups_view(groups@).contains_key(t) implies groups_view(groups@)[t]
                == groups_view(before).insert(tile, saved)[t] by {
                let i = choose|i: int| group_at(groups@, t, i);
                lemma_group_view(groups@, t, i);
                if t != tile {
                    assert(group_at(before, t, i));
                    lemma_group_view(before, t, i);
                } else {
                    match found {
                        Some(at) => {
                            lemma_group_view(groups@, t, at as int);
                        },
                        None => {
                            lemma_group_view(groups@, t, groups@.len() - 1);
                        },
                    }
                }
            }
            assert(groups_view(groups@) =~= groups_view(before).insert(tile, saved));
        }
        self.groups = groups;
    }

    /// Adds `coord` to the coordinates saved under `tile`.
    pub fn push(&mut self, tile: TileType, coord: TileCoord)
        ensures
            final(self)@ == old(self)@.insert(tile, saved_group(old(self)@, tile).push(coord)),
    {
        let mut coords = match self.get(&tile) {
            Some(coords) => coords,
            None => Vec::new(),
        };
        coords.push(coord);
        self.insert(tile, coords);
    }

    /// Every group with its classification, each once.
    pub fn groups(&self) -> (listing: Vec<(TileType, Vec<TileCoord>)>)
        ensures
            lists_groups(
                self@,
                listing@.map_values(|g: (TileType, Vec<TileCoord>)| (g.0, g.1@)),
            ),
    {
        proof {
            use_type_invariant(self);
        }
        let mut listing: Vec<(TileType, Vec<TileCoord>)> = Vec::new();
        let mut i: usize = 0;
        while i < self.groups.len()
            invariant
                0 <= i <= self.groups.len(),
                listing@.len() == i,
                forall|j: int|
                    0 <= j < i ==> (#[trigger] listing@[j]).0 == self.groups@[j].0 && listing@[j].1@
                        == self.groups@[j].1@,
            decreases self.groups.len() - i,
        {
            listing.push((self.groups[i].0, copy_coords(&self.groups[i].1)));
            i = i + 1;
        }
        proof {
            let shown = listing@.map_values(|g: (TileType, Vec<TileCoord>)| (g.0, g.1@));
            assert forall|a: int, b: int| 0 <= a < b < shown.len() implies (#[trigger] shown[a]).0
                != (#[trigger] shown[b]).0 by {
                assert(self.groups@[a].0 != self.groups@[b].0);
            }
            assert forall|a: int| 0 <= a < shown.len() implies self@.contains_key(
                (#[trigger] shown[a]).0,
            ) && self@[shown[a].0] == shown[a].1 by {
                assert(group_at(self.groups@, shown[a].0, a));
                lemma_group_view(self.groups@, shown[a].0, a);
            }
            assert forall|t: TileType| #[trigger] self@.contains_key(t) implies exists|a: int|
                0 <= a < shown.len() && (#[trigger] shown[a]).0 == t by {
                let a = choose|a: int| group_at(self.groups@, t, a);
                assert(shown[a].0 == t);
            }
        }
        listing
    }
}

/// The test whether a tile is classified `tile`.
pub open spec fn classified(tile: TileType) -> spec_fn((TileType, TileLocation)) -> bool {
    |entry: (TileType, TileLocation)| entry.0 == tile
}

/// The coordinate of a tile.
pub open spec fn coord_of() -> spec_fn((TileType, TileLocation)) -> TileCoord {
    |entry: (TileType, TileLocation)| entry.1.0
}

/// The coordinates of the tiles of `tiles` that are classified `tile`, in
/// the order of `tiles`.
pub open spec fn coords_of(tiles: Seq<(TileType, TileLocation)>, tile: TileType) -> Seq<
    TileCoord,
> {
    tiles.filter(classified(tile)).map_values(coord_of())
}

/// The saved form of the tiles `tiles`: each classification that occurs
/// among them, with the coordinates of its tiles.
pub open spec fn grouped(tiles: Seq<(TileType, TileLocation)>) -> Map<TileType, Seq<TileCoord>> {
    Map::new(
        |t: TileType| exists|i: int| 0 <= i < tiles.len() && (#[trigger] tiles[i]).0 == t,
        |t: TileType| coords_of(tiles, t),
    )
}

/// `saved` lists `coord` under some classification.
pub open spec fn listed(saved: Map<TileType, Seq<TileCoord>>, coord: TileCoord) -> bool {
    exists|t: TileType| saved.contains_key(t) && #[trigger] saved[t].contains(coord)
}

/// `tiles` is a map that `saved` stands for: it holds the coordinates that
/// `saved` lists, each with a classification under which `saved` lists it.
/// Where `saved` lists no coordinate under two classifications, there is
/// one such map.
pub open spec fn loaded_from(
    saved: Map<TileType, Seq<TileCoord>>,
    tiles: Map<TileCoord, TileType>,
) -> bool {
    &&& forall|c: TileCoord| #[trigger] tiles.contains_key(c) <==> listed(saved, c)
    &&& forall|c: TileCoord| #[trigger]
        tiles.contains_key(c) ==> saved.contains_key(tiles[c]) && saved[tiles[c]].contains(c)
}

/// `after` is the map `before` with `saved` loaded into it: it holds every
/// coordinate that `before` held and every one that `saved` lists; a listed
/// coordinate has a classification under which `saved` lists it, and a
/// coordinate that `saved` does not list is `Free`.
pub open spec fn loaded_over(
    before: Map<TileCoord, TileType>,
    saved: Map<TileType, Seq<TileCoord>>,
    after: Map<TileCoord, TileType>,
) -> bool {
    &&& forall|c: TileCoord| #[trigger]
        after.contains_key(c) <==> before.contains_key(c) || listed(saved, c)
    &&& forall|c: TileCoord| #[trigger]
        after.contains_key(c) && listed(saved, c) ==> saved.contains_key(after[c])
            && saved[after[c]].contains(c)
    &&& forall|c: TileCoord| #[trigger]
        after.contains_key(c) && !listed(saved, c) ==> after[c] == TileType::Free
}

/// `listing` names every tile of `tiles` exactly once, in some order.
pub open spec fn describes(
    listing: Seq<(TileType, TileLocation)>,
    tiles: Map<TileCoord, TileType>,
) -> bool {
    &&& forall|i: int, j: int|
        0 <= i < j < listing.len() ==> (#[trigger] listing[i]).1 != (#[trigger] listing[j]).1
    &&& forall|i: int|
        0 <= i < listing.len() ==> tiles.contains_key((#[trigger] listing[i]).1.0)
            && tiles[listing[i].1.0] == listing[i].0
    &&& forall|c: TileCoord| #[trigger]
        tiles.contains_key(c) ==> exists|i: int|
            0 <= i < listing.len() && (#[trigger] listing[i]).1.0 == c
}

proof fn lemma_coords_of_push(
    tiles: Seq<(TileType, TileLocation)>,
    entry: (TileType, TileLocation),
    tile: TileType,
)
    ensures
        coords_of(tiles.push(entry), tile) == (if entry.0 == tile {
            coords_of(tiles, tile).push(entry.1.0)
        } else {
            coords_of(tiles, tile)
        }),
{
    tiles.lemma_filter_push(entry, classified(tile));
    if entry.0 == tile {
        tiles.filter(classified(tile)).lemma_push_map_commute(coord_of(), entry);
    }
}

/// The coordinates listed under a classification are those of the tiles
/// that have it.
proof fn lemma_coords_of_contains(
    tiles: Seq<(TileType, TileLocation)>,
    tile: TileType,
    coord: TileCoord,
)
    ensures
        coords_of(tiles, tile).contains(coord) <==> exists|i: int|
            0 <= i < tiles.len() && #[trigger] tiles[i] == (tile, TileLocation(coord)),
    decreases tiles.len(),
{
    if tiles.len() == 0 {
        reveal(Seq::filter);
        assert(coords_of(tiles, tile) =~= Seq::<TileCoord>::empty());
    } else {
        let front = tiles.drop_last();
        let last = tiles.last();
        assert(tiles =~= front.push(last));
        lemma_coords_of_push(front, last, tile);
        lemma_coords_of_contains(front, tile, coord);
        let here = coords_of(tiles, tile);
        let before = coords_of(front, tile);
        if here.contains(coord) {
            let k = choose|k: int| 0 <= k < here.len() && here[k] == coord;
            if last.0 == tile && k == here.len() - 1 {
                assert(tiles[tiles.len() - 1] == (tile, TileLocation(coord)));
            } else {
                assert(before[k] == coord);
                assert(before.contains(coord));
                let i = choose|i: int|
                    0 <= i < front.len() && #[trigger] front[i] == (tile, TileLocation(coord));
                assert(tiles[i] == (tile, TileLocation(coord)));
            }
        }
        if exists|i: int|
            0 <= i < tiles.len() && #[trigger] tiles[i] == (tile, TileLocation(coord)) {
            let i = choose|i: int|
                0 <= i < tiles.len() && #[trigger] tiles[i] == (tile, TileLocation(coord));
            if i == tiles.len() - 1 {
                assert(here[here.len() - 1] == coord);
            } else {
                assert(front[i] == (tile, TileLocation(coord)));
                assert(before.contains(coord));
                let k = choose|k: int| 0 <= k < before.len() && before[k] == coord;
                assert(here[k] == coord);
            }
        }
    }
}

proof fn lemma_grouped_push(tiles: Seq<(TileType, TileLocation)>, entry: (TileType, TileLocation))
    ensures
        grouped(tiles.push(entry)) == grouped(tiles).insert(
            entry.0,
            saved_group(grouped(tiles), entry.0).push(entry.1.0),
        ),
{
    let more = tiles.push(entry);
    let target = grouped(tiles).insert(
        entry.0,
        saved_group(grouped(tiles), entry.0).push(entry.1.0),
    );
    assert forall|t: TileType| grouped(more).contains_key(t) <==> target.contains_key(t) by {
        if grouped(more).contains_key(t) {
            let i = choose|i: int| 0 <= i < more.len() && (#[trigger] more[i]).0 == t;
            if i < tiles.len() {
                assert(tiles[i].0 == t);
            }
        }
        if grouped(tiles).contains_key(t) {
            let i = choose|i: int| 0 <= i < tiles.len() && (#[trigger] tiles[i]).0 == t;
            assert(more[i].0 == t);
        }
        if t == entry.0 {
            assert(more[more.len() - 1].0 == t);
        }
    }
    assert forall|t: TileType| grouped(more).contains_key(t) implies grouped(more)[t]
        == target[t] by {
        lemma_coords_of_push(tiles, entry, t);
        if t == entry.0 && !grouped(tiles).contains_key(t) {
            if coords_of(tiles, t).len() > 0 {
                let c = coords_of(tiles, t)[0];
                assert(coords_of(tiles, t).contains(c));
                lemma_coords_of_contains(tiles, t, c);
                let i = choose|i: int|
                    0 <= i < tiles.len() && #[trigger] tiles[i] == (t, TileLocation(c));
                assert(tiles[i].0 == t);
            }
            assert(coords_of(tiles, t) =~= Seq::<TileCoord>::empty());
        }
    }
    assert(grouped(more) =~= target);
}

/// Groups tiles by classification for saving: under each classification
/// that occurs, the coordinates of its tiles in the order given.
pub fn save_map(tiles: &Vec<(TileType, TileLocation)>) -> (saved: SavedTileMap)
    ensures
        saved@ == grouped(tiles@),
{
    let mut saved = SavedTileMap::new();
    assert(grouped(tiles@.take(0)) =~= Map::<TileType, Seq<TileCoord>>::empty());
    let mut i: usize = 0;
    while i < tiles.len()
        invariant
            0 <= i <= tiles.len(),
            saved@ == grouped(tiles@.take(i as int)),
        decreases tiles.len() - i,
    {
        proof {
            lemma_grouped_push(tiles@.take(i as int), tiles@[i as int]);
            assert(tiles@.take(i as int + 1) =~= tiles@.take(i as int).push(tiles@[i as int]));
        }
        saved.push(tiles[i].0, tiles[i].1.0);
        i = i + 1;
    }
    assert(tiles@.take(tiles@.len() as int) =~= tiles@);
    saved
}

impl Clone for SavedTileMap {
    fn clone(&self) -> (copy: Self)
        ensures
            copy@ == self@,
    {
        proof {
            use_type_invariant(self);
        }
        let mut groups: Vec<(TileType, Vec<TileCoord>)> = Vec::new();
        let mut i: usize = 0;
        while i < self.groups.len()
            invariant
                0 <= i <= self.groups.len(),
                groups@.len() == i,
                forall|j: int|
                    0 <= j < i ==> (#[trigger] groups@[j]).0 == self.groups@[j].0 && groups@[j].1@
                        == self.groups@[j].1@,
            decreases self.groups.len() - i,
        {
            groups.push((self.groups[i].0, copy_coords(&self.groups[i].1)));
            i = i + 1;
        }
        proof {
            assert forall|a: int, b: int| 0 <= a < b < groups@.len() implies (#[trigger] groups@[a]).0
                != (#[trigger] groups@[b]).0 by {
                assert(self.groups@[a].0 != self.groups@[b].0);
            }
            assert forall|t: TileType| #[trigger]
                groups_view(groups@).contains_key(t) <==> groups_view(self.groups@).contains_key(
                    t,
                ) by {
                if exists|k: int| group_at(groups@, t, k) {
                    let k = choose|k: int| group_at(groups@, t, k);
                    assert(group_at(self.groups@, t, k));
                }
                if exists|k: int| group_at(self.groups@, t, k) {
                    let k = choose|k: int| group_at(self.groups@, t, k);
                    assert(group_at(groups@, t, k));
                }
            }
            assert forall|t: TileType| #[trigger]
                groups_view(groups@).contains_key(t) implies groups_view(groups@)[t]
                == groups_view(self.groups@)[t] by {
                let k = choose|k: int| group_at(groups@, t, k);
                assert(group_at(self.groups@, t, k));
                lemma_group_view(groups@, t, k);
                lemma_group_view(self.groups@, t, k);
            }
            assert(groups_view(groups@) =~= groups_view(self.groups@));
        }
        SavedTileMap { groups }
    }
}

impl SavedTileMap {
    /// The map that this saved form stands for. A coordinate that is listed
    /// under several classifications gets one of them.
    pub fn to_tilemap(&self) -> (gtm: GameTilemap)
        ensures
            loaded_from(self@, gtm@),
    {
        proof {
            use_type_invariant(self);
        }
        let mut gtm = GameTilemap::default();
        let mut g: usize = 0;
        while g < self.groups.len()
            invariant
                0 <= g <= self.groups.len(),
                forall|c: TileCoord| #[trigger]
                    gtm@.contains_key(c) <==> exists|k: int|
                        0 <= k < g && (#[trigger] self.groups@[k]).1@.contains(c),
                forall|c: TileCoord| #[trigger]
                    gtm@.contains_key(c) ==> exists|k: int|
                        0 <= k < g && (#[trigger] self.groups@[k]).0 == gtm@[c]
                            && self.groups@[k].1@.contains(c),
            decreases self.groups.len() - g,
        {
            let tile = self.groups[g].0;
            let ghost coords = self.groups@[g as int].1@;
            let ghost outer = gtm@;
            let mut j: usize = 0;
            while j < self.groups[g].1.len()
                invariant
                    0 <= g < self.groups.len(),
                    0 <= j <= self.groups@[g as int].1@.len(),
                    coords == self.groups@[g as int].1@,
                    tile == self.groups@[g as int].0,
                    forall|c: TileCoord| #[trigger]
                        gtm@.contains_key(c) <==> outer.contains_key(c) || exists|m: int|
                            0 <= m < j && #[trigger] coords[m] == c,
                    forall|c: TileCoord| #[trigger]
                        gtm@.contains_key(c) ==> (if exists|m: int|
                            0 <= m < j && #[trigger] coords[m] == c {
                            gtm@[c] == tile
                        } else {
                            gtm@[c] == outer[c]
                        }),
                decreases self.groups@[g as int].1@.len() - j,
            {
                let coord = self.groups[g].1[j];
                gtm.insert(coord, tile);
                j = j + 1;
            }
            proof {
                assert forall|c: TileCoord| #[trigger]
                    gtm@.contains_key(c) <==> exists|k: int|
                        0 <= k < g + 1 && (#[trigger] self.groups@[k]).1@.contains(c) by {
                    if gtm@.contains_key(c) {
                        if outer.contains_key(c) {
                            let k = choose|k: int|
                                0 <= k < g && (#[trigger] self.groups@[k]).1@.contains(c);
                            assert(self.groups@[k].1@.contains(c));
                        } else {
                            let m = choose|m: int| 0 <= m < coords.len() && #[trigger] coords[m] == c;
                            assert(self.groups@[g as int].1@.contains(c));
                        }
                    }
                    if exists|k: int|
                        0 <= k < g + 1 && (#[trigger] self.groups@[k]).1@.contains(c) {
                        let k = choose|k: int|
                            0 <= k < g + 1 && (#[trigger] self.groups@[k]).1@.contains(c);
                        if k == g {
                            let m = choose|m: int| 0 <= m < coords.len() && coords[m] == c;
                            assert(coords[m] == c);
                        }
                    }
                }
                assert forall|c: TileCoord| #[trigger] gtm@.contains_key(c) implies exists|k: int|
                    0 <= k < g + 1 && (#[trigger] self.groups@[k]).0 == gtm@[c]
                        && self.groups@[k].1@.contains(c) by {
                    if exists|m: int| 0 <= m < coords.len() && #[trigger] coords[m] == c {
                        let m = choose|m: int| 0 <= m < coords.len() && #[trigger] coords[m] == c;
                        assert(self.groups@[g as int].1@.contains(c));
                        assert(self.groups@[g as int].0 == gtm@[c]);
                    } else {
                        let k = choose|k: int|
                            0 <= k < g && (#[trigger] self.groups@[k]).0 == outer[c]
                                && self.groups@[k].1@.contains(c);
                        assert(self.groups@[k].0 == gtm@[c]);
                    }
                }
            }
            g = g + 1;
        }
        proof {
            assert forall|c: TileCoord| #[trigger] gtm@.contains_key(c) <==> listed(self@, c) by {
                if gtm@.contains_key(c) {
                    let k = choose|k: int|
                        0 <= k < self.groups@.len() && (#[trigger] self.groups@[k]).1@.contains(c);
                    let t = self.groups@[k].0;
                    assert(group_at(self.groups@, t, k));
                    lemma_group_view(self.groups@, t, k);
                    assert(self@[t].contains(c));
                }
                if exists|t: TileType| self@.contains_key(t) && #[trigger] self@[t].contains(c) {
                    let t = choose|t: TileType|
                        self@.contains_key(t) && #[trigger] self@[t].contains(c);
                    let k = choose|k: int| group_at(self.groups@, t, k);
                    lemma_group_view(self.groups@, t, k);
                    assert(self.groups@[k].1@.contains(c));
                }
            }
            assert forall|c: TileCoord| #[trigger] gtm@.contains_key(c) implies self@.contains_key(
                gtm@[c],
            ) && self@[gtm@[c]].contains(c) by {
                let k = choose|k: int|
                    0 <= k < self.groups@.len() && (#[trigger] self.groups@[k]).0 == gtm@[c]
                        && self.groups@[k].1@.contains(c);
                assert(group_at(self.groups@, gtm@[c], k));
                lemma_group_view(self.groups@, gtm@[c], k);
            }
        }
        gtm
    }
}

/// Loads the saved map `saved` into the map. The map keeps every coordinate
/// that it holds and gains those that `saved` lists; a listed coordinate
/// takes a classification under which `saved` lists it, every other one
/// becomes `Free`. The enemies' route lists the path tiles of the new map,
/// and the map is due for validation.
pub fn load_map(saved: &SavedTileMap, gtm: &mut GameTilemap, enemy_path: &mut EnemyPath) -> (next:
    MapState)
    ensures
        loaded_over(old(gtm)@, saved@, final(gtm)@),
        covers_grid(old(gtm)@, MAP_SIZE as int) ==> covers_grid(final(gtm)@, MAP_SIZE as int),
        next == MapState::NeedsVerify,
        final(enemy_path).0 is Some,
        final(enemy_path).0->0@.no_duplicates(),
        forall|c: TileCoord| final(enemy_path).0->0@.contains(c) <==> on_path(final(gtm)@, c),
{
    let loaded = saved.to_tilemap();
    proof {
        lemma_overlaid_is_loaded_over(gtm@, saved@, loaded@);
    }
    update_gametilemap(gtm, enemy_path, &loaded)
}

/// A map that took over a map which `saved` stands for has `saved` loaded
/// into it.
pub proof fn lemma_overlaid_is_loaded_over(
    before: Map<TileCoord, TileType>,
    saved: Map<TileType, Seq<TileCoord>>,
    loaded: Map<TileCoord, TileType>,
)
    requires
        loaded_from(saved, loaded),
    ensures
        loaded_over(before, saved, overlaid(before, loaded)),
{
    let after = overlaid(before, loaded);
    assert forall|c: TileCoord| #[trigger]
        after.contains_key(c) <==> before.contains_key(c) || listed(saved, c) by {
        assert(loaded.contains_key(c) <==> listed(saved, c));
    }
    assert forall|c: TileCoord| #[trigger]
        after.contains_key(c) && listed(saved, c) implies saved.contains_key(after[c])
        && saved[after[c]].contains(c) by {
        assert(loaded.contains_key(c));
    }
    assert forall|c: TileCoord| #[trigger]
        after.contains_key(c) && !listed(saved, c) implies after[c] == TileType::Free by {
        assert(!loaded.contains_key(c));
    }
}

/// Loading loses no coordinate: a map that covered the grid covers it after
/// any load, every tile that the file leaves out being `Free`.
pub proof fn lemma_load_keeps_grid(
    before: Map<TileCoord, TileType>,
    saved: Map<TileType, Seq<TileCoord>>,
    after: Map<TileCoord, TileType>,
    size: int,
)
    requires
        loaded_over(before, saved, after),
    ensures
        forall|c: TileCoord| before.contains_key(c) ==> after.contains_key(c),
        covers_grid(before, size) ==> covers_grid(after, size),
{
    assert forall|c: TileCoord| before.contains_key(c) implies after.contains_key(c) by {
        assert(after.contains_key(c) <==> before.contains_key(c) || listed(saved, c));
    }
}

/// A coordinate that the saved form of `listing` lists under `tile` is
/// that of a tile of `tiles` classified `tile`.
proof fn lemma_saved_tile_is_listed(
    tiles: Map<TileCoord, TileType>,
    listing: Seq<(TileType, TileLocation)>,
    tile: TileType,
    coord: TileCoord,
)
    requires
        describes(listing, tiles),
        grouped(listing).contains_key(tile),
        grouped(listing)[tile].contains(coord),
    ensures
        tiles.contains_key(coord),
        tiles[coord] == tile,
{
    lemma_coords_of_contains(listing, tile, coord);
    let i = choose|i: int|
        0 <= i < listing.len() && #[trigger] listing[i] == (tile, TileLocation(coord));
    assert(tiles.contains_key(listing[i].1.0));
}

/// The saved form of `listing` lists the coordinate of every tile of
/// `tiles` under the tile's classification.
proof fn lemma_tile_is_saved(
    tiles: Map<TileCoord, TileType>,
    listing: Seq<(TileType, TileLocation)>,
    coord: TileCoord,
)
    requires
        describes(listing, tiles),
        tiles.contains_key(coord),
    ensures
        grouped(listing).contains_key(tiles[coord]),
        grouped(listing)[tiles[coord]].contains(coord),
{
    let i = choose|i: int| 0 <= i < listing.len() && (#[trigger] listing[i]).1.0 == coord;
    let tile = listing[i].0;
    assert(listing[i] == (tile, TileLocation(coord)));
    lemma_coords_of_contains(listing, tile, coord);
}

/// Whatever the order in which the tiles were listed for saving, the only
/// map that the saved form stands for is the one that was saved.
pub proof fn lemma_saved_form_stands_for_its_map(
    tiles: Map<TileCoord, TileType>,
    listing: Seq<(TileType, TileLocation)>,
    loaded: Map<TileCoord, TileType>,
)
    requires
        describes(listing, tiles),
        loaded_from(grouped(listing), loaded),
    ensures
        loaded == tiles,
{
    let saved = grouped(listing);
    assert forall|c: TileCoord| loaded.contains_key(c) implies tiles.contains_key(c) && tiles[c]
        == loaded[c] by {
        lemma_saved_tile_is_listed(tiles, listing, loaded[c], c);
    }
    assert forall|c: TileCoord| tiles.contains_key(c) implies loaded.contains_key(c) by {
        lemma_tile_is_saved(tiles, listing, c);
        assert(saved.contains_key(tiles[c]) && saved[tiles[c]].contains(c));
    }
    assert(loaded =~= tiles);
}

/// Saving a map and loading what was saved gives the map back: whatever the
/// order in which the tiles were listed for saving, and whatever the map
/// held at the time of loading, as long as it held no coordinate that the
/// saved map lacks.
pub proof fn lemma_save_then_load_restores(
    tiles: Map<TileCoord, TileType>,
    listing: Seq<(TileType, TileLocation)>,
    before: Map<TileCoord, TileType>,
    loaded: Map<TileCoord, TileType>,
)
    requires
        describes(listing, tiles),
        forall|c: TileCoord| before.contains_key(c) ==> tiles.contains_key(c),
        loaded_over(before, grouped(listing), loaded),
    ensures
        loaded == tiles,
{
    let saved = grouped(listing);
    assert forall|c: TileCoord| tiles.contains_key(c) implies listed(saved, c) by {
        lemma_tile_is_saved(tiles, listing, c);
        assert(saved.contains_key(tiles[c]) && saved[tiles[c]].contains(c));
    }
    assert forall|c: TileCoord| loaded.contains_key(c) implies tiles.contains_key(c) && tiles[c]
        == loaded[c] by {
        assert(loaded.contains_key(c) <==> before.contains_key(c) || listed(saved, c));
        assert(listed(saved, c));
        lemma_saved_tile_is_listed(tiles, listing, loaded[c], c);
    }
    assert forall|c: TileCoord| tiles.contains_key(c) implies loaded.contains_key(c) by {
        assert(loaded.contains_key(c) <==> before.contains_key(c) || listed(saved, c));
    }
    assert(loaded =~= tiles);
}

} // verus!
