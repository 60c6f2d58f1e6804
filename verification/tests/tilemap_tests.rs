use td_3::editor::{alter_tile, clear_map, MiniTileState};
use td_3::tilemap::{
    recolor, setup_tilemap, spawn_map, update_gametilemap, update_tile_colors, EnemyPath,
    EnemyTile, GameTilemap, MapState, TileColor, TileCoord, TileLocation, TileType, TowerType,
    MAP_SIZE,
};

#[test]
fn map_size_is_twelve() {
    assert_eq!(MAP_SIZE, 12);
}

#[test]
fn new_map_covers_the_grid_with_free_tiles() {
    let gtm = GameTilemap::new(MAP_SIZE);
    for x in 0..MAP_SIZE {
        for y in 0..MAP_SIZE {
            assert_eq!(gtm.get(&TileCoord::new(x, y)), Some(TileType::Free));
        }
    }
    assert_eq!(gtm.entries().len(), 144);
    assert_eq!(gtm.get(&TileCoord::new(-1, 0)), None);
    assert_eq!(gtm.get(&TileCoord::new(0, 12)), None);
    assert_eq!(gtm.get(&TileCoord::new(12, 0)), None);
    assert!(!gtm.contains(&TileCoord::new(12, 12)));
    assert!(gtm.contains(&TileCoord::new(11, 11)));
}

#[test]
fn new_map_of_no_size_is_empty() {
    assert_eq!(GameTilemap::new(0).entries().len(), 0);
    assert_eq!(GameTilemap::new(-3).entries().len(), 0);
    assert_eq!(GameTilemap::default().entries().len(), 0);
    assert_eq!(GameTilemap::new(1).entries(), vec![(TileCoord::new(0, 0), TileType::Free)]);
}

#[test]
fn insert_hands_back_the_previous_classification() {
    let mut gtm = GameTilemap::new(2);
    assert_eq!(gtm.insert(TileCoord::new(0, 1), TileType::Blocked), Some(TileType::Free));
    assert_eq!(
        gtm.insert(TileCoord::new(0, 1), TileType::Tower(TowerType::T2)),
        Some(TileType::Blocked)
    );
    assert_eq!(gtm.insert(TileCoord::new(7, 7), TileType::Free), None);
    assert_eq!(gtm.get(&TileCoord::new(0, 1)), Some(TileType::Tower(TowerType::T2)));
    assert_eq!(gtm.get(&TileCoord::new(7, 7)), Some(TileType::Free));
    assert_eq!(gtm.get(&TileCoord::new(1, 0)), Some(TileType::Free));
    assert_eq!(gtm.entries().len(), 5);
}

#[test]
fn coordinates_far_apart_are_kept_apart() {
    let mut gtm = GameTilemap::default();
    let corners = [
        (i32::MIN, i32::MIN, TileType::Blocked),
        (i32::MIN, i32::MAX, TileType::Free),
        (i32::MAX, i32::MIN, TileType::Tower(TowerType::T1)),
        (i32::MAX, i32::MAX, TileType::EnemyMap(EnemyTile::Start)),
        (0, -1, TileType::Tower(TowerType::T3)),
        (-1, 0, TileType::EnemyMap(EnemyTile::Finish)),
    ];
    for (x, y, tile) in corners {
        assert_eq!(gtm.insert(TileCoord::new(x, y), tile), None);
    }
    for (x, y, tile) in corners {
        assert_eq!(gtm.get(&TileCoord::new(x, y)), Some(tile));
    }
    let mut listed = gtm.entries();
    listed.sort_by_key(|entry| (entry.0.x, entry.0.y));
    assert_eq!(listed.len(), 6);
    assert_eq!(listed[0], (TileCoord::new(i32::MIN, i32::MIN), TileType::Blocked));
    assert_eq!(listed[5], (TileCoord::new(i32::MAX, i32::MAX), TileType::EnemyMap(EnemyTile::Start)));
}

#[test]
fn reset_frees_every_tile_and_keeps_the_grid() {
    let mut gtm = GameTilemap::new(MAP_SIZE);
    gtm.insert(TileCoord::new(0, 0), TileType::Blocked);
    gtm.insert(TileCoord::new(3, 4), TileType::EnemyMap(EnemyTile::Start));
    gtm.insert(TileCoord::new(11, 11), TileType::Tower(TowerType::T1));
    gtm.reset_map();
    assert_eq!(gtm.entries().len(), 144);
    for x in 0..MAP_SIZE {
        for y in 0..MAP_SIZE {
            assert_eq!(gtm.get(&TileCoord::new(x, y)), Some(TileType::Free));
        }
    }
    gtm.reset_map();
    assert_eq!(gtm.entries().len(), 144);
    assert_eq!(gtm.get(&TileCoord::new(3, 4)), Some(TileType::Free));
}

#[test]
fn reset_keeps_tiles_outside_the_grid() {
    let mut gtm = GameTilemap::new(1);
    gtm.insert(TileCoord::new(-5, 40), TileType::Blocked);
    gtm.reset_map();
    assert_eq!(gtm.get(&TileCoord::new(-5, 40)), Some(TileType::Free));
    assert_eq!(gtm.entries().len(), 2);
    let mut empty = GameTilemap::default();
    empty.reset_map();
    assert_eq!(empty.entries().len(), 0);
}

#[test]
fn clear_map_frees_every_tile() {
    let mut gtm = GameTilemap::new(3);
    gtm.insert(TileCoord::new(1, 1), TileType::Blocked);
    clear_map(&mut gtm);
    assert_eq!(gtm.get(&TileCoord::new(1, 1)), Some(TileType::Free));
    assert_eq!(gtm.entries().len(), 9);
}

#[test]
fn clone_is_independent() {
    let mut gtm = GameTilemap::new(2);
    let copy = gtm.clone();
    gtm.insert(TileCoord::new(0, 0), TileType::Blocked);
    assert_eq!(copy.get(&TileCoord::new(0, 0)), Some(TileType::Free));
    assert_eq!(gtm.get(&TileCoord::new(0, 0)), Some(TileType::Blocked));
}

#[test]
fn enemy_tiles_lists_the_path_only() {
    let mut gtm = GameTilemap::new(4);
    gtm.insert(TileCoord::new(0, 0), TileType::EnemyMap(EnemyTile::Start));
    gtm.insert(TileCoord::new(0, 1), TileType::EnemyMap(EnemyTile::Finish));
    gtm.insert(TileCoord::new(2, 2), TileType::Blocked);
    let mut tiles = gtm.enemy_tiles();
    tiles.sort_by_key(|tile| (tile.0.x, tile.0.y));
    assert_eq!(
        tiles,
        vec![
            (TileCoord::new(0, 0), EnemyTile::Start),
            (TileCoord::new(0, 1), EnemyTile::Finish)
        ]
    );
    assert_eq!(GameTilemap::new(4).enemy_tiles(), Vec::new());
}

#[test]
fn defaults() {
    assert_eq!(TileType::default(), TileType::Free);
    assert_eq!(EnemyTile::default(), EnemyTile::Vertical);
    assert_eq!(MapState::default(), MapState::NotSpawned);
}

#[test]
fn colors_of_classifications() {
    assert_eq!(TileType::EnemyMap(EnemyTile::TopLeft).color(), TileColor::Enemy);
    assert_eq!(TileType::Blocked.color(), TileColor::Blocked);
    assert_eq!(TileType::Free.color(), TileColor::Ground);
    assert_eq!(TileType::Tower(TowerType::T3).color(), TileColor::Ground);
    assert_eq!(recolor(&TileType::EnemyMap(EnemyTile::Start)), (TileColor::Enemy, true));
    assert_eq!(recolor(&TileType::Blocked), (TileColor::Blocked, false));
    assert_eq!(recolor(&TileType::Free), (TileColor::Ground, true));
    assert_eq!(recolor(&TileType::Tower(TowerType::T1)), (TileColor::Ground, true));
}

#[test]
fn setup_lays_the_default_route() {
    let mut gtm = GameTilemap::new(MAP_SIZE);
    let mut path = EnemyPath(None);
    setup_tilemap(&mut gtm, &mut path);
    let route = path.0.clone().unwrap();
    assert_eq!(route, EnemyPath::default_route());
    assert_eq!(route.len(), 15);
    assert_eq!(route[0], TileCoord::new(1, 1));
    assert_eq!(route[5], TileCoord::new(2, 5));
    assert_eq!(route[14], TileCoord::new(8, 8));
    assert_eq!(gtm.get(&TileCoord::new(1, 1)), Some(TileType::EnemyMap(EnemyTile::Start)));
    assert_eq!(gtm.get(&TileCoord::new(8, 8)), Some(TileType::EnemyMap(EnemyTile::Finish)));
    for coord in &route[1..14] {
        assert_eq!(gtm.get(coord), Some(TileType::EnemyMap(EnemyTile::Vertical)));
    }
    assert_eq!(gtm.get(&TileCoord::new(0, 0)), Some(TileType::Free));
    assert_eq!(gtm.enemy_tiles().len(), 15);
    assert_eq!(gtm.entries().len(), 144);
}

#[test]
fn setup_keeps_a_route_that_is_known() {
    let mut gtm = GameTilemap::new(3);
    let given = vec![TileCoord::new(0, 0), TileCoord::new(0, 1), TileCoord::new(5, 5)];
    let mut path = EnemyPath(Some(given.clone()));
    setup_tilemap(&mut gtm, &mut path);
    assert_eq!(path.0, Some(given));
    assert_eq!(gtm.get(&TileCoord::new(0, 0)), Some(TileType::EnemyMap(EnemyTile::Start)));
    assert_eq!(gtm.get(&TileCoord::new(0, 1)), Some(TileType::EnemyMap(EnemyTile::Vertical)));
    assert_eq!(gtm.get(&TileCoord::new(5, 5)), Some(TileType::EnemyMap(EnemyTile::Finish)));
    assert_eq!(gtm.entries().len(), 10);
}

#[test]
fn setup_with_short_and_repeating_routes() {
    let mut gtm = GameTilemap::new(2);
    let mut single = EnemyPath(Some(vec![TileCoord::new(1, 1)]));
    setup_tilemap(&mut gtm, &mut single);
    assert_eq!(gtm.get(&TileCoord::new(1, 1)), Some(TileType::EnemyMap(EnemyTile::Start)));

    let mut gtm = GameTilemap::new(2);
    let mut none = EnemyPath(Some(Vec::new()));
    setup_tilemap(&mut gtm, &mut none);
    assert_eq!(none.0, Some(Vec::new()));
    assert_eq!(gtm.enemy_tiles().len(), 0);

    let mut gtm = GameTilemap::new(2);
    let mut back = EnemyPath(Some(vec![
        TileCoord::new(0, 0),
        TileCoord::new(0, 1),
        TileCoord::new(0, 0),
    ]));
    setup_tilemap(&mut gtm, &mut back);
    assert_eq!(gtm.get(&TileCoord::new(0, 0)), Some(TileType::EnemyMap(EnemyTile::Finish)));
    assert_eq!(gtm.get(&TileCoord::new(0, 1)), Some(TileType::EnemyMap(EnemyTile::Vertical)));
}

#[test]
fn update_takes_over_the_loaded_map() {
    let mut loaded = GameTilemap::default();
    loaded.insert(TileCoord::new(0, 0), TileType::Blocked);
    loaded.insert(TileCoord::new(2, 2), TileType::EnemyMap(EnemyTile::Start));
    loaded.insert(TileCoord::new(3, 2), TileType::EnemyMap(EnemyTile::Finish));
    let mut gtm = GameTilemap::new(MAP_SIZE);
    let mut path = EnemyPath(None);
    let next = update_gametilemap(&mut gtm, &mut path, &loaded);
    assert_eq!(next, MapState::NeedsVerify);
    assert_eq!(gtm.entries().len(), 144);
    assert_eq!(gtm.get(&TileCoord::new(0, 0)), Some(TileType::Blocked));
    assert_eq!(gtm.get(&TileCoord::new(1, 1)), Some(TileType::Free));
    assert_eq!(gtm.get(&TileCoord::new(2, 2)), Some(TileType::EnemyMap(EnemyTile::Start)));
    assert_eq!(gtm.get(&TileCoord::new(12, 0)), None);
    let mut route = path.0.unwrap();
    route.sort_by_key(|c| (c.x, c.y));
    assert_eq!(route, vec![TileCoord::new(2, 2), TileCoord::new(3, 2)]);
}

#[test]
fn update_frees_what_the_loaded_map_lacks_and_adds_what_is_new() {
    let mut loaded = GameTilemap::default();
    loaded.insert(TileCoord::new(0, 0), TileType::Tower(TowerType::T1));
    loaded.insert(TileCoord::new(5, 5), TileType::Blocked);
    let mut gtm = GameTilemap::new(2);
    gtm.insert(TileCoord::new(1, 1), TileType::EnemyMap(EnemyTile::Start));
    let mut path = EnemyPath(Some(vec![TileCoord::new(1, 1)]));
    update_gametilemap(&mut gtm, &mut path, &loaded);
    assert_eq!(gtm.entries().len(), 5);
    assert_eq!(gtm.get(&TileCoord::new(0, 0)), Some(TileType::Tower(TowerType::T1)));
    assert_eq!(gtm.get(&TileCoord::new(1, 1)), Some(TileType::Free));
    assert_eq!(gtm.get(&TileCoord::new(5, 5)), Some(TileType::Blocked));
    assert_eq!(path.0, Some(Vec::new()));
}

#[test]
fn update_with_a_whole_map_gives_that_map() {
    let mut loaded = GameTilemap::new(MAP_SIZE);
    loaded.insert(TileCoord::new(4, 4), TileType::Blocked);
    let mut gtm = GameTilemap::new(MAP_SIZE);
    gtm.insert(TileCoord::new(6, 6), TileType::Blocked);
    let mut path = EnemyPath(None);
    update_gametilemap(&mut gtm, &mut path, &loaded);
    let mut got = gtm.entries();
    let mut want = loaded.entries();
    got.sort_by_key(|entry| (entry.0.x, entry.0.y));
    want.sort_by_key(|entry| (entry.0.x, entry.0.y));
    assert_eq!(got, want);
}

#[test]
fn spawn_lists_every_tile_once() {
    let mut gtm = GameTilemap::new(2);
    gtm.insert(TileCoord::new(0, 0), TileType::EnemyMap(EnemyTile::Start));
    gtm.insert(TileCoord::new(1, 1), TileType::Blocked);
    let (mut tiles, next) = spawn_map(&gtm, &MapState::NotSpawned);
    assert_eq!(next, Some(MapState::Spawned));
    tiles.sort_by_key(|t| (t.0 .0.x, t.0 .0.y));
    assert_eq!(
        tiles,
        vec![
            (
                TileLocation(TileCoord::new(0, 0)),
                TileType::EnemyMap(EnemyTile::Start),
                TileColor::Enemy
            ),
            (TileLocation(TileCoord::new(0, 1)), TileType::Free, TileColor::Ground),
            (TileLocation(TileCoord::new(1, 0)), TileType::Free, TileColor::Ground),
            (TileLocation(TileCoord::new(1, 1)), TileType::Blocked, TileColor::Ground),
        ]
    );
}

#[test]
fn spawn_does_nothing_twice_or_on_an_empty_map() {
    let gtm = GameTilemap::new(2);
    assert_eq!(spawn_map(&gtm, &MapState::Spawned), (Vec::new(), None));
    assert_eq!(spawn_map(&GameTilemap::default(), &MapState::NotSpawned), (Vec::new(), None));
    assert_eq!(spawn_map(&gtm, &MapState::Reloaded).1, Some(MapState::Spawned));
    assert_eq!(spawn_map(&gtm, &MapState::NeedsVerify).0.len(), 4);
}

#[test]
fn tile_entities_follow_the_map() {
    let mut gtm = GameTilemap::new(2);
    gtm.insert(TileCoord::new(0, 1), TileType::Blocked);
    gtm.insert(TileCoord::new(1, 1), TileType::EnemyMap(EnemyTile::Finish));
    let locations = vec![
        TileLocation(TileCoord::new(1, 1)),
        TileLocation(TileCoord::new(0, 0)),
        TileLocation(TileCoord::new(0, 1)),
    ];
    let (tiles, next) = update_tile_colors(&gtm, &locations);
    assert_eq!(next, MapState::Spawned);
    assert_eq!(
        tiles,
        vec![
            (TileType::EnemyMap(EnemyTile::Finish), TileColor::Enemy),
            (TileType::Free, TileColor::Ground),
            (TileType::Blocked, TileColor::Blocked),
        ]
    );
    assert_eq!(update_tile_colors(&gtm, &Vec::new()), (Vec::new(), MapState::Spawned));
}

#[test]
fn click_places_the_preview_classification() {
    let mut gtm = GameTilemap::new(2);
    let at = TileLocation(TileCoord::new(1, 0));
    let color = alter_tile(&mut gtm, &MiniTileState::Spawned, &TileType::Blocked, &at);
    assert_eq!(color, Some(TileColor::Blocked));
    assert_eq!(gtm.get(&TileCoord::new(1, 0)), Some(TileType::Blocked));
    let color = alter_tile(
        &mut gtm,
        &MiniTileState::Spawned,
        &TileType::EnemyMap(EnemyTile::Start),
        &at,
    );
    assert_eq!(color, Some(TileColor::Enemy));
    assert_eq!(gtm.get(&TileCoord::new(1, 0)), Some(TileType::EnemyMap(EnemyTile::Start)));
    assert_eq!(gtm.entries().len(), 4);
}

#[test]
fn click_without_preview_or_tile_changes_nothing() {
    let mut gtm = GameTilemap::new(2);
    let at = TileLocation(TileCoord::new(1, 0));
    for state in [MiniTileState::NotSpawned, MiniTileState::Despawn] {
        assert_eq!(alter_tile(&mut gtm, &state, &TileType::Blocked, &at), None);
        assert_eq!(gtm.get(&TileCoord::new(1, 0)), Some(TileType::Free));
    }
    let outside = TileLocation(TileCoord::new(9, 9));
    assert_eq!(alter_tile(&mut gtm, &MiniTileState::Spawned, &TileType::Blocked, &outside), None);
    assert_eq!(gtm.get(&TileCoord::new(9, 9)), None);
    assert_eq!(gtm.entries().len(), 4);
}
