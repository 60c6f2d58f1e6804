use td_3::editor::map_verify;
use td_3::path::{check_valid_neighbor, find_neighbor, find_start, verify_path};
use td_3::tilemap::{
    setup_tilemap, EnemyPath, EnemyTile, GameTilemap, MapState, TileCoord, TileType, MAP_SIZE,
};

fn tile(x: i32, y: i32, role: EnemyTile) -> (TileCoord, EnemyTile) {
    (TileCoord::new(x, y), role)
}

#[test]
fn adjacency_is_one_step_along_one_axis() {
    let c = TileCoord::new(3, 3);
    assert!(c.is_adjacent(&TileCoord::new(3, 4)));
    assert!(c.is_adjacent(&TileCoord::new(3, 2)));
    assert!(c.is_adjacent(&TileCoord::new(4, 3)));
    assert!(c.is_adjacent(&TileCoord::new(2, 3)));
    assert!(!c.is_adjacent(&TileCoord::new(3, 3)));
    assert!(!c.is_adjacent(&TileCoord::new(4, 4)));
    assert!(!c.is_adjacent(&TileCoord::new(2, 2)));
    assert!(!c.is_adjacent(&TileCoord::new(3, 5)));
    assert!(!c.is_adjacent(&TileCoord::new(5, 3)));
}

#[test]
fn adjacency_at_the_ends_of_the_range() {
    let low = TileCoord::new(i32::MIN, i32::MIN);
    let high = TileCoord::new(i32::MAX, i32::MAX);
    assert!(low.is_adjacent(&TileCoord::new(i32::MIN + 1, i32::MIN)));
    assert!(high.is_adjacent(&TileCoord::new(i32::MAX, i32::MAX - 1)));
    assert!(!low.is_adjacent(&high));
    assert!(!TileCoord::new(i32::MIN, 0).is_adjacent(&TileCoord::new(i32::MAX, 0)));
}

#[test]
fn simple_chain_is_valid() {
    let tiles = vec![
        tile(2, 2, EnemyTile::Start),
        tile(3, 2, EnemyTile::Horizontal),
        tile(4, 2, EnemyTile::TopRight),
        tile(4, 3, EnemyTile::Vertical),
        tile(4, 4, EnemyTile::Finish),
    ];
    assert_eq!(verify_path(tiles), Some(true));
}

#[test]
fn simple_chain_is_valid_in_any_order() {
    let tiles = vec![
        tile(4, 4, EnemyTile::Finish),
        tile(4, 2, EnemyTile::TopRight),
        tile(3, 2, EnemyTile::Horizontal),
        tile(4, 3, EnemyTile::Vertical),
        tile(2, 2, EnemyTile::Start),
    ];
    assert_eq!(verify_path(tiles), Some(true));
}

#[test]
fn no_start_gives_no_verdict() {
    let tiles = vec![tile(3, 2, EnemyTile::Horizontal), tile(4, 2, EnemyTile::Finish)];
    assert_eq!(verify_path(tiles), None);
    assert_eq!(verify_path(Vec::new()), None);
}

#[test]
fn start_beside_finish_is_valid_at_once() {
    let start = TileCoord::new(2, 2);
    let mut rest = vec![tile(3, 2, EnemyTile::Finish)];
    assert!(check_valid_neighbor(&start, &mut rest));
    assert_eq!(rest, vec![tile(3, 2, EnemyTile::Finish)]);
    assert_eq!(
        verify_path(vec![tile(2, 2, EnemyTile::Start), tile(3, 2, EnemyTile::Finish)]),
        Some(true)
    );
}

#[test]
fn disconnected_map_is_invalid() {
    let tiles = vec![
        tile(0, 0, EnemyTile::Start),
        tile(1, 0, EnemyTile::Horizontal),
        tile(5, 5, EnemyTile::Finish),
    ];
    assert_eq!(verify_path(tiles), Some(false));
}

#[test]
fn diagonal_tiles_do_not_connect() {
    let tiles = vec![tile(0, 0, EnemyTile::Start), tile(1, 1, EnemyTile::Finish)];
    assert_eq!(verify_path(tiles), Some(false));
}

#[test]
fn start_alone_is_invalid() {
    assert_eq!(verify_path(vec![tile(0, 0, EnemyTile::Start)]), Some(false));
}

#[test]
fn walk_removes_the_tiles_it_steps_on() {
    let start = TileCoord::new(0, 0);
    let mut rest = vec![
        tile(9, 9, EnemyTile::Vertical),
        tile(1, 0, EnemyTile::Horizontal),
        tile(2, 0, EnemyTile::Horizontal),
        tile(3, 0, EnemyTile::Finish),
    ];
    assert!(check_valid_neighbor(&start, &mut rest));
    assert_eq!(rest, vec![tile(9, 9, EnemyTile::Vertical), tile(3, 0, EnemyTile::Finish)]);
}

#[test]
fn failed_walk_leaves_what_it_did_not_reach() {
    let start = TileCoord::new(0, 0);
    let mut rest = vec![tile(1, 0, EnemyTile::Horizontal), tile(5, 5, EnemyTile::Finish)];
    assert!(!check_valid_neighbor(&start, &mut rest));
    assert_eq!(rest, vec![tile(5, 5, EnemyTile::Finish)]);
}

#[test]
fn branching_path_follows_the_first_neighbor_only() {
    // Beside the start lie a dead end and the way to the finish.
    let dead_end_first = vec![
        tile(0, 0, EnemyTile::Start),
        tile(0, 1, EnemyTile::Vertical),
        tile(1, 0, EnemyTile::Horizontal),
        tile(2, 0, EnemyTile::Finish),
    ];
    assert_eq!(verify_path(dead_end_first), Some(false));
    let way_first = vec![
        tile(0, 0, EnemyTile::Start),
        tile(1, 0, EnemyTile::Horizontal),
        tile(0, 1, EnemyTile::Vertical),
        tile(2, 0, EnemyTile::Finish),
    ];
    assert_eq!(verify_path(way_first), Some(true));
}

#[test]
fn first_start_is_taken_where_there_are_two() {
    let tiles = vec![
        tile(9, 9, EnemyTile::Start),
        tile(0, 0, EnemyTile::Start),
        tile(1, 0, EnemyTile::Finish),
    ];
    assert_eq!(find_start(&tiles), Some(0));
    assert_eq!(verify_path(tiles), Some(false));
}

#[test]
fn find_neighbor_gives_the_first_adjacent_tile() {
    let tiles = vec![
        tile(5, 5, EnemyTile::Vertical),
        tile(1, 0, EnemyTile::Horizontal),
        tile(0, 1, EnemyTile::Vertical),
    ];
    assert_eq!(find_neighbor(&TileCoord::new(0, 0), &tiles), Some(1));
    assert_eq!(find_neighbor(&TileCoord::new(5, 4), &tiles), Some(0));
    assert_eq!(find_neighbor(&TileCoord::new(8, 8), &tiles), None);
    assert_eq!(find_neighbor(&TileCoord::new(0, 0), &Vec::new()), None);
}

#[test]
fn find_start_without_start() {
    assert_eq!(find_start(&vec![tile(0, 0, EnemyTile::Finish)]), None);
    assert_eq!(find_start(&Vec::new()), None);
}

fn map_of(tiles: &[(i32, i32, TileType)]) -> GameTilemap {
    let mut gtm = GameTilemap::new(MAP_SIZE);
    for (x, y, tile) in tiles {
        gtm.insert(TileCoord::new(*x, *y), *tile);
    }
    gtm
}

#[test]
fn map_with_simple_chain_is_reloaded() {
    let gtm = map_of(&[
        (2, 2, TileType::EnemyMap(EnemyTile::Start)),
        (3, 2, TileType::EnemyMap(EnemyTile::Horizontal)),
        (4, 2, TileType::EnemyMap(EnemyTile::Horizontal)),
        (5, 2, TileType::EnemyMap(EnemyTile::Finish)),
        (7, 7, TileType::Blocked),
    ]);
    assert_eq!(map_verify(&MapState::NeedsVerify, &gtm), Some(MapState::Reloaded));
}

#[test]
fn map_without_start_is_left_alone() {
    let gtm = map_of(&[
        (3, 2, TileType::EnemyMap(EnemyTile::Horizontal)),
        (5, 2, TileType::EnemyMap(EnemyTile::Finish)),
    ]);
    assert_eq!(map_verify(&MapState::NeedsVerify, &gtm), None);
    assert_eq!(map_verify(&MapState::NeedsVerify, &GameTilemap::new(MAP_SIZE)), None);
}

#[test]
fn map_with_start_beside_finish_is_reloaded() {
    let gtm = map_of(&[
        (2, 2, TileType::EnemyMap(EnemyTile::Start)),
        (3, 2, TileType::EnemyMap(EnemyTile::Finish)),
    ]);
    assert_eq!(map_verify(&MapState::NeedsVerify, &gtm), Some(MapState::Reloaded));
}

#[test]
fn disconnected_map_fails_verification() {
    let gtm = map_of(&[
        (0, 0, TileType::EnemyMap(EnemyTile::Start)),
        (1, 0, TileType::EnemyMap(EnemyTile::Horizontal)),
        (6, 6, TileType::EnemyMap(EnemyTile::Vertical)),
        (6, 7, TileType::EnemyMap(EnemyTile::Finish)),
    ]);
    assert_eq!(map_verify(&MapState::NeedsVerify, &gtm), Some(MapState::VerifyFailed));
}

#[test]
fn map_is_verified_only_when_due() {
    let gtm = map_of(&[
        (2, 2, TileType::EnemyMap(EnemyTile::Start)),
        (3, 2, TileType::EnemyMap(EnemyTile::Finish)),
    ]);
    for state in [
        MapState::NotSpawned,
        MapState::Spawned,
        MapState::Reloaded,
        MapState::VerifyFailed,
    ] {
        assert_eq!(map_verify(&state, &gtm), None);
    }
}

#[test]
fn default_route_is_valid() {
    let mut gtm = GameTilemap::new(MAP_SIZE);
    let mut path = EnemyPath(None);
    setup_tilemap(&mut gtm, &mut path);
    assert_eq!(map_verify(&MapState::NeedsVerify, &gtm), Some(MapState::Reloaded));
}
