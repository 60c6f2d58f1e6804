use td_3::enemy::{
    setup_enemy_waves, spawn_enemies, Enemy, EnemyType, EnemyWave, EnemyWaves,
};
use td_3::tilemap::{EnemyPath, TileCoord};

#[test]
fn new_enemy_has_not_spawned() {
    let enemy = Enemy::new(EnemyType::Tanky, 100, 10);
    assert_eq!(
        enemy,
        Enemy { enemy_type: EnemyType::Tanky, health: 100, speed: 10, spawned: false }
    );
}

#[test]
fn standard_enemies() {
    assert_eq!(Enemy::standard(EnemyType::Basic), Enemy::new(EnemyType::Basic, 25, 15));
    assert_eq!(Enemy::standard(EnemyType::Fast), Enemy::new(EnemyType::Fast, 50, 20));
    assert_eq!(Enemy::standard(EnemyType::Tanky), Enemy::new(EnemyType::Tanky, 100, 10));
    assert_eq!(Enemy::standard(EnemyType::Boss), Enemy::new(EnemyType::Boss, 500, 5));
}

#[test]
fn new_wave_and_waves_start_at_zero() {
    let wave = EnemyWave::new(vec![Enemy::standard(EnemyType::Boss)], 7);
    assert_eq!(wave.spawn_count, 0);
    assert_eq!(wave.spawn_time, 7);
    assert_eq!(wave.enemies, vec![Enemy::standard(EnemyType::Boss)]);
    let waves = EnemyWaves::new(vec![wave]);
    assert_eq!(waves.current_wave, 0);
    assert_eq!(waves.waves.len(), 1);
    let none = EnemyWaves::default();
    assert_eq!(none.current_wave, 0);
    assert_eq!(none.waves.len(), 0);
}

#[test]
fn setup_adds_the_two_waves() {
    let mut waves = EnemyWaves::default();
    setup_enemy_waves(&mut waves);
    assert_eq!(waves.current_wave, 0);
    assert_eq!(waves.waves.len(), 2);
    assert_eq!(waves.waves[0].enemies, vec![Enemy::standard(EnemyType::Basic); 5]);
    let kinds: Vec<EnemyType> = waves.waves[1].enemies.iter().map(|e| e.enemy_type).collect();
    assert_eq!(
        kinds,
        vec![
            EnemyType::Basic,
            EnemyType::Basic,
            EnemyType::Basic,
            EnemyType::Fast,
            EnemyType::Basic,
            EnemyType::Basic
        ]
    );
    assert_eq!(waves.waves[1].enemies[3], Enemy::new(EnemyType::Fast, 50, 20));
    for wave in &waves.waves {
        assert_eq!(wave.spawn_count, 0);
        assert_eq!(wave.spawn_time, 2);
    }
}

#[test]
fn setup_keeps_the_waves_that_are_there() {
    let mut waves = EnemyWaves::new(vec![EnemyWave::new(vec![Enemy::standard(EnemyType::Boss)], 9)]);
    waves.current_wave = 1;
    setup_enemy_waves(&mut waves);
    assert_eq!(waves.current_wave, 1);
    assert_eq!(waves.waves.len(), 3);
    assert_eq!(waves.waves[0].spawn_time, 9);
    assert_eq!(waves.waves[1].enemies.len(), 5);
    assert_eq!(waves.waves[2].enemies.len(), 6);
}

fn route() -> EnemyPath {
    EnemyPath(Some(vec![TileCoord::new(1, 1), TileCoord::new(1, 2)]))
}

#[test]
fn enemies_spawn_one_by_one_at_the_start() {
    let mut waves = EnemyWaves::default();
    setup_enemy_waves(&mut waves);
    for count in 0..5 {
        let spawned = spawn_enemies(&mut waves, &route(), true);
        assert_eq!(
            spawned,
            Some((
                TileCoord::new(1, 1),
                Enemy { enemy_type: EnemyType::Basic, health: 25, speed: 15, spawned: true }
            ))
        );
        assert_eq!(waves.waves[0].spawn_count, count + 1);
        assert!(waves.waves[0].enemies[count].spawned);
    }
    assert_eq!(spawn_enemies(&mut waves, &route(), true), None);
    assert_eq!(waves.waves[0].spawn_count, 5);
    assert_eq!(waves.current_wave, 0);
    assert_eq!(waves.waves[1].spawn_count, 0);
    assert!(waves.waves[1].enemies.iter().all(|e| !e.spawned));
}

#[test]
fn nothing_spawns_before_the_timer_runs_out() {
    let mut waves = EnemyWaves::default();
    setup_enemy_waves(&mut waves);
    assert_eq!(spawn_enemies(&mut waves, &route(), false), None);
    assert_eq!(spawn_enemies(&mut waves, &EnemyPath(None), false), None);
    assert_eq!(waves.waves[0].spawn_count, 0);
    assert!(!waves.waves[0].enemies[0].spawned);
}

#[test]
fn nothing_spawns_without_a_running_wave() {
    let mut none = EnemyWaves::default();
    assert_eq!(spawn_enemies(&mut none, &route(), true), None);
    let mut past = EnemyWaves::default();
    setup_enemy_waves(&mut past);
    past.current_wave = 2;
    assert_eq!(spawn_enemies(&mut past, &route(), true), None);
    assert_eq!(past.waves[0].spawn_count, 0);
}

#[test]
fn later_wave_spawns_its_own_enemies() {
    let mut waves = EnemyWaves::default();
    setup_enemy_waves(&mut waves);
    waves.current_wave = 1;
    waves.waves[1].spawn_count = 3;
    let spawned = spawn_enemies(&mut waves, &route(), true);
    assert_eq!(
        spawned,
        Some((
            TileCoord::new(1, 1),
            Enemy { enemy_type: EnemyType::Fast, health: 50, speed: 20, spawned: true }
        ))
    );
    assert_eq!(waves.waves[1].spawn_count, 4);
    assert_eq!(waves.waves[0].spawn_count, 0);
}

#[test]
fn cloned_waves_keep_their_own_count() {
    let mut waves = EnemyWaves::default();
    setup_enemy_waves(&mut waves);
    let copy = waves.clone();
    let path = EnemyPath(Some(vec![TileCoord::new(1, 1)]));
    assert!(spawn_enemies(&mut waves, &path, true).is_some());
    assert_eq!(waves.waves[0].spawn_count, 1);
    assert_eq!(copy.waves[0].spawn_count, 0);
    assert_eq!(copy.waves[0].clone().enemies, copy.waves[0].enemies);
    assert_eq!(copy.waves.len(), 2);
}
