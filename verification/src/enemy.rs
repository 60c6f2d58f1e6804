//! Enemy waves: which enemy appears next, and where.

use crate::tilemap::{EnemyPath, TileCoord};
use vstd::prelude::*;

verus! {

/// Kind of enemy.
#[derive(Debug, Clone, Copy, PartialEq, Eq, Hash, Structural)]
pub enum EnemyType {
    Basic,
    Fast,
    Tanky,
    Boss,
}

/// One enemy of a wave. Health and speed are whole numbers of the units in
/// which the game measures them.
#[derive(Debug, Clone, Copy, PartialEq, Eq, Hash, Structural)]
pub struct Enemy {
    pub enemy_type: EnemyType,
    pub health: u32,
    pub speed: u32,
    pub spawned: bool,
}

/// A wave: its enemies in the order in which they appear, and how many of
/// them have appeared.
#[derive(Debug, Clone)]
pub struct EnemyWave {
    pub enemies: Vec<Enemy>,
    pub spawn_count: usize,
    /// Seconds between two enemies.
    pub spawn_time: u32,
}

/// The waves of a game in their order, and the one that is running.
#[derive(Debug, Clone)]
pub struct EnemyWaves {
    pub waves: Vec<EnemyWave>,
    pub current_wave: usize,
}

impl Enemy {
    /// An enemy that has not appeared yet.
    pub fn new(enemy_type: EnemyType, health: u32, speed: u32) -> (enemy: Self)
        ensures
            enemy == (Enemy { enemy_type, health, speed, spawned: false }),
    {
        Enemy { enemy_type, health, speed, spawned: false }
    }

    /// The enemy of kind `enemy_type` with the health and speed of its kind.
    pub open spec fn of_type(enemy_type: EnemyType) -> Enemy {
        match enemy_type {
            EnemyType::Basic => Enemy { enemy_type, health: 25, speed: 15, spawned: false },
            EnemyType::Fast => Enemy { enemy_type, health: 50, speed: 20, spawned: false },
            EnemyType::Tanky => Enemy { enemy_type, health: 100, speed: 10, spawned: false },
            EnemyType::Boss => Enemy { enemy_type, health: 500, speed: 5, spawned: false },
        }
    }

    pub fn standard(enemy_type: EnemyType) -> (enemy: Self)
        ensures
            enemy == Self::of_type(enemy_type),
    {
        match enemy_type {
            EnemyType::Basic => Enemy::new(enemy_type, 25, 15),
            EnemyType::Fast => Enemy::new(enemy_type, 50, 20),
            EnemyType::Tanky => Enemy::new(enemy_type, 100, 10),
            EnemyType::Boss => Enemy::new(enemy_type, 500, 5),
        }
    }
}

impl EnemyWave {
    /// A wave of which no enemy has appeared yet.
    pub fn new(enemies: Vec<Enemy>, spawn_time: u32) -> (wave: Self)
        ensures
            wave.enemies@ == enemies@,
            wave.spawn_time == spawn_time,
            wave.spawn_count == 0,
    {
        EnemyWave { enemies, spawn_time, spawn_count: 0 }
    }
}

impl EnemyWaves {
    /// The waves `waves`, the first of them running.
    pub fn new(waves: Vec<EnemyWave>) -> (all: Self)
        ensures
            all.waves@ == waves@,
            all.current_wave == 0,
    {
        EnemyWaves { waves, current_wave: 0 }
    }
}

impl Default for EnemyWaves {
    fn default() -> (all: Self)
        ensures
            all.waves@.len() == 0,
            all.current_wave == 0,
    {
        EnemyWaves { waves: Vec::new(), current_wave: 0 }
    }
}

/// The kinds of the enemies of the first wave.
pub open spec fn first_wave() -> Seq<EnemyType> {
    seq![EnemyType::Basic, EnemyType::Basic, EnemyType::Basic, EnemyType::Basic, EnemyType::Basic]
}

/// The kinds of the enemies of the second wave.
pub open spec fn second_wave() -> Seq<EnemyType> {
    seq![
        EnemyType::Basic,
        EnemyType::Basic,
        EnemyType::Basic,
        EnemyType::Fast,
        EnemyType::Basic,
        EnemyType::Basic,
    ]
}

/// `wave` is a fresh wave of the standard enemies of the kinds `kinds`, two
/// seconds apart.
pub open spec fn is_fresh_wave(wave: EnemyWave, kinds: Seq<EnemyType>) -> bool {
    &&& wave.spawn_count == 0
    &&& wave.spawn_time == 2
    &&& wave.enemies@ == kinds.map_values(|kind: EnemyType| Enemy::of_type(kind))
}

fn standard_wave(kinds: &Vec<EnemyType>) -> (wave: EnemyWave)
    ensures
        is_fresh_wave(wave, kinds@),
{
    let mut enemies: Vec<Enemy> = Vec::new();
    let mut i: usize = 0;
    while i < kinds.len()
        invariant
            0 <= i <= kinds.len(),
            enemies@.len() == i,
            forall|j: int| 0 <= j < i ==> #[trigger] enemies@[j] == Enemy::of_type(kinds@[j]),
        decreases kinds.len() - i,
    {
        enemies.push(Enemy::standard(kinds[i]));
        i = i + 1;
    }
    assert(enemies@ =~= kinds@.map_values(|kind: EnemyType| Enemy::of_type(kind)));
    EnemyWave::new(enemies, 2)
}

/// Adds the two waves of the game to `enemy_waves`.
pub fn setup_enemy_waves(enemy_waves: &mut EnemyWaves)
    ensures
        final(enemy_waves).current_wave == old(enemy_waves).current_wave,
        final(enemy_waves).waves@.len() == old(enemy_waves).waves@.len() + 2,
        forall|i: int|
            0 <= i < old(enemy_waves).waves@.len() ==> final(enemy_waves).waves@[i] == old(
                enemy_waves
            ).waves@[i],
        is_fresh_wave(final(enemy_waves).waves@[old(enemy_waves).waves@.len() as int], first_wave()),
        is_fresh_wave(
            final(enemy_waves).waves@[old(enemy_waves).waves@.len() as int + 1],
            second_wave(),
        ),
{
    let mut first: Vec<EnemyType> = Vec::new();
    first.push(EnemyType::Basic);
    first.push(EnemyType::Basic);
    first.push(EnemyType::Basic);
    first.push(EnemyType::Basic);
    first.push(EnemyType::Basic);
    assert(first@ =~= first_wave());
    let mut second: Vec<EnemyType> = Vec::new();
    second.push(EnemyType::Basic);
    second.push(EnemyType::Basic);
    second.push(EnemyType::Basic);
    second.push(EnemyType::Fast);
    second.push(EnemyType::Basic);
    second.push(EnemyType::Basic);
    assert(second@ =~= second_wave());
    let wave1 = standard_wave(&first);
    let wave2 = standard_wave(&second);
    enemy_waves.waves.push(wave1);
    enemy_waves.waves.push(wave2);
}

/// Whether the running wave has an enemy that has not appeared yet.
pub open spec fn spawn_due(waves: EnemyWaves) -> bool {
    waves.current_wave < waves.waves@.len() && waves.waves@[waves.current_wave as int].spawn_count
        < waves.waves@[waves.current_wave as int].enemies@.len()
}

/// Called when the spawn timer has run out or not. With the timer run out
/// and an enemy of the running wave left, that enemy appears at the first
/// tile of the enemies' route: it is marked as spawned in its wave, the
/// wave counts it, and it is handed back with its place. Otherwise nothing
/// changes.
pub fn spawn_enemies(
    enemy_waves: &mut EnemyWaves,
    enemy_path: &EnemyPath,
    timer_finished: bool,
) -> (spawned: Option<(TileCoord, Enemy)>)
    requires
        timer_finished ==> enemy_path.0 is Some && enemy_path.0->0@.len() > 0,
    ensures
        !(timer_finished && spawn_due(*old(enemy_waves))) ==> spawned is None && *final(
            enemy_waves
        ) == *old(enemy_waves),
        timer_finished && spawn_due(*old(enemy_waves)) ==> {
            let current = old(enemy_waves).current_wave as int;
            let before = old(enemy_waves).waves@[current];
            let after = final(enemy_waves).waves@[current];
            let at = before.spawn_count as int;
            let enemy = Enemy {
                enemy_type: before.enemies@[at].enemy_type,
                health: before.enemies@[at].health,
                speed: before.enemies@[at].speed,
                spawned: true,
            };
            &&& spawned == Some((enemy_path.0->0@[0], enemy))
            &&& final(enemy_waves).current_wave == old(enemy_waves).current_wave
            &&& final(enemy_waves).waves@.len() == old(enemy_waves).waves@.len()
            &&& forall|i: int|
                0 <= i < old(enemy_waves).waves@.len() && i != current ==> final(enemy_waves).waves@[i] == old(enemy_waves).waves@[i]
            &&& after.spawn_count == before.spawn_count + 1
            &&& after.spawn_time == before.spawn_time
            &&& after.enemies@ == before.enemies@.update(at, enemy)
        },
{
    if !timer_finished {
        return None;
    }
    let start = match &enemy_path.0 {
        Some(path) => path[0],
        None => {
            return None;
        },
    };
    let current = enemy_waves.current_wave;
    if current >= enemy_waves.waves.len() {
        return None;
    }
    let at = enemy_waves.waves[current].spawn_count;
    if at >= enemy_waves.waves[current].enemies.len() {
        return None;
    }
    let mut enemy = enemy_waves.waves[current].enemies[at];
    enemy.spawned = true;
    let mut waves: Vec<EnemyWave> = Vec::new();
    core::mem::swap(&mut waves, &mut enemy_waves.waves);
    let mut wave = waves.remove(current);
    wave.enemies.set(at, enemy);
    wave.spawn_count = at + 1;
    waves.insert(current, wave);
    enemy_waves.waves = waves;
    Some((start, enemy))
}

} // verus!
