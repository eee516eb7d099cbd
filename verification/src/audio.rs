//! Game sounds and their durations.

use vstd::prelude::*;

verus! {

/// All game sounds, grouped by category.
#[derive(Clone, Copy, Debug, PartialEq, Eq, Hash, Structural)]
pub enum GameSound {
    // Tower weapons
    TowerScrapgun,
    TowerExplosive,
    TowerRailgun,
    TowerChainLightning,
    // Tower state
    TowerDestroyed,
    TowerRepaired,
    // Enemy
    EnemyDeath,
    EnemyBruteAttack,
    // Economy
    ScrapDrop,
    ScrapCollected,
    // Wave / game
    WaveBossSpawn,
    WaveStart,
    GameOver,
}

/// Duration of each sound in milliseconds.
pub open spec fn spec_duration_ms(sound: GameSound) -> u64 {
    match sound {
        GameSound::TowerScrapgun => 80,
        GameSound::TowerExplosive => 250,
        GameSound::TowerRailgun => 50,
        GameSound::TowerChainLightning => 120,
        GameSound::TowerDestroyed => 300,
        GameSound::TowerRepaired => 150,
        GameSound::EnemyDeath => 150,
        GameSound::EnemyBruteAttack => 100,
        GameSound::ScrapDrop => 60,
        GameSound::ScrapCollected => 100,
        GameSound::WaveBossSpawn => 500,
        GameSound::WaveStart => 200,
        GameSound::GameOver => 400,
    }
}

/// The sounds that get a generated pitch asset at startup.
pub open spec fn spec_all_sounds() -> Seq<GameSound> {
    seq![
        GameSound::TowerDestroyed,
        GameSound::TowerRepaired,
        GameSound::EnemyDeath,
        GameSound::EnemyBruteAttack,
        GameSound::ScrapDrop,
        GameSound::ScrapCollected,
        GameSound::WaveBossSpawn,
        GameSound::WaveStart,
        GameSound::GameOver,
    ]
}

impl GameSound {
    /// The sounds that get a generated pitch asset at startup, for iteration
    /// in asset initialisation and tests.
    pub fn all() -> (sounds: Vec<GameSound>)
        ensures
            sounds@ == spec_all_sounds(),
    {
        let sounds = vec![
            GameSound::TowerDestroyed,
            GameSound::TowerRepaired,
            GameSound::EnemyDeath,
            GameSound::EnemyBruteAttack,
            GameSound::ScrapDrop,
            GameSound::ScrapCollected,
            GameSound::WaveBossSpawn,
            GameSound::WaveStart,
            GameSound::GameOver,
        ];
        assert(sounds@ =~= spec_all_sounds());
        sounds
    }

    /// Duration in milliseconds; every sound lasts a positive time.
    pub fn duration_ms(&self) -> (ms: u64)
        ensures
            ms == spec_duration_ms(*self),
            ms > 0,
            50 <= ms <= 500,
    {
        match self {
            GameSound::TowerScrapgun => 80,
            GameSound::TowerExplosive => 250,
            GameSound::TowerRailgun => 50,
            GameSound::TowerChainLightning => 120,
            GameSound::TowerDestroyed => 300,
            GameSound::TowerRepaired => 150,
            GameSound::EnemyDeath => 150,
            GameSound::EnemyBruteAttack => 100,
            GameSound::ScrapDrop => 60,
            GameSound::ScrapCollected => 100,
            GameSound::WaveBossSpawn => 500,
            GameSound::WaveStart => 200,
            GameSound::GameOver => 400,
        }
    }
}

/// The sound timing table: weapon shots are short (railgun 50, scrapgun 80,
/// chain lightning 120, explosive 250 ms); tower destruction 300 and repair
/// 150 ms; an enemy death 150 and a brute's blow 100 ms; a scrap drop 60 and
/// a pickup 100 ms; a boss wave announcement 500, a wave start 200 and the
/// game-over sting 400 ms. No sound lasts under 50 or over 500 ms.
pub proof fn lemma_sound_durations(sound: GameSound)
    ensures
        50 <= spec_duration_ms(sound) <= 500,
        sound == GameSound::TowerScrapgun ==> spec_duration_ms(sound) == 80,
        sound == GameSound::TowerExplosive ==> spec_duration_ms(sound) == 250,
        sound == GameSound::TowerRailgun ==> spec_duration_ms(sound) == 50,
        sound == GameSound::TowerChainLightning ==> spec_duration_ms(sound) == 120,
        sound == GameSound::TowerDestroyed ==> spec_duration_ms(sound) == 300,
        sound == GameSound::TowerRepaired ==> spec_duration_ms(sound) == 150,
        sound == GameSound::EnemyDeath ==> spec_duration_ms(sound) == 150,
        sound == GameSound::EnemyBruteAttack ==> spec_duration_ms(sound) == 100,
        sound == GameSound::ScrapDrop ==> spec_duration_ms(sound) == 60,
        sound == GameSound::ScrapCollected ==> spec_duration_ms(sound) == 100,
        sound == GameSound::WaveBossSpawn ==> spec_duration_ms(sound) == 500,
        sound == GameSound::WaveStart ==> spec_duration_ms(sound) == 200,
        sound == GameSound::GameOver ==> spec_duration_ms(sound) == 400,
{
}

} // verus!
