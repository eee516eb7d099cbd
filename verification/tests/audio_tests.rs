use td_sandbox::audio::GameSound;

#[test]
fn all_variants_covered() {
    assert_eq!(GameSound::all().len(), 9);
}

#[test]
fn duration_values_positive() {
    for sound in GameSound::all() {
        assert!(sound.duration_ms() > 0, "{sound:?} has zero duration");
    }
}

#[test]
fn specific_sound_values() {
    assert_eq!(GameSound::TowerDestroyed.duration_ms(), 300);
    assert_eq!(GameSound::GameOver.duration_ms(), 400);
}

#[test]
fn all_sounds_are_distinct() {
    let sounds = GameSound::all();
    for i in 0..sounds.len() {
        for j in (i + 1)..sounds.len() {
            assert_ne!(sounds[i], sounds[j]);
        }
    }
}

#[test]
fn weapon_sound_durations() {
    assert_eq!(GameSound::TowerScrapgun.duration_ms(), 80);
    assert_eq!(GameSound::TowerExplosive.duration_ms(), 250);
    assert_eq!(GameSound::TowerRailgun.duration_ms(), 50);
    assert_eq!(GameSound::TowerChainLightning.duration_ms(), 120);
    assert_eq!(GameSound::WaveBossSpawn.duration_ms(), 500);
    assert_eq!(GameSound::ScrapDrop.duration_ms(), 60);
}
