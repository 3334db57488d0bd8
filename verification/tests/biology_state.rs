use polyverse_agent::biology::{BiologyState, Mood};

#[test]
fn test_default_biology() {
    let bio = BiologyState::new();
    assert_eq!(bio.energy, 100_000_000);
    assert_eq!(bio.mood, Mood::Neutral);
    assert!(!bio.is_sleeping);
    assert!(!bio.is_exhausted());
}

#[test]
fn test_energy_drain_and_recovery() {
    let mut bio = BiologyState::new();
    bio.drain_energy(30_000_000);
    assert_eq!(bio.energy, 70_000_000);

    bio.drain_energy(80_000_000);
    assert_eq!(bio.energy, 0); // clamped

    bio.recover_energy(50_000_000);
    assert_eq!(bio.energy, 50_000_000);

    bio.recover_energy(200_000_000);
    assert_eq!(bio.energy, 100_000_000); // clamped
}

#[test]
fn test_exhaustion() {
    let mut bio = BiologyState::new();
    assert!(!bio.is_exhausted());
    bio.drain_energy(95_000_000);
    assert!(bio.is_exhausted());
}

#[test]
fn test_mood_update() {
    let mut bio = BiologyState::new();
    bio.update_mood(Mood::Angry, -800_000);
    assert_eq!(bio.mood, Mood::Angry);
    assert!(bio.is_negative_mood());
    assert_eq!(bio.mood_valence, -800_000);

    // valence clamping
    bio.update_mood(Mood::Excited, 5_000_000);
    assert_eq!(bio.mood_valence, 1_000_000);
}
