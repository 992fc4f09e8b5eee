use minefield::{DifficultyLevel, GameConfig, GameDifficulty, GamePersistence, Score};

#[test]
fn difficulty_presets_round_trip() {
    assert_eq!(
        GameDifficulty::from_config(&GameConfig {
            width: 10,
            height: 10,
            mines: 10
        }),
        GameDifficulty::Easy
    );
    assert_eq!(
        GameDifficulty::from_config(&GameConfig {
            width: 16,
            height: 16,
            mines: 40
        }),
        GameDifficulty::Medium
    );
    assert_eq!(
        GameDifficulty::from_config(&GameConfig {
            width: 30,
            height: 16,
            mines: 99
        }),
        GameDifficulty::Hard
    );

    let custom = GameConfig {
        width: 7,
        height: 9,
        mines: 11,
    };
    assert_eq!(
        GameDifficulty::from_config(&custom),
        GameDifficulty::Custom(custom)
    );

    for d in [
        GameDifficulty::Easy,
        GameDifficulty::Medium,
        GameDifficulty::Hard,
        GameDifficulty::Custom(custom),
    ] {
        assert_eq!(GameDifficulty::from_config(&d.config()), d);
    }
}

#[test]
fn difficulty_converts_to_config() {
    assert_eq!(
        GameConfig::from(GameDifficulty::Hard),
        GameConfig {
            width: 30,
            height: 16,
            mines: 99
        }
    );
    assert_eq!(GameConfig::default(), GameDifficulty::easy());
    assert_eq!(
        GameDifficulty::default_custom(),
        GameConfig {
            width: 45,
            height: 24,
            mines: 150
        }
    );
}

#[test]
fn difficulty_levels() {
    assert_eq!(
        DifficultyLevel::of_difficulty(GameDifficulty::Easy),
        Some(DifficultyLevel::Easy)
    );
    assert_eq!(
        DifficultyLevel::of_difficulty(GameDifficulty::Medium),
        Some(DifficultyLevel::Medium)
    );
    assert_eq!(
        DifficultyLevel::of_difficulty(GameDifficulty::Hard),
        Some(DifficultyLevel::Hard)
    );
    assert_eq!(
        DifficultyLevel::of_difficulty(GameDifficulty::Custom(GameConfig::default())),
        None
    );
}

fn score(name: &str, seconds: u64) -> Score {
    Score {
        name: name.to_string(),
        seconds,
    }
}

#[test]
fn high_scores_stay_sorted_and_capped() {
    let mut persistence = GamePersistence::default();
    let level = DifficultyLevel::Easy;

    // an empty table takes the first score at position 0
    assert_eq!(persistence.insert_high_score(level, score("ada", 50)), Some(0));
    // a slower score appends
    assert_eq!(persistence.insert_high_score(level, score("bob", 70)), Some(1));
    // a faster score goes to the front
    assert_eq!(persistence.insert_high_score(level, score("cyd", 40)), Some(0));

    let table = persistence.scores(level);
    assert_eq!(table.len(), 3);
    assert_eq!(table[0].name, "cyd");
    assert_eq!(table[0].seconds, 40);
    assert_eq!(table[1].name, "ada");
    assert_eq!(table[2].name, "bob");

    // a full table drops a score that beats nothing
    assert_eq!(persistence.insert_high_score(level, score("dan", 70)), None);
    assert_eq!(persistence.scores(level).len(), 3);

    // a mid-table score pushes the slowest one out
    assert_eq!(persistence.insert_high_score(level, score("eve", 45)), Some(1));
    let table = persistence.scores(level);
    assert_eq!(table.len(), 3);
    assert_eq!(table[0].name, "cyd");
    assert_eq!(table[1].name, "eve");
    assert_eq!(table[2].name, "ada");

    // other levels were never touched
    assert!(persistence.scores(DifficultyLevel::Medium).is_empty());
    assert!(persistence.scores(DifficultyLevel::Hard).is_empty());
}

#[test]
fn persistence_round_trips_its_parts() {
    let config = GameConfig {
        width: 16,
        height: 16,
        mines: 40,
    };
    let persistence = GamePersistence::new(
        config,
        vec![score("ada", 12)],
        Vec::new(),
        vec![score("bob", 99), score("cyd", 120)],
    );
    assert_eq!(persistence.game_config(), config);
    assert_eq!(persistence.scores(DifficultyLevel::Easy).len(), 1);
    assert_eq!(persistence.scores(DifficultyLevel::Easy)[0].name, "ada");
    assert!(persistence.scores(DifficultyLevel::Medium).is_empty());
    assert_eq!(persistence.scores(DifficultyLevel::Hard).len(), 2);

    let mut persistence = persistence;
    persistence.set_game_config(GameConfig::default());
    assert_eq!(persistence.game_config(), GameConfig::default());
    assert_eq!(persistence.scores(DifficultyLevel::Hard).len(), 2);
}
