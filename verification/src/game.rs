//! Game configuration, difficulty presets, and high-score bookkeeping: the
//! plain data the application layer drives the engine with.

use vstd::prelude::*;

verus! {

/// How many high scores are kept per difficulty level.
pub const MAX_HIGH_SCORES_PER_LEVEL: usize = 3;

/// The specifications of a game: field size and number of mines.
#[derive(Debug, Clone, Copy, PartialEq, Eq, Structural)]
pub struct GameConfig {
    pub width: u16,
    pub height: u16,
    pub mines: u32,
}

/// The preset configuration of an easy game.
pub open spec fn easy_config() -> GameConfig {
    GameConfig { width: 10, height: 10, mines: 10 }
}

/// The preset configuration of a medium game.
pub open spec fn medium_config() -> GameConfig {
    GameConfig { width: 16, height: 16, mines: 40 }
}

/// The preset configuration of a hard game.
pub open spec fn hard_config() -> GameConfig {
    GameConfig { width: 30, height: 16, mines: 99 }
}

/// The starting configuration offered for a custom game.
pub open spec fn default_custom_config() -> GameConfig {
    GameConfig { width: 45, height: 24, mines: 150 }
}

impl Default for GameConfig {
    /// The default game: an easy one.
    fn default() -> (r: Self)
        ensures
            r == easy_config(),
    {
        GameConfig { width: 10, height: 10, mines: 10 }
    }
}

/// A description of the game difficulty, with a special entry for custom
/// games.
#[derive(Debug, Clone, Copy, PartialEq, Eq, Structural)]
pub enum GameDifficulty {
    Easy,
    Medium,
    Hard,
    Custom(GameConfig),
}

/// The configuration a difficulty stands for.
pub open spec fn config_of_difficulty(d: GameDifficulty) -> GameConfig {
    match d {
        GameDifficulty::Easy => easy_config(),
        GameDifficulty::Medium => medium_config(),
        GameDifficulty::Hard => hard_config(),
        GameDifficulty::Custom(gc) => gc,
    }
}

/// The difficulty a configuration stands for: the preset that matches it
/// exactly, or custom.
pub open spec fn difficulty_of_config(c: GameConfig) -> GameDifficulty {
    if c == easy_config() {
        GameDifficulty::Easy
    } else if c == medium_config() {
        GameDifficulty::Medium
    } else if c == hard_config() {
        GameDifficulty::Hard
    } else {
        GameDifficulty::Custom(c)
    }
}

impl GameDifficulty {
    /// The preset configuration of an easy game.
    pub fn easy() -> (r: GameConfig)
        ensures
            r == easy_config(),
    {
        GameConfig { width: 10, height: 10, mines: 10 }
    }

    /// The preset configuration of a medium game.
    pub fn medium() -> (r: GameConfig)
        ensures
            r == medium_config(),
    {
        GameConfig { width: 16, height: 16, mines: 40 }
    }

    /// The preset configuration of a hard game.
    pub fn hard() -> (r: GameConfig)
        ensures
            r == hard_config(),
    {
        GameConfig { width: 30, height: 16, mines: 99 }
    }

    /// The starting configuration offered for a custom game.
    pub fn default_custom() -> (r: GameConfig)
        ensures
            r == default_custom_config(),
    {
        GameConfig { width: 45, height: 24, mines: 150 }
    }

    /// The configuration this difficulty stands for.
    pub fn config(&self) -> (r: GameConfig)
        ensures
            r == config_of_difficulty(*self),
    {
        match self {
            GameDifficulty::Easy => Self::easy(),
            GameDifficulty::Medium => Self::medium(),
            GameDifficulty::Hard => Self::hard(),
            GameDifficulty::Custom(gc) => *gc,
        }
    }

    /// Classify a configuration: the preset difficulty it matches exactly,
    /// or custom.
    pub fn from_config(config: &GameConfig) -> (r: Self)
        ensures
            r == difficulty_of_config(*config),
    {
        if *config == Self::easy() {
            Self::Easy
        } else if *config == Self::medium() {
            Self::Medium
        } else if *config == Self::hard() {
            Self::Hard
        } else {
            Self::Custom(*config)
        }
    }
}

impl From<GameDifficulty> for GameConfig {
    fn from(val: GameDifficulty) -> (r: GameConfig) {
        val.config()
    }
}

impl vstd::std_specs::convert::FromSpecImpl<GameDifficulty> for GameConfig {
    open spec fn obeys_from_spec() -> bool {
        true
    }

    open spec fn from_spec(val: GameDifficulty) -> GameConfig {
        config_of_difficulty(val)
    }
}

/// All standard difficulty levels (those that do not describe a custom
/// game).
#[derive(Debug, Clone, Copy, PartialEq, Eq, PartialOrd, Ord, Hash, Structural)]
pub enum DifficultyLevel {
    Easy,
    Medium,
    Hard,
}

/// The standard level a difficulty stands for, if any.
pub open spec fn level_of_difficulty(d: GameDifficulty) -> Option<DifficultyLevel> {
    match d {
        GameDifficulty::Easy => Some(DifficultyLevel::Easy),
        GameDifficulty::Medium => Some(DifficultyLevel::Medium),
        GameDifficulty::Hard => Some(DifficultyLevel::Hard),
        GameDifficulty::Custom(_) => None,
    }
}

impl DifficultyLevel {
    /// The standard level a difficulty stands for; a custom game has none.
    pub fn of_difficulty(d: GameDifficulty) -> (r: Option<DifficultyLevel>)
        ensures
            r == level_of_difficulty(d),
    {
        match d {
            GameDifficulty::Easy => Some(DifficultyLevel::Easy),
            GameDifficulty::Medium => Some(DifficultyLevel::Medium),
            GameDifficulty::Hard => Some(DifficultyLevel::Hard),
            GameDifficulty::Custom(_) => None,
        }
    }
}

/// A description of a high score: who cleared the field and in how many
/// seconds.
#[derive(Debug, Clone)]
pub struct Score {
    pub name: String,
    pub seconds: u64,
}

/// The location of a high score in a record of high scores: the level's
/// table and the position in it.
#[derive(Debug, Clone)]
pub struct HighScoreLocation {
    pub difficulty_level: DifficultyLevel,
    pub index: usize,
}

/// Whether a score of `sec` seconds may enter position `i` of the table `s`:
/// the position is past the table's end, or strictly beats the score held
/// there.
pub open spec fn score_fits(s: Seq<Score>, sec: u64, i: int) -> bool {
    i >= s.len() || sec < s[i].seconds
}

/// The position a score of `sec` seconds takes in the table `s`: the first
/// of the kept positions it fits, if any.
pub open spec fn score_slot(s: Seq<Score>, sec: u64) -> Option<int> {
    if score_fits(s, sec, 0) {
        Some(0int)
    } else if score_fits(s, sec, 1) {
        Some(1int)
    } else if score_fits(s, sec, 2) {
        Some(2int)
    } else {
        None
    }
}

/// The table after a score enters at position `i`: inserted there, with the
/// table then cut back to the kept length; a position past the end appends.
pub open spec fn scores_after_insert(s: Seq<Score>, score: Score, i: int) -> Seq<Score> {
    if i < s.len() {
        let t = s.insert(i, score);
        if t.len() > MAX_HIGH_SCORES_PER_LEVEL as int {
            t.take(MAX_HIGH_SCORES_PER_LEVEL as int)
        } else {
            t
        }
    } else {
        s.push(score)
    }
}

/// Insert a score into a high-score table, keeping at most
/// [`MAX_HIGH_SCORES_PER_LEVEL`] entries ordered by their seconds, and
/// return the position it took, if it took one.
fn insert_score(scores: &mut Vec<Score>, score: Score) -> (r: Option<usize>)
    ensures
        score_slot(old(scores)@, score.seconds) is None ==> r is None && final(scores)@ == old(
            scores,
        )@,
        (score_slot(old(scores)@, score.seconds) matches Some(i) ==> r == Some(i as usize)
            && final(scores)@ == scores_after_insert(old(scores)@, score, i)),
{
    let mut i: usize = 0;
    while i < MAX_HIGH_SCORES_PER_LEVEL
        invariant
            0 <= i <= MAX_HIGH_SCORES_PER_LEVEL,
            scores@ == old(scores)@,
            forall|j: int| 0 <= j < i as int ==> !score_fits(scores@, score.seconds, j),
        decreases MAX_HIGH_SCORES_PER_LEVEL - i,
    {
        if i < scores.len() {
            if score.seconds < scores[i].seconds {
                scores.insert(i, score);
                scores.truncate(MAX_HIGH_SCORES_PER_LEVEL);
                return Some(i);
            }
        } else {
            scores.push(score);
            return Some(i);
        }
        i = i + 1;
    }
    None
}

/// A record of the game configuration and the high scores of each standard
/// difficulty level.
#[derive(Debug, Clone)]
pub struct GamePersistence {
    game_config: GameConfig,
    easy_scores: Vec<Score>,
    medium_scores: Vec<Score>,
    hard_scores: Vec<Score>,
}

impl GamePersistence {
    /// The configuration to start the next game with.
    pub closed spec fn spec_game_config(&self) -> GameConfig {
        self.game_config
    }

    /// The configuration to start the next game with.
    pub fn game_config(&self) -> (r: GameConfig)
        ensures
            r == self.spec_game_config(),
    {
        self.game_config
    }

    /// Replace the configuration to start the next game with.
    pub fn set_game_config(&mut self, game_config: GameConfig)
        ensures
            final(self).spec_game_config() == game_config,
            forall|l: DifficultyLevel| #[trigger] final(self).scores_at(l) == old(self).scores_at(
                l,
            ),
    {
        self.game_config = game_config;
    }

    /// The high-score table of a level.
    pub closed spec fn scores_at(&self, level: DifficultyLevel) -> Seq<Score> {
        match level {
            DifficultyLevel::Easy => self.easy_scores@,
            DifficultyLevel::Medium => self.medium_scores@,
            DifficultyLevel::Hard => self.hard_scores@,
        }
    }

    /// A record made from its parts.
    pub fn new(
        game_config: GameConfig,
        easy_scores: Vec<Score>,
        medium_scores: Vec<Score>,
        hard_scores: Vec<Score>,
    ) -> (r: Self)
        ensures
            r.spec_game_config() == game_config,
            r.scores_at(DifficultyLevel::Easy) == easy_scores@,
            r.scores_at(DifficultyLevel::Medium) == medium_scores@,
            r.scores_at(DifficultyLevel::Hard) == hard_scores@,
    {
        GamePersistence { game_config, easy_scores, medium_scores, hard_scores }
    }

    /// The high scores of a level, best first.
    pub fn scores(&self, level: DifficultyLevel) -> (r: &Vec<Score>)
        ensures
            r@ == self.scores_at(level),
    {
        match level {
            DifficultyLevel::Easy => &self.easy_scores,
            DifficultyLevel::Medium => &self.medium_scores,
            DifficultyLevel::Hard => &self.hard_scores,
        }
    }

    /// Try to insert a high score for the given level and return the table
    /// index if insertion was successful.  Only a score strictly better than
    /// a kept one enters a full table; tables never exceed
    /// [`MAX_HIGH_SCORES_PER_LEVEL`] entries.
    pub fn insert_high_score(&mut self, level: DifficultyLevel, score: Score) -> (r: Option<usize>)
        ensures
            final(self).spec_game_config() == old(self).spec_game_config(),
            forall|l: DifficultyLevel|
                l != level ==> final(self).scores_at(l) == old(self).scores_at(l),
            score_slot(old(self).scores_at(level), score.seconds) is None ==> r is None
                && final(self).scores_at(level) == old(self).scores_at(level),
            (score_slot(old(self).scores_at(level), score.seconds) matches Some(i) ==> r == Some(
                i as usize,
            ) && final(self).scores_at(level) == scores_after_insert(
                old(self).scores_at(level),
                score,
                i,
            )),
    {
        match level {
            DifficultyLevel::Easy => insert_score(&mut self.easy_scores, score),
            DifficultyLevel::Medium => insert_score(&mut self.medium_scores, score),
            DifficultyLevel::Hard => insert_score(&mut self.hard_scores, score),
        }
    }
}

impl Default for GamePersistence {
    /// A fresh record: the default configuration and no high scores yet.
    fn default() -> (r: Self)
        ensures
            r.spec_game_config() == easy_config(),
            forall|l: DifficultyLevel| #[trigger] r.scores_at(l) == Seq::<Score>::empty(),
    {
        GamePersistence {
            game_config: GameConfig { width: 10, height: 10, mines: 10 },
            easy_scores: Vec::new(),
            medium_scores: Vec::new(),
            hard_scores: Vec::new(),
        }
    }
}

/// Player actions on the minefield.
#[derive(Debug, Clone)]
pub enum MinesweepMessage {
    /// User is stepping on a spot
    Step { x: u16, y: u16 },
    /// User is autostepping around a spot
    AutoStep { x: u16, y: u16 },
    /// User is toggling a flag on a spot
    Flag { x: u16, y: u16 },
}

/// Actions on the game settings.
#[derive(Debug, Clone)]
pub enum SettingsMessage {
    /// Show the settings view
    Show,
    /// Apply the game configuration specified in the settings view
    Apply(GameDifficulty),
    /// A new game difficulty has been picked, but not yet applied
    Picked(GameDifficulty),
    /// A new custom width has been entered, but not yet applied
    ConfigWidth(u16),
    /// A new custom height has been entered, but not yet applied
    ConfigHeight(u16),
    /// A new custom mine count has been entered, but not yet applied
    ConfigMines(u32),
    /// Discard the settings view without applying any settings
    Discard,
}

/// Actions while recording a fresh high score.
#[derive(Debug, Clone)]
pub enum RecordHighScore {
    NameChanged(String),
    RecordName,
    Discard,
}

/// Notifications about loading and saving the game's persistent record.
#[derive(Debug, Clone)]
pub enum PersistenceMessage {
    LoadedConfigs(Option<GamePersistence>),
    SavedConfigs,
}

/// Relies on `std::time::Instant` as an opaque timestamp: the library only
/// carries it through [`Message::Tick`], never reads it.
#[verifier::external_type_specification]
#[verifier::external_body]
pub struct ExInstant(std::time::Instant);

/// Relies on `std::time::Instant::clone`: `Instant` is `Copy`, so its
/// derived clone is the value itself.
pub assume_specification[ <std::time::Instant as Clone>::clone ](v: &std::time::Instant) -> (r:
    std::time::Instant)
    ensures
        r == *v,
;

/// Everything the surrounding application reacts to.
#[derive(Debug, Clone)]
pub enum Message {
    /// Restart the game
    Reset,
    /// The info view has been requested
    Info,
    /// The high scores view has been requested
    HighScores,
    /// A new high score needs to be recorded
    HighScore(RecordHighScore),
    /// Messages related to game settings
    Settings(SettingsMessage),
    /// Messages related to playing the game
    Minesweep(MinesweepMessage),
    /// Load/Save game configs
    Persistance(PersistenceMessage),
    /// Message which informs us that a second has passed
    Tick(std::time::Instant),
}

} // verus!
