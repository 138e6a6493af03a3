//! Data model of the typing tutor: lessons, exercises, practice modes and the
//! statistics records produced by a finished session.
//!
//! Rates (words per minute, accuracy, error rate) are carried as integers in
//! thousandths, so that every formula stays exact and checkable.

use vstd::prelude::*;

verus! {

/// How much of the target text is hidden while the learner types from memory.
#[derive(Debug, Clone, Copy, PartialEq, Eq, Structural)]
pub enum MemoryMode {
    /// Show the whole text.
    Off,
    /// Hide a randomly chosen share of the units.
    Partial(PartialLevel),
    /// Hide everything but whitespace and punctuation.
    Complete,
    /// Show only the first letter (or first ideograph) of each unit.
    FirstLetter,
}

/// Share of units hidden by `MemoryMode::Partial`.
#[derive(Debug, Clone, Copy, PartialEq, Eq, Structural)]
pub enum PartialLevel {
    Low,
    Medium,
    High,
}

impl MemoryMode {
    /// The hidden share of this mode, in thousandths.
    pub fn hide_permille(&self) -> (r: u32)
        ensures
            r == self.spec_hide_permille(),
    {
        match self {
            MemoryMode::Off => 0,
            MemoryMode::Partial(PartialLevel::Low) => 300,
            MemoryMode::Partial(PartialLevel::Medium) => 500,
            MemoryMode::Partial(PartialLevel::High) => 700,
            MemoryMode::Complete => 1000,
            // Handled structurally, not by ratio.
            MemoryMode::FirstLetter => 0,
        }
    }

    pub open spec fn spec_hide_permille(self) -> u32 {
        match self {
            MemoryMode::Off => 0u32,
            MemoryMode::Partial(PartialLevel::Low) => 300u32,
            MemoryMode::Partial(PartialLevel::Medium) => 500u32,
            MemoryMode::Partial(PartialLevel::High) => 700u32,
            MemoryMode::Complete => 1000u32,
            MemoryMode::FirstLetter => 0u32,
        }
    }
}

impl Default for MemoryMode {
    fn default() -> (r: Self)
        ensures
            r == MemoryMode::Off,
    {
        MemoryMode::Off
    }
}

/// Broad category of a lesson's content.
#[derive(Debug, Clone, Copy, PartialEq, Eq, Structural)]
pub enum LessonType {
    Prose,
    Code,
    SpecialChars,
    Chinese,
}

/// Difficulty grade of a lesson.
#[derive(Debug, Clone, Copy, PartialEq, Eq, PartialOrd, Ord, Structural)]
pub enum Difficulty {
    Beginner,
    Intermediate,
    Advanced,
}

/// Metadata attached to a lesson.
#[derive(Debug, Clone)]
pub struct LessonMeta {
    pub difficulty: Difficulty,
    pub tags: Vec<String>,
    pub estimated_time_secs: u64,
    pub prerequisite_ids: Vec<u32>,
}

/// One unit of practice: the text to type and an optional hint.
#[derive(Debug, Clone)]
pub struct Exercise {
    pub content: String,
    pub hint: Option<String>,
}

impl Exercise {
    pub fn new(content: String) -> (r: Self)
        ensures
            r.content == content,
            r.hint is None,
    {
        Exercise { content, hint: None }
    }

    pub fn with_hint(content: String, hint: String) -> (r: Self)
        ensures
            r.content == content,
            r.hint == Some(hint),
    {
        Exercise { content, hint: Some(hint) }
    }
}

/// A lesson: an ordered, non-empty list of exercises plus identity and metadata.
#[derive(Debug, Clone)]
pub struct Lesson {
    pub id: u32,
    pub lesson_type: LessonType,
    pub language: String,
    pub title: String,
    pub description: String,
    pub exercises: Vec<Exercise>,
    pub meta: LessonMeta,
}

/// How a mismatched keystroke is treated.
#[derive(Debug, Clone, Copy, PartialEq, Eq, Structural)]
pub enum InputMode {
    /// The cursor does not move until the right character is typed.
    Strict,
    /// The mistake is marked and the cursor moves on.
    Forgiving,
    /// The cursor moves on and the mistake is not marked.
    Invisible,
}

impl Default for InputMode {
    fn default() -> (r: Self)
        ensures
            r == InputMode::Forgiving,
    {
        InputMode::Forgiving
    }
}

/// Overall shape of a practice run.
#[derive(Debug, Clone, Copy, PartialEq, Eq, Structural)]
pub enum PracticeMode {
    Zen,
    Timed,
    Endless,
}

impl Default for PracticeMode {
    fn default() -> (r: Self)
        ensures
            r == PracticeMode::Zen,
    {
        PracticeMode::Zen
    }
}

/// Category of a weak unit reported by the error analysis.
#[derive(Debug, Clone, Copy, PartialEq, Eq, Structural)]
pub enum UnitType {
    Character,
    Word,
    Phrase,
    Token,
}

impl UnitType {
    pub fn as_str(&self) -> (r: &'static str)
        ensures
            r@ == self.spec_as_str(),
    {
        match self {
            UnitType::Character => "character",
            UnitType::Word => "word",
            UnitType::Phrase => "phrase",
            UnitType::Token => "token",
        }
    }

    pub open spec fn spec_as_str(self) -> Seq<char> {
        match self {
            UnitType::Character => "character"@,
            UnitType::Word => "word"@,
            UnitType::Phrase => "phrase"@,
            UnitType::Token => "token"@,
        }
    }

    /// The category a stored name stands for; anything unknown reads as
    /// `Character`.
    pub fn from_str(s: &str) -> (r: Self)
        ensures
            r == UnitType::spec_from_str(s@),
    {
        if crate::text::str_eq(s, "word") {
            UnitType::Word
        } else if crate::text::str_eq(s, "phrase") {
            UnitType::Phrase
        } else if crate::text::str_eq(s, "token") {
            UnitType::Token
        } else {
            UnitType::Character
        }
    }

    pub open spec fn spec_from_str(s: Seq<char>) -> UnitType {
        if s == "word"@ {
            UnitType::Word
        } else if s == "phrase"@ {
            UnitType::Phrase
        } else if s == "token"@ {
            UnitType::Token
        } else {
            UnitType::Character
        }
    }
}

/// A unit of the target text (character, word, phrase) together with how often
/// it was typed and how often it was typed wrongly.
#[derive(Debug, Clone)]
pub struct WeakUnit {
    pub content: String,
    pub unit_type: UnitType,
    pub error_count: usize,
    pub total_count: usize,
    /// `error_count / total_count` in thousandths, 0 when `total_count` is 0.
    pub error_rate_milli: u32,
}

/// The error rate of `errors` mistakes out of `total` attempts, in thousandths.
pub open spec fn spec_error_rate_milli(errors: nat, total: nat) -> nat {
    if total == 0 {
        0
    } else {
        errors * 1000 / total
    }
}

impl WeakUnit {
    pub fn new(content: String, unit_type: UnitType) -> (r: Self)
        ensures
            r.content == content,
            r.unit_type == unit_type,
            r.error_count == 0,
            r.total_count == 0,
            r.error_rate_milli == 0,
    {
        WeakUnit { content, unit_type, error_count: 0, total_count: 0, error_rate_milli: 0 }
    }

    /// Recompute `error_rate_milli` from the two counts.
    pub fn calculate_error_rate(&mut self)
        requires
            old(self).error_count <= old(self).total_count,
        ensures
            final(self).error_rate_milli == spec_error_rate_milli(
                old(self).error_count as nat,
                old(self).total_count as nat,
            ),
            final(self).content == old(self).content,
            final(self).unit_type == old(self).unit_type,
            final(self).error_count == old(self).error_count,
            final(self).total_count == old(self).total_count,
    {
        if self.total_count == 0 {
            self.error_rate_milli = 0;
        } else {
            let wide: u128 = (self.error_count as u128) * 1000;
            let rate: u128 = wide / (self.total_count as u128);
            proof {
                vstd::arithmetic::div_mod::lemma_div_is_ordered(
                    self.error_count as int * 1000,
                    self.total_count as int * 1000,
                    self.total_count as int,
                );
                vstd::arithmetic::div_mod::lemma_div_by_multiple(
                    1000,
                    self.total_count as int,
                );
            }
            self.error_rate_milli = rate as u32;
        }
    }
}

/// Statistics of one finished exercise.
#[derive(Debug)]
pub struct ExerciseStats {
    pub exercise_index: usize,
    /// The first characters of the exercise content, as a reminder.
    pub content_preview: String,
    /// Words per minute, in thousandths.
    pub wpm_milli: u64,
    /// Share of correct keystrokes, in thousandths.
    pub accuracy_milli: u32,
    pub total_keystrokes: usize,
    pub error_count: usize,
    pub duration_secs: u64,
}

/// Statistics of a whole session: per-exercise records plus totals.
#[derive(Debug)]
pub struct SessionStats {
    pub lesson_id: u32,
    pub exercise_stats: Vec<ExerciseStats>,
    /// Words per minute over the whole session, in thousandths.
    pub overall_wpm_milli: u64,
    /// Characters per minute over the whole session, in thousandths.
    pub overall_cpm_milli: u64,
    /// Share of correct keystrokes over the whole session, in thousandths.
    pub overall_accuracy_milli: u32,
    pub total_keystrokes: usize,
    pub error_count: usize,
    pub duration_secs: u64,
    /// Seconds since the Unix epoch at which the session was finalized.
    pub timestamp: i64,
    pub weak_units: Vec<WeakUnit>,
}

/// A notification for the surrounding user interface. Delivery is pull-based:
/// the session queues events and the caller drains them; none is ever required
/// to be consumed.
#[derive(Debug)]
pub enum TypingEvent {
    KeyPressed { ch: char, correct: bool, position: usize },
    WordCompleted { wpm_milli: u64 },
    MilestoneReached { progress_milli: u32 },
    SessionCompleted { stats: SessionStats },
    ErrorCorrected { position: usize },
}

} // verus!
