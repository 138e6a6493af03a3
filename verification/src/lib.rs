pub mod lessons;
pub mod obfuscate;
pub mod pinyin;
pub mod session;
pub mod stats;
pub mod text;
pub mod types;
pub mod weak;

pub use types::Difficulty;
pub use types::Exercise;
pub use types::ExerciseStats;
pub use types::InputMode;
pub use types::Lesson;
pub use types::LessonMeta;
pub use types::LessonType;
pub use types::MemoryMode;
pub use types::PartialLevel;
pub use types::PracticeMode;
pub use types::SessionStats;
pub use types::TypingEvent;
pub use types::UnitType;
pub use types::WeakUnit;

pub use lessons::filter_indices_by_language;
pub use lessons::filter_indices_by_type;
pub use lessons::find_lesson_by_id;
pub use lessons::merge_lessons;
pub use obfuscate::IndexShuffler;
pub use obfuscate::NoShuffle;
pub use obfuscate::ThreadRngShuffler;
pub use pinyin::PinyinInputResult;
pub use pinyin::PinyinProcessor;
pub use pinyin::PinyinState;
pub use session::SessionSnapshot;
pub use session::TypingSession;
pub use stats::Keystroke;
pub use weak::character_weak_units;
pub use weak::chinese_weak_units;
pub use weak::english_weak_units;
