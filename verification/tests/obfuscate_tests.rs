use keyzen::Difficulty;
use keyzen::Exercise;
use keyzen::InputMode;
use keyzen::Lesson;
use keyzen::LessonMeta;
use keyzen::LessonType;
use keyzen::MemoryMode;
use keyzen::NoShuffle;
use keyzen::PartialLevel;
use keyzen::PracticeMode;
use keyzen::TypingSession;

fn display_lesson(language: &str, content: &str) -> TypingSession {
    let lesson = Lesson {
        id: 3,
        lesson_type: LessonType::Prose,
        language: language.to_string(),
        title: "display".to_string(),
        description: String::new(),
        exercises: vec![Exercise::new(content.to_string())],
        meta: LessonMeta {
            difficulty: Difficulty::Beginner,
            tags: vec![],
            estimated_time_secs: 10,
            prerequisite_ids: vec![],
        },
    };
    TypingSession::new(lesson, PracticeMode::Zen, InputMode::Forgiving)
}

#[test]
fn test_off_mode_shows_everything() {
    let session = display_lesson("en-US", "ab, cd");
    assert_eq!(session.generate_display_text(MemoryMode::Off), "ab, cd");
}

#[test]
fn test_complete_mode_keeps_punctuation_and_whitespace() {
    let session = display_lesson("en-US", "ab, cd");
    assert_eq!(session.generate_display_text(MemoryMode::Complete), "__, __");
}

#[test]
fn test_complete_mode_keeps_cjk_punctuation() {
    let session = display_lesson("zh-CN", "你好，世界");
    assert_eq!(session.generate_display_text(MemoryMode::Complete), "__，__");
}

#[test]
fn test_first_letter_latin() {
    let session = display_lesson("en-US", "hello world 42x");
    assert_eq!(
        session.generate_display_text(MemoryMode::FirstLetter),
        "h____ w____ 4__"
    );
}

#[test]
fn test_first_letter_ignores_punctuation_inside_words() {
    // Words are whitespace-delimited: an apostrophe does not start a new one.
    let session = display_lesson("en-US", "don't stop");
    assert_eq!(
        session.generate_display_text(MemoryMode::FirstLetter),
        "d__'_ s___"
    );
}

#[test]
fn test_first_char_cjk() {
    // The first ideograph of each run stays; a comma starts a new run.
    let session = display_lesson("zh-CN", "你好，世界");
    assert_eq!(
        session.generate_display_text(MemoryMode::FirstLetter),
        "你_，世_"
    );
}

#[test]
fn test_partial_cjk_hides_exactly_the_rounded_share() {
    // Four ideographs at 50%: exactly two become placeholders, whichever
    // two the shuffle picked.
    let session = display_lesson("zh-CN", "你好世界");
    let out = session.generate_display_text(MemoryMode::Partial(PartialLevel::Medium));
    assert_eq!(out.chars().count(), 4);
    let hidden = out.chars().filter(|c| *c == '_').count();
    assert_eq!(hidden, 2);
}

#[test]
fn test_partial_cjk_deterministic_with_no_shuffle() {
    // Without shuffling, the first ideographs in text order are hidden.
    let session = display_lesson("zh-CN", "你好世界");
    let mut sh = NoShuffle;
    let out = session.generate_display_text_with(MemoryMode::Partial(PartialLevel::Medium), &mut sh);
    assert_eq!(out, "__世界");
}

#[test]
fn test_partial_words_hides_whole_words() {
    // Four words at 50%: two whole words become underscores; punctuation
    // and spaces stay.
    let session = display_lesson("en-US", "aa bb cc dd");
    let out = session.generate_display_text(MemoryMode::Partial(PartialLevel::Medium));
    assert_eq!(out.chars().count(), 11);
    let hidden = out.chars().filter(|c| *c == '_').count();
    assert_eq!(hidden, 4);
    // Spaces survive at their positions.
    let chars: Vec<char> = out.chars().collect();
    assert_eq!(chars[2], ' ');
    assert_eq!(chars[5], ' ');
    assert_eq!(chars[8], ' ');
}

#[test]
fn test_partial_words_deterministic_with_no_shuffle() {
    let session = display_lesson("en-US", "aa bb cc dd");
    let mut sh = NoShuffle;
    let out = session.generate_display_text_with(MemoryMode::Partial(PartialLevel::Medium), &mut sh);
    assert_eq!(out, "__ __ cc dd");
}

#[test]
fn test_partial_low_rounds_to_nearest() {
    // Five ideographs at 30%: round(1.5) hides two.
    let session = display_lesson("zh-CN", "你好世界吗");
    let out = session.generate_display_text(MemoryMode::Partial(PartialLevel::Low));
    let hidden = out.chars().filter(|c| *c == '_').count();
    assert_eq!(hidden, 2);
}
