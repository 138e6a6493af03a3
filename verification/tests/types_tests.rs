use keyzen::find_lesson_by_id;
use keyzen::merge_lessons;
use keyzen::Difficulty;
use keyzen::Exercise;
use keyzen::InputMode;
use keyzen::Lesson;
use keyzen::LessonMeta;
use keyzen::LessonType;
use keyzen::MemoryMode;
use keyzen::PartialLevel;
use keyzen::PracticeMode;
use keyzen::UnitType;
use keyzen::WeakUnit;

fn lesson(id: u32, title: &str) -> Lesson {
    Lesson {
        id,
        lesson_type: LessonType::Prose,
        language: "en-US".to_string(),
        title: title.to_string(),
        description: String::new(),
        exercises: vec![Exercise::new("x".to_string())],
        meta: LessonMeta {
            difficulty: Difficulty::Beginner,
            tags: vec![],
            estimated_time_secs: 1,
            prerequisite_ids: vec![],
        },
    }
}

#[test]
fn test_exercise_constructors() {
    let e = Exercise::new("abc".to_string());
    assert_eq!(e.content, "abc");
    assert!(e.hint.is_none());
    let h = Exercise::with_hint("abc".to_string(), "tip".to_string());
    assert_eq!(h.content, "abc");
    assert_eq!(h.hint.as_deref(), Some("tip"));
}

#[test]
fn test_unit_type_round_trip() {
    for t in [
        UnitType::Character,
        UnitType::Word,
        UnitType::Phrase,
        UnitType::Token,
    ] {
        assert_eq!(UnitType::from_str(t.as_str()), t);
    }
    assert_eq!(UnitType::from_str("anything else"), UnitType::Character);
    assert_eq!(UnitType::Word.as_str(), "word");
}

#[test]
fn test_memory_mode_hide_share() {
    assert_eq!(MemoryMode::Off.hide_permille(), 0);
    assert_eq!(MemoryMode::Partial(PartialLevel::Low).hide_permille(), 300);
    assert_eq!(
        MemoryMode::Partial(PartialLevel::Medium).hide_permille(),
        500
    );
    assert_eq!(MemoryMode::Partial(PartialLevel::High).hide_permille(), 700);
    assert_eq!(MemoryMode::Complete.hide_permille(), 1000);
    assert_eq!(MemoryMode::FirstLetter.hide_permille(), 0);
}

#[test]
fn test_defaults() {
    assert_eq!(InputMode::default(), InputMode::Forgiving);
    assert_eq!(PracticeMode::default(), PracticeMode::Zen);
    assert_eq!(MemoryMode::default(), MemoryMode::Off);
}

#[test]
fn test_weak_unit_error_rate() {
    let mut u = WeakUnit::new("th".to_string(), UnitType::Word);
    assert_eq!(u.total_count, 0);
    assert_eq!(u.error_rate_milli, 0);
    u.total_count = 10;
    u.error_count = 3;
    u.calculate_error_rate();
    assert_eq!(u.error_rate_milli, 300);
    u.total_count = 0;
    u.error_count = 0;
    u.calculate_error_rate();
    assert_eq!(u.error_rate_milli, 0);
}

#[test]
fn test_merge_lessons_user_overrides_builtin() {
    let builtin = vec![lesson(2, "builtin two"), lesson(1, "builtin one")];
    let user = vec![lesson(2, "user two"), lesson(5, "user five")];
    let merged = merge_lessons(builtin, user);
    let ids: Vec<u32> = merged.iter().map(|l| l.id).collect();
    assert_eq!(ids, vec![1, 2, 5]);
    assert_eq!(merged[0].title, "builtin one");
    assert_eq!(merged[1].title, "user two");
    assert_eq!(merged[2].title, "user five");
}

#[test]
fn test_find_lesson_by_id() {
    let lessons = vec![lesson(1, "a"), lesson(4, "b"), lesson(9, "c")];
    assert_eq!(find_lesson_by_id(&lessons, 4), Some(1));
    assert_eq!(find_lesson_by_id(&lessons, 7), None);
}

#[test]
fn test_filter_lessons() {
    let mut chinese = lesson(3, "zh");
    chinese.lesson_type = LessonType::Chinese;
    chinese.language = "zh-CN".to_string();
    let lessons = vec![lesson(1, "a"), chinese, lesson(5, "b")];
    let by_type = keyzen::filter_indices_by_type(&lessons, LessonType::Chinese);
    assert_eq!(by_type, vec![1]);
    let by_lang = keyzen::filter_indices_by_language(&lessons, "en-US");
    assert_eq!(by_lang, vec![0, 2]);
}
