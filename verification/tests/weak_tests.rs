use keyzen::character_weak_units;
use keyzen::chinese_weak_units;
use keyzen::english_weak_units;
use keyzen::Difficulty;
use keyzen::Exercise;
use keyzen::InputMode;
use keyzen::Lesson;
use keyzen::LessonMeta;
use keyzen::LessonType;
use keyzen::PracticeMode;
use keyzen::TypingSession;
use keyzen::UnitType;

fn make_lesson(language: &str, content: &str) -> Lesson {
    Lesson {
        id: 9,
        lesson_type: LessonType::Prose,
        language: language.to_string(),
        title: "weak".to_string(),
        description: String::new(),
        exercises: vec![Exercise::new(content.to_string())],
        meta: LessonMeta {
            difficulty: Difficulty::Beginner,
            tags: vec![],
            estimated_time_secs: 10,
            prerequisite_ids: vec![],
        },
    }
}

#[test]
fn test_character_with_three_occurrences_one_error_is_retained() {
    let target: Vec<char> = "aaa".chars().collect();
    let flags = vec![true, false, false];
    let units = character_weak_units(&target, &flags);
    assert_eq!(units.len(), 1);
    assert_eq!(units[0].content, "a");
    assert_eq!(units[0].total_count, 3);
    assert_eq!(units[0].error_count, 1);
    // 1/3 in thousandths.
    assert_eq!(units[0].error_rate_milli, 333);
    assert_eq!(units[0].unit_type, UnitType::Character);
}

#[test]
fn test_character_with_two_occurrences_is_discarded() {
    let target: Vec<char> = "aa".chars().collect();
    let flags = vec![true, false];
    let units = character_weak_units(&target, &flags);
    assert!(units.is_empty());
}

#[test]
fn test_low_error_rate_is_discarded() {
    // 1 error out of 10: 10% is under the 15% threshold.
    let target: Vec<char> = "aaaaaaaaaa".chars().collect();
    let mut flags = vec![false; 10];
    flags[0] = true;
    let units = character_weak_units(&target, &flags);
    assert!(units.is_empty());
}

#[test]
fn test_units_are_ranked_by_error_rate() {
    // 'a': 2 errors of 3; 'b': 1 error of 3.
    let target: Vec<char> = "aaabbb".chars().collect();
    let flags = vec![true, true, false, true, false, false];
    let units = character_weak_units(&target, &flags);
    assert_eq!(units.len(), 2);
    assert_eq!(units[0].content, "a");
    assert_eq!(units[0].error_rate_milli, 666);
    assert_eq!(units[1].content, "b");
    assert_eq!(units[1].error_rate_milli, 333);
}

#[test]
fn test_english_words_are_counted() {
    // The word "the" occurs three times; the first occurrence is marked.
    let target: Vec<char> = "the the the".chars().collect();
    let mut flags = vec![false; target.len()];
    flags[0] = true;
    let units = english_weak_units(&target, &flags);
    assert_eq!(units.len(), 1);
    assert_eq!(units[0].content, "the");
    assert_eq!(units[0].unit_type, UnitType::Word);
    assert_eq!(units[0].total_count, 3);
    assert_eq!(units[0].error_count, 1);
}

#[test]
fn test_english_punctuation_is_counted_per_character() {
    let target: Vec<char> = "a! b! c!".chars().collect();
    let mut flags = vec![false; target.len()];
    flags[1] = true;
    let units = english_weak_units(&target, &flags);
    let bang = units.iter().find(|u| u.content == "!").expect("! unit");
    assert_eq!(bang.unit_type, UnitType::Character);
    assert_eq!(bang.total_count, 3);
    assert_eq!(bang.error_count, 1);
}

#[test]
fn test_chinese_characters_and_bigrams() {
    let target: Vec<char> = "你好你好你好".chars().collect();
    let flags = vec![true, false, false, false, false, false];
    let units = chinese_weak_units(&target, &flags);
    let single = units.iter().find(|u| u.content == "你").expect("你 unit");
    assert_eq!(single.unit_type, UnitType::Character);
    assert_eq!(single.total_count, 3);
    assert_eq!(single.error_count, 1);
    let pair = units.iter().find(|u| u.content == "你好").expect("你好 unit");
    assert_eq!(pair.unit_type, UnitType::Phrase);
    // Adjacent pairs: 你好, 好你, 你好, 好你, 你好.
    assert_eq!(pair.total_count, 3);
    assert_eq!(pair.error_count, 1);
}

#[test]
fn test_at_most_ten_units_reported() {
    // Twelve distinct characters, each failing every time.
    let mut text = String::new();
    for c in "abcdefghijkl".chars() {
        for _ in 0..3 {
            text.push(c);
        }
    }
    let target: Vec<char> = text.chars().collect();
    let flags = vec![true; target.len()];
    let units = character_weak_units(&target, &flags);
    assert_eq!(units.len(), 10);
}

#[test]
fn test_session_extracts_character_units_for_other_languages() {
    let lesson = make_lesson("fr-FR", "sss");
    let mut session = TypingSession::new(lesson, PracticeMode::Zen, InputMode::Forgiving);
    // Mistype the first s, then type the rest correctly.
    session.handle_keystroke_at('x', 0);
    session.handle_keystroke_at('s', 100);
    session.handle_keystroke_at('s', 200);
    let units = session.extract_weak_units();
    assert_eq!(units.len(), 1);
    assert_eq!(units[0].content, "s");
    assert_eq!(units[0].total_count, 3);
    assert_eq!(units[0].error_count, 1);
}
