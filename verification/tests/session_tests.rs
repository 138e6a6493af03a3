use keyzen::Difficulty;
use keyzen::Exercise;
use keyzen::InputMode;
use keyzen::Lesson;
use keyzen::LessonMeta;
use keyzen::LessonType;
use keyzen::PracticeMode;
use keyzen::TypingEvent;
use keyzen::TypingSession;

fn lesson_with(language: &str, contents: &[&str]) -> Lesson {
    Lesson {
        id: 1,
        lesson_type: LessonType::Prose,
        language: language.to_string(),
        title: "Test Lesson".to_string(),
        description: "A test lesson".to_string(),
        exercises: contents
            .iter()
            .map(|c| Exercise::new(c.to_string()))
            .collect(),
        meta: LessonMeta {
            difficulty: Difficulty::Beginner,
            tags: vec!["test".to_string()],
            estimated_time_secs: 60,
            prerequisite_ids: vec![],
        },
    }
}

fn create_test_lesson() -> Lesson {
    lesson_with("en-US", &["hello world"])
}

#[test]
fn test_typing_session_creation() {
    let lesson = create_test_lesson();
    let session = TypingSession::new(lesson, PracticeMode::Zen, InputMode::Forgiving);
    assert_eq!(session.current_position, 0);
    assert_eq!(session.total_keystrokes, 0);
}

#[test]
fn test_correct_keystroke() {
    let lesson = create_test_lesson();
    let mut session = TypingSession::new(lesson, PracticeMode::Zen, InputMode::Forgiving);

    session.handle_keystroke('h');
    assert_eq!(session.current_position, 1);
    assert_eq!(session.correct_keystrokes, 1);
    assert_eq!(session.error_count(), 0);
}

#[test]
fn test_incorrect_keystroke_forgiving() {
    let lesson = create_test_lesson();
    let mut session = TypingSession::new(lesson, PracticeMode::Zen, InputMode::Forgiving);

    session.handle_keystroke('x');
    assert_eq!(session.current_position, 1);
    assert_eq!(session.error_count(), 1);
}

#[test]
fn test_perfect_run_reaches_end_with_full_accuracy() {
    let lesson = create_test_lesson();
    let mut session = TypingSession::new(lesson, PracticeMode::Zen, InputMode::Forgiving);
    let mut t = 0u64;
    for ch in "hello world".chars() {
        session.handle_keystroke_at(ch, t);
        t += 100;
    }
    assert_eq!(session.current_position, 11);
    assert_eq!(session.correct_keystrokes, 11);
    assert_eq!(session.total_keystrokes, 11);
    assert_eq!(session.error_count(), 0);
    let snap = session.get_snapshot_at(t);
    assert_eq!(snap.accuracy_milli, 1000);
    assert!(snap.recent_errors.is_empty());
    assert!(session.is_current_exercise_complete());
}

#[test]
fn test_forgiving_mismatch_marks_and_advances() {
    let lesson = create_test_lesson();
    let mut session = TypingSession::new(lesson, PracticeMode::Zen, InputMode::Forgiving);
    let mut t = 0u64;
    for ch in ['h', 'e', 'l', 'l', 'o', ' ', 'x'] {
        session.handle_keystroke_at(ch, t);
        t += 100;
    }
    // After the seventh keystroke (x against w), position 6 is marked and
    // the cursor still advanced to 7.
    assert_eq!(session.current_position, 7);
    let snap = session.get_snapshot_at(t);
    assert!(snap.recent_errors.contains(&6));
    for ch in ['o', 'r', 'l', 'd'] {
        session.handle_keystroke_at(ch, t);
        t += 100;
    }
    assert_eq!(session.current_position, 11);
    assert_eq!(session.total_keystrokes, 11);
    assert_eq!(session.correct_keystrokes, 10);
    let snap = session.get_snapshot_at(t);
    // 10 / 11 in thousandths, rounded down.
    assert_eq!(snap.accuracy_milli, 909);
}

#[test]
fn test_strict_mismatch_blocks_cursor() {
    let lesson = create_test_lesson();
    let mut session = TypingSession::new(lesson, PracticeMode::Zen, InputMode::Strict);
    let mut t = 0u64;
    for ch in ['h', 'e', 'l', 'l', 'o', ' '] {
        session.handle_keystroke_at(ch, t);
        t += 100;
    }
    assert_eq!(session.current_position, 6);
    session.handle_keystroke_at('x', t);
    assert_eq!(session.current_position, 6);
    session.handle_keystroke_at('x', t + 100);
    assert_eq!(session.current_position, 6);
    assert_eq!(session.error_count(), 1);
    session.handle_keystroke_at('w', t + 200);
    assert_eq!(session.current_position, 7);
    // Typing the right character clears the mark.
    assert_eq!(session.error_count(), 0);
    // The rejected keystrokes still count toward the denominator.
    assert_eq!(session.total_keystrokes, 9);
    assert_eq!(session.correct_keystrokes, 7);
}

#[test]
fn test_invisible_mismatch_counts_but_marks_nothing() {
    let lesson = create_test_lesson();
    let mut session = TypingSession::new(lesson, PracticeMode::Zen, InputMode::Invisible);
    let mut t = 0u64;
    for ch in ['h', 'e', 'l', 'l', 'o', ' ', 'x'] {
        session.handle_keystroke_at(ch, t);
        t += 100;
    }
    assert_eq!(session.current_position, 7);
    assert_eq!(session.error_count(), 0);
    assert_eq!(session.total_keystrokes, 7);
    assert_eq!(session.correct_keystrokes, 6);
    let snap = session.get_snapshot_at(t);
    assert!(snap.recent_errors.is_empty());
    // Accuracy still reflects the mistake: 6/7 in thousandths.
    assert_eq!(snap.accuracy_milli, 857);
}

#[test]
fn test_backspace_at_zero_is_noop() {
    let lesson = create_test_lesson();
    let mut session = TypingSession::new(lesson, PracticeMode::Zen, InputMode::Forgiving);
    session.handle_keystroke_at('\u{0008}', 0);
    assert_eq!(session.current_position, 0);
    assert_eq!(session.total_keystrokes, 1);
    assert_eq!(session.correct_keystrokes, 0);
    assert!(session.get_input_text().is_empty());
}

#[test]
fn test_backspace_clears_mark_and_queues_correction() {
    let lesson = create_test_lesson();
    let mut session = TypingSession::new(lesson, PracticeMode::Zen, InputMode::Forgiving);
    session.handle_keystroke_at('x', 0);
    assert_eq!(session.error_count(), 1);
    session.handle_keystroke_at('\u{0008}', 100);
    assert_eq!(session.current_position, 0);
    assert_eq!(session.error_count(), 0);
    let events = session.drain_events();
    assert!(events
        .iter()
        .any(|e| matches!(e, TypingEvent::ErrorCorrected { position: 0 })));
}

#[test]
fn test_snapshot_idempotent() {
    let lesson = create_test_lesson();
    let mut session = TypingSession::new(lesson, PracticeMode::Zen, InputMode::Forgiving);
    for (i, ch) in ['h', 'e', 'x'].iter().enumerate() {
        session.handle_keystroke_at(*ch, (i as u64) * 250);
    }
    let a = session.get_snapshot_at(1000);
    let b = session.get_snapshot_at(1000);
    assert_eq!(a.cursor_position, b.cursor_position);
    assert_eq!(a.recent_errors, b.recent_errors);
    assert_eq!(a.current_wpm_milli, b.current_wpm_milli);
    assert_eq!(a.accuracy_milli, b.accuracy_milli);
    assert_eq!(a.progress_milli, b.progress_milli);
}

#[test]
fn test_current_wpm_latin_rate() {
    // Ten correct keystrokes, one every half second, observed at 5 s:
    // 2 chars/s = 24 words/min for five-character words.
    let lesson = lesson_with("en-US", &["aaaaaaaaaaaa"]);
    let mut session = TypingSession::new(lesson, PracticeMode::Zen, InputMode::Forgiving);
    for i in 0..10u64 {
        session.handle_keystroke_at('a', i * 500);
    }
    assert_eq!(session.calculate_current_wpm_at(5000), 24_000);
}

#[test]
fn test_current_wpm_cjk_rate() {
    // Same rate under a CJK language tag: one character is one word.
    let lesson = lesson_with("zh-CN", &["aaaaaaaaaaaa"]);
    let mut session = TypingSession::new(lesson, PracticeMode::Zen, InputMode::Forgiving);
    for i in 0..10u64 {
        session.handle_keystroke_at('a', i * 500);
    }
    assert_eq!(session.calculate_current_wpm_at(5000), 120_000);
}

#[test]
fn test_wpm_zero_on_empty_window() {
    let lesson = create_test_lesson();
    let session = TypingSession::new(lesson, PracticeMode::Zen, InputMode::Forgiving);
    assert_eq!(session.calculate_current_wpm_at(1000), 0);
}

#[test]
fn test_wpm_zero_under_tenth_of_second() {
    let lesson = create_test_lesson();
    let mut session = TypingSession::new(lesson, PracticeMode::Zen, InputMode::Forgiving);
    session.handle_keystroke_at('h', 0);
    assert_eq!(session.calculate_current_wpm_at(50), 0);
}

#[test]
fn test_history_eviction_after_ten_seconds() {
    let lesson = create_test_lesson();
    let mut session = TypingSession::new(lesson, PracticeMode::Zen, InputMode::Forgiving);
    session.handle_keystroke_at('h', 0);
    session.handle_keystroke_at('e', 20_000);
    // Only the second keystroke is within the window at 20 s.
    assert_eq!(session.history.len(), 1);
    assert_eq!(session.history[0].ch, 'e');
}

#[test]
fn test_word_completed_event_on_space() {
    let lesson = create_test_lesson();
    let mut session = TypingSession::new(lesson, PracticeMode::Zen, InputMode::Forgiving);
    let mut t = 0u64;
    for ch in ['h', 'e', 'l', 'l', 'o', ' '] {
        session.handle_keystroke_at(ch, t);
        t += 100;
    }
    let events = session.drain_events();
    assert!(events
        .iter()
        .any(|e| matches!(e, TypingEvent::WordCompleted { .. })));
    assert!(session.drain_events().is_empty());
}

#[test]
fn test_progression_and_navigation() {
    let lesson = lesson_with("en-US", &["ab", "cd", "ef"]);
    let mut session = TypingSession::new(lesson, PracticeMode::Zen, InputMode::Forgiving);
    assert_eq!(session.get_progress(), (0, 3));
    assert!(session.has_next_exercise());
    assert!(!session.has_previous_exercise());
    assert!(session.go_to_next_exercise());
    assert_eq!(session.get_progress(), (1, 3));
    assert_eq!(session.get_target_text().as_str(), "cd");
    assert!(session.go_to_previous_exercise());
    assert_eq!(session.get_progress(), (0, 3));
    assert!(!session.go_to_previous_exercise());
}

#[test]
fn test_advance_records_stats_and_resets() {
    let lesson = lesson_with("en-US", &["ab", "cd"]);
    let mut session = TypingSession::new(lesson, PracticeMode::Zen, InputMode::Forgiving);
    session.handle_keystroke_at('a', 0);
    session.handle_keystroke_at('b', 2_000);
    assert!(session.is_current_exercise_complete());
    let more = session.advance_to_next_exercise_at(3_000);
    assert!(more);
    assert_eq!(session.get_progress(), (1, 2));
    assert_eq!(session.exercise_stats.len(), 1);
    let rec = &session.exercise_stats[0];
    assert_eq!(rec.exercise_index, 0);
    assert_eq!(rec.total_keystrokes, 2);
    assert_eq!(rec.error_count, 0);
    assert_eq!(rec.accuracy_milli, 1000);
    assert_eq!(rec.duration_secs, 3);
    assert_eq!(rec.content_preview, "ab");
    // Typing state was reset for the next exercise.
    assert_eq!(session.current_position, 0);
    assert_eq!(session.total_keystrokes, 0);
}

#[test]
fn test_finalize_session_sums_records() {
    let lesson = lesson_with("en-US", &["ab", "cd"]);
    let mut session = TypingSession::new(lesson, PracticeMode::Zen, InputMode::Forgiving);
    session.handle_keystroke_at('a', 0);
    session.handle_keystroke_at('b', 1_000);
    assert!(session.advance_to_next_exercise_at(2_000));
    session.handle_keystroke_at('x', 10_000);
    session.handle_keystroke_at('\u{0008}', 10_500);
    session.handle_keystroke_at('c', 11_000);
    session.handle_keystroke_at('d', 12_000);
    let stats = session.finalize_session_at(13_000, 77);
    assert_eq!(stats.lesson_id, 1);
    assert_eq!(stats.timestamp, 77);
    assert_eq!(stats.exercise_stats.len(), 2);
    // 2 keystrokes on the first exercise, 4 on the second.
    assert_eq!(stats.total_keystrokes, 6);
    assert_eq!(stats.error_count, 0);
    assert_eq!(stats.duration_secs, 5);
    // 6 correct keystrokes over 5 s: 72 cpm, 14.4 wpm, in thousandths.
    assert_eq!(stats.overall_cpm_milli, 72_000);
    assert_eq!(stats.overall_wpm_milli, 14_400);
    assert_eq!(stats.overall_accuracy_milli, 1000);
}

#[test]
fn test_typing_past_end_moves_nothing() {
    let lesson = lesson_with("en-US", &["ab"]);
    let mut session = TypingSession::new(lesson, PracticeMode::Zen, InputMode::Forgiving);
    session.handle_keystroke_at('a', 0);
    session.handle_keystroke_at('b', 100);
    session.handle_keystroke_at('z', 200);
    assert_eq!(session.current_position, 2);
    assert_eq!(session.total_keystrokes, 3);
    assert_eq!(session.correct_keystrokes, 2);
    assert_eq!(session.error_count(), 0);
}

#[test]
fn test_progress_milli_counts_cursor() {
    let lesson = lesson_with("en-US", &["ab"]);
    let mut session = TypingSession::new(lesson, PracticeMode::Zen, InputMode::Forgiving);
    session.handle_keystroke_at('a', 0);
    let snap = session.get_snapshot_at(100);
    assert_eq!(snap.progress_milli, 500);
}

#[test]
fn test_reset_for_current_exercise_clears_state() {
    let lesson = create_test_lesson();
    let mut session = TypingSession::new(lesson, PracticeMode::Zen, InputMode::Forgiving);
    session.handle_keystroke_at('h', 0);
    session.handle_keystroke_at('x', 100);
    session.reset_for_current_exercise();
    assert_eq!(session.current_position, 0);
    assert_eq!(session.total_keystrokes, 0);
    assert_eq!(session.correct_keystrokes, 0);
    assert_eq!(session.error_count(), 0);
    assert!(session.get_input_text().is_empty());
}

#[test]
fn test_get_input_text_follows_keystrokes() {
    let lesson = create_test_lesson();
    let mut session = TypingSession::new(lesson, PracticeMode::Zen, InputMode::Forgiving);
    session.handle_keystroke_at('h', 0);
    session.handle_keystroke_at('e', 100);
    assert_eq!(session.get_input_text(), "he");
    assert_eq!(session.get_target_text().as_str(), "hello world");
    assert_eq!(session.get_lesson_title().as_str(), "Test Lesson");
    assert_eq!(session.get_current_exercise().content, "hello world");
}
