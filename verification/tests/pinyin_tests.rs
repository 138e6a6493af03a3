use keyzen::PinyinInputResult;
use keyzen::PinyinProcessor;

#[test]
fn test_basic_pinyin_input() {
    let mut processor = PinyinProcessor::new();

    assert_eq!(processor.handle_input('n'), PinyinInputResult::Composing);
    assert_eq!(processor.handle_input('i'), PinyinInputResult::Composing);
    assert!(processor.state().composing);
    assert_eq!(processor.state().buffer, "ni");
    assert!(!processor.state().candidates.is_empty());

    let result = processor.handle_input(' ');
    assert!(matches!(result, PinyinInputResult::Commit('你')));
    assert!(!processor.state().composing);
    assert!(processor.state().buffer.is_empty());
}

#[test]
fn test_number_selection() {
    let mut processor = PinyinProcessor::new();

    processor.handle_input('h');
    processor.handle_input('a');
    processor.handle_input('o');

    let result = processor.handle_input('2');
    if let PinyinInputResult::Commit(ch) = result {
        assert_eq!(ch, '号');
    } else {
        panic!("Expected Commit result");
    }
}

#[test]
fn test_backspace() {
    let mut processor = PinyinProcessor::new();

    processor.handle_input('n');
    processor.handle_input('i');
    assert_eq!(processor.state().buffer, "ni");

    processor.handle_input('\u{0008}');
    assert_eq!(processor.state().buffer, "n");

    processor.handle_input('\u{0008}');
    assert_eq!(processor.state().buffer, "");
    assert!(!processor.state().composing);
}

#[test]
fn test_passthrough() {
    let mut processor = PinyinProcessor::new();

    let result = processor.handle_input('!');
    assert_eq!(result, PinyinInputResult::PassThrough('!'));
}

#[test]
fn test_reset() {
    let mut processor = PinyinProcessor::new();

    processor.handle_input('n');
    processor.handle_input('i');
    assert!(processor.state().composing);

    processor.reset();
    assert!(!processor.state().composing);
    assert!(processor.state().buffer.is_empty());
}

#[test]
fn test_uppercase_letters_fold_to_lowercase() {
    let mut processor = PinyinProcessor::new();
    processor.handle_input('N');
    processor.handle_input('I');
    assert_eq!(processor.state().buffer, "ni");
    assert_eq!(processor.state().candidates, vec!['你', '尼', '泥']);
}

#[test]
fn test_unknown_syllable_has_no_candidates() {
    let mut processor = PinyinProcessor::new();
    processor.handle_input('x');
    processor.handle_input('q');
    assert!(processor.state().candidates.is_empty());
    // Space with no candidates passes through.
    let result = processor.handle_input(' ');
    assert_eq!(result, PinyinInputResult::PassThrough(' '));
}

#[test]
fn test_digit_beyond_candidates_keeps_composing() {
    let mut processor = PinyinProcessor::new();
    processor.handle_input('n');
    processor.handle_input('i');
    let result = processor.handle_input('9');
    assert_eq!(result, PinyinInputResult::Composing);
    assert_eq!(processor.state().buffer, "ni");
}
