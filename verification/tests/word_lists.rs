use dict_fixer::fix::fix_text;
use dict_fixer::lines::{join_lines, split_lines};
use dict_fixer::words::{is_valid, remove_invalid_words};

const UNIT_TEST_CONTENT: &str = "Test\nTest's\nTester\nTested\nTesting";

fn list(words: &[&str]) -> Vec<String> {
    words.iter().map(|word| word.to_string()).collect()
}

fn filtered(words: &[&str]) -> Vec<String> {
    let mut words = list(words);
    remove_invalid_words(&mut words);
    words
}

#[test]
fn test_read_file() {
    let words: Vec<String> = split_lines(UNIT_TEST_CONTENT);
    assert!(!words.is_empty());
    assert!(words.len() == 5);
}

#[test]
fn test_modify_file() {
    let mut words: Vec<String> = split_lines(UNIT_TEST_CONTENT);
    assert!(words.len() == 5);
    remove_invalid_words(&mut words);
    assert!(words.len() == 4);
}

#[test]
fn test_write_file() {
    let mut words: Vec<String> = split_lines(UNIT_TEST_CONTENT);
    assert!(!words.is_empty());
    remove_invalid_words(&mut words);
    assert!(words.len() == 4);
    let written = join_lines(&words);
    // compare what was written with the expected output
    let output_words: Vec<String> = split_lines(&written);
    assert!(!output_words.is_empty());
    let matching = words
        .iter()
        .zip(output_words.iter())
        .filter(|&(words, output_words)| words == output_words)
        .count();
    assert!(matching == words.len() && matching == output_words.len());
}

#[test]
fn split_gives_the_lines_in_file_order() {
    assert_eq!(
        split_lines(UNIT_TEST_CONTENT),
        list(&["Test", "Test's", "Tester", "Tested", "Testing"])
    );
}

#[test]
fn split_of_text_without_newline_is_one_line() {
    assert_eq!(split_lines("word"), list(&["word"]));
}

#[test]
fn split_of_empty_text_is_one_empty_line() {
    assert_eq!(split_lines(""), list(&[""]));
}

#[test]
fn split_keeps_empty_lines() {
    assert_eq!(split_lines("a\n\nb"), list(&["a", "", "b"]));
    assert_eq!(split_lines("\n"), list(&["", ""]));
    assert_eq!(split_lines("\na"), list(&["", "a"]));
}

#[test]
fn split_of_text_ending_in_newline_ends_in_empty_line() {
    assert_eq!(split_lines("a\nb\n"), list(&["a", "b", ""]));
}

#[test]
fn split_keeps_carriage_returns() {
    assert_eq!(split_lines("a\r\nb"), list(&["a\r", "b"]));
}

#[test]
fn split_keeps_characters_outside_ascii() {
    assert_eq!(split_lines("caf\u{e9}\n\u{1f600}\nna\u{ef}ve"), list(&["caf\u{e9}", "\u{1f600}", "na\u{ef}ve"]));
}

#[test]
fn split_agrees_with_str_split() {
    for text in ["", "\n", "a", "a\n", "\na", "a\nb", "a\n\nb\n", "it's\nfine\n\n"] {
        let expected: Vec<String> = text.split('\n').map(|line| line.to_string()).collect();
        assert_eq!(split_lines(text), expected);
    }
}

#[test]
fn join_puts_one_newline_between_lines() {
    assert_eq!(join_lines(&list(&["Test", "Tester", "Tested", "Testing"])), "Test\nTester\nTested\nTesting");
}

#[test]
fn join_of_one_line_is_that_line() {
    assert_eq!(join_lines(&list(&["word"])), "word");
}

#[test]
fn join_of_no_lines_is_empty() {
    assert_eq!(join_lines(&list(&[])), "");
}

#[test]
fn join_keeps_empty_lines() {
    assert_eq!(join_lines(&list(&["a", "", "b"])), "a\n\nb");
    assert_eq!(join_lines(&list(&[""])), "");
    assert_eq!(join_lines(&list(&["", ""])), "\n");
    assert_eq!(join_lines(&list(&["a", ""])), "a\n");
}

#[test]
fn join_agrees_with_slice_join() {
    for lines in [list(&[]), list(&[""]), list(&["a"]), list(&["a", "b"]), list(&["", "", ""])] {
        assert_eq!(join_lines(&lines), lines.join("\n"));
    }
}

#[test]
fn written_lines_read_back_unchanged() {
    for lines in [
        list(&[""]),
        list(&["a"]),
        list(&["a", "b", "c"]),
        list(&["", "a", "", ""]),
        list(&["dup", "dup", "it's"]),
    ] {
        assert_eq!(split_lines(&join_lines(&lines)), lines);
    }
}

#[test]
fn read_lines_write_back_unchanged() {
    for text in ["", "\n", "a", "a\nb", "a\nb\n", "\n\nit's\n"] {
        assert_eq!(join_lines(&split_lines(text)), text);
    }
}

#[test]
fn empty_list_reads_back_as_one_empty_line() {
    assert_eq!(split_lines(&join_lines(&list(&[]))), list(&[""]));
}

#[test]
fn word_with_apostrophe_is_invalid() {
    assert!(!is_valid("Test's"));
    assert!(!is_valid("'"));
    assert!(!is_valid("'tis"));
    assert!(!is_valid("dogs'"));
    assert!(!is_valid("rock'n'roll"));
}

#[test]
fn word_without_apostrophe_is_valid() {
    assert!(is_valid("Test"));
    assert!(is_valid(""));
    assert!(is_valid("two words"));
    assert!(is_valid("quote\"mark"));
    assert!(is_valid("back`tick"));
    assert!(is_valid("typographic\u{2019}s"));
    assert!(is_valid("caf\u{e9}"));
}

#[test]
fn filter_drops_words_with_apostrophe() {
    assert_eq!(
        filtered(&["Test", "Test's", "Tester", "Tested", "Testing"]),
        list(&["Test", "Tester", "Tested", "Testing"])
    );
}

#[test]
fn filter_of_empty_list_is_empty() {
    assert_eq!(filtered(&[]), list(&[]));
}

#[test]
fn filter_may_drop_everything() {
    assert_eq!(filtered(&["a's", "'", "b'c"]), list(&[]));
}

#[test]
fn filter_keeps_a_valid_list() {
    assert_eq!(filtered(&["a", "b", "c"]), list(&["a", "b", "c"]));
}

#[test]
fn filter_keeps_empty_words_and_duplicates() {
    assert_eq!(filtered(&["", "a", "a's", "", "a"]), list(&["", "a", "", "a"]));
}

#[test]
fn filter_never_lengthens_and_leaves_no_apostrophe() {
    for words in [
        list(&[]),
        list(&["a"]),
        list(&["a's"]),
        list(&["x", "it's", "y", "o'clock", "z"]),
        list(&["'", "'", "'"]),
    ] {
        let mut kept = words.clone();
        remove_invalid_words(&mut kept);
        assert!(kept.len() <= words.len());
        assert!(kept.iter().all(|word| !word.contains('\'')));
    }
}

#[test]
fn filter_keeps_relative_order() {
    assert_eq!(
        filtered(&["zebra", "it's", "apple", "o'clock", "mango", "apple"]),
        list(&["zebra", "apple", "mango", "apple"])
    );
}

#[test]
fn filter_agrees_with_retain() {
    for words in [
        list(&["b", "a's", "a", "c'", "b"]),
        list(&["'a", "b", "c"]),
        list(&["a", "b", "c'"]),
    ] {
        let mut expected = words.clone();
        expected.retain(|word| !word.contains("'"));
        let mut kept = words;
        remove_invalid_words(&mut kept);
        assert_eq!(kept, expected);
    }
}

#[test]
fn filter_twice_is_filter_once() {
    for words in [list(&[]), list(&["a's"]), list(&["x", "it's", "y", "o'clock", "z"])] {
        let mut once = words.clone();
        remove_invalid_words(&mut once);
        let mut twice = once.clone();
        remove_invalid_words(&mut twice);
        assert_eq!(twice, once);
    }
}

#[test]
fn empty_input_gives_empty_output() {
    assert_eq!(fix_text(""), "");
    let mut words = split_lines("");
    remove_invalid_words(&mut words);
    assert_eq!(join_lines(&words), "");
}

#[test]
fn sample_file_is_cleaned() {
    let mut words = split_lines(UNIT_TEST_CONTENT);
    assert_eq!(words.len(), 5);
    remove_invalid_words(&mut words);
    assert_eq!(words, list(&["Test", "Tester", "Tested", "Testing"]));
    assert_eq!(join_lines(&words), "Test\nTester\nTested\nTesting");
    assert_eq!(fix_text(UNIT_TEST_CONTENT), "Test\nTester\nTested\nTesting");
}

#[test]
fn fix_text_drops_invalid_lines_only() {
    assert_eq!(fix_text("a\nb's\n\nc\n"), "a\n\nc\n");
    assert_eq!(fix_text("it's"), "");
    assert_eq!(fix_text("it's\no'clock"), "");
    assert_eq!(fix_text("it's\n"), "");
    assert_eq!(fix_text("plain"), "plain");
}

#[test]
fn fixed_text_holds_no_apostrophe() {
    for text in ["", "'", "it's\nfine", "a\n'\n'b\nc'\nd", "'\n'\n'"] {
        assert!(!fix_text(text).contains('\''));
    }
}

#[test]
fn fixing_twice_is_fixing_once() {
    for text in ["", "it's", "a\nb's\n\nc\n", "it's\n", "\nit's", "x\ny"] {
        let once = fix_text(text);
        assert_eq!(fix_text(&once), once);
    }
}
