//! The whole cleaning of a word list file, from its text to the text that replaces it.

use crate::lines::{
    is_line, join_lines, joined, lemma_join_then_split, lemma_joined_lacks, lemma_split_then_join,
    lines_of, split_lines,
};
use crate::words::{
    is_valid_word, lemma_valid_words_bounded, lemma_valid_words_idempotent,
    lemma_valid_words_keep_order, lemma_valid_words_of_valid, remove_invalid_words, valid_positions,
    valid_words, APOSTROPHE,
};
use vstd::prelude::*;

verus! {

/// The text of a word list file after cleaning: its lines without those that hold an
/// apostrophe, joined again.
pub open spec fn fixed_text(text: Seq<char>) -> Seq<char> {
    joined(valid_words(lines_of(text)))
}

/// Cleans the text of a word list file: the lines that hold an apostrophe are taken
/// out, the others stay as they are and in their order.
pub fn fix_text(text: &str) -> (fixed: String)
    ensures
        fixed@ == fixed_text(text@),
        !fixed@.contains(APOSTROPHE),
{
    let mut words = split_lines(text);
    remove_invalid_words(&mut words);
    proof {
        lemma_fixed_text_has_no_apostrophe(text@);
    }
    join_lines(&words)
}

/// No apostrophe is left in a cleaned text.
pub proof fn lemma_fixed_text_has_no_apostrophe(text: Seq<char>)
    ensures
        !fixed_text(text).contains(APOSTROPHE),
{
    let kept = valid_words(lines_of(text));
    lemma_valid_words_bounded(lines_of(text));
    assert forall|i: int| 0 <= i < kept.len() implies !(#[trigger] kept[i]).contains(APOSTROPHE) by {
        assert(is_valid_word(kept[i]));
    }
    lemma_joined_lacks(kept, APOSTROPHE);
}

/// Cleaning a cleaned text changes nothing.
pub proof fn lemma_fixed_text_idempotent(text: Seq<char>)
    ensures
        fixed_text(fixed_text(text)) == fixed_text(text),
{
    let lines = lines_of(text);
    let kept = valid_words(lines);
    if kept.len() == 0 {
        let nothing = Seq::<char>::empty();
        lemma_valid_words_of_valid(seq![nothing]);
    } else {
        lemma_split_then_join(text);
        lemma_valid_words_keep_order(lines);
        let picks = valid_positions(lines);
        assert forall|i: int| 0 <= i < kept.len() implies is_line(#[trigger] kept[i]) by {
            assert(kept[i] == lines[picks[i]]);
        }
        lemma_join_then_split(kept);
        lemma_valid_words_idempotent(lines);
    }
}

} // verus!
