//! The rule that decides which words stay in a word list, and the filter built on it.
//!
//! A word list is modelled as a `Seq<Seq<char>>`: the words in file order, each as its
//! characters. Duplicates and empty words are ordinary entries.

use vstd::prelude::*;

verus! {

/// The character that makes a word invalid.
pub const APOSTROPHE: char = '\'';

/// A word is valid when the apostrophe occurs nowhere in it.
pub open spec fn is_valid_word(word: Seq<char>) -> bool {
    !word.contains(APOSTROPHE)
}

/// The valid words of `words`, in the order in which `words` holds them.
pub open spec fn valid_words(words: Seq<Seq<char>>) -> Seq<Seq<char>> {
    words.filter(|word: Seq<char>| is_valid_word(word))
}

/// `picks` lists, in increasing order, exactly the positions at which `source` holds a
/// valid word, and `kept` holds the words found at those positions, in that order.
pub open spec fn keeps_valid_in_order(
    picks: Seq<int>,
    source: Seq<Seq<char>>,
    kept: Seq<Seq<char>>,
) -> bool {
    &&& picks.len() == kept.len()
    &&& forall|k: int|
        0 <= k < picks.len() ==> 0 <= #[trigger] picks[k] < source.len() && kept[k]
            == source[picks[k]]
    &&& forall|j: int, k: int|
        0 <= j < k < picks.len() ==> #[trigger] picks[j] < #[trigger] picks[k]
    &&& forall|i: int|
        0 <= i < source.len() ==> (is_valid_word(#[trigger] source[i]) <==> picks.contains(i))
}

/// The positions at which `words` holds a valid word, in increasing order.
pub open spec fn valid_positions(words: Seq<Seq<char>>) -> Seq<int>
    decreases words.len(),
{
    if words.len() == 0 {
        Seq::empty()
    } else if is_valid_word(words.last()) {
        valid_positions(words.drop_last()).push(words.len() - 1)
    } else {
        valid_positions(words.drop_last())
    }
}

/// Tells whether `word` is free of apostrophes.
pub fn is_valid(word: &str) -> (valid: bool)
    ensures
        valid == is_valid_word(word@),
{
    broadcast use vstd::string::group_string_axioms;

    for c in it: word.chars()
        invariant
            it.seq() == word@,
            forall|j: int| 0 <= j < it.index() ==> word@[j] != APOSTROPHE,
    {
        if c == APOSTROPHE {
            return false;
        }
    }
    true
}

/// Removes from `words` every word that holds an apostrophe. The words that stay keep
/// their relative order.
pub fn remove_invalid_words(words: &mut Vec<String>)
    ensures
        final(words).deep_view() == valid_words(old(words).deep_view()),
        final(words).len() <= old(words).len(),
        forall|i: int| 0 <= i < final(words).len() ==> is_valid_word(#[trigger] final(words)[i]@),
        exists|picks: Seq<int>|
            keeps_valid_in_order(picks, old(words).deep_view(), final(words).deep_view()),
{
    let ghost before = words.deep_view();
    let mut source: Vec<String> = Vec::new();
    std::mem::swap(words, &mut source);
    let ghost items = source@;
    for word in it: source
        invariant
            it.seq() == items,
            before == Seq::new(items.len(), |k: int| items[k]@),
            words.deep_view() == valid_words(before.take(it.index() as int)),
    {
        proof {
            let done = it.index() as int;
            lemma_valid_words_push(before.take(done), word@);
            assert(before.take(done).push(word@) =~= before.take(done + 1));
        }
        if is_valid(word.as_str()) {
            words.push(word);
        }
    }
    proof {
        assert(before.take(items.len() as int) =~= before);
        lemma_valid_words_bounded(before);
        lemma_valid_words_keep_order(before);
        assert forall|i: int| 0 <= i < words.len() implies is_valid_word(#[trigger] words[i]@) by {
            assert(words[i]@ == words.deep_view()[i]);
        }
    }
}

/// Filtering never lengthens a list, and no word that survives holds an apostrophe.
pub proof fn lemma_valid_words_bounded(words: Seq<Seq<char>>)
    ensures
        valid_words(words).len() <= words.len(),
        forall|i: int|
            0 <= i < valid_words(words).len() ==> is_valid_word(#[trigger] valid_words(words)[i]),
    decreases words.len(),
{
    reveal(Seq::filter);
    if words.len() > 0 {
        lemma_valid_words_bounded(words.drop_last());
    }
}

/// Filtering keeps the relative order of what it retains: the result is read off the
/// input at the positions of its valid words, taken in increasing order.
pub proof fn lemma_valid_words_keep_order(words: Seq<Seq<char>>)
    ensures
        keeps_valid_in_order(valid_positions(words), words, valid_words(words)),
    decreases words.len(),
{
    reveal(Seq::filter);
    if words.len() > 0 {
        let front = words.drop_last();
        let last = words.len() - 1;
        lemma_valid_words_keep_order(front);
        let picks = valid_positions(words);
        let front_picks = valid_positions(front);
        assert forall|i: int| 0 <= i < words.len() implies (is_valid_word(#[trigger] words[i])
            <==> picks.contains(i)) by {
            if i < last {
                assert(front[i] == words[i]);
                if front_picks.contains(i) {
                    let k = choose|k: int| 0 <= k < front_picks.len() && front_picks[k] == i;
                    assert(picks[k] == i);
                }
            } else if is_valid_word(words.last()) {
                assert(picks[picks.len() - 1] == i);
            }
        }
    }
}

/// Only one list holds the valid words of `source` in their order: the one that
/// filtering gives.
pub proof fn lemma_keeps_valid_in_order_unique(
    picks: Seq<int>,
    source: Seq<Seq<char>>,
    kept: Seq<Seq<char>>,
)
    requires
        keeps_valid_in_order(picks, source, kept),
    ensures
        kept == valid_words(source),
    decreases source.len(),
{
    reveal(Seq::filter);
    if source.len() == 0 {
        if picks.len() > 0 {
            assert(0 <= picks[0] < source.len());
        }
    } else {
        let last = source.len() - 1;
        let front = source.drop_last();
        let end = picks.len() - 1;
        if picks.contains(last) {
            let k = choose|k: int| 0 <= k < picks.len() && picks[k] == last;
            if k < end {
                assert(picks[k] < picks[end]);
            }
            let front_picks = picks.drop_last();
            let front_kept = kept.drop_last();
            assert forall|i: int| 0 <= i < front.len() implies (is_valid_word(#[trigger] front[i])
                <==> front_picks.contains(i)) by {
                if picks.contains(i) {
                    let j = choose|j: int| 0 <= j < picks.len() && picks[j] == i;
                    assert(front_picks[j] == i);
                }
                if front_picks.contains(i) {
                    let j = choose|j: int| 0 <= j < front_picks.len() && front_picks[j] == i;
                    assert(picks[j] == i);
                }
            }
            assert forall|j: int| 0 <= j < front_picks.len() implies 0 <= #[trigger] front_picks[j]
                < front.len() && front_kept[j] == front[front_picks[j]] by {
                assert(picks[j] < picks[end]);
            }
            lemma_keeps_valid_in_order_unique(front_picks, front, front_kept);
        } else {
            assert forall|i: int| 0 <= i < front.len() implies (is_valid_word(#[trigger] front[i])
                <==> picks.contains(i)) by {
                assert(front[i] == source[i]);
            }
            assert forall|j: int| 0 <= j < picks.len() implies 0 <= #[trigger] picks[j]
                < front.len() && kept[j] == front[picks[j]] by {
                if picks[j] == last {
                    assert(picks.contains(last));
                }
            }
            lemma_keeps_valid_in_order_unique(picks, front, kept);
        }
    }
}

/// Filtering twice gives what filtering once gives.
pub proof fn lemma_valid_words_idempotent(words: Seq<Seq<char>>)
    ensures
        valid_words(valid_words(words)) == valid_words(words),
{
    lemma_valid_words_bounded(words);
    lemma_valid_words_of_valid(valid_words(words));
}

/// A list without invalid words is left as it is.
pub proof fn lemma_valid_words_of_valid(words: Seq<Seq<char>>)
    requires
        forall|i: int| 0 <= i < words.len() ==> is_valid_word(#[trigger] words[i]),
    ensures
        valid_words(words) == words,
    decreases words.len(),
{
    reveal(Seq::filter);
    if words.len() > 0 {
        let front = words.drop_last();
        assert forall|i: int| 0 <= i < front.len() implies is_valid_word(#[trigger] front[i]) by {
            assert(front[i] == words[i]);
        }
        lemma_valid_words_of_valid(front);
    }
}

/// Appending one word to a list appends it to the valid words if it is valid, and
/// leaves them unchanged if it is not.
pub proof fn lemma_valid_words_push(words: Seq<Seq<char>>, word: Seq<char>)
    ensures
        valid_words(words.push(word)) == (if is_valid_word(word) {
            valid_words(words).push(word)
        } else {
            valid_words(words)
        }),
{
    reveal(Seq::filter);
    assert(words.push(word).drop_last() =~= words);
}

} // verus!
