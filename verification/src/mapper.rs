//! From a position in a segment's audio to the word that is spoken there.

use crate::document::Word;
use crate::track::TrackState;
use vstd::prelude::*;

verus! {

/// The first word at or after `from` that is spoken at `t`.
pub open spec fn first_from(words: Seq<Word>, t: int, from: int) -> Option<int>
    decreases words.len() - from,
{
    if from < 0 || from >= words.len() {
        None
    } else if words[from].covers(t) {
        Some(from)
    } else {
        first_from(words, t, from + 1)
    }
}

/// The word that is highlighted at `t`: the first one whose span holds `t`.
/// There is none where `t` falls between spans, before the first or after the
/// last, or where no word has a span.
pub open spec fn word_at(words: Seq<Word>, t: int) -> Option<int> {
    first_from(words, t, 0)
}

/// `first_from` finds the least index from `from` on whose word is spoken at
/// `t`, and finds none only if there is none.
pub proof fn lemma_first_from(words: Seq<Word>, t: int, from: int)
    requires
        0 <= from,
    ensures
        match first_from(words, t, from) {
            Some(i) => {
                &&& from <= i < words.len()
                &&& words[i].covers(t)
                &&& forall|j: int| from <= j < i ==> !(#[trigger] words[j]).covers(t)
            },
            None => forall|j: int| from <= j < words.len() ==> !(#[trigger] words[j]).covers(t),
        },
    decreases words.len() - from,
{
    if from < words.len() && !words[from].covers(t) {
        lemma_first_from(words, t, from + 1);
    }
}

/// The word at `t` is the least index whose word is spoken at `t`.
pub proof fn lemma_word_at(words: Seq<Word>, t: int)
    ensures
        match word_at(words, t) {
            Some(i) => {
                &&& 0 <= i < words.len()
                &&& words[i].covers(t)
                &&& forall|j: int| 0 <= j < i ==> !(#[trigger] words[j]).covers(t)
            },
            None => forall|j: int| 0 <= j < words.len() ==> !(#[trigger] words[j]).covers(t),
        },
{
    lemma_first_from(words, t, 0);
}

/// A word that is spoken at `t`, with no word before it that is, is the word
/// at `t`.
pub proof fn lemma_word_at_is(words: Seq<Word>, t: int, i: int)
    requires
        0 <= i < words.len(),
        words[i].covers(t),
        forall|j: int| 0 <= j < i ==> !(#[trigger] words[j]).covers(t),
    ensures
        word_at(words, t) == Some(i),
{
    lemma_word_at(words, t);
}

/// The index of the word that is spoken at `t`.
pub fn locate(words: &Vec<Word>, t: u64) -> (found: Option<usize>)
    ensures
        match found {
            Some(i) => word_at(words@, t as int) == Some(i as int),
            None => word_at(words@, t as int) is None,
        },
        match found {
            Some(i) => {
                &&& i < words@.len()
                &&& words@[i as int].covers(t as int)
                &&& forall|j: int| 0 <= j < i ==> !(#[trigger] words@[j]).covers(t as int)
            },
            None => forall|j: int|
                0 <= j < words@.len() ==> !(#[trigger] words@[j]).covers(t as int),
        },
{
    let mut i: usize = 0;
    while i < words.len()
        invariant
            i <= words@.len(),
            forall|j: int| 0 <= j < i ==> !(#[trigger] words@[j]).covers(t as int),
        decreases words@.len() - i,
    {
        if words[i].is_at(t) {
            proof {
                lemma_word_at_is(words@, t as int, i as int);
            }
            return Some(i);
        }
        i = i + 1;
    }
    proof {
        lemma_word_at(words@, t as int);
    }
    None
}

/// A seek comes back to its word: a track that is started at the start of
/// word `i` and sampled at once is at word `i`, where that word's span does
/// not end before it starts and no word before it is spoken at its start.
pub proof fn lemma_seek_round_trip(words: Seq<Word>, i: int, state: TrackState, now: u32)
    requires
        0 <= i < words.len(),
        words[i] matches Word::Timestamped { start, end, .. } && start <= end,
        forall|j: int| 0 <= j < i ==> !(#[trigger] words[j]).covers(words[i].onset().unwrap() as int),
    ensures
        state.started(words[i].onset(), now).position(now) == Some(
            words[i].onset().unwrap() as u64,
        ),
        word_at(words, words[i].onset().unwrap() as int) == Some(i),
{
    lemma_word_at_is(words, words[i].onset().unwrap() as int, i);
}

/// Without that condition the sample is still at the first word that is
/// spoken at the start of word `i`, which is word `i` or one before it.
pub proof fn lemma_seek_lands_at_or_before(words: Seq<Word>, i: int)
    requires
        0 <= i < words.len(),
        words[i] matches Word::Timestamped { start, end, .. } && start <= end,
    ensures
        word_at(words, words[i].onset().unwrap() as int) matches Some(k) && k <= i,
{
    lemma_word_at(words, words[i].onset().unwrap() as int);
}

/// A segment without spans has no word at any position.
pub proof fn lemma_no_spans_no_word(words: Seq<Word>, t: int)
    requires
        forall|j: int| 0 <= j < words.len() ==> (#[trigger] words[j]) is Raw,
    ensures
        word_at(words, t) is None,
{
    lemma_word_at(words, t);
}

} // verus!
