//! The words of a text: the runs of letters and numbers, each put in lower
//! case.

use vstd::prelude::*;
use crate::utils::text::{alphanumeric, lowercase};

verus! {

/// The number of characters in a row, from position `from` on, that are
/// tagged as part of a word.
pub open spec fn run_len(tagged: Seq<(char, bool)>, from: int) -> nat
    decreases tagged.len() - from,
{
    if 0 <= from < tagged.len() && tagged[from].1 {
        1 + run_len(tagged, from + 1)
    } else {
        0
    }
}

/// A run holds tagged characters only, ends within the text, and is
/// followed by no tagged character.
pub proof fn lemma_run(tagged: Seq<(char, bool)>, from: int)
    requires
        0 <= from <= tagged.len(),
    ensures
        from + run_len(tagged, from) <= tagged.len(),
        forall|i: int| from <= i < from + run_len(tagged, from) ==> (#[trigger] tagged[i]).1,
        from + run_len(tagged, from) < tagged.len() ==> !tagged[from + run_len(tagged, from)].1,
    decreases tagged.len() - from,
{
    if from < tagged.len() && tagged[from].1 {
        lemma_run(tagged, from + 1);
    }
}

/// The places of the words that start at position `from` or later, each as
/// the position of its first character and the position after its last.
pub open spec fn spans_from(tagged: Seq<(char, bool)>, from: int) -> Seq<(int, int)>
    decreases tagged.len() - from,
{
    if from < 0 || from >= tagged.len() {
        Seq::empty()
    } else if !tagged[from].1 {
        spans_from(tagged, from + 1)
    } else {
        let to = from + run_len(tagged, from);
        proof {
            lemma_run(tagged, from);
        }
        seq![(from, to)] + spans_from(tagged, to)
    }
}

/// The characters at the positions `from..to`, without their tags.
pub open spec fn letters(tagged: Seq<(char, bool)>, from: int, to: int) -> Seq<char> {
    Seq::new((to - from) as nat, |i: int| tagged[from + i].0)
}

/// The characters at each of the given places.
pub open spec fn words_at(tagged: Seq<(char, bool)>, spans: Seq<(int, int)>) -> Seq<Seq<char>> {
    Seq::new(spans.len(), |k: int| letters(tagged, spans[k].0, spans[k].1))
}

/// The words of a text whose characters are tagged as part of a word or
/// not: the runs of tagged characters, from left to right.
pub open spec fn words_of(tagged: Seq<(char, bool)>) -> Seq<Seq<char>> {
    words_at(tagged, spans_from(tagged, 0))
}

/// The characters of a text, each tagged with whether it is a letter or a
/// number: those are the characters that words are made of.
pub open spec fn tagged_text(text: Seq<char>) -> Seq<(char, bool)> {
    Seq::new(text.len(), |i: int| (text[i], alphanumeric(text[i])))
}

/// The words, each in lower case.
pub open spec fn lowered(words: Seq<Seq<char>>) -> Seq<Seq<char>> {
    Seq::new(words.len(), |i: int| lowercase(words[i]))
}

/// The words of a text as they are looked up: its runs of letters and
/// numbers, from left to right, each in lower case.
pub open spec fn normalized_words(text: Seq<char>) -> Seq<Seq<char>> {
    lowered(words_of(tagged_text(text)))
}

/// Tags each character of a text with whether it is a letter or a number.
pub fn tag_text(text: &str) -> (marked: Vec<(char, bool)>)
    ensures
        marked@ == tagged_text(text@),
{
    let mut marked: Vec<(char, bool)> = Vec::new();
    for c in it: text.chars()
        invariant
            it.seq() == text@,
            marked@ == tagged_text(text@).take(it.index()),
    {
        marked.push((c, c.is_alphanumeric()));
        assert(marked@ =~= tagged_text(text@).take(it.index() + 1));
    }
    assert(tagged_text(text@).take(text@.len() as int) =~= tagged_text(text@));
    marked
}

/// Cuts a tagged text into its words.
pub fn cut_words(tagged: &Vec<(char, bool)>) -> (words: Vec<String>)
    ensures
        words.deep_view() == words_of(tagged@),
{
    let mut words: Vec<String> = Vec::new();
    let ghost mut done: Seq<(int, int)> = Seq::empty();
    let mut i: usize = 0;
    while i < tagged.len()
        invariant
            i <= tagged.len(),
            done + spans_from(tagged@, i as int) == spans_from(tagged@, 0),
            words.deep_view() == words_at(tagged@, done),
        decreases tagged.len() - i,
    {
        if !tagged[i].1 {
            i += 1;
        } else {
            let mut word = String::new();
            let mut j: usize = i;
            while j < tagged.len() && tagged[j].1
                invariant
                    i <= j <= tagged.len(),
                    run_len(tagged@, i as int) == (j - i) + run_len(tagged@, j as int),
                    word@ == letters(tagged@, i as int, j as int),
                decreases tagged.len() - j,
            {
                word.push(tagged[j].0);
                assert(word@ =~= letters(tagged@, i as int, j as int + 1));
                j += 1;
            }
            let ghost before = words.deep_view();
            words.push(word);
            proof {
                let rest = spans_from(tagged@, j as int);
                assert(done.push((i as int, j as int)) + rest =~= done + (seq![(i as int, j as int)]
                    + rest));
                done = done.push((i as int, j as int));
                assert(words.deep_view() =~= before.push(word@));
                assert(words.deep_view() =~= words_at(tagged@, done));
            }
            i = j;
        }
    }
    assert(done + Seq::<(int, int)>::empty() =~= done);
    words
}

/// Puts each word in lower case.
pub fn lower_words(words: &Vec<String>) -> (lower: Vec<String>)
    ensures
        lower.deep_view() == lowered(words.deep_view()),
{
    let mut lower: Vec<String> = Vec::new();
    let mut i: usize = 0;
    while i < words.len()
        invariant
            i <= words.len(),
            lower.deep_view() == lowered(words.deep_view()).take(i as int),
        decreases words.len() - i,
    {
        let word = words[i].as_str().to_lowercase();
        let ghost before = lower.deep_view();
        lower.push(word);
        proof {
            assert(lower.deep_view() =~= before.push(word@));
            assert(word@ == lowercase(words.deep_view()[i as int]));
            assert(lower.deep_view() =~= lowered(words.deep_view()).take(i as int + 1));
        }
        i += 1;
    }
    assert(lowered(words.deep_view()).take(i as int) =~= lowered(words.deep_view()));
    lower
}

/// The words of a text in the form in which they are looked up.
pub fn split_words(text: &str) -> (words: Vec<String>)
    ensures
        words.deep_view() == normalized_words(text@),
{
    let marked = tag_text(text);
    let words = cut_words(&marked);
    lower_words(&words)
}

/// Whether the positions `from..to` hold a word: a run of tagged characters
/// that no tagged character precedes or follows.
pub open spec fn is_word_span(tagged: Seq<(char, bool)>, from: int, to: int) -> bool {
    &&& 0 <= from < to <= tagged.len()
    &&& forall|i: int| from <= i < to ==> (#[trigger] tagged[i]).1
    &&& from > 0 ==> !tagged[from - 1].1
    &&& to < tagged.len() ==> !tagged[to].1
}

/// From a position that no run straddles, the places found are words that
/// lie one after the other, and every word from that position on is among
/// them.
pub proof fn lemma_spans(tagged: Seq<(char, bool)>, from: int)
    requires
        0 <= from <= tagged.len(),
        !(0 < from < tagged.len() && tagged[from - 1].1 && tagged[from].1),
    ensures
        forall|k: int|
            0 <= k < spans_from(tagged, from).len() ==> {
                let span = #[trigger] spans_from(tagged, from)[k];
                from <= span.0 && is_word_span(tagged, span.0, span.1)
            },
        forall|k: int, m: int|
            0 <= k < m < spans_from(tagged, from).len() ==> (#[trigger] spans_from(
                tagged,
                from,
            )[k]).1 < (#[trigger] spans_from(tagged, from)[m]).0,
        forall|a: int, b: int|
            from <= a && #[trigger] is_word_span(tagged, a, b) ==> spans_from(
                tagged,
                from,
            ).contains((a, b)),
    decreases tagged.len() - from,
{
    let spans = spans_from(tagged, from);
    if from >= tagged.len() {
    } else if !tagged[from].1 {
        lemma_spans(tagged, from + 1);
        assert(spans == spans_from(tagged, from + 1));
    } else {
        let to = from + run_len(tagged, from);
        lemma_run(tagged, from);
        lemma_spans(tagged, to);
        let rest = spans_from(tagged, to);
        assert(spans == seq![(from, to)] + rest);
        assert(is_word_span(tagged, from, to));
        assert forall|k: int| 0 <= k < spans.len() implies {
            let span = #[trigger] spans[k];
            from <= span.0 && is_word_span(tagged, span.0, span.1)
        } by {
            if k > 0 {
                assert(spans[k] == rest[k - 1]);
            }
        }
        assert forall|k: int, m: int| 0 <= k < m < spans.len() implies (#[trigger] spans[k]).1 < (
        #[trigger] spans[m]).0 by {
            assert(spans[m] == rest[m - 1]);
            assert(is_word_span(tagged, rest[m - 1].0, rest[m - 1].1));
            assert(tagged[rest[m - 1].0].1);
            if k > 0 {
                assert(spans[k] == rest[k - 1]);
            }
        }
        assert forall|a: int, b: int| from <= a && #[trigger] is_word_span(
            tagged,
            a,
            b,
        ) implies spans.contains((a, b)) by {
            assert(tagged[a].1);
            if a == from {
                if b < to {
                    assert(tagged[b].1);
                }
                if b > to {
                    assert(tagged[to].1);
                }
                assert(spans[0] == (a, b));
            } else {
                if a <= to {
                    assert(tagged[a - 1].1);
                }
                assert(rest.contains((a, b)));
                let k = choose|k: int| 0 <= k < rest.len() && rest[k] == (a, b);
                assert(spans[k + 1] == (a, b));
            }
        }
    }
}

/// The words of a tagged text are its runs of tagged characters that no
/// tagged character precedes or follows: each word is such a run, the runs
/// stand in the text in the order of the words without touching, and no
/// such run is missing.
pub proof fn law_words_are_the_runs(tagged: Seq<(char, bool)>)
    ensures
        words_of(tagged) == words_at(tagged, spans_from(tagged, 0)),
        forall|k: int|
            0 <= k < spans_from(tagged, 0).len() ==> {
                let span = #[trigger] spans_from(tagged, 0)[k];
                is_word_span(tagged, span.0, span.1)
            },
        forall|k: int, m: int|
            0 <= k < m < spans_from(tagged, 0).len() ==> (#[trigger] spans_from(tagged, 0)[k]).1 < (
            #[trigger] spans_from(tagged, 0)[m]).0,
        forall|a: int, b: int| #[trigger]
            is_word_span(tagged, a, b) ==> spans_from(tagged, 0).contains((a, b)),
{
    lemma_spans(tagged, 0);
}

/// No word of a text is empty, and a word holds letters and numbers only:
/// neither white space nor punctuation stands in it or at its ends.
pub proof fn law_words_hold_letters_and_numbers(text: Seq<char>)
    ensures
        forall|k: int|
            0 <= k < words_of(tagged_text(text)).len() ==> (#[trigger] words_of(tagged_text(text))[k]).len()
                > 0,
        forall|k: int, i: int|
            0 <= k < words_of(tagged_text(text)).len() && 0 <= i < words_of(tagged_text(text))[k].len()
                ==> alphanumeric(#[trigger] words_of(tagged_text(text))[k][i]),
{
    let marked = tagged_text(text);
    let spans = spans_from(marked, 0);
    lemma_spans(marked, 0);
    assert forall|k: int| 0 <= k < words_of(marked).len() implies (#[trigger] words_of(
        marked,
    )[k]).len() > 0 by {
        assert(is_word_span(marked, spans[k].0, spans[k].1));
    }
    assert forall|k: int, i: int|
        0 <= k < words_of(marked).len() && 0 <= i < words_of(marked)[k].len() implies alphanumeric(
        #[trigger] words_of(marked)[k][i],
    ) by {
        assert(is_word_span(marked, spans[k].0, spans[k].1));
        assert(marked[spans[k].0 + i].1);
    }
}

} // verus!
