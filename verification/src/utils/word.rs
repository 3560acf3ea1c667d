//! The word filter: a text is cut into words, each word is put in lower
//! case, has the known prefixes stripped in turn and is looked up in the
//! dictionary of loan roots.

use vstd::prelude::*;
use crate::utils::morpheme::{Loan, LoanModel, PrefixData, PrefixModel, WordData, WordModel};
use crate::utils::text::chars_of;
use crate::utils::tokens::{normalized_words, split_words, tagged_text};

verus! {

/// The stem that the rule leaves of `word`: the word without the prefix,
/// where the word starts with it and enough characters remain.
pub open spec fn stem_of(rule: PrefixModel, word: Seq<char>) -> Option<Seq<char>> {
    if rule.prefix.is_prefix_of(word) && word.len() - rule.prefix.len() >= rule.min_stem {
        Some(word.skip(rule.prefix.len() as int))
    } else {
        None
    }
}

/// The first loan, in the order of the dictionary, whose root is `stem`.
pub open spec fn loan_of(loans: Seq<LoanModel>, stem: Seq<char>) -> Option<LoanModel>
    decreases loans.len(),
{
    if loans.len() == 0 {
        None
    } else if loans[0].root == stem {
        Some(loans[0])
    } else {
        loan_of(loans.drop_first(), stem)
    }
}

/// What one rule finds for `word`: the record of the loan whose root is
/// the stem that the rule leaves.
pub open spec fn match_by(loans: Seq<LoanModel>, rule: PrefixModel, word: Seq<char>) -> Option<
    WordModel,
> {
    match stem_of(rule, word) {
        Some(stem) => match loan_of(loans, stem) {
            Some(loan) => Some(WordModel::of(loan)),
            None => None,
        },
        None => None,
    }
}

/// What the rules find for `word`: the match of the first rule, in their
/// order, that finds one.
pub open spec fn match_of(loans: Seq<LoanModel>, rules: Seq<PrefixModel>, word: Seq<char>) -> Option<
    WordModel,
>
    decreases rules.len(),
{
    if rules.len() == 0 {
        None
    } else {
        match match_by(loans, rules[0], word) {
            Some(found) => Some(found),
            None => match_of(loans, rules.drop_first(), word),
        }
    }
}

/// The records of the words that match, one for each such word, in the
/// order of the words.
pub open spec fn found_in(loans: Seq<LoanModel>, rules: Seq<PrefixModel>, words: Seq<Seq<char>>) -> Seq<
    WordModel,
>
    decreases words.len(),
{
    if words.len() == 0 {
        Seq::empty()
    } else {
        let before = found_in(loans, rules, words.drop_last());
        match match_of(loans, rules, words.last()) {
            Some(found) => before.push(found),
            None => before,
        }
    }
}

/// Strips the rule's prefix from `word`.
pub fn strip_prefix(rule: &PrefixData, word: &str) -> (stem: Option<String>)
    ensures
        stem is Some <==> stem_of(rule@, word@) is Some,
        stem matches Some(s) ==> stem_of(rule@, word@) == Some(s@),
{
    let prefix = chars_of(rule.prefix.as_str());
    let chars = chars_of(word);
    if prefix.len() > chars.len() || chars.len() - prefix.len() < rule.min_stem {
        return None;
    }
    let mut i: usize = 0;
    while i < prefix.len()
        invariant
            i <= prefix.len() <= chars.len(),
            prefix@ == rule@.prefix,
            chars@ == word@,
            prefix@.take(i as int) == chars@.take(i as int),
        decreases prefix.len() - i,
    {
        if prefix[i] != chars[i] {
            proof {
                let head = chars@.subrange(0, prefix@.len() as int);
                assert(head[i as int] == chars@[i as int]);
                assert(!(prefix@ =~= head));
            }
            return None;
        }
        assert(prefix@.take(i as int + 1) =~= prefix@.take(i as int).push(prefix@[i as int]));
        assert(chars@.take(i as int + 1) =~= chars@.take(i as int).push(chars@[i as int]));
        i += 1;
    }
    assert(prefix@.take(i as int) =~= prefix@);
    let mut stem = String::new();
    let mut k: usize = prefix.len();
    while k < chars.len()
        invariant
            prefix.len() <= k <= chars.len(),
            stem@ == chars@.subrange(prefix.len() as int, k as int),
        decreases chars.len() - k,
    {
        stem.push(chars[k]);
        assert(stem@ =~= chars@.subrange(prefix.len() as int, k as int + 1));
        k += 1;
    }
    Some(stem)
}

/// Looks a stem up among the roots of the dictionary.
pub fn find_loan<'a>(loans: &'a Vec<Loan>, stem: &String) -> (loan: Option<&'a Loan>)
    ensures
        loan is Some <==> loan_of(loans.deep_view(), stem@) is Some,
        loan matches Some(l) ==> loan_of(loans.deep_view(), stem@) == Some(l@),
{
    let mut i: usize = 0;
    assert(loans.deep_view().skip(0) =~= loans.deep_view());
    while i < loans.len()
        invariant
            i <= loans.len(),
            loan_of(loans.deep_view(), stem@) == loan_of(loans.deep_view().skip(i as int), stem@),
        decreases loans.len() - i,
    {
        if loans[i].root == *stem {
            return Some(&loans[i]);
        }
        assert(loans.deep_view().skip(i as int).drop_first() =~= loans.deep_view().skip(
            i as int + 1,
        ));
        i += 1;
    }
    None
}

/// Matches one word, already in lower case, against the dictionary: the
/// rules are tried in their order and the first match is returned.
pub fn match_word(loans: &Vec<Loan>, rules: &Vec<PrefixData>, word: &str) -> (found: Option<
    WordData,
>)
    ensures
        found is Some <==> match_of(loans.deep_view(), rules.deep_view(), word@) is Some,
        found matches Some(w) ==> match_of(loans.deep_view(), rules.deep_view(), word@) == Some(
            w@,
        ),
{
    let mut i: usize = 0;
    assert(rules.deep_view().skip(0) =~= rules.deep_view());
    while i < rules.len()
        invariant
            i <= rules.len(),
            match_of(loans.deep_view(), rules.deep_view(), word@) == match_of(
                loans.deep_view(),
                rules.deep_view().skip(i as int),
                word@,
            ),
        decreases rules.len() - i,
    {
        assert(rules.deep_view().skip(i as int).drop_first() =~= rules.deep_view().skip(
            i as int + 1,
        ));
        assert(rules.deep_view().skip(i as int)[0] == rules[i as int]@);
        if let Some(stem) = strip_prefix(&rules[i], word) {
            if let Some(loan) = find_loan(loans, &stem) {
                return Some(WordData::of(loan));
            }
        }
        i += 1;
    }
    None
}

/// Matches each word against the dictionary and keeps a record of each
/// that matches.
pub fn match_words(loans: &Vec<Loan>, rules: &Vec<PrefixData>, words: &Vec<String>) -> (found: Vec<
    WordData,
>)
    ensures
        found.deep_view() == found_in(loans.deep_view(), rules.deep_view(), words.deep_view()),
{
    let mut found: Vec<WordData> = Vec::new();
    let mut i: usize = 0;
    while i < words.len()
        invariant
            i <= words.len(),
            found.deep_view() == found_in(
                loans.deep_view(),
                rules.deep_view(),
                words.deep_view().take(i as int),
            ),
        decreases words.len() - i,
    {
        proof {
            let all = words.deep_view();
            assert(all.take(i as int + 1).drop_last() =~= all.take(i as int));
            assert(all.take(i as int + 1).last() == words[i as int]@);
        }
        let ghost before = found.deep_view();
        if let Some(word) = match_word(loans, rules, words[i].as_str()) {
            found.push(word);
            assert(found.deep_view() =~= before.push(word@));
        }
        i += 1;
    }
    assert(words.deep_view().take(i as int) =~= words.deep_view());
    found
}

/// The loanwords of a text: one record for each of its words that matches
/// the dictionary, in the order of the words.
pub open spec fn filtered(loans: Seq<LoanModel>, rules: Seq<PrefixModel>, text: Seq<char>) -> Seq<
    WordModel,
> {
    found_in(loans, rules, normalized_words(text))
}

/// Finds the loanwords of a text.
///
/// The text is cut into words at every character that is neither a letter
/// nor a number, so no punctuation surrounds a word. Each word is put in
/// lower case and matched against the dictionary: the rules are tried in
/// their order, and the first whose stem is a loan root decides. The result
/// holds one record for each word that matched, in the order of the words;
/// words that match nothing are taken to be native and left out.
pub fn filter_native_words(loans: &Vec<Loan>, prefixes: &Vec<PrefixData>, text: String) -> (found:
    Vec<WordData>)
    ensures
        found.deep_view() == filtered(loans.deep_view(), prefixes.deep_view(), text@),
{
    let words = split_words(text.as_str());
    match_words(loans, prefixes, &words)
}

/// Where no word matches the dictionary, nothing is found.
pub proof fn lemma_no_match_finds_nothing(
    loans: Seq<LoanModel>,
    rules: Seq<PrefixModel>,
    words: Seq<Seq<char>>,
)
    requires
        forall|i: int| 0 <= i < words.len() ==> match_of(loans, rules, #[trigger] words[i]) is None,
    ensures
        found_in(loans, rules, words).len() == 0,
    decreases words.len(),
{
    if words.len() > 0 {
        assert forall|i: int| 0 <= i < words.drop_last().len() implies match_of(
            loans,
            rules,
            #[trigger] words.drop_last()[i],
        ) is None by {
            assert(words.drop_last()[i] == words[i]);
        }
        lemma_no_match_finds_nothing(loans, rules, words.drop_last());
        assert(match_of(loans, rules, words[words.len() - 1]) is None);
    }
}

/// A text all of whose words match nothing in the dictionary has no
/// loanwords: the filter returns the empty sequence for it.
pub proof fn law_native_text_gives_nothing(
    loans: Seq<LoanModel>,
    rules: Seq<PrefixModel>,
    text: Seq<char>,
)
    requires
        forall|i: int|
            0 <= i < normalized_words(text).len() ==> match_of(
                loans,
                rules,
                #[trigger] normalized_words(text)[i],
            ) is None,
    ensures
        filtered(loans, rules, text) == Seq::<WordModel>::empty(),
{
    lemma_no_match_finds_nothing(loans, rules, normalized_words(text));
    assert(filtered(loans, rules, text) =~= Seq::<WordModel>::empty());
}

/// The empty text has no loanwords.
pub proof fn law_empty_text_gives_nothing(loans: Seq<LoanModel>, rules: Seq<PrefixModel>)
    ensures
        filtered(loans, rules, Seq::<char>::empty()) == Seq::<WordModel>::empty(),
{
    assert(tagged_text(Seq::<char>::empty()) =~= Seq::<(char, bool)>::empty());
    assert(normalized_words(Seq::<char>::empty()) =~= Seq::<Seq<char>>::empty());
}

/// Whether `word` matches the dictionary.
pub open spec fn is_loanword(loans: Seq<LoanModel>, rules: Seq<PrefixModel>) -> spec_fn(
    Seq<char>,
) -> bool {
    |word: Seq<char>| match_of(loans, rules, word) is Some
}

/// The records found are those of the matching words, one for each and in
/// the same order.
pub proof fn lemma_found_follows_matches(
    loans: Seq<LoanModel>,
    rules: Seq<PrefixModel>,
    words: Seq<Seq<char>>,
)
    ensures
        found_in(loans, rules, words).len() == words.filter(is_loanword(loans, rules)).len(),
        forall|k: int|
            0 <= k < found_in(loans, rules, words).len() ==> Some(
                #[trigger] found_in(loans, rules, words)[k],
            ) == match_of(loans, rules, words.filter(is_loanword(loans, rules))[k]),
    decreases words.len(),
{
    reveal(Seq::filter);
    if words.len() > 0 {
        lemma_found_follows_matches(loans, rules, words.drop_last());
    }
}

/// The filter returns exactly one record for each word of the text that
/// matches the dictionary, in the order in which those words stand in the
/// text.
pub proof fn law_one_record_per_loanword(
    loans: Seq<LoanModel>,
    rules: Seq<PrefixModel>,
    text: Seq<char>,
)
    ensures
        filtered(loans, rules, text).len() == normalized_words(text).filter(
            is_loanword(loans, rules),
        ).len(),
        forall|k: int|
            0 <= k < filtered(loans, rules, text).len() ==> Some(
                #[trigger] filtered(loans, rules, text)[k],
            ) == match_of(
                loans,
                rules,
                normalized_words(text).filter(is_loanword(loans, rules))[k],
            ),
{
    lemma_found_follows_matches(loans, rules, normalized_words(text));
}

/// The filter is a function of the dictionary and the text: two runs on the
/// same input give the same sequence of records.
pub proof fn law_filter_is_deterministic(
    loans: Seq<LoanModel>,
    rules: Seq<PrefixModel>,
    text: Seq<char>,
    first: Seq<WordModel>,
    second: Seq<WordModel>,
)
    requires
        first == filtered(loans, rules, text),
        second == filtered(loans, rules, text),
    ensures
        first == second,
{
}

/// Where several rules find a match for a word, the first of them in the
/// order of the rules decides, and its match is the only one returned.
pub proof fn law_first_rule_wins(
    loans: Seq<LoanModel>,
    rules: Seq<PrefixModel>,
    word: Seq<char>,
    first: int,
)
    requires
        0 <= first < rules.len(),
        match_by(loans, rules[first], word) is Some,
        forall|k: int| 0 <= k < first ==> match_by(loans, #[trigger] rules[k], word) is None,
    ensures
        match_of(loans, rules, word) == match_by(loans, rules[first], word),
    decreases first,
{
    if first > 0 {
        assert forall|k: int| 0 <= k < first - 1 implies match_by(
            loans,
            #[trigger] rules.drop_first()[k],
            word,
        ) is None by {
            assert(rules.drop_first()[k] == rules[k + 1]);
        }
        assert(rules.drop_first()[first - 1] == rules[first]);
        law_first_rule_wins(loans, rules.drop_first(), word, first - 1);
        assert(match_by(loans, rules[0], word) is None);
    }
}

/// A loan that is found is one of the loans and has the root asked for.
pub proof fn lemma_loan_of_is_member(loans: Seq<LoanModel>, stem: Seq<char>)
    requires
        loan_of(loans, stem) is Some,
    ensures
        loans.contains(loan_of(loans, stem)->0),
        loan_of(loans, stem)->0.root == stem,
    decreases loans.len(),
{
    if loans[0].root == stem {
        assert(loans[0] == loan_of(loans, stem)->0);
    } else {
        lemma_loan_of_is_member(loans.drop_first(), stem);
        let found = loan_of(loans, stem)->0;
        let k = choose|k: int| 0 <= k < loans.drop_first().len() && loans.drop_first()[k] == found;
        assert(loans[k + 1] == found);
    }
}

/// A record is found only for a word that the dictionary proves to be a
/// loanword: one of the rules leaves a stem of the word that is the root of
/// one of the loans, and the record says what that loan says.
pub proof fn law_record_comes_from_the_dictionary(
    loans: Seq<LoanModel>,
    rules: Seq<PrefixModel>,
    word: Seq<char>,
)
    requires
        match_of(loans, rules, word) is Some,
    ensures
        exists|i: int, j: int|
            0 <= i < rules.len() && 0 <= j < loans.len() && stem_of(
                #[trigger] rules[i],
                word,
            ) == Some((#[trigger] loans[j]).root) && match_of(loans, rules, word) == Some(
                WordModel::of(loans[j]),
            ),
    decreases rules.len(),
{
    if match_by(loans, rules[0], word) is Some {
        let stem = stem_of(rules[0], word)->0;
        lemma_loan_of_is_member(loans, stem);
        let loan = loan_of(loans, stem)->0;
        let j = choose|j: int| 0 <= j < loans.len() && loans[j] == loan;
        assert(stem_of(rules[0], word) == Some(loans[j].root));
    } else {
        law_record_comes_from_the_dictionary(loans, rules.drop_first(), word);
        let (i, j) = choose|i: int, j: int|
            0 <= i < rules.drop_first().len() && 0 <= j < loans.len() && stem_of(
                #[trigger] rules.drop_first()[i],
                word,
            ) == Some((#[trigger] loans[j]).root) && match_of(loans, rules.drop_first(), word)
                == Some(WordModel::of(loans[j]));
        assert(rules[i + 1] == rules.drop_first()[i]);
        assert(stem_of(rules[i + 1], word) == Some(loans[j].root));
    }
}

} // verus!
