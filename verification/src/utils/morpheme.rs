//! The entries of the dictionary and the record of a detected loanword.

use vstd::prelude::*;
use crate::utils::text::{decimal, push_decimal};

verus! {

/// A loan root with the native phrases that replace it.
///
/// A root with several senses lists one phrase per sense. For such a root
/// `note` may hold a remark that is shown before the numbered senses; it is
/// empty where there is none, and plays no part where the root has a single
/// explanation.
#[derive(Debug, PartialEq, Eq)]
pub struct Loan {
    pub root: String,
    pub explanations: Vec<String>,
    pub note: String,
}

/// A loan as a mathematical value.
pub struct LoanModel {
    pub root: Seq<char>,
    pub explanations: Seq<Seq<char>>,
    pub note: Seq<char>,
}

impl View for Loan {
    type V = LoanModel;

    open spec fn view(&self) -> LoanModel {
        LoanModel {
            root: self.root@,
            explanations: self.explanations.deep_view(),
            note: self.note@,
        }
    }
}

impl DeepView for Loan {
    type V = LoanModel;

    open spec fn deep_view(&self) -> LoanModel {
        self@
    }
}

impl Clone for Loan {
    fn clone(&self) -> (copy: Loan)
        ensures
            copy@ == self@,
    {
        let explanations = self.explanations.clone();
        assert(explanations.deep_view() =~= self.explanations.deep_view());
        Loan { root: self.root.clone(), explanations, note: self.note.clone() }
    }
}

impl LoanModel {
    /// A loan has a root and at least one explanation.
    pub open spec fn wf(self) -> bool {
        self.root.len() > 0 && self.explanations.len() > 0
    }
}

impl Loan {
    /// Whether the loan has a root and at least one explanation.
    pub fn is_valid(&self) -> (ok: bool)
        ensures
            ok == self@.wf(),
    {
        !self.root.as_str().is_empty() && self.explanations.len() > 0
    }

    /// The loan with the given root and explanations and no note, or `None`
    /// where the root is empty or no explanation is given.
    pub fn new(root: String, explanations: Vec<String>) -> (loan: Option<Loan>)
        ensures
            loan is Some <==> root@.len() > 0 && explanations.len() > 0,
            loan matches Some(l) ==> l@ == (LoanModel {
                root: root@,
                explanations: explanations.deep_view(),
                note: Seq::<char>::empty(),
            }),
    {
        if root.as_str().is_empty() || explanations.len() == 0 {
            None
        } else {
            Some(Loan { root, explanations, note: String::new() })
        }
    }

    /// The same loan with `note` as the remark that introduces its senses.
    pub fn with_note(self, note: String) -> (loan: Loan)
        ensures
            loan@ == (LoanModel { note: note@, ..self@ }),
    {
        Loan { root: self.root, explanations: self.explanations, note }
    }
}

/// A prefix that may be stripped from a word before its stem is looked up.
///
/// Stripping is valid where at least `min_stem` characters remain. The
/// default value has the empty prefix and asks for nothing: it stands for
/// the word taken as a whole.
#[derive(Debug, PartialEq, Eq)]
pub struct PrefixData {
    pub prefix: String,
    pub min_stem: usize,
}

/// A prefix rule as a mathematical value.
pub struct PrefixModel {
    pub prefix: Seq<char>,
    pub min_stem: nat,
}

impl View for PrefixData {
    type V = PrefixModel;

    open spec fn view(&self) -> PrefixModel {
        PrefixModel { prefix: self.prefix@, min_stem: self.min_stem as nat }
    }
}

impl DeepView for PrefixData {
    type V = PrefixModel;

    open spec fn deep_view(&self) -> PrefixModel {
        self@
    }
}

impl Clone for PrefixData {
    fn clone(&self) -> (copy: PrefixData)
        ensures
            copy@ == self@,
    {
        PrefixData { prefix: self.prefix.clone(), min_stem: self.min_stem }
    }
}

impl PrefixModel {
    /// The rule that strips nothing and accepts every stem.
    pub open spec fn identity() -> PrefixModel {
        PrefixModel { prefix: Seq::<char>::empty(), min_stem: 0 }
    }

    /// Only the identity rule has an empty prefix.
    pub open spec fn wf(self) -> bool {
        self.prefix.len() == 0 ==> self.min_stem == 0
    }
}

impl Default for PrefixData {
    fn default() -> (p: PrefixData)
        ensures
            p@ == PrefixModel::identity(),
    {
        PrefixData { prefix: String::new(), min_stem: 0 }
    }
}

impl PrefixData {
    /// Whether the rule is the identity.
    pub fn is_identity(&self) -> (identity: bool)
        ensures
            identity == (self@ == PrefixModel::identity()),
    {
        let identity = self.prefix.as_str().is_empty() && self.min_stem == 0;
        assert(identity ==> self@.prefix =~= Seq::<char>::empty());
        identity
    }

    /// Whether the rule is the identity or has a prefix to strip.
    pub fn is_valid(&self) -> (ok: bool)
        ensures
            ok == self@.wf(),
    {
        !self.prefix.as_str().is_empty() || self.min_stem == 0
    }

    /// The rule that strips `prefix` where at least `min_stem` characters
    /// remain, or `None` where `prefix` is empty.
    pub fn new(prefix: String, min_stem: usize) -> (rule: Option<PrefixData>)
        ensures
            rule is Some <==> prefix@.len() > 0,
            rule matches Some(p) ==> p@ == (PrefixModel {
                prefix: prefix@,
                min_stem: min_stem as nat,
            }),
    {
        if prefix.as_str().is_empty() {
            None
        } else {
            Some(PrefixData { prefix, min_stem })
        }
    }
}

/// A loanword found in a text: the root it was matched against and what
/// the dictionary says of that root.
#[derive(Debug, PartialEq, Eq)]
pub struct WordData {
    pub original: String,
    pub explanations: Vec<String>,
    pub note: String,
}

/// A detected loanword as a mathematical value.
pub struct WordModel {
    pub original: Seq<char>,
    pub explanations: Seq<Seq<char>>,
    pub note: Seq<char>,
}

impl View for WordData {
    type V = WordModel;

    open spec fn view(&self) -> WordModel {
        WordModel {
            original: self.original@,
            explanations: self.explanations.deep_view(),
            note: self.note@,
        }
    }
}

impl DeepView for WordData {
    type V = WordModel;

    open spec fn deep_view(&self) -> WordModel {
        self@
    }
}

impl Clone for WordData {
    fn clone(&self) -> (copy: WordData)
        ensures
            copy@ == self@,
    {
        let explanations = self.explanations.clone();
        assert(explanations.deep_view() =~= self.explanations.deep_view());
        WordData { original: self.original.clone(), explanations, note: self.note.clone() }
    }
}

impl WordModel {
    /// The record of a word that matched `loan`.
    pub open spec fn of(loan: LoanModel) -> WordModel {
        WordModel { original: loan.root, explanations: loan.explanations, note: loan.note }
    }

    /// One sense of a root in a numbered list: its number, a bracket and
    /// the explanation.
    pub open spec fn sense(number: nat, explanation: Seq<char>) -> Seq<char> {
        decimal(number) + ") "@ + explanation
    }

    /// The explanations as a list numbered from 1, with one space between
    /// two entries.
    pub open spec fn senses(explanations: Seq<Seq<char>>) -> Seq<char>
        decreases explanations.len(),
    {
        if explanations.len() == 0 {
            Seq::empty()
        } else if explanations.len() == 1 {
            Self::sense(1, explanations[0])
        } else {
            Self::senses(explanations.drop_last()) + " "@ + Self::sense(
                explanations.len(),
                explanations.last(),
            )
        }
    }

    /// The line shown to the user. A root with exactly one explanation gives
    /// the correction "Не <root>, а <explanation>."; any other gives the
    /// numbered list of its explanations, after the note where there is one.
    pub open spec fn rendering(self) -> Seq<char> {
        if self.explanations.len() == 1 {
            "Не "@ + self.original + ", а "@ + self.explanations[0] + "."@
        } else if self.note.len() == 0 {
            Self::senses(self.explanations)
        } else {
            self.note + " "@ + Self::senses(self.explanations)
        }
    }
}

impl WordData {
    /// The record of a word that matched `loan`.
    pub fn of(loan: &Loan) -> (word: WordData)
        ensures
            word@ == WordModel::of(loan@),
    {
        let explanations = loan.explanations.clone();
        assert(explanations.deep_view() =~= loan.explanations.deep_view());
        WordData { original: loan.root.clone(), explanations, note: loan.note.clone() }
    }

    /// The line shown to the user for this word.
    pub fn render(&self) -> (line: String)
        ensures
            line@ == self@.rendering(),
    {
        let mut line = String::new();
        if self.explanations.len() == 1 {
            line.append("Не ");
            line.append(self.original.as_str());
            line.append(", а ");
            line.append(self.explanations[0].as_str());
            line.append(".");
            return line;
        }
        if !self.note.as_str().is_empty() {
            line.append(self.note.as_str());
            line.append(" ");
        }
        let ghost head = line@;
        let ghost all = self.explanations.deep_view();
        let mut i: usize = 0;
        while i < self.explanations.len()
            invariant
                i <= self.explanations.len(),
                all == self.explanations.deep_view(),
                line@ == head + WordModel::senses(all.take(i as int)),
            decreases self.explanations.len() - i,
        {
            proof {
                assert(all.take(i as int + 1).drop_last() =~= all.take(i as int));
                assert(all.take(i as int + 1).last() == self.explanations[i as int]@);
            }
            if i > 0 {
                line.append(" ");
            }
            push_decimal(&mut line, i + 1);
            line.append(") ");
            line.append(self.explanations[i].as_str());
            i += 1;
        }
        assert(all.take(i as int) =~= all);
        line
    }
}

} // verus!
