//! The morpheme dictionary: the loan roots and the prefix rules, checked
//! once when the dictionary is built and only read afterwards.

use vstd::prelude::*;
use crate::utils::morpheme::{Loan, LoanModel, PrefixData, PrefixModel};
use crate::utils::text::lowercase;
use crate::utils::word::{find_loan, lemma_loan_of_is_member, loan_of};

verus! {

/// Every loan has a root and at least one explanation.
pub open spec fn loans_wf(loans: Seq<LoanModel>) -> bool {
    forall|i: int| 0 <= i < loans.len() ==> (#[trigger] loans[i]).wf()
}

/// Every rule is the identity or has a prefix to strip.
pub open spec fn rules_wf(rules: Seq<PrefixModel>) -> bool {
    forall|i: int| 0 <= i < rules.len() ==> (#[trigger] rules[i]).wf()
}

/// The rules with the identity among them: it is added at the end where
/// it is missing, so that whole words are looked up after every prefix
/// has been tried.
pub open spec fn with_identity(rules: Seq<PrefixModel>) -> Seq<PrefixModel> {
    if rules.contains(PrefixModel::identity()) {
        rules
    } else {
        rules.push(PrefixModel::identity())
    }
}

/// A value is among the first `j + 1` items where it is among the first
/// `j` or is the next one.
proof fn lemma_contains_one_more<A>(items: Seq<A>, j: int, item: A)
    requires
        0 <= j < items.len(),
    ensures
        items.take(j + 1).contains(item) <==> items.take(j).contains(item) || items[j] == item,
{
    let seen = items.take(j);
    let next = items.take(j + 1);
    if seen.contains(item) {
        let k = choose|k: int| 0 <= k < seen.len() && seen[k] == item;
        assert(next[k] == item);
    }
    if items[j] == item {
        assert(next[j] == item);
    }
    if next.contains(item) && items[j] != item {
        let k = choose|k: int| 0 <= k < next.len() && next[k] == item;
        assert(seen[k] == item);
    }
}

/// The loan roots and the prefix rules of the filter.
pub struct Dictionary {
    loans: Vec<Loan>,
    prefixes: Vec<PrefixData>,
}

impl Dictionary {
    /// The loans, in the order in which they are looked up.
    pub closed spec fn loans(&self) -> Seq<LoanModel> {
        self.loans.deep_view()
    }

    /// The prefix rules, in the order in which they are tried.
    pub closed spec fn prefixes(&self) -> Seq<PrefixModel> {
        self.prefixes.deep_view()
    }

    #[verifier::type_invariant]
    spec fn valid(&self) -> bool {
        &&& loans_wf(self.loans.deep_view())
        &&& rules_wf(self.prefixes.deep_view())
        &&& self.prefixes.deep_view().contains(PrefixModel::identity())
    }

    /// Builds the dictionary, or returns `None` where a loan lacks its root
    /// or its explanations, or a rule other than the identity lacks its
    /// prefix. The identity rule is added after the given rules where it is
    /// not among them.
    pub fn new(loans: Vec<Loan>, prefixes: Vec<PrefixData>) -> (dictionary: Option<Dictionary>)
        ensures
            dictionary is Some <==> loans_wf(loans.deep_view()) && rules_wf(prefixes.deep_view()),
            dictionary matches Some(d) ==> d.loans() == loans.deep_view() && d.prefixes()
                == with_identity(prefixes.deep_view()),
    {
        let mut i: usize = 0;
        while i < loans.len()
            invariant
                i <= loans.len(),
                forall|k: int| 0 <= k < i ==> (#[trigger] loans.deep_view()[k]).wf(),
            decreases loans.len() - i,
        {
            if !loans[i].is_valid() {
                assert(!loans.deep_view()[i as int].wf());
                return None;
            }
            i += 1;
        }
        let mut has_identity = false;
        let mut j: usize = 0;
        while j < prefixes.len()
            invariant
                j <= prefixes.len(),
                forall|k: int| 0 <= k < j ==> (#[trigger] prefixes.deep_view()[k]).wf(),
                has_identity <==> prefixes.deep_view().take(j as int).contains(
                    PrefixModel::identity(),
                ),
            decreases prefixes.len() - j,
        {
            if !prefixes[j].is_valid() {
                assert(!prefixes.deep_view()[j as int].wf());
                return None;
            }
            proof {
                lemma_contains_one_more(prefixes.deep_view(), j as int, PrefixModel::identity());
            }
            if prefixes[j].is_identity() {
                has_identity = true;
            }
            j += 1;
        }
        assert(prefixes.deep_view().take(j as int) =~= prefixes.deep_view());
        let mut prefixes = prefixes;
        if !has_identity {
            let ghost given = prefixes.deep_view();
            prefixes.push(PrefixData::default());
            proof {
                assert(prefixes.deep_view() =~= given.push(PrefixModel::identity()));
                assert(prefixes.deep_view()[given.len() as int] == PrefixModel::identity());
            }
        }
        Some(Dictionary { loans, prefixes })
    }

    /// The prefix rules in the order in which they are tried; the identity
    /// rule is among them.
    pub fn find_prefixes(&self) -> (rules: &Vec<PrefixData>)
        ensures
            rules.deep_view() == self.prefixes(),
            rules_wf(rules.deep_view()),
            rules.deep_view().contains(PrefixModel::identity()),
    {
        proof {
            use_type_invariant(self);
        }
        &self.prefixes
    }

    /// The loans in the order in which they are looked up.
    pub fn find_loans(&self) -> (loans: &Vec<Loan>)
        ensures
            loans.deep_view() == self.loans(),
            loans_wf(loans.deep_view()),
    {
        proof {
            use_type_invariant(self);
        }
        &self.loans
    }

    /// The explanations of the loan whose root is `root` in lower case, or
    /// `None` where the dictionary has no such root.
    pub fn find_loan(&self, root: &str) -> (explanations: Option<&Vec<String>>)
        ensures
            explanations is Some <==> loan_of(self.loans(), lowercase(root@)) is Some,
            explanations matches Some(e) ==> {
                &&& loan_of(self.loans(), lowercase(root@))->0.explanations == e.deep_view()
                &&& e.len() > 0
            },
    {
        proof {
            use_type_invariant(self);
        }
        let stem = root.to_lowercase();
        match find_loan(&self.loans, &stem) {
            Some(loan) => {
                proof {
                    lemma_loan_of_is_member(self.loans.deep_view(), stem@);
                }
                Some(&loan.explanations)
            },
            None => None,
        }
    }
}

} // verus!
