use native_words::utils::dictionary::Dictionary;
use native_words::utils::morpheme::{Loan, PrefixData};
use native_words::utils::word::filter_native_words;

fn strings(items: &[&str]) -> Vec<String> {
    items.iter().map(|e| e.to_string()).collect()
}

fn loan(root: &str, explanations: &[&str]) -> Loan {
    Loan { root: root.to_string(), explanations: strings(explanations), note: String::new() }
}

fn rule(prefix: &str, min_stem: usize) -> PrefixData {
    PrefixData { prefix: prefix.to_string(), min_stem }
}

fn loans() -> Vec<Loan> {
    vec![loan("маркет", &["рынок"]), loan("кант", &["оторочка", "край"])]
}

#[test]
fn dictionary_adds_the_identity_rule_after_the_given_rules() {
    let dictionary = Dictionary::new(loans(), vec![rule("супер", 3)]).unwrap();
    assert_eq!(dictionary.find_prefixes(), &vec![rule("супер", 3), PrefixData::default()]);

    let empty = Dictionary::new(Vec::new(), Vec::new()).unwrap();
    assert_eq!(empty.find_prefixes(), &vec![PrefixData::default()]);
    assert!(empty.find_loans().is_empty());
}

#[test]
fn dictionary_keeps_the_identity_rule_where_it_is_given() {
    let given = vec![PrefixData::default(), rule("супер", 3)];
    let dictionary = Dictionary::new(loans(), given.clone()).unwrap();
    assert_eq!(dictionary.find_prefixes(), &given);
}

#[test]
fn dictionary_keeps_the_loans_in_their_order() {
    let dictionary = Dictionary::new(loans(), Vec::new()).unwrap();
    assert_eq!(dictionary.find_loans(), &loans());
}

#[test]
fn dictionary_refuses_a_loan_without_root_or_explanation() {
    let rootless = vec![loan("маркет", &["рынок"]), loan("", &["край"])];
    let bare = vec![loan("маркет", &[]), loan("кант", &["край"])];
    assert!(Dictionary::new(rootless, Vec::new()).is_none());
    assert!(Dictionary::new(bare, Vec::new()).is_none());
}

#[test]
fn dictionary_refuses_a_rule_without_prefix_other_than_the_identity() {
    assert!(Dictionary::new(loans(), vec![rule("супер", 3), rule("", 2)]).is_none());
    assert!(Dictionary::new(loans(), vec![rule("", 0), rule("супер", 3)]).is_some());
}

#[test]
fn dictionary_finds_a_loan_by_its_root_in_any_case() {
    let dictionary = Dictionary::new(loans(), Vec::new()).unwrap();
    assert_eq!(dictionary.find_loan("кант"), Some(&strings(&["оторочка", "край"])));
    assert_eq!(dictionary.find_loan("Кант"), Some(&strings(&["оторочка", "край"])));
    assert_eq!(dictionary.find_loan("МАРКЕТ"), Some(&strings(&["рынок"])));
    assert_eq!(dictionary.find_loan("канты"), None);
    assert_eq!(dictionary.find_loan(""), None);
}

#[test]
fn dictionary_serves_the_filter() {
    let dictionary = Dictionary::new(loans(), vec![rule("супер", 3)]).unwrap();
    let found = filter_native_words(
        dictionary.find_loans(),
        dictionary.find_prefixes(),
        "Супермаркет у дома".to_string(),
    );
    assert_eq!(found.len(), 1);
    assert_eq!(found[0].render(), "Не маркет, а рынок.");
}
