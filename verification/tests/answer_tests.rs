use native_words::answer::words::{build_answer_text, words_answer, Answer, ChatMessage};
use native_words::utils::constant::{ALL_NATIVE_ANSWER, CALL_FOR_HELP};
use native_words::utils::morpheme::{Loan, PrefixData, WordData};
use native_words::utils::word::filter_native_words;

fn loan(root: &str, explanations: &[&str], note: &str) -> Loan {
    Loan {
        root: root.to_string(),
        explanations: explanations.iter().map(|e| e.to_string()).collect(),
        note: note.to_string(),
    }
}

fn roots() -> Vec<Loan> {
    vec![
        loan("абзац", &["отступ"], ""),
        loan(
            "кант",
            &["оторочка, тесьма, выпушка", "края скользяка (у лыж и снегоката)"],
            "Если вы имели в виду не род мыслителя Иммануила Канта, то будет правильно",
        ),
        loan("система", &["устройство"], ""),
        loan("систематик", &["упорядочиватель"], ""),
        loan("фабрика", &["завод"], ""),
        loan("фабричный", &["заводской"], ""),
    ]
}

fn word(original: &str, explanations: &[&str]) -> WordData {
    WordData {
        original: original.to_string(),
        explanations: explanations.iter().map(|e| e.to_string()).collect(),
        note: String::new(),
    }
}

fn message(text: Option<&str>, is_group: bool, is_supergroup: bool) -> ChatMessage {
    ChatMessage { text: text.map(|t| t.to_string()), is_group, is_supergroup }
}

#[test]
fn test_build_answer_text() {
    let words: Vec<Loan> = roots();
    let prefixes = vec![PrefixData::default()];
    let non_native_words_one = filter_native_words(&words, &prefixes, "приплясывание".to_string());

    assert_eq!(
        build_answer_text(non_native_words_one),
        ALL_NATIVE_ANSWER.to_string()
    );

    let non_native_words_two =
        filter_native_words(&words, &prefixes, "кант систематик фабричный".to_string());

    assert_eq!(
        build_answer_text(non_native_words_two),
        format!(
            "{}\n{}",
            "Если вы имели в виду не род мыслителя Иммануила Канта, то будет правильно 1) оторочка, тесьма, выпушка 2) края скользяка (у лыж и снегоката)\nНе систематик, а упорядочиватель.\nНе фабричный, а заводской.\n", CALL_FOR_HELP
        )
    );
}

#[test]
fn answer_text_of_nothing_is_the_fixed_answer() {
    assert_eq!(build_answer_text(Vec::new()), ALL_NATIVE_ANSWER);
    assert!(!ALL_NATIVE_ANSWER.is_empty());
}

#[test]
fn answer_text_lists_each_word_then_an_empty_line_and_the_closing_line() {
    let one = build_answer_text(vec![word("абзац", &["отступ"])]);
    assert_eq!(one, format!("Не абзац, а отступ.\n\n{}", CALL_FOR_HELP));

    let two = build_answer_text(vec![word("абзац", &["отступ"]), word("фабрика", &["завод"])]);
    assert_eq!(
        two,
        format!("Не абзац, а отступ.\nНе фабрика, а завод.\n\n{}", CALL_FOR_HELP)
    );
    assert!(!CALL_FOR_HELP.is_empty());
}

#[test]
fn private_chat_always_gets_a_reply() {
    let found = vec![word("абзац", &["отступ"])];
    assert_eq!(
        Answer::for_words(true, found),
        Answer::Reply(format!("Не абзац, а отступ.\n\n{}", CALL_FOR_HELP))
    );
    assert_eq!(
        Answer::for_words(true, Vec::new()),
        Answer::Reply(ALL_NATIVE_ANSWER.to_string())
    );
}

#[test]
fn group_chat_is_answered_by_chance_and_only_about_loanwords() {
    let found = vec![word("абзац", &["отступ"])];
    assert_eq!(
        Answer::for_words(false, found),
        Answer::ReplyByChance(format!("Не абзац, а отступ.\n\n{}", CALL_FOR_HELP))
    );
    assert_eq!(Answer::for_words(false, Vec::new()), Answer::Silent);
}

#[test]
fn settle_lets_chance_suppress_only_what_depends_on_it() {
    let text = "ответ".to_string();
    assert_eq!(Answer::Silent.settle(false), None);
    assert_eq!(Answer::Silent.settle(true), None);
    assert_eq!(Answer::Reply(text.clone()).settle(false), Some(text.clone()));
    assert_eq!(Answer::Reply(text.clone()).settle(true), Some(text.clone()));
    assert_eq!(Answer::ReplyByChance(text.clone()).settle(false), Some(text.clone()));
    assert_eq!(Answer::ReplyByChance(text.clone()).settle(true), None);
}

#[test]
fn only_a_reply_by_chance_depends_on_chance() {
    assert!(!Answer::Silent.depends_on_chance());
    assert!(!Answer::Reply("ответ".to_string()).depends_on_chance());
    assert!(Answer::ReplyByChance("ответ".to_string()).depends_on_chance());
}

#[test]
fn message_without_text_gets_no_answer() {
    let prefixes = vec![PrefixData::default()];
    assert_eq!(
        words_answer(message(None, false, false), roots(), prefixes.clone()),
        Answer::Silent
    );
    assert_eq!(words_answer(message(None, true, false), roots(), prefixes), Answer::Silent);
}

#[test]
fn private_message_is_answered_whatever_it_holds() {
    let prefixes = vec![PrefixData::default()];
    assert_eq!(
        words_answer(message(Some("приплясывание"), false, false), roots(), prefixes.clone()),
        Answer::Reply(ALL_NATIVE_ANSWER.to_string())
    );
    assert_eq!(
        words_answer(message(Some("Новый абзац"), false, false), roots(), prefixes),
        Answer::Reply(format!("Не абзац, а отступ.\n\n{}", CALL_FOR_HELP))
    );
}

#[test]
fn group_message_is_answered_only_about_loanwords() {
    let prefixes = vec![PrefixData::default()];
    let expected = Answer::ReplyByChance(format!("Не абзац, а отступ.\n\n{}", CALL_FOR_HELP));
    assert_eq!(
        words_answer(message(Some("приплясывание"), true, false), roots(), prefixes.clone()),
        Answer::Silent
    );
    assert_eq!(
        words_answer(message(Some("приплясывание"), false, true), roots(), prefixes.clone()),
        Answer::Silent
    );
    assert_eq!(
        words_answer(message(Some("Новый абзац"), true, false), roots(), prefixes.clone()),
        expected
    );
    assert_eq!(
        words_answer(message(Some("Новый абзац"), false, true), roots(), prefixes.clone()),
        expected
    );
    assert_eq!(
        words_answer(message(Some("Новый абзац"), true, true), roots(), prefixes),
        expected
    );
}

#[test]
fn message_and_answer_clones_are_equal_to_what_they_were_made_of() {
    let with_text = message(Some("Новый абзац"), true, false);
    let without_text = message(None, false, true);
    assert_eq!(with_text.clone(), with_text);
    assert_eq!(without_text.clone(), without_text);
    assert_eq!(Answer::Silent.clone(), Answer::Silent);
    assert_eq!(Answer::Reply("ответ".to_string()).clone(), Answer::Reply("ответ".to_string()));
    assert_eq!(
        Answer::ReplyByChance("ответ".to_string()).clone(),
        Answer::ReplyByChance("ответ".to_string())
    );
}
