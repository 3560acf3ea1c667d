//! The reply to a chat message: its text, and whether it is sent.

use vstd::prelude::*;
use crate::utils::constant::{ALL_NATIVE_ANSWER, CALL_FOR_HELP};
use crate::utils::morpheme::{Loan, LoanModel, PrefixData, PrefixModel, WordData, WordModel};
use crate::utils::word::{filter_native_words, filtered};

verus! {

/// The lines of the found loanwords, each closed by a line feed.
pub open spec fn word_lines(words: Seq<WordModel>) -> Seq<char>
    decreases words.len(),
{
    if words.len() == 0 {
        Seq::empty()
    } else {
        word_lines(words.drop_last()) + words.last().rendering() + "\n"@
    }
}

/// The text of the reply: the fixed answer where nothing was found, else
/// the line of each loanword, an empty line and the closing line.
pub open spec fn answer_text(words: Seq<WordModel>) -> Seq<char> {
    if words.len() == 0 {
        ALL_NATIVE_ANSWER@
    } else {
        word_lines(words) + "\n"@ + CALL_FOR_HELP@
    }
}

/// Builds the text of the reply from the loanwords that were found.
pub fn build_answer_text(non_native_words: Vec<WordData>) -> (text: String)
    ensures
        text@ == answer_text(non_native_words.deep_view()),
{
    let mut text = String::new();
    if non_native_words.len() == 0 {
        text.append(ALL_NATIVE_ANSWER);
        return text;
    }
    let ghost all = non_native_words.deep_view();
    let mut i: usize = 0;
    while i < non_native_words.len()
        invariant
            i <= non_native_words.len(),
            all == non_native_words.deep_view(),
            text@ == word_lines(all.take(i as int)),
        decreases non_native_words.len() - i,
    {
        proof {
            assert(all.take(i as int + 1).drop_last() =~= all.take(i as int));
            assert(all.take(i as int + 1).last() == non_native_words[i as int]@);
        }
        let line = non_native_words[i].render();
        text.append(line.as_str());
        text.append("\n");
        i += 1;
    }
    assert(all.take(i as int) =~= all);
    text.append("\n");
    text.append(CALL_FOR_HELP);
    text
}

/// What the reply depends on of an incoming chat message: its text, where
/// it has one, and the kind of chat it came from.
#[derive(Debug, PartialEq, Eq)]
pub struct ChatMessage {
    pub text: Option<String>,
    pub is_group: bool,
    pub is_supergroup: bool,
}

/// A chat message as a mathematical value.
pub struct ChatMessageModel {
    pub text: Option<Seq<char>>,
    pub is_group: bool,
    pub is_supergroup: bool,
}

impl View for ChatMessage {
    type V = ChatMessageModel;

    open spec fn view(&self) -> ChatMessageModel {
        ChatMessageModel {
            text: match self.text {
                Some(t) => Some(t@),
                None => None,
            },
            is_group: self.is_group,
            is_supergroup: self.is_supergroup,
        }
    }
}

impl Clone for ChatMessage {
    fn clone(&self) -> (copy: ChatMessage)
        ensures
            copy@ == self@,
    {
        let text = match &self.text {
            Some(text) => Some(text.clone()),
            None => None,
        };
        ChatMessage { text, is_group: self.is_group, is_supergroup: self.is_supergroup }
    }
}

impl ChatMessageModel {
    /// A chat is private where it is neither a group nor a supergroup.
    pub open spec fn is_private(self) -> bool {
        !self.is_group && !self.is_supergroup
    }
}

/// What is done about a message.
#[derive(Debug, PartialEq, Eq)]
pub enum Answer {
    /// Nothing is sent.
    Silent,
    /// The text is sent in reply.
    Reply(String),
    /// The text is sent in reply unless chance suppresses it.
    ReplyByChance(String),
}

/// An answer as a mathematical value.
pub enum AnswerModel {
    Silent,
    Reply(Seq<char>),
    ReplyByChance(Seq<char>),
}

impl View for Answer {
    type V = AnswerModel;

    open spec fn view(&self) -> AnswerModel {
        match self {
            Answer::Silent => AnswerModel::Silent,
            Answer::Reply(t) => AnswerModel::Reply(t@),
            Answer::ReplyByChance(t) => AnswerModel::ReplyByChance(t@),
        }
    }
}

impl Clone for Answer {
    fn clone(&self) -> (copy: Answer)
        ensures
            copy@ == self@,
    {
        match self {
            Answer::Silent => Answer::Silent,
            Answer::Reply(text) => Answer::Reply(text.clone()),
            Answer::ReplyByChance(text) => Answer::ReplyByChance(text.clone()),
        }
    }
}

impl AnswerModel {
    /// The answer to a text in which `found` are the loanwords. A private
    /// chat always gets a reply. A group gets none where nothing was found,
    /// and else one that chance may suppress.
    pub open spec fn for_words(is_private: bool, found: Seq<WordModel>) -> AnswerModel {
        if is_private {
            AnswerModel::Reply(answer_text(found))
        } else if found.len() == 0 {
            AnswerModel::Silent
        } else {
            AnswerModel::ReplyByChance(answer_text(found))
        }
    }

    /// The answer to a message: none where it has no text, else the answer
    /// to the loanwords of its text.
    pub open spec fn planned(
        message: ChatMessageModel,
        loans: Seq<LoanModel>,
        rules: Seq<PrefixModel>,
    ) -> AnswerModel {
        match message.text {
            None => AnswerModel::Silent,
            Some(text) => Self::for_words(message.is_private(), filtered(loans, rules, text)),
        }
    }

    /// The text that is sent once chance has spoken, if any.
    pub open spec fn settled(self, suppressed: bool) -> Option<Seq<char>> {
        match self {
            AnswerModel::Silent => None,
            AnswerModel::Reply(text) => Some(text),
            AnswerModel::ReplyByChance(text) => if suppressed {
                None
            } else {
                Some(text)
            },
        }
    }
}

impl Answer {
    /// Decides the answer to a text from the kind of chat and the loanwords
    /// found in it.
    pub fn for_words(is_private: bool, non_native_words: Vec<WordData>) -> (answer: Answer)
        ensures
            answer@ == AnswerModel::for_words(is_private, non_native_words.deep_view()),
    {
        if is_private {
            Answer::Reply(build_answer_text(non_native_words))
        } else if non_native_words.len() == 0 {
            Answer::Silent
        } else {
            Answer::ReplyByChance(build_answer_text(non_native_words))
        }
    }

    /// Whether chance has a say in this answer.
    pub fn depends_on_chance(&self) -> (open: bool)
        ensures
            open == (self@ is ReplyByChance),
    {
        match self {
            Answer::ReplyByChance(_) => true,
            _ => false,
        }
    }

    /// The text to send, if any, once it is known whether chance suppresses
    /// the reply.
    pub fn settle(self, suppressed: bool) -> (text: Option<String>)
        ensures
            text is Some <==> self@.settled(suppressed) is Some,
            text matches Some(t) ==> self@.settled(suppressed) == Some(t@),
    {
        match self {
            Answer::Silent => None,
            Answer::Reply(text) => Some(text),
            Answer::ReplyByChance(text) => if suppressed {
                None
            } else {
                Some(text)
            },
        }
    }
}

/// Decides the answer to a chat message.
///
/// A message without text gets none. Else the loanwords of the text are
/// looked up. In a private chat the reply is always sent; in a group it is
/// sent only where a loanword was found, and then only by chance.
pub fn words_answer(msg: ChatMessage, words: Vec<Loan>, prefixes: Vec<PrefixData>) -> (answer:
    Answer)
    ensures
        answer@ == AnswerModel::planned(msg@, words.deep_view(), prefixes.deep_view()),
{
    let is_private_chat = !msg.is_group && !msg.is_supergroup;
    let msg_text = match msg.text {
        Some(text) => text,
        None => {
            return Answer::Silent;
        },
    };
    let non_native_words = filter_native_words(&words, &prefixes, msg_text);
    Answer::for_words(is_private_chat, non_native_words)
}

} // verus!
