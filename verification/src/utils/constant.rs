//! The fixed wording of the replies.

use vstd::prelude::*;

verus! {

/// The reply to a text in which no loanword was found.
pub const ALL_NATIVE_ANSWER: &'static str = "Заимствований не найдено: все слова родные.";

/// The closing line of a reply that lists loanwords.
pub const CALL_FOR_HELP: &'static str =
    "Если замена неточна или слова нет в словаре, напишите нам, и мы поправим.";

} // verus!
