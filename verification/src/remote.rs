//! The shape of the remote endpoint's replies, and the credential check.
//!
//! The transport itself stays with the caller: the caller sends a
//! chat-completion request and hands the response body here. Only
//! `choices[0].message.content` is read, but every element of `choices`
//! must be well-formed, and an empty `choices` array is its own error.

use vstd::prelude::*;

use crate::chars::chars_of;
use crate::decode::{spec_field, spec_truncate, truncate_for_error};
use crate::extract::spec_trim;
use crate::json::{json_of, parse_json, JsonVal};

verus! {

/// Why a remote reply body could not be read.
#[derive(Debug)]
pub enum ChatReplyError {
    /// The body was not the expected JSON shape; carries a truncated
    /// snippet of it.
    Malformed { snippet: String },
    /// The reply was well-formed but its `choices` array was empty.
    NoChoices,
}

/// The mathematical value of a `ChatReplyError`.
pub ghost enum ReplyErrorModel {
    Malformed(Seq<char>),
    NoChoices,
}

impl View for ChatReplyError {
    type V = ReplyErrorModel;

    open spec fn view(&self) -> ReplyErrorModel {
        match self {
            ChatReplyError::Malformed { snippet } => ReplyErrorModel::Malformed(snippet@),
            ChatReplyError::NoChoices => ReplyErrorModel::NoChoices,
        }
    }
}

/// The content of one `choices` element: its `message` object's string
/// `content` field, when the element has that shape.
pub open spec fn spec_choice_content(v: JsonVal) -> Option<Seq<char>> {
    match v {
        JsonVal::Obj(fields) => match spec_field(fields@, "message"@) {
            Some(JsonVal::Obj(mf)) => match spec_field(mf@, "content"@) {
                Some(JsonVal::Str(s)) => Some(s@),
                _ => None,
            },
            _ => None,
        },
        _ => None,
    }
}

/// Whether every element of `choices` is a well-formed choice object.
pub open spec fn spec_choices_ok(items: Seq<JsonVal>) -> bool {
    forall|i: int| 0 <= i < items.len() ==> spec_choice_content(#[trigger] items[i]) is Some
}

/// What reading a reply body yields: the first choice's message content, or
/// the error for a body that is not an object with a well-formed `choices`
/// array, or for an empty one.
pub open spec fn spec_chat_content(body: Seq<char>) -> Result<Seq<char>, ReplyErrorModel> {
    match json_of(body) {
        Some(JsonVal::Obj(fields)) => match spec_field(fields@, "choices"@) {
            Some(JsonVal::Arr(items)) => if !spec_choices_ok(items@) {
                Err(ReplyErrorModel::Malformed(spec_truncate(body)))
            } else if items@.len() == 0 {
                Err(ReplyErrorModel::NoChoices)
            } else {
                Ok(spec_choice_content(items@[0])->Some_0)
            },
            _ => Err(ReplyErrorModel::Malformed(spec_truncate(body))),
        },
        _ => Err(ReplyErrorModel::Malformed(spec_truncate(body))),
    }
}

fn choice_content(v: &JsonVal) -> (r: Option<&String>)
    ensures
        match r {
            Some(s) => spec_choice_content(*v) == Some(s@),
            None => spec_choice_content(*v) is None,
        },
{
    match v {
        JsonVal::Obj(fields) => {
            match crate::decode::find_field(fields, "message") {
                Some(JsonVal::Obj(mf)) => {
                    match crate::decode::find_field(mf, "content") {
                        Some(JsonVal::Str(s)) => Some(s),
                        _ => None,
                    }
                },
                _ => None,
            }
        },
        _ => None,
    }
}

/// Reads a chat-completion reply body: the first choice's message content.
pub fn parse_chat_content(body: &str) -> (r: Result<String, ChatReplyError>)
    ensures
        match r {
            Ok(s) => spec_chat_content(body@) == Ok::<_, ReplyErrorModel>(s@),
            Err(e) => spec_chat_content(body@) == Err::<Seq<char>, _>(e@),
        },
{
    match parse_json(body) {
        Some(JsonVal::Obj(fields)) => {
            match crate::decode::find_field(&fields, "choices") {
                Some(JsonVal::Arr(items)) => {
                    let n = items.len();
                    let mut i: usize = 0;
                    while i < n
                        invariant
                            n == items@.len(),
                            i <= n,
                            json_of(body@) == Some(JsonVal::Obj(fields)),
                            spec_field(fields@, "choices"@) == Some(JsonVal::Arr(*items)),
                            forall|j: int|
                                0 <= j < i ==> spec_choice_content(#[trigger] items@[j]) is Some,
                        decreases n - i,
                    {
                        if choice_content(&items[i]).is_none() {
                            return Err(
                                ChatReplyError::Malformed {
                                    snippet: truncate_for_error(body),
                                },
                            );
                        }
                        i = i + 1;
                    }
                    if n == 0 {
                        return Err(ChatReplyError::NoChoices);
                    }
                    match choice_content(&items[0]) {
                        Some(s) => Ok(s.clone()),
                        None => Err(
                            ChatReplyError::Malformed { snippet: truncate_for_error(body) },
                        ),
                    }
                },
                _ => Err(ChatReplyError::Malformed { snippet: truncate_for_error(body) }),
            }
        },
        _ => Err(ChatReplyError::Malformed { snippet: truncate_for_error(body) }),
    }
}

/// Checks a stored credential: trims it and rejects an empty result. The
/// caller must refuse to contact the remote endpoint without a key.
pub fn normalize_api_key(raw: &str) -> (r: Option<String>)
    ensures
        match r {
            Some(k) => k@ == spec_trim(raw@) && spec_trim(raw@).len() > 0,
            None => spec_trim(raw@).len() == 0,
        },
{
    let v = chars_of(raw);
    let n = v.len();
    let (lo, hi) = crate::extract::trim_bounds(&v, 0, n);
    proof {
        assert(v@.subrange(0, n as int) =~= v@);
    }
    if hi > lo {
        Some(raw.substring_char(lo, hi).to_owned())
    } else {
        None
    }
}

} // verus!
