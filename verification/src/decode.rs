//! Tolerant structural decoding of extracted model output.
//!
//! A decoded record keeps its id and a translated-text field that may have
//! arrived under one of several historically seen spellings. A record whose
//! text is merely absent is dropped, not an error; only text that is not
//! JSON of the expected outer shape at all fails the batch, with a truncated
//! snippet kept for diagnostics.

use vstd::prelude::*;

use crate::chars::str_eq;
use crate::extract::{extract_json_array, spec_extract_json_array};
use crate::json::{json_of, parse_json, JsonVal};
use crate::result_views;
use crate::ResultModel;
use crate::TranslationResult;

verus! {

/// A decode failure, carrying a truncated snippet of the offending text.
#[derive(Debug)]
pub struct ParseError {
    pub snippet: String,
}

/// A text cut down for an error message: at most two hundred characters,
/// with an ellipsis when something was cut.
pub open spec fn spec_truncate(s: Seq<char>) -> Seq<char> {
    if s.len() > 200 {
        s.subrange(0, 200) + "..."@
    } else {
        s
    }
}

/// Cuts a text down for an error message.
pub fn truncate_for_error(s: &str) -> (r: String)
    ensures
        r@ == spec_truncate(s@),
{
    let n = s.unicode_len();
    if n > 200 {
        let mut r = s.substring_char(0, 200).to_owned();
        r.append("...");
        r
    } else {
        s.to_owned()
    }
}

/// The recognized spellings of the translated-text field.
pub open spec fn spec_is_alias(k: Seq<char>) -> bool {
    k == "translation"@ || k == "translated_text"@ || k == "text"@ || k == "translated"@
}

fn is_alias(k: &str) -> (b: bool)
    ensures
        b == spec_is_alias(k@),
{
    str_eq(k, "translation") || str_eq(k, "translated_text") || str_eq(k, "text") || str_eq(
        k,
        "translated",
    )
}

/// The value of the first field with the given name, if any.
pub open spec fn spec_field(fields: Seq<(String, JsonVal)>, name: Seq<char>) -> Option<JsonVal>
    decreases fields.len(),
{
    if fields.len() == 0 {
        None
    } else if fields.first().0@ == name {
        Some(fields.first().1)
    } else {
        spec_field(fields.drop_first(), name)
    }
}

/// The value of the first field whose name is a recognized spelling of the
/// translated-text field, if any.
pub open spec fn spec_alias_field(fields: Seq<(String, JsonVal)>) -> Option<JsonVal>
    decreases fields.len(),
{
    if fields.len() == 0 {
        None
    } else if spec_is_alias(fields.first().0@) {
        Some(fields.first().1)
    } else {
        spec_alias_field(fields.drop_first())
    }
}

/// The decode of one record: `Err` when the record is malformed (no string
/// `sid`, or a translated-text field that is neither a string nor null),
/// `Ok(None)` when it merely lacks its text, `Ok(Some(..))` otherwise.
pub open spec fn spec_decode_obj(fields: Seq<(String, JsonVal)>) -> Result<
    Option<ResultModel>,
    (),
> {
    match spec_field(fields, "sid"@) {
        Some(JsonVal::Str(sid)) => match spec_alias_field(fields) {
            None => Ok(None),
            Some(JsonVal::Str(t)) => Ok(Some(ResultModel { sid: sid@, translation: t@ })),
            Some(JsonVal::Null) => Ok(None),
            Some(_) => Err(()),
        },
        _ => Err(()),
    }
}

/// The decode of one array element: anything but an object is malformed.
pub open spec fn spec_decode_item(v: JsonVal) -> Result<Option<ResultModel>, ()> {
    match v {
        JsonVal::Obj(fields) => spec_decode_obj(fields@),
        _ => Err(()),
    }
}

/// The decode of the array elements in order; a malformed record fails the
/// batch, a record without text is dropped.
pub open spec fn spec_decode_items(items: Seq<JsonVal>) -> Result<Seq<ResultModel>, ()>
    decreases items.len(),
{
    if items.len() == 0 {
        Ok(Seq::empty())
    } else {
        match spec_decode_items(items.drop_last()) {
            Err(e) => Err(e),
            Ok(rs) => match spec_decode_item(items.last()) {
                Err(e) => Err(e),
                Ok(None) => Ok(rs),
                Ok(Some(m)) => Ok(rs.push(m)),
            },
        }
    }
}

/// What decoding an extracted text yields: the decoded records, or the
/// truncated snippet that a `ParseError` carries when the text is not a
/// JSON array of well-formed records.
pub open spec fn spec_decode_translations(text: Seq<char>) -> Result<Seq<ResultModel>, Seq<char>> {
    match json_of(text) {
        Some(JsonVal::Arr(items)) => match spec_decode_items(items@) {
            Ok(rs) => Ok(rs),
            Err(e) => Err(spec_truncate(text)),
        },
        _ => Err(spec_truncate(text)),
    }
}

pub(crate) fn find_field<'a>(fields: &'a Vec<(String, JsonVal)>, name: &str) -> (r: Option<&'a JsonVal>)
    ensures
        match r {
            Some(v) => spec_field(fields@, name@) == Some(*v),
            None => spec_field(fields@, name@) is None,
        },
{
    let n = fields.len();
    let mut i: usize = 0;
    proof {
        assert(fields@.skip(0) =~= fields@);
    }
    while i < n
        invariant
            n == fields@.len(),
            i <= n,
            spec_field(fields@, name@) == spec_field(fields@.skip(i as int), name@),
        decreases n - i,
    {
        if str_eq(fields[i].0.as_str(), name) {
            proof {
                assert(fields@.skip(i as int).first() == fields@[i as int]);
            }
            return Some(&fields[i].1);
        }
        i = i + 1;
        proof {
            assert(fields@.skip(i - 1).drop_first() =~= fields@.skip(i as int));
        }
    }
    None
}

fn find_alias_field<'a>(fields: &'a Vec<(String, JsonVal)>) -> (r: Option<&'a JsonVal>)
    ensures
        match r {
            Some(v) => spec_alias_field(fields@) == Some(*v),
            None => spec_alias_field(fields@) is None,
        },
{
    let n = fields.len();
    let mut i: usize = 0;
    proof {
        assert(fields@.skip(0) =~= fields@);
    }
    while i < n
        invariant
            n == fields@.len(),
            i <= n,
            spec_alias_field(fields@) == spec_alias_field(fields@.skip(i as int)),
        decreases n - i,
    {
        if is_alias(fields[i].0.as_str()) {
            proof {
                assert(fields@.skip(i as int).first() == fields@[i as int]);
            }
            return Some(&fields[i].1);
        }
        i = i + 1;
        proof {
            assert(fields@.skip(i - 1).drop_first() =~= fields@.skip(i as int));
        }
    }
    None
}

fn decode_item(v: &JsonVal) -> (r: Result<Option<TranslationResult>, ()>)
    ensures
        match r {
            Ok(Some(t)) => spec_decode_item(*v) == Ok::<Option<ResultModel>, ()>(Some(t@)),
            Ok(None) => spec_decode_item(*v) == Ok::<Option<ResultModel>, ()>(None),
            Err(e) => spec_decode_item(*v) is Err,
        },
{
    match v {
        JsonVal::Obj(fields) => {
            match find_field(fields, "sid") {
                Some(JsonVal::Str(sid)) => {
                    match find_alias_field(fields) {
                        None => Ok(None),
                        Some(JsonVal::Str(t)) => Ok(
                            Some(
                                TranslationResult { sid: sid.clone(), translation: t.clone() },
                            ),
                        ),
                        Some(JsonVal::Null) => Ok(None),
                        Some(_) => Err(()),
                    }
                },
                _ => Err(()),
            }
        },
        _ => Err(()),
    }
}

/// Decodes an extracted text into the translation records it carries.
///
/// Succeeds exactly when the text is a JSON array whose elements are objects
/// with a string `sid` and, under any recognized spelling, a string or null
/// or absent translated text; records without text are dropped, and any
/// malformed record fails the whole batch.
pub fn decode_translations(extracted: &str) -> (r: Result<Vec<TranslationResult>, ParseError>)
    ensures
        match r {
            Ok(rs) => spec_decode_translations(extracted@) == Ok::<_, Seq<char>>(
                result_views(rs@),
            ),
            Err(e) => spec_decode_translations(extracted@) == Err::<Seq<ResultModel>, _>(
                e.snippet@,
            ) && e.snippet@ == spec_truncate(extracted@),
        },
{
    match parse_json(extracted) {
        Some(JsonVal::Arr(items)) => {
            let n = items.len();
            let mut out: Vec<TranslationResult> = Vec::new();
            let mut i: usize = 0;
            proof {
                assert(items@.subrange(0, 0) =~= Seq::<JsonVal>::empty());
                assert(result_views(out@) =~= Seq::<ResultModel>::empty());
            }
            while i < n
                invariant
                    n == items@.len(),
                    i <= n,
                    json_of(extracted@) == Some(JsonVal::Arr(items)),
                    spec_decode_items(items@.subrange(0, i as int)) == Ok::<_, ()>(
                        result_views(out@),
                    ),
                decreases n - i,
            {
                let ghost prev = out@;
                match decode_item(&items[i]) {
                    Ok(Some(t)) => {
                        let ghost tv = t@;
                        out.push(t);
                        proof {
                            assert(result_views(out@) =~= result_views(prev).push(tv));
                        }
                    },
                    Ok(None) => {},
                    Err(_) => {
                        proof {
                            lemma_decode_items_err(items@, i as int);
                        }
                        return Err(
                            ParseError { snippet: truncate_for_error(extracted) },
                        );
                    },
                }
                i = i + 1;
                proof {
                    assert(items@.subrange(0, i as int).drop_last() =~= items@.subrange(
                        0,
                        i - 1,
                    ));
                    assert(items@.subrange(0, i as int).last() == items@[i - 1]);
                }
            }
            proof {
                assert(items@.subrange(0, n as int) =~= items@);
            }
            Ok(out)
        },
        _ => Err(ParseError { snippet: truncate_for_error(extracted) }),
    }
}

proof fn lemma_decode_items_err(items: Seq<JsonVal>, i: int)
    requires
        0 <= i < items.len(),
        spec_decode_item(items[i]) is Err,
    ensures
        spec_decode_items(items) is Err,
    decreases items.len(),
{
    if items.len() > 0 {
        if i == items.len() - 1 {
        } else {
            lemma_decode_items_err(items.drop_last(), i);
        }
    }
}

/// Extracts and decodes a raw model reply into translation records: the
/// extractor's fallback chain followed by the tolerant decode.
pub fn parse_translation_json(content: &str) -> (r: Result<Vec<TranslationResult>, ParseError>)
    ensures
        match r {
            Ok(rs) => spec_decode_translations(spec_extract_json_array(content@)) == Ok::<
                _,
                Seq<char>,
            >(result_views(rs@)),
            Err(e) => spec_decode_translations(spec_extract_json_array(content@)) == Err::<
                Seq<ResultModel>,
                _,
            >(e.snippet@),
        },
{
    let extracted = extract_json_array(content);
    decode_translations(extracted.as_str())
}

/// Law: the decoder reads only a record's `sid` field and its first
/// recognized translated-text field. Two records that agree on those two
/// decode alike, whatever other fields they carry and whichever spelling
/// carries the text.
pub proof fn lemma_alias_tolerance(
    fields1: Seq<(String, JsonVal)>,
    fields2: Seq<(String, JsonVal)>,
)
    requires
        spec_field(fields1, "sid"@) == spec_field(fields2, "sid"@),
        spec_alias_field(fields1) == spec_alias_field(fields2),
    ensures
        spec_decode_obj(fields1) == spec_decode_obj(fields2),
{
}

/// Law: each recognized spelling of the translated-text field is accepted,
/// and a record `{"sid": .., <spelling>: ..}` decodes to the same result
/// under every spelling.
pub proof fn lemma_alias_spelling_equivalence(
    sid_field: (String, JsonVal),
    e1: (String, JsonVal),
    e2: (String, JsonVal),
)
    requires
        sid_field.0@ == "sid"@,
        spec_is_alias(e1.0@),
        spec_is_alias(e2.0@),
        e1.1 == e2.1,
    ensures
        spec_is_alias("translation"@),
        spec_is_alias("translated_text"@),
        spec_is_alias("text"@),
        spec_is_alias("translated"@),
        spec_decode_obj(seq![sid_field, e1]) == spec_decode_obj(seq![sid_field, e2]),
{
    reveal_strlit("sid");
    reveal_strlit("translation");
    reveal_strlit("translated_text");
    reveal_strlit("text");
    reveal_strlit("translated");
    assert("sid"@.len() == 3);
    assert(!spec_is_alias("sid"@));
    lemma_two_field_decode(sid_field, e1);
    lemma_two_field_decode(sid_field, e2);
    lemma_alias_tolerance(seq![sid_field, e1], seq![sid_field, e2]);
}

proof fn lemma_two_field_decode(sid_field: (String, JsonVal), e: (String, JsonVal))
    requires
        sid_field.0@ == "sid"@,
        !spec_is_alias("sid"@),
        spec_is_alias(e.0@),
    ensures
        spec_field(seq![sid_field, e], "sid"@) == Some(sid_field.1),
        spec_alias_field(seq![sid_field, e]) == Some(e.1),
{
    reveal_with_fuel(spec_field, 3);
    reveal_with_fuel(spec_alias_field, 3);
    let fs = seq![sid_field, e];
    assert(fs.first() == sid_field);
    assert(fs.drop_first() =~= seq![e]);
    assert(seq![e].first() == e);
    assert(seq![e].drop_first() =~= Seq::<(String, JsonVal)>::empty());
    assert(spec_alias_field(fs) == spec_alias_field(seq![e]));
    assert(spec_alias_field(seq![e]) == Some(e.1));
}

} // verus!
