//! Dictionary lookups: the single-item analog of the translation pipeline.
//!
//! A lookup always asks the remote endpoint — there is no cache layer — and
//! decodes the reply strictly: a reply that is not the expected JSON object
//! fails at once, with no retry.

use vstd::prelude::*;

use crate::decode::{spec_field, spec_truncate, truncate_for_error, ParseError};
use crate::extract::{extract_json_object, spec_extract_json_object};
use crate::json::{json_of, parse_json, JsonVal};

verus! {

/// One dictionary sense: a part of speech and its meanings.
#[derive(Debug)]
pub struct WordDefinitionResult {
    pub pos: String,
    pub meanings: String,
}

/// The mathematical value of a `WordDefinitionResult`.
pub ghost struct DefinitionModel {
    pub pos: Seq<char>,
    pub meanings: Seq<char>,
}

impl View for WordDefinitionResult {
    type V = DefinitionModel;

    open spec fn view(&self) -> DefinitionModel {
        DefinitionModel { pos: self.pos@, meanings: self.meanings@ }
    }
}

/// A dictionary lookup reply: an optional phonetic transcription and the
/// senses in the order the model listed them.
#[derive(Debug)]
pub struct WordLookupResult {
    pub phonetic: Option<String>,
    pub definitions: Vec<WordDefinitionResult>,
}

/// The mathematical value of a `WordLookupResult`.
pub ghost struct LookupModel {
    pub phonetic: Option<Seq<char>>,
    pub definitions: Seq<DefinitionModel>,
}

impl View for WordLookupResult {
    type V = LookupModel;

    open spec fn view(&self) -> LookupModel {
        LookupModel {
            phonetic: match self.phonetic {
                Some(s) => Some(s@),
                None => None,
            },
            definitions: self.definitions@.map_values(|d: WordDefinitionResult| d@),
        }
    }
}

/// The decode of one sense: an object with string `pos` and `meanings`.
pub open spec fn spec_decode_definition(v: JsonVal) -> Result<DefinitionModel, ()> {
    match v {
        JsonVal::Obj(fields) => match spec_field(fields@, "pos"@) {
            Some(JsonVal::Str(p)) => match spec_field(fields@, "meanings"@) {
                Some(JsonVal::Str(m)) => Ok(DefinitionModel { pos: p@, meanings: m@ }),
                _ => Err(()),
            },
            _ => Err(()),
        },
        _ => Err(()),
    }
}

/// The decode of the `definitions` array, in order; lookups are strict, so
/// one malformed sense fails the reply.
pub open spec fn spec_decode_definitions(items: Seq<JsonVal>) -> Result<Seq<DefinitionModel>, ()>
    decreases items.len(),
{
    if items.len() == 0 {
        Ok(Seq::empty())
    } else {
        match spec_decode_definitions(items.drop_last()) {
            Err(e) => Err(e),
            Ok(rs) => match spec_decode_definition(items.last()) {
                Err(e) => Err(e),
                Ok(d) => Ok(rs.push(d)),
            },
        }
    }
}

/// What decoding an extracted lookup reply yields: the lookup result, or
/// the truncated snippet that a `ParseError` carries. The reply must be a
/// JSON object with a `definitions` array of well-formed senses; `phonetic`
/// may be a string, null or absent, but nothing else.
pub open spec fn spec_decode_lookup(text: Seq<char>) -> Result<LookupModel, Seq<char>> {
    match json_of(text) {
        Some(JsonVal::Obj(fields)) => {
            let ph = spec_field(fields@, "phonetic"@);
            let ph_ok = ph is None || ph matches Some(JsonVal::Str(_)) || ph matches Some(
                JsonVal::Null,
            );
            if !ph_ok {
                Err(spec_truncate(text))
            } else {
                match spec_field(fields@, "definitions"@) {
                    Some(JsonVal::Arr(items)) => match spec_decode_definitions(items@) {
                        Ok(defs) => Ok(
                            LookupModel {
                                phonetic: match ph {
                                    Some(JsonVal::Str(s)) => Some(s@),
                                    _ => None,
                                },
                                definitions: defs,
                            },
                        ),
                        Err(e) => Err(spec_truncate(text)),
                    },
                    _ => Err(spec_truncate(text)),
                }
            }
        },
        _ => Err(spec_truncate(text)),
    }
}

fn decode_definition(v: &JsonVal) -> (r: Result<WordDefinitionResult, ()>)
    ensures
        match r {
            Ok(d) => spec_decode_definition(*v) == Ok::<DefinitionModel, ()>(d@),
            Err(e) => spec_decode_definition(*v) is Err,
        },
{
    match v {
        JsonVal::Obj(fields) => {
            match crate::decode::find_field(fields, "pos") {
                Some(JsonVal::Str(p)) => {
                    match crate::decode::find_field(fields, "meanings") {
                        Some(JsonVal::Str(m)) => Ok(
                            WordDefinitionResult { pos: p.clone(), meanings: m.clone() },
                        ),
                        _ => Err(()),
                    }
                },
                _ => Err(()),
            }
        },
        _ => Err(()),
    }
}

/// Decodes an extracted lookup reply, strictly.
pub fn decode_word_lookup(extracted: &str) -> (r: Result<WordLookupResult, ParseError>)
    ensures
        match r {
            Ok(w) => spec_decode_lookup(extracted@) == Ok::<_, Seq<char>>(w@),
            Err(e) => spec_decode_lookup(extracted@) == Err::<LookupModel, _>(e.snippet@)
                && e.snippet@ == spec_truncate(extracted@),
        },
{
    match parse_json(extracted) {
        Some(JsonVal::Obj(fields)) => {
            let phonetic: Option<String> = match crate::decode::find_field(&fields, "phonetic") {
                None => None,
                Some(JsonVal::Str(s)) => Some(s.clone()),
                Some(JsonVal::Null) => None,
                Some(_) => {
                    return Err(ParseError { snippet: truncate_for_error(extracted) });
                },
            };
            match crate::decode::find_field(&fields, "definitions") {
                Some(JsonVal::Arr(items)) => {
                    let n = items.len();
                    let mut defs: Vec<WordDefinitionResult> = Vec::new();
                    let mut i: usize = 0;
                    proof {
                        assert(items@.subrange(0, 0) =~= Seq::<JsonVal>::empty());
                        assert(defs@.map_values(|d: WordDefinitionResult| d@) =~= Seq::<
                            DefinitionModel,
                        >::empty());
                    }
                    while i < n
                        invariant
                            n == items@.len(),
                            i <= n,
                            json_of(extracted@) == Some(JsonVal::Obj(fields)),
                            spec_field(fields@, "definitions"@) == Some(JsonVal::Arr(*items)),
                            spec_field(fields@, "phonetic"@) is None || spec_field(
                                fields@,
                                "phonetic"@,
                            ) matches Some(JsonVal::Str(_)) || spec_field(
                                fields@,
                                "phonetic"@,
                            ) matches Some(JsonVal::Null),
                            spec_decode_definitions(items@.subrange(0, i as int)) == Ok::<
                                _,
                                (),
                            >(defs@.map_values(|d: WordDefinitionResult| d@)),
                        decreases n - i,
                    {
                        let ghost prev = defs@;
                        match decode_definition(&items[i]) {
                            Ok(d) => {
                                let ghost dv = d@;
                                defs.push(d);
                                proof {
                                    assert(defs@.map_values(|d: WordDefinitionResult| d@)
                                        =~= prev.map_values(
                                        |d: WordDefinitionResult| d@,
                                    ).push(dv));
                                }
                            },
                            Err(_) => {
                                proof {
                                    lemma_decode_definitions_err(items@, i as int);
                                }
                                return Err(
                                    ParseError { snippet: truncate_for_error(extracted) },
                                );
                            },
                        }
                        i = i + 1;
                        proof {
                            assert(items@.subrange(0, i as int).drop_last() =~= items@.subrange(
                                0,
                                i - 1,
                            ));
                            assert(items@.subrange(0, i as int).last() == items@[i - 1]);
                        }
                    }
                    proof {
                        assert(items@.subrange(0, n as int) =~= items@);
                    }
                    Ok(WordLookupResult { phonetic, definitions: defs })
                },
                _ => Err(ParseError { snippet: truncate_for_error(extracted) }),
            }
        },
        _ => Err(ParseError { snippet: truncate_for_error(extracted) }),
    }
}

proof fn lemma_decode_definitions_err(items: Seq<JsonVal>, i: int)
    requires
        0 <= i < items.len(),
        spec_decode_definition(items[i]) is Err,
    ensures
        spec_decode_definitions(items) is Err,
    decreases items.len(),
{
    if items.len() > 0 {
        if i == items.len() - 1 {
        } else {
            lemma_decode_definitions_err(items.drop_last(), i);
        }
    }
}

/// Extracts and strictly decodes a raw lookup reply: the object-mode
/// extractor followed by the strict decode. A failure here is final — word
/// lookups have no retry.
pub fn parse_word_lookup_json(content: &str) -> (r: Result<WordLookupResult, ParseError>)
    ensures
        match r {
            Ok(w) => spec_decode_lookup(spec_extract_json_object(content@)) == Ok::<
                _,
                Seq<char>,
            >(w@),
            Err(e) => spec_decode_lookup(spec_extract_json_object(content@)) == Err::<
                LookupModel,
                _,
            >(e.snippet@),
        },
{
    let extracted = extract_json_object(content);
    decode_word_lookup(extracted.as_str())
}

} // verus!
