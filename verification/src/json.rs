//! The library's view of JSON values, the trusted bridge to the JSON parser,
//! and a verified encoder for the payloads the prompts embed.
//!
//! Model output is parsed by serde_json behind a single trusted function;
//! everything that walks or builds JSON afterwards is verified code over the
//! library's own `JsonVal` tree.

use vstd::prelude::*;

use crate::chars::{chars_of, push_char};
use crate::fingerprint::spec_hex_digit;
use crate::TranslateSentence;
use crate::SentenceModel;
use crate::sentence_views;

verus! {

/// A JSON value as the decoder sees it. Numbers carry no payload: no part of
/// the pipeline reads one. Object fields keep the shape the parser hands
/// out: keys sorted and unique, later duplicates having won.
pub enum JsonVal {
    Null,
    Bool(bool),
    Num,
    Str(String),
    Arr(Vec<JsonVal>),
    Obj(Vec<(String, JsonVal)>),
}

#[verifier::external_type_specification]
#[verifier::external_body]
pub struct ExJsonValue(serde_json::Value);

/// Relies on the variants of serde_json::Value: each is mapped to the
/// library's own tree, one arm per variant, fields carried over.
#[verifier::external_body]
fn tree_of_value(v: &serde_json::Value) -> JsonVal {
    match v {
        serde_json::Value::Null => JsonVal::Null,
        serde_json::Value::Bool(b) => JsonVal::Bool(*b),
        serde_json::Value::Number(_) => JsonVal::Num,
        serde_json::Value::String(s) => JsonVal::Str(s.clone()),
        serde_json::Value::Array(items) => JsonVal::Arr(
            items.iter().map(tree_of_value).collect(),
        ),
        serde_json::Value::Object(fields) => JsonVal::Obj(
            fields.iter().map(|f| (f.0.clone(), tree_of_value(f.1))).collect(),
        ),
    }
}

/// The parse of a JSON text, named so that contracts can speak of it: the
/// tree that the parser produces for the text, or `None` when the text is
/// not valid JSON.
pub uninterp spec fn json_of(s: Seq<char>) -> Option<JsonVal>;

/// Relies on serde_json::from_str::<Value>: whether a text parses, and what
/// it parses to, is a function of the text alone.
#[verifier::external_body]
pub(crate) fn parse_json(s: &str) -> (r: Option<JsonVal>)
    ensures
        r == json_of(s@),
{
    match serde_json::from_str::<serde_json::Value>(s) {
        Ok(v) => Some(tree_of_value(&v)),
        Err(_) => None,
    }
}

/// How one character is written inside a JSON string literal.
pub open spec fn spec_escape_char(c: char) -> Seq<char> {
    if c == '"' {
        seq!['\\', '"']
    } else if c == '\\' {
        seq!['\\', '\\']
    } else if c == '\u{0008}' {
        seq!['\\', 'b']
    } else if c == '\u{000C}' {
        seq!['\\', 'f']
    } else if c == '\n' {
        seq!['\\', 'n']
    } else if c == '\r' {
        seq!['\\', 'r']
    } else if c == '\t' {
        seq!['\\', 't']
    } else if (c as u32) < 32 {
        seq![
            '\\',
            'u',
            '0',
            '0',
            spec_hex_digit(c as u32 as int / 16),
            spec_hex_digit(c as u32 as int % 16),
        ]
    } else {
        seq![c]
    }
}

/// A string escaped for embedding in JSON.
pub open spec fn spec_escape(s: Seq<char>) -> Seq<char>
    decreases s.len(),
{
    if s.len() == 0 {
        Seq::empty()
    } else {
        spec_escape_char(s.first()) + spec_escape(s.drop_first())
    }
}

/// A JSON string literal: the escaped text between double quotes.
pub open spec fn spec_json_string(s: Seq<char>) -> Seq<char> {
    seq!['"'] + spec_escape(s) + seq!['"']
}

fn escape_char_into(out: &mut String, c: char)
    ensures
        final(out)@ == old(out)@ + spec_escape_char(c),
{
    if c == '"' {
        push_char(out, '\\');
        push_char(out, '"');
    } else if c == '\\' {
        push_char(out, '\\');
        push_char(out, '\\');
    } else if c == '\u{0008}' {
        push_char(out, '\\');
        push_char(out, 'b');
    } else if c == '\u{000C}' {
        push_char(out, '\\');
        push_char(out, 'f');
    } else if c == '\n' {
        push_char(out, '\\');
        push_char(out, 'n');
    } else if c == '\r' {
        push_char(out, '\\');
        push_char(out, 'r');
    } else if c == '\t' {
        push_char(out, '\\');
        push_char(out, 't');
    } else if (c as u32) < 32 {
        push_char(out, '\\');
        push_char(out, 'u');
        push_char(out, '0');
        push_char(out, '0');
        push_char(out, crate::fingerprint::hex_digit((c as u32 / 16) as u8));
        push_char(out, crate::fingerprint::hex_digit((c as u32 % 16) as u8));
        proof {
            assert(final(out)@ =~= old(out)@ + spec_escape_char(c));
        }
    } else {
        push_char(out, c);
    }
    proof {
        assert(final(out)@ =~= old(out)@ + spec_escape_char(c));
    }
}

/// Appends `s` to `out` as a JSON string literal.
fn json_string_into(out: &mut String, s: &str)
    ensures
        final(out)@ == old(out)@ + spec_json_string(s@),
{
    let v = chars_of(s);
    push_char(out, '"');
    let mut i: usize = 0;
    let n = v.len();
    while i < n
        invariant
            n == v@.len(),
            i <= n,
            v@ == s@,
            out@ == old(out)@ + seq!['"'] + spec_escape(s@.subrange(0, i as int)),
        decreases n - i,
    {
        escape_char_into(out, v[i]);
        i = i + 1;
        proof {
            lemma_escape_snoc(s@.subrange(0, i as int));
            assert(s@.subrange(0, i as int).drop_last() =~= s@.subrange(0, i - 1));
            assert(s@.subrange(0, i as int).last() == s@[i - 1]);
        }
    }
    push_char(out, '"');
    proof {
        assert(s@.subrange(0, n as int) =~= s@);
        assert(final(out)@ =~= old(out)@ + spec_json_string(s@));
    }
}

proof fn lemma_escape_snoc(s: Seq<char>)
    requires
        s.len() > 0,
    ensures
        spec_escape(s) == spec_escape(s.drop_last()) + spec_escape_char(s.last()),
    decreases s.len(),
{
    if s.len() == 1 {
        assert(s.drop_first() =~= Seq::<char>::empty());
        assert(s.drop_last() =~= Seq::<char>::empty());
        assert(spec_escape(s) =~= spec_escape(s.drop_last()) + spec_escape_char(s.last()));
    } else {
        lemma_escape_snoc(s.drop_first());
        assert(s.drop_first().drop_last() =~= s.drop_last().drop_first());
        assert(s.drop_first().last() == s.last());
        assert(s.drop_last().len() > 0);
        assert(s.drop_last().first() == s.first());
        assert(spec_escape(s) == spec_escape_char(s.first()) + spec_escape(s.drop_first()));
        assert(spec_escape(s.drop_last()) == spec_escape_char(s.drop_last().first())
            + spec_escape(s.drop_last().drop_first()));
        assert(spec_escape(s) =~= spec_escape(s.drop_last()) + spec_escape_char(s.last()));
    }
}

/// The JSON encoding of one sentence: an object with its `sid` and `text`.
pub open spec fn spec_encode_sentence(s: SentenceModel) -> Seq<char> {
    "{\"sid\":"@ + spec_json_string(s.sid) + ",\"text\":"@ + spec_json_string(s.text) + "}"@
}

/// The JSON encoding of a sentence batch: an array of sentence objects, in
/// order.
pub open spec fn spec_encode_sentences(ss: Seq<SentenceModel>) -> Seq<char>
    decreases ss.len(),
{
    if ss.len() == 0 {
        "[]"@
    } else {
        spec_encode_body(ss) + seq![']']
    }
}

/// The opening bracket and the comma-separated sentence objects, without
/// the closing bracket.
pub open spec fn spec_encode_body(ss: Seq<SentenceModel>) -> Seq<char>
    decreases ss.len(),
{
    if ss.len() == 0 {
        seq!['[']
    } else if ss.len() == 1 {
        seq!['['] + spec_encode_sentence(ss.first())
    } else {
        spec_encode_body(ss.drop_last()) + seq![','] + spec_encode_sentence(ss.last())
    }
}

/// Encodes a sentence batch as the JSON array the prompts embed.
pub fn encode_sentences(sentences: &Vec<TranslateSentence>) -> (r: String)
    ensures
        r@ == spec_encode_sentences(sentence_views(sentences@)),
{
    let ghost views = sentence_views(sentences@);
    if sentences.len() == 0 {
        let mut r = String::new();
        r.append("[]");
        return r;
    }
    let mut r = String::new();
    push_char(&mut r, '[');
    let n = sentences.len();
    let mut i: usize = 0;
    proof {
        assert(views.len() == n);
        assert(r@ =~= spec_encode_body(views.subrange(0, 0)));
    }
    while i < n
        invariant
            n == sentences@.len(),
            n >= 1,
            i <= n,
            views == sentence_views(sentences@),
            views.len() == n,
            r@ == spec_encode_body(views.subrange(0, i as int)),
        decreases n - i,
    {
        if i > 0 {
            push_char(&mut r, ',');
        }
        let s = &sentences[i];
        r.append("{\"sid\":");
        json_string_into(&mut r, s.sid.as_str());
        r.append(",\"text\":");
        json_string_into(&mut r, s.text.as_str());
        r.append("}");
        i = i + 1;
        proof {
            assert(views[i - 1] == sentences@[i - 1]@);
            assert(views.subrange(0, i as int).last() == views[i - 1]);
            assert(views.subrange(0, i as int).drop_last() =~= views.subrange(0, i - 1));
            assert(r@ =~= spec_encode_body(views.subrange(0, i as int)));
        }
    }
    push_char(&mut r, ']');
    proof {
        assert(views.subrange(0, n as int) =~= views);
        assert(r@ =~= spec_encode_sentences(views));
    }
    r
}

} // verus!
