//! The prompts sent to the remote model.
//!
//! The system prompts are fixed instruction strings, constant across calls.
//! The user prompts carry the target language and the JSON-encoded batch;
//! the strict variant is used for the single retry after a decode failure
//! and narrows the instructions to demand only the JSON array.

use vstd::prelude::*;

use crate::json::{encode_sentences, spec_encode_sentences};
use crate::sentence_views;
use crate::LanguageModel;
use crate::TargetLanguage;
use crate::TranslateSentence;
use crate::SentenceModel;

verus! {

/// The fixed system instruction for translation calls.
pub open spec fn spec_system_prompt() -> Seq<char> {
    "You are a translation engine. Translate into the specified target language. Output STRICT JSON ONLY. No markdown, no explanations, no extra text."@
}

/// Builds the system prompt for translation calls.
pub fn build_system_prompt() -> (r: String)
    ensures
        r@ == spec_system_prompt(),
{
    let mut r = String::new();
    r.append(
        "You are a translation engine. Translate into the specified target language. Output STRICT JSON ONLY. No markdown, no explanations, no extra text.",
    );
    proof {
        assert(r@ =~= spec_system_prompt());
    }
    r
}

/// The fixed system instruction for word-lookup calls.
pub open spec fn spec_word_lookup_system_prompt() -> Seq<char> {
    "You are a dictionary lookup engine. Provide word definitions in dictionary format. Output STRICT JSON ONLY. No markdown, no explanations, no extra text."@
}

/// Builds the system prompt for word-lookup calls.
pub fn build_word_lookup_system_prompt() -> (r: String)
    ensures
        r@ == spec_word_lookup_system_prompt(),
{
    let mut r = String::new();
    r.append(
        "You are a dictionary lookup engine. Provide word definitions in dictionary format. Output STRICT JSON ONLY. No markdown, no explanations, no extra text.",
    );
    proof {
        assert(r@ =~= spec_word_lookup_system_prompt());
    }
    r
}

/// The fixed system instruction for reading-assistant chat calls.
pub open spec fn spec_chat_system_prompt() -> Seq<char> {
    "You are a helpful reading assistant. Answer questions about the provided text context clearly and concisely. If the answer cannot be found in the context, say so."@
}

/// Builds the system prompt for reading-assistant chat calls.
pub fn build_chat_system_prompt() -> (r: String)
    ensures
        r@ == spec_chat_system_prompt(),
{
    let mut r = String::new();
    r.append(
        "You are a helpful reading assistant. Answer questions about the provided text context clearly and concisely. If the answer cannot be found in the context, say so.",
    );
    proof {
        assert(r@ =~= spec_chat_system_prompt());
    }
    r
}

/// The user prompt for a reading-assistant chat call: the document context
/// followed by the question.
pub open spec fn spec_chat_user_prompt(context: Seq<char>, question: Seq<char>) -> Seq<char> {
    "Context from the document:\n\n"@ + context + "\n\n---\n\nQuestion: "@ + question
}

/// Builds the user prompt for a reading-assistant chat call.
pub fn build_chat_user_prompt(context: &str, question: &str) -> (r: String)
    ensures
        r@ == spec_chat_user_prompt(context@, question@),
{
    let mut r = String::new();
    r.append("Context from the document:\n\n");
    r.append(context);
    r.append("\n\n---\n\nQuestion: ");
    r.append(question);
    proof {
        assert(r@ =~= spec_chat_user_prompt(context@, question@));
    }
    r
}

/// The user prompt for a word lookup: the word, the target language, and
/// the exact shape the reply must take.
pub open spec fn spec_word_lookup_prompt(
    word: Seq<char>,
    label: Seq<char>,
    code: Seq<char>,
) -> Seq<char> {
    "Look up the word \""@ + word + "\" and provide its definition in "@ + label + " ("@ + code
        + ").\nReturn JSON in this exact format:\n{\"phonetic\": \"/phonetic transcription/\", \"definitions\": [{\"pos\": \"n.\", \"meanings\": \"meaning1; meaning2\"}, {\"pos\": \"v.\", \"meanings\": \"meaning1; meaning2\"}]}\n- phonetic: IPA pronunciation\n- definitions: array of objects with pos (part of speech like n., v., adj., adv., etc.) and meanings (translations separated by semicolons)\n- Only include parts of speech that apply to this word\n- Meanings should be in "@
        + label
}

/// Builds the user prompt for a word lookup.
pub fn build_word_lookup_prompt(word: &str, target_language: &TargetLanguage) -> (r: String)
    ensures
        r@ == spec_word_lookup_prompt(word@, target_language.label@, target_language.code@),
{
    let mut r = String::new();
    r.append("Look up the word \"");
    r.append(word);
    r.append("\" and provide its definition in ");
    r.append(target_language.label.as_str());
    r.append(" (");
    r.append(target_language.code.as_str());
    r.append(
        ").\nReturn JSON in this exact format:\n{\"phonetic\": \"/phonetic transcription/\", \"definitions\": [{\"pos\": \"n.\", \"meanings\": \"meaning1; meaning2\"}, {\"pos\": \"v.\", \"meanings\": \"meaning1; meaning2\"}]}\n- phonetic: IPA pronunciation\n- definitions: array of objects with pos (part of speech like n., v., adj., adv., etc.) and meanings (translations separated by semicolons)\n- Only include parts of speech that apply to this word\n- Meanings should be in ",
    );
    r.append(target_language.label.as_str());
    proof {
        assert(r@ =~= spec_word_lookup_prompt(
            word@,
            target_language.label@,
            target_language.code@,
        ));
    }
    r
}

/// The user prompt for a translation batch: the target language and the
/// JSON-encoded sentences.
pub open spec fn spec_user_prompt(lang: LanguageModel, ss: Seq<SentenceModel>) -> Seq<char> {
    "Target language: "@ + lang.label + " ("@ + lang.code
        + ")\nTranslation style: faithful, clear, readable\nInput JSON: "@
        + spec_encode_sentences(ss)
}

/// Builds the user prompt for a translation batch.
pub fn build_user_prompt(target_language: &TargetLanguage, sentences: &Vec<TranslateSentence>) -> (r:
    String)
    ensures
        r@ == spec_user_prompt(target_language@, sentence_views(sentences@)),
{
    let payload = encode_sentences(sentences);
    let mut r = String::new();
    r.append("Target language: ");
    r.append(target_language.label.as_str());
    r.append(" (");
    r.append(target_language.code.as_str());
    r.append(")\nTranslation style: faithful, clear, readable\nInput JSON: ");
    r.append(payload.as_str());
    proof {
        assert(r@ =~= spec_user_prompt(target_language@, sentence_views(sentences@)));
    }
    r
}

/// The stricter user prompt for the single retry: same payload, with the
/// instructions narrowed to demand only the JSON array.
pub open spec fn spec_strict_user_prompt(lang: LanguageModel, ss: Seq<SentenceModel>) -> Seq<
    char,
> {
    "Return ONLY this JSON array format with no extra text. Target language: "@ + lang.label
        + " ("@ + lang.code + ")\nInput JSON: "@ + spec_encode_sentences(ss)
}

/// Builds the stricter user prompt for the single retry.
pub fn build_strict_user_prompt(
    target_language: &TargetLanguage,
    sentences: &Vec<TranslateSentence>,
) -> (r: String)
    ensures
        r@ == spec_strict_user_prompt(target_language@, sentence_views(sentences@)),
{
    let payload = encode_sentences(sentences);
    let mut r = String::new();
    r.append("Return ONLY this JSON array format with no extra text. Target language: ");
    r.append(target_language.label.as_str());
    r.append(" (");
    r.append(target_language.code.as_str());
    r.append(")\nInput JSON: ");
    r.append(payload.as_str());
    proof {
        assert(r@ =~= spec_strict_user_prompt(target_language@, sentence_views(sentences@)));
    }
    r
}

} // verus!
