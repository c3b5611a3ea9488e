//! Core logic of an e-reader that augments documents with translations and
//! dictionary lookups produced by a remote language-model endpoint.
//!
//! The library covers the resilient cache-and-parse pipeline: deriving
//! content-addressed cache keys, serving cached translations, recovering a
//! JSON fragment from loosely structured model output, decoding it
//! tolerantly, and orchestrating the one-batch-call-plus-one-retry protocol.
//! All I/O (files, network, clock) stays with the caller; the library works
//! on plain values and states what it computes in its contracts.

use vstd::prelude::*;

pub mod books;
pub mod cache;
pub mod chars;
pub mod decode;
pub mod extract;
pub mod fingerprint;
pub mod json;
pub mod lookup;
pub mod prompts;
pub mod remote;
pub mod translate;
pub mod vocab;

verus! {

/// A sentence submitted for translation. `sid` encodes the document scope as
/// the prefix up to the first `:`.
#[derive(Debug)]
pub struct TranslateSentence {
    pub sid: String,
    pub text: String,
}

/// The mathematical value of a `TranslateSentence`.
pub ghost struct SentenceModel {
    pub sid: Seq<char>,
    pub text: Seq<char>,
}

impl View for TranslateSentence {
    type V = SentenceModel;

    open spec fn view(&self) -> SentenceModel {
        SentenceModel { sid: self.sid@, text: self.text@ }
    }
}

/// A translated sentence, paired to its request by `sid`.
#[derive(Debug)]
pub struct TranslationResult {
    pub sid: String,
    pub translation: String,
}

/// The mathematical value of a `TranslationResult`.
pub ghost struct ResultModel {
    pub sid: Seq<char>,
    pub translation: Seq<char>,
}

impl View for TranslationResult {
    type V = ResultModel;

    open spec fn view(&self) -> ResultModel {
        ResultModel { sid: self.sid@, translation: self.translation@ }
    }
}

/// The language translations are requested into.
#[derive(Debug)]
pub struct TargetLanguage {
    pub label: String,
    pub code: String,
}

/// The mathematical value of a `TargetLanguage`.
pub ghost struct LanguageModel {
    pub label: Seq<char>,
    pub code: Seq<char>,
}

impl View for TargetLanguage {
    type V = LanguageModel;

    open spec fn view(&self) -> LanguageModel {
        LanguageModel { label: self.label@, code: self.code@ }
    }
}

/// The views of the elements of a sentence vector.
pub open spec fn sentence_views(v: Seq<TranslateSentence>) -> Seq<SentenceModel> {
    v.map_values(|s: TranslateSentence| s@)
}

/// The views of the elements of a result vector.
pub open spec fn result_views(v: Seq<TranslationResult>) -> Seq<ResultModel> {
    v.map_values(|r: TranslationResult| r@)
}

} // verus!
