//! The translation orchestrator, as a small state machine.
//!
//! The caller loads the persisted cache, starts a translation, and performs
//! whatever request step the machine asks for: `begin_translation` either
//! finishes from cache alone or asks for one remote call; a failed decode
//! of the reply asks for exactly one stricter retry; a second failure is
//! final. The types allow no third request, so every invocation makes at
//! most two remote calls however large the miss set is.
//!
//! Results keep the caller's sentence order, restricted to the ids that
//! resolved: a sentence the model never answered usably is dropped, not an
//! error. Freshly decoded translations are written back to the cache under
//! their sentences' fingerprints.

use vstd::prelude::*;

use crate::cache::Cache;
use crate::chars::str_eq;
use crate::decode::{parse_translation_json, spec_decode_translations, ParseError};
use crate::extract::spec_extract_json_array;
use crate::fingerprint::{sentence_fingerprint, spec_sentence_fingerprint};
use crate::prompts::{
    build_strict_user_prompt, build_user_prompt, spec_strict_user_prompt, spec_user_prompt,
};
use crate::result_views;
use crate::sentence_views;
use crate::LanguageModel;
use crate::ResultModel;
use crate::SentenceModel;
use crate::TargetLanguage;
use crate::TranslateSentence;
use crate::TranslationResult;

verus! {

/// The fingerprint of one sentence for a given model and language code.
pub open spec fn spec_fp_of(s: SentenceModel, model: Seq<char>, code: Seq<char>) -> Seq<char> {
    spec_sentence_fingerprint(s.sid, s.text, model, code)
}

/// The sentences whose fingerprints the cache lacks, in caller order.
pub open spec fn spec_misses(
    cache: Map<Seq<char>, Seq<char>>,
    ss: Seq<SentenceModel>,
    model: Seq<char>,
    code: Seq<char>,
) -> Seq<SentenceModel>
    decreases ss.len(),
{
    if ss.len() == 0 {
        Seq::empty()
    } else {
        let rest = spec_misses(cache, ss.drop_last(), model, code);
        if cache.contains_key(spec_fp_of(ss.last(), model, code)) {
            rest
        } else {
            rest.push(ss.last())
        }
    }
}

/// The translation the decoded results give an id: that of the last result
/// bearing it, or nothing.
pub open spec fn spec_last_result(ds: Seq<ResultModel>, sid: Seq<char>) -> Option<Seq<char>>
    decreases ds.len(),
{
    if ds.len() == 0 {
        None
    } else if ds.last().sid == sid {
        Some(ds.last().translation)
    } else {
        spec_last_result(ds.drop_last(), sid)
    }
}

/// What one sentence resolves to: its cached translation on a hit, else
/// whatever the decoded results gave its id.
pub open spec fn spec_resolution(
    cache: Map<Seq<char>, Seq<char>>,
    s: SentenceModel,
    model: Seq<char>,
    code: Seq<char>,
    ds: Seq<ResultModel>,
) -> Option<Seq<char>> {
    if cache.contains_key(spec_fp_of(s, model, code)) {
        Some(cache[spec_fp_of(s, model, code)])
    } else {
        spec_last_result(ds, s.sid)
    }
}

/// The cache after a reply: each miss sentence that got a result has its
/// fingerprint written with that translation; the rest is unchanged.
pub open spec fn spec_cache_after(
    cache: Map<Seq<char>, Seq<char>>,
    misses: Seq<SentenceModel>,
    model: Seq<char>,
    code: Seq<char>,
    ds: Seq<ResultModel>,
) -> Map<Seq<char>, Seq<char>>
    decreases misses.len(),
{
    if misses.len() == 0 {
        cache
    } else {
        let rest = spec_cache_after(cache, misses.drop_last(), model, code, ds);
        match spec_last_result(ds, misses.last().sid) {
            Some(t) => rest.insert(spec_fp_of(misses.last(), model, code), t),
            None => rest,
        }
    }
}

/// The final output: the sentences that resolved, in caller order, each
/// paired with its translation.
pub open spec fn spec_outputs(
    cache: Map<Seq<char>, Seq<char>>,
    ss: Seq<SentenceModel>,
    model: Seq<char>,
    code: Seq<char>,
    ds: Seq<ResultModel>,
) -> Seq<ResultModel>
    decreases ss.len(),
{
    if ss.len() == 0 {
        Seq::empty()
    } else {
        let rest = spec_outputs(cache, ss.drop_last(), model, code, ds);
        match spec_resolution(cache, ss.last(), model, code, ds) {
            Some(t) => rest.push(ResultModel { sid: ss.last().sid, translation: t }),
            None => rest,
        }
    }
}

/// What decoding a raw reply yields: extraction followed by the tolerant
/// decode.
pub open spec fn spec_reply_decode(content: Seq<char>) -> Result<Seq<ResultModel>, Seq<char>> {
    spec_decode_translations(spec_extract_json_array(content))
}

/// What a finished translation call hands back.
pub struct TranslationOutcome {
    /// The resolved translations, in the caller's sentence order.
    pub results: Vec<TranslationResult>,
    /// The cache to persist, holding any freshly decoded entries.
    pub cache: Cache,
    /// Whether a remote call was made, so the cache snapshot must be saved.
    pub save_needed: bool,
}

/// A translation waiting for the reply to its one batch request.
pub struct PendingTranslation {
    model: String,
    language: TargetLanguage,
    sentences: Vec<TranslateSentence>,
    misses: Vec<TranslateSentence>,
    cache: Cache,
}

/// The mathematical state of a pending translation.
pub ghost struct PendingModel {
    pub model: Seq<char>,
    pub lang: LanguageModel,
    pub sentences: Seq<SentenceModel>,
    pub misses: Seq<SentenceModel>,
    pub cache: Map<Seq<char>, Seq<char>>,
}

impl View for PendingTranslation {
    type V = PendingModel;

    closed spec fn view(&self) -> PendingModel {
        PendingModel {
            model: self.model@,
            lang: self.language@,
            sentences: sentence_views(self.sentences@),
            misses: sentence_views(self.misses@),
            cache: self.cache@,
        }
    }
}

/// A translation waiting for the reply to its single stricter retry.
pub struct PendingRetry {
    inner: PendingTranslation,
}

impl View for PendingRetry {
    type V = PendingModel;

    closed spec fn view(&self) -> PendingModel {
        self.inner@
    }
}

/// The step that starting a translation asks for.
pub enum TranslateStart {
    /// Every sentence was a cache hit (or there were none): done, no
    /// remote call.
    Finished(TranslationOutcome),
    /// Misses remain: send this user prompt, then call `respond_first`.
    Request(PendingTranslation, String),
}

/// The step after the first reply.
pub enum TranslateRetry {
    /// The reply decoded: done.
    Finished(TranslationOutcome),
    /// The reply did not decode: send this stricter prompt, then call
    /// `respond_retry`. There is no further retry after this one.
    Retry(PendingRetry, String),
}

/// The step after the retry reply.
pub enum TranslateDone {
    /// The retry decoded: done.
    Finished(TranslationOutcome),
    /// The retry did not decode either: the call fails.
    Failed(ParseError),
}

proof fn lemma_outputs_pointwise(
    c1: Map<Seq<char>, Seq<char>>,
    ds1: Seq<ResultModel>,
    c2: Map<Seq<char>, Seq<char>>,
    ds2: Seq<ResultModel>,
    ss: Seq<SentenceModel>,
    model: Seq<char>,
    code: Seq<char>,
)
    requires
        forall|i: int|
            0 <= i < ss.len() ==> spec_resolution(c1, #[trigger] ss[i], model, code, ds1)
                == spec_resolution(c2, ss[i], model, code, ds2),
    ensures
        spec_outputs(c1, ss, model, code, ds1) == spec_outputs(c2, ss, model, code, ds2),
    decreases ss.len(),
{
    if ss.len() > 0 {
        lemma_outputs_pointwise(c1, ds1, c2, ds2, ss.drop_last(), model, code);
        assert(ss[ss.len() - 1] == ss.last());
    }
}

/// Law (order preservation, partial resolution): the output is exactly the
/// ordered filter of the input sentences down to those that resolve — from
/// the cache or from the reply — each mapped to its id and translation. A
/// sentence that did not resolve is absent, not an error; nothing is
/// reordered, whichever sentences were hits and whichever order the reply
/// listed its results in.
pub proof fn lemma_order_preservation(
    cache: Map<Seq<char>, Seq<char>>,
    ss: Seq<SentenceModel>,
    model: Seq<char>,
    code: Seq<char>,
    ds: Seq<ResultModel>,
)
    ensures
        spec_outputs(cache, ss, model, code, ds) == ss.filter(
            |s: SentenceModel| spec_resolution(cache, s, model, code, ds) is Some,
        ).map_values(
            (|s: SentenceModel|
                ResultModel {
                    sid: s.sid,
                    translation: spec_resolution(cache, s, model, code, ds)->Some_0,
                }),
        ),
    decreases ss.len(),
{
    reveal(Seq::filter);
    let pred = |s: SentenceModel| spec_resolution(cache, s, model, code, ds) is Some;
    let f = (|s: SentenceModel|
        ResultModel {
            sid: s.sid,
            translation: spec_resolution(cache, s, model, code, ds)->Some_0,
        });
    if ss.len() == 0 {
        assert(spec_outputs(cache, ss, model, code, ds) =~= ss.filter(pred).map_values(f));
    } else {
        lemma_order_preservation(cache, ss.drop_last(), model, code, ds);
        if pred(ss.last()) {
            assert(ss.filter(pred) == ss.drop_last().filter(pred).push(ss.last()));
            assert(ss.filter(pred).map_values(f) =~= ss.drop_last().filter(pred).map_values(
                f,
            ).push(f(ss.last())));
        } else {
            assert(ss.filter(pred) == ss.drop_last().filter(pred));
        }
    }
}

/// Law (response order does not matter): two replies that give every id the
/// same final translation — in particular, the same results in any order,
/// when ids are not repeated — produce the same output and the same cache.
pub proof fn lemma_response_order_irrelevant(
    cache: Map<Seq<char>, Seq<char>>,
    ss: Seq<SentenceModel>,
    misses: Seq<SentenceModel>,
    model: Seq<char>,
    code: Seq<char>,
    ds1: Seq<ResultModel>,
    ds2: Seq<ResultModel>,
)
    requires
        forall|sid: Seq<char>| #[trigger] spec_last_result(ds1, sid) == spec_last_result(
            ds2,
            sid,
        ),
    ensures
        spec_outputs(cache, ss, model, code, ds1) == spec_outputs(cache, ss, model, code, ds2),
        spec_cache_after(cache, misses, model, code, ds1) == spec_cache_after(
            cache,
            misses,
            model,
            code,
            ds2,
        ),
    decreases misses.len(),
{
    lemma_outputs_pointwise(cache, ds1, cache, ds2, ss, model, code);
    if misses.len() > 0 {
        lemma_response_order_irrelevant(
            cache,
            ss,
            misses.drop_last(),
            model,
            code,
            ds1,
            ds2,
        );
    }
}

proof fn lemma_misses_sub(
    cache: Map<Seq<char>, Seq<char>>,
    ss: Seq<SentenceModel>,
    model: Seq<char>,
    code: Seq<char>,
)
    ensures
        forall|j: int|
            0 <= j < spec_misses(cache, ss, model, code).len() ==> ss.contains(
                #[trigger] spec_misses(cache, ss, model, code)[j],
            ) && !cache.contains_key(
                spec_fp_of(spec_misses(cache, ss, model, code)[j], model, code),
            ),
    decreases ss.len(),
{
    if ss.len() > 0 {
        lemma_misses_sub(cache, ss.drop_last(), model, code);
        let ms = spec_misses(cache, ss, model, code);
        let prev = spec_misses(cache, ss.drop_last(), model, code);
        assert forall|j: int| 0 <= j < ms.len() implies ss.contains(#[trigger] ms[j])
            && !cache.contains_key(spec_fp_of(ms[j], model, code)) by {
            if j < prev.len() {
                assert(ms[j] == prev[j]);
                let i = choose|i: int|
                    0 <= i < ss.drop_last().len() && ss.drop_last()[i] == prev[j];
                assert(ss[i] == prev[j]);
            } else {
                assert(ms[j] == ss.last());
                assert(ss[ss.len() - 1] == ss.last());
            }
        }
    }
}

/// Law (at most one origin fetch per fingerprint): a sentence whose
/// fingerprint the cache already holds is never among the misses, so no
/// request prompt ever includes it again — whatever batch it arrives in.
pub proof fn lemma_hit_never_in_misses(
    cache: Map<Seq<char>, Seq<char>>,
    ss: Seq<SentenceModel>,
    model: Seq<char>,
    code: Seq<char>,
    s: SentenceModel,
)
    requires
        cache.contains_key(spec_fp_of(s, model, code)),
    ensures
        !spec_misses(cache, ss, model, code).contains(s),
{
    lemma_misses_sub(cache, ss, model, code);
    let ms = spec_misses(cache, ss, model, code);
    if ms.contains(s) {
        let j = choose|j: int| 0 <= j < ms.len() && ms[j] == s;
        assert(!cache.contains_key(spec_fp_of(ms[j], model, code)));
    }
}

proof fn lemma_misses_mem(
    cache: Map<Seq<char>, Seq<char>>,
    ss: Seq<SentenceModel>,
    model: Seq<char>,
    code: Seq<char>,
    i: int,
)
    requires
        0 <= i < ss.len(),
        !cache.contains_key(spec_fp_of(ss[i], model, code)),
    ensures
        spec_misses(cache, ss, model, code).contains(ss[i]),
    decreases ss.len(),
{
    if i == ss.len() - 1 {
        let ms = spec_misses(cache, ss, model, code);
        assert(ms.last() == ss[i]);
        assert(ms[ms.len() - 1] == ss[i]);
    } else {
        lemma_misses_mem(cache, ss.drop_last(), model, code, i);
        let prev = spec_misses(cache, ss.drop_last(), model, code);
        let j = choose|j: int| 0 <= j < prev.len() && prev[j] == ss.drop_last()[i];
        let ms = spec_misses(cache, ss, model, code);
        assert(ss.drop_last()[i] == ss[i]);
        assert(ms[j] == ss[i]);
    }
}

proof fn lemma_misses_all_hit(
    cache: Map<Seq<char>, Seq<char>>,
    ss: Seq<SentenceModel>,
    model: Seq<char>,
    code: Seq<char>,
)
    requires
        forall|i: int|
            0 <= i < ss.len() ==> cache.contains_key(spec_fp_of(#[trigger] ss[i], model, code)),
    ensures
        spec_misses(cache, ss, model, code) =~= Seq::<SentenceModel>::empty(),
    decreases ss.len(),
{
    if ss.len() > 0 {
        lemma_misses_all_hit(cache, ss.drop_last(), model, code);
        assert(ss[ss.len() - 1] == ss.last());
    }
}

proof fn lemma_cache_after_frame(
    cache: Map<Seq<char>, Seq<char>>,
    misses: Seq<SentenceModel>,
    model: Seq<char>,
    code: Seq<char>,
    ds: Seq<ResultModel>,
    k: Seq<char>,
)
    requires
        forall|j: int|
            0 <= j < misses.len() && spec_last_result(ds, (#[trigger] misses[j]).sid) is Some
                ==> spec_fp_of(misses[j], model, code) != k,
    ensures
        spec_cache_after(cache, misses, model, code, ds).contains_key(k) == cache.contains_key(
            k,
        ),
        cache.contains_key(k) ==> spec_cache_after(cache, misses, model, code, ds)[k]
            == cache[k],
    decreases misses.len(),
{
    if misses.len() > 0 {
        lemma_cache_after_frame(cache, misses.drop_last(), model, code, ds, k);
        assert(misses[misses.len() - 1] == misses.last());
    }
}

proof fn lemma_cache_after_monotone(
    cache: Map<Seq<char>, Seq<char>>,
    misses: Seq<SentenceModel>,
    model: Seq<char>,
    code: Seq<char>,
    ds: Seq<ResultModel>,
    k: Seq<char>,
)
    requires
        cache.contains_key(k),
    ensures
        spec_cache_after(cache, misses, model, code, ds).contains_key(k),
    decreases misses.len(),
{
    if misses.len() > 0 {
        lemma_cache_after_monotone(cache, misses.drop_last(), model, code, ds, k);
    }
}

proof fn lemma_cache_after_get(
    cache: Map<Seq<char>, Seq<char>>,
    misses: Seq<SentenceModel>,
    model: Seq<char>,
    code: Seq<char>,
    ds: Seq<ResultModel>,
    j: int,
)
    requires
        0 <= j < misses.len(),
        spec_last_result(ds, misses[j].sid) is Some,
        forall|j2: int|
            0 <= j2 < misses.len() && spec_fp_of(#[trigger] misses[j2], model, code)
                == spec_fp_of(misses[j], model, code) ==> spec_last_result(ds, misses[j2].sid)
                == spec_last_result(ds, misses[j].sid),
    ensures
        spec_cache_after(cache, misses, model, code, ds).contains_key(
            spec_fp_of(misses[j], model, code),
        ),
        spec_cache_after(cache, misses, model, code, ds)[spec_fp_of(misses[j], model, code)]
            == spec_last_result(ds, misses[j].sid)->Some_0,
    decreases misses.len(),
{
    let k = spec_fp_of(misses[j], model, code);
    let last = misses.last();
    assert(misses[misses.len() - 1] == last);
    if spec_fp_of(last, model, code) == k {
        assert(spec_last_result(ds, last.sid) == spec_last_result(ds, misses[j].sid));
    } else {
        assert(j < misses.len() - 1);
        assert forall|j2: int|
            0 <= j2 < misses.drop_last().len() && spec_fp_of(
                #[trigger] misses.drop_last()[j2],
                model,
                code,
            ) == spec_fp_of(misses.drop_last()[j], model, code) implies spec_last_result(
            ds,
            misses.drop_last()[j2].sid,
        ) == spec_last_result(ds, misses.drop_last()[j].sid) by {
            assert(misses.drop_last()[j2] == misses[j2]);
            assert(misses.drop_last()[j] == misses[j]);
        }
        lemma_cache_after_get(cache, misses.drop_last(), model, code, ds, j);
    }
}

/// Law (cache idempotence): once a call has resolved every sentence and its
/// cache was saved, starting the same batch again over the saved cache finds
/// no miss — `begin_translation` finishes at once, with no remote request —
/// and returns exactly the same results. Holds whenever distinct sentences
/// of the batch have distinct fingerprints (SHA-256 collisions within one
/// batch are the one family of inputs left out).
pub proof fn lemma_cache_idempotence(
    cache: Map<Seq<char>, Seq<char>>,
    ss: Seq<SentenceModel>,
    model: Seq<char>,
    code: Seq<char>,
    ds: Seq<ResultModel>,
)
    requires
        forall|i: int|
            0 <= i < ss.len() ==> spec_resolution(cache, #[trigger] ss[i], model, code, ds)
                is Some,
        forall|i: int, j: int|
            0 <= i < ss.len() && 0 <= j < ss.len() && spec_fp_of(#[trigger] ss[i], model, code)
                == spec_fp_of(#[trigger] ss[j], model, code) ==> ss[i] == ss[j],
    ensures
        ({
            let cache2 = spec_cache_after(
                cache,
                spec_misses(cache, ss, model, code),
                model,
                code,
                ds,
            );
            &&& spec_misses(cache2, ss, model, code) =~= Seq::<SentenceModel>::empty()
            &&& spec_outputs(cache2, ss, model, code, Seq::empty()) == spec_outputs(
                cache,
                ss,
                model,
                code,
                ds,
            )
        }),
{
    let misses = spec_misses(cache, ss, model, code);
    let cache2 = spec_cache_after(cache, misses, model, code, ds);
    lemma_misses_sub(cache, ss, model, code);
    assert forall|i: int| 0 <= i < ss.len() implies cache2.contains_key(
        spec_fp_of(#[trigger] ss[i], model, code),
    ) && spec_resolution(cache2, ss[i], model, code, Seq::empty()) == spec_resolution(
        cache,
        ss[i],
        model,
        code,
        ds,
    ) by {
        let s = ss[i];
        let k = spec_fp_of(s, model, code);
        if cache.contains_key(k) {
            assert forall|j: int|
                0 <= j < misses.len() && spec_last_result(
                    ds,
                    (#[trigger] misses[j]).sid,
                ) is Some implies spec_fp_of(misses[j], model, code) != k by {
                if spec_fp_of(misses[j], model, code) == k {
                    let i2 = choose|i2: int| 0 <= i2 < ss.len() && ss[i2] == misses[j];
                    assert(ss[i2] == s);
                    assert(!cache.contains_key(spec_fp_of(misses[j], model, code)));
                }
            }
            lemma_cache_after_frame(cache, misses, model, code, ds, k);
        } else {
            lemma_misses_mem(cache, ss, model, code, i);
            let j = choose|j: int| 0 <= j < misses.len() && misses[j] == s;
            assert forall|j2: int|
                0 <= j2 < misses.len() && spec_fp_of(#[trigger] misses[j2], model, code)
                    == spec_fp_of(misses[j], model, code) implies spec_last_result(
                ds,
                misses[j2].sid,
            ) == spec_last_result(ds, misses[j].sid) by {
                let i2 = choose|i2: int| 0 <= i2 < ss.len() && ss[i2] == misses[j2];
                assert(ss[i2] == misses[j2] && misses[j] == s);
            }
            lemma_cache_after_get(cache, misses, model, code, ds, j);
        }
    }
    lemma_misses_all_hit(cache2, ss, model, code);
    lemma_outputs_pointwise(cache2, Seq::empty(), cache, ds, ss, model, code);
}

fn last_result_for(ds: &Vec<TranslationResult>, sid: &str) -> (r: Option<String>)
    ensures
        match r {
            Some(t) => spec_last_result(result_views(ds@), sid@) == Some(t@),
            None => spec_last_result(result_views(ds@), sid@) is None,
        },
{
    let mut i = ds.len();
    proof {
        assert(result_views(ds@).subrange(0, ds@.len() as int) =~= result_views(ds@));
    }
    while i > 0
        invariant
            i <= ds@.len(),
            spec_last_result(result_views(ds@), sid@) == spec_last_result(
                result_views(ds@).subrange(0, i as int),
                sid@,
            ),
        decreases i,
    {
        i = i - 1;
        if str_eq(ds[i].sid.as_str(), sid) {
            proof {
                assert(result_views(ds@).subrange(0, i + 1).last() == ds@[i as int]@);
            }
            return Some(ds[i].translation.clone());
        }
        proof {
            assert(result_views(ds@).subrange(0, i + 1).last() == ds@[i as int]@);
            assert(result_views(ds@).subrange(0, i + 1).drop_last() =~= result_views(
                ds@,
            ).subrange(0, i as int));
        }
    }
    proof {
        assert(result_views(ds@).subrange(0, 0) =~= Seq::<ResultModel>::empty());
    }
    None
}

fn assemble_outputs(
    cache: &Cache,
    sentences: &Vec<TranslateSentence>,
    model: &str,
    code: &str,
    ds: &Vec<TranslationResult>,
) -> (out: Vec<TranslationResult>)
    requires
        cache.wf(),
    ensures
        result_views(out@) == spec_outputs(
            cache@,
            sentence_views(sentences@),
            model@,
            code@,
            result_views(ds@),
        ),
{
    let mut out: Vec<TranslationResult> = Vec::new();
    let n = sentences.len();
    let mut i: usize = 0;
    proof {
        assert(sentence_views(sentences@.subrange(0, 0)) =~= Seq::<SentenceModel>::empty());
        assert(result_views(out@) =~= Seq::<ResultModel>::empty());
    }
    while i < n
        invariant
            cache.wf(),
            n == sentences@.len(),
            i <= n,
            result_views(out@) == spec_outputs(
                cache@,
                sentence_views(sentences@.subrange(0, i as int)),
                model@,
                code@,
                result_views(ds@),
            ),
        decreases n - i,
    {
        let s = &sentences[i];
        let fp = sentence_fingerprint(s.sid.as_str(), s.text.as_str(), model, code);
        let ghost prev = out@;
        match cache.get(fp.as_str()) {
            Some(v) => {
                let t = v.clone();
                out.push(TranslationResult { sid: s.sid.clone(), translation: t });
            },
            None => {
                match last_result_for(ds, s.sid.as_str()) {
                    Some(t) => {
                        out.push(TranslationResult { sid: s.sid.clone(), translation: t });
                    },
                    None => {},
                }
            },
        }
        i = i + 1;
        proof {
            let ssv = sentence_views(sentences@.subrange(0, i as int));
            assert(ssv.drop_last() =~= sentence_views(sentences@.subrange(0, i - 1)));
            assert(ssv.last() == sentences@[i - 1]@);
            if out@.len() > prev.len() {
                assert(result_views(out@).drop_last() =~= result_views(prev));
            } else {
                assert(result_views(out@) =~= result_views(prev));
            }
            assert(result_views(out@) =~= spec_outputs(
                cache@,
                ssv,
                model@,
                code@,
                result_views(ds@),
            ));
        }
    }
    proof {
        assert(sentences@.subrange(0, n as int) =~= sentences@);
    }
    out
}

fn apply_results(
    cache: &mut Cache,
    misses: &Vec<TranslateSentence>,
    model: &str,
    code: &str,
    ds: &Vec<TranslationResult>,
)
    requires
        old(cache).wf(),
    ensures
        final(cache).wf(),
        final(cache)@ == spec_cache_after(
            old(cache)@,
            sentence_views(misses@),
            model@,
            code@,
            result_views(ds@),
        ),
{
    let n = misses.len();
    let mut i: usize = 0;
    proof {
        assert(sentence_views(misses@.subrange(0, 0)) =~= Seq::<SentenceModel>::empty());
    }
    while i < n
        invariant
            cache.wf(),
            n == misses@.len(),
            i <= n,
            cache@ == spec_cache_after(
                old(cache)@,
                sentence_views(misses@.subrange(0, i as int)),
                model@,
                code@,
                result_views(ds@),
            ),
        decreases n - i,
    {
        let s = &misses[i];
        let fp = sentence_fingerprint(s.sid.as_str(), s.text.as_str(), model, code);
        match last_result_for(ds, s.sid.as_str()) {
            Some(t) => {
                cache.insert(fp, t);
            },
            None => {},
        }
        i = i + 1;
        proof {
            let msv = sentence_views(misses@.subrange(0, i as int));
            assert(msv.drop_last() =~= sentence_views(misses@.subrange(0, i - 1)));
            assert(msv.last() == misses@[i - 1]@);
        }
    }
    proof {
        assert(misses@.subrange(0, n as int) =~= misses@);
    }
}

impl PendingTranslation {
    /// The pending request is consistent: the cache is well formed and the
    /// recorded misses are exactly the sentences its cache lacks.
    pub closed spec fn wf(&self) -> bool {
        &&& self.cache.wf()
        &&& sentence_views(self.misses@) == spec_misses(
            self.cache@,
            sentence_views(self.sentences@),
            self.model@,
            self.language.code@,
        )
        &&& self.misses@.len() > 0
    }
}

impl PendingRetry {
    /// See `PendingTranslation::wf`.
    pub closed spec fn wf(&self) -> bool {
        self.inner.wf()
    }
}

/// Starts a translation call over a freshly loaded cache.
///
/// With no sentences, or with every fingerprint cached, the call finishes
/// at once — no remote request, no cache change, nothing to save.
/// Otherwise the caller gets back the pending state and the user prompt for
/// the one batch request covering exactly the missed sentences.
pub fn begin_translation(
    model: String,
    target_language: TargetLanguage,
    sentences: Vec<TranslateSentence>,
    cache: Cache,
) -> (r: TranslateStart)
    requires
        cache.wf(),
    ensures
        match r {
            TranslateStart::Finished(out) => {
                &&& spec_misses(
                    cache@,
                    sentence_views(sentences@),
                    model@,
                    target_language.code@,
                ) =~= Seq::<SentenceModel>::empty()
                &&& result_views(out.results@) == spec_outputs(
                    cache@,
                    sentence_views(sentences@),
                    model@,
                    target_language.code@,
                    Seq::empty(),
                )
                &&& out.cache == cache
                &&& out.cache.wf()
                &&& out.save_needed == false
            },
            TranslateStart::Request(p, prompt) => {
                &&& p.wf()
                &&& p@.model == model@
                &&& p@.lang == target_language@
                &&& p@.sentences == sentence_views(sentences@)
                &&& p@.misses == spec_misses(
                    cache@,
                    sentence_views(sentences@),
                    model@,
                    target_language.code@,
                )
                &&& p@.misses.len() > 0
                &&& p@.cache == cache@
                &&& prompt@ == spec_user_prompt(target_language@, p@.misses)
            },
        },
{
    let mut misses: Vec<TranslateSentence> = Vec::new();
    let n = sentences.len();
    let mut i: usize = 0;
    proof {
        assert(sentence_views(sentences@.subrange(0, 0)) =~= Seq::<SentenceModel>::empty());
        assert(sentence_views(misses@) =~= Seq::<SentenceModel>::empty());
    }
    while i < n
        invariant
            cache.wf(),
            n == sentences@.len(),
            i <= n,
            sentence_views(misses@) == spec_misses(
                cache@,
                sentence_views(sentences@.subrange(0, i as int)),
                model@,
                target_language.code@,
            ),
        decreases n - i,
    {
        let s = &sentences[i];
        let fp = sentence_fingerprint(
            s.sid.as_str(),
            s.text.as_str(),
            model.as_str(),
            target_language.code.as_str(),
        );
        let ghost prev = misses@;
        if !cache.contains(fp.as_str()) {
            misses.push(TranslateSentence { sid: s.sid.clone(), text: s.text.clone() });
        }
        i = i + 1;
        proof {
            let ssv = sentence_views(sentences@.subrange(0, i as int));
            assert(ssv.drop_last() =~= sentence_views(sentences@.subrange(0, i - 1)));
            assert(ssv.last() == sentences@[i - 1]@);
            if misses@.len() > prev.len() {
                assert(misses@[misses@.len() - 1]@ == sentences@[i - 1]@);
                assert(sentence_views(misses@).drop_last() =~= sentence_views(prev));
                assert(sentence_views(misses@).last() == sentences@[i - 1]@);
                assert(sentence_views(misses@) =~= sentence_views(prev).push(
                    sentences@[i - 1]@,
                ));
            } else {
                assert(sentence_views(misses@) =~= sentence_views(prev));
            }
        }
    }
    proof {
        assert(sentences@.subrange(0, n as int) =~= sentences@);
    }
    if misses.len() == 0 {
        let empty_ds: Vec<TranslationResult> = Vec::new();
        let results = assemble_outputs(
            &cache,
            &sentences,
            model.as_str(),
            target_language.code.as_str(),
            &empty_ds,
        );
        proof {
            assert(result_views(empty_ds@) =~= Seq::<ResultModel>::empty());
            assert(sentence_views(misses@) =~= Seq::<SentenceModel>::empty());
        }
        TranslateStart::Finished(
            TranslationOutcome { results, cache, save_needed: false },
        )
    } else {
        let prompt = build_user_prompt(&target_language, &misses);
        TranslateStart::Request(
            PendingTranslation { model, language: target_language, sentences, misses, cache },
            prompt,
        )
    }
}

impl PendingTranslation {
    /// Feeds in the reply to the batch request.
    ///
    /// A reply that decodes finishes the call: the outputs are assembled
    /// against the cache as loaded and the decoded results, every resolved
    /// miss is written into the cache, and the cache must be saved. A reply
    /// that does not decode asks for exactly one stricter retry.
    pub fn respond_first(self, content: &str) -> (r: TranslateRetry)
        requires
            self.wf(),
        ensures
            match r {
                TranslateRetry::Finished(out) => {
                    &&& spec_reply_decode(content@) is Ok
                    &&& result_views(out.results@) == spec_outputs(
                        self@.cache,
                        self@.sentences,
                        self@.model,
                        self@.lang.code,
                        spec_reply_decode(content@)->Ok_0,
                    )
                    &&& out.cache.wf()
                    &&& out.cache@ == spec_cache_after(
                        self@.cache,
                        self@.misses,
                        self@.model,
                        self@.lang.code,
                        spec_reply_decode(content@)->Ok_0,
                    )
                    &&& out.save_needed == true
                },
                TranslateRetry::Retry(p, prompt) => {
                    &&& spec_reply_decode(content@) is Err
                    &&& p.wf()
                    &&& p@ == self@
                    &&& prompt@ == spec_strict_user_prompt(self@.lang, self@.misses)
                },
            },
    {
        match parse_translation_json(content) {
            Ok(ds) => {
                let results = assemble_outputs(
                    &self.cache,
                    &self.sentences,
                    self.model.as_str(),
                    self.language.code.as_str(),
                    &ds,
                );
                let mut cache = self.cache;
                apply_results(
                    &mut cache,
                    &self.misses,
                    self.model.as_str(),
                    self.language.code.as_str(),
                    &ds,
                );
                TranslateRetry::Finished(
                    TranslationOutcome { results, cache, save_needed: true },
                )
            },
            Err(_) => {
                let prompt = build_strict_user_prompt(&self.language, &self.misses);
                TranslateRetry::Retry(PendingRetry { inner: self }, prompt)
            },
        }
    }
}

impl PendingRetry {
    /// Feeds in the reply to the stricter retry. A reply that decodes
    /// finishes the call exactly as a first-round reply would; one that
    /// does not fails the whole call with the decoder's error. There is no
    /// further retry.
    pub fn respond_retry(self, content: &str) -> (r: TranslateDone)
        requires
            self.wf(),
        ensures
            match r {
                TranslateDone::Finished(out) => {
                    &&& spec_reply_decode(content@) is Ok
                    &&& result_views(out.results@) == spec_outputs(
                        self@.cache,
                        self@.sentences,
                        self@.model,
                        self@.lang.code,
                        spec_reply_decode(content@)->Ok_0,
                    )
                    &&& out.cache.wf()
                    &&& out.cache@ == spec_cache_after(
                        self@.cache,
                        self@.misses,
                        self@.model,
                        self@.lang.code,
                        spec_reply_decode(content@)->Ok_0,
                    )
                    &&& out.save_needed == true
                },
                TranslateDone::Failed(e) => {
                    &&& spec_reply_decode(content@) is Err
                    &&& e.snippet@ == spec_reply_decode(content@)->Err_0
                },
            },
    {
        match parse_translation_json(content) {
            Ok(ds) => {
                let results = assemble_outputs(
                    &self.inner.cache,
                    &self.inner.sentences,
                    self.inner.model.as_str(),
                    self.inner.language.code.as_str(),
                    &ds,
                );
                let mut cache = self.inner.cache;
                apply_results(
                    &mut cache,
                    &self.inner.misses,
                    self.inner.model.as_str(),
                    self.inner.language.code.as_str(),
                    &ds,
                );
                TranslateDone::Finished(
                    TranslationOutcome { results, cache, save_needed: true },
                )
            },
            Err(e) => TranslateDone::Failed(e),
        }
    }
}

} // verus!
