use translingo::cache::Cache;
use translingo::fingerprint::sentence_fingerprint;
use translingo::translate::{
    begin_translation, TranslateDone, TranslateRetry, TranslateStart, TranslationOutcome,
};
use translingo::{TargetLanguage, TranslateSentence};

fn lang() -> TargetLanguage {
    TargetLanguage { label: String::from("English"), code: String::from("en") }
}

fn sentence(sid: &str, text: &str) -> TranslateSentence {
    TranslateSentence { sid: String::from(sid), text: String::from(text) }
}

fn batch() -> Vec<TranslateSentence> {
    vec![sentence("d:a", "one"), sentence("d:b", "two"), sentence("d:c", "three")]
}

fn pairs(out: &TranslationOutcome) -> Vec<(String, String)> {
    out.results.iter().map(|r| (r.sid.clone(), r.translation.clone())).collect()
}

#[test]
fn empty_input_finishes_without_any_request() {
    match begin_translation(String::from("m"), lang(), Vec::new(), Cache::new()) {
        TranslateStart::Finished(out) => {
            assert!(out.results.is_empty());
            assert!(!out.save_needed);
        }
        TranslateStart::Request(..) => panic!("empty input must not request"),
    }
}

#[test]
fn all_hits_finish_without_any_request() {
    let mut cache = Cache::new();
    for s in batch() {
        let fp = sentence_fingerprint(&s.sid, &s.text, "m", "en");
        cache.insert(fp, format!("t-{}", s.sid));
    }
    match begin_translation(String::from("m"), lang(), batch(), cache) {
        TranslateStart::Finished(out) => {
            assert_eq!(
                pairs(&out),
                vec![
                    (String::from("d:a"), String::from("t-d:a")),
                    (String::from("d:b"), String::from("t-d:b")),
                    (String::from("d:c"), String::from("t-d:c")),
                ]
            );
            assert!(!out.save_needed);
        }
        TranslateStart::Request(..) => panic!("all hits must not request"),
    }
}

#[test]
fn cache_idempotence_second_call_uses_no_remote() {
    let mut remote_calls: usize = 0;
    let reply = "[{\"sid\":\"d:a\",\"translation\":\"uno\"},\
                  {\"sid\":\"d:b\",\"translation\":\"dos\"},\
                  {\"sid\":\"d:c\",\"translation\":\"tres\"}]";

    let first = match begin_translation(String::from("m"), lang(), batch(), Cache::new()) {
        TranslateStart::Request(p, _prompt) => {
            remote_calls += 1;
            match p.respond_first(reply) {
                TranslateRetry::Finished(out) => out,
                TranslateRetry::Retry(..) => panic!("valid reply must finish"),
            }
        }
        TranslateStart::Finished(_) => panic!("cold cache must request"),
    };
    assert!(first.save_needed);
    assert_eq!(remote_calls, 1);
    let first_pairs = pairs(&first);

    let second = match begin_translation(String::from("m"), lang(), batch(), first.cache) {
        TranslateStart::Finished(out) => out,
        TranslateStart::Request(..) => {
            panic!("warm cache must not request");
        }
    };
    assert_eq!(remote_calls, 1);
    assert_eq!(first_pairs, pairs(&second));
    assert!(!second.save_needed);
}

#[test]
fn output_keeps_caller_order_whatever_the_reply_order() {
    let mut cache = Cache::new();
    let fp_b = sentence_fingerprint("d:b", "two", "m", "en");
    cache.insert(fp_b, String::from("dos"));

    let reply = "[{\"sid\":\"d:c\",\"translation\":\"tres\"},\
                  {\"sid\":\"d:a\",\"translation\":\"uno\"}]";
    match begin_translation(String::from("m"), lang(), batch(), cache) {
        TranslateStart::Request(p, _prompt) => match p.respond_first(reply) {
            TranslateRetry::Finished(out) => {
                assert_eq!(
                    pairs(&out),
                    vec![
                        (String::from("d:a"), String::from("uno")),
                        (String::from("d:b"), String::from("dos")),
                        (String::from("d:c"), String::from("tres")),
                    ]
                );
            }
            TranslateRetry::Retry(..) => panic!("valid reply must finish"),
        },
        TranslateStart::Finished(_) => panic!("misses must request"),
    }
}

#[test]
fn partial_resolution_drops_unanswered_ids_silently() {
    let reply = "[{\"sid\":\"d:a\",\"translation\":\"uno\"},\
                  {\"sid\":\"d:c\",\"translation\":\"tres\"}]";
    match begin_translation(String::from("m"), lang(), batch(), Cache::new()) {
        TranslateStart::Request(p, _prompt) => match p.respond_first(reply) {
            TranslateRetry::Finished(out) => {
                assert_eq!(
                    pairs(&out),
                    vec![
                        (String::from("d:a"), String::from("uno")),
                        (String::from("d:c"), String::from("tres")),
                    ]
                );
            }
            TranslateRetry::Retry(..) => panic!("valid reply must finish"),
        },
        TranslateStart::Finished(_) => panic!("misses must request"),
    }
}

#[test]
fn malformed_then_valid_reply_succeeds_after_one_retry() {
    let mut remote_calls: usize = 0;
    let good = "[{\"sid\":\"d:a\",\"translation\":\"uno\"},\
                 {\"sid\":\"d:b\",\"translation\":\"dos\"},\
                 {\"sid\":\"d:c\",\"translation\":\"tres\"}]";
    match begin_translation(String::from("m"), lang(), batch(), Cache::new()) {
        TranslateStart::Request(p, _prompt) => {
            remote_calls += 1;
            match p.respond_first("I'm sorry, here you go") {
                TranslateRetry::Retry(p2, strict_prompt) => {
                    remote_calls += 1;
                    assert!(strict_prompt.starts_with(
                        "Return ONLY this JSON array format with no extra text."
                    ));
                    match p2.respond_retry(good) {
                        TranslateDone::Finished(out) => {
                            assert_eq!(out.results.len(), 3);
                            assert!(out.save_needed);
                        }
                        TranslateDone::Failed(_) => panic!("valid retry must finish"),
                    }
                }
                TranslateRetry::Finished(_) => panic!("malformed reply must retry"),
            }
        }
        TranslateStart::Finished(_) => panic!("misses must request"),
    }
    assert_eq!(remote_calls, 2);
}

#[test]
fn two_malformed_replies_fail_with_parse_error() {
    match begin_translation(String::from("m"), lang(), batch(), Cache::new()) {
        TranslateStart::Request(p, _prompt) => match p.respond_first("nope") {
            TranslateRetry::Retry(p2, _strict) => match p2.respond_retry("still nope") {
                TranslateDone::Failed(e) => assert_eq!(e.snippet, "still nope"),
                TranslateDone::Finished(_) => panic!("malformed retry must fail"),
            },
            TranslateRetry::Finished(_) => panic!("malformed reply must retry"),
        },
        TranslateStart::Finished(_) => panic!("misses must request"),
    }
}

#[test]
fn request_prompt_embeds_only_the_misses() {
    let mut cache = Cache::new();
    let fp_b = sentence_fingerprint("d:b", "two", "m", "en");
    cache.insert(fp_b, String::from("dos"));
    match begin_translation(String::from("m"), lang(), batch(), cache) {
        TranslateStart::Request(_p, prompt) => {
            assert_eq!(
                prompt,
                "Target language: English (en)\n\
                 Translation style: faithful, clear, readable\n\
                 Input JSON: [{\"sid\":\"d:a\",\"text\":\"one\"},{\"sid\":\"d:c\",\"text\":\"three\"}]"
            );
        }
        TranslateStart::Finished(_) => panic!("misses must request"),
    }
}

#[test]
fn resolved_misses_are_cached_under_their_fingerprints() {
    let reply = "[{\"sid\":\"d:a\",\"translation\":\"uno\"}]";
    match begin_translation(
        String::from("m"),
        lang(),
        vec![sentence("d:a", "one"), sentence("d:b", "two")],
        Cache::new(),
    ) {
        TranslateStart::Request(p, _prompt) => match p.respond_first(reply) {
            TranslateRetry::Finished(out) => {
                let fp_a = sentence_fingerprint("d:a", "one", "m", "en");
                let fp_b = sentence_fingerprint("d:b", "two", "m", "en");
                assert_eq!(out.cache.get(&fp_a), Some(&String::from("uno")));
                assert!(out.cache.get(&fp_b).is_none());
            }
            TranslateRetry::Retry(..) => panic!("valid reply must finish"),
        },
        TranslateStart::Finished(_) => panic!("misses must request"),
    }
}

#[test]
fn cache_insert_overwrites_value_equal_key() {
    let mut cache = Cache::new();
    cache.insert(String::from("k"), String::from("v1"));
    cache.insert(String::from("k"), String::from("v2"));
    assert_eq!(cache.get("k"), Some(&String::from("v2")));
    assert_eq!(cache.pairs().len(), 1);
}

#[test]
fn cache_round_trips_through_pairs() {
    let mut cache = Cache::new();
    cache.insert(String::from("k1"), String::from("v1"));
    cache.insert(String::from("k2"), String::from("v2"));
    let reloaded = Cache::from_pairs(cache.pairs());
    assert_eq!(reloaded.get("k1"), Some(&String::from("v1")));
    assert_eq!(reloaded.get("k2"), Some(&String::from("v2")));
    assert!(reloaded.get("k3").is_none());
}
