use translingo::books::{
    add_recent_book, remove_recent_book, select_recent_books, sort_books_desc,
    update_book_progress, RecentBook,
};
use translingo::lookup::parse_word_lookup_json;
use translingo::prompts::{
    build_chat_user_prompt, build_system_prompt, build_user_prompt,
    build_word_lookup_system_prompt, build_word_lookup_prompt,
};
use translingo::remote::{normalize_api_key, parse_chat_content, ChatReplyError};
use translingo::vocab::{
    add_vocabulary_word, export_vocabulary_markdown, is_word_in_vocabulary,
    remove_vocabulary_word, DateStamp, VocabularyEntry,
};
use translingo::lookup::WordDefinitionResult;
use translingo::{TargetLanguage, TranslateSentence};

fn lang() -> TargetLanguage {
    TargetLanguage { label: String::from("French"), code: String::from("fr") }
}

#[test]
fn system_prompt_is_the_fixed_instruction() {
    assert_eq!(
        build_system_prompt(),
        "You are a translation engine. Translate into the specified target language. \
         Output STRICT JSON ONLY. No markdown, no explanations, no extra text."
    );
}

#[test]
fn word_lookup_system_prompt_is_the_fixed_instruction() {
    assert_eq!(
        build_word_lookup_system_prompt(),
        "You are a dictionary lookup engine. Provide word definitions in dictionary format. \
         Output STRICT JSON ONLY. No markdown, no explanations, no extra text."
    );
}

#[test]
fn user_prompt_escapes_payload_like_json() {
    let sentences = vec![TranslateSentence {
        sid: String::from("d:1"),
        text: String::from("say \"hi\"\nnow"),
    }];
    let prompt = build_user_prompt(&lang(), &sentences);
    assert_eq!(
        prompt,
        "Target language: French (fr)\n\
         Translation style: faithful, clear, readable\n\
         Input JSON: [{\"sid\":\"d:1\",\"text\":\"say \\\"hi\\\"\\nnow\"}]"
    );
}

#[test]
fn user_prompt_for_empty_batch_has_empty_array() {
    let prompt = build_user_prompt(&lang(), &Vec::new());
    assert!(prompt.ends_with("Input JSON: []"));
}

#[test]
fn word_lookup_prompt_names_word_and_language() {
    let prompt = build_word_lookup_prompt("serendipity", &lang());
    assert!(prompt.starts_with(
        "Look up the word \"serendipity\" and provide its definition in French (fr)."
    ));
    assert!(prompt.ends_with("- Meanings should be in French"));
}

#[test]
fn chat_user_prompt_frames_context_and_question() {
    assert_eq!(
        build_chat_user_prompt("some page", "what is it?"),
        "Context from the document:\n\nsome page\n\n---\n\nQuestion: what is it?"
    );
}

#[test]
fn word_lookup_decodes_fenced_object() {
    let reply = "```json\n{\"phonetic\": \"/ha-lo/\", \"definitions\": \
                 [{\"pos\": \"n.\", \"meanings\": \"greeting\"}]}\n```";
    let out = parse_word_lookup_json(reply).unwrap();
    assert_eq!(out.phonetic, Some(String::from("/ha-lo/")));
    assert_eq!(out.definitions.len(), 1);
    assert_eq!(out.definitions[0].pos, "n.");
    assert_eq!(out.definitions[0].meanings, "greeting");
}

#[test]
fn word_lookup_allows_missing_phonetic() {
    let out = parse_word_lookup_json("{\"definitions\": []}").unwrap();
    assert_eq!(out.phonetic, None);
    assert!(out.definitions.is_empty());
}

#[test]
fn word_lookup_fails_without_definitions() {
    let err = parse_word_lookup_json("{\"phonetic\": \"/x/\"}").unwrap_err();
    assert_eq!(err.snippet, "{\"phonetic\": \"/x/\"}");
}

#[test]
fn word_lookup_fails_on_malformed_sense() {
    assert!(parse_word_lookup_json("{\"definitions\": [{\"pos\": \"n.\"}]}").is_err());
}

#[test]
fn chat_reply_yields_first_choice_content() {
    let body = "{\"choices\": [{\"message\": {\"content\": \"first\"}}, \
                {\"message\": {\"content\": \"second\"}}]}";
    assert_eq!(parse_chat_content(body).unwrap(), "first");
}

#[test]
fn chat_reply_with_empty_choices_is_its_own_error() {
    match parse_chat_content("{\"choices\": []}") {
        Err(ChatReplyError::NoChoices) => {}
        _ => panic!("empty choices must give the no-choices error"),
    }
}

#[test]
fn chat_reply_with_bad_shape_is_malformed() {
    match parse_chat_content("not even json") {
        Err(ChatReplyError::Malformed { snippet }) => assert_eq!(snippet, "not even json"),
        _ => panic!("bad body must be malformed"),
    }
}

#[test]
fn api_key_is_trimmed_and_must_be_nonempty() {
    assert_eq!(normalize_api_key("  sk-123  \n"), Some(String::from("sk-123")));
    assert_eq!(normalize_api_key("   \n\t"), None);
    assert_eq!(normalize_api_key(""), None);
}

fn stamp() -> DateStamp {
    DateStamp { year: 2024, month: 3, day: 5, hour: 9, minute: 7 }
}

fn def(pos: &str, meanings: &str) -> WordDefinitionResult {
    WordDefinitionResult { pos: String::from(pos), meanings: String::from(meanings) }
}

#[test]
fn vocabulary_deduplicates_case_insensitively() {
    let mut entries: Vec<VocabularyEntry> = Vec::new();
    assert!(add_vocabulary_word(&mut entries, String::from("Hello"), None, Vec::new(), stamp()));
    assert!(!add_vocabulary_word(&mut entries, String::from("HELLO"), None, Vec::new(), stamp()));
    assert_eq!(entries.len(), 1);
    assert!(is_word_in_vocabulary(&entries, "hello"));
    assert!(!is_word_in_vocabulary(&entries, "other"));
}

#[test]
fn vocabulary_removal_is_case_insensitive() {
    let mut entries: Vec<VocabularyEntry> = Vec::new();
    add_vocabulary_word(&mut entries, String::from("Hello"), None, Vec::new(), stamp());
    add_vocabulary_word(&mut entries, String::from("world"), None, Vec::new(), stamp());
    remove_vocabulary_word(&mut entries, "HELLO");
    assert_eq!(entries.len(), 1);
    assert_eq!(entries[0].word, "world");
}

#[test]
fn vocabulary_export_renders_expected_markdown() {
    let mut entries: Vec<VocabularyEntry> = Vec::new();
    add_vocabulary_word(
        &mut entries,
        String::from("hello"),
        Some(String::from("/ha-lo/")),
        vec![def("n.", "greeting"), def("", "plain sense")],
        stamp(),
    );
    let md = export_vocabulary_markdown(&entries);
    assert_eq!(
        md,
        "# My Vocabulary\n\nTotal words: 1\n\n---\n\n\
         ## hello\n\n\
         **Pronunciation:** /ha-lo/\n\n\
         - **n.** greeting\n\
         - plain sense\n\
         \n*Added: 2024-03-05 09:07*\n\n---\n\n"
    );
}

fn book(id: &str, path: &str, opened: i64) -> RecentBook {
    RecentBook {
        id: String::from(id),
        file_path: String::from(path),
        file_name: String::from("f"),
        file_type: String::from("epub"),
        title: String::from("t"),
        author: None,
        cover_image: None,
        total_pages: 100,
        last_page: 1,
        progress_bits: 0,
        last_opened_at: opened,
    }
}

#[test]
fn books_sort_most_recent_first() {
    let mut books = vec![book("a", "pa", 10), book("b", "pb", 30), book("c", "pc", 20)];
    sort_books_desc(&mut books);
    let ids: Vec<&str> = books.iter().map(|b| b.id.as_str()).collect();
    assert_eq!(ids, vec!["b", "c", "a"]);
}

#[test]
fn books_list_is_capped_at_fifty() {
    let mut books: Vec<RecentBook> = Vec::new();
    let mut i: i64 = 0;
    while i < 55 {
        books.push(book(&format!("id{}", i), &format!("p{}", i), i));
        i += 1;
    }
    let kept = select_recent_books(books);
    assert_eq!(kept.len(), 50);
    assert_eq!(kept[0].last_opened_at, 54);
    assert_eq!(kept[49].last_opened_at, 5);
}

#[test]
fn adding_a_book_replaces_same_id_or_path() {
    let mut books = vec![book("a", "pa", 10), book("b", "pb", 20)];
    let replacement = book("a", "other-path", 99);
    let list = add_recent_book(&mut books, replacement);
    assert_eq!(list.len(), 2);
    assert_eq!(list[0].id, "a");
    assert_eq!(list[0].last_opened_at, 99);
    assert_eq!(list[0].last_page, 1);
    assert_eq!(list[1].id, "b");
}

#[test]
fn updating_progress_touches_only_the_matching_book() {
    let mut books = vec![book("a", "pa", 10), book("b", "pb", 20)];
    assert!(update_book_progress(&mut books, "a", 42, 7, 555));
    assert_eq!(books[0].last_page, 42);
    assert_eq!(books[0].progress_bits, 7);
    assert_eq!(books[0].last_opened_at, 555);
    assert_eq!(books[1].last_page, 1);
    assert!(!update_book_progress(&mut books, "zz", 1, 0, 0));
}

#[test]
fn removing_a_book_drops_only_that_id() {
    let mut books = vec![book("a", "pa", 10), book("b", "pb", 20)];
    remove_recent_book(&mut books, "a");
    assert_eq!(books.len(), 1);
    assert_eq!(books[0].id, "b");
}
