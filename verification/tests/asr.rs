use parla::asr::{filter, language_hint, strip_suffix_word};

fn blocklist() -> Vec<String> {
    parla::config::AsrConfig::default().hallucination_blocklist
}

#[test]
fn real_speech_survives() {
    assert_eq!(filter(&blocklist(), "I love you"), "I love you");
    assert_eq!(filter(&blocklist(), "  open   firefox "), "open firefox");
}

#[test]
fn lone_hallucination_is_dropped() {
    assert_eq!(filter(&blocklist(), "thank you"), "");
    assert_eq!(filter(&blocklist(), " Thank you. "), "");
    assert_eq!(filter(&blocklist(), "..."), "");
}

#[test]
fn trailing_hallucination_is_stripped_on_word_boundary() {
    assert_eq!(filter(&blocklist(), "hello thank you"), "hello");
    assert_eq!(filter(&blocklist(), "hello Thank You."), "hello");
    // not a word boundary: leave it alone
    assert_eq!(filter(&blocklist(), "hellothank you"), "hellothank you");
}

#[test]
fn non_ascii_before_suffix_does_not_panic() {
    assert_eq!(
        filter(&blocklist(), "ciao è tutto thank you"),
        "ciao è tutto"
    );
    assert_eq!(
        filter(&blocklist(), "İstanbul İzmir thank you"),
        "İstanbul İzmir"
    );
    assert_eq!(filter(&blocklist(), "日本語 the end"), "日本語");
    // suffix longer than the text
    assert_eq!(filter(&vec!["thanks for watching".into()], "é"), "é");
}

#[test]
fn an_automatic_language_is_no_hint() {
    assert_eq!(language_hint("auto"), None);
    assert_eq!(language_hint("en"), Some("en"));
}

#[test]
fn a_suffix_is_stripped_only_as_whole_words() {
    assert_eq!(strip_suffix_word("say THE END", "the end").as_deref(), Some("say"));
    assert_eq!(strip_suffix_word("weekend", "end"), None);
    assert_eq!(strip_suffix_word("é", "thanks"), None);
}

#[test]
fn a_one_word_entry_drops_only_a_transcript_that_is_nothing_else() {
    let you = vec!["you".to_string()];
    assert_eq!(filter(&you, "I love you"), "I love you");
    assert_eq!(filter(&you, "You."), "");
    let thanks = vec!["thank you".to_string()];
    assert_eq!(filter(&thanks, "I love it thank you"), "I love it");
}

#[test]
fn accents_elsewhere_do_not_keep_a_tail() {
    assert_eq!(strip_suffix_word("è Thank You", "thank you").as_deref(), Some("è"));
    assert_eq!(strip_suffix_word("Thank You", "thank you"), None);
    assert_eq!(filter(&blocklist(), "«Però è così» thank you"), "Però è così»");
    let list = vec!["grazie a tutti".to_string(), "a tutti".to_string()];
    assert_eq!(filter(&list, "È vero. GRAZIE a tutti!"), "È vero.");
    let list = vec!["a tutti".to_string(), "grazie a tutti".to_string()];
    assert_eq!(filter(&list, "È vero. GRAZIE a tutti!"), "È vero. GRAZIE");
}
