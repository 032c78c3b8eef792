use asr_rs::filter::{is_blocked, is_hallucination};

#[test]
fn rejects_short_text() {
    assert!(is_hallucination(""));
    assert!(is_hallucination("hi"));
    assert!(is_hallucination("a"));
}

#[test]
fn rejects_phantom_words() {
    assert!(is_hallucination("uh"));
    assert!(is_hallucination("Um"));
    assert!(is_hallucination("YOU"));
    assert!(is_hallucination("hmm"));
}

#[test]
fn rejects_hallucination_phrases() {
    assert!(is_hallucination("Thanks for watching"));
    assert!(is_hallucination("like and subscribe"));
}

#[test]
fn passes_real_text() {
    assert!(!is_hallucination("hello world this is a test"));
    assert!(!is_hallucination("the quick brown fox"));
}

#[test]
fn long_text_skips_phrase_check() {
    // 40+ chars containing "subscribe" should pass
    let long = "please subscribe to our newsletter for the latest updates and news";
    assert!(!is_hallucination(long));
}

#[test]
fn every_phantom_word_is_dropped() {
    for word in ["ah", "bye", "goodbye", "hmm", "huh", "i", "oh", "so", "uh", "um", "you"] {
        assert!(is_hallucination(word), "{word}");
        assert!(is_hallucination(&word.to_uppercase()), "{word}");
    }
    assert!(!is_hallucination("goodbyes"));
    assert!(!is_hallucination("you too"));
}

#[test]
fn every_phantom_phrase_is_dropped() {
    for phrase in [
        "thanks for watching",
        "thank you for watching",
        "thanks for listening",
        "thank you for listening",
        "subscribe",
        "like and subscribe",
        "see you next time",
        "the end",
        "silence",
        "no speech",
        "inaudible",
        "[music]",
        "(music)",
    ] {
        assert!(is_hallucination(phrase), "{phrase}");
        assert!(is_hallucination(&format!("Well, {phrase}!")), "{phrase}");
    }
}

#[test]
fn phrase_check_ends_at_forty_characters() {
    let short = format!("the end{}", "x".repeat(32));
    let long = format!("the end{}", "x".repeat(33));
    assert_eq!(short.chars().count(), 39);
    assert!(is_hallucination(&short));
    assert!(!is_hallucination(&long));
}

#[test]
fn lengths_are_counted_in_characters() {
    assert!(is_hallucination("日本"));
    assert!(!is_hallucination("日本語"));
    let accented = format!("{} the end", "é".repeat(31));
    assert_eq!(accented.chars().count(), 39);
    assert!(is_hallucination(&accented));
}

#[test]
fn outer_white_space_does_not_count() {
    assert!(is_hallucination("  um \n"));
    assert!(is_hallucination(" hi  "));
    assert!(!is_hallucination("  hello  "));
}

#[test]
fn blocking_goes_by_the_lowered_text() {
    assert!(is_blocked("the end"));
    assert!(!is_blocked("THE END"));
    assert!(is_blocked("ab"));
    assert!(!is_blocked("abc"));
}
