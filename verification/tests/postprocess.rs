use asr_rs::config::PostprocessingConfig;
use asr_rs::postprocess::{
    apply_spoken_punctuation, capitalize_after_period, capitalize_cased, has_lasting_text,
    has_plain_case, keeps_shape, process_text, replace_commands, Cased,
};
use asr_rs::spacing::fix_spacing;
use asr_rs::speech::{find_entry, speech_pattern, speech_replacements};
use regex::Regex;

fn default_config() -> PostprocessingConfig {
    PostprocessingConfig { hallucination_filter: true, spoken_punctuation: true }
}

#[test]
fn spoken_period() {
    // Raw output preserves trailing space; fix_spacing + trim clean it up
    let r = apply_spoken_punctuation("hello period");
    assert_eq!(fix_spacing(&r).trim(), "hello.");
}

#[test]
fn spoken_comma() {
    let r = apply_spoken_punctuation("yes comma no");
    assert_eq!(fix_spacing(&r), "yes, no");
}

#[test]
fn adjust_preceding_strips_existing_punct() {
    let r = apply_spoken_punctuation("hello. period");
    assert_eq!(fix_spacing(&r).trim(), "hello.");
}

#[test]
fn multi_word_match() {
    let r = apply_spoken_punctuation("what question mark");
    assert_eq!(fix_spacing(&r).trim(), "what?");
}

#[test]
fn spacing_fix() {
    assert_eq!(fix_spacing("hello , world"), "hello, world");
    assert_eq!(fix_spacing("( hello )"), "(hello)");
}

#[test]
fn capitalize() {
    assert_eq!(capitalize_after_period("hello. world"), "Hello. World");
}

#[test]
fn full_pipeline() {
    let config = default_config();
    let r = process_text("hello period how are you question mark", &config);
    assert_eq!(r, Some("Hello. How are you?".to_string()));
}

#[test]
fn filters_hallucination() {
    let config = default_config();
    assert_eq!(process_text("thanks for watching", &config), None);
}

#[test]
fn every_phrase_becomes_its_mark() {
    let expected = [
        ("period", "."),
        ("comma", ","),
        ("question mark", "?"),
        ("exclamation mark", "!"),
        ("exclamation point", "!"),
        ("colon", ":"),
        ("semicolon", ";"),
        ("new line", "\n"),
        ("tab", "\t"),
        ("dash dash", "--"),
        ("dash", "-"),
        ("hyphen", "-"),
        ("underscore", "_"),
        ("double quote", "\""),
        ("single quote", "'"),
        ("quote", "\""),
        ("apostrophe", "'"),
        ("slash", "/"),
        ("backslash", "\\"),
        ("pipe", "|"),
        ("tilde", "~"),
        ("grave", "`"),
        ("open parentheses", "("),
        ("open parenthesis", "("),
        ("open paren", "("),
        ("close parentheses", ")"),
        ("close parenthesis", ")"),
        ("close paren", ")"),
        ("open bracket", "["),
        ("close bracket", "]"),
        ("open brace", "{"),
        ("close brace", "}"),
        ("at symbol", "@"),
        ("hash", "#"),
        ("dollar sign", "$"),
        ("percent", "%"),
        ("caret", "^"),
        ("ampersand", "&"),
        ("asterisk", "*"),
        ("plus", "+"),
        ("equals", "="),
        ("less than", "<"),
        ("greater than", ">"),
    ];
    assert_eq!(speech_replacements().len(), expected.len());
    for (phrase, mark) in expected {
        assert_eq!(apply_spoken_punctuation(phrase), mark, "{phrase}");
        assert_eq!(apply_spoken_punctuation(&phrase.to_uppercase()), mark, "{phrase}");
    }
}

#[test]
fn longest_phrase_wins() {
    assert_eq!(apply_spoken_punctuation("dash dash"), "--");
    assert_eq!(apply_spoken_punctuation("open parentheses"), "(");
    assert_eq!(apply_spoken_punctuation("single quote"), "'");
    let table = speech_replacements();
    for entry in &table {
        assert_eq!(find_entry(&table, entry.phrase).unwrap().replacement, entry.replacement);
    }
    assert!(find_entry(&table, "perio").is_none());
}

#[test]
fn pattern_compiles_and_lists_longer_phrases_first() {
    let pattern = speech_pattern();
    assert!(Regex::new(&pattern).is_ok());
    let from = pattern.find("(?P<cmd>").unwrap() + "(?P<cmd>".len();
    let to = pattern.rfind(")\\b").unwrap();
    let alternates: Vec<&str> = pattern[from..to].split('|').collect();
    assert_eq!(alternates.len(), speech_replacements().len());
    assert!(alternates.windows(2).all(|pair| pair[0].len() >= pair[1].len()));
    assert!(pattern.starts_with("(?i)\\b(?P<cmd>"));
    assert!(pattern.ends_with(")\\b[.!?,;:]*"));
}

#[test]
fn commands_are_whole_words() {
    assert_eq!(apply_spoken_punctuation("periodic dashboard"), "periodic dashboard");
    assert_eq!(apply_spoken_punctuation("my-hash-tag"), "my-#-tag");
    assert_eq!(apply_spoken_punctuation(""), "");
}

#[test]
fn punctuation_after_a_command_is_stripped() {
    assert_eq!(apply_spoken_punctuation("hello Period."), "hello. ");
    assert_eq!(apply_spoken_punctuation("hello comma, and"), "hello,  and");
    assert_eq!(apply_spoken_punctuation("a plus?! b"), "a + b");
}

#[test]
fn punctuation_before_a_command_gives_way() {
    assert_eq!(apply_spoken_punctuation("hello?! \tperiod"), "hello. \t");
    assert_eq!(apply_spoken_punctuation("hello. plus"), "hello. +");
}

#[test]
fn commands_in_any_script() {
    assert_eq!(apply_spoken_punctuation("été comma naïve"), "été,  naïve");
    assert_eq!(apply_spoken_punctuation("日本 hash 語"), "日本 # 語");
}

#[test]
fn spans_without_an_entry_stay() {
    let spans = vec![(0, 5), (6, 11)];
    let lowered = vec!["hello".to_string(), "comma".to_string()];
    assert_eq!(replace_commands("hello comma!", &spans, &lowered), "hello, !");
    assert_eq!(replace_commands("as it is", &Vec::new(), &Vec::new()), "as it is");
}

#[test]
fn spacing_matches_the_four_patterns() {
    let before_mark = Regex::new(r"[ \t]+([,.;:!?])").unwrap();
    let after_open = Regex::new(r"\( +").unwrap();
    let before_close = Regex::new(r" +\)").unwrap();
    let several = Regex::new(r" +").unwrap();
    let letters = [' ', '\t', '.', '(', ')', 'a'];
    let mut texts: Vec<String> = vec![String::new()];
    let mut from = 0;
    for _ in 0..6 {
        let to = texts.len();
        for n in from..to {
            for letter in letters {
                let mut longer = texts[n].clone();
                longer.push(letter);
                texts.push(longer);
            }
        }
        from = to;
    }
    for text in &texts {
        let s = before_mark.replace_all(text, "$1");
        let s = after_open.replace_all(&s, "(");
        let s = before_close.replace_all(&s, ")");
        let s = several.replace_all(&s, " ");
        assert_eq!(fix_spacing(text), s, "{text:?}");
    }
    for mark in [',', '.', ';', ':', '!', '?'] {
        assert_eq!(fix_spacing(&format!("a \t {mark}b")), format!("a{mark}b"));
    }
}

#[test]
fn spacing_is_done_once_and_keeps_the_words() {
    for text in ["a  b", " ( a , b ) ", "\t.\t,", "((  ))", "x\t y", "é  ,è"] {
        let once = fix_spacing(text);
        assert_eq!(fix_spacing(&once), once);
        let ink = |s: &str| s.chars().filter(|c| *c != ' ' && *c != '\t').collect::<String>();
        assert_eq!(ink(&once), ink(text));
        assert!(!once.contains("  "));
        assert!(!once.contains("( "));
        assert!(!once.contains(" )"));
        assert!(!once.contains(" ,"));
    }
}

#[test]
fn first_letters_of_sentences_are_raised() {
    assert_eq!(capitalize_after_period(""), "");
    assert_eq!(capitalize_after_period("hello"), "Hello");
    assert_eq!(capitalize_after_period("  hello"), "  Hello");
    assert_eq!(capitalize_after_period("one? two! three"), "One? Two! Three");
    assert_eq!(capitalize_after_period("one, two; three"), "One, two; three");
    assert_eq!(capitalize_after_period("wait...what"), "Wait...What");
    assert_eq!(capitalize_after_period("été. öl"), "Été. Öl");
    assert_eq!(capitalize_after_period("straße. ßa"), "Straße. SSa");
}

#[test]
fn the_next_letter_counts_whatever_stands_before_it() {
    assert_eq!(capitalize_after_period("(hello) there"), "(Hello) there");
    assert_eq!(capitalize_after_period("done. \"yes\" no"), "Done. \"Yes\" no");
    assert_eq!(capitalize_after_period("a. 42 more"), "A. 42 More");
}

#[test]
fn capitalizing_goes_by_the_case_it_is_given() {
    let one = |c: char, letter: bool, upper: &str| Cased { c, letter, upper: upper.chars().collect() };
    let chars = vec![one('x', false, "X"), one('y', true, "AB"), one('z', true, "Z")];
    assert_eq!(capitalize_cased(&chars), vec!['x', 'A', 'B', 'z']);
}

#[test]
fn stages_can_be_switched_off() {
    let none = PostprocessingConfig { hallucination_filter: false, spoken_punctuation: false };
    assert_eq!(process_text("thanks for watching", &none).as_deref(), Some("Thanks for watching"));
    assert_eq!(process_text("hello period", &none).as_deref(), Some("Hello period"));
    assert_eq!(process_text("um", &none).as_deref(), Some("Um"));
    let filter = PostprocessingConfig { hallucination_filter: true, spoken_punctuation: false };
    assert_eq!(process_text("um", &filter), None);
}

#[test]
fn nothing_but_white_space_is_dropped() {
    let config = default_config();
    assert_eq!(process_text("", &config), None);
    assert_eq!(process_text(" \t\n\u{2003}", &config), None);
    assert_eq!(process_text("new line", &config), None);
    assert_eq!(process_text("tab tab", &config), None);
}

#[test]
fn processed_text_has_no_outer_white_space() {
    let config = default_config();
    for text in ["  hello  ", "new line hello tab", "hello comma ", "\u{3000}hello\u{3000}"] {
        let out = process_text(text, &config).unwrap();
        assert_eq!(out.trim(), out);
        assert!(!out.is_empty());
    }
}

#[test]
fn text_without_commands_is_kept() {
    for text in ["hello there", "a,b", "日本語"] {
        assert_eq!(apply_spoken_punctuation(text), text);
    }
}

#[test]
fn pipeline_with_groups() {
    let config = default_config();
    assert_eq!(
        process_text("see open paren below close paren period thanks", &config).as_deref(),
        Some("See (below). Thanks")
    );
    assert_eq!(
        process_text("dear team comma new line we are done exclamation point", &config).as_deref(),
        Some("Dear team, \n we are done!")
    );
}

#[test]
fn upper_case_forms_are_plain() {
    assert!(('a'..='z').all(|c| c.is_alphabetic()));
    for c in ('\0'..=char::MAX).filter(|c| c.is_alphabetic()) {
        assert!(c.to_uppercase().count() > 0);
        for upper in c.to_uppercase() {
            assert!(!upper.is_whitespace(), "{c:?}");
            assert!(!",.;:!?()".contains(upper), "{c:?}");
            assert!(!upper.is_ascii_lowercase(), "{c:?}");
        }
    }
}

#[test]
fn without_commands_only_blank_and_filtered_texts_are_dropped() {
    let plain = PostprocessingConfig { hallucination_filter: false, spoken_punctuation: false };
    let filter = PostprocessingConfig { hallucination_filter: true, spoken_punctuation: false };
    for text in ["", " \t", "um", " um ", ".", "( )", "new line", "the end", "hello there"] {
        let blank = text.trim().is_empty();
        assert_eq!(process_text(text, &plain).is_none(), blank, "{text:?}");
        let caught = asr_rs::filter::is_hallucination(text.trim());
        assert_eq!(process_text(text, &filter).is_none(), blank || caught, "{text:?}");
    }
}

#[test]
fn processed_text_is_in_shape() {
    let config = default_config();
    for text in ["hello  ,  there", "open paren  hi there close paren", "( a ) b .c", "tab hello"] {
        let out = process_text(text, &config).unwrap();
        assert_eq!(fix_spacing(&out), out);
        assert!(!out.starts_with(|c: char| c.is_ascii_lowercase()));
    }
}

#[test]
fn spacing_keeps_line_breaks() {
    assert_eq!(fix_spacing("a \n , b"), "a \n, b");
    assert_eq!(fix_spacing("(\n  )"), "(\n)");
}

#[test]
fn letters_and_their_case_bear_out_the_promises() {
    let all: String = ('\0'..=char::MAX).collect();
    assert!(has_plain_case(&all));
    for c in '\0'..=char::MAX {
        assert_eq!(has_lasting_text(&c.to_string()), !c.is_whitespace(), "{c:?}");
    }
    assert!(has_plain_case(""));
    assert!(!has_lasting_text(""));
    assert!(!has_lasting_text(" \t\n"));
    assert!(has_lasting_text(" a "));
}

#[test]
fn every_text_keeps_its_shape() {
    let plain = PostprocessingConfig { hallucination_filter: false, spoken_punctuation: false };
    for text in ["", "  ", "um", "a", "ßs", "hello comma there", "( a ) .b", "\u{149}x", "tab a"] {
        assert!(keeps_shape(text, &default_config()), "{text:?}");
        assert!(keeps_shape(text, &plain), "{text:?}");
        assert_eq!(process_text(text, &plain).is_none(), text.trim().is_empty(), "{text:?}");
        for config in [default_config(), plain] {
            if let Some(out) = process_text(text, &config) {
                assert_eq!(fix_spacing(&out), out, "{text:?}");
                assert!(!out.starts_with(|c: char| c.is_ascii_lowercase()), "{text:?}");
            }
        }
    }
}
