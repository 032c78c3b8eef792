use asr_rs::config::{AudioConfig, BackendConfig, Config, InjectionConfig, PostprocessingConfig};
use asr_rs::text::{contains, same_text, starts_with, trim, trim_start};

#[test]
fn white_space_is_that_of_unicode() {
    for c in '\0'..=char::MAX {
        let text = format!("{c}x{c}");
        assert_eq!(trim(&text) == "x", c.is_whitespace(), "{c:?}");
    }
}

#[test]
fn trimming_matches_the_standard_library() {
    for text in ["", "  ", " a ", "\ta b\n", "\u{85}é\u{3000}", "\u{200B}x", "日 本 "] {
        assert_eq!(trim(text), text.trim());
        assert_eq!(trim_start(text), text.trim_start());
    }
}

#[test]
fn searching_matches_the_standard_library() {
    let texts = ["", "a", "ab", "aab", "abab", "é", "éa", "日本"];
    for text in texts {
        for part in texts {
            assert_eq!(contains(text, part), text.contains(part), "{text} {part}");
            assert_eq!(starts_with(text, part), text.starts_with(part), "{text} {part}");
            assert_eq!(same_text(text, part), text == part);
        }
    }
}

#[test]
fn defaults() {
    let config = Config::default();
    assert_eq!(config.backend.url, "ws://localhost:8000/asr");
    assert_eq!(config.backend.frame_threshold, 25);
    assert_eq!(config.audio.device, "default");
    assert_eq!(config.injection.driver_order, vec!["wtype", "dotool", "clipboard"]);
    assert_eq!(config.injection.paste_keys, "ctrl+shift+v");
    assert_eq!(config.injection.terminal_app_ids, vec!["kitty", "foot", "Alacritty"]);
    assert!(config.injection.niri_detect);
    assert!(config.postprocessing.hallucination_filter);
    assert!(config.postprocessing.spoken_punctuation);
    assert_eq!(BackendConfig::default().url, config.backend.url);
    assert_eq!(AudioConfig::default().device, config.audio.device);
    assert_eq!(InjectionConfig::default().paste_keys, config.injection.paste_keys);
    assert!(PostprocessingConfig::default().spoken_punctuation);
}
