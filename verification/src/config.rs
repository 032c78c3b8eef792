//! The configuration and its defaults.

use crate::text;
use vstd::prelude::*;

verus! {

/// The whole configuration.
#[derive(Debug)]
pub struct Config {
    pub backend: BackendConfig,
    pub audio: AudioConfig,
    pub injection: InjectionConfig,
    pub postprocessing: PostprocessingConfig,
}

/// The speech server.
#[derive(Debug)]
pub struct BackendConfig {
    pub url: String,
    pub frame_threshold: u32,
}

/// The microphone.
#[derive(Debug)]
pub struct AudioConfig {
    pub device: String,
}

/// How text reaches the focused window.
#[derive(Debug)]
pub struct InjectionConfig {
    /// Ordered list of drivers to try.
    pub driver_order: Vec<String>,
    /// Paste keystroke for the paste driver.
    pub paste_keys: String,
    /// App IDs that trigger paste mode instead of direct typing.
    pub terminal_app_ids: Vec<String>,
    /// Whether the focused window decides between the default and the terminal drivers.
    pub niri_detect: bool,
}

/// What is done to the transcript before it is injected.
#[derive(Debug, Clone, Copy)]
pub struct PostprocessingConfig {
    pub hallucination_filter: bool,
    pub spoken_punctuation: bool,
}

impl BackendConfig {
    /// The server on this machine, at a balanced threshold.
    pub open spec fn is_default(self) -> bool {
        self.url@ == "ws://localhost:8000/asr"@ && self.frame_threshold == 25
    }
}

impl AudioConfig {
    /// The input device that the system prefers.
    pub open spec fn is_default(self) -> bool {
        self.device@ == "default"@
    }
}

impl InjectionConfig {
    /// Typing before the clipboard, and pasting into the usual terminals.
    pub open spec fn is_default(self) -> bool {
        &&& text::texts(self.driver_order@) == seq!["wtype"@, "dotool"@, "clipboard"@]
        &&& self.paste_keys@ == "ctrl+shift+v"@
        &&& text::texts(self.terminal_app_ids@) == seq!["kitty"@, "foot"@, "Alacritty"@]
        &&& self.niri_detect
    }
}

impl PostprocessingConfig {
    /// Everything switched on.
    pub open spec fn is_default(self) -> bool {
        self.hallucination_filter && self.spoken_punctuation
    }
}

impl Default for BackendConfig {
    fn default() -> (config: Self)
        ensures
            config.is_default(),
    {
        BackendConfig { url: "ws://localhost:8000/asr".to_string(), frame_threshold: 25 }
    }
}

impl Default for AudioConfig {
    fn default() -> (config: Self)
        ensures
            config.is_default(),
    {
        AudioConfig { device: "default".to_string() }
    }
}

impl Default for InjectionConfig {
    fn default() -> (config: Self)
        ensures
            config.is_default(),
    {
        let config = InjectionConfig {
            driver_order: vec!["wtype".to_string(), "dotool".to_string(), "clipboard".to_string()],
            paste_keys: "ctrl+shift+v".to_string(),
            terminal_app_ids: vec![
                "kitty".to_string(),
                "foot".to_string(),
                "Alacritty".to_string(),
            ],
            niri_detect: true,
        };
        proof {
            assert(text::texts(config.driver_order@) =~= seq![
                "wtype"@,
                "dotool"@,
                "clipboard"@,
            ]);
            assert(text::texts(config.terminal_app_ids@) =~= seq![
                "kitty"@,
                "foot"@,
                "Alacritty"@,
            ]);
        }
        config
    }
}

impl Default for PostprocessingConfig {
    fn default() -> (config: Self)
        ensures
            config.is_default(),
    {
        PostprocessingConfig { hallucination_filter: true, spoken_punctuation: true }
    }
}

impl Default for Config {
    fn default() -> (config: Self)
        ensures
            config.backend.is_default(),
            config.audio.is_default(),
            config.injection.is_default(),
            config.postprocessing.is_default(),
    {
        Config {
            backend: BackendConfig::default(),
            audio: AudioConfig::default(),
            injection: InjectionConfig::default(),
            postprocessing: PostprocessingConfig::default(),
        }
    }
}

} // verus!
