use asr_rs::config::InjectionConfig;
use asr_rs::drivers::{Driver, PasteInjector};
use asr_rs::inject::{
    build_chain, command_result, create_injector, make_driver, sanitize_for_injection,
    CommandOutcome, Delivery, Fallback, FallbackStep, InjectError, Injector, InjectorChain, NiriAwareInjector,
    TextInjector,
};
use std::sync::atomic::{AtomicUsize, Ordering};
use std::sync::Arc;

/// Mock injector that tracks calls and can be configured to fail.
struct MockInjector {
    name: &'static str,
    available: bool,
    should_fail: bool,
    call_count: Arc<AtomicUsize>,
}

impl TextInjector for MockInjector {
    fn inject(&self, _text: &str) -> Result<(), InjectError> {
        self.call_count.fetch_add(1, Ordering::SeqCst);
        if self.should_fail {
            Err(InjectError::Driver(format!("{} mock failure", self.name)))
        } else {
            Ok(())
        }
    }

    fn is_available(&self) -> bool {
        self.available
    }

    fn name(&self) -> &'static str {
        self.name
    }
}

fn mock(available: bool, should_fail: bool, call_count: &Arc<AtomicUsize>) -> MockInjector {
    MockInjector { name: "mock", available, should_fail, call_count: call_count.clone() }
}

#[test]
fn chain_uses_first_available() {
    let c1 = Arc::new(AtomicUsize::new(0));
    let c2 = Arc::new(AtomicUsize::new(0));
    let chain = InjectorChain::new(vec![
        MockInjector { name: "first", available: true, should_fail: false, call_count: c1.clone() },
        MockInjector { name: "second", available: true, should_fail: false, call_count: c2.clone() },
    ]);
    chain.inject("hello").unwrap();
    assert_eq!(c1.load(Ordering::SeqCst), 1);
    assert_eq!(c2.load(Ordering::SeqCst), 0);
}

#[test]
fn chain_skips_unavailable() {
    let c1 = Arc::new(AtomicUsize::new(0));
    let c2 = Arc::new(AtomicUsize::new(0));
    let chain = InjectorChain::new(vec![
        MockInjector { name: "first", available: false, should_fail: false, call_count: c1.clone() },
        MockInjector { name: "second", available: true, should_fail: false, call_count: c2.clone() },
    ]);
    chain.inject("hello").unwrap();
    assert_eq!(c1.load(Ordering::SeqCst), 0);
    assert_eq!(c2.load(Ordering::SeqCst), 1);
}

#[test]
fn chain_falls_back_on_failure() {
    let c1 = Arc::new(AtomicUsize::new(0));
    let c2 = Arc::new(AtomicUsize::new(0));
    let chain = InjectorChain::new(vec![
        MockInjector { name: "first", available: true, should_fail: true, call_count: c1.clone() },
        MockInjector { name: "second", available: true, should_fail: false, call_count: c2.clone() },
    ]);
    chain.inject("hello").unwrap();
    assert_eq!(c1.load(Ordering::SeqCst), 1);
    assert_eq!(c2.load(Ordering::SeqCst), 1);
}

#[test]
fn chain_all_fail_returns_error() {
    let c1 = Arc::new(AtomicUsize::new(0));
    let chain = InjectorChain::new(vec![MockInjector {
        name: "only",
        available: true,
        should_fail: true,
        call_count: c1,
    }]);
    assert!(chain.inject("hello").is_err());
}

#[test]
fn chain_is_available_any() {
    let chain = InjectorChain::new(vec![
        MockInjector {
            name: "a",
            available: false,
            should_fail: false,
            call_count: Arc::new(AtomicUsize::new(0)),
        },
        MockInjector {
            name: "b",
            available: true,
            should_fail: false,
            call_count: Arc::new(AtomicUsize::new(0)),
        },
    ]);
    assert!(chain.is_available());
}

#[test]
fn chain_error_names_no_single_driver() {
    let calls = Arc::new(AtomicUsize::new(0));
    let chain = InjectorChain::new(vec![mock(true, true, &calls), mock(false, false, &calls)]);
    let error = chain.inject("hello").unwrap_err();
    assert!(matches!(error, InjectError::AllMethodsFailed));
    assert_eq!(error.message(), "all injection methods failed");
    assert_eq!(calls.load(Ordering::SeqCst), 1);
    assert_eq!(chain.name(), "chain");
}

#[test]
fn empty_chain_fails_and_is_unavailable() {
    let chain: InjectorChain<MockInjector> = InjectorChain::new(Vec::new());
    assert!(chain.inject("hello").is_err());
    assert!(!chain.is_available());
}

#[test]
fn driver_error_carries_its_reason() {
    let calls = Arc::new(AtomicUsize::new(0));
    let error = mock(true, true, &calls).inject("x").unwrap_err();
    assert_eq!(error.message(), "mock mock failure");
}

#[test]
fn paste_injector_parses_keys() {
    let p = PasteInjector::new("ctrl+shift+v");
    assert_eq!(p.modifiers, vec!["ctrl", "shift"]);
    assert_eq!(p.key, "v");
}

#[test]
fn paste_injector_single_key() {
    let p = PasteInjector::new("v");
    assert!(p.modifiers.is_empty());
    assert_eq!(p.key, "v");
}

#[test]
fn paste_injector_odd_keys() {
    let p = PasteInjector::new("");
    assert!(p.modifiers.is_empty());
    assert_eq!(p.key, "");
    let p = PasteInjector::new("+ctrl++");
    assert_eq!(p.modifiers, vec!["", "ctrl", ""]);
    assert_eq!(p.key, "");
}

#[test]
fn keystroke_parts_join_to_the_keystroke() {
    for keys in ["ctrl+shift+v", "v", "", "+", "a++b", "é+ñ"] {
        let p = PasteInjector::new(keys);
        let mut parts = p.modifiers;
        parts.push(p.key);
        assert_eq!(parts.join("+"), keys);
        assert!(parts.iter().all(|part| !part.contains('+')));
    }
}

fn terminal_aware(ids: &[&str]) -> NiriAwareInjector<MockInjector> {
    NiriAwareInjector::new(
        InjectorChain::new(Vec::new()),
        InjectorChain::new(Vec::new()),
        ids.iter().map(|id| id.to_string()).collect(),
    )
}

#[test]
fn niri_ipc_json_parsing() {
    let json = r#"{"id":12,"title":"~","app_id":"kitty","workspace_id":6,"is_focused":true}"#;
    let v: serde_json::Value = serde_json::from_str(json).unwrap();
    let app_id = v.get("app_id").and_then(|v| v.as_str()).unwrap();
    assert_eq!(app_id, "kitty");

    let aware = terminal_aware(&["kitty", "foot"]);
    assert!(aware.is_terminal(app_id));
    assert!(aware.is_terminal_focused(Some(json.as_bytes())));
}

#[test]
fn niri_ipc_non_terminal() {
    let json =
        r#"{"id":5,"title":"Firefox","app_id":"firefox","workspace_id":1,"is_focused":true}"#;
    let v: serde_json::Value = serde_json::from_str(json).unwrap();
    let app_id = v.get("app_id").and_then(|v| v.as_str()).unwrap();

    let aware = terminal_aware(&["kitty", "foot"]);
    assert!(!aware.is_terminal(app_id));
    assert!(!aware.is_terminal_focused(Some(json.as_bytes())));
}

#[test]
fn niri_ipc_null_response() {
    // niri returns "null" when no window is focused
    let json = "null";
    let v: serde_json::Value = serde_json::from_str(json).unwrap();
    let app_id = v.get("app_id").and_then(|v| v.as_str());
    assert!(app_id.is_none());

    assert!(!terminal_aware(&["kitty", "foot"]).is_terminal_focused(Some(json.as_bytes())));
}

#[test]
fn niri_answers_without_an_app_count_as_no_terminal() {
    let aware = terminal_aware(&["kitty", "", "null"]);
    assert!(!aware.is_terminal_focused(None));
    assert!(!aware.is_terminal_focused(Some(b"")));
    assert!(!aware.is_terminal_focused(Some(b"{not json")));
    assert!(!aware.is_terminal_focused(Some(b"[\"kitty\"]")));
    assert!(!aware.is_terminal_focused(Some(b"{\"app_id\":null}")));
    assert!(!aware.is_terminal_focused(Some(b"{\"app_id\":7}")));
    assert!(!aware.is_terminal_focused(Some(b"{\"app\":\"kitty\"}")));
    assert!(aware.is_terminal_focused(Some(b" {\"app_id\":\"ki\\u0074ty\"} ")));
}

#[test]
fn focus_picks_the_chain() {
    let gui = Arc::new(AtomicUsize::new(0));
    let terminal = Arc::new(AtomicUsize::new(0));
    let aware = NiriAwareInjector::new(
        InjectorChain::new(vec![mock(true, false, &gui)]),
        InjectorChain::new(vec![mock(true, false, &terminal)]),
        vec!["foot".to_string()],
    );
    aware.inject(Some(b"{\"app_id\":\"foot\"}"), "hello").unwrap();
    assert_eq!((gui.load(Ordering::SeqCst), terminal.load(Ordering::SeqCst)), (0, 1));
    aware.inject(Some(b"{\"app_id\":\"firefox\"}"), "hello").unwrap();
    assert_eq!((gui.load(Ordering::SeqCst), terminal.load(Ordering::SeqCst)), (1, 1));
    aware.inject(None, "hello").unwrap();
    assert_eq!((gui.load(Ordering::SeqCst), terminal.load(Ordering::SeqCst)), (2, 1));
    assert_eq!(aware.name(), "niri-aware");
}

#[test]
fn either_chain_makes_it_available() {
    let calls = Arc::new(AtomicUsize::new(0));
    for (first, second) in [(false, false), (false, true), (true, false), (true, true)] {
        let aware = NiriAwareInjector::new(
            InjectorChain::new(vec![mock(first, false, &calls)]),
            InjectorChain::new(vec![mock(second, false, &calls)]),
            Vec::new(),
        );
        assert_eq!(aware.is_available(), first || second);
    }
}

#[test]
fn line_terminators_become_spaces() {
    assert_eq!(
        sanitize_for_injection("a\nb\rc\u{0B}d\u{0C}e\u{85}f\u{2028}g\u{2029}h"),
        "a b c d e f g h"
    );
    assert_eq!(sanitize_for_injection("tab\tand space"), "tab\tand space");
    assert_eq!(sanitize_for_injection(""), "");
}

#[test]
fn sanitizing_touches_nothing_else() {
    let all: String = ('\0'..=char::MAX).collect();
    let clean = sanitize_for_injection(&all);
    assert_eq!(clean.chars().count(), all.chars().count());
    for (before, after) in all.chars().zip(clean.chars()) {
        match before {
            '\n' | '\r' | '\u{0B}' | '\u{0C}' | '\u{85}' | '\u{2028}' | '\u{2029}' => {
                assert_eq!(after, ' ')
            }
            _ => assert_eq!(after, before),
        }
    }
    assert_eq!(sanitize_for_injection(&clean), clean);
}

fn names(chain: &InjectorChain<Driver>) -> Vec<&'static str> {
    chain.drivers.iter().map(|driver| driver.name()).collect()
}

#[test]
fn drivers_are_made_by_name() {
    for name in ["wtype", "dotool", "clipboard", "paste"] {
        assert_eq!(make_driver(name, "ctrl+v").unwrap().name(), name);
    }
    assert!(make_driver("xdotool", "ctrl+v").is_none());
    assert!(make_driver("", "ctrl+v").is_none());
    assert!(make_driver("Wtype", "ctrl+v").is_none());
}

#[test]
fn chain_keeps_order_and_skips_unknown_names() {
    let order: Vec<String> = ["paste", "nope", "wtype", "paste"].map(String::from).to_vec();
    let chain = build_chain(&order, "ctrl+v");
    assert_eq!(names(&chain), vec!["paste", "wtype", "paste"]);
    assert!(names(&build_chain(&[], "ctrl+v")).is_empty());
}

#[test]
fn default_config_makes_both_chains() {
    match create_injector(&InjectionConfig::default()) {
        Injector::NiriAware(aware) => {
            assert_eq!(names(&aware.default_chain), vec!["wtype", "dotool", "clipboard"]);
            assert_eq!(names(&aware.terminal_chain), vec!["paste", "clipboard"]);
            assert_eq!(aware.terminal_app_ids, vec!["kitty", "foot", "Alacritty"]);
            match &aware.terminal_chain.drivers[0] {
                Driver::Paste(paste) => assert_eq!(paste.modifiers, vec!["ctrl", "shift"]),
                other => panic!("{other:?}"),
            }
        }
        Injector::Chain(_) => panic!("a chain alone"),
    }
}

#[test]
fn without_detection_there_is_one_chain() {
    let mut config = InjectionConfig::default();
    config.niri_detect = false;
    config.driver_order = vec!["clipboard".to_string()];
    match create_injector(&config) {
        Injector::Chain(chain) => assert_eq!(names(&chain), vec!["clipboard"]),
        Injector::NiriAware(_) => panic!("two chains"),
    }
}

#[test]
fn wtype_gets_the_text_after_a_separator() {
    let driver = make_driver("wtype", "v").unwrap();
    let plan = driver.plan("-M ctrl");
    assert_eq!(plan.len(), 1);
    assert_eq!(plan[0].program, "wtype");
    assert_eq!(plan[0].args, vec!["--", "-M ctrl"]);
    assert!(plan[0].stdin.is_none());
    assert_eq!(driver.programs(), vec!["wtype"]);
}

#[test]
fn dotool_gets_a_type_command() {
    let driver = make_driver("dotool", "v").unwrap();
    let plan = driver.plan("hello there");
    assert_eq!(plan.len(), 1);
    assert_eq!(plan[0].program, "dotoolc");
    assert!(plan[0].args.is_empty());
    assert_eq!(plan[0].stdin.as_deref(), Some("type hello there"));
    assert_eq!(driver.programs(), vec!["dotoolc"]);
}

#[test]
fn clipboard_gets_the_text_alone() {
    let driver = make_driver("clipboard", "v").unwrap();
    let plan = driver.plan("hello");
    assert_eq!(plan.len(), 1);
    assert_eq!(plan[0].program, "wl-copy");
    assert!(plan[0].args.is_empty());
    assert_eq!(plan[0].stdin.as_deref(), Some("hello"));
    assert_eq!(driver.programs(), vec!["wl-copy"]);
}

#[test]
fn paste_copies_and_then_presses_the_key() {
    let driver = make_driver("paste", "ctrl+shift+v").unwrap();
    let plan = driver.plan("hello");
    assert_eq!(plan.len(), 2);
    assert_eq!(plan[0].program, "wl-copy");
    assert_eq!(plan[0].stdin.as_deref(), Some("hello"));
    assert_eq!(plan[1].program, "wtype");
    assert_eq!(
        plan[1].args,
        vec!["-M", "ctrl", "-M", "shift", "-k", "v", "-m", "shift", "-m", "ctrl"]
    );
    assert!(plan[1].stdin.is_none());
    assert_eq!(driver.programs(), vec!["wl-copy", "wtype"]);
}

#[test]
fn empty_text_runs_nothing() {
    for name in ["wtype", "dotool", "clipboard", "paste"] {
        let driver = make_driver(name, "ctrl+v").unwrap();
        assert!(driver.plan("").is_empty());
        assert!(Delivery::new(&driver, "").next().is_none());
    }
}

#[test]
fn drivers_run_only_programs_that_they_need() {
    for name in ["wtype", "dotool", "clipboard", "paste"] {
        let driver = make_driver(name, "ctrl+v").unwrap();
        let needed = driver.programs();
        assert!(driver.plan("x").iter().all(|command| needed.contains(&command.program)));
    }
}

#[test]
fn delivery_runs_the_commands_in_order() {
    let driver = make_driver("paste", "v").unwrap();
    let mut delivery = Delivery::new(&driver, "hello");
    let ok = || CommandOutcome::Ended { success: true, status: "exit status: 0".to_string() };
    assert_eq!(delivery.next().unwrap().program, "wl-copy");
    assert!(delivery.report(ok()).is_ok());
    assert_eq!(delivery.next().unwrap().program, "wtype");
    assert!(delivery.report(ok()).is_ok());
    assert!(delivery.next().is_none());
}

#[test]
fn delivery_stops_at_the_first_failure() {
    let driver = make_driver("paste", "v").unwrap();
    let mut delivery = Delivery::new(&driver, "hello");
    let error = delivery
        .report(CommandOutcome::Ended { success: false, status: "exit status: 1".to_string() })
        .unwrap_err();
    assert_eq!(error.message(), "wl-copy exited with exit status: 1");
    assert!(delivery.next().is_none());
}

#[test]
fn command_errors_say_what_failed() {
    let plan = make_driver("paste", "v").unwrap().plan("hello");
    let failed = |n: usize, outcome: CommandOutcome| {
        command_result(&plan[n], outcome).unwrap_err().message()
    };
    assert_eq!(failed(0, CommandOutcome::NotStarted), "failed to run wl-copy");
    assert_eq!(failed(1, CommandOutcome::NotStarted), "failed to run wtype for paste");
    assert_eq!(failed(0, CommandOutcome::Broken("broken pipe".to_string())), "broken pipe");
    let ended = CommandOutcome::Ended { success: false, status: "signal: 9".to_string() };
    assert_eq!(failed(1, ended), "wtype paste exited with signal: 9");
    let dotool = make_driver("dotool", "v").unwrap().plan("x");
    let ended = CommandOutcome::Ended { success: false, status: "exit status: 2".to_string() };
    assert_eq!(
        command_result(&dotool[0], ended).unwrap_err().message(),
        "dotoolc exited with exit status: 2"
    );
    let wtype = make_driver("wtype", "v").unwrap().plan("x");
    assert_eq!(
        command_result(&wtype[0], CommandOutcome::NotStarted).unwrap_err().message(),
        "failed to run wtype"
    );
}

#[test]
fn walk_along_a_chain_asks_each_driver_once() {
    // Every chain of up to four drivers, each unavailable, failing or succeeding.
    for count in 0..5u32 {
        for code in 0..3usize.pow(count) {
            let kinds: Vec<usize> =
                (0..count).map(|place| code / 3usize.pow(place) % 3).collect();
            let mut walk = Fallback::new(kinds.len());
            let (mut asked, mut injected) = (Vec::new(), Vec::new());
            loop {
                match walk.next() {
                    FallbackStep::AskAvailable(n) => {
                        asked.push(n);
                        walk.report(kinds[n] != 0);
                    }
                    FallbackStep::Inject(n) => {
                        injected.push(n);
                        walk.report(kinds[n] == 2);
                    }
                    FallbackStep::Finished => break,
                }
            }
            let first = kinds.iter().position(|kind| *kind == 2);
            let last = first.map_or(kinds.len(), |n| n + 1);
            assert_eq!(walk.delivered, first.is_some());
            assert_eq!(asked, (0..last).collect::<Vec<usize>>());
            assert_eq!(
                injected,
                (0..last).filter(|n| kinds[*n] != 0).collect::<Vec<usize>>()
            );
        }
    }
}

#[test]
fn only_the_chosen_chain_is_used() {
    let gui = Arc::new(AtomicUsize::new(0));
    let terminal = Arc::new(AtomicUsize::new(0));
    let aware = NiriAwareInjector::new(
        InjectorChain::new(vec![mock(true, false, &gui)]),
        InjectorChain::new(vec![mock(true, true, &terminal), mock(true, true, &terminal)]),
        vec!["foot".to_string()],
    );
    let focused: Option<&[u8]> = Some(b"{\"app_id\":\"foot\"}");
    assert_eq!(aware.chain_for(focused).drivers.len(), 2);
    assert_eq!(aware.chain_for(None).drivers.len(), 1);
    assert!(aware.inject(focused, "hello").is_err());
    assert_eq!((gui.load(Ordering::SeqCst), terminal.load(Ordering::SeqCst)), (0, 2));
}
