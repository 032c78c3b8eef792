use asr_rs::tracker::{Line, SegmentTracker};

fn lines(texts: &[&str]) -> Vec<Line> {
    texts.iter().map(|text| Line { text: text.to_string() }).collect()
}

fn feed(tracker: &mut SegmentTracker, texts: &[&str]) -> Vec<String> {
    tracker.process_snapshot(&lines(texts))
}

#[test]
fn growing_line_gives_only_what_is_new() {
    let mut tracker = SegmentTracker::new();
    assert_eq!(feed(&mut tracker, &["Hello"]), vec!["Hello"]);
    assert_eq!(feed(&mut tracker, &["Hello world"]), vec!["world"]);
    assert_eq!(feed(&mut tracker, &["Hello world."]), vec!["."]);
}

#[test]
fn new_lines_come_with_the_rest_of_the_old_one() {
    let mut tracker = SegmentTracker::new();
    feed(&mut tracker, &["Hello"]);
    assert_eq!(
        feed(&mut tracker, &["Hello there.", " How are you? ", "  ", "Fine"]),
        vec!["there.", "How are you?", "Fine"]
    );
}

#[test]
fn first_snapshot_with_several_lines() {
    let mut tracker = SegmentTracker::new();
    assert_eq!(feed(&mut tracker, &["One. ", "Two.", " Thr"]), vec!["One.", "Two.", "Thr"]);
}

#[test]
fn repeated_snapshot_gives_nothing() {
    let mut tracker = SegmentTracker::new();
    feed(&mut tracker, &["One.", "Two"]);
    assert!(feed(&mut tracker, &["One.", "Two"]).is_empty());
}

#[test]
fn empty_snapshots_are_ignored() {
    let mut tracker = SegmentTracker::new();
    assert!(feed(&mut tracker, &[]).is_empty());
    feed(&mut tracker, &["One"]);
    assert!(feed(&mut tracker, &[]).is_empty());
    assert_eq!(feed(&mut tracker, &["One two"]), vec!["two"]);
}

#[test]
fn fewer_lines_resync() {
    let mut tracker = SegmentTracker::new();
    feed(&mut tracker, &["One.", "Two.", "Three"]);
    assert!(feed(&mut tracker, &["One.", "Twofold"]).is_empty());
    assert_eq!(feed(&mut tracker, &["One.", "Twofold now"]), vec!["now"]);
}

#[test]
fn shorter_line_resyncs() {
    let mut tracker = SegmentTracker::new();
    feed(&mut tracker, &["Hello world"]);
    assert!(feed(&mut tracker, &["Hello"]).is_empty());
    assert_eq!(feed(&mut tracker, &["Hello you"]), vec!["you"]);
}

#[test]
fn lines_grow_in_characters() {
    let mut tracker = SegmentTracker::new();
    assert_eq!(feed(&mut tracker, &["été"]), vec!["été"]);
    assert_eq!(feed(&mut tracker, &["eté à"]), vec!["à"]);
    assert_eq!(feed(&mut tracker, &["eté à 日本"]), vec!["日本"]);
}

#[test]
fn deltas_make_up_the_transcript() {
    let mut tracker = SegmentTracker::new();
    let mut injected: Vec<String> = Vec::new();
    for snapshot in [
        vec!["So"],
        vec!["So we"],
        vec!["So we start.", "Then"],
        vec!["So we start.", "Then we go on.", "", "And"],
        vec!["So we start.", "Then we go on.", "", "And end."],
    ] {
        injected.extend(feed(&mut tracker, &snapshot));
    }
    let ink = |s: &str| s.chars().filter(|c| !c.is_whitespace()).collect::<String>();
    assert_eq!(ink(&injected.concat()), ink("So we start. Then we go on. And end."));
}

#[test]
fn deltas_are_never_blank() {
    let mut tracker = SegmentTracker::new();
    assert!(feed(&mut tracker, &["   "]).is_empty());
    assert!(feed(&mut tracker, &["     ", " ", "\u{3000}"]).is_empty());
    let deltas = feed(&mut tracker, &["     ", " ", "\u{3000} x"]);
    assert_eq!(deltas, vec!["x"]);
}
