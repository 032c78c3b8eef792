use asr_rs::config::PostprocessingConfig;
use asr_rs::inject::{InjectError, TextInjector};
use asr_rs::session::{
    closing_frames, inject_all, make_chunk, send_step, session_result, ChunkWalk, ClosingFrame,
    ReceiveStep, Received, Receiver, SendStep, SessionError,
};
use asr_rs::tracker::Line;
use std::sync::Mutex;

/// Keeps what it is given, and fails on the text that it is told to fail on.
struct Page {
    texts: Mutex<Vec<String>>,
    refuses: &'static str,
}

impl TextInjector for Page {
    fn inject(&self, text: &str) -> Result<(), InjectError> {
        if text == self.refuses {
            return Err(InjectError::AllMethodsFailed);
        }
        self.texts.lock().unwrap().push(text.to_string());
        Ok(())
    }

    fn is_available(&self) -> bool {
        true
    }

    fn name(&self) -> &'static str {
        "page"
    }
}

fn receiver() -> Receiver {
    Receiver::new(PostprocessingConfig::default())
}

fn snapshot(texts: &[&str]) -> Received {
    Received::Snapshot(texts.iter().map(|text| Line { text: text.to_string() }).collect())
}

fn injected(step: ReceiveStep) -> Vec<String> {
    match step {
        ReceiveStep::Inject(texts) => texts,
        other => panic!("{other:?}"),
    }
}

#[test]
fn first_chunk_of_a_session_gets_no_space() {
    let mut receiver = receiver();
    assert!(injected(receiver.step(snapshot(&["um"]))).is_empty());
    assert_eq!(injected(receiver.step(snapshot(&["um", "hello"]))), vec!["Hello"]);
    assert_eq!(injected(receiver.step(snapshot(&["um", "hello world"]))), vec![" World"]);
    assert_eq!(
        injected(receiver.step(snapshot(&["um", "hello world", "how are you"]))),
        vec![" How are you"]
    );
}

#[test]
fn chunks_of_one_snapshot_are_spaced() {
    let mut receiver = receiver();
    assert_eq!(
        injected(receiver.step(snapshot(&["one two", "uh", "three four", "five six"]))),
        vec!["One two", " Three four", " Five six"]
    );
}

#[test]
fn attaching_punctuation_gets_no_space() {
    for mark in ['.', ',', '?', '!', ':', ';', ')', ']', '}'] {
        let text = format!("{mark} abc");
        assert_eq!(make_chunk(&text, false), text);
        assert_eq!(make_chunk(&text, true), text);
    }
    for other in ["abc", "(abc", "[abc", "{abc", "-abc", "\"abc", "'abc", "日本"] {
        assert_eq!(make_chunk(other, false), format!(" {other}"));
        assert_eq!(make_chunk(other, true), other);
    }
    assert_eq!(make_chunk("", false), " ");
    assert_eq!(make_chunk("", true), "");
}

#[test]
fn chunks_hold_no_line_breaks() {
    assert_eq!(make_chunk("a\nb\u{2028}c", false), " a b c");
    let mut receiver = receiver();
    assert_eq!(
        injected(receiver.step(snapshot(&["first line new line second line"]))),
        vec!["First line   second line"]
    );
}

#[test]
fn other_messages_leave_the_session_waiting() {
    let mut receiver = receiver();
    assert!(matches!(receiver.step(Received::OtherText), ReceiveStep::Wait));
    assert!(matches!(receiver.step(Received::OtherFrame), ReceiveStep::Wait));
    assert_eq!(injected(receiver.step(snapshot(&["hello"]))), vec!["Hello"]);
}

#[test]
fn the_end_of_a_connection_ends_the_session() {
    assert!(matches!(receiver().step(Received::CloseFrame), ReceiveStep::Finish));
    assert!(matches!(receiver().step(Received::Ended), ReceiveStep::Finish));
    assert!(matches!(receiver().step(Received::Shutdown), ReceiveStep::Finish));
}

#[test]
fn failed_receiving_ends_with_its_error() {
    match receiver().step(Received::Failed("reset".to_string())) {
        ReceiveStep::Fail(error) => assert_eq!(error.message(), "ws recv error: reset"),
        other => panic!("{other:?}"),
    }
}

#[test]
fn texts_are_injected_in_order() {
    let page = Page { texts: Mutex::new(Vec::new()), refuses: "never" };
    let texts = vec!["One".to_string(), " two".to_string()];
    assert!(inject_all(&page, &texts).is_ok());
    assert_eq!(*page.texts.lock().unwrap(), texts);
    assert!(inject_all(&page, &Vec::new()).is_ok());
}

#[test]
fn injection_stops_at_the_first_failure() {
    let page = Page { texts: Mutex::new(Vec::new()), refuses: "b" };
    let texts = vec!["a".to_string(), "b".to_string(), "c".to_string()];
    let error = inject_all(&page, &texts).unwrap_err();
    assert!(matches!(error, SessionError::Injection(InjectError::AllMethodsFailed)));
    assert_eq!(error.message(), "all injection methods failed");
    assert_eq!(*page.texts.lock().unwrap(), vec!["a"]);
}

#[test]
fn audio_is_sent_only_where_there_is_any() {
    assert!(matches!(send_step(Vec::new()), SendStep::Wait));
    match send_step(vec![1, 2]) {
        SendStep::Audio(bytes) => assert_eq!(bytes, vec![1, 2]),
        other => panic!("{other:?}"),
    }
}

#[test]
fn a_session_ends_with_an_empty_frame_and_a_close() {
    let frames = closing_frames();
    assert_eq!(frames.len(), 2);
    assert!(matches!(&frames[0], ClosingFrame::Binary(bytes) if bytes.is_empty()));
    assert!(matches!(&frames[1], ClosingFrame::Close));
}

#[test]
fn send_errors_come_before_receive_errors() {
    let send = || Err(SessionError::Send("gone".to_string()));
    let receive = || Err(SessionError::Receive("reset".to_string()));
    assert!(session_result(Ok(()), Ok(())).is_ok());
    assert_eq!(session_result(send(), Ok(())).unwrap_err().message(), "ws send error: gone");
    assert_eq!(session_result(Ok(()), receive()).unwrap_err().message(), "ws recv error: reset");
    assert_eq!(session_result(send(), receive()).unwrap_err().message(), "ws send error: gone");
}

#[test]
fn spread_over_snapshots_makes_no_difference() {
    let mut at_once = receiver();
    let all = injected(at_once.step(snapshot(&["one two.", "three four.", "five six"])));
    let mut spread = receiver();
    let mut parts = injected(spread.step(snapshot(&["one two."])));
    parts.extend(injected(spread.step(snapshot(&["one two.", "three four."]))));
    parts.extend(injected(spread.step(snapshot(&["one two.", "three four.", "five six"]))));
    assert_eq!(parts, all);
    assert_eq!(parts, vec!["One two.", " Three four.", " Five six"]);
}

#[test]
fn refused_injection_ends_the_session() {
    let mut receiver = receiver();
    let error = SessionError::Injection(InjectError::AllMethodsFailed);
    match receiver.step(Received::Refused(error)) {
        ReceiveStep::Fail(error) => assert_eq!(error.message(), "all injection methods failed"),
        other => panic!("{other:?}"),
    }
    assert!(matches!(receiver.step(snapshot(&["hello"])), ReceiveStep::Finish));
    assert!(matches!(receiver.step(Received::OtherText), ReceiveStep::Finish));
}

#[test]
fn walk_along_chunks_stops_at_a_refusal() {
    let attempts = |taken: &[bool]| {
        let mut walk = ChunkWalk::new(taken.len());
        let mut seen = Vec::new();
        while let Some(n) = walk.next() {
            seen.push(n);
            walk.report(taken[n]);
        }
        (seen, walk.failed)
    };
    assert_eq!(attempts(&[]), (vec![], false));
    assert_eq!(attempts(&[true, true, true]), (vec![0, 1, 2], false));
    assert_eq!(attempts(&[true, false, true]), (vec![0, 1], true));
    assert_eq!(attempts(&[false, true]), (vec![0], true));
}
