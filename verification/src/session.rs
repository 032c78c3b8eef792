//! A dictation session: what is sent to the speech server, what is made of its answers, and when
//! the session ends.

use crate::audio;
use crate::config::PostprocessingConfig;
use crate::inject;
use crate::inject::{sanitize_for_injection, InjectError, TextInjector};
use crate::postprocess;
use crate::postprocess::process_text;
use crate::text;
use crate::tracker;
use crate::tracker::{Line, SegmentTracker};
use vstd::prelude::*;

verus! {

/// How often gathered audio is sent, in milliseconds.
pub const SEND_INTERVAL_MS: u64 = 20;

/// The characters before which a chunk gets no space.
pub open spec fn joins_left(c: char) -> bool {
    c == '.' || c == ',' || c == '?' || c == '!' || c == ':' || c == ';' || c == ')' || c == ']' || c
        == '}'
}

/// What is injected for `processed`: a space comes before it unless it is the first chunk of the
/// session or joins what stands to the left.
pub open spec fn chunk_text(processed: Seq<char>, first: bool) -> Seq<char> {
    let clean = inject::sanitized(processed);
    if first || (clean.len() > 0 && joins_left(clean.first())) {
        clean
    } else {
        seq![' '] + clean
    }
}

/// What is injected for `deltas`, where `first` tells whether nothing was injected before.
pub open spec fn chunks(
    deltas: Seq<Seq<char>>,
    first: bool,
    config: PostprocessingConfig,
) -> Seq<Seq<char>>
    decreases deltas.len(),
{
    if deltas.len() == 0 {
        Seq::empty()
    } else {
        let before = chunks(deltas.drop_last(), first, config);
        match postprocess::processed(deltas.last(), config) {
            Some(processed) => before.push(chunk_text(processed, first && before.len() == 0)),
            None => before,
        }
    }
}

/// Makes the chunk that is injected for a processed delta.
pub fn make_chunk(processed: &str, first: bool) -> (chunk: String)
    ensures
        chunk@ == chunk_text(processed@, first),
{
    let clean = sanitize_for_injection(processed);
    if first {
        return clean;
    }
    let chars = text::chars_of(clean.as_str());
    if chars.len() > 0 {
        match chars[0] {
            '.' | ',' | '?' | '!' | ':' | ';' | ')' | ']' | '}' => {
                return clean;
            },
            _ => {},
        }
    }
    let mut spaced = String::new();
    spaced.push(' ');
    spaced.append(clean.as_str());
    spaced
}

/// Why a session ended early.
#[derive(Debug)]
pub enum SessionError {
    /// Audio could not be sent, for the reason given.
    Send(String),
    /// Nothing more could be received, for the reason given.
    Receive(String),
    /// A text could not be injected.
    Injection(InjectError),
}

impl SessionError {
    /// The message of the error.
    pub open spec fn message_text(&self) -> Seq<char> {
        match self {
            SessionError::Send(reason) => "ws send error: "@ + reason@,
            SessionError::Receive(reason) => "ws recv error: "@ + reason@,
            SessionError::Injection(error) => error.message_text(),
        }
    }

    /// The message of the error.
    pub fn message(&self) -> (message: String)
        ensures
            message@ == self.message_text(),
    {
        match self {
            SessionError::Send(reason) => {
                let mut message = "ws send error: ".to_string();
                message.append(reason.as_str());
                message
            },
            SessionError::Receive(reason) => {
                let mut message = "ws recv error: ".to_string();
                message.append(reason.as_str());
                message
            },
            SessionError::Injection(error) => error.message(),
        }
    }
}

/// What happens on the receiving side of a session.
#[derive(Debug)]
pub enum Received {
    /// A snapshot of the transcript came in.
    Snapshot(Vec<Line>),
    /// A text came in that is no snapshot.
    OtherText,
    /// A frame came in that is neither a text nor a close frame.
    OtherFrame,
    /// The server sent a close frame.
    CloseFrame,
    /// The connection ended.
    Ended,
    /// Receiving failed, for the reason given.
    Failed(String),
    /// A text could not be injected.
    Refused(SessionError),
    /// The session is being shut down.
    Shutdown,
}

/// What the receiving side does next.
#[derive(Debug)]
pub enum ReceiveStep {
    /// Inject these texts in order, and then wait for what comes in.
    Inject(Vec<String>),
    /// Wait for what comes in.
    Wait,
    /// End without an error.
    Finish,
    /// End with this error.
    Fail(SessionError),
}

/// The state of the receiving side.
pub struct ReceiverState {
    pub seen: tracker::Progress,
    pub first: bool,
    pub ended: bool,
    pub config: PostprocessingConfig,
}

/// The receiving side of a session: it turns snapshots into texts to inject.
pub struct Receiver {
    pub tracker: SegmentTracker,
    pub first_chunk: bool,
    pub ended: bool,
    pub config: PostprocessingConfig,
}

impl View for Receiver {
    type V = ReceiverState;

    open spec fn view(&self) -> ReceiverState {
        ReceiverState {
            seen: self.tracker@,
            first: self.first_chunk,
            ended: self.ended,
            config: self.config,
        }
    }
}

/// What is injected for a snapshot.
pub open spec fn snapshot_chunks(state: ReceiverState, lines: Seq<Seq<char>>) -> Seq<Seq<char>> {
    chunks(tracker::snapshot_deltas(state.seen, lines), state.first, state.config)
}

/// The state after a snapshot.
pub open spec fn after_snapshot(state: ReceiverState, lines: Seq<Seq<char>>) -> ReceiverState {
    ReceiverState {
        seen: tracker::snapshot_progress(state.seen, lines),
        first: state.first && snapshot_chunks(state, lines).len() == 0,
        ..state
    }
}

impl Receiver {
    pub fn new(config: PostprocessingConfig) -> (receiver: Self)
        ensures
            receiver@ == (ReceiverState {
                seen: tracker::Progress { lines: 0, chars: 0 },
                first: true,
                ended: false,
                config,
            }),
    {
        Receiver { tracker: SegmentTracker::new(), first_chunk: true, ended: false, config }
    }

    /// Takes in a snapshot of the transcript and returns what to inject for it.
    pub fn take_snapshot(&mut self, lines: &[Line]) -> (injected: Vec<String>)
        ensures
            text::texts(injected@) == snapshot_chunks(old(self)@, tracker::line_texts(lines@)),
            final(self)@ == after_snapshot(old(self)@, tracker::line_texts(lines@)),
    {
        let ghost first = self.first_chunk;
        let deltas = self.tracker.process_snapshot(lines);
        let ghost all = text::texts(deltas@);
        let mut injected: Vec<String> = Vec::new();
        let mut i: usize = 0;
        while i < deltas.len()
            invariant
                i <= deltas@.len(),
                all == text::texts(deltas@),
                text::texts(injected@) == chunks(all.take(i as int), first, self.config),
                self.first_chunk == (first && injected@.len() == 0),
                self.config == old(self).config,
                self.ended == old(self).ended,
                self.tracker@ == tracker::snapshot_progress(
                    old(self).tracker@,
                    tracker::line_texts(lines@),
                ),
            decreases deltas@.len() - i,
        {
            proof {
                assert(all.take(i + 1).drop_last() =~= all.take(i as int));
                assert(text::texts(injected@).len() == injected@.len());
            }
            match process_text(deltas[i].as_str(), &self.config) {
                Some(processed) => {
                    let ghost before = text::texts(injected@);
                    let chunk = make_chunk(processed.as_str(), self.first_chunk);
                    self.first_chunk = false;
                    injected.push(chunk);
                    proof {
                        assert(text::texts(injected@) =~= before.push(chunk@));
                    }
                },
                None => {},
            }
            i = i + 1;
        }
        proof {
            assert(all.take(i as int) =~= all);
        }
        injected
    }

    /// Decides what to do about what happened. Once the session has ended, by an error or without
    /// one, nothing more is injected.
    pub fn step(&mut self, event: Received) -> (step: ReceiveStep)
        ensures
            if old(self)@.ended {
                step is Finish && final(self)@ == old(self)@
            } else {
                match event {
                    Received::Snapshot(lines) => step matches ReceiveStep::Inject(injected)
                        && text::texts(injected@) == snapshot_chunks(
                        old(self)@,
                        tracker::line_texts(lines@),
                    ) && final(self)@ == after_snapshot(old(self)@, tracker::line_texts(lines@)),
                    Received::OtherText | Received::OtherFrame => step is Wait && final(self)@
                        == old(self)@,
                    Received::CloseFrame | Received::Ended | Received::Shutdown => step is Finish
                        && final(self)@ == (ReceiverState { ended: true, ..old(self)@ }),
                    Received::Failed(reason) => step == ReceiveStep::Fail(
                        SessionError::Receive(reason),
                    ) && final(self)@ == (ReceiverState { ended: true, ..old(self)@ }),
                    Received::Refused(error) => step == ReceiveStep::Fail(error) && final(self)@
                        == (ReceiverState { ended: true, ..old(self)@ }),
                }
            },
    {
        if self.ended {
            return ReceiveStep::Finish;
        }
        match event {
            Received::Snapshot(lines) => ReceiveStep::Inject(self.take_snapshot(lines.as_slice())),
            Received::OtherText | Received::OtherFrame => ReceiveStep::Wait,
            Received::CloseFrame | Received::Ended | Received::Shutdown => {
                self.ended = true;
                ReceiveStep::Finish
            },
            Received::Failed(reason) => {
                self.ended = true;
                ReceiveStep::Fail(SessionError::Receive(reason))
            },
            Received::Refused(error) => {
                self.ended = true;
                ReceiveStep::Fail(error)
            },
        }
    }
}

/// Whether `injector` may have answered the injection of `chunk` with `r`.
pub open spec fn answered<I: TextInjector>(
    injector: &I,
    chunk: Seq<char>,
    r: Result<(), InjectError>,
) -> bool {
    exists|given: &str| given@ == chunk && #[trigger] call_ensures(I::inject, (injector, given), r)
}

/// Whether `injector` may have taken `chunk`.
pub open spec fn took_chunk<I: TextInjector>(injector: &I, chunk: Seq<char>) -> bool {
    exists|r: Result<(), InjectError>| r is Ok && #[trigger] answered(injector, chunk, r)
}

/// The injecting of chunks one after the other, as long as each is taken. Chunks are told apart by
/// their places in the list.
#[derive(Debug)]
pub struct ChunkWalk {
    pub count: usize,
    /// The chunk that the walk has come to.
    pub at: usize,
    /// Whether a chunk was refused.
    pub failed: bool,
}

impl ChunkWalk {
    pub open spec fn well_formed(&self) -> bool {
        self.at <= self.count
    }

    /// The chunk that is injected next, if any is.
    pub open spec fn due(&self) -> Option<usize> {
        if self.failed || self.at >= self.count {
            None
        } else {
            Some(self.at)
        }
    }

    /// The walk after the chunk that was due, where `taken` tells whether it was taken.
    pub open spec fn after(&self, taken: bool) -> ChunkWalk {
        if self.due() is None {
            *self
        } else if taken {
            ChunkWalk { at: (self.at + 1) as usize, ..*self }
        } else {
            ChunkWalk { failed: true, ..*self }
        }
    }

    /// Starts at the first of `count` chunks.
    pub fn new(count: usize) -> (walk: Self)
        ensures
            walk.well_formed(),
            walk == (ChunkWalk { count, at: 0, failed: false }),
    {
        ChunkWalk { count, at: 0, failed: false }
    }

    /// The chunk to inject next, if any.
    pub fn next(&self) -> (chunk: Option<usize>)
        ensures
            chunk == self.due(),
    {
        if self.failed || self.at >= self.count {
            None
        } else {
            Some(self.at)
        }
    }

    /// Takes in whether the chunk that was due was taken.
    pub fn report(&mut self, taken: bool)
        requires
            old(self).well_formed(),
        ensures
            final(self).well_formed(),
            *final(self) == old(self).after(taken),
    {
        if self.failed || self.at >= self.count {
            return ;
        }
        if taken {
            self.at = self.at + 1;
        } else {
            self.failed = true;
        }
    }
}

/// The places of the chunks that are injected on the rest of a walk, where `taken` tells which are
/// taken.
pub open spec fn attempts(walk: ChunkWalk, taken: Seq<bool>) -> Seq<int>
    decreases
            (if walk.due() is None {
                0
            } else {
                walk.count - walk.at + 1
            }),
{
    match walk.due() {
        Some(i) => seq![i as int] + attempts(walk.after(taken[i as int]), taken),
        None => Seq::empty(),
    }
}

proof fn lemma_attempts(walk: ChunkWalk, taken: Seq<bool>)
    requires
        walk.well_formed(),
        !walk.failed,
        taken.len() == walk.count,
    ensures
        forall|k: int|
            0 <= k < attempts(walk, taken).len() ==> #[trigger] attempts(walk, taken)[k] == walk.at
                + k,
        forall|k: int|
            0 <= k < attempts(walk, taken).len() - 1 ==> taken[#[trigger] attempts(walk, taken)[k]],
        walk.at + attempts(walk, taken).len() <= walk.count,
        walk.at + attempts(walk, taken).len() < walk.count ==> attempts(walk, taken).len() > 0
            && !taken[attempts(walk, taken).last()],
    decreases walk.count - walk.at,
{
    reveal_with_fuel(attempts, 2);
    let all = attempts(walk, taken);
    let at = walk.at as int;
    if at < walk.count {
        if taken[at] {
            let next = walk.after(true);
            lemma_attempts(next, taken);
            let rest = attempts(next, taken);
            assert(all =~= seq![at] + rest);
            assert forall|k: int| 0 <= k < all.len() implies #[trigger] all[k] == at + k by {
                if k > 0 {
                    assert(rest[k - 1] == at + 1 + (k - 1));
                }
            }
            assert forall|k: int| 0 <= k < all.len() - 1 implies taken[#[trigger] all[k]] by {
                if k > 0 {
                    assert(rest[k - 1] == all[k]);
                }
            }
            if rest.len() > 0 {
                assert(all.last() == rest.last());
            }
        } else {
            assert(all =~= seq![at]);
        }
    }
}

/// Chunks are injected in order and once each, up to and including the first that is refused, and
/// none after it.
pub proof fn law_nothing_is_injected_after_a_failure(count: usize, taken: Seq<bool>)
    requires
        taken.len() == count,
    ensures
        ({
            let all = attempts(ChunkWalk { count, at: 0, failed: false }, taken);
            &&& forall|k: int| 0 <= k < all.len() ==> #[trigger] all[k] == k
            &&& forall|k: int| 0 <= k < all.len() - 1 ==> #[trigger] taken[k]
            &&& all.len() == count || (0 < all.len() < count && !taken[all.len() - 1])
        }),
{
    let walk = ChunkWalk { count, at: 0, failed: false };
    lemma_attempts(walk, taken);
    let all = attempts(walk, taken);
    assert forall|k: int| 0 <= k < all.len() - 1 implies #[trigger] taken[k] by {
        assert(all[k] == k);
    }
    if all.len() > 0 {
        assert(all[all.len() - 1] == all.len() - 1);
    }
}

/// Injects `chunks` in order, up to the first that fails.
///
/// Which chunk comes next, and that none comes after a failure, is up to [`ChunkWalk`].
pub fn inject_all<I: TextInjector>(injector: &I, chunks: &Vec<String>) -> (r: Result<
    (),
    SessionError,
>)
    ensures
        match r {
            Ok(()) => forall|i: int|
                0 <= i < chunks@.len() ==> took_chunk(injector, (#[trigger] chunks@[i])@),
            Err(e) => e matches SessionError::Injection(cause) && exists|i: int|
                0 <= i < chunks@.len() && answered(
                    injector,
                    (#[trigger] chunks@[i])@,
                    Err::<(), InjectError>(cause),
                ) && forall|j: int| 0 <= j < i ==> took_chunk(injector, (#[trigger] chunks@[j])@),
        },
{
    let mut walk = ChunkWalk::new(chunks.len());
    let mut result: Result<(), SessionError> = Ok(());
    loop
        invariant
            walk.well_formed(),
            walk.count == chunks@.len(),
            walk.failed == result is Err,
            forall|j: int| 0 <= j < walk.at ==> took_chunk(injector, (#[trigger] chunks@[j])@),
            walk.failed ==> walk.at < walk.count && result->Err_0 is Injection && answered(
                injector,
                chunks@[walk.at as int]@,
                Err::<(), InjectError>(result->Err_0->Injection_0),
            ),
        decreases
                (if walk.due() is None {
                    0
                } else {
                    walk.count - walk.at + 1
                }),
    {
        match walk.next() {
            Some(i) => {
                let given = chunks[i].as_str();
                let r = injector.inject(given);
                proof {
                    assert(call_ensures(I::inject, (injector, given), r));
                    assert(answered(injector, chunks@[i as int]@, r));
                }
                walk.report(r.is_ok());
                match r {
                    Ok(()) => {
                        assert(took_chunk(injector, chunks@[i as int]@));
                    },
                    Err(cause) => {
                        result = Err(SessionError::Injection(cause));
                    },
                }
            },
            None => {
                return result;
            },
        }
    }
}

/// What the sending side does.
#[derive(Debug)]
pub enum SendStep {
    /// Nothing, until the next tick.
    Wait,
    /// Send this audio in a binary frame.
    Audio(Vec<u8>),
}

/// Decides what to send at a tick, given the audio that has gathered since the last one. Empty
/// frames are not sent, since they mark the end of the audio.
pub fn send_step(gathered: Vec<u8>) -> (step: SendStep)
    ensures
        match step {
            SendStep::Wait => gathered@.len() == 0,
            SendStep::Audio(bytes) => gathered@.len() > 0 && bytes@ == gathered@,
        },
{
    if gathered.len() == 0 {
        SendStep::Wait
    } else {
        SendStep::Audio(gathered)
    }
}

/// A frame that the client sends when a session ends.
#[derive(Debug)]
pub enum ClosingFrame {
    /// A binary frame.
    Binary(Vec<u8>),
    /// A close frame.
    Close,
}

/// The frames that end a session: an empty binary frame, by which the server knows that the audio
/// is over, and a close frame.
pub fn closing_frames() -> (frames: Vec<ClosingFrame>)
    ensures
        frames@.len() == 2,
        frames@[0] matches ClosingFrame::Binary(bytes) && bytes@.len() == 0,
        frames@[1] is Close,
{
    let end_of_audio: Vec<u8> = Vec::new();
    vec![ClosingFrame::Binary(end_of_audio), ClosingFrame::Close]
}

/// The result of a session whose two sides ended with these results: an error in sending comes
/// before one in receiving.
pub fn session_result(
    send: Result<(), SessionError>,
    receive: Result<(), SessionError>,
) -> (r: Result<(), SessionError>)
    ensures
        r == (if send is Err {
            send
        } else {
            receive
        }),
{
    match send {
        Err(e) => Err(e),
        Ok(()) => receive,
    }
}

/// Injecting the deltas of two snapshots one after the other is injecting all of them: the first
/// chunk that gets no space is the first of the session.
pub proof fn law_chunks_go_on_across_snapshots(
    earlier: Seq<Seq<char>>,
    later: Seq<Seq<char>>,
    first: bool,
    config: PostprocessingConfig,
)
    ensures
        chunks(earlier + later, first, config) == chunks(earlier, first, config) + chunks(
            later,
            first && chunks(earlier, first, config).len() == 0,
            config,
        ),
    decreases later.len(),
{
    let done = chunks(earlier, first, config);
    if later.len() == 0 {
        assert(earlier + later =~= earlier);
        assert(done + Seq::<Seq<char>>::empty() =~= done);
    } else {
        law_chunks_go_on_across_snapshots(earlier, later.drop_last(), first, config);
        assert((earlier + later).drop_last() =~= earlier + later.drop_last());
        let rest = chunks(later.drop_last(), first && done.len() == 0, config);
        match postprocess::processed(later.last(), config) {
            Some(processed) => {
                let chunk = chunk_text(processed, first && done.len() == 0 && rest.len() == 0);
                assert(done + rest.push(chunk) =~= (done + rest).push(chunk));
            },
            None => {},
        }
    }
}

/// The state after a row of snapshots, from the start of a session.
pub open spec fn session_state(
    snapshots: Seq<Seq<Seq<char>>>,
    config: PostprocessingConfig,
) -> ReceiverState
    decreases snapshots.len(),
{
    if snapshots.len() == 0 {
        ReceiverState { seen: tracker::Progress { lines: 0, chars: 0 }, first: true, ended: false, config }
    } else {
        after_snapshot(session_state(snapshots.drop_last(), config), snapshots.last())
    }
}

/// What is injected over a row of snapshots, from the start of a session.
pub open spec fn session_chunks(
    snapshots: Seq<Seq<Seq<char>>>,
    config: PostprocessingConfig,
) -> Seq<Seq<char>>
    decreases snapshots.len(),
{
    if snapshots.len() == 0 {
        Seq::empty()
    } else {
        session_chunks(snapshots.drop_last(), config) + snapshot_chunks(
            session_state(snapshots.drop_last(), config),
            snapshots.last(),
        )
    }
}

/// What a session injects is what its deltas, taken together, make: it does not matter how they
/// are spread over the snapshots.
pub proof fn law_session_injects_its_deltas(
    snapshots: Seq<Seq<Seq<char>>>,
    config: PostprocessingConfig,
)
    ensures
        session_chunks(snapshots, config) == chunks(
            tracker::session_deltas(snapshots),
            true,
            config,
        ),
        session_state(snapshots, config) == (ReceiverState {
            seen: tracker::session_progress(snapshots),
            first: session_chunks(snapshots, config).len() == 0,
            ended: false,
            config,
        }),
    decreases snapshots.len(),
{
    if snapshots.len() > 0 {
        let before = snapshots.drop_last();
        law_session_injects_its_deltas(before, config);
        law_chunks_go_on_across_snapshots(
            tracker::session_deltas(before),
            tracker::snapshot_deltas(tracker::session_progress(before), snapshots.last()),
            true,
            config,
        );
    }
}

/// Whether `chunk` holds something, and no line terminator.
pub open spec fn single_line(chunk: Seq<char>) -> bool {
    &&& chunk.len() > 0
    &&& forall|k: int| 0 <= k < chunk.len() ==> !inject::line_terminator(#[trigger] chunk[k])
}

/// Whether `chunk` starts as a chunk should, being the first of its session or not.
pub open spec fn spaced_once(chunk: Seq<char>, first: bool) -> bool {
    if first || joins_left(chunk.first()) {
        !text::white_space(chunk.first())
    } else {
        chunk.len() > 1 && chunk[0] == ' ' && !text::white_space(chunk[1]) && !joins_left(chunk[1])
    }
}

proof fn lemma_chunk(delta: Seq<char>, first: bool, config: PostprocessingConfig)
    ensures
        postprocess::processed(delta, config) matches Some(processed) ==> single_line(
            chunk_text(processed, first),
        ) && spaced_once(chunk_text(processed, first), first),
{
    postprocess::law_processed_text_is_trimmed(delta, config);
    if let Some(processed) = postprocess::processed(delta, config) {
        let clean = inject::sanitized(processed);
        inject::law_sanitizing_removes_line_terminators(processed);
        assert(clean[0] == processed[0]);
        let chunk = chunk_text(processed, first);
        assert forall|k: int| 0 <= k < chunk.len() implies !inject::line_terminator(
            #[trigger] chunk[k],
        ) by {
            if chunk != clean && k > 0 {
                assert(chunk[k] == clean[k - 1]);
            }
        }
        if chunk != clean {
            assert(chunk[1] == clean[0]);
        }
    }
}

/// No chunk is empty or holds a line terminator.
pub proof fn law_chunks_are_single_lines(
    deltas: Seq<Seq<char>>,
    first: bool,
    config: PostprocessingConfig,
)
    ensures
        forall|i: int|
            0 <= i < chunks(deltas, first, config).len() ==> single_line(
                #[trigger] chunks(deltas, first, config)[i],
            ),
    decreases deltas.len(),
{
    if deltas.len() > 0 {
        let before = chunks(deltas.drop_last(), first, config);
        let all = chunks(deltas, first, config);
        law_chunks_are_single_lines(deltas.drop_last(), first, config);
        lemma_chunk(deltas.last(), first && before.len() == 0, config);
        assert forall|i: int| 0 <= i < all.len() implies single_line(#[trigger] all[i]) by {
            if i < before.len() {
                assert(all[i] == before[i]);
            }
        }
    }
}

/// The first chunk of a session starts with no space; every other starts with a character that
/// joins to the left, or with one space and no more.
pub proof fn law_chunks_are_spaced_once(
    deltas: Seq<Seq<char>>,
    first: bool,
    config: PostprocessingConfig,
)
    ensures
        forall|i: int|
            0 <= i < chunks(deltas, first, config).len() ==> spaced_once(
                #[trigger] chunks(deltas, first, config)[i],
                first && i == 0,
            ),
    decreases deltas.len(),
{
    if deltas.len() > 0 {
        let before = chunks(deltas.drop_last(), first, config);
        let all = chunks(deltas, first, config);
        law_chunks_are_spaced_once(deltas.drop_last(), first, config);
        lemma_chunk(deltas.last(), first && before.len() == 0, config);
        assert forall|i: int| 0 <= i < all.len() implies spaced_once(
            #[trigger] all[i],
            first && i == 0,
        ) by {
            if i < before.len() {
                assert(all[i] == before[i]);
            }
        }
    }
}

/// Whether `chunk` is `processed` with a space in place of each line terminator, behind `lead`
/// spaces.
pub open spec fn is_chunk_of(chunk: Seq<char>, processed: Seq<char>, lead: int) -> bool {
    &&& chunk.len() == lead + processed.len()
    &&& forall|i: int| 0 <= i < lead ==> #[trigger] chunk[i] == ' '
    &&& forall|i: int|
        0 <= i < processed.len() ==> {
            let c = #[trigger] processed[i];
            chunk[lead + i] == if c == '\n' || c == '\r' || c == '\x0B' || c == '\x0C' || c
                == '\u{85}' || c == '\u{2028}' || c == '\u{2029}' {
                ' '
            } else {
                c
            }
        }
}

/// Whether `processed` starts with one of the nine characters that join what stands to their left.
pub open spec fn starts_joining(processed: Seq<char>) -> bool {
    processed.len() > 0 && {
        let c = processed[0];
        c == '.' || c == ',' || c == '?' || c == '!' || c == ':' || c == ';' || c == ')' || c == ']'
            || c == '}'
    }
}

/// A chunk is the processed text without its line terminators, behind one space, or behind none
/// where it is the first of the session or starts with one of the nine characters.
pub proof fn law_chunk_is_the_text_behind_its_space(processed: Seq<char>, first: bool)
    ensures
        is_chunk_of(
            chunk_text(processed, first),
            processed,
            if first || starts_joining(processed) {
                0
            } else {
                1
            },
        ),
{
    let clean = inject::sanitized(processed);
    let chunk = chunk_text(processed, first);
    if processed.len() > 0 {
        inject::law_exactly_line_terminators_give_way(processed, 0);
    }
    assert forall|i: int| 0 <= i < processed.len() implies ({
        let c = #[trigger] processed[i];
        chunk[chunk.len() - clean.len() + i] == if c == '\n' || c == '\r' || c == '\x0B' || c
            == '\x0C' || c == '\u{85}' || c == '\u{2028}' || c == '\u{2029}' {
            ' '
        } else {
            c
        }
    }) by {
        inject::law_exactly_line_terminators_give_way(processed, i);
        assert(chunk[chunk.len() - clean.len() + i] == clean[i]);
    }
}

/// Each delta is injected as one chunk, made of what processing gives for it, or as none where
/// processing drops it; only the first chunk of a session counts as the first.
pub proof fn law_each_delta_makes_its_chunk(
    deltas: Seq<Seq<char>>,
    delta: Seq<char>,
    first: bool,
    config: PostprocessingConfig,
)
    ensures
        chunks(Seq::empty(), first, config).len() == 0,
        ({
            let before = chunks(deltas, first, config);
            let all = chunks(deltas.push(delta), first, config);
            match postprocess::processed(delta, config) {
                None => all == before,
                Some(processed) => all.drop_last() == before && all.len() == before.len() + 1
                    && is_chunk_of(
                    all.last(),
                    processed,
                    if (first && before.len() == 0) || starts_joining(processed) {
                        0
                    } else {
                        1
                    },
                ),
            }
        }),
{
    assert(deltas.push(delta).drop_last() =~= deltas);
    let before = chunks(deltas, first, config);
    if let Some(processed) = postprocess::processed(delta, config) {
        law_chunk_is_the_text_behind_its_space(processed, first && before.len() == 0);
        assert(before.push(chunk_text(processed, first && before.len() == 0)).drop_last()
            =~= before);
    }
}

/// A snapshot injects the chunks of its deltas, and leaves the session where the next chunk is the
/// first one only as long as nothing was injected.
pub proof fn law_snapshot_injects_the_chunks_of_its_deltas(
    state: ReceiverState,
    lines: Seq<Seq<char>>,
)
    ensures
        snapshot_chunks(state, lines) == chunks(
            tracker::snapshot_deltas(state.seen, lines),
            state.first,
            state.config,
        ),
        after_snapshot(state, lines).seen == tracker::snapshot_progress(state.seen, lines),
        after_snapshot(state, lines).first <==> state.first && snapshot_chunks(state, lines).len()
            == 0,
        after_snapshot(state, lines).ended == state.ended,
        after_snapshot(state, lines).config == state.config,
{
}

/// Audio at the rate that the server takes makes three hundred and twenty samples, and so six
/// hundred and forty bytes, between two sendings.
pub proof fn law_sendings_are_640_bytes_apart(samples: Seq<i16>)
    requires
        samples.len() * 1000 == audio::TARGET_SAMPLE_RATE * SEND_INTERVAL_MS,
    ensures
        SEND_INTERVAL_MS == 20,
        samples.len() == 320,
        audio::s16le(samples).len() == 640,
{
    audio::law_samples_can_be_read_back(samples);
}

} // verus!
