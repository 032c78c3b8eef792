//! Diffing of the cumulative transcript snapshots that the speech server sends.
//!
//! Lengths are counted in characters, so that a snapshot in any script can be cut where the
//! previous one ended.

use crate::text;
use crate::text::{chars_of, string_between, trim, trim_start};
use vstd::prelude::*;

verus! {

/// One confirmed segment of the transcript.
#[derive(Debug)]
pub struct Line {
    pub text: String,
}

/// What each of the lines holds.
pub open spec fn line_texts(lines: Seq<Line>) -> Seq<Seq<char>> {
    lines.map_values(|l: Line| l.text@)
}

/// How much of the transcript a tracker has seen: the number of lines, and the number of
/// characters of the last of them.
pub struct Progress {
    pub lines: nat,
    pub chars: nat,
}

/// The list that holds `s`, unless `s` is empty.
pub open spec fn unless_empty(s: Seq<char>) -> Seq<Seq<char>> {
    if s.len() == 0 {
        Seq::empty()
    } else {
        seq![s]
    }
}

/// What to inject of a line of which the first `known` characters were seen before.
pub open spec fn grown(line: Seq<char>, known: nat) -> Seq<Seq<char>> {
    if line.len() > known {
        unless_empty(text::trim_front(line.skip(known as int)))
    } else {
        Seq::empty()
    }
}

/// What to inject of lines that are complete and were not seen before.
pub open spec fn completed(lines: Seq<Seq<char>>) -> Seq<Seq<char>>
    decreases lines.len(),
{
    if lines.len() == 0 {
        Seq::empty()
    } else {
        completed(lines.drop_last()) + unless_empty(text::trim_both(lines.last()))
    }
}

/// What to inject of a snapshot, given how much was seen before it.
///
/// An empty snapshot, and one with fewer lines than were seen, yield nothing.
pub open spec fn snapshot_deltas(seen: Progress, lines: Seq<Seq<char>>) -> Seq<Seq<char>> {
    if lines.len() == 0 || lines.len() < seen.lines {
        Seq::empty()
    } else if lines.len() == seen.lines {
        grown(lines.last(), seen.chars)
    } else {
        (if seen.lines > 0 {
            grown(lines[seen.lines - 1], seen.chars)
        } else {
            Seq::empty()
        }) + completed(lines.subrange(seen.lines as int, lines.len() - 1)) + grown(lines.last(), 0)
    }
}

/// How much has been seen after a snapshot.
pub open spec fn snapshot_progress(seen: Progress, lines: Seq<Seq<char>>) -> Progress {
    if lines.len() == 0 {
        seen
    } else {
        Progress { lines: lines.len(), chars: lines.last().len() }
    }
}

/// Tracks the cumulative transcript and extracts what is new in each snapshot.
pub struct SegmentTracker {
    last_line_count: usize,
    last_line_text_len: usize,
}

impl View for SegmentTracker {
    type V = Progress;

    closed spec fn view(&self) -> Progress {
        Progress { lines: self.last_line_count as nat, chars: self.last_line_text_len as nat }
    }
}

/// Appends what is new in `line`, of which the first `known` characters were seen before.
fn push_grown(deltas: &mut Vec<String>, line: &str, known: usize)
    ensures
        text::texts(final(deltas)@) == text::texts(old(deltas)@) + grown(line@, known as nat),
{
    let chars = chars_of(line);
    if chars.len() > known {
        let fresh = string_between(&chars, known, chars.len());
        proof {
            assert(fresh@ =~= line@.skip(known as int));
        }
        push_unless_empty(deltas, trim_start(fresh.as_str()));
    }
}

/// Appends `delta`, unless it is empty.
fn push_unless_empty(deltas: &mut Vec<String>, delta: String)
    ensures
        text::texts(final(deltas)@) == text::texts(old(deltas)@) + unless_empty(delta@),
{
    if !delta.as_str().is_empty() {
        deltas.push(delta);
    }
}

impl SegmentTracker {
    /// A tracker that has seen nothing.
    pub fn new() -> (tracker: Self)
        ensures
            tracker@ == (Progress { lines: 0, chars: 0 }),
    {
        SegmentTracker { last_line_count: 0, last_line_text_len: 0 }
    }

    /// Takes in a snapshot of all the lines so far and returns the texts to inject, in order.
    pub fn process_snapshot(&mut self, lines: &[Line]) -> (deltas: Vec<String>)
        ensures
            text::texts(deltas@) == snapshot_deltas(old(self)@, line_texts(lines@)),
            final(self)@ == snapshot_progress(old(self)@, line_texts(lines@)),
    {
        let mut deltas: Vec<String> = Vec::new();
        let current_count = lines.len();
        if current_count == 0 {
            return deltas;
        }
        let last_len = chars_of(lines[current_count - 1].text.as_str()).len();
        if current_count < self.last_line_count {
            self.last_line_count = current_count;
            self.last_line_text_len = last_len;
            return deltas;
        }
        let ghost all = line_texts(lines@);
        let mut prev_len: usize = self.last_line_text_len;
        if current_count > self.last_line_count {
            let start = self.last_line_count;
            if start > 0 {
                push_grown(&mut deltas, lines[start - 1].text.as_str(), self.last_line_text_len);
            }
            let ghost before = text::texts(deltas@);
            let mut i: usize = start;
            while i < current_count - 1
                invariant
                    start <= i <= current_count - 1,
                    current_count == lines@.len(),
                    all == line_texts(lines@),
                    text::texts(deltas@) == before + completed(all.subrange(start as int, i as int)),
                decreases current_count - i,
            {
                push_unless_empty(&mut deltas, trim(lines[i].text.as_str()));
                i = i + 1;
                proof {
                    let done = all.subrange(start as int, i as int);
                    assert(done.drop_last() =~= all.subrange(start as int, i - 1));
                }
            }
            prev_len = 0;
        }
        push_grown(&mut deltas, lines[current_count - 1].text.as_str(), prev_len);
        self.last_line_count = current_count;
        self.last_line_text_len = last_len;
        deltas
    }
}

/// What a tracker knows that has just taken in `lines`, or that has seen nothing.
pub open spec fn progress_after(lines: Seq<Seq<char>>) -> Progress {
    Progress { lines: lines.len(), chars: if lines.len() == 0 { 0 } else { lines.last().len() } }
}

/// Whether `newer` continues `older`: finished lines stay as they are, the last line may grow,
/// and lines may be added.
pub open spec fn continues(older: Seq<Seq<char>>, newer: Seq<Seq<char>>) -> bool {
    &&& older.len() <= newer.len()
    &&& forall|i: int| 0 <= i < older.len() - 1 ==> #[trigger] newer[i] == older[i]
    &&& older.len() > 0 ==> older.last().is_prefix_of(newer[older.len() - 1])
}

/// What is injected over a row of snapshots, from a tracker that has seen nothing.
pub open spec fn session_deltas(snapshots: Seq<Seq<Seq<char>>>) -> Seq<Seq<char>>
    decreases snapshots.len(),
{
    if snapshots.len() == 0 {
        Seq::empty()
    } else {
        session_deltas(snapshots.drop_last()) + snapshot_deltas(
            session_progress(snapshots.drop_last()),
            snapshots.last(),
        )
    }
}

/// How much has been seen after a row of snapshots, from a tracker that had seen nothing.
pub open spec fn session_progress(snapshots: Seq<Seq<Seq<char>>>) -> Progress
    decreases snapshots.len(),
{
    if snapshots.len() == 0 {
        Progress { lines: 0, chars: 0 }
    } else {
        snapshot_progress(session_progress(snapshots.drop_last()), snapshots.last())
    }
}

proof fn lemma_unless_empty_ink(s: Seq<char>)
    ensures
        text::ink_of(unless_empty(s)) == text::ink(s),
{
    if s.len() > 0 {
        assert(seq![s].drop_last() =~= Seq::<Seq<char>>::empty());
        assert(text::ink_of(seq![s].drop_last()) =~= Seq::<char>::empty());
        assert(text::ink_of(seq![s]) =~= text::ink(s));
    }
}

proof fn lemma_grown_ink(line: Seq<char>, known: nat)
    requires
        known <= line.len(),
    ensures
        text::ink(line.take(known as int)) + text::ink_of(grown(line, known)) == text::ink(line),
{
    let rest = line.skip(known as int);
    text::lemma_ink_add(line.take(known as int), rest);
    assert(line.take(known as int) + rest =~= line);
    text::lemma_ink_trim(rest);
    lemma_unless_empty_ink(text::trim_front(rest));
    if line.len() == known {
        assert(rest =~= Seq::<char>::empty());
    }
}

proof fn lemma_completed_ink(lines: Seq<Seq<char>>)
    ensures
        text::ink_of(completed(lines)) == text::ink_of(lines),
    decreases lines.len(),
{
    if lines.len() > 0 {
        lemma_completed_ink(lines.drop_last());
        text::lemma_ink_of_add(
            completed(lines.drop_last()),
            unless_empty(text::trim_both(lines.last())),
        );
        lemma_unless_empty_ink(text::trim_both(lines.last()));
        text::lemma_ink_trim(lines.last());
    }
}

/// A snapshot that continues the one before it yields what is new in it: after the visible
/// characters of the older snapshot, those of the deltas make up those of the newer one. Nothing
/// is lost and nothing is injected twice.
pub proof fn law_deltas_complete_the_transcript(older: Seq<Seq<char>>, newer: Seq<Seq<char>>)
    requires
        continues(older, newer),
    ensures
        text::ink_of(older) + text::ink_of(snapshot_deltas(progress_after(older), newer))
            == text::ink_of(newer),
{
    let seen = progress_after(older);
    let n = older.len() as int;
    let m = newer.len() as int;
    if m == 0 {
        assert(newer =~= older);
    } else if n == 0 {
        let middle = newer.subrange(0, m - 1);
        assert(newer.drop_last() =~= middle);
        lemma_completed_ink(middle);
        let none = Seq::<Seq<char>>::empty();
        text::lemma_ink_of_add(none + completed(middle), grown(newer.last(), 0));
        assert(none + completed(middle) =~= completed(middle));
        lemma_grown_ink(newer.last(), 0);
        assert(newer.last().take(0) =~= Seq::<char>::empty());
        assert(text::ink(newer.last().take(0)) + text::ink_of(grown(newer.last(), 0))
            =~= text::ink_of(grown(newer.last(), 0)));
    } else {
        let line = newer[n - 1];
        assert(line.take(seen.chars as int) =~= older.last());
        lemma_grown_ink(line, seen.chars);
        let head = newer.take(n);
        assert(head.drop_last() =~= older.drop_last());
        assert(head.last() == line);
        // What was seen and what has grown make up the first n lines.
        assert(text::ink_of(older) + text::ink_of(grown(line, seen.chars)) =~= text::ink_of(head));
        if m == n {
            assert(head =~= newer);
        } else {
            let middle = newer.subrange(n, m - 1);
            let last = newer.last();
            lemma_completed_ink(middle);
            lemma_grown_ink(last, 0);
            assert(last.take(0) =~= Seq::<char>::empty());
            let deltas = grown(line, seen.chars) + completed(middle) + grown(last, 0);
            text::lemma_ink_of_add(grown(line, seen.chars) + completed(middle), grown(last, 0));
            text::lemma_ink_of_add(grown(line, seen.chars), completed(middle));
            text::lemma_ink_of_add(head, middle);
            assert(newer.drop_last() =~= head + middle);
            assert(text::ink_of(older) + text::ink_of(deltas) =~= text::ink_of(newer));
        }
    }
}

/// Over a whole session of snapshots, each of which continues the one before it, the injected
/// texts hold exactly the visible characters of the last snapshot, in order.
pub proof fn law_session_injects_the_transcript(snapshots: Seq<Seq<Seq<char>>>)
    requires
        snapshots.len() > 0,
        forall|i: int| 0 < i < snapshots.len() ==> continues(snapshots[i - 1], #[trigger] snapshots[i]),
    ensures
        text::ink_of(session_deltas(snapshots)) == text::ink_of(snapshots.last()),
        session_progress(snapshots) == progress_after(snapshots.last()),
    decreases snapshots.len(),
{
    let before = snapshots.drop_last();
    let none = Seq::<Seq<char>>::empty();
    let older = if before.len() == 0 {
        none
    } else {
        before.last()
    };
    if before.len() > 0 {
        assert forall|i: int| 0 < i < before.len() implies continues(before[i - 1], #[trigger] before[i]) by {
            assert(snapshots[i] == before[i]);
        }
        law_session_injects_the_transcript(before);
        assert(continues(snapshots[snapshots.len() - 2], snapshots[snapshots.len() - 1]));
    } else {
        assert(session_deltas(before) =~= none);
    }
    assert(continues(older, snapshots.last()));
    law_deltas_complete_the_transcript(older, snapshots.last());
    text::lemma_ink_of_add(
        session_deltas(before),
        snapshot_deltas(session_progress(before), snapshots.last()),
    );
}

/// The same snapshot again yields nothing and changes nothing.
pub proof fn law_repeated_snapshot_is_silent(lines: Seq<Seq<char>>)
    ensures
        snapshot_deltas(progress_after(lines), lines) == Seq::<Seq<char>>::empty(),
        snapshot_progress(progress_after(lines), lines) == progress_after(lines),
{
}

/// When the server rewinds, to fewer lines or to a shorter last line, nothing is injected and the
/// tracker takes up the new state.
pub proof fn law_rewind_resyncs_silently(seen: Progress, lines: Seq<Seq<char>>)
    requires
        lines.len() > 0,
        lines.len() < seen.lines || (lines.len() == seen.lines && lines.last().len() < seen.chars),
    ensures
        snapshot_deltas(seen, lines) == Seq::<Seq<char>>::empty(),
        snapshot_progress(seen, lines) == progress_after(lines),
{
}

/// Whether `s` holds something and does not start with white space.
pub open spec fn starts_visibly(s: Seq<char>) -> bool {
    s.len() > 0 && !text::white_space(s.first())
}

/// No delta is empty, and none starts with white space.
pub proof fn law_deltas_start_visibly(seen: Progress, lines: Seq<Seq<char>>)
    ensures
        forall|i: int|
            0 <= i < snapshot_deltas(seen, lines).len() ==> starts_visibly(
                #[trigger] snapshot_deltas(seen, lines)[i],
            ),
{
    if lines.len() > 0 && lines.len() >= seen.lines {
        text::lemma_trim_front_visible(lines.last().skip(0));
        text::lemma_trim_front_visible(lines.last().skip(seen.chars as int));
        if lines.len() > seen.lines {
            if seen.lines > 0 {
                text::lemma_trim_front_visible(lines[seen.lines - 1].skip(seen.chars as int));
            }
            lemma_completed_visible(lines.subrange(seen.lines as int, lines.len() - 1));
        }
    }
}

proof fn lemma_completed_visible(lines: Seq<Seq<char>>)
    ensures
        forall|i: int|
            0 <= i < completed(lines).len() ==> starts_visibly(#[trigger] completed(lines)[i]),
    decreases lines.len(),
{
    if lines.len() > 0 {
        let before = completed(lines.drop_last());
        lemma_completed_visible(lines.drop_last());
        text::lemma_trim_both_visible(lines.last());
        assert forall|i: int| 0 <= i < completed(lines).len() implies starts_visibly(
            #[trigger] completed(lines)[i],
        ) by {
            if i < before.len() {
                assert(completed(lines)[i] == before[i]);
            }
        }
    }
}

/// Whether `list` is `fresh` in one piece, from its first visible character to its end; nothing
/// where `fresh` is blank.
pub open spec fn once_from(list: Seq<Seq<char>>, fresh: Seq<char>) -> bool {
    if text::all_white(fresh) {
        list.len() == 0
    } else {
        list.len() == 1 && exists|k: int|
            0 <= k < fresh.len() && !text::white_space(fresh[k]) && text::all_white(fresh.take(k))
                && list[0] == #[trigger] fresh.skip(k)
    }
}

/// Whether `list` is `line` in one piece, from its first visible character to its last; nothing
/// where `line` is blank.
pub open spec fn once_within(list: Seq<Seq<char>>, line: Seq<char>) -> bool {
    if text::all_white(line) {
        list.len() == 0
    } else {
        list.len() == 1 && exists|a: int, b: int|
            0 <= a < b <= line.len() && !text::white_space(line[a]) && !text::white_space(
                line[b - 1],
            ) && text::all_white(line.take(a)) && text::all_white(line.skip(b)) && list[0]
                == #[trigger] line.subrange(a, b)
    }
}

proof fn lemma_once_from(fresh: Seq<char>)
    ensures
        once_from(unless_empty(text::trim_front(fresh)), fresh),
{
    let k = text::lemma_trim_front_cut(fresh);
    if k == fresh.len() {
        assert(fresh.take(k) =~= fresh);
    } else {
        assert(!text::all_white(fresh));
        assert(unless_empty(text::trim_front(fresh))[0] == fresh.skip(k));
    }
}

proof fn lemma_once_within(line: Seq<char>)
    ensures
        once_within(unless_empty(text::trim_both(line)), line),
{
    let a = text::lemma_trim_front_cut(line);
    let front = line.skip(a);
    let k = text::lemma_trim_back_cut(front);
    let b = a + k;
    if a == line.len() {
        assert(line.take(a) =~= line);
        assert(text::trim_both(line) =~= Seq::<char>::empty());
    } else {
        assert(!text::all_white(line));
        if k == 0 {
            assert(front.skip(0)[0] == line[a]);
        }
        assert(front[k - 1] == line[b - 1]);
        assert(line.skip(b) =~= front.skip(k));
        assert(text::trim_both(line) =~= line.subrange(a, b));
    }
}

/// What the line in progress has grown by is injected in one piece, as it stands in the line but
/// for white space at its start; nothing is injected where it has not grown.
pub proof fn law_growth_comes_in_one_piece(seen: Progress, lines: Seq<Seq<char>>)
    requires
        lines.len() > 0,
        lines.len() == seen.lines,
    ensures
        if lines.last().len() > seen.chars {
            once_from(snapshot_deltas(seen, lines), lines.last().skip(seen.chars as int))
        } else {
            snapshot_deltas(seen, lines).len() == 0
        },
{
    lemma_once_from(lines.last().skip(seen.chars as int));
}

/// Whether `parts` are what each line of a snapshot with new lines is injected as: the line that was
/// in progress by what it has grown by, each line that was completed since as a whole, and the line
/// that is in progress now.
pub open spec fn one_piece_per_line(
    parts: Seq<Seq<Seq<char>>>,
    seen: Progress,
    lines: Seq<Seq<char>>,
) -> bool {
    &&& parts.len() == lines.len() - seen.lines + 1
    &&& if seen.lines > 0 && lines[seen.lines - 1].len() > seen.chars {
        once_from(parts[0], lines[seen.lines - 1].skip(seen.chars as int))
    } else {
        parts[0].len() == 0
    }
    &&& forall|i: int|
        seen.lines <= i < lines.len() - 1 ==> once_within(
            #[trigger] parts[i - seen.lines + 1],
            lines[i],
        )
    &&& once_from(parts.last(), lines.last())
}

proof fn lemma_completed_flat(lines: Seq<Seq<char>>, parts: Seq<Seq<Seq<char>>>)
    requires
        parts.len() == lines.len(),
        forall|i: int|
            0 <= i < lines.len() ==> #[trigger] parts[i] == unless_empty(
                text::trim_both(lines[i]),
            ),
    ensures
        parts.flatten() == completed(lines),
    decreases lines.len(),
{
    if lines.len() > 0 {
        let (front, head) = (lines.drop_last(), parts.drop_last());
        assert forall|i: int| 0 <= i < front.len() implies #[trigger] head[i] == unless_empty(
            text::trim_both(front[i]),
        ) by {
            assert(parts[i] == head[i]);
        }
        lemma_completed_flat(front, head);
        head.lemma_flatten_push(parts.last());
        assert(head.push(parts.last()) =~= parts);
        assert(parts.last() == parts[parts.len() - 1]);
    } else {
        assert(parts.flatten() =~= completed(lines));
    }
}

/// When lines are added, each line is injected in one piece and in order, and nothing else is: what
/// the line that was in progress has grown by, the lines completed since, and the line in progress.
pub proof fn law_new_lines_come_in_one_piece_each(seen: Progress, lines: Seq<Seq<char>>)
    requires
        lines.len() > seen.lines,
    ensures
        exists|parts: Seq<Seq<Seq<char>>>| #[trigger]
            one_piece_per_line(parts, seen, lines) && snapshot_deltas(seen, lines)
                == parts.flatten(),
{
    let n = seen.lines as int;
    let first = if n > 0 {
        grown(lines[n - 1], seen.chars)
    } else {
        Seq::empty()
    };
    let middle = lines.subrange(n, lines.len() - 1);
    let mids = Seq::new(middle.len(), |i: int| unless_empty(text::trim_both(middle[i])));
    let last = grown(lines.last(), 0);
    let parts = (seq![first] + mids).push(last);
    lemma_completed_flat(middle, mids);
    (seq![first] + mids).lemma_flatten_push(last);
    assert((seq![first] + mids).drop_first() =~= mids);
    assert((seq![first] + mids).first() == first);
    assert(parts.flatten() =~= snapshot_deltas(seen, lines));
    if n > 0 {
        lemma_once_from(lines[n - 1].skip(seen.chars as int));
    }
    assert(parts[0] == first);
    assert(lines.last().skip(0) =~= lines.last());
    lemma_once_from(lines.last());
    assert forall|i: int| n <= i < lines.len() - 1 implies once_within(
        #[trigger] parts[i - n + 1],
        lines[i],
    ) by {
        lemma_once_within(lines[i]);
        assert(parts[i - n + 1] == mids[i - n]);
        assert(middle[i - n] == lines[i]);
    }
    assert(one_piece_per_line(parts, seen, lines));
}

/// After a snapshot the tracker knows its lines and the length of the last one; an empty snapshot
/// injects nothing and leaves the tracker as it was, and so does one with fewer lines inject
/// nothing.
pub proof fn law_tracker_knows_the_last_snapshot(seen: Progress, lines: Seq<Seq<char>>)
    ensures
        lines.len() > 0 ==> snapshot_progress(seen, lines).lines == lines.len()
            && snapshot_progress(seen, lines).chars == lines[lines.len() - 1].len(),
        lines.len() == 0 ==> snapshot_progress(seen, lines) == seen,
        lines.len() == 0 || lines.len() < seen.lines ==> snapshot_deltas(seen, lines).len() == 0,
{
}

/// A line is taken as it is, letter for letter.
pub proof fn law_lines_are_taken_as_they_are(lines: Seq<Line>, i: int)
    requires
        0 <= i < lines.len(),
    ensures
        line_texts(lines).len() == lines.len(),
        line_texts(lines)[i] == lines[i].text@,
{
}

} // verus!
