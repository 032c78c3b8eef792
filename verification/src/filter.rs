//! The two-tier filter for phrases that the speech model hears in silence.

use crate::text;
use crate::text::{chars_of, contains, same_text, trim};
use vstd::prelude::*;

verus! {

/// Phrases that mark a short transcript as phantom wherever they stand in it.
pub open spec fn phantom_phrases() -> Seq<&'static str> {
    seq![
        "thanks for watching",
        "thank you for watching",
        "thanks for listening",
        "thank you for listening",
        "subscribe",
        "like and subscribe",
        "see you next time",
        "the end",
        "silence",
        "no speech",
        "inaudible",
        "[music]",
        "(music)",
    ]
}

/// Words that mark a transcript as phantom when it holds nothing else.
pub open spec fn phantom_words() -> Seq<&'static str> {
    seq!["ah", "bye", "goodbye", "hmm", "huh", "i", "oh", "so", "uh", "um", "you"]
}

/// A transcript with fewer characters is dropped.
pub const MIN_CHARS: usize = 3;

/// Only a transcript with fewer characters is searched for phantom phrases.
pub const PHRASE_CHECK_CHARS: usize = 40;

/// Whether a transcript, in lower case and without outer white space, is to be dropped.
pub open spec fn blocked(t: Seq<char>) -> bool {
    ||| t.len() < MIN_CHARS
    ||| exists|i: int| 0 <= i < phantom_words().len() && t == (#[trigger] phantom_words()[i])@
    ||| t.len() < PHRASE_CHECK_CHARS && exists|i: int|
        0 <= i < phantom_phrases().len() && text::occurs_in(t, (#[trigger] phantom_phrases()[i])@)
}

/// Whether a transcript is to be dropped.
pub open spec fn hallucination(transcript: Seq<char>) -> bool {
    blocked(text::trim_both(text::lowercase(transcript)))
}

/// Whether a transcript whose lower-case form is `lowered` is to be dropped.
pub fn is_blocked(lowered: &str) -> (b: bool)
    ensures
        b == blocked(text::trim_both(lowered@)),
{
    let trimmed = trim(lowered);
    let t = trimmed.as_str();
    let len = chars_of(t).len();
    if len < MIN_CHARS {
        return true;
    }
    let words: Vec<&'static str> = vec![
        "ah", "bye", "goodbye", "hmm", "huh", "i", "oh", "so", "uh", "um", "you",
    ];
    proof {
        assert(words@ =~= phantom_words());
    }
    let mut i: usize = 0;
    while i < words.len()
        invariant
            i <= words@.len(),
            t@ == text::trim_both(lowered@),
            words@ == phantom_words(),
            forall|j: int| 0 <= j < i ==> t@ != (#[trigger] words@[j])@,
        decreases words@.len() - i,
    {
        if same_text(t, words[i]) {
            return true;
        }
        i = i + 1;
    }
    if len >= PHRASE_CHECK_CHARS {
        return false;
    }
    let phrases: Vec<&'static str> = vec![
        "thanks for watching",
        "thank you for watching",
        "thanks for listening",
        "thank you for listening",
        "subscribe",
        "like and subscribe",
        "see you next time",
        "the end",
        "silence",
        "no speech",
        "inaudible",
        "[music]",
        "(music)",
    ];
    proof {
        assert(phrases@ =~= phantom_phrases());
    }
    let mut k: usize = 0;
    while k < phrases.len()
        invariant
            k <= phrases@.len(),
            t@ == text::trim_both(lowered@),
            phrases@ == phantom_phrases(),
            t@.len() < PHRASE_CHECK_CHARS,
            forall|j: int| 0 <= j < k ==> !text::occurs_in(t@, (#[trigger] phrases@[j])@),
        decreases phrases@.len() - k,
    {
        if contains(t, phrases[k]) {
            return true;
        }
        k = k + 1;
    }
    false
}

/// Whether `text` should be dropped: it is too short, a phantom word, or short with a phantom
/// phrase in it.
pub fn is_hallucination(text: &str) -> (b: bool)
    ensures
        b == hallucination(text@),
{
    let lowered = text.to_lowercase();
    is_blocked(lowered.as_str())
}

/// A transcript of forty characters or more is never dropped, whatever phrases it holds.
pub proof fn law_long_text_passes(t: Seq<char>)
    requires
        t.len() >= PHRASE_CHECK_CHARS,
    ensures
        !blocked(t),
{
    reveal_strlit("ah");
    reveal_strlit("bye");
    reveal_strlit("goodbye");
    reveal_strlit("hmm");
    reveal_strlit("huh");
    reveal_strlit("i");
    reveal_strlit("oh");
    reveal_strlit("so");
    reveal_strlit("uh");
    reveal_strlit("um");
    reveal_strlit("you");
}

/// A phantom phrase drops a transcript of fewer than forty characters, whatever stands around it.
pub proof fn law_phantom_phrase_drops(before: Seq<char>, i: int, after: Seq<char>)
    requires
        0 <= i < phantom_phrases().len(),
        before.len() + phantom_phrases()[i]@.len() + after.len() < PHRASE_CHECK_CHARS,
    ensures
        blocked(before + phantom_phrases()[i]@ + after),
{
    let phrase = phantom_phrases()[i]@;
    let t = before + phrase + after;
    let at = before.len() as int;
    assert(t.subrange(at, at + phrase.len()) =~= phrase);
    assert(text::occurs_at(t, phrase, at));
}

/// Whether `t` is one of the words that silence is taken for.
pub open spec fn is_one_of_the_words(t: Seq<char>) -> bool {
    ||| t == "ah"@
    ||| t == "bye"@
    ||| t == "goodbye"@
    ||| t == "hmm"@
    ||| t == "huh"@
    ||| t == "i"@
    ||| t == "oh"@
    ||| t == "so"@
    ||| t == "uh"@
    ||| t == "um"@
    ||| t == "you"@
}

/// Whether `t` can be written with `part` in the middle.
pub open spec fn is_around(t: Seq<char>, part: Seq<char>) -> bool {
    exists|before: Seq<char>, after: Seq<char>| t == #[trigger] (before + part + after)
}

/// Whether one of the phrases that silence is taken for stands in `t`.
pub open spec fn is_around_one_of_the_phrases(t: Seq<char>) -> bool {
    ||| is_around(t, "thanks for watching"@)
    ||| is_around(t, "thank you for watching"@)
    ||| is_around(t, "thanks for listening"@)
    ||| is_around(t, "thank you for listening"@)
    ||| is_around(t, "subscribe"@)
    ||| is_around(t, "like and subscribe"@)
    ||| is_around(t, "see you next time"@)
    ||| is_around(t, "the end"@)
    ||| is_around(t, "silence"@)
    ||| is_around(t, "no speech"@)
    ||| is_around(t, "inaudible"@)
    ||| is_around(t, "[music]"@)
    ||| is_around(t, "(music)"@)
}

/// What is dropped, and nothing else: where `t` is what stands between the outer white space of a
/// transcript's lower-case form, the transcript is dropped exactly where `t` has fewer than three
/// characters, is one of the words, or has fewer than forty characters and one of the phrases in
/// it.
pub proof fn law_exactly_phantom_texts_are_dropped(
    transcript: Seq<char>,
    before: Seq<char>,
    t: Seq<char>,
    after: Seq<char>,
)
    requires
        text::lowercase(transcript) == before + t + after,
        text::all_white(before),
        text::all_white(after),
        t.len() > 0 ==> !text::white_space(t[0]) && !text::white_space(t[t.len() - 1]),
    ensures
        hallucination(transcript) <==> t.len() < 3 || is_one_of_the_words(t) || (t.len() < 40
            && is_around_one_of_the_phrases(t)),
{
    text::law_trimming_gives_what_stands_between(before, t, after);
    law_exactly_phantom_forms_are_blocked(t);
}

/// What is blocked, and nothing else: a text of fewer than three characters, one of the words, and a
/// text of fewer than forty characters with one of the phrases in it.
pub proof fn law_exactly_phantom_forms_are_blocked(t: Seq<char>)
    ensures
        blocked(t) <==> t.len() < 3 || is_one_of_the_words(t) || (t.len() < 40
            && is_around_one_of_the_phrases(t)),
{
    let words = phantom_words();
    assert(words[0]@ == "ah"@ && words[1]@ == "bye"@ && words[2]@ == "goodbye"@ && words[3]@
        == "hmm"@ && words[4]@ == "huh"@ && words[5]@ == "i"@ && words[6]@ == "oh"@ && words[7]@
        == "so"@ && words[8]@ == "uh"@ && words[9]@ == "um"@ && words[10]@ == "you"@);
    let phrases = phantom_phrases();
    assert(phrases[0]@ == "thanks for watching"@ && phrases[1]@ == "thank you for watching"@
        && phrases[2]@ == "thanks for listening"@ && phrases[3]@ == "thank you for listening"@
        && phrases[4]@ == "subscribe"@ && phrases[5]@ == "like and subscribe"@ && phrases[6]@
        == "see you next time"@ && phrases[7]@ == "the end"@ && phrases[8]@ == "silence"@
        && phrases[9]@ == "no speech"@ && phrases[10]@ == "inaudible"@ && phrases[11]@ == "[music]"@
        && phrases[12]@ == "(music)"@);
    assert forall|i: int| 0 <= i < phrases.len() implies (text::occurs_in(
        t,
        (#[trigger] phrases[i])@,
    ) <==> is_around(t, phrases[i]@)) by {
        text::law_a_part_has_a_text_around_it(t, phrases[i]@);
    }
    assert(forall|i: int|
        0 <= i < words.len() ==> (t == (#[trigger] words[i])@ ==> is_one_of_the_words(t)));
    assert(forall|i: int|
        0 <= i < phrases.len() ==> (is_around(t, (#[trigger] phrases[i])@)
            ==> is_around_one_of_the_phrases(t)));
}

} // verus!
