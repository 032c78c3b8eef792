//! The post-processing of a delta: spoken punctuation, spacing and capitalization.

use crate::config::PostprocessingConfig;
use crate::filter;
use crate::filter::is_hallucination;
use crate::matching;
use crate::matching::{find_spans, slice_of};
use crate::spacing;
use crate::spacing::{fix_spacing, is_blank, is_left_attaching};
use crate::speech;
use crate::speech::{find_entry, speech_pattern, speech_replacements, SpeechReplacement};
use crate::text;
use crate::text::{chars_of, string_of, trim, uppercase_of};
use vstd::prelude::*;

verus! {

/// `s` without the spaces and tabs that it ends with.
pub open spec fn without_final_blanks(s: Seq<char>) -> Seq<char>
    decreases s.len(),
{
    if s.len() > 0 && spacing::blank(s.last()) {
        without_final_blanks(s.drop_last())
    } else {
        s
    }
}

/// `s` without the left-attaching punctuation that it ends with.
pub open spec fn without_final_punctuation(s: Seq<char>) -> Seq<char>
    decreases s.len(),
{
    if s.len() > 0 && spacing::left_attaching(s.last()) {
        without_final_punctuation(s.drop_last())
    } else {
        s
    }
}

/// `written` after the command `entry`.
///
/// A command that adjusts the punctuation before it takes the place of the punctuation that
/// `written` ends with, and leaves the blanks after that where they are.
pub open spec fn after_entry(written: Seq<char>, entry: SpeechReplacement) -> Seq<char> {
    if entry.adjust_preceding_punct {
        let words = without_final_blanks(written);
        without_final_punctuation(words) + entry.replacement@ + written.skip(words.len() as int)
    } else {
        written + entry.replacement@
    }
}

/// `written` after `matched`, whose lower-case form is `lowered`: after the command that it spells,
/// or after `matched` itself where it spells none.
pub open spec fn after_match(written: Seq<char>, matched: Seq<char>, lowered: Seq<char>) -> Seq<
    char,
> {
    match speech::first_entry(speech::speech_table(), lowered) {
        Some(entry) => after_entry(written, entry),
        None => written + matched,
    }
}

/// Where the text resumes after the first `n` of `spans`.
pub open spec fn resume_at(spans: Seq<(usize, usize)>, n: int) -> int {
    if n <= 0 {
        0
    } else {
        spans[n - 1].1 as int
    }
}

/// What has been written once the first `n` of `spans` are replaced, where `lowered` holds the
/// lower-case form of each of them.
pub open spec fn written_after(
    text: Seq<char>,
    spans: Seq<(usize, usize)>,
    lowered: Seq<Seq<char>>,
    n: int,
) -> Seq<char>
    decreases n,
{
    if n <= 0 {
        Seq::empty()
    } else {
        after_match(
            written_after(text, spans, lowered, n - 1) + matching::between(
                text,
                resume_at(spans, n - 1),
                spans[n - 1].0 as int,
            ),
            matching::between(text, spans[n - 1].0 as int, spans[n - 1].1 as int),
            lowered[n - 1],
        )
    }
}

/// `text` with each of `spans` replaced by what its command stands for, where `lowered` holds the
/// lower-case form of each of them.
pub open spec fn with_commands(
    text: Seq<char>,
    spans: Seq<(usize, usize)>,
    lowered: Seq<Seq<char>>,
) -> Seq<char> {
    written_after(text, spans, lowered, spans.len() as int) + matching::between(
        text,
        resume_at(spans, spans.len() as int),
        vstd::utf8::encode_utf8(text).len() as int,
    )
}

/// The lower-case forms of the parts of `text` at `spans`.
pub open spec fn lowered_parts(text: Seq<char>, spans: Seq<(usize, usize)>) -> Seq<Seq<char>> {
    Seq::new(
        spans.len(),
        |i: int| text::lowercase(matching::between(text, spans[i].0 as int, spans[i].1 as int)),
    )
}

/// Appends the characters of `part`.
fn push_text(written: &mut Vec<char>, part: &str)
    ensures
        final(written)@ == old(written)@ + part@,
{
    let mut chars = chars_of(part);
    written.append(&mut chars);
}

/// Writes what the command `entry` stands for.
fn push_entry(written: &mut Vec<char>, entry: SpeechReplacement)
    ensures
        final(written)@ == after_entry(old(written)@, entry),
{
    if !entry.adjust_preceding_punct {
        push_text(written, entry.replacement);
        return ;
    }
    let ghost before = written@;
    let mut end: usize = written.len();
    proof {
        assert(before.take(end as int) =~= before);
    }
    while end > 0 && is_blank(written[end - 1])
        invariant
            end <= written@.len(),
            written@ == before,
            without_final_blanks(before.take(end as int)) == without_final_blanks(before),
        decreases end,
    {
        proof {
            assert(before.take(end as int).drop_last() =~= before.take(end - 1));
        }
        end = end - 1;
    }
    let mut blanks = written.split_off(end);
    let ghost words = without_final_blanks(before);
    proof {
        assert(written@ =~= words);
        assert(blanks@ =~= before.skip(words.len() as int));
    }
    while written.len() > 0 && is_left_attaching(written[written.len() - 1])
        invariant
            without_final_punctuation(written@) == without_final_punctuation(words),
        decreases written@.len(),
    {
        let _ = written.pop();
    }
    push_text(written, entry.replacement);
    written.append(&mut blanks);
}

/// Replaces each of `spans` in `text` by what the command that it spells stands for, where
/// `lowered` holds the lower-case form of each of them.
pub fn replace_commands(text: &str, spans: &Vec<(usize, usize)>, lowered: &Vec<String>) -> (r: String)
    requires
        matching::spans_in(text@, spans@),
        lowered@.len() == spans@.len(),
    ensures
        r@ == with_commands(text@, spans@, text::texts(lowered@)),
{
    let table = speech_replacements();
    let mut written: Vec<char> = Vec::new();
    let mut last_end: usize = 0;
    let end = text.as_bytes().len();
    proof {
        vstd::utf8::encode_utf8_valid_utf8(text@);
        vstd::utf8::is_char_boundary_start_end_of_seq(vstd::utf8::encode_utf8(text@));
    }
    let mut n: usize = 0;
    while n < spans.len()
        invariant
            n <= spans@.len(),
            lowered@.len() == spans@.len(),
            matching::spans_in(text@, spans@),
            table@ == speech::speech_table(),
            last_end == resume_at(spans@, n as int),
            matching::cuts(text@, last_end as int),
            written@ == written_after(text@, spans@, text::texts(lowered@), n as int),
        decreases spans@.len() - n,
    {
        let (start, stop) = spans[n];
        push_text(&mut written, slice_of(text, last_end, start));
        match find_entry(&table, lowered[n].as_str()) {
            Some(entry) => push_entry(&mut written, entry),
            None => push_text(&mut written, slice_of(text, start, stop)),
        }
        last_end = stop;
        n = n + 1;
    }
    push_text(&mut written, slice_of(text, last_end, end));
    string_of(&written)
}

/// The lower-case forms of the parts of `text` at `spans`.
fn lower_parts(text: &str, spans: &Vec<(usize, usize)>) -> (lowered: Vec<String>)
    requires
        matching::spans_in(text@, spans@),
    ensures
        lowered@.len() == spans@.len(),
        text::texts(lowered@) == lowered_parts(text@, spans@),
{
    let mut lowered: Vec<String> = Vec::new();
    let mut n: usize = 0;
    while n < spans.len()
        invariant
            n <= spans@.len(),
            n == lowered@.len(),
            matching::spans_in(text@, spans@),
            text::texts(lowered@) == lowered_parts(text@, spans@).take(n as int),
        decreases spans@.len() - n,
    {
        let (start, stop) = spans[n];
        let ghost before = text::texts(lowered@);
        let part = slice_of(text, start, stop).to_lowercase();
        proof {
            assert(text::texts(lowered@.push(part)) =~= before.push(part@));
        }
        lowered.push(part);
        n = n + 1;
    }
    lowered
}

/// `text` with its spoken punctuation replaced.
pub open spec fn spoken_punctuation_applied(text: Seq<char>) -> Seq<char> {
    match matching::regex_matches(speech::command_pattern(), text) {
        Some(spans) => with_commands(text, spans, lowered_parts(text, spans)),
        None => text,
    }
}

/// Replaces the spoken punctuation in `text`.
///
/// The text stays as it is if the pattern of commands is refused by the regular-expression engine.
pub fn apply_spoken_punctuation(text: &str) -> (r: String)
    ensures
        r@ == spoken_punctuation_applied(text@),
{
    let pattern = speech_pattern();
    match find_spans(pattern.as_str(), text) {
        Some(spans) => {
            let lowered = lower_parts(text, &spans);
            replace_commands(text, &spans, &lowered)
        },
        None => text.to_string(),
    }
}

/// The punctuation that ends a sentence.
pub open spec fn sentence_end(c: char) -> bool {
    c == '.' || c == '?' || c == '!'
}

/// Whether a letter after `s` starts a sentence: no letter stands in `s` since its start or since
/// the last end of a sentence.
pub open spec fn sentence_starts_after(s: Seq<char>) -> bool
    decreases s.len(),
{
    if s.len() == 0 || sentence_end(s.last()) {
        true
    } else {
        !text::alphabetic(s.last()) && sentence_starts_after(s.drop_last())
    }
}

/// A character with what its upper-case form needs: whether it is a letter, and what it becomes.
pub struct Cased {
    pub c: char,
    pub letter: bool,
    pub upper: Vec<char>,
}

/// Whether a letter after `chars` starts a sentence.
pub open spec fn sentence_starts_after_cased(chars: Seq<Cased>) -> bool
    decreases chars.len(),
{
    if chars.len() == 0 || sentence_end(chars.last().c) {
        true
    } else {
        !chars.last().letter && sentence_starts_after_cased(chars.drop_last())
    }
}

/// `chars` with the letters that start a sentence in upper case.
pub open spec fn capitalized_cased(chars: Seq<Cased>) -> Seq<char>
    decreases chars.len(),
{
    if chars.len() == 0 {
        Seq::empty()
    } else {
        let k = chars.last();
        capitalized_cased(chars.drop_last()) + (if k.letter && sentence_starts_after_cased(
            chars.drop_last(),
        ) {
            k.upper@
        } else {
            seq![k.c]
        })
    }
}

/// `s` with the letters that start a sentence in upper case.
pub open spec fn capitalized(s: Seq<char>) -> Seq<char>
    decreases s.len(),
{
    if s.len() == 0 {
        Seq::empty()
    } else {
        capitalized(s.drop_last()) + (if text::alphabetic(s.last()) && sentence_starts_after(
            s.drop_last(),
        ) {
            text::uppercase(s.last())
        } else {
            seq![s.last()]
        })
    }
}

/// Puts the letters that start a sentence in upper case.
pub fn capitalize_cased(chars: &Vec<Cased>) -> (result: Vec<char>)
    ensures
        result@ == capitalized_cased(chars@),
{
    let mut result: Vec<char> = Vec::new();
    let mut capitalize_next = true;
    let mut i: usize = 0;
    while i < chars.len()
        invariant
            i <= chars@.len(),
            capitalize_next == sentence_starts_after_cased(chars@.take(i as int)),
            result@ == capitalized_cased(chars@.take(i as int)),
        decreases chars@.len() - i,
    {
        let c = chars[i].c;
        proof {
            assert(chars@.take(i + 1).drop_last() =~= chars@.take(i as int));
        }
        if capitalize_next && chars[i].letter {
            let mut k: usize = 0;
            let ghost before = result@;
            while k < chars[i].upper.len()
                invariant
                    i < chars@.len(),
                    k <= chars@[i as int].upper@.len(),
                    result@ == before + chars@[i as int].upper@.take(k as int),
                decreases chars@[i as int].upper@.len() - k,
            {
                result.push(chars[i].upper[k]);
                k = k + 1;
            }
            proof {
                assert(chars@[i as int].upper@.take(k as int) =~= chars@[i as int].upper@);
            }
        } else {
            result.push(c);
        }
        if c == '.' || c == '?' || c == '!' {
            capitalize_next = true;
        } else if chars[i].letter {
            capitalize_next = false;
        }
        i = i + 1;
    }
    proof {
        assert(chars@.take(i as int) =~= chars@);
    }
    result
}

/// Whether `chars` are those of `s` with their case as Unicode has it.
spec fn cased_as(chars: Seq<Cased>, s: Seq<char>) -> bool {
    &&& chars.len() == s.len()
    &&& forall|i: int|
        0 <= i < s.len() ==> (#[trigger] chars[i]).c == s[i] && chars[i].letter == text::alphabetic(
            s[i],
        ) && chars[i].upper@ == text::uppercase(s[i])
}

proof fn lemma_cased_push(chars: Seq<Cased>, s: Seq<char>, one: Cased)
    requires
        cased_as(chars, s),
        one.letter == text::alphabetic(one.c),
        one.upper@ == text::uppercase(one.c),
    ensures
        cased_as(chars.push(one), s.push(one.c)),
{
}

proof fn lemma_capitalized_cased(chars: Seq<Cased>, s: Seq<char>)
    requires
        cased_as(chars, s),
    ensures
        capitalized_cased(chars) == capitalized(s),
        sentence_starts_after_cased(chars) == sentence_starts_after(s),
    decreases s.len(),
{
    if s.len() > 0 {
        lemma_capitalized_cased(chars.drop_last(), s.drop_last());
    }
}

/// Capitalizes the first letter of `text` and the next letter after sentence-ending punctuation.
pub fn capitalize_after_period(text: &str) -> (r: String)
    ensures
        r@ == capitalized(text@),
{
    let chars = chars_of(text);
    let mut cased: Vec<Cased> = Vec::new();
    let mut i: usize = 0;
    while i < chars.len()
        invariant
            i <= chars@.len(),
            cased_as(cased@, chars@.take(i as int)),
        decreases chars@.len() - i,
    {
        let c = chars[i];
        let ghost before = cased@;
        let one = Cased { c, letter: c.is_alphabetic(), upper: uppercase_of(c) };
        cased.push(one);
        proof {
            assert(chars@.take(i + 1) =~= chars@.take(i as int).push(c));
            lemma_cased_push(before, chars@.take(i as int), one);
        }
        i = i + 1;
    }
    proof {
        assert(chars@.take(i as int) =~= chars@);
        lemma_capitalized_cased(cased@, chars@);
    }
    string_of(&capitalize_cased(&cased))
}

/// A text without its outer white space, or nothing where nothing is left.
pub open spec fn trimmed_text(s: Seq<char>) -> Option<Seq<char>> {
    if text::trim_both(s).len() == 0 {
        None
    } else {
        Some(text::trim_both(s))
    }
}

/// Whether a transcript without its outer white space is dropped before anything is made of it: it
/// is empty, or the filter is on and catches it.
pub open spec fn dropped(trimmed: Seq<char>, config: PostprocessingConfig) -> bool {
    trimmed.len() == 0 || (config.hallucination_filter && filter::hallucination(trimmed))
}

/// `trimmed` with its spoken punctuation replaced, where that is asked for, and its spacing put
/// right.
pub open spec fn prepared(trimmed: Seq<char>, config: PostprocessingConfig) -> Seq<char> {
    if config.spoken_punctuation {
        spacing::spaced(spoken_punctuation_applied(trimmed))
    } else {
        spacing::spaced(trimmed)
    }
}

/// The text that `transcript` is injected as, or nothing where it is dropped.
pub open spec fn processed(transcript: Seq<char>, config: PostprocessingConfig) -> Option<Seq<char>> {
    let trimmed = text::trim_both(transcript);
    if dropped(trimmed, config) {
        None
    } else {
        trimmed_text(capitalized(prepared(trimmed, config)))
    }
}

/// Replaces the spoken punctuation of a trimmed text, where that is asked for, and puts its spacing
/// right.
fn prepare(trimmed: &str, config: &PostprocessingConfig) -> (r: String)
    ensures
        r@ == prepared(trimmed@, *config),
{
    if config.spoken_punctuation {
        let punctuated = apply_spoken_punctuation(trimmed);
        fix_spacing(punctuated.as_str())
    } else {
        fix_spacing(trimmed)
    }
}

/// Runs the whole post-processing on `text`. Returns `None` where the text is to be dropped.
pub fn process_text(text: &str, config: &PostprocessingConfig) -> (r: Option<String>)
    ensures
        match r {
            Some(out) => processed(text@, *config) == Some(out@),
            None => processed(text@, *config) is None,
        },
        dropped(text::trim_both(text@), *config) ==> r is None,
        !config.spoken_punctuation && has_lasting(text::trim_both(text@)) ==> (r is None
            <==> dropped(text::trim_both(text@), *config)),
{
    let trimmed = trim(text);
    proof {
        if !config.spoken_punctuation && has_lasting(trimmed@) {
            law_only_blank_and_filtered_texts_are_dropped(text@, *config);
        }
    }
    if trimmed.as_str().is_empty() {
        return None;
    }
    if config.hallucination_filter && is_hallucination(trimmed.as_str()) {
        return None;
    }
    let spaced = prepare(trimmed.as_str(), config);
    let capitalized = capitalize_after_period(spaced.as_str());
    let result = trim(capitalized.as_str());
    if result.as_str().is_empty() {
        None
    } else {
        Some(result)
    }
}

/// What is injected is never empty and neither starts nor ends with white space.
pub proof fn law_processed_text_is_trimmed(transcript: Seq<char>, config: PostprocessingConfig)
    ensures
        processed(transcript, config) matches Some(out) ==> out.len() > 0 && !text::white_space(
            out.first(),
        ) && !text::white_space(out.last()),
{
    text::lemma_trim_both_visible(capitalized(prepared(text::trim_both(transcript), config)));
}

/// A text in which no command was found stays as it is.
pub proof fn law_text_without_commands_is_kept(text: Seq<char>)
    ensures
        with_commands(text, Seq::empty(), Seq::empty()) == text,
{
    let bytes = vstd::utf8::encode_utf8(text);
    assert(bytes.subrange(0, bytes.len() as int) =~= bytes);
    vstd::utf8::encode_utf8_decode_utf8(text);
    assert(written_after(text, Seq::empty(), Seq::empty(), 0) =~= Seq::<char>::empty());
}

/// The first letter of the text, and the next letter after the end of a sentence, is put in upper
/// case.
pub proof fn law_sentences_start_in_upper_case(
    before: Seq<char>,
    gap: Seq<char>,
    c: char,
    after: Seq<char>,
)
    requires
        before.len() == 0 || sentence_end(before.last()),
        forall|i: int| 0 <= i < gap.len() ==> !text::alphabetic(#[trigger] gap[i]),
        text::alphabetic(c),
    ensures
        (capitalized(before + gap) + text::uppercase(c)).is_prefix_of(
            capitalized((before + gap).push(c) + after),
        ),
    decreases after.len(),
{
    let start = (before + gap).push(c);
    if after.len() == 0 {
        lemma_gap_keeps_start(before, gap);
        assert(start + after =~= start);
        assert(start.drop_last() =~= before + gap);
    } else {
        law_sentences_start_in_upper_case(before, gap, c, after.drop_last());
        assert((start + after).drop_last() =~= start + after.drop_last());
    }
}

/// A character that starts no sentence stays as it is.
pub proof fn law_the_rest_of_a_sentence_is_kept(before: Seq<char>, c: char)
    requires
        !text::alphabetic(c) || !sentence_starts_after(before),
    ensures
        capitalized(before.push(c)) == capitalized(before).push(c),
{
    assert(before.push(c).drop_last() =~= before);
}

proof fn lemma_gap_keeps_start(before: Seq<char>, gap: Seq<char>)
    requires
        before.len() == 0 || sentence_end(before.last()),
        forall|i: int| 0 <= i < gap.len() ==> !text::alphabetic(#[trigger] gap[i]),
    ensures
        sentence_starts_after(before + gap),
    decreases gap.len(),
{
    if gap.len() == 0 {
        assert(before + gap =~= before);
    } else {
        assert forall|i: int| 0 <= i < gap.drop_last().len() implies !text::alphabetic(
            #[trigger] gap.drop_last()[i],
        ) by {
            assert(gap[i] == gap.drop_last()[i]);
        }
        lemma_gap_keeps_start(before, gap.drop_last());
        assert((before + gap).drop_last() =~= before + gap.drop_last());
        assert((before + gap).last() == gap[gap.len() - 1]);
    }
}

/// Whether `c` is neither white space, nor a mark or parenthesis that the spacing rules speak of, nor
/// a lower-case ASCII letter.
pub open spec fn plain_upper(c: char) -> bool {
    &&& !text::white_space(c)
    &&& !spacing::left_attaching(c)
    &&& c != '('
    &&& c != ')'
    &&& !('a' <= c <= 'z')
}

/// Whether capitalizing `s` puts nothing but plain characters into it: its ASCII letters count as
/// letters, and the upper-case forms of its letters are plain and not empty.
pub open spec fn plain_case(s: Seq<char>) -> bool {
    forall|i: int| 0 <= i < s.len() ==> plain_letter(#[trigger] s[i])
}

/// Whether `c` is no letter, or a letter whose upper-case form is plain and not empty. An ASCII
/// letter has to count as a letter.
pub open spec fn plain_letter(c: char) -> bool {
    if text::alphabetic(c) {
        text::uppercase(c).len() > 0 && forall|k: int|
            0 <= k < text::uppercase(c).len() ==> plain_upper(#[trigger] text::uppercase(c)[k])
    } else {
        !('a' <= c <= 'z')
    }
}

/// Whether `c` leaves something visible behind, be it put in upper case or not.
pub open spec fn lasting(c: char) -> bool {
    !text::white_space(c) && (text::alphabetic(c) ==> text::ink(text::uppercase(c)).len() > 0)
}

/// Whether some character of `s` leaves something visible behind when `s` is capitalized.
pub open spec fn has_lasting(s: Seq<char>) -> bool {
    exists|i: int| 0 <= i < s.len() && lasting(#[trigger] s[i])
}

/// What stands for the last character of `s` once `s` is capitalized.
spec fn last_piece(s: Seq<char>) -> Seq<char> {
    if text::alphabetic(s.last()) && sentence_starts_after(s.drop_last()) {
        text::uppercase(s.last())
    } else {
        seq![s.last()]
    }
}

/// The first visible character of a capitalized text is no lower-case ASCII letter.
proof fn lemma_capitalized_first(s: Seq<char>)
    requires
        plain_case(s),
    ensures
        text::ink(capitalized(s)).len() == 0 ==> sentence_starts_after(s),
        text::ink(capitalized(s)).len() > 0 ==> !('a' <= text::ink(capitalized(s))[0] <= 'z'),
    decreases s.len(),
{
    if s.len() > 0 {
        let front = s.drop_last();
        let piece = last_piece(s);
        lemma_plain_case_front(s);
        lemma_capitalized_first(front);
        text::lemma_ink_add(capitalized(front), piece);
        assert(text::ink(capitalized(s)) == text::ink(capitalized(front)) + text::ink(piece));
        if text::ink(capitalized(front)).len() == 0 {
            if text::alphabetic(s.last()) {
                assert(plain_upper(text::uppercase(s.last())[0]));
                text::lemma_ink_first(piece);
            } else {
                assert(piece =~= seq![s.last()]);
                reveal_with_fuel(text::ink, 2);
                assert(piece.drop_last() =~= Seq::<char>::empty());
                assert(text::ink(piece) =~= if text::white_space(s.last()) {
                    Seq::empty()
                } else {
                    seq![s.last()]
                });
            }
        }
    }
}

proof fn lemma_plain_case_front(s: Seq<char>)
    requires
        plain_case(s),
        s.len() > 0,
    ensures
        plain_case(s.drop_last()),
        plain_letter(s.last()),
{
    assert forall|i: int| 0 <= i < s.drop_last().len() implies plain_letter(
        #[trigger] s.drop_last()[i],
    ) by {
        assert(s.drop_last()[i] == s[i]);
    }
    assert(s.last() == s[s.len() - 1]);
}

/// A text with a lasting character is still visible once it is capitalized.
proof fn lemma_capitalized_lasts(s: Seq<char>)
    requires
        has_lasting(s),
    ensures
        text::ink(capitalized(s)).len() > 0,
    decreases s.len(),
{
    let i = choose|i: int| 0 <= i < s.len() && lasting(#[trigger] s[i]);
    let front = s.drop_last();
    let piece = last_piece(s);
    text::lemma_ink_add(capitalized(front), piece);
    assert(capitalized(s) == capitalized(front) + piece);
    if i < front.len() {
        assert(lasting(front[i]));
        lemma_capitalized_lasts(front);
    } else if piece =~= seq![s.last()] {
        text::lemma_ink_first(piece);
    }
}

/// Putting the spacing right takes away no lasting character.
proof fn lemma_spaced_lasts(s: Seq<char>)
    requires
        has_lasting(s),
    ensures
        has_lasting(spacing::spaced(s)),
{
    let i = choose|i: int| 0 <= i < s.len() && lasting(#[trigger] s[i]);
    spacing::law_spacing_keeps_the_words(s);
    spacing::lemma_unblanked_contains(s, s[i]);
    spacing::lemma_unblanked_contains(spacing::spaced(s), s[i]);
    let out = spacing::spaced(s);
    let k = choose|k: int| 0 <= k < out.len() && out[k] == s[i];
    assert(lasting(out[k]));
}

proof fn lemma_capitalized_well_spaced(s: Seq<char>)
    requires
        plain_case(s),
        spacing::well_spaced(s),
    ensures
        spacing::well_spaced(capitalized(s)),
        s.len() > 0 ==> capitalized(s).len() > 0 && (capitalized(s).last() == s.last()
            || plain_upper(capitalized(s).last())),
    decreases s.len(),
{
    if s.len() > 0 {
        let front = s.drop_last();
        let piece = last_piece(s);
        let out = capitalized(front);
        let all = capitalized(s);
        assert forall|i: int| 0 <= i < front.len() - 1 implies spacing::well_spaced_pair(
            front[i],
            #[trigger] front[i + 1],
        ) by {
            assert(front[i] == s[i] && front[i + 1] == s[i + 1]);
        }
        lemma_plain_case_front(s);
        lemma_capitalized_well_spaced(front);
        if front.len() > 0 {
            assert(spacing::well_spaced_pair(s[front.len() - 1], s[front.len() - 1 + 1]));
        }
        assert(all == out + piece);
        assert(all.last() == piece.last());
        assert forall|i: int| 0 <= i < all.len() - 1 implies spacing::well_spaced_pair(
            all[i],
            #[trigger] all[i + 1],
        ) by {
            if i + 1 < out.len() {
                assert(all[i] == out[i] && all[i + 1] == out[i + 1]);
            } else {
                assert(all[i + 1] == piece[i + 1 - out.len()]);
                if i + 1 == out.len() {
                    assert(all[i] == out.last());
                }
            }
        }
    }
}

proof fn lemma_trim_front_well_spaced(s: Seq<char>)
    requires
        spacing::well_spaced(s),
    ensures
        spacing::well_spaced(text::trim_front(s)),
    decreases s.len(),
{
    if s.len() > 0 && text::white_space(s.first()) {
        let rest = s.drop_first();
        assert forall|i: int| 0 <= i < rest.len() - 1 implies spacing::well_spaced_pair(
            rest[i],
            #[trigger] rest[i + 1],
        ) by {
            assert(rest[i] == s[i + 1] && rest[i + 1] == s[i + 1 + 1]);
        }
        lemma_trim_front_well_spaced(rest);
    }
}

proof fn lemma_trim_both_well_spaced(s: Seq<char>)
    requires
        spacing::well_spaced(s),
    ensures
        spacing::well_spaced(text::trim_both(s)),
{
    lemma_trim_front_well_spaced(s);
    let front = text::trim_front(s);
    let out = text::trim_back(front);
    text::lemma_trim_back_visible(front);
    assert forall|i: int| 0 <= i < out.len() - 1 implies spacing::well_spaced_pair(
        out[i],
        #[trigger] out[i + 1],
    ) by {
        assert(out[i] == front[i] && out[i + 1] == front[i + 1]);
    }
}

/// Without spoken punctuation, the texts that are dropped are exactly those that are blank and, with
/// the filter switched on, those that it catches. Left out are only texts in which nothing lasts:
/// each of their visible characters is a letter whose upper-case form is invisible.
pub proof fn law_only_blank_and_filtered_texts_are_dropped(
    transcript: Seq<char>,
    config: PostprocessingConfig,
)
    requires
        !config.spoken_punctuation,
        dropped(text::trim_both(transcript), config) || has_lasting(text::trim_both(transcript)),
    ensures
        processed(transcript, config) is None <==> dropped(text::trim_both(transcript), config),
{
    let trimmed = text::trim_both(transcript);
    if !dropped(trimmed, config) {
        let spaced = spacing::spaced(trimmed);
        lemma_spaced_lasts(trimmed);
        lemma_capitalized_lasts(spaced);
        text::lemma_ink_trim(capitalized(spaced));
    }
}

/// What is injected keeps the spacing rules: no blank before left-attaching punctuation, no space
/// just inside a parenthesis, and no two spaces in a row.
pub proof fn law_processed_text_is_well_spaced(
    transcript: Seq<char>,
    config: PostprocessingConfig,
)
    requires
        plain_case(prepared(text::trim_both(transcript), config)),
    ensures
        processed(transcript, config) matches Some(out) ==> spacing::well_spaced(out),
{
    let trimmed = text::trim_both(transcript);
    let ready = prepared(trimmed, config);
    if config.spoken_punctuation {
        spacing::law_spacing_is_right(spoken_punctuation_applied(trimmed));
    } else {
        spacing::law_spacing_is_right(trimmed);
    }
    lemma_capitalized_well_spaced(ready);
    lemma_trim_both_well_spaced(capitalized(ready));
}

/// What is injected does not start with a lower-case ASCII letter.
pub proof fn law_processed_text_starts_in_upper_case(
    transcript: Seq<char>,
    config: PostprocessingConfig,
)
    requires
        plain_case(prepared(text::trim_both(transcript), config)),
    ensures
        processed(transcript, config) matches Some(out) ==> !('a' <= out.first() <= 'z'),
{
    let ready = prepared(text::trim_both(transcript), config);
    let whole = capitalized(ready);
    lemma_capitalized_first(ready);
    text::lemma_trim_both_visible(whole);
    text::lemma_ink_trim(whole);
    if text::trim_both(whole).len() > 0 {
        text::lemma_ink_first(text::trim_both(whole));
    }
}

/// Whether `c` is neither white space, nor a mark or parenthesis that the spacing rules speak of, nor
/// a lower-case ASCII letter.
fn is_plain_upper(c: char) -> (b: bool)
    ensures
        b == plain_upper(c),
{
    !c.is_whitespace() && !is_left_attaching(c) && c != '(' && c != ')' && !('a' <= c && c <= 'z')
}

/// Whether `c` is no letter, or a letter whose upper-case form is plain and not empty.
fn is_plain_letter(c: char) -> (b: bool)
    ensures
        b == plain_letter(c),
{
    if !c.is_alphabetic() {
        return !('a' <= c && c <= 'z');
    }
    let upper = uppercase_of(c);
    let mut k: usize = 0;
    while k < upper.len()
        invariant
            k <= upper@.len(),
            upper@ == text::uppercase(c),
            text::alphabetic(c),
            forall|j: int| 0 <= j < k ==> plain_upper(#[trigger] text::uppercase(c)[j]),
        decreases upper@.len() - k,
    {
        if !is_plain_upper(upper[k]) {
            assert(!plain_upper(text::uppercase(c)[k as int]));
            return false;
        }
        k = k + 1;
    }
    upper.len() > 0
}

/// Whether capitalizing `text` puts nothing but plain characters into it.
pub fn has_plain_case(text: &str) -> (b: bool)
    ensures
        b == plain_case(text@),
{
    let chars = chars_of(text);
    let mut i: usize = 0;
    while i < chars.len()
        invariant
            i <= chars@.len(),
            chars@ == text@,
            forall|j: int| 0 <= j < i ==> plain_letter(#[trigger] chars@[j]),
        decreases chars@.len() - i,
    {
        if !is_plain_letter(chars[i]) {
            assert(!plain_letter(text@[i as int]));
            return false;
        }
        i = i + 1;
    }
    true
}

/// Whether `c` leaves something visible behind, be it put in upper case or not.
fn is_lasting(c: char) -> (b: bool)
    ensures
        b == lasting(c),
{
    if c.is_whitespace() {
        return false;
    }
    if !c.is_alphabetic() {
        return true;
    }
    let upper = string_of(&uppercase_of(c));
    let visible = trim(upper.as_str());
    proof {
        text::lemma_ink_trim(upper@);
        text::lemma_trim_both_visible(upper@);
        if visible@.len() > 0 {
            text::lemma_ink_first(visible@);
        }
    }
    !visible.as_str().is_empty()
}

/// Whether some character of `text` leaves something visible behind when `text` is capitalized.
pub fn has_lasting_text(text: &str) -> (b: bool)
    ensures
        b == has_lasting(text@),
{
    let chars = chars_of(text);
    let mut i: usize = 0;
    while i < chars.len()
        invariant
            i <= chars@.len(),
            chars@ == text@,
            forall|j: int| 0 <= j < i ==> !lasting(#[trigger] chars@[j]),
        decreases chars@.len() - i,
    {
        if is_lasting(chars[i]) {
            assert(lasting(text@[i as int]));
            return true;
        }
        i = i + 1;
    }
    false
}

/// Whether `out` keeps the spacing rules and does not start with a lower-case ASCII letter.
pub open spec fn in_shape(out: Seq<char>) -> bool {
    spacing::well_spaced(out) && !('a' <= out.first() <= 'z')
}

/// Tells of `text` whether the tables of letters and their case bear out what processing it
/// promises. Where they do, what is injected for it is in shape, and without spoken punctuation it
/// is dropped exactly where it is blank or the filter catches it.
pub fn keeps_shape(text: &str, config: &PostprocessingConfig) -> (b: bool)
    ensures
        b == (dropped(text::trim_both(text@), *config) || (has_lasting(text::trim_both(text@))
            && plain_case(prepared(text::trim_both(text@), *config)))),
        b && !config.spoken_punctuation ==> (processed(text@, *config) is None <==> dropped(
            text::trim_both(text@),
            *config,
        )),
        b ==> (processed(text@, *config) matches Some(out) ==> in_shape(out)),
{
    let trimmed = trim(text);
    if trimmed.as_str().is_empty() || (config.hallucination_filter && is_hallucination(
        trimmed.as_str(),
    )) {
        return true;
    }
    let ready = prepare(trimmed.as_str(), config);
    let lasts = has_lasting_text(trimmed.as_str());
    let plain = has_plain_case(ready.as_str());
    proof {
        if lasts && plain {
            law_processed_text_is_well_spaced(text@, *config);
            law_processed_text_starts_in_upper_case(text@, *config);
            if !config.spoken_punctuation {
                law_only_blank_and_filtered_texts_are_dropped(text@, *config);
            }
        }
    }
    lasts && plain
}

/// Whether `c` is one of the three characters that end a sentence.
pub open spec fn ends_sentence(c: char) -> bool {
    c == '.' || c == '?' || c == '!'
}

proof fn lemma_mid_sentence(before: Seq<char>, x: char, gap: Seq<char>)
    requires
        text::alphabetic(x),
        !ends_sentence(x),
        forall|i: int| 0 <= i < gap.len() ==> !ends_sentence(#[trigger] gap[i]),
    ensures
        !sentence_starts_after(before.push(x) + gap),
    decreases gap.len(),
{
    let s = before.push(x) + gap;
    if gap.len() == 0 {
        assert(s =~= before.push(x));
    } else {
        assert forall|i: int| 0 <= i < gap.drop_last().len() implies !ends_sentence(
            #[trigger] gap.drop_last()[i],
        ) by {
            assert(gap[i] == gap.drop_last()[i]);
        }
        lemma_mid_sentence(before, x, gap.drop_last());
        assert(s.drop_last() =~= before.push(x) + gap.drop_last());
        assert(s.last() == gap[gap.len() - 1]);
    }
}

/// A letter that follows another letter of its sentence, with none of the three characters that end
/// a sentence between the two, is kept as it is.
pub proof fn law_letters_inside_a_sentence_are_kept(
    before: Seq<char>,
    x: char,
    gap: Seq<char>,
    c: char,
)
    requires
        text::alphabetic(x),
        x != '.' && x != '?' && x != '!',
        forall|i: int|
            0 <= i < gap.len() ==> (#[trigger] gap[i]) != '.' && gap[i] != '?' && gap[i] != '!',
    ensures
        capitalized((before.push(x) + gap).push(c)) == capitalized(before.push(x) + gap).push(c),
{
    lemma_mid_sentence(before, x, gap);
    assert((before.push(x) + gap).push(c).drop_last() =~= before.push(x) + gap);
}

/// The first letter of a text, and the first one after a character that ends a sentence, gives way
/// to its upper-case form, whatever stands between.
pub proof fn law_letters_that_start_a_sentence_are_raised(
    before: Seq<char>,
    gap: Seq<char>,
    c: char,
)
    requires
        before.len() == 0 || before.last() == '.' || before.last() == '?' || before.last() == '!',
        forall|i: int| 0 <= i < gap.len() ==> !text::alphabetic(#[trigger] gap[i]),
        text::alphabetic(c),
    ensures
        capitalized((before + gap).push(c)) == capitalized(before + gap) + text::uppercase(c),
{
    lemma_gap_keeps_start(before, gap);
    assert((before + gap).push(c).drop_last() =~= before + gap);
}

/// What is no letter is kept as it is, and an empty text stays empty.
pub proof fn law_other_characters_are_kept(before: Seq<char>, c: char)
    requires
        !text::alphabetic(c),
    ensures
        capitalized(Seq::empty()) == Seq::<char>::empty(),
        capitalized(before.push(c)) == capitalized(before).push(c),
{
    assert(before.push(c).drop_last() =~= before);
}

/// Characters that are given with their case are raised as letters with that case would be: the
/// same three rules, by the case that they are given with.
pub proof fn law_given_case_is_used_alike(before: Seq<Cased>, gap: Seq<Cased>, one: Cased)
    ensures
        !one.letter ==> capitalized_cased(before.push(one)) == capitalized_cased(before).push(one.c),
        one.letter && (before.len() == 0 || before.last().c == '.' || before.last().c == '?'
            || before.last().c == '!') && (forall|i: int|
            0 <= i < gap.len() ==> !(#[trigger] gap[i]).letter) ==> capitalized_cased(
            (before + gap).push(one),
        ) == capitalized_cased(before + gap) + one.upper@,
        before.len() > 0 && before.last().letter && before.last().c != '.' && before.last().c != '?'
            && before.last().c != '!' && (forall|i: int|
            0 <= i < gap.len() ==> (#[trigger] gap[i]).c != '.' && gap[i].c != '?' && gap[i].c
                != '!') ==> capitalized_cased((before + gap).push(one)) == capitalized_cased(
            before + gap,
        ).push(one.c),
{
    assert(before.push(one).drop_last() =~= before);
    assert((before + gap).push(one).drop_last() =~= before + gap);
    if (before.len() == 0 || before.last().c == '.' || before.last().c == '?' || before.last().c
        == '!') && (forall|i: int| 0 <= i < gap.len() ==> !(#[trigger] gap[i]).letter) {
        lemma_cased_gap(before, gap, true);
    }
    if before.len() > 0 && before.last().letter && before.last().c != '.' && before.last().c != '?'
        && before.last().c != '!' && (forall|i: int|
        0 <= i < gap.len() ==> (#[trigger] gap[i]).c != '.' && gap[i].c != '?' && gap[i].c != '!') {
        lemma_cased_gap(before, gap, false);
    }
}

proof fn lemma_cased_gap(before: Seq<Cased>, gap: Seq<Cased>, starts: bool)
    requires
        starts == sentence_starts_after_cased(before),
        starts ==> forall|i: int| 0 <= i < gap.len() ==> !(#[trigger] gap[i]).letter,
        !starts ==> forall|i: int|
            0 <= i < gap.len() ==> !ends_sentence((#[trigger] gap[i]).c),
    ensures
        starts == sentence_starts_after_cased(before + gap),
    decreases gap.len(),
{
    if gap.len() == 0 {
        assert(before + gap =~= before);
    } else {
        let front = gap.drop_last();
        assert forall|i: int| 0 <= i < front.len() implies (starts ==> !(
        #[trigger] front[i]).letter) && (!starts ==> !ends_sentence(front[i].c)) by {
            assert(gap[i] == front[i]);
        }
        lemma_cased_gap(before, front, starts);
        assert((before + gap).drop_last() =~= before + front);
        assert((before + gap).last() == gap[gap.len() - 1]);
    }
}

/// Whether `c` is one of the six marks that a spoken mark takes the place of.
pub open spec fn is_mark(c: char) -> bool {
    c == '.' || c == ',' || c == '!' || c == '?' || c == ';' || c == ':'
}

/// A command that adjusts the punctuation before it takes the place of the marks that the text ends
/// with and keeps the spaces and tabs behind them; any other is simply appended.
pub proof fn law_spoken_marks_replace_written_ones(
    words: Seq<char>,
    marks: Seq<char>,
    blanks: Seq<char>,
    entry: SpeechReplacement,
)
    requires
        forall|i: int| 0 <= i < blanks.len() ==> (#[trigger] blanks[i]) == ' ' || blanks[i] == '\t',
        forall|i: int|
            0 <= i < marks.len() ==> {
                let c = #[trigger] marks[i];
                c == '.' || c == ',' || c == '!' || c == '?' || c == ';' || c == ':'
            },
        words.len() > 0 ==> {
            let c = words.last();
            c != '.' && c != ',' && c != '!' && c != '?' && c != ';' && c != ':' && (marks.len() == 0
                ==> c != ' ' && c != '\t')
        },
    ensures
        entry.adjust_preceding_punct ==> after_entry(words + marks + blanks, entry) == words
            + entry.replacement@ + blanks,
        !entry.adjust_preceding_punct ==> after_entry(words + marks + blanks, entry) == words + marks
            + blanks + entry.replacement@,
{
    let text = words + marks;
    let written = words + marks + blanks;
    if marks.len() > 0 {
        assert(text.last() == marks[marks.len() - 1]);
    } else {
        assert(text =~= words);
    }
    lemma_final_blanks(text, blanks);
    lemma_final_marks(words, marks);
    assert(written.skip(text.len() as int) =~= blanks);
}

proof fn lemma_final_blanks(text: Seq<char>, blanks: Seq<char>)
    requires
        forall|i: int| 0 <= i < blanks.len() ==> (#[trigger] blanks[i]) == ' ' || blanks[i] == '\t',
        text.len() > 0 ==> text.last() != ' ' && text.last() != '\t',
    ensures
        without_final_blanks(text + blanks) == text,
    decreases blanks.len(),
{
    let all = text + blanks;
    if blanks.len() == 0 {
        assert(all =~= text);
    } else {
        assert forall|i: int| 0 <= i < blanks.drop_last().len() implies (
        #[trigger] blanks.drop_last()[i]) == ' ' || blanks.drop_last()[i] == '\t' by {
            assert(blanks[i] == blanks.drop_last()[i]);
        }
        lemma_final_blanks(text, blanks.drop_last());
        assert(all.drop_last() =~= text + blanks.drop_last());
        assert(all.last() == blanks[blanks.len() - 1]);
    }
}

proof fn lemma_final_marks(words: Seq<char>, marks: Seq<char>)
    requires
        forall|i: int| 0 <= i < marks.len() ==> is_mark(#[trigger] marks[i]),
        words.len() > 0 ==> !is_mark(words.last()),
    ensures
        without_final_punctuation(words + marks) == words,
    decreases marks.len(),
{
    let all = words + marks;
    if marks.len() == 0 {
        assert(all =~= words);
    } else {
        assert forall|i: int| 0 <= i < marks.drop_last().len() implies is_mark(
            #[trigger] marks.drop_last()[i],
        ) by {
            assert(marks[i] == marks.drop_last()[i]);
        }
        lemma_final_marks(words, marks.drop_last());
        assert(all.drop_last() =~= words + marks.drop_last());
        assert(all.last() == marks[marks.len() - 1]);
    }
}

proof fn lemma_written_prefix(
    text: Seq<char>,
    more: Seq<char>,
    spans: Seq<(usize, usize)>,
    span: (usize, usize),
    lowered: Seq<Seq<char>>,
    low: Seq<char>,
    n: int,
)
    requires
        matching::spans_in(text, spans),
        lowered.len() == spans.len(),
        0 <= n <= spans.len(),
    ensures
        written_after(text + more, spans.push(span), lowered.push(low), n) == written_after(
            text,
            spans,
            lowered,
            n,
        ),
    decreases n,
{
    if n > 0 {
        lemma_written_prefix(text, more, spans, span, lowered, low, n - 1);
        let (start, stop) = spans[n - 1];
        assert(matching::cuts(text, spans[n - 1].0 as int));
        assert(matching::cuts(text, spans[n - 1].1 as int));
        let from = resume_at(spans, n - 1);
        if n > 1 {
            assert(spans[n - 2].1 <= spans[n - 1].0);
        }
        assert(resume_at(spans.push(span), n - 1) == from);
        matching::lemma_between_prefix(text, more, from, start as int);
        matching::lemma_between_prefix(text, more, start as int, stop as int);
    }
}

/// Commands are replaced one by one, in order, and the text around them is kept: the text up to a
/// command, with its own commands replaced, is followed by what the command found for it stands
/// for, or by the command itself where it spells none, and by the text behind it as it is.
pub proof fn law_commands_are_replaced_one_by_one(
    text: Seq<char>,
    spans: Seq<(usize, usize)>,
    lowered: Seq<Seq<char>>,
    matched: Seq<char>,
    low: Seq<char>,
    after: Seq<char>,
)
    requires
        matching::spans_in(text, spans),
        lowered.len() == spans.len(),
        vstd::utf8::encode_utf8(text + matched).len() <= usize::MAX,
    ensures
        ({
            let span = (
                vstd::utf8::encode_utf8(text).len() as usize,
                vstd::utf8::encode_utf8(text + matched).len() as usize,
            );
            let so_far = with_commands(text, spans, lowered);
            with_commands(text + matched + after, spans.push(span), lowered.push(low)) == (
            match speech::first_entry(speech::speech_table(), low) {
                Some(entry) => after_entry(so_far, entry),
                None => so_far + matched,
            }) + after
        }),
{
    matching::lemma_encode_add(text, matched);
    matching::lemma_encode_add(text + matched, after);
    let span = (
        vstd::utf8::encode_utf8(text).len() as usize,
        vstd::utf8::encode_utf8(text + matched).len() as usize,
    );
    let n = spans.len() as int;
    let whole = text + matched + after;
    let all = spans.push(span);
    let more = matched + after;
    assert(whole =~= text + more);
    lemma_written_prefix(text, more, spans, span, lowered, low, n);
    let from = resume_at(spans, n);
    if n > 0 {
        assert(matching::cuts(text, spans[n - 1].1 as int));
    }
    assert(resume_at(all, n) == from);
    matching::lemma_between_prefix(text, more, from, span.0 as int);
    matching::law_offsets_give_back_the_part(text, matched, after);
    let none = Seq::<char>::empty();
    matching::law_offsets_give_back_the_part(text + matched, after, none);
    assert(whole + none =~= whole);
    assert(all[n] == span);
    assert(lowered.push(low)[n] == low);
}

/// The commands that are replaced are those that the pattern finds, each by its own lower-case form.
pub proof fn law_commands_are_those_found(
    text: Seq<char>,
    spans: Seq<(usize, usize)>,
    lowered: Seq<Seq<char>>,
)
    requires
        matching::regex_matches(speech::command_pattern(), text) == Some(spans),
        lowered.len() == spans.len(),
        forall|i: int|
            0 <= i < spans.len() ==> #[trigger] lowered[i] == text::lowercase(
                matching::between(text, spans[i].0 as int, spans[i].1 as int),
            ),
    ensures
        spoken_punctuation_applied(text) == with_commands(text, spans, lowered),
{
    assert(lowered =~= lowered_parts(text, spans));
}

/// The stages of processing, in order: what stands between the outer white space of a transcript is
/// dropped where nothing does or where the filter is on and catches it; else its commands are
/// replaced where that is asked for, its spacing is put right and it is capitalized, and what then
/// stands between outer white space is injected, if anything does.
pub proof fn law_processing_goes_in_stages(
    before: Seq<char>,
    t: Seq<char>,
    after: Seq<char>,
    config: PostprocessingConfig,
    front: Seq<char>,
    out: Seq<char>,
    back: Seq<char>,
)
    requires
        text::all_white(before),
        text::all_white(after),
        t.len() > 0 ==> !text::white_space(t[0]) && !text::white_space(t[t.len() - 1]),
        text::all_white(front),
        text::all_white(back),
        out.len() > 0 ==> !text::white_space(out[0]) && !text::white_space(out[out.len() - 1]),
        front + out + back == capitalized(
            spacing::spaced(
                if config.spoken_punctuation {
                    spoken_punctuation_applied(t)
                } else {
                    t
                },
            ),
        ),
    ensures
        processed(before + t + after, config) == if t.len() == 0 || (config.hallucination_filter
            && filter::hallucination(t)) || out.len() == 0 {
            None
        } else {
            Some(out)
        },
{
    text::law_trimming_gives_what_stands_between(before, t, after);
    text::law_trimming_gives_what_stands_between(front, out, back);
}

} // verus!
