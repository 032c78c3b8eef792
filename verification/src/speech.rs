//! The spoken punctuation: which phrases are commands, what they stand for, and the pattern that
//! finds them.

use crate::text;
use crate::text::{chars_of, starts_with};
use vstd::prelude::*;

verus! {

/// A spoken phrase and the text that replaces it.
#[derive(Debug, Clone, Copy)]
pub struct SpeechReplacement {
    pub phrase: &'static str,
    pub replacement: &'static str,
    /// Whether the replacement takes the place of punctuation that stands before the phrase.
    pub adjust_preceding_punct: bool,
}

/// All the spoken phrases.
pub open spec fn speech_table() -> Seq<SpeechReplacement> {
    seq![
        SpeechReplacement { phrase: "period", replacement: ".", adjust_preceding_punct: true },
        SpeechReplacement { phrase: "comma", replacement: ",", adjust_preceding_punct: true },
        SpeechReplacement { phrase: "question mark", replacement: "?", adjust_preceding_punct: true },
        SpeechReplacement { phrase: "exclamation mark", replacement: "!", adjust_preceding_punct: true },
        SpeechReplacement { phrase: "exclamation point", replacement: "!", adjust_preceding_punct: true },
        SpeechReplacement { phrase: "colon", replacement: ":", adjust_preceding_punct: true },
        SpeechReplacement { phrase: "semicolon", replacement: ";", adjust_preceding_punct: true },
        SpeechReplacement { phrase: "new line", replacement: "\n", adjust_preceding_punct: false },
        SpeechReplacement { phrase: "tab", replacement: "\t", adjust_preceding_punct: false },
        SpeechReplacement { phrase: "dash dash", replacement: "--", adjust_preceding_punct: false },
        SpeechReplacement { phrase: "dash", replacement: "-", adjust_preceding_punct: false },
        SpeechReplacement { phrase: "hyphen", replacement: "-", adjust_preceding_punct: false },
        SpeechReplacement { phrase: "underscore", replacement: "_", adjust_preceding_punct: false },
        SpeechReplacement { phrase: "open parentheses", replacement: "(", adjust_preceding_punct: false },
        SpeechReplacement { phrase: "open parenthesis", replacement: "(", adjust_preceding_punct: false },
        SpeechReplacement { phrase: "open paren", replacement: "(", adjust_preceding_punct: false },
        SpeechReplacement { phrase: "close parentheses", replacement: ")", adjust_preceding_punct: false },
        SpeechReplacement { phrase: "close parenthesis", replacement: ")", adjust_preceding_punct: false },
        SpeechReplacement { phrase: "close paren", replacement: ")", adjust_preceding_punct: false },
        SpeechReplacement { phrase: "open bracket", replacement: "[", adjust_preceding_punct: false },
        SpeechReplacement { phrase: "close bracket", replacement: "]", adjust_preceding_punct: false },
        SpeechReplacement { phrase: "open brace", replacement: "{", adjust_preceding_punct: false },
        SpeechReplacement { phrase: "close brace", replacement: "}", adjust_preceding_punct: false },
        SpeechReplacement { phrase: "at symbol", replacement: "@", adjust_preceding_punct: false },
        SpeechReplacement { phrase: "hash", replacement: "#", adjust_preceding_punct: false },
        SpeechReplacement { phrase: "dollar sign", replacement: "$", adjust_preceding_punct: false },
        SpeechReplacement { phrase: "percent", replacement: "%", adjust_preceding_punct: false },
        SpeechReplacement { phrase: "caret", replacement: "^", adjust_preceding_punct: false },
        SpeechReplacement { phrase: "ampersand", replacement: "&", adjust_preceding_punct: false },
        SpeechReplacement { phrase: "asterisk", replacement: "*", adjust_preceding_punct: false },
        SpeechReplacement { phrase: "plus", replacement: "+", adjust_preceding_punct: false },
        SpeechReplacement { phrase: "equals", replacement: "=", adjust_preceding_punct: false },
        SpeechReplacement { phrase: "less than", replacement: "<", adjust_preceding_punct: false },
        SpeechReplacement { phrase: "greater than", replacement: ">", adjust_preceding_punct: false },
        SpeechReplacement { phrase: "slash", replacement: "/", adjust_preceding_punct: false },
        SpeechReplacement { phrase: "backslash", replacement: "\\", adjust_preceding_punct: false },
        SpeechReplacement { phrase: "pipe", replacement: "|", adjust_preceding_punct: false },
        SpeechReplacement { phrase: "tilde", replacement: "~", adjust_preceding_punct: false },
        SpeechReplacement { phrase: "grave", replacement: "`", adjust_preceding_punct: false },
        SpeechReplacement { phrase: "double quote", replacement: "\"", adjust_preceding_punct: false },
        SpeechReplacement { phrase: "single quote", replacement: "'", adjust_preceding_punct: false },
        SpeechReplacement { phrase: "quote", replacement: "\"", adjust_preceding_punct: false },
        SpeechReplacement { phrase: "apostrophe", replacement: "'", adjust_preceding_punct: false },
    ]
}

/// All the spoken phrases.
pub fn speech_replacements() -> (table: Vec<SpeechReplacement>)
    ensures
        table@ == speech_table(),
{
    vec![
        SpeechReplacement { phrase: "period", replacement: ".", adjust_preceding_punct: true },
        SpeechReplacement { phrase: "comma", replacement: ",", adjust_preceding_punct: true },
        SpeechReplacement { phrase: "question mark", replacement: "?", adjust_preceding_punct: true },
        SpeechReplacement { phrase: "exclamation mark", replacement: "!", adjust_preceding_punct: true },
        SpeechReplacement { phrase: "exclamation point", replacement: "!", adjust_preceding_punct: true },
        SpeechReplacement { phrase: "colon", replacement: ":", adjust_preceding_punct: true },
        SpeechReplacement { phrase: "semicolon", replacement: ";", adjust_preceding_punct: true },
        SpeechReplacement { phrase: "new line", replacement: "\n", adjust_preceding_punct: false },
        SpeechReplacement { phrase: "tab", replacement: "\t", adjust_preceding_punct: false },
        SpeechReplacement { phrase: "dash dash", replacement: "--", adjust_preceding_punct: false },
        SpeechReplacement { phrase: "dash", replacement: "-", adjust_preceding_punct: false },
        SpeechReplacement { phrase: "hyphen", replacement: "-", adjust_preceding_punct: false },
        SpeechReplacement { phrase: "underscore", replacement: "_", adjust_preceding_punct: false },
        SpeechReplacement { phrase: "open parentheses", replacement: "(", adjust_preceding_punct: false },
        SpeechReplacement { phrase: "open parenthesis", replacement: "(", adjust_preceding_punct: false },
        SpeechReplacement { phrase: "open paren", replacement: "(", adjust_preceding_punct: false },
        SpeechReplacement { phrase: "close parentheses", replacement: ")", adjust_preceding_punct: false },
        SpeechReplacement { phrase: "close parenthesis", replacement: ")", adjust_preceding_punct: false },
        SpeechReplacement { phrase: "close paren", replacement: ")", adjust_preceding_punct: false },
        SpeechReplacement { phrase: "open bracket", replacement: "[", adjust_preceding_punct: false },
        SpeechReplacement { phrase: "close bracket", replacement: "]", adjust_preceding_punct: false },
        SpeechReplacement { phrase: "open brace", replacement: "{", adjust_preceding_punct: false },
        SpeechReplacement { phrase: "close brace", replacement: "}", adjust_preceding_punct: false },
        SpeechReplacement { phrase: "at symbol", replacement: "@", adjust_preceding_punct: false },
        SpeechReplacement { phrase: "hash", replacement: "#", adjust_preceding_punct: false },
        SpeechReplacement { phrase: "dollar sign", replacement: "$", adjust_preceding_punct: false },
        SpeechReplacement { phrase: "percent", replacement: "%", adjust_preceding_punct: false },
        SpeechReplacement { phrase: "caret", replacement: "^", adjust_preceding_punct: false },
        SpeechReplacement { phrase: "ampersand", replacement: "&", adjust_preceding_punct: false },
        SpeechReplacement { phrase: "asterisk", replacement: "*", adjust_preceding_punct: false },
        SpeechReplacement { phrase: "plus", replacement: "+", adjust_preceding_punct: false },
        SpeechReplacement { phrase: "equals", replacement: "=", adjust_preceding_punct: false },
        SpeechReplacement { phrase: "less than", replacement: "<", adjust_preceding_punct: false },
        SpeechReplacement { phrase: "greater than", replacement: ">", adjust_preceding_punct: false },
        SpeechReplacement { phrase: "slash", replacement: "/", adjust_preceding_punct: false },
        SpeechReplacement { phrase: "backslash", replacement: "\\", adjust_preceding_punct: false },
        SpeechReplacement { phrase: "pipe", replacement: "|", adjust_preceding_punct: false },
        SpeechReplacement { phrase: "tilde", replacement: "~", adjust_preceding_punct: false },
        SpeechReplacement { phrase: "grave", replacement: "`", adjust_preceding_punct: false },
        SpeechReplacement { phrase: "double quote", replacement: "\"", adjust_preceding_punct: false },
        SpeechReplacement { phrase: "single quote", replacement: "'", adjust_preceding_punct: false },
        SpeechReplacement { phrase: "quote", replacement: "\"", adjust_preceding_punct: false },
        SpeechReplacement { phrase: "apostrophe", replacement: "'", adjust_preceding_punct: false },
    ]
}

/// The phrases of `table` that are `n` characters long, in the order of the table.
pub open spec fn phrases_of_len(table: Seq<SpeechReplacement>, n: nat) -> Seq<Seq<char>>
    decreases table.len(),
{
    if table.len() == 0 {
        Seq::empty()
    } else if table.last().phrase@.len() == n {
        phrases_of_len(table.drop_last(), n).push(table.last().phrase@)
    } else {
        phrases_of_len(table.drop_last(), n)
    }
}

/// The phrases of `table` of at most `n` characters, the longest first, and in the order of the
/// table among phrases of one length.
pub open spec fn longest_first(table: Seq<SpeechReplacement>, n: nat) -> Seq<Seq<char>>
    decreases n,
{
    if n == 0 {
        phrases_of_len(table, 0)
    } else {
        phrases_of_len(table, n) + longest_first(table, (n - 1) as nat)
    }
}

/// The length of the longest phrase of `table`.
pub open spec fn longest_phrase(table: Seq<SpeechReplacement>) -> nat
    decreases table.len(),
{
    if table.len() == 0 {
        0
    } else {
        let before = longest_phrase(table.drop_last());
        if table.last().phrase@.len() > before {
            table.last().phrase@.len()
        } else {
            before
        }
    }
}

/// The characters that have a meaning of their own in a regular expression.
pub open spec fn meta_character(c: char) -> bool {
    ||| c == '\\'
    ||| c == '.'
    ||| c == '+'
    ||| c == '*'
    ||| c == '?'
    ||| c == '('
    ||| c == ')'
    ||| c == '|'
    ||| c == '['
    ||| c == ']'
    ||| c == '{'
    ||| c == '}'
    ||| c == '^'
    ||| c == '$'
    ||| c == '#'
    ||| c == '&'
    ||| c == '-'
    ||| c == '~'
}

/// `s` with a backslash before each meta character.
pub open spec fn escaped(s: Seq<char>) -> Seq<char>
    decreases s.len(),
{
    if s.len() == 0 {
        Seq::empty()
    } else if meta_character(s.last()) {
        escaped(s.drop_last()).push('\\').push(s.last())
    } else {
        escaped(s.drop_last()).push(s.last())
    }
}

/// `regex::escape` puts a backslash before each of the characters that [`meta_character`] lists,
/// and leaves the others as they are.
pub assume_specification[ regex::escape ](pattern: &str) -> (r: String)
    ensures
        r@ == escaped(pattern@),
;

/// The alternation of `phrases`, each taken literally.
pub open spec fn alternation(phrases: Seq<Seq<char>>) -> Seq<char>
    decreases phrases.len(),
{
    if phrases.len() == 0 {
        Seq::empty()
    } else if phrases.len() == 1 {
        escaped(phrases[0])
    } else {
        alternation(phrases.drop_last()) + "|"@ + escaped(phrases.last())
    }
}

/// The pattern that finds spoken commands: any phrase of the table in any case, as a whole word,
/// with the punctuation that follows it. Longer phrases are tried first.
pub open spec fn command_pattern() -> Seq<char> {
    "(?i)\\b(?P<cmd>"@ + alternation(longest_first(speech_table(), longest_phrase(speech_table())))
        + ")\\b[.!?,;:]*"@
}

/// What each of the phrases holds.
pub open spec fn phrase_texts(phrases: Seq<&'static str>) -> Seq<Seq<char>> {
    phrases.map_values(|p: &'static str| p@)
}

/// The phrases of `table`, the longest first.
fn phrases_by_length(table: &Vec<SpeechReplacement>) -> (phrases: Vec<&'static str>)
    ensures
        phrase_texts(phrases@) == longest_first(table@, longest_phrase(table@)),
{
    let mut longest: usize = 0;
    let mut i: usize = 0;
    while i < table.len()
        invariant
            i <= table@.len(),
            longest == longest_phrase(table@.take(i as int)),
        decreases table@.len() - i,
    {
        let len = chars_of(table[i].phrase).len();
        if len > longest {
            longest = len;
        }
        i = i + 1;
        proof {
            assert(table@.take(i as int).drop_last() =~= table@.take(i - 1));
        }
    }
    proof {
        assert(table@.take(i as int) =~= table@);
    }
    let mut phrases: Vec<&'static str> = Vec::new();
    let mut n: usize = longest;
    let ghost all = longest_first(table@, longest as nat);
    push_phrases_of_len(&mut phrases, table, n);
    while n > 0
        invariant
            n <= longest,
            all == phrase_texts(phrases@) + (if n == 0 {
                Seq::empty()
            } else {
                longest_first(table@, (n - 1) as nat)
            }),
        decreases n,
    {
        n = n - 1;
        push_phrases_of_len(&mut phrases, table, n);
    }
    phrases
}

/// Appends the phrases of `table` that are `n` characters long.
fn push_phrases_of_len(phrases: &mut Vec<&'static str>, table: &Vec<SpeechReplacement>, n: usize)
    ensures
        phrase_texts(final(phrases)@) == phrase_texts(old(phrases)@) + phrases_of_len(
            table@,
            n as nat,
        ),
{
    let ghost before = phrase_texts(phrases@);
    let mut i: usize = 0;
    while i < table.len()
        invariant
            i <= table@.len(),
            phrase_texts(phrases@) == before + phrases_of_len(table@.take(i as int), n as nat),
        decreases table@.len() - i,
    {
        let ghost so_far = phrase_texts(phrases@);
        if chars_of(table[i].phrase).len() == n {
            phrases.push(table[i].phrase);
            proof {
                assert(phrase_texts(phrases@) =~= so_far.push(table@[i as int].phrase@));
            }
        }
        i = i + 1;
        proof {
            let seen = table@.take(i as int);
            assert(seen.drop_last() =~= table@.take(i - 1));
            assert(seen.last() == table@[i - 1]);
        }
    }
    proof {
        assert(table@.take(i as int) =~= table@);
    }
}

/// The pattern that finds spoken commands.
pub fn speech_pattern() -> (pattern: String)
    ensures
        pattern@ == command_pattern(),
{
    let table = speech_replacements();
    let phrases = phrases_by_length(&table);
    let ghost all = phrase_texts(phrases@);
    let mut pattern = "(?i)\\b(?P<cmd>".to_string();
    let ghost head = pattern@;
    let mut i: usize = 0;
    while i < phrases.len()
        invariant
            i <= phrases@.len(),
            all == phrase_texts(phrases@),
            pattern@ == head + alternation(all.take(i as int)),
        decreases phrases@.len() - i,
    {
        if i > 0 {
            pattern.append("|");
        }
        pattern.append(regex::escape(phrases[i]).as_str());
        i = i + 1;
        proof {
            assert(all.take(i as int).drop_last() =~= all.take(i - 1));
        }
    }
    proof {
        assert(all.take(i as int) =~= all);
    }
    pattern.append(")\\b[.!?,;:]*");
    pattern
}

/// The first entry of `table` whose phrase `spoken` starts with.
pub open spec fn first_entry(table: Seq<SpeechReplacement>, spoken: Seq<char>) -> Option<
    SpeechReplacement,
>
    decreases table.len(),
{
    if table.len() == 0 {
        None
    } else if text::occurs_at(spoken, table.first().phrase@, 0) {
        Some(table.first())
    } else {
        first_entry(table.drop_first(), spoken)
    }
}

/// The first entry of `table` whose phrase `spoken` starts with.
pub fn find_entry(table: &Vec<SpeechReplacement>, spoken: &str) -> (entry: Option<SpeechReplacement>)
    ensures
        entry == first_entry(table@, spoken@),
{
    let mut i: usize = 0;
    proof {
        assert(table@.skip(0) =~= table@);
    }
    while i < table.len()
        invariant
            i <= table@.len(),
            first_entry(table@, spoken@) == first_entry(table@.skip(i as int), spoken@),
        decreases table@.len() - i,
    {
        if starts_with(spoken, table[i].phrase) {
            return Some(table[i]);
        }
        proof {
            assert(table@.skip(i as int).drop_first() =~= table@.skip(i + 1));
        }
        i = i + 1;
    }
    None
}

/// The table is ordered so that the entry found for what was spoken has the longest of the phrases
/// that it could stand for: "dash dash" is never taken for "dash".
pub proof fn law_longest_phrase_wins(spoken: Seq<char>, j: int)
    requires
        0 <= j < speech_table().len(),
        text::occurs_at(spoken, speech_table()[j].phrase@, 0),
    ensures
        first_entry(speech_table(), spoken) matches Some(e) && e.phrase@.len()
            >= speech_table()[j].phrase@.len(),
{
    let i = lemma_first_entry(speech_table(), spoken, j);
    let a = speech_table()[i].phrase@;
    let b = speech_table()[j].phrase@;
    if a.len() < b.len() {
        assert(a =~= spoken.subrange(0, a.len() as int));
        assert(b =~= spoken.subrange(0, b.len() as int));
        assert(a.is_prefix_of(b));
        lemma_prefix_order(i, j);
    }
}

/// The first entry stands at some index that is not after any other entry that fits.
proof fn lemma_first_entry(table: Seq<SpeechReplacement>, spoken: Seq<char>, j: int) -> (i: int)
    requires
        0 <= j < table.len(),
        text::occurs_at(spoken, table[j].phrase@, 0),
    ensures
        0 <= i <= j,
        first_entry(table, spoken) == Some(table[i]),
        text::occurs_at(spoken, table[i].phrase@, 0),
    decreases table.len(),
{
    if text::occurs_at(spoken, table.first().phrase@, 0) {
        0
    } else {
        lemma_first_entry(table.drop_first(), spoken, j - 1) + 1
    }
}

/// The alternatives of the pattern are the phrases of the table, each once, and none stands before
/// a longer one.
pub proof fn law_longest_alternatives_first(table: Seq<SpeechReplacement>)
    ensures
        ({
            let phrases = longest_first(table, longest_phrase(table));
            &&& phrases.len() == table.len()
            &&& forall|k: int| 0 <= k < table.len() ==> phrases.contains(#[trigger] table[k].phrase@)
            &&& forall|i: int, j: int|
                0 <= i <= j < phrases.len() ==> #[trigger] phrases[i].len() >= #[trigger] phrases[j].len()
        }),
{
    lemma_longest_bounds(table);
    lemma_longest_first_len(table, longest_phrase(table));
    lemma_longest_first_sorted(table, longest_phrase(table));
    assert forall|k: int| 0 <= k < table.len() implies longest_first(
        table,
        longest_phrase(table),
    ).contains(#[trigger] table[k].phrase@) by {
        lemma_longest_first_contains(table, longest_phrase(table), k);
    }
}

proof fn lemma_longest_bounds(table: Seq<SpeechReplacement>)
    ensures
        forall|k: int| 0 <= k < table.len() ==> (#[trigger] table[k]).phrase@.len() <= longest_phrase(table),
    decreases table.len(),
{
    if table.len() > 0 {
        lemma_longest_bounds(table.drop_last());
        assert forall|k: int| 0 <= k < table.len() implies (#[trigger] table[k]).phrase@.len()
            <= longest_phrase(table) by {
            if k < table.len() - 1 {
                assert(table.drop_last()[k] == table[k]);
            }
        }
    }
}

proof fn lemma_of_len(table: Seq<SpeechReplacement>, n: nat)
    ensures
        forall|i: int| 0 <= i < phrases_of_len(table, n).len() ==> (#[trigger] phrases_of_len(table, n)[i]).len() == n,
        forall|k: int|
            0 <= k < table.len() && (#[trigger] table[k]).phrase@.len() == n ==> phrases_of_len(table, n).contains(
                table[k].phrase@,
            ),
    decreases table.len(),
{
    if table.len() > 0 {
        let before = phrases_of_len(table.drop_last(), n);
        let all = phrases_of_len(table, n);
        lemma_of_len(table.drop_last(), n);
        assert forall|i: int| 0 <= i < all.len() implies (#[trigger] all[i]).len() == n by {
            if i < before.len() {
                assert(all[i] == before[i]);
            }
        }
        assert forall|k: int| 0 <= k < table.len() && (#[trigger] table[k]).phrase@.len() == n implies all.contains(
            table[k].phrase@,
        ) by {
            if k < table.len() - 1 {
                assert(table.drop_last()[k] == table[k]);
                let i = choose|i: int| 0 <= i < before.len() && before[i] == table[k].phrase@;
                assert(all[i] == before[i]);
            } else {
                assert(all[before.len() as int] == table[k].phrase@);
            }
        }
    }
}

proof fn lemma_longest_first_sorted(table: Seq<SpeechReplacement>, n: nat)
    ensures
        forall|i: int| 0 <= i < longest_first(table, n).len() ==> (#[trigger] longest_first(table, n)[i]).len() <= n,
        forall|i: int, j: int|
            0 <= i <= j < longest_first(table, n).len() ==> (#[trigger] longest_first(table, n)[i]).len()
                >= (#[trigger] longest_first(table, n)[j]).len(),
    decreases n,
{
    lemma_of_len(table, n);
    if n > 0 {
        lemma_longest_first_sorted(table, (n - 1) as nat);
        let first = phrases_of_len(table, n);
        let rest = longest_first(table, (n - 1) as nat);
        let all = longest_first(table, n);
        assert forall|i: int| 0 <= i < all.len() implies (#[trigger] all[i]).len() <= n && (i
            < first.len() ==> all[i].len() == n) && (i >= first.len() ==> all[i] == rest[i - first.len()]) by {
            if i < first.len() {
                assert(all[i] == first[i]);
            } else {
                assert(all[i] == rest[i - first.len()]);
            }
        }
    }
}

proof fn lemma_longest_first_contains(table: Seq<SpeechReplacement>, n: nat, k: int)
    requires
        0 <= k < table.len(),
        table[k].phrase@.len() <= n,
    ensures
        longest_first(table, n).contains(table[k].phrase@),
    decreases n,
{
    let phrase = table[k].phrase@;
    let all = longest_first(table, n);
    lemma_of_len(table, n);
    if n > 0 {
        let first = phrases_of_len(table, n);
        let rest = longest_first(table, (n - 1) as nat);
        if phrase.len() == n {
            let i = choose|i: int| 0 <= i < first.len() && first[i] == phrase;
            assert(all[i] == phrase);
        } else {
            lemma_longest_first_contains(table, (n - 1) as nat, k);
            let i = choose|i: int| 0 <= i < rest.len() && rest[i] == phrase;
            assert(all[first.len() + i] == phrase);
        }
    }
}

proof fn lemma_longest_first_len(table: Seq<SpeechReplacement>, n: nat)
    requires
        forall|k: int| 0 <= k < table.len() ==> (#[trigger] table[k]).phrase@.len() <= n,
    ensures
        longest_first(table, n).len() == table.len(),
    decreases table.len(),
{
    if table.len() == 0 {
        lemma_longest_first_empty(table, n);
    } else {
        let before = table.drop_last();
        assert forall|k: int| 0 <= k < before.len() implies (#[trigger] before[k]).phrase@.len() <= n by {
            assert(table[k] == before[k]);
        }
        lemma_longest_first_len(before, n);
        lemma_longest_first_one_more(table, n);
    }
}

proof fn lemma_longest_first_empty(table: Seq<SpeechReplacement>, n: nat)
    requires
        table.len() == 0,
    ensures
        longest_first(table, n).len() == 0,
    decreases n,
{
    if n > 0 {
        lemma_longest_first_empty(table, (n - 1) as nat);
    }
}

proof fn lemma_longest_first_one_more(table: Seq<SpeechReplacement>, n: nat)
    requires
        table.len() > 0,
    ensures
        longest_first(table, n).len() == longest_first(table.drop_last(), n).len() + (if table.last().phrase@.len()
            <= n {
            1int
        } else {
            0
        }),
    decreases n,
{
    if n > 0 {
        lemma_longest_first_one_more(table, (n - 1) as nat);
    }
}

/// No phrase is the start of a longer phrase that comes after it in the table.
proof fn lemma_prefix_order(i: int, j: int)
    requires
        0 <= i < j < speech_table().len(),
        speech_table()[i].phrase@.len() < speech_table()[j].phrase@.len(),
    ensures
        !speech_table()[i].phrase@.is_prefix_of(speech_table()[j].phrase@),
{
    reveal_strlit("period");
    reveal_strlit("comma");
    reveal_strlit("question mark");
    reveal_strlit("exclamation mark");
    reveal_strlit("exclamation point");
    reveal_strlit("colon");
    reveal_strlit("semicolon");
    reveal_strlit("new line");
    reveal_strlit("tab");
    reveal_strlit("dash dash");
    reveal_strlit("dash");
    reveal_strlit("hyphen");
    reveal_strlit("underscore");
    reveal_strlit("open parentheses");
    reveal_strlit("open parenthesis");
    reveal_strlit("open paren");
    reveal_strlit("close parentheses");
    reveal_strlit("close parenthesis");
    reveal_strlit("close paren");
    reveal_strlit("open bracket");
    reveal_strlit("close bracket");
    reveal_strlit("open brace");
    reveal_strlit("close brace");
    reveal_strlit("at symbol");
    reveal_strlit("hash");
    reveal_strlit("dollar sign");
    reveal_strlit("percent");
    reveal_strlit("caret");
    reveal_strlit("ampersand");
    reveal_strlit("asterisk");
    reveal_strlit("plus");
    reveal_strlit("equals");
    reveal_strlit("less than");
    reveal_strlit("greater than");
    reveal_strlit("slash");
    reveal_strlit("backslash");
    reveal_strlit("pipe");
    reveal_strlit("tilde");
    reveal_strlit("grave");
    reveal_strlit("double quote");
    reveal_strlit("single quote");
    reveal_strlit("quote");
    reveal_strlit("apostrophe");
    let a = speech_table()[i].phrase@;
    let b = speech_table()[j].phrase@;
    if a.is_prefix_of(b) {
        assert(a[0] == b[0]);
        assert(a[1] == b[1]);
        assert(a[2] == b[2]);
        if a.len() > 3 {
            assert(a[3] == b[3]);
        }
        if a.len() > 6 {
            assert(a[5] == b[5]);
            assert(a[6] == b[6]);
        }
        if a.len() > 12 {
            assert(a[12] == b[12]);
        }
        assert(false);
    }
}

/// The commands that adjust the punctuation before them are exactly those that stand for one of the
/// six marks that end or divide a sentence.
pub proof fn law_marks_adjust_and_nothing_else_does(i: int)
    requires
        0 <= i < speech_table().len(),
    ensures
        speech_table()[i].adjust_preceding_punct <==> {
            let out = speech_table()[i].replacement@;
            out.len() == 1 && (out[0] == '.' || out[0] == ',' || out[0] == '?' || out[0] == '!'
                || out[0] == ':' || out[0] == ';')
        },
{
    reveal_strlit(".");
    reveal_strlit(",");
    reveal_strlit("?");
    reveal_strlit("!");
    reveal_strlit(":");
    reveal_strlit(";");
    reveal_strlit("\n");
    reveal_strlit("\t");
    reveal_strlit("--");
    reveal_strlit("-");
    reveal_strlit("_");
    reveal_strlit("(");
    reveal_strlit(")");
    reveal_strlit("[");
    reveal_strlit("]");
    reveal_strlit("{");
    reveal_strlit("}");
    reveal_strlit("@");
    reveal_strlit("#");
    reveal_strlit("$");
    reveal_strlit("%");
    reveal_strlit("^");
    reveal_strlit("&");
    reveal_strlit("*");
    reveal_strlit("+");
    reveal_strlit("=");
    reveal_strlit("<");
    reveal_strlit(">");
    reveal_strlit("/");
    reveal_strlit("\\");
    reveal_strlit("|");
    reveal_strlit("~");
    reveal_strlit("`");
    reveal_strlit("\"");
    reveal_strlit("'");
}

/// The entry found for what was spoken is one of the table whose phrase it starts with; none is
/// found exactly where it starts with no phrase of the table.
pub proof fn law_entry_found_is_the_one_spoken(table: Seq<SpeechReplacement>, spoken: Seq<char>)
    ensures
        match first_entry(table, spoken) {
            Some(entry) => table.contains(entry) && exists|rest: Seq<char>|
                spoken == #[trigger] (entry.phrase@ + rest),
            None => forall|i: int, rest: Seq<char>|
                0 <= i < table.len() ==> spoken != #[trigger] (table[i].phrase@ + rest),
        },
    decreases table.len(),
{
    if table.len() > 0 {
        let phrase = table.first().phrase@;
        if text::occurs_at(spoken, phrase, 0) {
            assert(table[0] == table.first());
            let rest = spoken.skip(phrase.len() as int);
            assert(spoken =~= phrase + rest);
        } else {
            law_entry_found_is_the_one_spoken(table.drop_first(), spoken);
            match first_entry(table, spoken) {
                Some(entry) => {
                    let k = choose|k: int|
                        0 <= k < table.drop_first().len() && table.drop_first()[k] == entry;
                    assert(table[k + 1] == entry);
                },
                None => {
                    assert forall|i: int, rest: Seq<char>| 0 <= i < table.len() implies spoken
                        != #[trigger] (table[i].phrase@ + rest) by {
                        if i == 0 {
                            if spoken == phrase + rest {
                                assert(spoken.subrange(0, phrase.len() as int) =~= phrase);
                            }
                        } else {
                            assert(table.drop_first()[i - 1] == table[i]);
                            assert(spoken != table.drop_first()[i - 1].phrase@ + rest);
                        }
                    }
                },
            }
        }
    }
}

} // verus!
