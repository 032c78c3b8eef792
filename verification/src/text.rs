//! Character-level helpers: white space, trimming, searching and joining.
//!
//! Every contract speaks of the sequence of characters that a string holds.

use vstd::prelude::*;

verus! {

/// The characters that carry the Unicode property `White_Space`.
pub open spec fn white_space(c: char) -> bool {
    ||| '\u{9}' <= c <= '\u{d}'
    ||| c == ' '
    ||| c == '\u{85}'
    ||| c == '\u{a0}'
    ||| c == '\u{1680}'
    ||| '\u{2000}' <= c <= '\u{200a}'
    ||| c == '\u{2028}'
    ||| c == '\u{2029}'
    ||| c == '\u{202f}'
    ||| c == '\u{205f}'
    ||| c == '\u{3000}'
}

/// `char::is_whitespace` tests the Unicode property `White_Space`, whose characters
/// [`white_space`] lists.
pub assume_specification[ char::is_whitespace ](c: char) -> (b: bool)
    ensures
        b == white_space(c),
;

/// `String::push` appends one character.
pub assume_specification[ String::push ](s: &mut String, c: char)
    ensures
        final(s)@ == old(s)@.push(c),
;

/// The lower-case form of a text, as Unicode defines it.
pub uninterp spec fn lowercase(s: Seq<char>) -> Seq<char>;

/// `str::to_lowercase` depends on nothing but the text. Unicode's tables of case are not written
/// out: the result goes by the name [`lowercase`].
pub assume_specification[ str::to_lowercase ](s: &str) -> (r: String)
    ensures
        r@ == lowercase(s@),
;

/// Whether a character carries the Unicode property `Alphabetic`.
pub uninterp spec fn alphabetic(c: char) -> bool;

/// `char::is_alphabetic` depends on nothing but the character. Unicode's table of letters is not
/// written out: the result goes by the name [`alphabetic`].
pub assume_specification[ char::is_alphabetic ](c: char) -> (b: bool)
    ensures
        b == alphabetic(c),
;

/// The upper-case form of a character, which may be more than one character.
pub uninterp spec fn uppercase(c: char) -> Seq<char>;

/// `char::to_uppercase` depends on nothing but the character. Unicode's tables of case are not
/// written out: the characters that it yields go by the name [`uppercase`].
#[verifier::external_body]
pub(crate) fn uppercase_of(c: char) -> (upper: Vec<char>)
    ensures
        upper@ == uppercase(c),
{
    c.to_uppercase().collect()
}

/// `s` without the white space that it starts with.
pub open spec fn trim_front(s: Seq<char>) -> Seq<char>
    decreases s.len(),
{
    if s.len() > 0 && white_space(s.first()) {
        trim_front(s.drop_first())
    } else {
        s
    }
}

/// `s` without the white space that it ends with.
pub open spec fn trim_back(s: Seq<char>) -> Seq<char>
    decreases s.len(),
{
    if s.len() > 0 && white_space(s.last()) {
        trim_back(s.drop_last())
    } else {
        s
    }
}

/// `s` without the white space at its two ends.
pub open spec fn trim_both(s: Seq<char>) -> Seq<char> {
    trim_back(trim_front(s))
}

/// The characters of `s` that are no white space, in order.
pub open spec fn ink(s: Seq<char>) -> Seq<char>
    decreases s.len(),
{
    if s.len() == 0 {
        Seq::empty()
    } else if white_space(s.last()) {
        ink(s.drop_last())
    } else {
        ink(s.drop_last()).push(s.last())
    }
}

/// The characters of all the texts that are no white space, in order.
pub open spec fn ink_of(all: Seq<Seq<char>>) -> Seq<char>
    decreases all.len(),
{
    if all.len() == 0 {
        Seq::empty()
    } else {
        ink_of(all.drop_last()) + ink(all.last())
    }
}

/// The visible characters of a concatenation are those of its parts.
pub proof fn lemma_ink_add(a: Seq<char>, b: Seq<char>)
    ensures
        ink(a + b) == ink(a) + ink(b),
    decreases b.len(),
{
    if b.len() == 0 {
        assert(a + b =~= a);
    } else {
        lemma_ink_add(a, b.drop_last());
        assert((a + b).drop_last() =~= a + b.drop_last());
    }
}

/// The visible characters of two lists in a row are those of the lists.
pub proof fn lemma_ink_of_add(a: Seq<Seq<char>>, b: Seq<Seq<char>>)
    ensures
        ink_of(a + b) == ink_of(a) + ink_of(b),
    decreases b.len(),
{
    if b.len() == 0 {
        assert(a + b =~= a);
    } else {
        lemma_ink_of_add(a, b.drop_last());
        assert((a + b).drop_last() =~= a + b.drop_last());
    }
}

/// A text that starts with a visible character has that as its first one.
pub proof fn lemma_ink_first(s: Seq<char>)
    requires
        s.len() > 0,
        !white_space(s.first()),
    ensures
        ink(s).len() > 0,
        ink(s)[0] == s.first(),
    decreases s.len(),
{
    if s.len() > 1 {
        lemma_ink_first(s.drop_last());
    } else {
        assert(s.drop_last() =~= Seq::<char>::empty());
        assert(ink(s.drop_last()) =~= Seq::<char>::empty());
    }
}

/// Trimming takes away no visible character.
pub proof fn lemma_ink_trim(s: Seq<char>)
    ensures
        ink(trim_front(s)) == ink(s),
        ink(trim_back(s)) == ink(s),
        ink(trim_both(s)) == ink(s),
    decreases s.len(),
{
    lemma_ink_trim_front(s);
    lemma_ink_trim_back(s);
    lemma_ink_trim_back(trim_front(s));
}

proof fn lemma_ink_trim_front(s: Seq<char>)
    ensures
        ink(trim_front(s)) == ink(s),
    decreases s.len(),
{
    if s.len() > 0 && white_space(s.first()) {
        lemma_ink_trim_front(s.drop_first());
        lemma_ink_add(seq![s.first()], s.drop_first());
        assert(seq![s.first()] + s.drop_first() =~= s);
        reveal_with_fuel(ink, 2);
        assert(ink(seq![s.first()]) =~= Seq::<char>::empty());
    }
}

proof fn lemma_ink_trim_back(s: Seq<char>)
    ensures
        ink(trim_back(s)) == ink(s),
    decreases s.len(),
{
    if s.len() > 0 && white_space(s.last()) {
        lemma_ink_trim_back(s.drop_last());
    }
}

/// What is left by [`trim_front`] does not start with white space.
pub proof fn lemma_trim_front_visible(s: Seq<char>)
    ensures
        trim_front(s).len() > 0 ==> !white_space(trim_front(s).first()),
    decreases s.len(),
{
    if s.len() > 0 && white_space(s.first()) {
        lemma_trim_front_visible(s.drop_first());
    }
}

/// What is left by [`trim_back`] starts as before and does not end with white space.
pub proof fn lemma_trim_back_visible(s: Seq<char>)
    ensures
        trim_back(s).is_prefix_of(s),
        trim_back(s).len() > 0 ==> !white_space(trim_back(s).last()),
    decreases s.len(),
{
    if s.len() > 0 && white_space(s.last()) {
        lemma_trim_back_visible(s.drop_last());
    }
}

/// What is left by [`trim_both`] neither starts nor ends with white space.
pub proof fn lemma_trim_both_visible(s: Seq<char>)
    ensures
        trim_both(s).len() > 0 ==> !white_space(trim_both(s).first()) && !white_space(
            trim_both(s).last(),
        ),
{
    lemma_trim_front_visible(s);
    lemma_trim_back_visible(trim_front(s));
}

/// What each of the strings holds.
pub open spec fn texts(strings: Seq<String>) -> Seq<Seq<char>> {
    strings.map_values(|s: String| s@)
}

/// The characters of `text`, one per element.
pub fn chars_of(text: &str) -> (chars: Vec<char>)
    ensures
        chars@ == text@,
{
    let mut chars: Vec<char> = Vec::new();
    for c in it: text.chars()
        invariant
            it.seq() == text@,
            chars@ == text@.take(it.index()),
    {
        chars.push(c);
    }
    chars
}

/// The string that holds the characters from index `from` up to, not including, index `to`.
pub fn string_between(chars: &Vec<char>, from: usize, to: usize) -> (r: String)
    requires
        from <= to <= chars@.len(),
    ensures
        r@ == chars@.subrange(from as int, to as int),
{
    let mut r = String::new();
    let mut i: usize = from;
    while i < to
        invariant
            from <= i <= to <= chars@.len(),
            r@ == chars@.subrange(from as int, i as int),
        decreases to - i,
    {
        r.push(chars[i]);
        i = i + 1;
    }
    r
}

/// The string that holds `chars`.
pub fn string_of(chars: &Vec<char>) -> (r: String)
    ensures
        r@ == chars@,
{
    string_between(chars, 0, chars.len())
}

/// `text` without the white space that it starts with.
pub fn trim_start(text: &str) -> (r: String)
    ensures
        r@ == trim_front(text@),
{
    let chars = chars_of(text);
    let from = front_edge(&chars);
    string_between(&chars, from, chars.len())
}

/// `text` without the white space at its two ends.
pub fn trim(text: &str) -> (r: String)
    ensures
        r@ == trim_both(text@),
{
    let chars = chars_of(text);
    let from = front_edge(&chars);
    let mut to: usize = chars.len();
    let ghost front = trim_front(chars@);
    proof {
        assert(front.take(front.len() as int) =~= front);
    }
    while from < to && chars[to - 1].is_whitespace()
        invariant
            from <= to <= chars@.len(),
            front == chars@.skip(from as int),
            trim_back(chars@.subrange(from as int, to as int)) == trim_back(front),
        decreases to,
    {
        proof {
            let s = chars@.subrange(from as int, to as int);
            assert(s.drop_last() =~= chars@.subrange(from as int, to - 1));
        }
        to = to - 1;
    }
    string_between(&chars, from, to)
}

/// The index of the first character that is no white space, or the number of characters.
fn front_edge(chars: &Vec<char>) -> (from: usize)
    ensures
        from <= chars@.len(),
        chars@.skip(from as int) == trim_front(chars@),
{
    let mut from: usize = 0;
    proof {
        assert(chars@.skip(0) =~= chars@);
    }
    while from < chars.len() && chars[from].is_whitespace()
        invariant
            from <= chars@.len(),
            trim_front(chars@.skip(from as int)) == trim_front(chars@),
        decreases chars@.len() - from,
    {
        proof {
            assert(chars@.skip(from as int).drop_first() =~= chars@.skip(from + 1));
        }
        from = from + 1;
    }
    from
}

/// Whether `part` stands in `s` at index `at`.
pub open spec fn occurs_at(s: Seq<char>, part: Seq<char>, at: int) -> bool {
    0 <= at && at + part.len() <= s.len() && s.subrange(at, at + part.len()) == part
}

/// Whether `part` stands anywhere in `s`.
pub open spec fn occurs_in(s: Seq<char>, part: Seq<char>) -> bool {
    exists|at: int| #[trigger] occurs_at(s, part, at)
}

/// Whether `part` stands in `chars` at index `at`.
fn stands_at(chars: &Vec<char>, part: &Vec<char>, at: usize) -> (b: bool)
    requires
        at <= chars@.len(),
    ensures
        b == occurs_at(chars@, part@, at as int),
{
    if chars.len() - at < part.len() {
        return false;
    }
    let mut i: usize = 0;
    while i < part.len()
        invariant
            i <= part@.len(),
            at + part@.len() <= chars@.len() <= usize::MAX,
            forall|j: int| 0 <= j < i ==> chars@[at + j] == part@[j],
        decreases part@.len() - i,
    {
        if chars[at + i] != part[i] {
            proof {
                let window = chars@.subrange(at as int, at + part@.len());
                assert(window[i as int] != part@[i as int]);
            }
            return false;
        }
        i = i + 1;
    }
    proof {
        assert(chars@.subrange(at as int, at + part@.len()) =~= part@);
    }
    true
}

/// Whether `text` starts with `part`.
pub fn starts_with(text: &str, part: &str) -> (b: bool)
    ensures
        b == occurs_at(text@, part@, 0),
{
    stands_at(&chars_of(text), &chars_of(part), 0)
}

/// Whether `part` stands anywhere in `text`.
pub fn contains(text: &str, part: &str) -> (b: bool)
    ensures
        b == occurs_in(text@, part@),
{
    let chars = chars_of(text);
    let sought = chars_of(part);
    let mut at: usize = 0;
    while at < chars.len()
        invariant
            at <= chars@.len(),
            chars@ == text@,
            sought@ == part@,
            forall|j: int| 0 <= j < at ==> !occurs_at(chars@, sought@, j),
        decreases chars@.len() - at,
    {
        if stands_at(&chars, &sought, at) {
            return true;
        }
        at = at + 1;
    }
    stands_at(&chars, &sought, at)
}

/// Whether the two strings hold the same characters.
pub fn same_text(a: &str, b: &str) -> (r: bool)
    ensures
        r == (a@ == b@),
{
    let left = chars_of(a);
    let right = chars_of(b);
    let same = left.len() == right.len() && stands_at(&left, &right, 0);
    proof {
        if left@.len() == right@.len() {
            assert(left@.subrange(0, right@.len() as int) =~= left@);
        }
    }
    same
}

/// Copies each of `strings`.
pub fn copy_texts(strings: &Vec<String>) -> (copies: Vec<String>)
    ensures
        texts(copies@) == texts(strings@),
{
    let mut copies: Vec<String> = Vec::new();
    let mut i: usize = 0;
    while i < strings.len()
        invariant
            i <= strings@.len(),
            texts(copies@) == texts(strings@).take(i as int),
        decreases strings@.len() - i,
    {
        let ghost before = copies@;
        copies.push(strings[i].as_str().to_string());
        proof {
            assert(texts(copies@) =~= texts(before).push(texts(strings@)[i as int]));
            assert(texts(strings@).take(i + 1) =~= texts(strings@).take(i as int).push(
                texts(strings@)[i as int],
            ));
        }
        i = i + 1;
    }
    proof {
        assert(texts(strings@).take(i as int) =~= texts(strings@));
    }
    copies
}

/// Whether `s` holds nothing but white space.
pub open spec fn all_white(s: Seq<char>) -> bool {
    forall|i: int| 0 <= i < s.len() ==> white_space(#[trigger] s[i])
}

/// Trimming at the front takes off white space up to the first other character.
pub proof fn lemma_trim_front_cut(s: Seq<char>) -> (k: int)
    ensures
        0 <= k <= s.len(),
        all_white(s.take(k)),
        k < s.len() ==> !white_space(s[k]),
        trim_front(s) == s.skip(k),
    decreases s.len(),
{
    if s.len() > 0 && white_space(s.first()) {
        let rest = s.drop_first();
        let k = lemma_trim_front_cut(rest);
        assert(s.skip(k + 1) =~= rest.skip(k));
        assert forall|i: int| 0 <= i < k + 1 implies white_space(#[trigger] s.take(k + 1)[i]) by {
            if i > 0 {
                assert(rest.take(k)[i - 1] == s[i]);
            }
        }
        k + 1
    } else {
        assert(s.skip(0) =~= s);
        0
    }
}

/// Trimming at the back takes off white space down to the last other character.
pub proof fn lemma_trim_back_cut(s: Seq<char>) -> (k: int)
    ensures
        0 <= k <= s.len(),
        all_white(s.skip(k)),
        k > 0 ==> !white_space(s[k - 1]),
        trim_back(s) == s.take(k),
    decreases s.len(),
{
    if s.len() > 0 && white_space(s.last()) {
        let front = s.drop_last();
        let k = lemma_trim_back_cut(front);
        assert(s.take(k) =~= front.take(k));
        assert forall|i: int| 0 <= i < s.len() - k implies white_space(#[trigger] s.skip(k)[i]) by {
            if i < front.len() - k {
                assert(front.skip(k)[i] == s.skip(k)[i]);
            }
        }
        k
    } else {
        assert(s.take(s.len() as int) =~= s);
        s.len() as int
    }
}

/// Trimming takes off exactly the white space around what is left: whatever stands between two
/// stretches of white space comes back whole, if it neither starts nor ends with more of it.
pub proof fn law_trimming_gives_what_stands_between(
    before: Seq<char>,
    core: Seq<char>,
    after: Seq<char>,
)
    requires
        all_white(before),
        all_white(after),
        core.len() > 0 ==> !white_space(core[0]) && !white_space(core[core.len() - 1]),
    ensures
        trim_both(before + core + after) == core,
        core.len() > 0 ==> trim_front(before + core + after) == core + after,
{
    let s = before + core + after;
    let k = lemma_trim_front_cut(s);
    if core.len() > 0 {
        assert(s[before.len() as int] == core[0]);
        if k > before.len() {
            assert(white_space(s.take(k)[before.len() as int]));
        }
        if k < before.len() {
            assert(s[k] == before[k]);
        }
        assert(trim_front(s) =~= core + after);
        let m = lemma_trim_back_cut(core + after);
        if m > core.len() {
            assert((core + after)[m - 1] == after[m - 1 - core.len()]);
        }
        if m < core.len() {
            assert((core + after).skip(m)[core.len() - 1 - m] == core[core.len() - 1]);
        }
        assert(trim_both(s) =~= core);
    } else {
        if k < s.len() {
            if k < before.len() {
                assert(s[k] == before[k]);
            } else {
                assert(s[k] == after[k - before.len()]);
            }
        }
        assert(trim_front(s) =~= Seq::<char>::empty());
        assert(trim_both(s) =~= core);
    }
}

/// A part stands in a text exactly where the text can be written with it in the middle.
pub proof fn law_a_part_has_a_text_around_it(s: Seq<char>, part: Seq<char>)
    ensures
        occurs_in(s, part) <==> exists|before: Seq<char>, after: Seq<char>|
            s == #[trigger] (before + part + after),
{
    if occurs_in(s, part) {
        let at = choose|at: int| #[trigger] occurs_at(s, part, at);
        let (before, after) = (s.take(at), s.skip(at + part.len()));
        assert(s =~= before + part + after);
    }
    if exists|before: Seq<char>, after: Seq<char>| s == #[trigger] (before + part + after) {
        let (before, after) = choose|before: Seq<char>, after: Seq<char>|
            s == #[trigger] (before + part + after);
        let at = before.len() as int;
        assert(s.subrange(at, at + part.len()) =~= part);
        assert(occurs_at(s, part, at));
    }
}

/// The texts of strings are what the strings hold, one for each and in order.
pub proof fn law_texts_are_what_strings_hold(strings: Seq<String>, i: int)
    requires
        0 <= i < strings.len(),
    ensures
        texts(strings).len() == strings.len(),
        texts(strings)[i] == strings[i]@,
{
}

} // verus!
