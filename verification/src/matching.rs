//! Regular-expression search, and cutting a text at the byte offsets that it reports.

use vstd::prelude::*;

verus! {

/// Where the regular expression `pattern` matches in `text`: the byte offsets at which each match
/// starts and ends. `None` if `pattern` is no valid expression.
pub uninterp spec fn regex_matches(pattern: Seq<char>, text: Seq<char>) -> Option<Seq<(usize, usize)>>;

/// The characters that stand in `text` between two byte offsets.
pub open spec fn between(text: Seq<char>, from: int, to: int) -> Seq<char> {
    vstd::utf8::decode_utf8(vstd::utf8::encode_utf8(text).subrange(from, to))
}

/// Whether a byte offset falls between two characters of `text`, or at one of its ends.
pub open spec fn cuts(text: Seq<char>, at: int) -> bool {
    0 <= at <= vstd::utf8::encode_utf8(text).len() && vstd::utf8::is_char_boundary(
        vstd::utf8::encode_utf8(text),
        at,
    )
}

/// Whether `spans` are places of `text`, in order and without overlap.
pub open spec fn spans_in(text: Seq<char>, spans: Seq<(usize, usize)>) -> bool {
    &&& forall|i: int|
        0 <= i < spans.len() ==> (#[trigger] spans[i]).0 <= spans[i].1 && cuts(
            text,
            spans[i].0 as int,
        ) && cuts(text, spans[i].1 as int)
    &&& forall|i: int, j: int|
        0 <= i < j < spans.len() ==> (#[trigger] spans[i]).1 <= (#[trigger] spans[j]).0
}

/// Compiles `pattern` with `regex::Regex::new` and lists the byte offsets of the matches that
/// `Regex::find_iter` yields. The crate promises that successive matches do not overlap and that
/// their offsets fall on character boundaries; where the matches are is left to its own definition
/// of a match.
#[verifier::external_body]
pub(crate) fn find_spans(pattern: &str, text: &str) -> (spans: Option<Vec<(usize, usize)>>)
    ensures
        match spans {
            Some(found) => regex_matches(pattern@, text@) == Some(found@) && spans_in(
                text@,
                found@,
            ),
            None => regex_matches(pattern@, text@) is None,
        },
{
    match regex::Regex::new(pattern) {
        Ok(regex) => Some(regex.find_iter(text).map(|m| (m.start(), m.end())).collect()),
        Err(_) => None,
    }
}

/// The part of `text` between two byte offsets.
pub fn slice_of<'a>(text: &'a str, from: usize, to: usize) -> (part: &'a str)
    requires
        from <= to,
        cuts(text@, from as int),
        cuts(text@, to as int),
    ensures
        part@ == between(text@, from as int, to as int),
{
    let ghost bytes = vstd::utf8::encode_utf8(text@);
    let (head, _) = text.split_at(to);
    proof {
        vstd::utf8::encode_utf8_valid_utf8(text@);
        vstd::utf8::valid_utf8_split(bytes, to as int);
        let before = bytes.subrange(0, to as int);
        if from == to {
            vstd::utf8::is_char_boundary_start_end_of_seq(before);
        } else {
            vstd::utf8::is_char_boundary_iff_not_is_continuation_byte(bytes, from as int);
            vstd::utf8::is_char_boundary_iff_not_is_continuation_byte(before, from as int);
            assert(before[from as int] == bytes[from as int]);
        }
    }
    let (_, part) = head.split_at(from);
    proof {
        assert(bytes.subrange(0, to as int).subrange(from as int, to as int) =~= bytes.subrange(
            from as int,
            to as int,
        ));
        vstd::utf8::encode_utf8_decode_utf8(part@);
    }
    part
}

/// The encoding of a concatenation is that of its parts.
pub proof fn lemma_encode_add(a: Seq<char>, b: Seq<char>)
    ensures
        vstd::utf8::encode_utf8(a + b) == vstd::utf8::encode_utf8(a) + vstd::utf8::encode_utf8(b),
    decreases a.len(),
{
    if a.len() == 0 {
        assert(a + b =~= b);
        assert(vstd::utf8::encode_utf8(a) =~= Seq::<u8>::empty());
        assert(Seq::<u8>::empty() + vstd::utf8::encode_utf8(b) =~= vstd::utf8::encode_utf8(b));
    } else {
        lemma_encode_add(a.drop_first(), b);
        assert((a + b).drop_first() =~= a.drop_first() + b);
        assert((a + b)[0] == a[0]);
        assert(vstd::utf8::encode_utf8(a + b) =~= vstd::utf8::encode_utf8(a)
            + vstd::utf8::encode_utf8(b));
    }
}

/// What stands between the offsets at which a part starts and ends is that part.
pub proof fn law_offsets_give_back_the_part(before: Seq<char>, part: Seq<char>, after: Seq<char>)
    ensures
        between(
            before + part + after,
            vstd::utf8::encode_utf8(before).len() as int,
            vstd::utf8::encode_utf8(before + part).len() as int,
        ) == part,
{
    lemma_encode_add(before, part);
    lemma_encode_add(before + part, after);
    let from = vstd::utf8::encode_utf8(before).len() as int;
    let to = vstd::utf8::encode_utf8(before + part).len() as int;
    assert(vstd::utf8::encode_utf8(before + part + after).subrange(from, to)
        =~= vstd::utf8::encode_utf8(part));
    vstd::utf8::encode_utf8_decode_utf8(part);
}

/// What stands between two offsets does not depend on what comes behind them.
pub proof fn lemma_between_prefix(text: Seq<char>, more: Seq<char>, from: int, to: int)
    requires
        0 <= from <= to <= vstd::utf8::encode_utf8(text).len(),
    ensures
        between(text + more, from, to) == between(text, from, to),
{
    lemma_encode_add(text, more);
    assert(vstd::utf8::encode_utf8(text + more).subrange(from, to) =~= vstd::utf8::encode_utf8(
        text,
    ).subrange(from, to));
}

} // verus!
