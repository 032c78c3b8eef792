//! Spacing rules for punctuation.

use crate::text;
use crate::text::{chars_of, string_of};
use vstd::prelude::*;

verus! {

/// A space or a tab.
pub open spec fn blank(c: char) -> bool {
    c == ' ' || c == '\t'
}

/// The punctuation that attaches to the word before it.
pub open spec fn left_attaching(c: char) -> bool {
    c == '.' || c == ',' || c == ';' || c == ':' || c == '!' || c == '?'
}

/// Whether `c` is a space or a tab.
pub fn is_blank(c: char) -> (b: bool)
    ensures
        b == blank(c),
{
    c == ' ' || c == '\t'
}

/// Whether `c` is punctuation that attaches to the word before it.
pub fn is_left_attaching(c: char) -> (b: bool)
    ensures
        b == left_attaching(c),
{
    c == '.' || c == ',' || c == ';' || c == ':' || c == '!' || c == '?'
}

/// What a gap may not stand before.
#[derive(Clone, Copy)]
pub enum Attaching {
    /// Left-attaching punctuation, before which neither spaces nor tabs stand.
    Punctuation,
    /// The closing parenthesis, before which no spaces stand.
    CloseParen,
}

impl Attaching {
    /// Whether `c` is part of a gap.
    pub open spec fn gap(self, c: char) -> bool {
        match self {
            Attaching::Punctuation => blank(c),
            Attaching::CloseParen => c == ' ',
        }
    }

    /// Whether a gap before `c` is closed.
    pub open spec fn closes(self, c: char) -> bool {
        match self {
            Attaching::Punctuation => left_attaching(c),
            Attaching::CloseParen => c == ')',
        }
    }

    fn is_gap(self, c: char) -> (b: bool)
        ensures
            b == self.gap(c),
    {
        match self {
            Attaching::Punctuation => is_blank(c),
            Attaching::CloseParen => c == ' ',
        }
    }

    fn is_closing(self, c: char) -> (b: bool)
        ensures
            b == self.closes(c),
    {
        match self {
            Attaching::Punctuation => is_left_attaching(c),
            Attaching::CloseParen => c == ')',
        }
    }
}

/// Whether `s` starts with a character that closes gaps, after a gap or at once.
pub open spec fn leads_to_closing(kind: Attaching, s: Seq<char>) -> bool
    decreases s.len(),
{
    if s.len() == 0 {
        false
    } else if kind.gap(s.first()) {
        leads_to_closing(kind, s.drop_first())
    } else {
        kind.closes(s.first())
    }
}

/// `s` without the gaps before characters that close them.
pub open spec fn attached(kind: Attaching, s: Seq<char>) -> Seq<char>
    decreases s.len(),
{
    if s.len() == 0 {
        Seq::empty()
    } else if kind.gap(s.first()) && leads_to_closing(kind, s) {
        attached(kind, s.drop_first())
    } else {
        seq![s.first()] + attached(kind, s.drop_first())
    }
}

/// Whether `s` ends with an opening parenthesis and any number of spaces after it.
pub open spec fn ends_opened(s: Seq<char>) -> bool
    decreases s.len(),
{
    if s.len() == 0 {
        false
    } else if s.last() == ' ' {
        ends_opened(s.drop_last())
    } else {
        s.last() == '('
    }
}

/// `s` without the spaces that follow an opening parenthesis.
pub open spec fn opened(s: Seq<char>) -> Seq<char>
    decreases s.len(),
{
    if s.len() == 0 {
        Seq::empty()
    } else if s.last() == ' ' && ends_opened(s.drop_last()) {
        opened(s.drop_last())
    } else {
        opened(s.drop_last()).push(s.last())
    }
}

/// `s` with one space in place of each run of spaces.
pub open spec fn collapsed(s: Seq<char>) -> Seq<char>
    decreases s.len(),
{
    if s.len() == 0 {
        Seq::empty()
    } else if s.len() > 1 && s.last() == ' ' && s[s.len() - 2] == ' ' {
        collapsed(s.drop_last())
    } else {
        collapsed(s.drop_last()).push(s.last())
    }
}

/// `s` with the spacing put right.
pub open spec fn spaced(s: Seq<char>) -> Seq<char> {
    collapsed(attached(Attaching::CloseParen, opened(attached(Attaching::Punctuation, s))))
}

/// The characters in reverse order.
fn reversed(chars: &Vec<char>) -> (r: Vec<char>)
    ensures
        r@ == chars@.reverse(),
{
    let mut r: Vec<char> = Vec::new();
    let mut i: usize = chars.len();
    while i > 0
        invariant
            i <= chars@.len(),
            r@ == chars@.reverse().take(chars@.len() - i),
        decreases i,
    {
        i = i - 1;
        r.push(chars[i]);
    }
    r
}

/// Takes out the gaps before characters that close them.
fn attach(kind: Attaching, chars: &Vec<char>) -> (r: Vec<char>)
    ensures
        r@ == attached(kind, chars@),
{
    let mut backwards: Vec<char> = Vec::new();
    let mut closing = false;
    let mut i: usize = chars.len();
    while i > 0
        invariant
            i <= chars@.len(),
            closing == leads_to_closing(kind, chars@.skip(i as int)),
            backwards@.reverse() == attached(kind, chars@.skip(i as int)),
        decreases i,
    {
        i = i - 1;
        let c = chars[i];
        let ghost before = backwards@;
        proof {
            assert(chars@.skip(i as int).drop_first() =~= chars@.skip(i + 1));
        }
        if kind.is_gap(c) {
            if !closing {
                backwards.push(c);
            }
        } else {
            closing = kind.is_closing(c);
            backwards.push(c);
        }
        proof {
            assert(before.push(c).reverse() =~= seq![c] + before.reverse());
        }
    }
    proof {
        assert(chars@.skip(0) =~= chars@);
    }
    reversed(&backwards)
}

/// Takes out the spaces that follow an opening parenthesis.
fn open_up(chars: &Vec<char>) -> (r: Vec<char>)
    ensures
        r@ == opened(chars@),
{
    let mut r: Vec<char> = Vec::new();
    let mut after_open = false;
    let mut i: usize = 0;
    while i < chars.len()
        invariant
            i <= chars@.len(),
            after_open == ends_opened(chars@.take(i as int)),
            r@ == opened(chars@.take(i as int)),
        decreases chars@.len() - i,
    {
        let c = chars[i];
        proof {
            assert(chars@.take(i + 1).drop_last() =~= chars@.take(i as int));
        }
        if c != ' ' {
            after_open = c == '(';
            r.push(c);
        } else if !after_open {
            r.push(c);
        }
        i = i + 1;
    }
    proof {
        assert(chars@.take(i as int) =~= chars@);
    }
    r
}

/// Puts one space in place of each run of spaces.
fn collapse(chars: &Vec<char>) -> (r: Vec<char>)
    ensures
        r@ == collapsed(chars@),
{
    let mut r: Vec<char> = Vec::new();
    let mut i: usize = 0;
    while i < chars.len()
        invariant
            i <= chars@.len(),
            r@ == collapsed(chars@.take(i as int)),
        decreases chars@.len() - i,
    {
        proof {
            assert(chars@.take(i + 1).drop_last() =~= chars@.take(i as int));
        }
        if !(i > 0 && chars[i] == ' ' && chars[i - 1] == ' ') {
            r.push(chars[i]);
        }
        i = i + 1;
    }
    proof {
        assert(chars@.take(i as int) =~= chars@);
    }
    r
}

/// Takes out the blanks before left-attaching punctuation and the spaces just inside parentheses,
/// and collapses runs of spaces.
pub fn fix_spacing(text: &str) -> (r: String)
    ensures
        r@ == spaced(text@),
{
    let chars = attach(Attaching::Punctuation, &chars_of(text));
    let chars = open_up(&chars);
    let chars = attach(Attaching::CloseParen, &chars);
    string_of(&collapse(&chars))
}

/// Whether `a` may stand directly before `b` in a text whose spacing is right.
pub open spec fn well_spaced_pair(a: char, b: char) -> bool {
    &&& !(blank(a) && left_attaching(b))
    &&& !(a == '(' && b == ' ')
    &&& !(a == ' ' && b == ')')
    &&& !(a == ' ' && b == ' ')
}

/// Whether the spacing of `s` is right: no blank before left-attaching punctuation, no space just
/// inside a parenthesis, and no two spaces in a row.
pub open spec fn well_spaced(s: Seq<char>) -> bool {
    forall|i: int| 0 <= i < s.len() - 1 ==> well_spaced_pair(s[i], #[trigger] s[i + 1])
}

/// No gap that `kind` closes is left in `s`.
spec fn closed_up(kind: Attaching, s: Seq<char>) -> bool {
    forall|i: int| 0 <= i < s.len() - 1 ==> !(kind.gap(s[i]) && kind.closes(#[trigger] s[i + 1]))
}

/// No space follows an opening parenthesis in `s`.
spec fn opened_up(s: Seq<char>) -> bool {
    forall|i: int| 0 <= i < s.len() - 1 ==> !(s[i] == '(' && #[trigger] s[i + 1] == ' ')
}

/// What [`attached`] leaves starts as `s` does, or with the character that closed the gap.
proof fn lemma_attached_first(kind: Attaching, s: Seq<char>)
    requires
        s.len() > 0,
    ensures
        kind.gap(s.first()) && leads_to_closing(kind, s) ==> attached(kind, s).len() > 0
            && kind.closes(attached(kind, s).first()) && !kind.gap(attached(kind, s).first()),
        !(kind.gap(s.first()) && leads_to_closing(kind, s)) ==> attached(kind, s).len() > 0
            && attached(kind, s).first() == s.first(),
    decreases s.len(),
{
    reveal_with_fuel(leads_to_closing, 2);
    if kind.gap(s.first()) && leads_to_closing(kind, s) {
        lemma_attached_first(kind, s.drop_first());
    }
}

proof fn lemma_attached_closed_up(kind: Attaching, s: Seq<char>)
    ensures
        closed_up(kind, attached(kind, s)),
        kind is CloseParen && closed_up(Attaching::Punctuation, s) && opened_up(s) ==> closed_up(
            Attaching::Punctuation,
            attached(kind, s),
        ) && opened_up(attached(kind, s)),
    decreases s.len(),
{
    if s.len() > 0 {
        let rest = s.drop_first();
        let out = attached(kind, rest);
        let all = attached(kind, s);
        lemma_attached_closed_up(kind, rest);
        if closed_up(Attaching::Punctuation, s) && opened_up(s) {
            assert forall|i: int| 0 <= i < rest.len() - 1 implies !(blank(rest[i]) && left_attaching(
                #[trigger] rest[i + 1],
            )) && !(rest[i] == '(' && rest[i + 1] == ' ') by {
                assert(rest[i] == s[i + 1] && rest[i + 1] == s[i + 1 + 1]);
            }
            assert(closed_up(Attaching::Punctuation, rest) && opened_up(rest));
        }
        if !(kind.gap(s.first()) && leads_to_closing(kind, s)) {
            if rest.len() > 0 {
                lemma_attached_first(kind, rest);
                assert(s[0int + 1] == rest[0]);
            }
            assert forall|i: int| 0 <= i < all.len() - 1 implies !(kind.gap(all[i]) && kind.closes(
                #[trigger] all[i + 1],
            )) by {
                if i > 0 {
                    assert(all[i] == out[i - 1] && all[i + 1] == out[i - 1 + 1]);
                } else {
                    assert(all[1] == out[0]);
                }
            }
            if kind is CloseParen && closed_up(Attaching::Punctuation, s) && opened_up(s) {
                assert forall|i: int| 0 <= i < all.len() - 1 implies !(blank(all[i])
                    && left_attaching(#[trigger] all[i + 1])) && !(all[i] == '(' && all[i + 1]
                    == ' ') by {
                    if i > 0 {
                        assert(all[i] == out[i - 1] && all[i + 1] == out[i - 1 + 1]);
                    } else {
                        assert(all[1] == out[0]);
                    }
                }
            }
        }
    }
}

proof fn lemma_opened_last(s: Seq<char>)
    requires
        s.len() > 0,
    ensures
        opened(s).len() > 0,
        s.last() == ' ' && ends_opened(s.drop_last()) ==> opened(s).last() == '(',
        !(s.last() == ' ' && ends_opened(s.drop_last())) ==> opened(s).last() == s.last(),
    decreases s.len(),
{
    if s.last() == ' ' && ends_opened(s.drop_last()) {
        lemma_opened_last(s.drop_last());
    }
}

proof fn lemma_opened_up(s: Seq<char>)
    requires
        closed_up(Attaching::Punctuation, s),
    ensures
        closed_up(Attaching::Punctuation, opened(s)),
        opened_up(opened(s)),
    decreases s.len(),
{
    if s.len() > 0 {
        let front = s.drop_last();
        let out = opened(front);
        let all = opened(s);
        assert forall|i: int| 0 <= i < front.len() - 1 implies !(blank(front[i]) && left_attaching(
            #[trigger] front[i + 1],
        )) by {
            assert(front[i] == s[i] && front[i + 1] == s[i + 1]);
        }
        lemma_opened_up(front);
        if !(s.last() == ' ' && ends_opened(front)) {
            if front.len() > 0 {
                lemma_opened_last(front);
                assert(s[front.len() - 1 + 1] == s.last());
            }
            assert forall|i: int| 0 <= i < all.len() - 1 implies !(blank(all[i]) && left_attaching(
                #[trigger] all[i + 1],
            )) && !(all[i] == '(' && all[i + 1] == ' ') by {
                if i < out.len() - 1 {
                    assert(all[i] == out[i] && all[i + 1] == out[i + 1]);
                } else {
                    assert(all[i] == out.last() && all[i + 1] == s.last());
                }
            }
        }
    }
}

proof fn lemma_collapsed_last(s: Seq<char>)
    requires
        s.len() > 0,
    ensures
        collapsed(s).len() > 0,
        collapsed(s).last() == s.last(),
    decreases s.len(),
{
    if s.len() > 1 && s.last() == ' ' && s[s.len() - 2] == ' ' {
        lemma_collapsed_last(s.drop_last());
    }
}

proof fn lemma_collapsed(s: Seq<char>)
    requires
        closed_up(Attaching::Punctuation, s),
        closed_up(Attaching::CloseParen, s),
        opened_up(s),
    ensures
        well_spaced(collapsed(s)),
    decreases s.len(),
{
    if s.len() > 0 {
        let front = s.drop_last();
        let out = collapsed(front);
        let all = collapsed(s);
        assert forall|i: int| 0 <= i < front.len() - 1 implies !(blank(front[i]) && left_attaching(
            #[trigger] front[i + 1],
        )) && !(front[i] == '(' && front[i + 1] == ' ') && !(front[i] == ' ' && front[i + 1]
            == ')') by {
            assert(front[i] == s[i] && front[i + 1] == s[i + 1]);
        }
        lemma_collapsed(front);
        if !(s.len() > 1 && s.last() == ' ' && s[s.len() - 2] == ' ') {
            if front.len() > 0 {
                lemma_collapsed_last(front);
                assert(s[front.len() - 1 + 1] == s.last());
            }
            assert forall|i: int| 0 <= i < all.len() - 1 implies well_spaced_pair(
                all[i],
                #[trigger] all[i + 1],
            ) by {
                if i < out.len() - 1 {
                    assert(all[i] == out[i] && all[i + 1] == out[i + 1]);
                } else {
                    assert(all[i] == out.last() && all[i + 1] == s.last());
                }
            }
        }
    }
}

/// After the spacing is put right there is no blank before left-attaching punctuation, no space
/// just inside a parenthesis, and no two spaces in a row.
pub proof fn law_spacing_is_right(s: Seq<char>)
    ensures
        well_spaced(spaced(s)),
{
    let first = attached(Attaching::Punctuation, s);
    let second = opened(first);
    lemma_attached_closed_up(Attaching::Punctuation, s);
    lemma_opened_up(first);
    lemma_attached_closed_up(Attaching::CloseParen, second);
    lemma_collapsed(attached(Attaching::CloseParen, second));
}

proof fn lemma_gap_is_near(kind: Attaching, s: Seq<char>)
    requires
        well_spaced(s),
        s.len() > 0,
        kind.gap(s.first()),
    ensures
        !leads_to_closing(kind, s),
    decreases s.len(),
{
    reveal_with_fuel(leads_to_closing, 2);
    let rest = s.drop_first();
    if rest.len() > 0 {
        assert(well_spaced_pair(s[0], s[0int + 1]));
        assert forall|i: int| 0 <= i < rest.len() - 1 implies well_spaced_pair(
            rest[i],
            #[trigger] rest[i + 1],
        ) by {
            assert(rest[i] == s[i + 1] && rest[i + 1] == s[i + 1 + 1]);
        }
        if kind.gap(rest.first()) {
            lemma_gap_is_near(kind, rest);
        }
    }
}

proof fn lemma_attached_same(kind: Attaching, s: Seq<char>)
    requires
        well_spaced(s),
    ensures
        attached(kind, s) == s,
    decreases s.len(),
{
    if s.len() > 0 {
        let rest = s.drop_first();
        assert forall|i: int| 0 <= i < rest.len() - 1 implies well_spaced_pair(
            rest[i],
            #[trigger] rest[i + 1],
        ) by {
            assert(rest[i] == s[i + 1] && rest[i + 1] == s[i + 1 + 1]);
        }
        lemma_attached_same(kind, rest);
        if kind.gap(s.first()) {
            lemma_gap_is_near(kind, s);
        }
        assert(seq![s.first()] + rest =~= s);
    }
}

proof fn lemma_opened_same(s: Seq<char>)
    requires
        well_spaced(s),
    ensures
        opened(s) == s,
        s.len() > 0 && s.last() == ' ' ==> !ends_opened(s),
    decreases s.len(),
{
    if s.len() > 0 {
        let front = s.drop_last();
        assert forall|i: int| 0 <= i < front.len() - 1 implies well_spaced_pair(
            front[i],
            #[trigger] front[i + 1],
        ) by {
            assert(front[i] == s[i] && front[i + 1] == s[i + 1]);
        }
        lemma_opened_same(front);
        if front.len() > 0 {
            assert(well_spaced_pair(s[front.len() - 1], s[front.len() - 1 + 1]));
        }
        assert(front.push(s.last()) =~= s);
    }
}

proof fn lemma_collapsed_same(s: Seq<char>)
    requires
        well_spaced(s),
    ensures
        collapsed(s) == s,
    decreases s.len(),
{
    if s.len() > 0 {
        let front = s.drop_last();
        assert forall|i: int| 0 <= i < front.len() - 1 implies well_spaced_pair(
            front[i],
            #[trigger] front[i + 1],
        ) by {
            assert(front[i] == s[i] && front[i + 1] == s[i + 1]);
        }
        lemma_collapsed_same(front);
        if front.len() > 0 {
            assert(well_spaced_pair(s[front.len() - 1], s[front.len() - 1 + 1]));
        }
        assert(front.push(s.last()) =~= s);
    }
}

/// A text whose spacing is right stays as it is.
pub proof fn law_right_spacing_is_kept(s: Seq<char>)
    requires
        well_spaced(s),
    ensures
        spaced(s) == s,
{
    lemma_attached_same(Attaching::Punctuation, s);
    lemma_opened_same(s);
    lemma_attached_same(Attaching::CloseParen, s);
    lemma_collapsed_same(s);
}

/// Putting the spacing right a second time changes nothing.
pub proof fn law_spacing_is_idempotent(s: Seq<char>)
    ensures
        spaced(spaced(s)) == spaced(s),
{
    law_spacing_is_right(s);
    law_right_spacing_is_kept(spaced(s));
}

/// The characters of `s` that are no blanks, in order.
pub open spec fn unblanked(s: Seq<char>) -> Seq<char>
    decreases s.len(),
{
    if s.len() == 0 {
        Seq::empty()
    } else if blank(s.last()) {
        unblanked(s.drop_last())
    } else {
        unblanked(s.drop_last()).push(s.last())
    }
}

proof fn lemma_unblanked_first(c: char, rest: Seq<char>)
    ensures
        unblanked(seq![c] + rest) == if blank(c) {
            unblanked(rest)
        } else {
            seq![c] + unblanked(rest)
        },
    decreases rest.len(),
{
    reveal_with_fuel(unblanked, 2);
    let all = seq![c] + rest;
    if rest.len() == 0 {
        assert(all.drop_last() =~= Seq::<char>::empty());
        assert(all.last() == c);
        assert(unblanked(all) =~= if blank(c) {
            Seq::empty()
        } else {
            seq![c]
        });
        assert(seq![c] + unblanked(rest) =~= seq![c]);
    } else {
        lemma_unblanked_first(c, rest.drop_last());
        assert(all.drop_last() =~= seq![c] + rest.drop_last());
        assert(all.last() == rest.last());
        assert((seq![c] + unblanked(rest.drop_last())).push(rest.last()) =~= seq![c] + unblanked(
            rest.drop_last(),
        ).push(rest.last()));
    }
}

proof fn lemma_attached_unblanked(kind: Attaching, s: Seq<char>)
    ensures
        unblanked(attached(kind, s)) == unblanked(s),
    decreases s.len(),
{
    if s.len() > 0 {
        let rest = s.drop_first();
        lemma_attached_unblanked(kind, rest);
        lemma_unblanked_first(s.first(), rest);
        lemma_unblanked_first(s.first(), attached(kind, rest));
        assert(seq![s.first()] + rest =~= s);
    }
}

proof fn lemma_opened_unblanked(s: Seq<char>)
    ensures
        unblanked(opened(s)) == unblanked(s),
    decreases s.len(),
{
    if s.len() > 0 {
        lemma_opened_unblanked(s.drop_last());
        assert(opened(s.drop_last()).push(s.last()).drop_last() =~= opened(s.drop_last()));
    }
}

proof fn lemma_collapsed_unblanked(s: Seq<char>)
    ensures
        unblanked(collapsed(s)) == unblanked(s),
    decreases s.len(),
{
    if s.len() > 0 {
        lemma_collapsed_unblanked(s.drop_last());
        assert(collapsed(s.drop_last()).push(s.last()).drop_last() =~= collapsed(s.drop_last()));
    }
}

/// Putting the spacing right keeps every character but spaces and tabs, in order.
pub proof fn law_spacing_keeps_the_words(s: Seq<char>)
    ensures
        unblanked(spaced(s)) == unblanked(s),
{
    let first = attached(Attaching::Punctuation, s);
    let second = opened(first);
    lemma_attached_unblanked(Attaching::Punctuation, s);
    lemma_opened_unblanked(first);
    lemma_attached_unblanked(Attaching::CloseParen, second);
    lemma_collapsed_unblanked(attached(Attaching::CloseParen, second));
}

/// A character that is no blank stands in `s` where it stands in `s` without its blanks.
pub proof fn lemma_unblanked_contains(s: Seq<char>, c: char)
    requires
        !blank(c),
    ensures
        unblanked(s).contains(c) <==> s.contains(c),
    decreases s.len(),
{
    if s.len() > 0 {
        let front = s.drop_last();
        lemma_unblanked_contains(front, c);
        let all = unblanked(s);
        if s.contains(c) {
            let i = choose|i: int| 0 <= i < s.len() && s[i] == c;
            if i < front.len() {
                assert(front[i] == c);
                let k = choose|k: int| 0 <= k < unblanked(front).len() && unblanked(front)[k] == c;
                assert(all[k] == c);
            } else {
                assert(all[all.len() - 1] == c);
            }
        }
        if all.contains(c) {
            let k = choose|k: int| 0 <= k < all.len() && all[k] == c;
            if k < unblanked(front).len() {
                assert(unblanked(front)[k] == c);
                let i = choose|i: int| 0 <= i < front.len() && front[i] == c;
                assert(s[i] == c);
            } else {
                assert(s[s.len() - 1] == c);
            }
        }
    }
}

proof fn lemma_leads_before(kind: Attaching, s: Seq<char>, tail: Seq<char>)
    requires
        !leads_to_closing(kind, tail) || (s.len() > 0 && !kind.gap(s.last())),
    ensures
        leads_to_closing(kind, s + tail) == leads_to_closing(kind, s),
    decreases s.len(),
{
    if s.len() == 0 {
        assert(s + tail =~= tail);
    } else {
        assert((s + tail).drop_first() =~= s.drop_first() + tail);
        if kind.gap(s.first()) {
            if s.len() > 1 {
                assert(s.drop_first().last() == s.last());
            }
            lemma_leads_before(kind, s.drop_first(), tail);
        }
    }
}

/// A text can be cut where no gap is closed across the cut.
proof fn lemma_attached_cut(kind: Attaching, s: Seq<char>, tail: Seq<char>)
    requires
        s.len() == 0 || !kind.gap(s.last()) || !leads_to_closing(kind, tail),
    ensures
        attached(kind, s + tail) == attached(kind, s) + attached(kind, tail),
    decreases s.len(),
{
    if s.len() == 0 {
        assert(s + tail =~= tail);
        assert(attached(kind, s) + attached(kind, tail) =~= attached(kind, tail));
    } else {
        let rest = s.drop_first();
        assert((s + tail).drop_first() =~= rest + tail);
        assert((s + tail).first() == s.first());
        if s.len() > 1 {
            assert(rest.last() == s.last());
        }
        lemma_leads_before(kind, s, tail);
        lemma_attached_cut(kind, rest, tail);
        assert(attached(kind, s + tail) =~= attached(kind, s) + attached(kind, tail));
    }
}

proof fn lemma_attached_gap(kind: Attaching, gap: Seq<char>, tail: Seq<char>)
    requires
        forall|i: int| 0 <= i < gap.len() ==> kind.gap(#[trigger] gap[i]),
    ensures
        leads_to_closing(kind, gap + tail) == leads_to_closing(kind, tail),
        attached(kind, gap + tail) == if leads_to_closing(kind, tail) {
            attached(kind, tail)
        } else {
            gap + attached(kind, tail)
        },
    decreases gap.len(),
{
    if gap.len() == 0 {
        assert(gap + tail =~= tail);
        assert(gap + attached(kind, tail) =~= attached(kind, tail));
    } else {
        let rest = gap.drop_first();
        assert forall|i: int| 0 <= i < rest.len() implies kind.gap(#[trigger] rest[i]) by {
            assert(gap[i + 1] == rest[i]);
        }
        lemma_attached_gap(kind, rest, tail);
        assert((gap + tail).drop_first() =~= rest + tail);
        assert((gap + tail).first() == gap[0]);
        assert(seq![gap[0]] + (rest + attached(kind, tail)) =~= gap + attached(kind, tail));
    }
}

proof fn lemma_attached_ends(kind: Attaching, s: Seq<char>)
    requires
        s.len() > 0,
    ensures
        attached(kind, s).len() > 0,
        attached(kind, s).last() == s.last(),
    decreases s.len(),
{
    reveal_with_fuel(leads_to_closing, 2);
    if s.len() == 1 {
        assert(s.drop_first() =~= Seq::<char>::empty());
        assert(attached(kind, s.drop_first()) =~= Seq::<char>::empty());
        assert(attached(kind, s) =~= s);
    } else {
        lemma_attached_ends(kind, s.drop_first());
        assert(s.drop_first().last() == s.last());
    }
}

proof fn lemma_ends_opened_cut(s: Seq<char>, tail: Seq<char>)
    requires
        tail.len() > 0 && tail.first() == ' ' ==> !ends_opened(s),
        tail.len() > 0,
    ensures
        ends_opened(s + tail) == ends_opened(tail),
    decreases tail.len(),
{
    reveal_with_fuel(ends_opened, 2);
    let all = s + tail;
    assert(all.last() == tail.last());
    assert(all.drop_last() =~= s + tail.drop_last());
    if tail.last() == ' ' {
        if tail.len() == 1 {
            assert(tail.drop_last() =~= Seq::<char>::empty());
            assert(s + tail.drop_last() =~= s);
        } else {
            assert(tail.drop_last().first() == tail.first());
            lemma_ends_opened_cut(s, tail.drop_last());
        }
    }
}

proof fn lemma_opened_cut(s: Seq<char>, tail: Seq<char>)
    requires
        tail.len() > 0 && tail.first() == ' ' ==> !ends_opened(s),
    ensures
        opened(s + tail) == opened(s) + opened(tail),
    decreases tail.len(),
{
    if tail.len() == 0 {
        assert(s + tail =~= s);
        assert(opened(s) + opened(tail) =~= opened(s));
    } else {
        let front = tail.drop_last();
        let all = s + tail;
        assert(all.drop_last() =~= s + front);
        assert(all.last() == tail.last());
        if front.len() > 0 {
            assert(front.first() == tail.first());
            lemma_ends_opened_cut(s, front);
        } else {
            assert(s + front =~= s);
            assert(front =~= Seq::<char>::empty());
        }
        lemma_opened_cut(s, front);
        assert(opened(all) =~= opened(s) + opened(tail));
    }
}

proof fn lemma_collapsed_cut(s: Seq<char>, tail: Seq<char>)
    requires
        s.len() > 0 && tail.len() > 0 ==> s.last() != ' ' || tail.first() != ' ',
    ensures
        collapsed(s + tail) == collapsed(s) + collapsed(tail),
    decreases tail.len(),
{
    if tail.len() == 0 {
        assert(s + tail =~= s);
        assert(collapsed(s) + collapsed(tail) =~= collapsed(s));
    } else {
        let front = tail.drop_last();
        let all = s + tail;
        assert(all.drop_last() =~= s + front);
        assert(all.last() == tail.last());
        if front.len() > 0 {
            assert(front.first() == tail.first());
            assert(all[all.len() - 2] == tail[tail.len() - 2]);
        } else if s.len() > 0 {
            assert(all[all.len() - 2] == s.last());
        }
        lemma_collapsed_cut(s, front);
        assert(collapsed(all) =~= collapsed(s) + collapsed(tail));
    }
}

proof fn lemma_opened_starts(x: char, rest: Seq<char>)
    requires
        x != '(' && x != ' ',
    ensures
        opened(seq![x] + rest) == seq![x] + opened(rest),
{
    reveal_with_fuel(opened, 2);
    reveal_with_fuel(ends_opened, 2);
    assert(seq![x].drop_last() =~= Seq::<char>::empty());
    assert(opened(seq![x]) =~= seq![x]);
    lemma_opened_cut(seq![x], rest);
}

proof fn lemma_collapsed_starts(x: char, rest: Seq<char>)
    requires
        x != ' ',
    ensures
        collapsed(seq![x] + rest) == seq![x] + collapsed(rest),
{
    reveal_with_fuel(collapsed, 2);
    assert(seq![x].drop_last() =~= Seq::<char>::empty());
    assert(collapsed(seq![x]) =~= seq![x]);
    lemma_collapsed_cut(seq![x], rest);
}

/// Past a character that is neither a blank, nor a mark that attaches to the left, nor a closing
/// parenthesis, the spacing is put right as if the text started there.
pub proof fn law_spacing_starts_afresh(before: Seq<char>, x: char, after: Seq<char>)
    requires
        x != ' ' && x != '\t' && x != ')',
        x != ',' && x != '.' && x != ';' && x != ':' && x != '!' && x != '?',
    ensures
        spaced(before + (seq![x] + after)) == spaced(before) + spaced(seq![x] + after),
{
    let tail = seq![x] + after;
    let (a1, c1) = (attached(Attaching::Punctuation, before), attached(Attaching::Punctuation, tail));
    lemma_attached_cut(Attaching::Punctuation, before, tail);
    assert(tail.drop_first() =~= after);
    assert(c1.first() == x);
    let (a2, c2) = (opened(a1), opened(c1));
    lemma_opened_cut(a1, c1);
    lemma_opened_first(c1);
    let (a3, c3) = (attached(Attaching::CloseParen, a2), attached(Attaching::CloseParen, c2));
    lemma_attached_cut(Attaching::CloseParen, a2, c2);
    assert(c3.first() == x);
    lemma_collapsed_cut(a3, c3);
}

proof fn lemma_opened_first(s: Seq<char>)
    requires
        s.len() > 0,
        s.first() != ' ',
    ensures
        opened(s).len() > 0,
        opened(s).first() == s.first(),
    decreases s.len(),
{
    if s.len() > 1 {
        lemma_opened_first(s.drop_last());
    } else {
        assert(s.drop_last() =~= Seq::<char>::empty());
        assert(opened(s.drop_last()) =~= Seq::<char>::empty());
    }
}

/// A character at the start that is neither a blank nor an opening parenthesis is kept, and has no
/// bearing on what follows.
pub proof fn law_spacing_keeps_the_first_character(x: char, after: Seq<char>)
    requires
        x != ' ' && x != '\t' && x != '(',
    ensures
        spaced(seq![x] + after) == seq![x] + spaced(after),
{
    let tail = seq![x] + after;
    assert(tail.drop_first() =~= after);
    let b1 = attached(Attaching::Punctuation, after);
    assert(attached(Attaching::Punctuation, tail) == seq![x] + b1);
    lemma_opened_starts(x, b1);
    let b2 = opened(b1);
    assert((seq![x] + b2).drop_first() =~= b2);
    let b3 = attached(Attaching::CloseParen, b2);
    assert(attached(Attaching::CloseParen, seq![x] + b2) == seq![x] + b3);
    lemma_collapsed_starts(x, b3);
}

/// All spaces and tabs before a mark that attaches to the left are taken out, and nothing else is
/// on their account.
pub proof fn law_marks_attach_to_the_left(
    before: Seq<char>,
    gap: Seq<char>,
    mark: char,
    after: Seq<char>,
)
    requires
        before.len() > 0 ==> before.last() != ' ' && before.last() != '\t',
        forall|i: int| 0 <= i < gap.len() ==> (#[trigger] gap[i]) == ' ' || gap[i] == '\t',
        mark == ',' || mark == '.' || mark == ';' || mark == ':' || mark == '!' || mark == '?',
    ensures
        spaced(before + (gap + (seq![mark] + after))) == spaced(before) + (seq![mark] + spaced(
            after,
        )),
{
    let tail = seq![mark] + after;
    assert(tail.drop_first() =~= after);
    let (a1, b1) = (attached(Attaching::Punctuation, before), attached(Attaching::Punctuation, after));
    lemma_attached_cut(Attaching::Punctuation, before, gap + tail);
    lemma_attached_gap(Attaching::Punctuation, gap, tail);
    assert(attached(Attaching::Punctuation, tail) == seq![mark] + b1);
    let c1 = seq![mark] + b1;
    lemma_opened_cut(a1, c1);
    lemma_opened_starts(mark, b1);
    let (a2, b2) = (opened(a1), opened(b1));
    let c2 = seq![mark] + b2;
    assert(c2.drop_first() =~= b2);
    lemma_attached_cut(Attaching::CloseParen, a2, c2);
    let (a3, b3) = (attached(Attaching::CloseParen, a2), attached(Attaching::CloseParen, b2));
    let c3 = seq![mark] + b3;
    assert(attached(Attaching::CloseParen, c2) == c3);
    lemma_collapsed_cut(a3, c3);
    lemma_collapsed_starts(mark, b3);
}

proof fn lemma_ends_opened_spaces(s: Seq<char>, gap: Seq<char>)
    requires
        forall|i: int| 0 <= i < gap.len() ==> #[trigger] gap[i] == ' ',
    ensures
        ends_opened(s + gap) == ends_opened(s),
        opened(s + gap) == if ends_opened(s) {
            opened(s)
        } else {
            opened(s) + gap
        },
    decreases gap.len(),
{
    let all = s + gap;
    if gap.len() == 0 {
        assert(all =~= s);
        assert(opened(s) + gap =~= opened(s));
    } else {
        let front = gap.drop_last();
        assert forall|i: int| 0 <= i < front.len() implies #[trigger] front[i] == ' ' by {
            assert(gap[i] == front[i]);
        }
        lemma_ends_opened_spaces(s, front);
        assert(all.drop_last() =~= s + front);
        assert(all.last() == gap[gap.len() - 1]);
        assert((opened(s) + front).push(' ') =~= opened(s) + gap);
    }
}

proof fn lemma_without_closing(kind: Attaching, gap: Seq<char>)
    requires
        forall|i: int| 0 <= i < gap.len() ==> kind.gap(#[trigger] gap[i]),
    ensures
        !leads_to_closing(kind, gap),
        attached(kind, gap) == gap,
{
    let none = Seq::<char>::empty();
    lemma_attached_gap(kind, gap, none);
    assert(gap + none =~= gap);
    assert(gap + attached(kind, none) =~= gap);
}

/// All spaces before a closing parenthesis are taken out, and nothing else is on their account.
pub proof fn law_closing_parenthesis_attaches_to_the_left(
    before: Seq<char>,
    gap: Seq<char>,
    after: Seq<char>,
)
    requires
        before.len() > 0 ==> before.last() != ' ',
        forall|i: int| 0 <= i < gap.len() ==> #[trigger] gap[i] == ' ',
    ensures
        spaced(before + gap + (seq![')'] + after)) == spaced(before) + (seq![')'] + spaced(after)),
{
    let tail = seq![')'] + after;
    assert(tail.drop_first() =~= after);
    let (a1, b1) = (attached(Attaching::Punctuation, before), attached(Attaching::Punctuation, after));
    lemma_attached_cut(Attaching::Punctuation, before + gap, tail);
    lemma_without_closing(Attaching::Punctuation, gap);
    lemma_attached_cut(Attaching::Punctuation, before, gap);
    assert(attached(Attaching::Punctuation, tail) == seq![')'] + b1);
    let c1 = seq![')'] + b1;
    lemma_opened_cut(a1 + gap, c1);
    lemma_opened_starts(')', b1);
    lemma_ends_opened_spaces(a1, gap);
    let (a2, b2) = (opened(a1), opened(b1));
    let kept = if ends_opened(a1) {
        Seq::empty()
    } else {
        gap
    };
    assert(opened(a1 + gap) =~= a2 + kept);
    if before.len() > 0 {
        lemma_attached_ends(Attaching::Punctuation, before);
        lemma_opened_last(a1);
    }
    let c2 = seq![')'] + b2;
    assert(c2.drop_first() =~= b2);
    assert(a2 + kept + c2 =~= a2 + (kept + c2));
    lemma_attached_cut(Attaching::CloseParen, a2, kept + c2);
    lemma_attached_gap(Attaching::CloseParen, kept, c2);
    let (a3, b3) = (attached(Attaching::CloseParen, a2), attached(Attaching::CloseParen, b2));
    let c3 = seq![')'] + b3;
    assert(attached(Attaching::CloseParen, c2) == c3);
    lemma_collapsed_cut(a3, c3);
    lemma_collapsed_starts(')', b3);
}

/// All spaces after an opening parenthesis are taken out, and nothing else is on their account.
pub proof fn law_opening_parenthesis_attaches_to_the_right(gap: Seq<char>, after: Seq<char>)
    requires
        forall|i: int| 0 <= i < gap.len() ==> #[trigger] gap[i] == ' ',
        after.len() > 0 ==> after.first() != ' ',
    ensures
        spaced(seq!['('] + (gap + after)) == seq!['('] + spaced(after),
{
    reveal_with_fuel(opened, 2);
    reveal_with_fuel(ends_opened, 2);
    let head = seq!['('];
    let b1 = attached(Attaching::Punctuation, after);
    lemma_attached_gap(Attaching::Punctuation, gap, after);
    assert((head + (gap + after)).drop_first() =~= gap + after);
    let kept = if leads_to_closing(Attaching::Punctuation, after) {
        Seq::empty()
    } else {
        gap
    };
    assert(attached(Attaching::Punctuation, head + (gap + after)) =~= head + kept + b1);
    if b1.len() > 0 {
        lemma_attached_first_not_space(after);
    }
    lemma_opened_cut(head + kept, b1);
    lemma_ends_opened_spaces(head, kept);
    assert(head.drop_last() =~= Seq::<char>::empty());
    assert(opened(head) =~= head);
    let b2 = opened(b1);
    assert((head + b2).drop_first() =~= b2);
    let b3 = attached(Attaching::CloseParen, b2);
    assert(attached(Attaching::CloseParen, head + b2) == head + b3);
    lemma_collapsed_starts('(', b3);
}

proof fn lemma_attached_first_not_space(s: Seq<char>)
    requires
        s.len() > 0 ==> s.first() != ' ' || leads_to_closing(Attaching::Punctuation, s),
        attached(Attaching::Punctuation, s).len() > 0,
    ensures
        attached(Attaching::Punctuation, s).first() != ' ',
    decreases s.len(),
{
    if s.len() > 0 && blank(s.first()) && leads_to_closing(Attaching::Punctuation, s) {
        lemma_attached_first_not_space(s.drop_first());
    }
}

proof fn lemma_collapsed_spaces(gap: Seq<char>)
    requires
        gap.len() > 0,
        forall|i: int| 0 <= i < gap.len() ==> #[trigger] gap[i] == ' ',
    ensures
        collapsed(gap) == seq![' '],
    decreases gap.len(),
{
    reveal_with_fuel(collapsed, 2);
    if gap.len() == 1 {
        assert(gap.drop_last() =~= Seq::<char>::empty());
        assert(gap[0] == ' ');
        assert(collapsed(gap) =~= seq![' ']);
    } else {
        assert forall|i: int| 0 <= i < gap.drop_last().len() implies #[trigger] gap.drop_last()[i]
            == ' ' by {
            assert(gap[i] == gap.drop_last()[i]);
        }
        assert(gap[gap.len() - 1] == ' ' && gap[gap.len() - 2] == ' ');
        lemma_collapsed_spaces(gap.drop_last());
    }
}

/// A run of spaces at the end, not just inside a parenthesis, becomes one space.
pub proof fn law_runs_of_spaces_become_one(before: Seq<char>, gap: Seq<char>)
    requires
        before.len() > 0 ==> before.last() != ' ' && before.last() != '(',
        gap.len() > 0,
        forall|i: int| 0 <= i < gap.len() ==> #[trigger] gap[i] == ' ',
    ensures
        spaced(before + gap) == spaced(before) + seq![' '],
{
    let a1 = attached(Attaching::Punctuation, before);
    lemma_without_closing(Attaching::Punctuation, gap);
    lemma_attached_cut(Attaching::Punctuation, before, gap);
    if before.len() > 0 {
        lemma_attached_ends(Attaching::Punctuation, before);
        lemma_opened_last(a1);
    }
    lemma_ends_opened_spaces(a1, gap);
    let a2 = opened(a1);
    assert(opened(a1 + gap) =~= a2 + gap);
    lemma_without_closing(Attaching::CloseParen, gap);
    lemma_attached_cut(Attaching::CloseParen, a2, gap);
    let a3 = attached(Attaching::CloseParen, a2);
    if a2.len() > 0 {
        lemma_attached_ends(Attaching::CloseParen, a2);
    }
    lemma_collapsed_cut(a3, gap);
    lemma_collapsed_spaces(gap);
}

/// A tab is kept, and divides the text, unless the blanks that follow it lead to a mark that attaches
/// to the left.
pub proof fn law_tabs_are_kept(before: Seq<char>, gap: Seq<char>, after: Seq<char>)
    requires
        forall|i: int| 0 <= i < gap.len() ==> (#[trigger] gap[i]) == ' ' || gap[i] == '\t',
        after.len() > 0 ==> {
            let x = after[0];
            x != ' ' && x != '\t' && x != ',' && x != '.' && x != ';' && x != ':' && x != '!' && x
                != '?'
        },
    ensures
        spaced(before + (seq!['\t'] + (gap + after))) == spaced(before) + (seq!['\t'] + spaced(
            gap + after,
        )),
{
    reveal_with_fuel(leads_to_closing, 2);
    let rest = gap + after;
    let tail = seq!['\t'] + rest;
    assert(tail.drop_first() =~= rest);
    lemma_attached_gap(Attaching::Punctuation, gap, after);
    let (a1, r1) = (attached(Attaching::Punctuation, before), attached(Attaching::Punctuation, rest));
    assert(!leads_to_closing(Attaching::Punctuation, tail));
    lemma_attached_cut(Attaching::Punctuation, before, tail);
    let c1 = seq!['\t'] + r1;
    assert(attached(Attaching::Punctuation, tail) == c1);
    lemma_opened_cut(a1, c1);
    lemma_opened_starts('\t', r1);
    let (a2, r2) = (opened(a1), opened(r1));
    let c2 = seq!['\t'] + r2;
    assert(c2.drop_first() =~= r2);
    lemma_attached_cut(Attaching::CloseParen, a2, c2);
    let (a3, r3) = (attached(Attaching::CloseParen, a2), attached(Attaching::CloseParen, r2));
    let c3 = seq!['\t'] + r3;
    assert(attached(Attaching::CloseParen, c2) == c3);
    lemma_collapsed_cut(a3, c3);
    lemma_collapsed_starts('\t', r3);
}

} // verus!
