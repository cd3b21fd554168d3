//! Properties that relate several operations of the cursor.
use vstd::prelude::*;

use crate::cursor::{after_str, eat_str_post, first_of, next_post, peek_post, str_match, BetterChars};
use crate::text::{byte_len, is_prefix_of};

verus! {

/// On a fresh cursor, matching a prefix `p` of the text succeeds, yields
/// `p`, and leaves the text with `p` stripped from the front.
pub proof fn law_eat_str_prefix<'a>(
    c0: BetterChars<'a>,
    c1: BetterChars<'a>,
    p: Seq<char>,
    r: Option<&'a str>,
)
    requires
        c0.wf(),
        c0.rest() == c0.text(),
        is_prefix_of(p, c0.text()),
        eat_str_post(c0, c1, p, r),
    ensures
        r matches Some(m) && m@ == p,
        c1.rest() == c0.text().skip(p.len() as int),
        p + c1.rest() == c0.text(),
{
    assert(p + c0.text().skip(p.len() as int) =~= c0.text());
}

/// On a fresh cursor, matching a string `p` that is not a prefix of the
/// text fails and leaves the cursor as it was, with the whole text left.
pub proof fn law_eat_str_mismatch<'a>(
    c0: BetterChars<'a>,
    c1: BetterChars<'a>,
    p: Seq<char>,
    r: Option<&'a str>,
)
    requires
        c0.wf(),
        c0.rest() == c0.text(),
        !is_prefix_of(p, c0.text()),
        eat_str_post(c0, c1, p, r),
    ensures
        r is None,
        c1 == c0,
        c1.rest() == c0.text(),
{
}

/// Any run of consecutive peeks returns the same result every time and
/// never moves the cursor.
pub proof fn law_peek_idempotent<'a>(states: Seq<BetterChars<'a>>, results: Seq<Option<char>>)
    requires
        states.len() == results.len() + 1,
        forall|i: int| 0 <= i < results.len() ==> peek_post(states[i], #[trigger] states[i + 1], results[i]),
    ensures
        forall|i: int| 0 <= i < states.len() ==> #[trigger] states[i] == states[0],
        forall|i: int| 0 <= i < results.len() ==> #[trigger] results[i] == first_of(states[0].rest()),
    decreases results.len(),
{
    if results.len() > 0 {
        let n = results.len() - 1;
        law_peek_idempotent(states.take(n + 1), results.take(n));
        assert(states.take(n + 1)[n] == states[n]);
        assert forall|i: int| 0 <= i < states.len() implies #[trigger] states[i] == states[0] by {
            if i < n + 1 {
                assert(states.take(n + 1)[i] == states[i]);
            } else {
                assert(peek_post(states[n], states[n + 1], results[n]));
            }
        }
        assert forall|i: int| 0 <= i < results.len() implies #[trigger] results[i] == first_of(
            states[0].rest(),
        ) by {
            assert(peek_post(states[i], states[i + 1], results[i]));
        }
    }
}

/// After the characters `out` have been taken one by one with `next`, what
/// was taken followed by what is left is what was there before.
pub proof fn lemma_next_run<'a>(states: Seq<BetterChars<'a>>, out: Seq<char>)
    requires
        states.len() == out.len() + 1,
        forall|i: int| 0 <= i < out.len() ==> next_post(states[i], #[trigger] states[i + 1], Some(out[i])),
    ensures
        out + states.last().rest() == states[0].rest(),
    decreases out.len(),
{
    if out.len() > 0 {
        let n = out.len() - 1;
        let pre = states.take(n + 1);
        assert forall|i: int| 0 <= i < out.take(n).len() implies next_post(
            pre[i],
            #[trigger] pre[i + 1],
            Some(out.take(n)[i]),
        ) by {
            assert(next_post(states[i], states[i + 1], Some(out[i])));
        }
        lemma_next_run(pre, out.take(n));
        assert(pre.last() == states[n]);
        assert(next_post(states[n], states[n + 1], Some(out[n])));
        let before = states[n].rest();
        assert(before =~= seq![out[n]] + before.drop_first());
        assert(out =~= out.take(n) + seq![out[n]]);
        assert(out + states.last().rest() =~= out.take(n) + before);
    }
}

/// Taking the characters of a fresh cursor one by one with `next` until it
/// is exhausted yields exactly its text, in order.
pub proof fn law_next_round_trip<'a>(states: Seq<BetterChars<'a>>, out: Seq<char>)
    requires
        states.len() == out.len() + 1,
        states[0].rest() == states[0].text(),
        forall|i: int| 0 <= i < out.len() ==> next_post(states[i], #[trigger] states[i + 1], Some(out[i])),
        states.last().rest().len() == 0,
    ensures
        out == states[0].text(),
{
    lemma_next_run(states, out);
    assert(out + states.last().rest() =~= out);
}

/// On an empty text nothing can be peeked or taken, the position is zero
/// and nothing remains.
pub proof fn law_empty_text<'a>(c: BetterChars<'a>)
    requires
        c.wf(),
        c.text().len() == 0,
    ensures
        first_of(c.rest()) is None,
        byte_len(c.consumed()) == 0,
        c.rest().len() == 0,
        forall|after: BetterChars<'a>, r: Option<char>| #[trigger] peek_post(c, after, r) ==> r is None,
        forall|after: BetterChars<'a>, r: Option<char>| #[trigger] next_post(c, after, r) ==> r is None && after.rest() == c.rest(),
{
    assert(c.consumed() =~= Seq::<char>::empty());
    assert(vstd::utf8::encode_utf8(Seq::<char>::empty()).len() == 0);
}

/// Matching the empty string always succeeds and consumes nothing.
pub proof fn law_eat_str_empty(rest: Seq<char>)
    ensures
        str_match(rest, Seq::empty()) == Some(Seq::<char>::empty()),
        after_str(rest, Seq::empty()) == rest,
{
    assert(rest.take(0) =~= Seq::<char>::empty());
    assert(rest.skip(0) =~= rest);
}

} // verus!
