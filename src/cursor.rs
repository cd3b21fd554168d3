//! The cursor: a borrowed text and the part of it not yet consumed.
use vstd::prelude::*;
use vstd::string::*;
use vstd::utf8::*;

use crate::text::{
    byte_len, is_prefix_of, lemma_encode_concat, lemma_encode_injective, lemma_prefix_boundary,
    split_first, starts_with,
};

verus! {

broadcast use vstd::utf8::group_utf8_lib;

/// A cursor over the characters of a string.
///
/// Yields characters one at a time with `next`, looks ahead with `peek`,
/// consumes conditionally with `eat` and `eat_str`, and reports its
/// position in the string in bytes.
#[derive(Debug)]
pub struct BetterChars<'a> {
    s: &'a str,
    tail: &'a str,
}

/// The first character of `cs`, if any.
pub open spec fn first_of(cs: Seq<char>) -> Option<char> {
    if cs.len() > 0 {
        Some(cs[0])
    } else {
        None
    }
}

/// What is left of `cs` once its first character, if any, is taken.
pub open spec fn after_first(cs: Seq<char>) -> Seq<char> {
    if cs.len() > 0 {
        cs.drop_first()
    } else {
        cs
    }
}

/// What matching `p` against the unconsumed text `rest` yields.
pub open spec fn str_match(rest: Seq<char>, p: Seq<char>) -> Option<Seq<char>> {
    if is_prefix_of(p, rest) {
        Some(p)
    } else {
        None
    }
}

/// What is left of `rest` after trying to match `p` against it.
pub open spec fn after_str(rest: Seq<char>, p: Seq<char>) -> Seq<char> {
    if is_prefix_of(p, rest) {
        rest.skip(p.len() as int)
    } else {
        rest
    }
}

/// `r` is what `peek` returns on `before`, leaving it as `after`.
pub open spec fn peek_post<'a>(before: BetterChars<'a>, after: BetterChars<'a>, r: Option<char>) -> bool {
    &&& after == before
    &&& r == first_of(before.rest())
}

/// `r` is what `next` returns on `before`, leaving it as `after`.
pub open spec fn next_post<'a>(before: BetterChars<'a>, after: BetterChars<'a>, r: Option<char>) -> bool {
    &&& after.wf()
    &&& after.text() == before.text()
    &&& r == first_of(before.rest())
    &&& after.rest() == after_first(before.rest())
}

/// `r` is what `eat(c)` returns on `before`, leaving it as `after`.
pub open spec fn eat_post<'a>(
    before: BetterChars<'a>,
    after: BetterChars<'a>,
    c: char,
    r: Option<char>,
) -> bool {
    if first_of(before.rest()) == Some(c) {
        next_post(before, after, r)
    } else {
        after == before && r is None
    }
}

/// `r` is what `eat_str(p)` returns on `before`, leaving it as `after`.
pub open spec fn eat_str_post<'a>(
    before: BetterChars<'a>,
    after: BetterChars<'a>,
    p: Seq<char>,
    r: Option<&'a str>,
) -> bool {
    &&& after.wf()
    &&& after.text() == before.text()
    &&& after.rest() == after_str(before.rest(), p)
    &&& match r {
        Some(m) => str_match(before.rest(), p) == Some(m@),
        None => str_match(before.rest(), p) is None && after == before,
    }
}

impl<'a> BetterChars<'a> {
    /// The whole text the cursor runs over.
    pub closed spec fn text(&self) -> Seq<char> {
        self.s@
    }

    /// The characters not yet consumed.
    pub closed spec fn rest(&self) -> Seq<char> {
        self.tail@
    }

    /// The characters already consumed.
    pub open spec fn consumed(&self) -> Seq<char> {
        self.text().take(self.text().len() - self.rest().len())
    }

    /// The unconsumed characters are a suffix of the text.
    pub open spec fn wf(&self) -> bool {
        &&& self.rest().len() <= self.text().len()
        &&& self.text().skip(self.text().len() - self.rest().len()) == self.rest()
    }

    /// The text is what was consumed followed by what was not.
    pub proof fn lemma_split(&self)
        requires
            self.wf(),
        ensures
            self.text() == self.consumed() + self.rest(),
            byte_len(self.text()) == byte_len(self.consumed()) + byte_len(self.rest()),
    {
        assert(self.text() =~= self.consumed() + self.rest());
        lemma_encode_concat(self.consumed(), self.rest());
    }

    /// Create a new cursor at the start of a string.
    pub fn new(s: &'a str) -> (r: Self)
        ensures
            r.wf(),
            r.text() == s@,
            r.rest() == s@,
    {
        proof {
            assert(s@.skip(0) =~= s@);
        }
        BetterChars { s, tail: s }
    }

    /// Get the current position in the string, in bytes.
    pub fn pos(&self) -> (r: usize)
        requires
            self.wf(),
        ensures
            r == byte_len(self.consumed()),
            is_char_boundary(encode_utf8(self.text()), r as int),
    {
        proof {
            self.lemma_split();
            lemma_prefix_boundary(self.consumed(), self.rest());
        }
        self.s.as_bytes().len() - self.tail.as_bytes().len()
    }

    /// Get the whole underlying string.
    pub fn all(&self) -> (r: &'a str)
        ensures
            r@ == self.text(),
    {
        self.s
    }

    /// Get the remaining part of the underlying string.
    pub fn remainder(&self) -> (r: &'a str)
        ensures
            r@ == self.rest(),
    {
        self.tail
    }

    /// Peek at the next character without consuming it.
    pub fn peek(&mut self) -> (r: Option<char>)
        ensures
            peek_post(*old(self), *final(self), r),
    {
        match split_first(self.tail) {
            None => None,
            Some((c, _)) => Some(c),
        }
    }

    /// Consume the next character and return it, or return `None` at the
    /// end of the string.
    pub fn next(&mut self) -> (r: Option<char>)
        requires
            old(self).wf(),
        ensures
            next_post(*old(self), *final(self), r),
    {
        match split_first(self.tail) {
            None => None,
            Some((c, rest)) => {
                proof {
                    assert(self.s@.skip(self.s@.len() - rest@.len()) =~= rest@);
                }
                self.tail = rest;
                Some(c)
            },
        }
    }

    /// Consume a character if it matches.
    pub fn eat(&mut self, c: char) -> (r: Option<char>)
        requires
            old(self).wf(),
        ensures
            eat_post(*old(self), *final(self), c, r),
    {
        if self.peek() == Some(c) {
            return self.next();
        }
        None
    }

    /// Consume a string if it matches.
    pub fn eat_str(&mut self, s: &str) -> (r: Option<&'a str>)
        requires
            old(self).wf(),
        ensures
            eat_str_post(*old(self), *final(self), s@, r),
    {
        if starts_with(self.tail, s) {
            let ghost rest = self.tail@.skip(s@.len() as int);
            proof {
                assert(self.tail@ =~= s@ + rest);
                lemma_prefix_boundary(s@, rest);
                lemma_encode_concat(s@, rest);
            }
            let (prefix, remainder) = self.tail.split_at(s.as_bytes().len());
            proof {
                assert(prefix.spec_bytes() =~= encode_utf8(s@));
                assert(remainder.spec_bytes() =~= encode_utf8(rest));
                lemma_encode_injective(prefix@, s@);
                lemma_encode_injective(remainder@, rest);
                assert(self.s@.skip(self.s@.len() - rest.len()) =~= rest);
            }
            self.tail = remainder;
            return Some(prefix);
        }
        None
    }
}

impl<'a> Clone for BetterChars<'a> {
    /// An independent cursor over the same text, at the same position.
    fn clone(&self) -> (r: Self)
        ensures
            r == *self,
    {
        BetterChars { s: self.s, tail: self.tail }
    }
}

impl<'a> From<&'a str> for BetterChars<'a> {
    fn from(s: &'a str) -> (r: Self)
        ensures
            r.wf(),
            r.text() == s@,
            r.rest() == s@,
    {
        proof {
            assert(s@.skip(0) =~= s@);
        }
        BetterChars { s, tail: s }
    }
}

impl<'a> vstd::std_specs::convert::FromSpecImpl<&'a str> for BetterChars<'a> {
    open spec fn obeys_from_spec() -> bool {
        true
    }

    closed spec fn from_spec(v: &'a str) -> Self {
        BetterChars { s: v, tail: v }
    }
}

/// Types whose contents can be walked with a [`BetterChars`] cursor.
pub trait IntoBetterChars: View<V = Seq<char>> {
    /// Create a new `BetterChars` cursor at the start of the text.
    fn better_chars(&self) -> (r: BetterChars<'_>)
        ensures
            r.wf(),
            r.text() == self@,
            r.rest() == self@,
    ;
}

impl IntoBetterChars for str {
    fn better_chars(&self) -> (r: BetterChars<'_>) {
        BetterChars::new(self)
    }
}

impl IntoBetterChars for String {
    fn better_chars(&self) -> (r: BetterChars<'_>) {
        BetterChars::new(self.as_str())
    }
}

} // verus!
