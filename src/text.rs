//! Facts about the UTF-8 encoding of character sequences, and the two
//! primitive steps the cursor is built from: splitting off the first
//! character of a text, and testing whether one text begins with another.
use vstd::prelude::*;
use vstd::string::*;
use vstd::utf8::*;

verus! {

broadcast use vstd::utf8::group_utf8_lib;

/// The number of bytes that the UTF-8 encoding of `cs` occupies.
pub open spec fn byte_len(cs: Seq<char>) -> nat {
    encode_utf8(cs).len()
}

/// Encoding distributes over concatenation.
pub proof fn lemma_encode_concat(a: Seq<char>, b: Seq<char>)
    ensures
        encode_utf8(a + b) == encode_utf8(a) + encode_utf8(b),
    decreases a.len(),
{
    if a.len() == 0 {
        assert(a + b =~= b);
        assert(encode_utf8(a) + encode_utf8(b) =~= encode_utf8(b));
    } else {
        assert((a + b).drop_first() =~= a.drop_first() + b);
        lemma_encode_concat(a.drop_first(), b);
        assert(encode_utf8(a + b) =~= encode_utf8(a) + encode_utf8(b));
    }
}

/// Two character sequences with the same encoding are equal.
pub proof fn lemma_encode_injective(a: Seq<char>, b: Seq<char>)
    requires
        encode_utf8(a) == encode_utf8(b),
    ensures
        a == b,
{
    encode_utf8_decode_utf8(a);
    encode_utf8_decode_utf8(b);
}

/// The end of the encoding of a prefix is a character boundary of the
/// encoding of the whole sequence.
pub proof fn lemma_prefix_boundary(a: Seq<char>, b: Seq<char>)
    ensures
        is_char_boundary(encode_utf8(a + b), byte_len(a) as int),
    decreases a.len(),
{
    let whole = encode_utf8(a + b);
    encode_utf8_valid_utf8(a + b);
    if a.len() > 0 {
        let ab = a + b;
        encode_utf8_first_scalar(ab);
        assert(ab[0] == a[0]);
        assert(ab.drop_first() =~= a.drop_first() + b);
        let head = encode_scalar(a[0] as u32);
        assert(whole =~= head + encode_utf8(a.drop_first() + b));
        assert(pop_first_scalar(whole) =~= encode_utf8(a.drop_first() + b));
        lemma_prefix_boundary(a.drop_first(), b);
        assert(encode_utf8(a) =~= head + encode_utf8(a.drop_first()));
        lemma_encode_concat(a, b);
        assert(whole.len() >= byte_len(a));
    }
}

/// The number of bytes in the UTF-8 encoding of `c`.
pub fn char_width(c: char) -> (w: usize)
    ensures
        w as int == encode_scalar(c as u32).len(),
        1 <= w <= 4,
{
    let v = c as u32;
    if v <= 0x7F {
        1
    } else if v <= 0x7FF {
        2
    } else if v <= 0xFFFF {
        3
    } else {
        4
    }
}

/// Splits `t` into its first character and the text after it, or returns
/// `None` when `t` is empty.
pub fn split_first<'a>(t: &'a str) -> (r: Option<(char, &'a str)>)
    ensures
        t@.len() == 0 <==> r is None,
        r matches Some((c, tail)) ==> c == t@[0] && tail@ == t@.drop_first(),
{
    let mut it = t.chars();
    let first = it.next();
    match first {
        None => None,
        Some(c) => {
            let w = char_width(c);
            proof {
                let cs = t@;
                let tail = cs.drop_first();
                assert(cs =~= seq![c] + tail);
                assert(seq![c].drop_first() =~= Seq::<char>::empty());
                assert(encode_utf8(seq![c]) =~= encode_scalar(c as u32) + encode_utf8(
                    Seq::<char>::empty(),
                ));
                assert(encode_utf8(seq![c]) =~= encode_scalar(c as u32));
                lemma_prefix_boundary(seq![c], tail);
                lemma_encode_concat(seq![c], tail);
            }
            let (_, rest) = t.split_at(w);
            proof {
                let cs = t@;
                let tail = cs.drop_first();
                assert(rest.spec_bytes() =~= encode_utf8(tail));
                lemma_encode_injective(rest@, tail);
            }
            Some((c, rest))
        },
    }
}

/// True when `p` is a prefix of `t`.
pub open spec fn is_prefix_of(p: Seq<char>, t: Seq<char>) -> bool {
    p.len() <= t.len() && t.take(p.len() as int) == p
}

/// Tests whether `t` begins with `p`, comparing character by character.
pub fn starts_with(t: &str, p: &str) -> (r: bool)
    ensures
        r == is_prefix_of(p@, t@),
{
    let mut a = t;
    let mut b = p;
    let ghost mut k: int = 0;
    loop
        invariant
            0 <= k <= t@.len(),
            k <= p@.len(),
            a@ == t@.skip(k),
            b@ == p@.skip(k),
            t@.take(k) == p@.take(k),
        decreases b@.len(),
    {
        match split_first(b) {
            None => {
                assert(p@.take(k) =~= p@);
                return true;
            },
            Some((pc, pr)) => match split_first(a) {
                None => {
                    return false;
                },
                Some((tc, tr)) => {
                    if pc != tc {
                        proof {
                            assert(t@[k] != p@[k]);
                            if is_prefix_of(p@, t@) {
                                assert(t@.take(p@.len() as int)[k] == t@[k]);
                            }
                        }
                        return false;
                    }
                    proof {
                        assert(t@.take(k + 1) =~= t@.take(k).push(tc));
                        assert(p@.take(k + 1) =~= p@.take(k).push(pc));
                        assert(tr@ =~= t@.skip(k + 1));
                        assert(pr@ =~= p@.skip(k + 1));
                        k = k + 1;
                    }
                    a = tr;
                    b = pr;
                },
            },
        }
    }
}

} // verus!
