use better_chars::{BetterChars, IntoBetterChars};

#[test]
fn eat_str() {
    let mut s = "foobar".better_chars();

    assert_eq!(s.eat_str("foo"), Some("foo"));
    assert_eq!(s.remainder(), "bar");

    assert_eq!(s.eat_str("bar"), Some("bar"));
    assert_eq!(s.remainder(), "");
}

#[test]
fn eat_nothing() {
    let mut s = "hello".better_chars();

    assert_eq!(s.eat_str("hi"), None);
    assert_eq!(s.remainder(), "hello");
}

#[test]
fn eat_str_prefix_of_text() {
    let text = "hello world";
    for n in [0usize, 1, 5, 6, 11] {
        let p = &text[..n];
        let mut s = text.better_chars();
        assert_eq!(s.eat_str(p), Some(p));
        assert_eq!(s.remainder(), &text[n..]);
        assert_eq!(s.pos(), n);
    }
}

#[test]
fn eat_str_returns_slice_of_original() {
    let text = String::from("abcdef");
    let pattern = String::from("abc");
    let mut s = text.better_chars();
    let m = s.eat_str(&pattern).unwrap();
    assert_eq!(m.as_ptr(), text.as_ptr());
    assert_eq!(s.pos(), 3);
}

#[test]
fn eat_str_longer_than_text() {
    let mut s = "ab".better_chars();
    assert_eq!(s.eat_str("abc"), None);
    assert_eq!(s.remainder(), "ab");
    assert_eq!(s.pos(), 0);
}

#[test]
fn eat_str_empty_pattern() {
    let mut s = "xyz".better_chars();
    assert_eq!(s.eat_str(""), Some(""));
    assert_eq!(s.remainder(), "xyz");
    assert_eq!(s.pos(), 0);

    let mut e = "".better_chars();
    assert_eq!(e.eat_str(""), Some(""));
    assert_eq!(e.eat_str("a"), None);
}

#[test]
fn eat_str_multibyte() {
    let mut s = "héllo".better_chars();
    assert_eq!(s.eat_str("hé"), Some("hé"));
    assert_eq!(s.pos(), 3);
    assert_eq!(s.remainder(), "llo");
    assert_eq!(s.eat_str("lx"), None);
    assert_eq!(s.pos(), 3);
}

#[test]
fn peek_is_idempotent() {
    let mut s = "ab".better_chars();
    for _ in 0..5 {
        assert_eq!(s.peek(), Some('a'));
        assert_eq!(s.pos(), 0);
    }
    assert_eq!(s.next(), Some('a'));
    for _ in 0..3 {
        assert_eq!(s.peek(), Some('b'));
        assert_eq!(s.pos(), 1);
    }
}

#[test]
fn next_round_trip() {
    let text = "añ€😀z";
    let mut s = text.better_chars();
    let mut out = String::new();
    let mut positions = Vec::new();
    while let Some(c) = s.next() {
        out.push(c);
        positions.push(s.pos());
    }
    assert_eq!(out, text);
    assert_eq!(positions, vec![1, 3, 6, 10, 11]);
    assert_eq!(s.next(), None);
    assert_eq!(s.pos(), text.len());
    assert_eq!(s.remainder(), "");
}

#[test]
fn empty_text() {
    let mut s = "".better_chars();
    assert_eq!(s.peek(), None);
    assert_eq!(s.next(), None);
    assert_eq!(s.pos(), 0);
    assert_eq!(s.remainder(), "");
    assert_eq!(s.all(), "");
}

#[test]
fn byte_position_after_multibyte() {
    let mut s = "héllo".better_chars();
    assert_eq!(s.next(), Some('h'));
    assert_eq!(s.next(), Some('é'));
    assert_eq!(s.pos(), 3);
    assert_eq!(&s.all()[s.pos()..], "llo");
    assert_eq!(s.remainder(), "llo");
}

#[test]
fn eat_matching_and_not() {
    let mut s = "xy".better_chars();
    assert_eq!(s.eat('y'), None);
    assert_eq!(s.pos(), 0);
    assert_eq!(s.remainder(), "xy");
    assert_eq!(s.eat('x'), Some('x'));
    assert_eq!(s.pos(), 1);
    assert_eq!(s.eat('y'), Some('y'));
    assert_eq!(s.eat('y'), None);
    assert_eq!(s.pos(), 2);
}

#[test]
fn eat_multibyte_char() {
    let mut s = "€1".better_chars();
    assert_eq!(s.eat('€'), Some('€'));
    assert_eq!(s.pos(), 3);
    assert_eq!(s.peek(), Some('1'));
}

#[test]
fn all_is_whole_text() {
    let mut s = BetterChars::new("abc");
    s.next();
    assert_eq!(s.all(), "abc");
    assert_eq!(s.remainder(), "bc");
}

#[test]
fn from_str_ref() {
    let mut s = BetterChars::from("q€");
    assert_eq!(s.pos(), 0);
    assert_eq!(s.next(), Some('q'));
    assert_eq!(s.next(), Some('€'));
    assert_eq!(s.pos(), 4);
}

#[test]
fn clone_is_independent() {
    let mut s = "abc".better_chars();
    s.next();
    let mut t = s.clone();
    assert_eq!(t.eat_str("bc"), Some("bc"));
    assert_eq!(t.pos(), 3);
    assert_eq!(s.pos(), 1);
    assert_eq!(s.remainder(), "bc");
}

#[test]
fn better_chars_on_string() {
    let owned = String::from("hi!");
    let mut s = owned.better_chars();
    assert_eq!(s.eat_str("hi"), Some("hi"));
    assert_eq!(s.peek(), Some('!'));
}
