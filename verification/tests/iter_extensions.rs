use std::borrow::Cow;
use cml::iter_extensions::{wrap_bytes, wrap_str, Completable, FlattenTuple2, IterExt, QuoteWord, StartsWith};
use cml::shell_quote::QuoteStyle;

#[test]
fn flatten_pairs() {
    let mut f = FlattenTuple2::new(vec![(1, 2), (3, 4)]);
    assert_eq!(f.next(), Some(1));
    assert_eq!(f.next(), Some(2));
    assert_eq!(f.next(), Some(3));
    assert_eq!(f.next(), Some(4));
    assert_eq!(f.next(), None);
    assert_eq!(f.next(), None);
}

#[test]
fn matching_current_word() {
    assert!("open".matches_cword("op"));
    assert!("open".matches_cword(""));
    assert!(!"open".matches_cword("ox"));
    assert!(b"open"[..].matches_cword(&b"ope"[..]));
    let mut s = StartsWith::new(vec!["list".to_string(), "open".to_string(), "other".to_string()], "o");
    assert_eq!(s.next(), Some("open".to_string()));
    assert_eq!(s.next(), Some("other".to_string()));
    assert_eq!(s.next(), None);
}

#[test]
fn quoting() {
    assert_eq!(wrap_bytes(Cow::Borrowed(&b"a b"[..]), QuoteStyle::Backslash, true), Cow::<[u8]>::Owned(b"a\\ b".to_vec()));
    assert_eq!(wrap_bytes(Cow::Borrowed(&b"a b"[..]), QuoteStyle::Single, true), Cow::<[u8]>::Owned(b"'a b'".to_vec()));
    assert_eq!(wrap_bytes(Cow::Borrowed(&b"a b"[..]), QuoteStyle::Single, false), Cow::<[u8]>::Owned(b"'a b".to_vec()));
    assert_eq!(wrap_str(Cow::Borrowed("é x"), QuoteStyle::Backslash, true), "é\\ x");
    assert_eq!(wrap_str(Cow::Borrowed("plain"), QuoteStyle::Backslash, true), "plain");
    let mut q = QuoteWord::new(vec!["a b".to_string(), "c".to_string()], QuoteStyle::Single, false);
    assert_eq!(q.next(), Some("'a b".to_string()));
    assert_eq!(q.next(), Some("'c".to_string()));
    assert_eq!(q.next(), None);
}

#[test]
fn iter_ext_on_words() {
    let words = vec!["alpha beta".to_string(), "gamma".to_string(), "alps".to_string()];
    let mut q = words.quote_matches("al", QuoteStyle::Backslash, true);
    assert_eq!(q.next(), Some("alpha\\ beta".to_string()));
    assert_eq!(q.next(), Some("alps".to_string()));
    assert_eq!(q.next(), None);
    let mut f = vec!["x".to_string(), "y".to_string()].filter_matches("y");
    assert_eq!(f.next(), Some("y".to_string()));
    assert_eq!(f.next(), None);
}
