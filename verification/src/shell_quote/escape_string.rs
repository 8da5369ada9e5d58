//! Quoting of byte strings.

use std::borrow::Cow;
use vstd::prelude::*;
use super::{is_separator_byte, APOSTROPHE, BACKSLASH};
use crate::strings::{lemma_read_escaped_concat, read_escaped};

verus! {

/// Bytes that must be preceded by a backslash in an unquoted bash word:
/// separators, and `\ * ' " $ ! ` ( ) ; | &`.
pub open spec fn needs_backslash(b: u8) -> bool {
    is_separator_byte(b) || b == 92u8 || b == 42u8 || b == 39u8 || b == 34u8 || b == 36u8 || b == 33u8
        || b == 96u8 || b == 40u8 || b == 41u8 || b == 59u8 || b == 124u8 || b == 38u8
}

/// The quoted form of one byte.
pub open spec fn backslash_piece(b: u8) -> Seq<u8> {
    if needs_backslash(b) {
        seq![92u8, b]
    } else {
        seq![b]
    }
}

/// The bytes of `s`, each byte that bash treats specially preceded by a backslash.
pub open spec fn backslash_escape(s: Seq<u8>) -> Seq<u8>
    decreases s.len(),
{
    if s.len() == 0 {
        Seq::empty()
    } else {
        backslash_escape(s.drop_last()) + backslash_piece(s.last())
    }
}

/// The bytes of `s` between single quotes (the closing one only if `close_end`).
pub open spec fn single_quoted(s: Seq<u8>, close_end: bool) -> Seq<u8> {
    if close_end {
        seq![39u8] + s + seq![39u8]
    } else {
        seq![39u8] + s
    }
}

fn needs_escape(b: u8) -> (r: bool)
    ensures
        r == needs_backslash(b),
{
    super::QuoteStyle::is_separator(b) || b == 92u8 || b == 42u8 || b == 39u8 || b == 34u8 || b == 36u8
        || b == 33u8 || b == 96u8 || b == 40u8 || b == 41u8 || b == 59u8 || b == 124u8 || b == 38u8
}

pub fn cow_bytes<'b, 'c>(c: &'b Cow<'c, [u8]>) -> (r: &'b [u8])
    ensures
        r@ == c@,
{
    match c {
        Cow::Borrowed(b) => b,
        Cow::Owned(v) => v.as_slice(),
    }
}

/// Escapes a byte string with backslashes, so that bash reads it as one word
/// with these contents. Borrowed input that needs no escapes stays borrowed.
pub fn as_backslash(s: Cow<'_, [u8]>) -> (r: Cow<'_, [u8]>)
    ensures
        r@ == backslash_escape(s@),
        (r is Owned) == ((s is Owned) || exists|i: int| 0 <= i < s@.len() && needs_backslash(s@[i])),
{
    let mut out: Vec<u8> = Vec::new();
    let mut any = false;
    {
        let b = cow_bytes(&s);
        let mut i: usize = 0;
        while i < b.len()
            invariant
                i <= b@.len(),
                b@ == s@,
                out@ == backslash_escape(b@.take(i as int)),
                any == exists|j: int| 0 <= j < i && needs_backslash(b@[j]),
            decreases b@.len() - i,
        {
            let c = b[i];
            proof {
                assert(b@.take(i + 1).drop_last() =~= b@.take(i as int));
            }
            if needs_escape(c) {
                out.push(92u8);
                any = true;
            }
            out.push(c);
            proof {
                assert(out@ =~= backslash_escape(b@.take(i as int)) + backslash_piece(c));
            }
            i = i + 1;
        }
        proof {
            assert(b@.take(b@.len() as int) =~= b@);
        }
    }
    if !any {
        proof {
            lemma_escape_identity(s@);
        }
        s
    } else {
        Cow::Owned(out)
    }
}

proof fn lemma_backslash_reads_back(word: Seq<u8>, plain: spec_fn(u8) -> bool)
    requires
        forall|b: u8| #[trigger] plain(b) == !needs_backslash(b),
    ensures
        read_escaped(backslash_escape(word), 92u8, plain) == Some(word),
    decreases word.len(),
{
    if word.len() > 0 {
        let b = word.last();
        lemma_backslash_reads_back(word.drop_last(), plain);
        let piece = backslash_piece(b);
        assert(piece.skip(piece.len() as int) =~= Seq::<u8>::empty());
        assert(read_escaped(Seq::<u8>::empty(), 92u8, plain) == Some(Seq::<u8>::empty()));
        if needs_backslash(b) {
            assert(piece.skip(2) =~= Seq::<u8>::empty());
        } else {
            assert(plain(b));
            assert(piece.skip(1) =~= Seq::<u8>::empty());
        }
        assert(read_escaped(piece, 92u8, plain) == Some(seq![b]));
        lemma_read_escaped_concat(backslash_escape(word.drop_last()), piece, 92u8, plain);
        assert(word.drop_last() + seq![b] =~= word);
    }
}

/// Backslash quoting makes a word that bash reads back as the original
/// bytes: every separator (tab, newline, vertical tab, form feed, carriage
/// return, space) and every one of `\ * ' " $ ! ` ( ) ; | &` is preceded by
/// a backslash, so none of them stands unescaped in the quoted word.
pub proof fn law_backslash_quoting_reads_back(word: Seq<u8>)
    ensures
        read_escaped(
            backslash_escape(word),
            92u8,
            |b: u8|
                !(b == 9u8 || b == 10u8 || b == 11u8 || b == 12u8 || b == 13u8 || b == 32u8 || b == 92u8
                    || b == 42u8 || b == 39u8 || b == 34u8 || b == 36u8 || b == 33u8 || b == 96u8 || b == 40u8
                    || b == 41u8 || b == 59u8 || b == 124u8 || b == 38u8),
        ) == Some(word),
{
    let plain = |b: u8|
        !(b == 9u8 || b == 10u8 || b == 11u8 || b == 12u8 || b == 13u8 || b == 32u8 || b == 92u8 || b == 42u8
            || b == 39u8 || b == 34u8 || b == 36u8 || b == 33u8 || b == 96u8 || b == 40u8 || b == 41u8
            || b == 59u8 || b == 124u8 || b == 38u8);
    lemma_backslash_reads_back(word, plain);
}

proof fn lemma_escape_identity(s: Seq<u8>)
    requires
        forall|i: int| 0 <= i < s.len() ==> !needs_backslash(#[trigger] s[i]),
    ensures
        backslash_escape(s) == s,
    decreases s.len(),
{
    if s.len() > 0 {
        lemma_escape_identity(s.drop_last());
        assert(s.drop_last().push(s.last()) =~= s);
    }
}

/// Wraps a byte string in single quotes; the closing quote is only added if `close_end`.
// this will always allocate: no way to add characters without allocating
pub fn as_single(s: Vec<u8>, close_end: bool) -> (r: Vec<u8>)
    ensures
        r@ == single_quoted(s@, close_end),
{
    let ghost s0 = s@;
    let mut s = s;
    s.insert(0, APOSTROPHE);
    assert(s@ =~= seq![39u8] + s0);
    if close_end {
        s.push(APOSTROPHE);
        assert(s@ =~= seq![39u8] + s0 + seq![39u8]);
    }
    s
}

} // verus!
