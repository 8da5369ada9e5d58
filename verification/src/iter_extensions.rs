//! Helpers that turn lists of words into shell completions: filtering by the
//! current word, and quoting.

use std::borrow::Cow;
use vstd::prelude::*;
use vstd::utf8::{encode_utf8, decode_utf8, valid_utf8, encode_scalar, encode_utf8_valid_utf8, valid_utf8_concat};
use crate::shell_quote::{QuoteStyle, QuotedString, QView};
use crate::shell_quote::escape_string::{backslash_escape, backslash_piece, single_quoted, needs_backslash};
use crate::strings::{owned, str_starts_with, seq_starts_with, utf8_str, lemma_utf8_text};
use crate::term::buffer::copy_bytes;

verus! {

// ---------------------------------------------------------------------------
// Quoting keeps text valid
// ---------------------------------------------------------------------------

proof fn lemma_backslash_escape_concat(a: Seq<u8>, b: Seq<u8>)
    ensures
        backslash_escape(a + b) == backslash_escape(a) + backslash_escape(b),
    decreases b.len(),
{
    if b.len() == 0 {
        assert(a + b =~= a);
        assert(backslash_escape(a) + backslash_escape(b) =~= backslash_escape(a));
    } else {
        assert((a + b).drop_last() =~= a + b.drop_last());
        assert((a + b).last() == b.last());
        lemma_backslash_escape_concat(a, b.drop_last());
        assert(backslash_escape(a) + backslash_escape(b.drop_last()) + backslash_piece(b.last()) =~= backslash_escape(a)
            + (backslash_escape(b.drop_last()) + backslash_piece(b.last())));
    }
}

proof fn lemma_backslash_escape_high(s: Seq<u8>)
    requires
        forall|i: int| 0 <= i < s.len() ==> #[trigger] s[i] >= 128,
    ensures
        backslash_escape(s) == s,
    decreases s.len(),
{
    if s.len() > 0 {
        lemma_backslash_escape_high(s.drop_last());
        assert(!needs_backslash(s.last()));
        assert(s.drop_last().push(s.last()) =~= s);
    }
}

/// ASCII bytes are valid UTF-8.
proof fn lemma_ascii_valid(s: Seq<u8>)
    requires
        forall|i: int| 0 <= i < s.len() ==> #[trigger] s[i] < 128,
    ensures
        valid_utf8(s),
    decreases s.len(),
{
    if s.len() > 0 {
        let b = s[0];
        assert(((b & 0x7F) as u32) < 0xD800) by (bit_vector);
        assert(vstd::utf8::valid_first_scalar(s));
        assert(vstd::utf8::pop_first_scalar(s) =~= s.drop_first());
        assert forall|i: int| 0 <= i < s.drop_first().len() implies #[trigger] s.drop_first()[i] < 128 by {
            assert(s.drop_first()[i] == s[i + 1]);
        }
        lemma_ascii_valid(s.drop_first());
    }
}

/// The encoding of one character.
proof fn lemma_encode_one(c: char)
    ensures
        encode_utf8(seq![c]) == encode_scalar(c as u32),
{
    let t = seq![c].drop_first();
    assert(t.len() == 0);
    assert(encode_utf8(t) == Seq::<u8>::empty());
    assert(seq![c][0] == c);
    assert(encode_utf8(seq![c]) == encode_scalar(c as u32) + encode_utf8(t));
    assert(encode_scalar(c as u32) + Seq::<u8>::empty() =~= encode_scalar(c as u32));
}

/// The bytes of a character outside ASCII all have their high bit set.
proof fn lemma_encode_high(c: char)
    requires
        (c as u32) >= 128,
    ensures
        forall|i: int| 0 <= i < encode_scalar(c as u32).len() ==> #[trigger] encode_scalar(c as u32)[i] >= 128,
{
    let v = c as u32;
    let e = encode_scalar(v);
    assert forall|x: u32| (0xC0u8 | ((x >> 6) & 0x1F) as u8) >= 128 && (0xE0u8 | ((x >> 12) & 0x0F) as u8) >= 128
        && (0xF0u8 | ((x >> 18) & 0x7) as u8) >= 128 && (0x80u8 | (x & 0x3F) as u8) >= 128 && (0x80u8 | ((x >> 6)
        & 0x3F) as u8) >= 128 && (0x80u8 | ((x >> 12) & 0x3F) as u8) >= 128 by {
        assert((0xC0u8 | ((x >> 6) & 0x1F) as u8) >= 128) by (bit_vector);
        assert((0xE0u8 | ((x >> 12) & 0x0F) as u8) >= 128) by (bit_vector);
        assert((0xF0u8 | ((x >> 18) & 0x7) as u8) >= 128) by (bit_vector);
        assert((0x80u8 | (x & 0x3F) as u8) >= 128) by (bit_vector);
        assert((0x80u8 | ((x >> 6) & 0x3F) as u8) >= 128) by (bit_vector);
        assert((0x80u8 | ((x >> 12) & 0x3F) as u8) >= 128) by (bit_vector);
    }
}

/// Escaping the encoding of a text with backslashes gives valid UTF-8.
proof fn lemma_backslash_escape_valid(cs: Seq<char>)
    ensures
        valid_utf8(backslash_escape(encode_utf8(cs))),
    decreases cs.len(),
{
    if cs.len() == 0 {
        assert(backslash_escape(encode_utf8(cs)) =~= Seq::<u8>::empty());
    } else {
        let e0 = encode_scalar(cs[0] as u32);
        let rest = encode_utf8(cs.drop_first());
        lemma_backslash_escape_concat(e0, rest);
        lemma_backslash_escape_valid(cs.drop_first());
        if (cs[0] as u32) < 128 {
            let b = cs[0] as u32;
            assert((b & 0x7F) as u8 == b as u8) by (bit_vector)
                requires
                    b < 128,
            ;
            assert(e0 =~= seq![b as u8]);
            let z = seq![b as u8].drop_last();
            assert(z.len() == 0);
            assert(backslash_escape(z) == Seq::<u8>::empty());
            assert(backslash_escape(seq![b as u8]) == backslash_escape(z) + backslash_piece(b as u8));
            assert(backslash_escape(e0) =~= backslash_piece(b as u8));
            lemma_ascii_valid(backslash_piece(b as u8));
        } else {
            lemma_encode_high(cs[0]);
            lemma_backslash_escape_high(e0);
            lemma_encode_one(cs[0]);
            encode_utf8_valid_utf8(seq![cs[0]]);
        }
        valid_utf8_concat(backslash_escape(e0), backslash_escape(rest));
    }
}

/// The bytes of `s` quoted in the given style (separators as they are).
pub open spec fn spec_wrap(qs: QuoteStyle, s: Seq<u8>, finish: bool) -> Seq<u8> {
    match qs {
        QuoteStyle::Backslash => backslash_escape(s),
        QuoteStyle::Single => single_quoted(s, finish),
        _ => s,
    }
}

pub open spec fn wrappable(qs: QuoteStyle) -> bool {
    qs == QuoteStyle::Separator || qs == QuoteStyle::Backslash || qs == QuoteStyle::Single
}

/// Quoting text never makes it invalid UTF-8.
pub proof fn law_quoting_keeps_utf8(qs: QuoteStyle, s: Seq<u8>, finish: bool)
    requires
        wrappable(qs),
        valid_utf8(s),
    ensures
        valid_utf8(spec_wrap(qs, s, finish)),
{
    vstd::utf8::decode_utf8_encode_utf8(s);
    if qs == QuoteStyle::Backslash {
        lemma_backslash_escape_valid(decode_utf8(s));
    } else if qs == QuoteStyle::Single {
        lemma_ascii_valid(seq![39u8]);
        valid_utf8_concat(seq![39u8], s);
        if finish {
            valid_utf8_concat(seq![39u8] + s, seq![39u8]);
        }
    }
}

// ---------------------------------------------------------------------------
// Completable words
// ---------------------------------------------------------------------------

/// Whether a candidate suits the current word: the word is empty, or begins it.
pub open spec fn spec_matches_cword<T>(item: Seq<T>, cword: Seq<T>) -> bool {
    cword.len() == 0 || seq_starts_with(item, cword)
}

/// Texts that can be shell-completed: matched against the current word,
/// then quoted for output.
pub trait Completable {
    /// Whether the text suits the current word `cword`.
    spec fn suits(&self, cword: &Self) -> bool;

    fn matches_cword(&self, cword: &Self) -> (r: bool)
        ensures
            r == self.suits(cword),
    ;
}

impl Completable for str {
    open spec fn suits(&self, cword: &str) -> bool {
        spec_matches_cword(self@, cword@)
    }

    fn matches_cword(&self, cword: &str) -> (r: bool) {
        str_matches_cword(self, cword)
    }
}

impl Completable for [u8] {
    open spec fn suits(&self, cword: &[u8]) -> bool {
        spec_matches_cword(self@, cword@)
    }

    fn matches_cword(&self, cword: &[u8]) -> (r: bool) {
        bytes_matches_cword(self, cword)
    }
}

pub fn str_matches_cword(item: &str, cword: &str) -> (r: bool)
    ensures
        r == spec_matches_cword(item@, cword@),
{
    cword.is_empty() || str_starts_with(item, cword)
}

pub fn bytes_matches_cword(item: &[u8], cword: &[u8]) -> (r: bool)
    ensures
        r == spec_matches_cword(item@, cword@),
{
    if cword.len() == 0 {
        return true;
    }
    if cword.len() > item.len() {
        return false;
    }
    let mut i: usize = 0;
    while i < cword.len()
        invariant
            cword@.len() <= item@.len(),
            i <= cword@.len(),
            forall|k: int| 0 <= k < i ==> item@[k] == cword@[k],
        decreases cword@.len() - i,
    {
        if item[i] != cword[i] {
            assert(item@.take(cword@.len() as int)[i as int] != cword@[i as int]);
            return false;
        }
        i = i + 1;
    }
    assert(item@.take(cword@.len() as int) =~= cword@);
    true
}

/// Quotes a byte string in the given style, closing a single quote if `finish`.
pub fn wrap_bytes<'a>(item: Cow<'a, [u8]>, qs: QuoteStyle, finish: bool) -> (r: Cow<'a, [u8]>)
    requires
        wrappable(qs),
    ensures
        r@ == spec_wrap(qs, item@, finish),
{
    let q = qs.wrap_raw(item);
    q.escape(finish)
}

/// Quotes text in the given style, closing a single quote if `finish`.
pub fn wrap_str<'a>(item: Cow<'a, str>, qs: QuoteStyle, finish: bool) -> (r: Cow<'a, str>)
    requires
        wrappable(qs),
    ensures
        r@ == decode_utf8(spec_wrap(qs, encode_utf8(item@), finish)),
{
    let as_bytes: Cow<'a, [u8]> = match item {
        Cow::Borrowed(b) => Cow::Borrowed(b.as_bytes()),
        Cow::Owned(o) => Cow::Owned(copy_bytes(o.as_str().as_bytes())),
    };
    proof {
        encode_utf8_valid_utf8(item@);
        law_quoting_keeps_utf8(qs, as_bytes@, finish);
    }
    let wrapped = wrap_bytes(as_bytes, qs, finish);
    match wrapped {
        Cow::Borrowed(b) => {
            let s = utf8_str(b).unwrap();
            proof {
                lemma_utf8_text(s, b@);
            }
            Cow::Borrowed(s)
        },
        Cow::Owned(b) => {
            let s = utf8_str(b.as_slice()).unwrap();
            proof {
                lemma_utf8_text(s, b@);
            }
            Cow::Owned(owned(s))
        },
    }
}

// ---------------------------------------------------------------------------
// Lists of completions
// ---------------------------------------------------------------------------

/// The items of pairs, one after the other.
pub open spec fn flatten_pairs<T>(s: Seq<(T, T)>) -> Seq<T>
    decreases s.len(),
{
    if s.len() == 0 {
        Seq::empty()
    } else {
        seq![s[0].0, s[0].1] + flatten_pairs(s.drop_first())
    }
}

/// The items of pairs, one after the other.
pub struct FlattenTuple2<T> {
    /// The pairs not yet started, last first.
    rest: Vec<(T, T)>,
    /// The second item of the pair whose first item was handed out.
    queue: Option<T>,
}

impl<T> FlattenTuple2<T> {
    /// The items still to come.
    pub closed spec fn remaining(&self) -> Seq<T> {
        let head = match self.queue {
            Some(b) => seq![b],
            None => Seq::empty(),
        };
        head + flatten_pairs(self.rest@.reverse())
    }

    pub fn new(pairs: Vec<(T, T)>) -> (r: FlattenTuple2<T>)
        ensures
            r.remaining() == flatten_pairs(pairs@),
    {
        let ghost orig = pairs@;
        let mut pairs = pairs;
        let mut rest: Vec<(T, T)> = Vec::new();
        while pairs.len() > 0
            invariant
                orig == pairs@ + rest@.reverse(),
            decreases pairs@.len(),
        {
            let p = pairs.pop().unwrap();
            proof {
                assert(rest@.push(p).reverse() =~= seq![p] + rest@.reverse());
            }
            rest.push(p);
        }
        proof {
            assert(orig =~= rest@.reverse());
            assert(Seq::<T>::empty() + flatten_pairs(rest@.reverse()) =~= flatten_pairs(rest@.reverse()));
        }
        FlattenTuple2 { rest, queue: None }
    }

    /// The next item.
    #[verifier::rlimit(40)]
    pub fn next(&mut self) -> (r: Option<T>)
        ensures
            old(self).remaining().len() == 0 ==> r is None && final(self).remaining().len() == 0,
            old(self).remaining().len() > 0 ==> r == Some(old(self).remaining()[0]) && final(self).remaining()
                == old(self).remaining().drop_first(),
    {
        match self.queue.take() {
            Some(b) => {
                proof {
                    assert(old(self).remaining().drop_first() =~= flatten_pairs(self.rest@.reverse()));
                    assert(Seq::<T>::empty() + flatten_pairs(self.rest@.reverse()) =~= flatten_pairs(
                        self.rest@.reverse(),
                    ));
                }
                Some(b)
            },
            None => {
                let ghost before = self.rest@;
                match self.rest.pop() {
                    None => {
                        proof {
                            assert(before.reverse() =~= Seq::<(T, T)>::empty());
                        }
                        None
                    },
                    Some((a, b)) => {
                        proof {
                            assert(before.reverse() =~= seq![(a, b)] + self.rest@.reverse());
                            assert((seq![(a, b)] + self.rest@.reverse()).drop_first() =~= self.rest@.reverse());
                        }
                        self.queue = Some(b);
                        proof {
                            assert(old(self).remaining() =~= seq![a, b] + flatten_pairs(self.rest@.reverse()));
                            assert(self.remaining() =~= seq![b] + flatten_pairs(self.rest@.reverse()));
                        }
                        Some(a)
                    },
                }
            },
        }
    }
}

/// The words that the current word begins, in order.
pub open spec fn filter_matches_seq(items: Seq<Seq<char>>, base: Seq<char>) -> Seq<Seq<char>>
    decreases items.len(),
{
    if items.len() == 0 {
        Seq::empty()
    } else {
        (if spec_matches_cword(items[0], base) {
            seq![items[0]]
        } else {
            Seq::empty()
        }) + filter_matches_seq(items.drop_first(), base)
    }
}

/// The words that the current word begins.
pub struct StartsWith<'cword> {
    items: Vec<String>,
    pos: usize,
    base: &'cword str,
}

impl<'cword> StartsWith<'cword> {
    pub closed spec fn remaining(&self) -> Seq<Seq<char>> {
        filter_matches_seq(self.items@.skip(self.pos as int).map_values(|s: String| s@), self.base@)
    }

    pub closed spec fn wf(&self) -> bool {
        self.pos <= self.items@.len()
    }

    pub fn new(items: Vec<String>, base: &'cword str) -> (r: StartsWith<'cword>)
        ensures
            r.wf(),
            r.remaining() == filter_matches_seq(items@.map_values(|s: String| s@), base@),
    {
        proof {
            assert(items@.skip(0) =~= items@);
        }
        StartsWith { items, pos: 0, base }
    }

    /// The next word that the current word begins.
    pub fn next(&mut self) -> (r: Option<String>)
        requires
            old(self).wf(),
        ensures
            final(self).wf(),
            old(self).remaining().len() == 0 ==> r is None && final(self).remaining().len() == 0,
            old(self).remaining().len() > 0 ==> (r matches Some(s) && s@ == old(self).remaining()[0])
                && final(self).remaining() == old(self).remaining().drop_first(),
    {
        while self.pos < self.items.len()
            invariant
                self.pos <= self.items@.len(),
                self.items == old(self).items,
                self.base == old(self).base,
                filter_matches_seq(self.items@.skip(self.pos as int).map_values(|s: String| s@), self.base@)
                    == old(self).remaining(),
            decreases self.items@.len() - self.pos,
        {
            let i = self.pos;
            let ghost v = self.items@.skip(i as int).map_values(|s: String| s@);
            proof {
                assert(v[0] == self.items@[i as int]@);
                assert(v.drop_first() =~= self.items@.skip(i + 1).map_values(|s: String| s@));
            }
            self.pos = i + 1;
            if str_matches_cword(self.items[i].as_str(), self.base) {
                return Some(self.items[i].clone());
            }
        }
        proof {
            assert(self.items@.skip(self.pos as int).map_values(|s: String| s@) =~= Seq::<Seq<char>>::empty());
        }
        None
    }
}

/// Words quoted in a style.
pub struct QuoteWord {
    items: Vec<String>,
    pos: usize,
    quote_style: QuoteStyle,
    finish_word: bool,
}

impl QuoteWord {
    pub closed spec fn wf(&self) -> bool {
        self.pos <= self.items@.len() && wrappable(self.quote_style)
    }

    /// The quoted words still to come.
    pub closed spec fn remaining(&self) -> Seq<Seq<char>> {
        self.items@.skip(self.pos as int).map_values(
            |s: String| decode_utf8(spec_wrap(self.quote_style, encode_utf8(s@), self.finish_word)),
        )
    }

    pub fn new(items: Vec<String>, quote_style: QuoteStyle, finish_word: bool) -> (r: QuoteWord)
        requires
            wrappable(quote_style),
        ensures
            r.wf(),
            r.remaining() == items@.map_values(
                |s: String| decode_utf8(spec_wrap(quote_style, encode_utf8(s@), finish_word)),
            ),
    {
        proof {
            assert(items@.skip(0) =~= items@);
        }
        QuoteWord { items, pos: 0, quote_style, finish_word }
    }

    pub fn next(&mut self) -> (r: Option<String>)
        requires
            old(self).wf(),
        ensures
            final(self).wf(),
            old(self).remaining().len() == 0 ==> r is None && final(self).remaining().len() == 0,
            old(self).remaining().len() > 0 ==> (r matches Some(s) && s@ == old(self).remaining()[0])
                && final(self).remaining() == old(self).remaining().drop_first(),
    {
        if self.pos >= self.items.len() {
            return None;
        }
        let i = self.pos;
        self.pos = i + 1;
        proof {
            assert(self.items@.skip(i + 1) =~= self.items@.skip(i as int).drop_first());
        }
        let item: Cow<'_, str> = Cow::Borrowed(self.items[i].as_str());
        let w = wrap_str(item, self.quote_style, self.finish_word);
        Some(crate::shell_quote::cow_str_into_string(w))
    }
}

/// A word quoted in a style, closing a single quote if `finish`.
pub open spec fn quoted_word(qs: QuoteStyle, finish: bool, w: Seq<char>) -> Seq<char> {
    decode_utf8(spec_wrap(qs, encode_utf8(w), finish))
}

/// Ways to turn lists of words into completions.
pub trait IterExt: Sized {
    /// The words, in order.
    spec fn words(&self) -> Seq<Seq<char>>;

    /// The words that the current word begins.
    fn filter_matches<'cword>(self, base: &'cword str) -> (r: StartsWith<'cword>)
        ensures
            r.wf(),
            r.remaining() == filter_matches_seq(self.words(), base@),
    ;

    /// The words quoted in a style.
    fn quote_word(self, quote_style: QuoteStyle, finish_word: bool) -> (r: QuoteWord)
        requires
            wrappable(quote_style),
        ensures
            r.wf(),
            r.remaining() == self.words().map_values(|w: Seq<char>| quoted_word(quote_style, finish_word, w)),
    ;

    /// The words that the current word begins, quoted in a style.
    fn quote_matches(self, base: &str, quote_style: QuoteStyle, finish_word: bool) -> (r: QuoteWord)
        requires
            wrappable(quote_style),
        ensures
            r.wf(),
            r.remaining() == filter_matches_seq(self.words(), base@).map_values(
                |w: Seq<char>| quoted_word(quote_style, finish_word, w),
            ),
    ;
}

impl IterExt for Vec<String> {
    open spec fn words(&self) -> Seq<Seq<char>> {
        self@.map_values(|s: String| s@)
    }

    fn filter_matches<'cword>(self, base: &'cword str) -> (r: StartsWith<'cword>) {
        StartsWith::new(self, base)
    }

    fn quote_word(self, quote_style: QuoteStyle, finish_word: bool) -> (r: QuoteWord) {
        let ghost v = self@;
        let r = QuoteWord::new(self, quote_style, finish_word);
        proof {
            assert(r.remaining() =~= v.map_values(|s: String| s@).map_values(
                |w: Seq<char>| quoted_word(quote_style, finish_word, w),
            ));
        }
        r
    }

    fn quote_matches(self, base: &str, quote_style: QuoteStyle, finish_word: bool) -> (r: QuoteWord) {
        let ghost all = filter_matches_seq(self@.map_values(|s: String| s@), base@);
        let mut m = StartsWith::new(self, base);
        let mut out: Vec<String> = Vec::new();
        loop
            invariant
                m.wf(),
                out@.map_values(|s: String| s@) + m.remaining() == all,
            ensures
                out@.map_values(|s: String| s@) == all,
            decreases m.remaining().len(),
        {
            let ghost before = m.remaining();
            match m.next() {
                Some(s) => {
                    let ghost prev = out@;
                    out.push(s);
                    proof {
                        assert(out@.map_values(|s: String| s@) =~= prev.map_values(|s: String| s@).push(s@));
                        assert(before =~= seq![s@] + m.remaining());
                        assert(out@.map_values(|s: String| s@) + m.remaining() =~= prev.map_values(|s: String| s@)
                            + before);
                    }
                },
                None => {
                    proof {
                        assert(out@.map_values(|s: String| s@) + m.remaining() =~= out@.map_values(
                            |s: String| s@,
                        ));
                    }
                    break;
                },
            }
        }
        out.quote_word(quote_style, finish_word)
    }
}

} // verus!
