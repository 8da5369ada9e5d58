//! Small string utilities over the character view of `str`.

use vstd::prelude::*;
use vstd::string::StringSliceAdditionalSpecFns;
use vstd::utf8::{encode_utf8_decode_utf8, encode_utf8, decode_utf8, valid_utf8};

verus! {

/// Whether two strings hold the same characters.
pub fn str_eq(a: &str, b: &str) -> (r: bool)
    ensures
        r == (a@ == b@),
{
    let x = a.as_bytes();
    let y = b.as_bytes();
    let r = crate::shell_quote::bytes_equal(x, y);
    proof {
        encode_utf8_decode_utf8(a@);
        encode_utf8_decode_utf8(b@);
        if a@ == b@ {
            assert(x@ == encode_utf8(a@));
        }
    }
    r
}

/// A `String` holding the characters of `s`.
pub fn owned(s: &str) -> (r: String)
    ensures
        r@ == s@,
{
    s.to_owned()
}

/// `std::str::from_utf8`: some text exactly when the bytes are valid UTF-8,
/// and then the text whose encoding they are.
#[verifier::external_body]
pub(crate) fn utf8_str(b: &[u8]) -> (r: Option<&str>)
    ensures
        r is Some <==> valid_utf8(b@),
        r matches Some(s) ==> s.spec_bytes() == b@,
{
    std::str::from_utf8(b).ok()
}

pub open spec fn seq_starts_with<T>(a: Seq<T>, b: Seq<T>) -> bool {
    b.len() <= a.len() && a.take(b.len() as int) == b
}

pub open spec fn seq_ends_with<T>(a: Seq<T>, b: Seq<T>) -> bool {
    b.len() <= a.len() && a.subrange(a.len() - b.len(), a.len() as int) == b
}

pub open spec fn seq_occurs_at<T>(a: Seq<T>, b: Seq<T>, i: int) -> bool {
    0 <= i && i + b.len() <= a.len() && a.subrange(i, i + b.len()) == b
}

pub open spec fn seq_contains<T>(a: Seq<T>, b: Seq<T>) -> bool {
    exists|i: int| seq_occurs_at(a, b, i)
}

/// Whether `b` occurs in `a` at `i`.
fn chars_at(a: &Vec<char>, b: &Vec<char>, i: usize) -> (r: bool)
    requires
        i + b@.len() <= a@.len(),
    ensures
        r == (a@.subrange(i as int, i + b@.len()) == b@),
{
    let n = b.len();
    let alen = a.len();
    let ghost x = a@.subrange(i as int, i + n);
    let mut k: usize = 0;
    while k < n
        invariant
            alen == a@.len(),
            n == b@.len(),
            i + n <= a@.len(),
            x == a@.subrange(i as int, i + n),
            k <= n,
            forall|m: int| 0 <= m < k ==> #[trigger] x[m] == b@[m],
        decreases n - k,
    {
        assert(x[k as int] == a@[i + k]);
        if a[i + k] != b[k] {
            assert(x[k as int] != b@[k as int]);
            return false;
        }
        k = k + 1;
    }
    assert(x =~= b@);
    true
}

pub fn str_starts_with(a: &str, b: &str) -> (r: bool)
    ensures
        r == seq_starts_with(a@, b@),
{
    let x = crate::api::chars_of(a);
    let y = crate::api::chars_of(b);
    if y.len() > x.len() {
        return false;
    }
    let r = chars_at(&x, &y, 0);
    assert(a@.take(b@.len() as int) =~= a@.subrange(0, b@.len() as int));
    r
}

pub fn str_ends_with(a: &str, b: &str) -> (r: bool)
    ensures
        r == seq_ends_with(a@, b@),
{
    let x = crate::api::chars_of(a);
    let y = crate::api::chars_of(b);
    if y.len() > x.len() {
        return false;
    }
    chars_at(&x, &y, x.len() - y.len())
}

pub fn str_contains(a: &str, b: &str) -> (r: bool)
    ensures
        r == seq_contains(a@, b@),
{
    let x = crate::api::chars_of(a);
    let y = crate::api::chars_of(b);
    if y.len() > x.len() {
        assert forall|i: int| !seq_occurs_at(a@, b@, i) by {}
        return false;
    }
    if y.len() == 0 {
        assert(a@.subrange(0, 0) =~= b@);
        assert(seq_occurs_at(a@, b@, 0));
        return true;
    }
    let mut i: usize = 0;
    while i <= x.len() - y.len()
        invariant
            x@ == a@,
            y@ == b@,
            0 < y@.len() <= x@.len(),
            i <= x@.len() - y@.len() + 1,
            forall|j: int| 0 <= j < i ==> !seq_occurs_at(a@, b@, j),
        decreases x@.len() - y@.len() + 1 - i,
    {
        if chars_at(&x, &y, i) {
            assert(seq_occurs_at(a@, b@, i as int));
            return true;
        }
        i = i + 1;
    }
    assert forall|j: int| !seq_occurs_at(a@, b@, j) by {}
    false
}

/// `String::push` of std: appends the character.
#[verifier::external_body]
pub(crate) fn push_char(s: &mut String, c: char)
    ensures
        final(s)@ == old(s)@.push(c),
{
    s.push(c);
}

/// Valid UTF-8 decodes to the text it encodes.
pub proof fn lemma_utf8_text(s: &str, b: Seq<u8>)
    requires
        s.spec_bytes() == b,
    ensures
        s@ == decode_utf8(b),
{
    encode_utf8_decode_utf8(s@);
}

/// The encoding of a concatenation is the concatenation of the encodings.
pub proof fn lemma_encode_concat(a: Seq<char>, b: Seq<char>)
    ensures
        encode_utf8(a + b) == encode_utf8(a) + encode_utf8(b),
    decreases a.len(),
{
    if a.len() == 0 {
        assert(a + b =~= b);
        assert(encode_utf8(a) =~= Seq::<u8>::empty());
        assert(encode_utf8(a) + encode_utf8(b) =~= encode_utf8(b));
    } else {
        assert((a + b).drop_first() =~= a.drop_first() + b);
        assert((a + b)[0] == a[0]);
        lemma_encode_concat(a.drop_first(), b);
        let e = vstd::utf8::encode_scalar(a[0] as u32);
        assert(e + (encode_utf8(a.drop_first()) + encode_utf8(b)) =~= (e + encode_utf8(a.drop_first()))
            + encode_utf8(b));
    }
}

/// A non-empty text takes at least one byte.
pub proof fn lemma_encode_nonempty(a: Seq<char>)
    requires
        a.len() > 0,
    ensures
        encode_utf8(a).len() >= 1,
{
    let e = vstd::utf8::encode_scalar(a[0] as u32);
    assert(e.len() >= 1);
}

/// A part of a text takes no more bytes than the whole.
pub proof fn lemma_encode_subrange(cs: Seq<char>, a: int, b: int)
    requires
        0 <= a <= b <= cs.len(),
    ensures
        encode_utf8(cs.subrange(a, b)).len() <= encode_utf8(cs).len(),
{
    let pre = cs.take(a);
    let mid = cs.subrange(a, b);
    let post = cs.subrange(b, cs.len() as int);
    assert(cs =~= pre + (mid + post));
    lemma_encode_concat(pre, mid + post);
    lemma_encode_concat(mid, post);
}

/// `char::is_whitespace`: the characters with the Unicode `White_Space` property.
pub open spec fn is_white_space(c: char) -> bool {
    let u = c as u32;
    ||| (0x9 <= u && u <= 0xD)
    ||| u == 0x20
    ||| u == 0x85
    ||| u == 0xA0
    ||| u == 0x1680
    ||| (0x2000 <= u && u <= 0x200A)
    ||| u == 0x2028
    ||| u == 0x2029
    ||| u == 0x202F
    ||| u == 0x205F
    ||| u == 0x3000
}

pub fn is_whitespace(c: char) -> (r: bool)
    ensures
        r == is_white_space(c),
{
    let u = c as u32;
    (0x9 <= u && u <= 0xD) || u == 0x20 || u == 0x85 || u == 0xA0 || u == 0x1680 || (0x2000 <= u
        && u <= 0x200A) || u == 0x2028 || u == 0x2029 || u == 0x202F || u == 0x205F || u == 0x3000
}

/// Whether `char::is_alphanumeric` holds of `c` (the Unicode `Alphabetic` or
/// `Numeric` properties).
pub uninterp spec fn spec_is_alphanumeric(c: char) -> bool;

/// `char::is_alphanumeric` of std; its result is named by `spec_is_alphanumeric`.
/// Within ASCII, std documents the letters and digits as the alphanumeric
/// characters (Unicode gives no other ASCII character `Alphabetic` or `Numeric`).
#[verifier::external_body]
pub(crate) fn is_alphanumeric(c: char) -> (r: bool)
    ensures
        r == spec_is_alphanumeric(c),
        (c as u32) < 128 ==> (r <==> is_ascii_alnum(c)),
{
    c.is_alphanumeric()
}

/// `char::is_ascii_alphanumeric`: an ASCII letter or digit.
pub open spec fn is_ascii_alnum(c: char) -> bool {
    ('a' <= c && c <= 'z') || ('A' <= c && c <= 'Z') || ('0' <= c && c <= '9')
}

pub fn is_ascii_alphanumeric(c: char) -> (r: bool)
    ensures
        r == is_ascii_alnum(c),
{
    ('a' <= c && c <= 'z') || ('A' <= c && c <= 'Z') || ('0' <= c && c <= '9')
}

/// Reads `o` as one unquoted word in which `escape` makes the next symbol
/// literal: each other symbol must satisfy `plain`. The text the word
/// stands for, or `None` where a symbol that is not plain stands unescaped
/// (or an escape ends the word).
pub open spec fn read_escaped<T>(o: Seq<T>, escape: T, plain: spec_fn(T) -> bool) -> Option<Seq<T>>
    decreases o.len(),
{
    if o.len() == 0 {
        Some(Seq::empty())
    } else if o[0] == escape {
        if o.len() < 2 {
            None
        } else {
            match read_escaped(o.skip(2), escape, plain) {
                Some(r) => Some(seq![o[1]] + r),
                None => None,
            }
        }
    } else if plain(o[0]) {
        match read_escaped(o.skip(1), escape, plain) {
            Some(r) => Some(seq![o[0]] + r),
            None => None,
        }
    } else {
        None
    }
}

/// Two escaped words read one after the other read as their texts one after
/// the other.
pub proof fn lemma_read_escaped_concat<T>(a: Seq<T>, b: Seq<T>, escape: T, plain: spec_fn(T) -> bool)
    requires
        read_escaped(a, escape, plain) is Some,
        read_escaped(b, escape, plain) is Some,
    ensures
        read_escaped(a + b, escape, plain) == Some(
            read_escaped(a, escape, plain).unwrap() + read_escaped(b, escape, plain).unwrap(),
        ),
    decreases a.len(),
{
    let rb = read_escaped(b, escape, plain).unwrap();
    if a.len() == 0 {
        assert(a + b =~= b);
        assert(Seq::<T>::empty() + rb =~= rb);
    } else if a[0] == escape {
        lemma_read_escaped_concat(a.skip(2), b, escape, plain);
        assert((a + b).skip(2) =~= a.skip(2) + b);
        let ra = read_escaped(a.skip(2), escape, plain).unwrap();
        assert(seq![a[1]] + (ra + rb) =~= (seq![a[1]] + ra) + rb);
    } else {
        lemma_read_escaped_concat(a.skip(1), b, escape, plain);
        assert((a + b).skip(1) =~= a.skip(1) + b);
        let ra = read_escaped(a.skip(1), escape, plain).unwrap();
        assert(seq![a[0]] + (ra + rb) =~= (seq![a[0]] + ra) + rb);
    }
}

} // verus!
