//! Splitting of a bash command line into differently quoted substrings, and
//! quoting of words so that bash reads them back unchanged.

use std::borrow::Cow;
use vstd::prelude::*;
use vstd::slice::slice_subrange;
use vstd::utf8::{valid_utf8, decode_utf8};
use self::escape_string::{backslash_escape, backslash_piece, needs_backslash, single_quoted, cow_bytes};

pub mod escape_string;

verus! {

pub const APOSTROPHE: u8 = 39;
pub const DQUOTE: u8 = 34;
pub const DOLLAR: u8 = 36;
pub const BACKTICK: u8 = 96;
pub const BACKSLASH: u8 = 92;
pub const LPAREN: u8 = 40;

// ---------------------------------------------------------------------------
// Model
// ---------------------------------------------------------------------------

/// The separator bytes of bash: tab, newline, vertical tab, form feed,
/// carriage return and space.
pub open spec fn is_separator_byte(b: u8) -> bool {
    b == 9u8 || b == 10u8 || b == 11u8 || b == 12u8 || b == 13u8 || b == 32u8
}

/// The quoting style that a byte string starts with (`None` when it is empty).
pub open spec fn spec_starting_string_type(s: Seq<u8>) -> Option<QuoteStyle> {
    if s.len() == 0 {
        None
    } else if is_separator_byte(s[0]) {
        Some(QuoteStyle::Separator)
    } else if s[0] == APOSTROPHE {
        Some(QuoteStyle::Single)
    } else if s[0] == DQUOTE {
        Some(QuoteStyle::Double)
    } else if s.len() >= 2 && s[0] == DOLLAR && s[1] == APOSTROPHE {
        Some(QuoteStyle::AnsiC)
    } else if s.len() >= 2 && s[0] == DOLLAR && s[1] == DQUOTE {
        Some(QuoteStyle::Locale)
    } else {
        Some(QuoteStyle::Backslash)
    }
}

/// The contents of a doubly quoted string, one entry per segment.
pub enum IView {
    Segment(Seq<u8>),
    Subshell(SubshellStyle),
}

/// The unescaped contents of a quoted string.
pub enum QView {
    Separator(Seq<u8>),
    Backslash(Seq<u8>),
    Single(Seq<u8>),
    Double(Seq<IView>),
    AnsiC(Seq<u8>),
    Locale(Seq<IView>),
}

/// What one unescaping step yields: the unescaped string, whether each of its
/// byte buffers had to be copied, whether its closing character was found, and
/// how many input bytes it consumed.
pub struct StepSpec {
    pub unescaped: QView,
    pub owned: Seq<bool>,
    pub closed: bool,
    pub consumed: int,
}

/// End of the run of separator bytes that starts at `i`.
pub open spec fn sep_end(s: Seq<u8>, i: int) -> int
    decreases s.len() - i,
{
    if 0 <= i < s.len() && is_separator_byte(s[i]) {
        sep_end(s, i + 1)
    } else {
        i
    }
}

/// Index of the first single quote at or after `i`, or the length of `s`.
pub open spec fn single_quote_from(s: Seq<u8>, i: int) -> int
    decreases s.len() - i,
{
    if i < 0 || i >= s.len() {
        s.len() as int
    } else if s[i] == APOSTROPHE {
        i
    } else {
        single_quote_from(s, i + 1)
    }
}

/// Unescaping of an unquoted string: scans from `p`, having produced `acc`.
/// A backslash makes the next byte literal; the string ends where another
/// quoting style starts, or at the end of the input. Returns the unescaped
/// bytes, the end position, whether the string was closed (it is not when the
/// input ends in a lone backslash), and whether a byte other than the first
/// was removed (so that the result cannot borrow from the input).
pub open spec fn bs_run(s: Seq<u8>, p: int, acc: Seq<u8>, owned: bool) -> (Seq<u8>, int, bool, bool)
    decreases s.len() - p,
{
    if p < 0 || p >= s.len() {
        (acc, s.len() as int, true, owned)
    } else if spec_starting_string_type(s.subrange(p, s.len() as int)) != Some(QuoteStyle::Backslash) {
        (acc, p, true, owned)
    } else if s[p] == BACKSLASH {
        if p + 1 >= s.len() {
            (acc, p + 1, false, owned)
        } else {
            bs_run(s, p + 2, acc.push(s[p + 1]), owned || p > 0)
        }
    } else {
        bs_run(s, p + 1, acc.push(s[p]), owned)
    }
}

/// Unescaping of one segment of a doubly quoted string that starts at `q`,
/// scanning from `p`. `None` where the segment holds an unescaped dollar sign
/// or backtick (expansions, which are not supported). Otherwise the unescaped
/// bytes, the end of the segment (the closing double quote, a lone backslash
/// that ends the input, which is left over, or the end of the input) and
/// whether a byte other than the first was removed.
pub open spec fn seg_run(s: Seq<u8>, q: int, p: int, acc: Seq<u8>, owned: bool) -> Option<(Seq<u8>, int, bool)>
    decreases s.len() - p,
{
    if p < 0 || p >= s.len() {
        Some((acc, s.len() as int, owned))
    } else if s[p] == DQUOTE {
        Some((acc, p, owned))
    } else if s[p] == BACKTICK || s[p] == DOLLAR {
        None
    } else if s[p] == BACKSLASH {
        if p + 1 >= s.len() {
            Some((acc, p, owned))
        } else {
            seg_run(s, q, p + 2, acc.push(s[p + 1]), owned || p > q)
        }
    } else {
        seg_run(s, q, p + 1, acc.push(s[p]), owned)
    }
}

/// Unescaping of a doubly quoted string, scanning from `p` with the segments
/// `segs` (and their ownership flags) found so far. `None` where the string
/// holds a substitution or one of the unsupported cases of `seg_run`.
/// Otherwise the segments, their flags, whether the closing quote was found,
/// and the number of bytes consumed.
pub open spec fn dq_run(s: Seq<u8>, p: int, segs: Seq<IView>, owned: Seq<bool>) -> Option<(Seq<IView>, Seq<bool>, bool, int)>
    decreases s.len() - p,
{
    if p < 0 || p >= s.len() {
        Some((segs, owned, false, s.len() as int))
    } else if s[p] == BACKTICK || (s[p] == DOLLAR && p + 1 < s.len() && s[p + 1] == LPAREN) {
        None
    } else if s[p] == DQUOTE {
        Some((segs, owned, true, p + 1))
    } else if p + 1 == s.len() && s[p] == BACKSLASH {
        Some((segs, owned, false, p))
    } else {
        match seg_run(s, p, p, Seq::empty(), false) {
            None => None,
            Some(r) => if p < r.1 <= s.len() {
                dq_run(s, r.1, segs.push(IView::Segment(r.0)), owned.push(r.2))
            } else {
                None
            },
        }
    }
}

/// The byte that a one-character ANSI-C escape `\\c` stands for: `\\a`,
/// `\\b`, `\\e`/`\\E`, `\\f`, `\\n`, `\\r`, `\\t`, `\\v`, and a backslash,
/// quote, double quote or question mark standing for itself. Other escapes
/// (numeric ones among them) are kept as written.
pub open spec fn ansi_escape(c: u8) -> Option<u8> {
    if c == 97 {
        Some(7u8)
    } else if c == 98 {
        Some(8u8)
    } else if c == 101 || c == 69 {
        Some(27u8)
    } else if c == 102 {
        Some(12u8)
    } else if c == 110 {
        Some(10u8)
    } else if c == 114 {
        Some(13u8)
    } else if c == 116 {
        Some(9u8)
    } else if c == 118 {
        Some(11u8)
    } else if c == BACKSLASH || c == APOSTROPHE || c == DQUOTE || c == 63 {
        Some(c)
    } else {
        None
    }
}

/// Unescaping of an ANSI-C string (`$'...'`), scanning from `p`, having
/// produced `acc`: ends at the next single quote that no backslash escapes,
/// or at the end of the input (unclosed; a lone final backslash is dropped).
/// Returns the bytes, the end position, whether the string was closed, and
/// whether an escape was replaced (so that the result cannot borrow from the
/// input).
pub open spec fn ansi_run(s: Seq<u8>, p: int, acc: Seq<u8>, owned: bool) -> (Seq<u8>, int, bool, bool)
    decreases s.len() - p,
{
    if p < 0 || p >= s.len() {
        (acc, s.len() as int, false, owned)
    } else if s[p] == APOSTROPHE {
        (acc, p + 1, true, owned)
    } else if s[p] == BACKSLASH {
        if p + 1 >= s.len() {
            (acc, s.len() as int, false, owned)
        } else {
            match ansi_escape(s[p + 1]) {
                Some(c) => ansi_run(s, p + 2, acc.push(c), true),
                None => ansi_run(s, p + 2, acc.push(s[p]).push(s[p + 1]), owned),
            }
        }
    } else {
        ansi_run(s, p + 1, acc.push(s[p]), owned)
    }
}

pub open spec fn ansi_step(s: Seq<u8>) -> StepSpec {
    let r = ansi_run(s, 2, Seq::empty(), false);
    StepSpec { unescaped: QView::AnsiC(r.0), owned: seq![r.3], closed: r.2, consumed: r.1 }
}

pub open spec fn locale_step(s: Seq<u8>) -> StepSpec {
    let r = dq_run(s, 2, Seq::empty(), Seq::empty()).unwrap();
    StepSpec { unescaped: QView::Locale(r.0), owned: r.1, closed: r.2, consumed: r.3 }
}

pub open spec fn sep_step(s: Seq<u8>) -> StepSpec {
    let n = sep_end(s, 0);
    StepSpec { unescaped: QView::Separator(s.subrange(0, n)), owned: seq![false], closed: true, consumed: n }
}

pub open spec fn single_step(s: Seq<u8>) -> StepSpec {
    let j = single_quote_from(s, 1);
    if j < s.len() {
        StepSpec { unescaped: QView::Single(s.subrange(1, j)), owned: seq![false], closed: true, consumed: j + 1 }
    } else {
        StepSpec { unescaped: QView::Single(s.subrange(1, s.len() as int)), owned: seq![false], closed: false, consumed: s.len() as int }
    }
}

pub open spec fn bs_step(s: Seq<u8>) -> StepSpec {
    let r = bs_run(s, 0, Seq::empty(), false);
    StepSpec { unescaped: QView::Backslash(r.0), owned: seq![r.3], closed: r.2, consumed: r.1 }
}

pub open spec fn dq_step(s: Seq<u8>) -> StepSpec {
    let r = dq_run(s, 1, Seq::empty(), Seq::empty()).unwrap();
    StepSpec { unescaped: QView::Double(r.0), owned: r.1, closed: r.2, consumed: r.3 }
}

/// Whether unescaping `s` as `style` completes (substitutions are not
/// handled, nor input that starts with another style).
pub open spec fn unescape_as_ok(style: QuoteStyle, s: Seq<u8>) -> bool {
    &&& s.len() > 0 ==> spec_starting_string_type(s) == Some(style)
    &&& (s.len() > 0 && style == QuoteStyle::Double) ==> dq_run(s, 1, Seq::empty(), Seq::empty()) is Some
    &&& (s.len() > 0 && style == QuoteStyle::Locale) ==> dq_run(s, 2, Seq::empty(), Seq::empty()) is Some
}

/// The result of unescaping a non-empty `s` as `style`.
pub open spec fn spec_unescape_as(style: QuoteStyle, s: Seq<u8>) -> StepSpec {
    match style {
        QuoteStyle::Separator => sep_step(s),
        QuoteStyle::Single => single_step(s),
        QuoteStyle::Double => dq_step(s),
        QuoteStyle::AnsiC => ansi_step(s),
        QuoteStyle::Locale => locale_step(s),
        QuoteStyle::Backslash => bs_step(s),
    }
}

/// Whether unescaping `s` with its own starting style completes.
pub open spec fn unescape_ok(s: Seq<u8>) -> bool {
    s.len() == 0 || unescape_as_ok(spec_starting_string_type(s).unwrap(), s)
}

/// The result of unescaping a non-empty `s` with its own starting style.
pub open spec fn spec_unescape(s: Seq<u8>) -> StepSpec {
    spec_unescape_as(spec_starting_string_type(s).unwrap(), s)
}

/// Whether splitting all of `s` into substrings completes.
pub open spec fn splits_ok(s: Seq<u8>) -> bool
    decreases s.len(),
{
    if s.len() == 0 {
        true
    } else {
        let n = spec_unescape(s).consumed;
        unescape_ok(s) && 0 < n <= s.len() && splits_ok(s.subrange(n, s.len() as int))
    }
}

/// The steps that splitting `s` yields, in order.
pub open spec fn spec_split(s: Seq<u8>) -> Seq<StepSpec>
    decreases s.len(),
{
    if s.len() == 0 {
        Seq::empty()
    } else {
        let st = spec_unescape(s);
        let n = st.consumed;
        if 0 < n <= s.len() {
            seq![st] + spec_split(s.subrange(n, s.len() as int))
        } else {
            seq![st]
        }
    }
}

/// Whether a result value agrees with a step of the model on input `src`.
pub open spec fn result_is(u: UnescapeResult, st: StepSpec, src: Seq<u8>) -> bool {
    &&& u.unescaped@ == st.unescaped
    &&& u.unescaped.alloc_flags() == st.owned
    &&& u.was_closed == st.closed
    &&& 0 <= st.consumed <= src.len()
    &&& u.rest@ == src.subrange(st.consumed, src.len() as int)
}

// ---------------------------------------------------------------------------
// Types
// ---------------------------------------------------------------------------

#[derive(Debug, Clone, Copy, PartialEq, Eq, Structural)]
pub enum SubshellStyle {
    /// ```...```
    Backticks,
    /// `$(...)`
    Legacy,
}

#[derive(Debug, PartialEq, Eq)]
pub enum InnerString<'a> {
    Segment(Cow<'a, [u8]>),
    Subshell(SubshellStyle, Vec<UnescapeResult<'a>>),
}

impl<'a> View for InnerString<'a> {
    type V = IView;

    open spec fn view(&self) -> IView {
        match self {
            InnerString::Segment(c) => IView::Segment(c@),
            InnerString::Subshell(st, _) => IView::Subshell(*st),
        }
    }
}

impl<'a> InnerString<'a> {
    pub open spec fn is_owned(&self) -> bool {
        match self {
            InnerString::Segment(c) => c is Owned,
            InnerString::Subshell(..) => false,
        }
    }
}

/// Stores unescaped byte strings, ready to be viewed, or escaped
#[derive(Debug, PartialEq, Eq)]
pub enum QuotedString<'a> {
    /// A field seperator.
    Separator(Cow<'a, [u8]>),
    /// Unquoted strings using backslashes to escape whitespace and dollar signs.
    Backslash(Cow<'a, [u8]>),
    /// A string used to encode literal contents.
    Single(Cow<'a, [u8]>),
    /// Double-quote style escape strings. Must escape dollar signs if used literally.
    Double(Vec<InnerString<'a>>),
    /// Allows the user to specify ANSI escape codes (\n \t etc)
    AnsiC(Cow<'a, [u8]>),
    /// A string whose encoding is interpreted according to the shell's locale
    Locale(Vec<InnerString<'a>>),
}

pub open spec fn inner_views<'a>(v: Seq<InnerString<'a>>) -> Seq<IView> {
    v.map_values(|x: InnerString<'a>| x@)
}

pub open spec fn inner_flags<'a>(v: Seq<InnerString<'a>>) -> Seq<bool> {
    v.map_values(|x: InnerString<'a>| x.is_owned())
}

impl<'a> View for QuotedString<'a> {
    type V = QView;

    open spec fn view(&self) -> QView {
        match self {
            QuotedString::Separator(c) => QView::Separator(c@),
            QuotedString::Backslash(c) => QView::Backslash(c@),
            QuotedString::Single(c) => QView::Single(c@),
            QuotedString::Double(v) => QView::Double(inner_views(v@)),
            QuotedString::AnsiC(c) => QView::AnsiC(c@),
            QuotedString::Locale(v) => QView::Locale(inner_views(v@)),
        }
    }
}

impl<'a> QuotedString<'a> {
    /// For each byte buffer of the string, whether it was copied out of the input.
    pub open spec fn alloc_flags(&self) -> Seq<bool> {
        match self {
            QuotedString::Separator(c) => seq![c is Owned],
            QuotedString::Backslash(c) => seq![c is Owned],
            QuotedString::Single(c) => seq![c is Owned],
            QuotedString::Double(v) => inner_flags(v@),
            QuotedString::AnsiC(c) => seq![c is Owned],
            QuotedString::Locale(v) => inner_flags(v@),
        }
    }
}

#[derive(Debug, PartialEq, Eq)]
pub struct UnescapeResult<'a> {
    /// The unescaped string
    pub unescaped: QuotedString<'a>,
    /// If the string found an appropriate terminating character (if QuoteStyle::Backslash, then only false if last character is backslash)
    pub was_closed: bool,
    /// The rest of the unconsumed string
    pub rest: &'a [u8],
}

#[derive(Debug, Clone, Copy, PartialEq, Eq, Structural)]
pub enum QuoteStyle {
    /// A field seperator.
    Separator,
    /// Unquoted strings using backslashes to escape whitespace and dollar signs.
    Backslash,
    /// A string used to encode literal contents.
    Single,
    /// Double-quote style escape strings. Must escape dollar signs if used literally.
    Double,
    /// Allows the user to specify ANSI escape codes (\n \t etc)
    AnsiC,
    /// A string whose encoding is interpreted according to the shell's locale
    Locale,
}

// ---------------------------------------------------------------------------
// Helpers
// ---------------------------------------------------------------------------

/// Compares two byte slices element by element.
pub fn bytes_equal(a: &[u8], b: &[u8]) -> (r: bool)
    ensures
        r == (a@ == b@),
{
    if a.len() != b.len() {
        return false;
    }
    let mut i: usize = 0;
    while i < a.len()
        invariant
            a@.len() == b@.len(),
            i <= a@.len(),
            forall|j: int| 0 <= j < i ==> a@[j] == b@[j],
        decreases a@.len() - i,
    {
        if a[i] != b[i] {
            return false;
        }
        i = i + 1;
    }
    assert(a@ =~= b@);
    true
}

fn tail<'a>(src: &'a [u8], n: usize) -> (r: &'a [u8])
    requires
        n <= src@.len(),
    ensures
        r@ == src@.subrange(n as int, src@.len() as int),
{
    slice_subrange(src, n, src.len())
}

fn finish_cow<'a>(src: &'a [u8], out: Vec<u8>, owned: bool, off: usize) -> (r: Cow<'a, [u8]>)
    requires
        !owned ==> off + out@.len() <= src@.len() && out@ == src@.subrange(off as int, off + out@.len()),
    ensures
        r@ == out@,
        (r is Owned) == owned,
{
    if owned {
        Cow::Owned(out)
    } else {
        let n = out.len();
        let l = src.len();
        assert(off + n <= l);
        Cow::Borrowed(slice_subrange(src, off, off + n))
    }
}

proof fn lemma_seg_run_bounds(s: Seq<u8>, q: int, p: int, acc: Seq<u8>, owned: bool)
    requires
        0 <= p <= s.len(),
        seg_run(s, q, p, acc, owned) is Some,
    ensures
        p <= seg_run(s, q, p, acc, owned).unwrap().1 <= s.len(),
        (p < s.len() && s[p] != DQUOTE && !(p + 1 == s.len() && s[p] == BACKSLASH)) ==> p < seg_run(
            s,
            q,
            p,
            acc,
            owned,
        ).unwrap().1,
    decreases s.len() - p,
{
    if p < s.len() && s[p] != DQUOTE && s[p] != BACKTICK && s[p] != DOLLAR {
        if s[p] == BACKSLASH {
            if p + 1 < s.len() {
                lemma_seg_run_bounds(s, q, p + 2, acc.push(s[p + 1]), owned || p > q);
            }
        } else {
            lemma_seg_run_bounds(s, q, p + 1, acc.push(s[p]), owned);
        }
    }
}

proof fn lemma_dq_run_bounds(s: Seq<u8>, p: int, segs: Seq<IView>, owned: Seq<bool>)
    requires
        1 <= p <= s.len(),
        dq_run(s, p, segs, owned) is Some,
    ensures
        1 <= dq_run(s, p, segs, owned).unwrap().3 <= s.len(),
    decreases s.len() - p,
{
    if p < s.len() && s[p] != DQUOTE && !(p + 1 == s.len() && s[p] == BACKSLASH) {
        let r = seg_run(s, p, p, Seq::empty(), false).unwrap();
        lemma_dq_run_bounds(s, r.1, segs.push(IView::Segment(r.0)), owned.push(r.2));
    }
}

proof fn lemma_bs_run_bounds(s: Seq<u8>, p: int, acc: Seq<u8>, owned: bool)
    requires
        0 <= p <= s.len(),
    ensures
        p <= bs_run(s, p, acc, owned).1 <= s.len(),
    decreases s.len() - p,
{
    if p < s.len() && spec_starting_string_type(s.subrange(p, s.len() as int)) == Some(QuoteStyle::Backslash) {
        if s[p] == BACKSLASH {
            if p + 1 < s.len() {
                lemma_bs_run_bounds(s, p + 2, acc.push(s[p + 1]), owned || p > 0);
            }
        } else {
            lemma_bs_run_bounds(s, p + 1, acc.push(s[p]), owned);
        }
    }
}

proof fn lemma_ansi_run_bounds(s: Seq<u8>, p: int, acc: Seq<u8>, owned: bool)
    requires
        0 <= p <= s.len(),
    ensures
        p <= ansi_run(s, p, acc, owned).1 <= s.len(),
    decreases s.len() - p,
{
    if p < s.len() && s[p] != APOSTROPHE && s[p] == BACKSLASH && p + 1 < s.len() {
        match ansi_escape(s[p + 1]) {
            Some(c) => lemma_ansi_run_bounds(s, p + 2, acc.push(c), true),
            None => lemma_ansi_run_bounds(s, p + 2, acc.push(s[p]).push(s[p + 1]), owned),
        }
    } else if p < s.len() && s[p] != APOSTROPHE && s[p] != BACKSLASH {
        lemma_ansi_run_bounds(s, p + 1, acc.push(s[p]), owned);
    }
}

proof fn lemma_sep_end_bounds(s: Seq<u8>, i: int)
    requires
        0 <= i <= s.len(),
    ensures
        i <= sep_end(s, i) <= s.len(),
    decreases s.len() - i,
{
    if i < s.len() && is_separator_byte(s[i]) {
        lemma_sep_end_bounds(s, i + 1);
    }
}

proof fn lemma_single_quote_bounds(s: Seq<u8>, i: int)
    requires
        0 <= i <= s.len(),
    ensures
        i <= single_quote_from(s, i) <= s.len(),
    decreases s.len() - i,
{
    if i < s.len() && s[i] != APOSTROPHE {
        lemma_single_quote_bounds(s, i + 1);
    }
}

/// Every step of a non-empty input consumes at least one byte, and no more
/// than the input holds.
pub proof fn lemma_step_consumes(s: Seq<u8>)
    requires
        s.len() > 0,
        unescape_ok(s),
    ensures
        0 < spec_unescape(s).consumed <= s.len(),
{
    let st = spec_starting_string_type(s).unwrap();
    if st == QuoteStyle::Separator {
        lemma_sep_end_bounds(s, 1);
    } else if st == QuoteStyle::Single {
        lemma_single_quote_bounds(s, 1);
    } else if st == QuoteStyle::Double {
        lemma_dq_run_bounds(s, 1, Seq::empty(), Seq::empty());
    } else if st == QuoteStyle::Locale {
        lemma_dq_run_bounds(s, 2, Seq::empty(), Seq::empty());
    } else if st == QuoteStyle::AnsiC {
        lemma_ansi_run_bounds(s, 2, Seq::empty(), false);
    } else {
        if s[0] == BACKSLASH {
            if s.len() > 1 {
                lemma_bs_run_bounds(s, 2, seq![s[1]], false);
            }
        } else {
            lemma_bs_run_bounds(s, 1, seq![s[0]], false);
        }
    }
}

fn ansi_escape_byte(c: u8) -> (r: Option<u8>)
    ensures
        r == ansi_escape(c),
{
    if c == 97 {
        Some(7)
    } else if c == 98 {
        Some(8)
    } else if c == 101 || c == 69 {
        Some(27)
    } else if c == 102 {
        Some(12)
    } else if c == 110 {
        Some(10)
    } else if c == 114 {
        Some(13)
    } else if c == 116 {
        Some(9)
    } else if c == 118 {
        Some(11)
    } else if c == BACKSLASH || c == APOSTROPHE || c == DQUOTE || c == 63 {
        Some(c)
    } else {
        None
    }
}

impl QuoteStyle {
    pub fn is_separator(c: u8) -> (r: bool)
        ensures
            r == is_separator_byte(c),
    {
        c == 9u8 || c == 10u8 || c == 11u8 || c == 12u8 || c == 13u8 || c == 32u8
    }

    /// Determines the type of quote style that the provided byte slice starts with.
    ///
    /// Will return None on a zero-sized slice
    pub fn starting_string_type(b: &[u8]) -> (r: Option<QuoteStyle>)
        ensures
            r == spec_starting_string_type(b@),
    {
        if b.len() == 0 {
            None
        } else if QuoteStyle::is_separator(b[0]) {
            Some(QuoteStyle::Separator)
        } else if b[0] == APOSTROPHE {
            Some(QuoteStyle::Single)
        } else if b[0] == DQUOTE {
            Some(QuoteStyle::Double)
        } else if b.len() >= 2 && b[0] == DOLLAR && b[1] == APOSTROPHE {
            Some(QuoteStyle::AnsiC)
        } else if b.len() >= 2 && b[0] == DOLLAR && b[1] == DQUOTE {
            Some(QuoteStyle::Locale)
        } else {
            Some(QuoteStyle::Backslash)
        }
    }

    /// Tries to unescape the string using the provided quote style
    pub fn bash_unescape_as<'a>(&self, s: &'a [u8]) -> (r: Option<UnescapeResult<'a>>)
        requires
            unescape_as_ok(*self, s@),
        ensures
            r is None <==> s@.len() == 0,
            r matches Some(u) ==> result_is(u, spec_unescape_as(*self, s@), s@),
    {
        match self {
            QuoteStyle::Separator => Substrings::consume_seperator(s),
            QuoteStyle::Backslash => Substrings::consume_backslashed(s),
            QuoteStyle::Single => Substrings::consume_single(s),
            QuoteStyle::Double => Substrings::consume_double(s),
            QuoteStyle::AnsiC => Substrings::consume_ansi_c(s),
            QuoteStyle::Locale => Substrings::consume_locale(s),
        }
    }

    /// Auto-detects the string type, and starts unescaping the string as such
    pub fn bash_unescape<'a>(s: &'a [u8]) -> (r: Option<UnescapeResult<'a>>)
        requires
            unescape_ok(s@),
        ensures
            r is None <==> s@.len() == 0,
            r matches Some(u) ==> result_is(u, spec_unescape(s@), s@),
            r matches Some(u) ==> qview_style(u.unescaped@) == spec_starting_string_type(s@).unwrap()
                && u.rest@.len() < s@.len() && s@ == s@.take(s@.len() - u.rest@.len()) + u.rest@,
    {
        proof {
            if s@.len() > 0 {
                lemma_step_consumes(s@);
                let n = spec_unescape(s@).consumed;
                assert(s@ =~= s@.take(n) + s@.subrange(n, s@.len() as int));
            }
        }
        match QuoteStyle::starting_string_type(s) {
            None => None,
            Some(st) => st.bash_unescape_as(s),
        }
    }
}

/// Iterates over substrings that may follow different quoting styles
pub struct Substrings<'a> {
    rest: &'a [u8],
}

impl<'a> View for Substrings<'a> {
    type V = Seq<u8>;

    closed spec fn view(&self) -> Seq<u8> {
        self.rest@
    }
}

impl<'a> Substrings<'a> {
    pub fn new(string: &'a [u8]) -> (r: Substrings<'a>)
        ensures
            r@ == string@,
    {
        Substrings { rest: string }
    }

    /// Returns a result containing the next group of characters that is considered a field seperator
    fn consume_seperator(src: &'a [u8]) -> (r: Option<UnescapeResult<'a>>)
        requires
            src@.len() == 0 || spec_starting_string_type(src@) == Some(QuoteStyle::Separator),
        ensures
            r is None <==> src@.len() == 0,
            r matches Some(u) ==> result_is(u, sep_step(src@), src@),
    {
        if src.len() == 0 {
            return None;
        }
        let mut i: usize = 0;
        while i < src.len() && QuoteStyle::is_separator(src[i])
            invariant
                i <= src@.len(),
                sep_end(src@, 0) == sep_end(src@, i as int),
            decreases src@.len() - i,
        {
            i = i + 1;
        }
        Some(UnescapeResult {
            was_closed: true,
            unescaped: QuotedString::Separator(Cow::Borrowed(slice_subrange(src, 0, i))),
            rest: tail(src, i),
        })
    }

    /// Consumes the next non-zero sized unquoted string, using backslashes to escape whitespace and dollar signs
    ///
    /// If the string ends with a backslash, the backslash is *not* returned in the unescaped string, and the string is indicated as unclosed
    fn consume_backslashed(src: &'a [u8]) -> (r: Option<UnescapeResult<'a>>)
        requires
            src@.len() == 0 || spec_starting_string_type(src@) == Some(QuoteStyle::Backslash),
        ensures
            r is None <==> src@.len() == 0,
            r matches Some(u) ==> result_is(u, bs_step(src@), src@),
    {
        if src.len() == 0 {
            return None;
        }
        let mut out: Vec<u8> = Vec::new();
        let mut owned = false;
        let mut off: usize = 0;
        let mut p: usize = 0;
        loop
            invariant
                p <= src@.len(),
                src@.len() > 0,
                off <= 1,
                bs_run(src@, 0, Seq::empty(), false) == bs_run(src@, p as int, out@, owned),
                !owned ==> off + out@.len() == p && out@ == src@.subrange(off as int, p as int),
            decreases src@.len() - p,
        {
            if p >= src.len() {
                let c = finish_cow(src, out, owned, off);
                return Some(UnescapeResult {
                    was_closed: true,
                    unescaped: QuotedString::Backslash(c),
                    rest: tail(src, src.len()),
                });
            }
            let rest = tail(src, p);
            match QuoteStyle::starting_string_type(rest) {
                Some(QuoteStyle::Backslash) => {},
                _ => {
                    let c = finish_cow(src, out, owned, off);
                    return Some(UnescapeResult { was_closed: true, unescaped: QuotedString::Backslash(c), rest });
                },
            }
            if src[p] == BACKSLASH {
                if p + 1 >= src.len() {
                    let c = finish_cow(src, out, owned, off);
                    return Some(UnescapeResult {
                        was_closed: false,
                        unescaped: QuotedString::Backslash(c),
                        rest: tail(src, p + 1),
                    });
                }
                if p > 0 {
                    owned = true;
                } else {
                    off = 1;
                }
                out.push(src[p + 1]);
                p = p + 2;
                assert(!owned ==> out@ =~= src@.subrange(off as int, p as int));
            } else {
                out.push(src[p]);
                p = p + 1;
                assert(!owned ==> out@ =~= src@.subrange(off as int, p as int));
            }
        }
    }

    /// Escapes singley-quoted strings.
    ///
    /// The contents of singly-quoted strings are literal - no escapes. Ends at the next single-quote.
    ///
    /// Returns `None` on an empty input, or one that does not start with a single quote.
    fn consume_single(src: &'a [u8]) -> (r: Option<UnescapeResult<'a>>)
        ensures
            r is None <==> (src@.len() == 0 || spec_starting_string_type(src@) != Some(QuoteStyle::Single)),
            r matches Some(u) ==> result_is(u, single_step(src@), src@),
    {
        if src.len() == 0 {
            return None;
        }
        match QuoteStyle::starting_string_type(src) {
            Some(QuoteStyle::Single) => {},
            _ => {
                return None;
            },
        }
        let mut j: usize = 1;
        while j < src.len() && src[j] != APOSTROPHE
            invariant
                1 <= j <= src@.len(),
                single_quote_from(src@, 1) == single_quote_from(src@, j as int),
            decreases src@.len() - j,
        {
            j = j + 1;
        }
        if j < src.len() {
            Some(UnescapeResult {
                was_closed: true,
                unescaped: QuotedString::Single(Cow::Borrowed(slice_subrange(src, 1, j))),
                rest: tail(src, j + 1),
            })
        } else {
            Some(UnescapeResult {
                was_closed: false,
                unescaped: QuotedString::Single(Cow::Borrowed(slice_subrange(src, 1, src.len()))),
                rest: tail(src, src.len()),
            })
        }
    }

    /// Consumes a number of characters of a doubly quoted string starting at
    /// `q`, processing backslash escapes. Stops right before the end of the
    /// doubly-quoted string, before a lone backslash that ends the input, or
    /// at the end of the input.
    fn consume_string_segment(src: &'a [u8], q: usize) -> (r: (Cow<'a, [u8]>, usize))
        requires
            q < src@.len(),
            src@[q as int] != DQUOTE,
            !(q + 1 == src@.len() && src@[q as int] == BACKSLASH),
            seg_run(src@, q as int, q as int, Seq::empty(), false) is Some,
        ensures
            ({
                let m = seg_run(src@, q as int, q as int, Seq::empty(), false).unwrap();
                &&& m.0 == r.0@
                &&& m.1 == r.1
                &&& m.2 == (r.0 is Owned)
            }),
            q < r.1 <= src@.len(),
    {
        let mut out: Vec<u8> = Vec::new();
        let mut owned = false;
        let mut off: usize = 0;
        let mut p: usize = q;
        loop
            invariant
                q <= p <= src@.len(),
                src@[q as int] != DQUOTE,
                q < src@.len(),
                !(q + 1 == src@.len() && src@[q as int] == BACKSLASH),
                off <= 1,
                seg_run(src@, q as int, q as int, Seq::empty(), false) == seg_run(src@, q as int, p as int, out@, owned),
                seg_run(src@, q as int, p as int, out@, owned) is Some,
                !owned ==> q + off + out@.len() == p && out@ == src@.subrange(q + off, p as int),
            decreases src@.len() - p,
        {
            if p >= src.len() {
                let c = finish_cow(src, out, owned, q + off);
                return (c, src.len());
            }
            let b = src[p];
            if b == DQUOTE {
                let c = finish_cow(src, out, owned, q + off);
                return (c, p);
            }
            if b == BACKTICK || b == DOLLAR {
                assert(false);
            }
            if b == BACKSLASH {
                if p + 1 >= src.len() {
                    let c = finish_cow(src, out, owned, q + off);
                    return (c, p);
                }
                if p > q {
                    owned = true;
                } else {
                    off = 1;
                }
                out.push(src[p + 1]);
                p = p + 2;
                assert(!owned ==> out@ =~= src@.subrange(q + off, p as int));
            } else {
                out.push(b);
                p = p + 1;
                assert(!owned ==> out@ =~= src@.subrange(q + off, p as int));
            }
        }
    }

    /// Consumes the next non-zero sized double-quoted string, using backslashes to escape dollar signs and backticks
    fn consume_double(src: &'a [u8]) -> (r: Option<UnescapeResult<'a>>)
        requires
            src@.len() == 0 || (spec_starting_string_type(src@) == Some(QuoteStyle::Double)
                && dq_run(src@, 1, Seq::empty(), Seq::empty()) is Some),
        ensures
            r is None <==> src@.len() == 0,
            r matches Some(u) ==> result_is(u, dq_step(src@), src@),
    {
        if src.len() == 0 {
            return None;
        }
        let (segments, was_closed, e) = Substrings::consume_dq_body(src, 1);
        Some(UnescapeResult { was_closed, unescaped: QuotedString::Double(segments), rest: tail(src, e) })
    }

    /// Consumes the next locale string (`$"..."`), read as a doubly quoted one.
    fn consume_locale(src: &'a [u8]) -> (r: Option<UnescapeResult<'a>>)
        requires
            src@.len() == 0 || (spec_starting_string_type(src@) == Some(QuoteStyle::Locale)
                && dq_run(src@, 2, Seq::empty(), Seq::empty()) is Some),
        ensures
            r is None <==> src@.len() == 0,
            r matches Some(u) ==> result_is(u, locale_step(src@), src@),
    {
        if src.len() == 0 {
            return None;
        }
        let (segments, was_closed, e) = Substrings::consume_dq_body(src, 2);
        Some(UnescapeResult { was_closed, unescaped: QuotedString::Locale(segments), rest: tail(src, e) })
    }

    /// Consumes an ANSI-C string (`$'...'`), replacing its one-character
    /// escapes (see `ansi_escape`).
    fn consume_ansi_c(src: &'a [u8]) -> (r: Option<UnescapeResult<'a>>)
        requires
            src@.len() == 0 || spec_starting_string_type(src@) == Some(QuoteStyle::AnsiC),
        ensures
            r is None <==> src@.len() == 0,
            r matches Some(u) ==> result_is(u, ansi_step(src@), src@),
    {
        if src.len() == 0 {
            return None;
        }
        let mut out: Vec<u8> = Vec::new();
        let mut owned = false;
        let mut p: usize = 2;
        loop
            invariant
                2 <= p <= src@.len(),
                ansi_run(src@, 2, Seq::empty(), false) == ansi_run(src@, p as int, out@, owned),
                !owned ==> 2 + out@.len() == p && out@ == src@.subrange(2, p as int),
            decreases src@.len() - p,
        {
            if p >= src.len() {
                let c = finish_cow(src, out, owned, 2);
                return Some(UnescapeResult { was_closed: false, unescaped: QuotedString::AnsiC(c), rest: tail(src, src.len()) });
            }
            let b = src[p];
            if b == APOSTROPHE {
                let c = finish_cow(src, out, owned, 2);
                return Some(UnescapeResult { was_closed: true, unescaped: QuotedString::AnsiC(c), rest: tail(src, p + 1) });
            }
            if b == BACKSLASH {
                if p + 1 >= src.len() {
                    let c = finish_cow(src, out, owned, 2);
                    return Some(UnescapeResult { was_closed: false, unescaped: QuotedString::AnsiC(c), rest: tail(src, src.len()) });
                }
                let e = src[p + 1];
                match ansi_escape_byte(e) {
                    Some(c) => {
                        out.push(c);
                        owned = true;
                    },
                    None => {
                        out.push(b);
                        out.push(e);
                        assert(!owned ==> out@ =~= src@.subrange(2, p + 2));
                    },
                }
                p = p + 2;
            } else {
                out.push(b);
                p = p + 1;
                assert(!owned ==> out@ =~= src@.subrange(2, p as int));
            }
        }
    }

    /// Reads the body of a doubly quoted string from `start` (just after its
    /// opening quote): its segments, whether it was closed, and where it ends.
    fn consume_dq_body(src: &'a [u8], start: usize) -> (r: (Vec<InnerString<'a>>, bool, usize))
        requires
            1 <= start <= src@.len(),
            dq_run(src@, start as int, Seq::empty(), Seq::empty()) is Some,
        ensures
            ({
                let m = dq_run(src@, start as int, Seq::empty(), Seq::empty()).unwrap();
                &&& inner_views(r.0@) == m.0
                &&& inner_flags(r.0@) == m.1
                &&& r.1 == m.2
                &&& r.2 == m.3
                &&& r.2 <= src@.len()
            }),
    {
        let mut segments: Vec<InnerString<'a>> = Vec::new();
        let mut p: usize = start;
        proof {
            assert(inner_views(segments@) =~= Seq::<IView>::empty());
            assert(inner_flags(segments@) =~= Seq::<bool>::empty());
        }
        loop
            invariant
                1 <= p <= src@.len(),
                dq_run(src@, start as int, Seq::empty(), Seq::empty()) == dq_run(src@, p as int, inner_views(segments@), inner_flags(segments@)),
                dq_run(src@, p as int, inner_views(segments@), inner_flags(segments@)) is Some,
            decreases src@.len() - p,
        {
            if p >= src.len() {
                return (segments, false, src.len());
            }
            if src[p] == BACKTICK || (src[p] == DOLLAR && p + 1 < src.len() && src[p + 1] == LPAREN) {
                assert(false);
            }
            if src[p] == DQUOTE {
                return (segments, true, p + 1);
            }
            if p + 1 == src.len() && src[p] == BACKSLASH {
                return (segments, false, p);
            }
            proof {
                lemma_seg_run_bounds(src@, p as int, p as int, Seq::empty(), false);
            }
            let (c, e) = Substrings::consume_string_segment(src, p);
            let ghost old_segs = segments@;
            segments.push(InnerString::Segment(c));
            proof {
                assert(inner_views(segments@) =~= inner_views(old_segs).push(IView::Segment(c@)));
                assert(inner_flags(segments@) =~= inner_flags(old_segs).push(c is Owned));
            }
            p = e;
        }
    }

    /// Returns the next substring, or `None` once the input is consumed.
    pub fn next(&mut self) -> (r: Option<UnescapeResult<'a>>)
        requires
            unescape_ok(old(self)@),
        ensures
            r is None <==> old(self)@.len() == 0,
            r is None ==> final(self)@ == old(self)@,
            r matches Some(u) ==> result_is(u, spec_unescape(old(self)@), old(self)@) && final(self)@ == u.rest@,
            r matches Some(u) ==> u.rest@.len() < old(self)@.len() && old(self)@ == old(self)@.take(
                old(self)@.len() - u.rest@.len(),
            ) + u.rest@,
    {
        match QuoteStyle::bash_unescape(self.rest) {
            None => None,
            Some(result) => {
                self.rest = result.rest;
                Some(result)
            },
        }
    }
}


// ---------------------------------------------------------------------------
// Lossy text of quoted strings
// ---------------------------------------------------------------------------

/// The text that `String::from_utf8_lossy` makes of `b`.
pub uninterp spec fn spec_utf8_lossy(b: Seq<u8>) -> Seq<char>;

/// The text that the `Debug` formatting of a `str` makes of `s` (quoted, with escapes).
pub uninterp spec fn spec_debug_str(s: Seq<char>) -> Seq<char>;

/// The text of a byte buffer: its decoding where it is valid UTF-8, else
/// what `String::from_utf8_lossy` makes of it.
pub open spec fn lossy_text(b: Seq<u8>) -> Seq<char> {
    if valid_utf8(b) {
        decode_utf8(b)
    } else {
        spec_utf8_lossy(b)
    }
}

/// `String::from_utf8_lossy` of std: the text is named by `spec_utf8_lossy`;
/// std documents that valid UTF-8 is decoded unchanged.
#[verifier::external_body]
pub(crate) fn utf8_lossy<'b>(b: &'b [u8]) -> (r: Cow<'b, str>)
    ensures
        r@ == spec_utf8_lossy(b@),
        valid_utf8(b@) ==> r@ == decode_utf8(b@),
{
    String::from_utf8_lossy(b)
}

/// `format!("{:?}", s)` of std for a `str`: the text is named by `spec_debug_str`.
#[verifier::external_body]
pub(crate) fn debug_str(s: &str) -> (r: String)
    ensures
        r@ == spec_debug_str(s@),
{
    format!("{:?}", s)
}

fn push_cow_str(s: &mut String, c: &Cow<'_, str>)
    ensures
        final(s)@ == old(s)@ + c@,
{
    match c {
        Cow::Borrowed(b) => s.append(b),
        Cow::Owned(o) => s.append(o.as_str()),
    }
}

pub fn cow_str_into_string(c: Cow<'_, str>) -> (r: String)
    ensures
        r@ == c@,
{
    match c {
        Cow::Borrowed(b) => b.to_owned(),
        Cow::Owned(o) => o,
    }
}

/// The lossy text of one part of a doubly quoted string (a subshell has none
/// in the view).
pub open spec fn inner_lossy(x: IView) -> Seq<char> {
    match x {
        IView::Segment(b) => lossy_text(b),
        IView::Subshell(_) => Seq::empty(),
    }
}

/// The lossy texts of the parts of a doubly quoted string, one after the other.
pub open spec fn segs_lossy(v: Seq<IView>) -> Seq<char>
    decreases v.len(),
{
    if v.len() == 0 {
        Seq::empty()
    } else {
        segs_lossy(v.drop_last()) + inner_lossy(v.last())
    }
}

/// The lossy text of a quoted string: the `lossy_text` of each byte buffer
/// (valid UTF-8 decoded as it is), the segments of a doubly quoted string
/// concatenated.
pub open spec fn qview_lossy(q: QView) -> Seq<char> {
    match q {
        QView::Separator(b) => lossy_text(b),
        QView::Backslash(b) => lossy_text(b),
        QView::Single(b) => lossy_text(b),
        QView::AnsiC(b) => lossy_text(b),
        QView::Double(v) => segs_lossy(v),
        QView::Locale(v) => segs_lossy(v),
    }
}

/// The lossy text of a quoted string, subshells included: the `lossy_text`
/// of each byte buffer (valid UTF-8 decoded as it is), the parts of a doubly quoted string one
/// after the other, and a subshell as the `Debug` text of its parts' text
/// inside the subshell's delimiters.
pub open spec fn quoted_lossy<'a>(q: QuotedString<'a>) -> Seq<char>
    decreases q, 0int,
{
    match q {
        QuotedString::Separator(c) => lossy_text(c@),
        QuotedString::Backslash(c) => lossy_text(c@),
        QuotedString::Single(c) => lossy_text(c@),
        QuotedString::AnsiC(c) => lossy_text(c@),
        QuotedString::Double(v) => {
            proof {
                assert(decreases_to!(v => v@));
            }
            inners_lossy(v@, v@.len() as int)
        },
        QuotedString::Locale(v) => {
            proof {
                assert(decreases_to!(v => v@));
            }
            inners_lossy(v@, v@.len() as int)
        },
    }
}

/// The lossy text of the first `k` parts of a doubly quoted string.
pub open spec fn inners_lossy<'a>(v: Seq<InnerString<'a>>, k: int) -> Seq<char>
    decreases v, k,
{
    if k <= 0 || k > v.len() {
        Seq::empty()
    } else {
        inners_lossy(v, k - 1) + inner_string_lossy(v[k - 1])
    }
}

/// The lossy text of a part of a doubly quoted string.
pub open spec fn inner_string_lossy<'a>(x: InnerString<'a>) -> Seq<char>
    decreases x, 0int,
{
    match x {
        InnerString::Segment(c) => lossy_text(c@),
        InnerString::Subshell(st, parts) => {
            proof {
                assert(decreases_to!(parts => parts@));
            }
            let t = spec_debug_str(results_lossy(parts@, parts@.len() as int));
            match st {
                SubshellStyle::Backticks => "`"@ + t + "`"@,
                SubshellStyle::Legacy => "$("@ + t + ")"@,
            }
        },
    }
}

/// The lossy text of the first `k` strings of a subshell, one after the other.
pub open spec fn results_lossy<'a>(p: Seq<UnescapeResult<'a>>, k: int) -> Seq<char>
    decreases p, k,
{
    if k <= 0 || k > p.len() {
        Seq::empty()
    } else {
        proof {
            assert(decreases_to!(p[k - 1] => p[k - 1].unescaped));
        }
        results_lossy(p, k - 1) + quoted_lossy(p[k - 1].unescaped)
    }
}

pub open spec fn segments_only(v: Seq<IView>) -> bool {
    forall|i: int| 0 <= i < v.len() ==> #[trigger] v[i] is Segment
}

/// Whether a quoted string holds no subshell.
pub open spec fn no_subshells(q: QView) -> bool {
    match q {
        QView::Double(v) => segments_only(v),
        QView::Locale(v) => segments_only(v),
        _ => true,
    }
}

pub open spec fn qview_style(q: QView) -> QuoteStyle {
    match q {
        QView::Separator(_) => QuoteStyle::Separator,
        QView::Backslash(_) => QuoteStyle::Backslash,
        QView::Single(_) => QuoteStyle::Single,
        QView::Double(_) => QuoteStyle::Double,
        QView::AnsiC(_) => QuoteStyle::AnsiC,
        QView::Locale(_) => QuoteStyle::Locale,
    }
}

proof fn lemma_dq_segments_only(s: Seq<u8>, p: int, segs: Seq<IView>, owned: Seq<bool>)
    requires
        segments_only(segs),
        dq_run(s, p, segs, owned) is Some,
    ensures
        segments_only(dq_run(s, p, segs, owned).unwrap().0),
    decreases s.len() - p,
{
    if 0 <= p < s.len() && s[p] != DQUOTE && !(p + 1 == s.len() && s[p] == BACKSLASH) && !(s[p] == BACKTICK
        || (s[p] == DOLLAR && p + 1 < s.len() && s[p + 1] == LPAREN)) {
        let r = seg_run(s, p, p, Seq::empty(), false).unwrap();
        let segs2 = segs.push(IView::Segment(r.0));
        assert(segments_only(segs2)) by {
            assert forall|i: int| 0 <= i < segs2.len() implies #[trigger] segs2[i] is Segment by {
                if i < segs.len() {
                    assert(segs2[i] == segs[i]);
                }
            }
        }
        lemma_dq_segments_only(s, r.1, segs2, owned.push(r.2));
    }
}

/// Unescaping yields no subshells.
pub proof fn lemma_unescape_no_subshells(s: Seq<u8>)
    requires
        s.len() > 0,
        unescape_ok(s),
    ensures
        no_subshells(spec_unescape(s).unescaped),
{
    if spec_starting_string_type(s) == Some(QuoteStyle::Double) {
        lemma_dq_segments_only(s, 1, Seq::empty(), Seq::empty());
    } else if spec_starting_string_type(s) == Some(QuoteStyle::Locale) {
        lemma_dq_segments_only(s, 2, Seq::empty(), Seq::empty());
    }
}

/// The bytes that each step of splitting `s` consumes, in order.
pub open spec fn split_pieces(s: Seq<u8>) -> Seq<Seq<u8>>
    decreases s.len(),
{
    if s.len() == 0 {
        Seq::empty()
    } else {
        let n = spec_unescape(s).consumed;
        if 0 < n <= s.len() {
            seq![s.subrange(0, n)] + split_pieces(s.subrange(n, s.len() as int))
        } else {
            seq![s]
        }
    }
}

/// Splitting makes progress: every step consumes at least one byte, so there
/// are at most as many substrings as bytes, and the bytes the steps consume
/// are the input, one after the other.
pub proof fn law_split_progress(s: Seq<u8>)
    requires
        splits_ok(s),
    ensures
        split_pieces(s).len() == spec_split(s).len(),
        spec_split(s).len() <= s.len(),
        split_pieces(s).flatten() == s,
        forall|i: int|
            0 <= i < split_pieces(s).len() ==> (#[trigger] split_pieces(s)[i]).len() > 0 && split_pieces(s)[i].len()
                == spec_split(s)[i].consumed,
    decreases s.len(),
{
    if s.len() == 0 {
    } else {
        let n = spec_unescape(s).consumed;
        let rest = s.subrange(n, s.len() as int);
        law_split_progress(rest);
        let ps = split_pieces(s);
        let sp = spec_split(s);
        assert(ps.drop_first() =~= split_pieces(rest));
        assert(ps.first() == s.subrange(0, n));
        assert(ps.flatten() == ps.first() + ps.drop_first().flatten());
        assert(s =~= s.subrange(0, n) + rest);
        assert forall|i: int| 0 <= i < ps.len() implies (#[trigger] ps[i]).len() > 0 && ps[i].len() == sp[i].consumed by {
            if i > 0 {
                assert(ps[i] == split_pieces(rest)[i - 1]);
                assert(sp[i] == spec_split(rest)[i - 1]);
            }
        }
    }
}

/// The words of a command line: the lossy text of each substring that is not a
/// separator, and whether the last of them was closed.
pub open spec fn spec_words(s: Seq<u8>, acc: Seq<Seq<char>>, last: bool) -> (Seq<Seq<char>>, bool)
    decreases s.len(),
{
    if s.len() == 0 {
        (acc, last)
    } else {
        let st = spec_unescape(s);
        let n = st.consumed;
        if 0 < n <= s.len() {
            let rest = s.subrange(n, s.len() as int);
            if st.unescaped is Separator {
                spec_words(rest, acc, last)
            } else {
                spec_words(rest, acc.push(qview_lossy(st.unescaped)), st.closed)
            }
        } else {
            (acc, last)
        }
    }
}

/// The lossy texts of the steps that are not separators, in order.
pub open spec fn step_words(steps: Seq<StepSpec>) -> Seq<Seq<char>>
    decreases steps.len(),
{
    if steps.len() == 0 {
        Seq::empty()
    } else {
        (if steps[0].unescaped is Separator {
            Seq::empty()
        } else {
            seq![qview_lossy(steps[0].unescaped)]
        }) + step_words(steps.drop_first())
    }
}

/// Whether the last step that is not a separator was closed (`c` where
/// there is none).
pub open spec fn last_closed(steps: Seq<StepSpec>, c: bool) -> bool
    decreases steps.len(),
{
    if steps.len() == 0 {
        c
    } else {
        last_closed(steps.drop_first(), if steps[0].unescaped is Separator { c } else { steps[0].closed })
    }
}

/// The words of a command line are the lossy texts of the substrings that
/// splitting it yields, separators left out, in order; it is closed as the
/// last of them is (closed where there is none).
pub proof fn law_words_of_split(s: Seq<u8>, acc: Seq<Seq<char>>, c: bool)
    requires
        splits_ok(s),
    ensures
        spec_words(s, acc, c) == (acc + step_words(spec_split(s)), last_closed(spec_split(s), c)),
    decreases s.len(),
{
    if s.len() == 0 {
        assert(acc + step_words(spec_split(s)) =~= acc);
    } else {
        let st = spec_unescape(s);
        let n = st.consumed;
        let rest = s.subrange(n, s.len() as int);
        let sp = spec_split(s);
        assert(sp.drop_first() =~= spec_split(rest));
        assert(sp[0] == st);
        if st.unescaped is Separator {
            law_words_of_split(rest, acc, c);
            assert(step_words(sp) =~= step_words(spec_split(rest)));
        } else {
            law_words_of_split(rest, acc.push(qview_lossy(st.unescaped)), st.closed);
            assert(step_words(sp) =~= seq![qview_lossy(st.unescaped)] + step_words(spec_split(rest)));
            assert(acc.push(qview_lossy(st.unescaped)) + step_words(spec_split(rest)) =~= acc + step_words(sp));
        }
    }
}

/// An unquoted run with each escaping backslash removed: a backslash keeps
/// the byte after it, and a final lone backslash is dropped.
pub open spec fn unescape_run(c: Seq<u8>) -> Seq<u8>
    decreases c.len(),
{
    if c.len() == 0 {
        Seq::empty()
    } else if c[0] == BACKSLASH {
        if c.len() == 1 {
            Seq::empty()
        } else {
            seq![c[1]] + unescape_run(c.skip(2))
        }
    } else {
        seq![c[0]] + unescape_run(c.skip(1))
    }
}

/// Whether an unquoted run ends in a lone backslash, one that escapes nothing.
pub open spec fn ends_unpaired(c: Seq<u8>) -> bool
    decreases c.len(),
{
    if c.len() == 0 {
        false
    } else if c[0] == BACKSLASH {
        if c.len() == 1 {
            true
        } else {
            ends_unpaired(c.skip(2))
        }
    } else {
        ends_unpaired(c.skip(1))
    }
}

/// Whether an unquoted run holds a backslash that escapes a byte.
pub open spec fn escapes_from(c: Seq<u8>) -> bool
    decreases c.len(),
{
    if c.len() == 0 {
        false
    } else if c[0] == BACKSLASH {
        c.len() > 1
    } else {
        escapes_from(c.skip(1))
    }
}

/// Whether an unquoted run holds an escaping backslash anywhere but at its
/// first byte: only then can its text not be a slice of the input.
pub open spec fn escapes_inside(c: Seq<u8>) -> bool {
    if c.len() == 0 {
        false
    } else if c[0] == BACKSLASH {
        c.len() > 1 && escapes_from(c.skip(2))
    } else {
        escapes_from(c.skip(1))
    }
}

/// Where an unquoted run's text starts within the run: after a leading
/// escaping backslash.
pub open spec fn run_lead(c: Seq<u8>) -> int {
    if c.len() > 1 && c[0] == BACKSLASH {
        1
    } else {
        0
    }
}

/// Where an unquoted run's text ends within the run: before a final lone
/// backslash.
pub open spec fn run_end(c: Seq<u8>) -> int {
    if ends_unpaired(c) {
        c.len() - 1
    } else {
        c.len() as int
    }
}

proof fn lemma_plain_run(c: Seq<u8>)
    requires
        !escapes_from(c),
    ensures
        unescape_run(c) == c.subrange(0, run_end(c)),
        run_end(c) >= 0,
    decreases c.len(),
{
    if c.len() == 0 {
        assert(c.subrange(0, 0) =~= Seq::<u8>::empty());
    } else if c[0] == BACKSLASH {
        assert(c.subrange(0, 0) =~= Seq::<u8>::empty());
    } else {
        let t = c.skip(1);
        lemma_plain_run(t);
        assert(seq![c[0]] + t.subrange(0, run_end(t)) =~= c.subrange(0, run_end(c)));
    }
}

proof fn lemma_borrowed_run(c: Seq<u8>)
    requires
        !escapes_inside(c),
    ensures
        0 <= run_lead(c) <= run_end(c) <= c.len(),
        unescape_run(c) == c.subrange(run_lead(c), run_end(c)),
{
    if c.len() == 0 {
        assert(c.subrange(0, 0) =~= Seq::<u8>::empty());
    } else if c[0] == BACKSLASH {
        if c.len() == 1 {
            assert(c.subrange(0, 0) =~= Seq::<u8>::empty());
        } else {
            let t = c.skip(2);
            lemma_plain_run(t);
            assert(seq![c[1]] + t.subrange(0, run_end(t)) =~= c.subrange(1, run_end(c)));
        }
    } else {
        let t = c.skip(1);
        lemma_plain_run(t);
        assert(seq![c[0]] + t.subrange(0, run_end(t)) =~= c.subrange(0, run_end(c)));
    }
}

proof fn lemma_bs_run_parts(s: Seq<u8>, p: int, acc: Seq<u8>, owned: bool)
    requires
        0 <= p <= s.len(),
    ensures
        ({
            let r = bs_run(s, p, acc, owned);
            let e = bs_run(s, p, Seq::empty(), false);
            &&& r.0 == acc + e.0
            &&& r.1 == e.1
            &&& r.2 == e.2
            &&& p <= e.1 <= s.len()
            &&& e.0 == unescape_run(s.subrange(p, e.1))
            &&& !e.2 <==> ends_unpaired(s.subrange(p, e.1))
            &&& (e.1 == s.len() || spec_starting_string_type(s.subrange(e.1, s.len() as int)) != Some(
                QuoteStyle::Backslash,
            ))
            &&& (!e.2 ==> e.1 == s.len())
            &&& r.3 == (owned || e.3)
            &&& e.3 == (if p == 0 {
                escapes_inside(s.subrange(p, e.1))
            } else {
                escapes_from(s.subrange(p, e.1))
            })
        }),
    decreases s.len() - p,
{
    if p >= s.len() {
        assert(s.subrange(p, p) =~= Seq::<u8>::empty());
        assert(acc + Seq::<u8>::empty() =~= acc);
    } else if spec_starting_string_type(s.subrange(p, s.len() as int)) != Some(QuoteStyle::Backslash) {
        assert(s.subrange(p, p) =~= Seq::<u8>::empty());
        assert(acc + Seq::<u8>::empty() =~= acc);
    } else if s[p] == BACKSLASH {
        if p + 1 >= s.len() {
            assert(s.subrange(p, p + 1) =~= seq![BACKSLASH]);
            assert(acc + Seq::<u8>::empty() =~= acc);
        } else {
            lemma_bs_run_parts(s, p + 2, acc.push(s[p + 1]), owned || p > 0);
            lemma_bs_run_parts(s, p + 2, seq![s[p + 1]], p > 0);
            let e2 = bs_run(s, p + 2, Seq::empty(), false);
            let c = s.subrange(p, e2.1);
            assert(c.skip(2) =~= s.subrange(p + 2, e2.1));
            assert(c[0] == BACKSLASH && c[1] == s[p + 1]);
            assert(acc.push(s[p + 1]) + e2.0 =~= acc + (seq![s[p + 1]] + e2.0));
        }
    } else {
        lemma_bs_run_parts(s, p + 1, acc.push(s[p]), owned);
        lemma_bs_run_parts(s, p + 1, seq![s[p]], false);
        let e2 = bs_run(s, p + 1, Seq::empty(), false);
        let c = s.subrange(p, e2.1);
        assert(c.skip(1) =~= s.subrange(p + 1, e2.1));
        assert(acc.push(s[p]) + e2.0 =~= acc + (seq![s[p]] + e2.0));
    }
}

/// An unquoted string runs until another quoting style starts (or the input
/// ends); its text is the run with each escaping backslash removed, and it is
/// unclosed exactly where the run ends the input with a lone backslash. Its
/// text is copied out of the input exactly where the run holds an escaping
/// backslash past its first byte; otherwise the text is a slice of the run.
pub proof fn law_unquoted_run(s: Seq<u8>)
    requires
        s.len() > 0,
        spec_starting_string_type(s) == Some(QuoteStyle::Backslash),
    ensures
        ({
            let st = bs_step(s);
            let c = s.take(st.consumed);
            &&& 0 < st.consumed <= s.len()
            &&& st.unescaped == QView::Backslash(unescape_run(c))
            &&& (st.consumed == s.len() || spec_starting_string_type(s.skip(st.consumed)) != Some(
                QuoteStyle::Backslash,
            ))
            &&& !st.closed <==> ends_unpaired(c)
            &&& st.owned == seq![escapes_inside(c)]
            &&& !escapes_inside(c) ==> {
                &&& 0 <= run_lead(c) <= run_end(c) <= c.len()
                &&& unescape_run(c) == c.subrange(run_lead(c), run_end(c))
            }
        }),
{
    lemma_bs_run_parts(s, 0, Seq::empty(), false);
    let e = bs_run(s, 0, Seq::empty(), false);
    if !escapes_inside(s.take(e.1)) {
        lemma_borrowed_run(s.take(e.1));
    }
    assert(s.subrange(0, e.1) =~= s.take(e.1));
    assert(s.subrange(e.1, s.len() as int) =~= s.skip(e.1));
    assert(s.subrange(0, s.len() as int) =~= s);
    lemma_step_consumes(s);
}

proof fn lemma_seg_run_parts(s: Seq<u8>, q: int, p: int, acc: Seq<u8>, owned: bool)
    requires
        0 <= q <= p <= s.len(),
    ensures
        (seg_run(s, q, p, acc, owned) is Some) == (seg_run(s, q, p, Seq::empty(), false) is Some),
        seg_run(s, q, p, Seq::empty(), false) matches Some(e) ==> {
            let r = seg_run(s, q, p, acc, owned).unwrap();
            let c = s.subrange(p, e.1);
            &&& r.0 == acc + e.0
            &&& r.1 == e.1
            &&& r.2 == (owned || e.2)
            &&& p <= e.1 <= s.len()
            &&& e.0 == unescape_run(c)
            &&& !ends_unpaired(c)
            &&& e.2 == (if p == q {
                escapes_inside(c)
            } else {
                escapes_from(c)
            })
        },
    decreases s.len() - p,
{
    if p >= s.len() || s[p] == DQUOTE {
        assert(s.subrange(p, p) =~= Seq::<u8>::empty());
        assert(acc + Seq::<u8>::empty() =~= acc);
    } else if s[p] == BACKTICK || s[p] == DOLLAR {
    } else if s[p] == BACKSLASH {
        if p + 1 >= s.len() {
            assert(s.subrange(p, p) =~= Seq::<u8>::empty());
            assert(acc + Seq::<u8>::empty() =~= acc);
        } else {
            lemma_seg_run_parts(s, q, p + 2, acc.push(s[p + 1]), owned || p > q);
            lemma_seg_run_parts(s, q, p + 2, seq![s[p + 1]], p > q);
            if let Some(e2) = seg_run(s, q, p + 2, Seq::empty(), false) {
                let c = s.subrange(p, e2.1);
                assert(c.skip(2) =~= s.subrange(p + 2, e2.1));
                assert(c[0] == BACKSLASH && c[1] == s[p + 1]);
                assert(acc.push(s[p + 1]) + e2.0 =~= acc + (seq![s[p + 1]] + e2.0));
            }
        }
    } else {
        lemma_seg_run_parts(s, q, p + 1, acc.push(s[p]), owned);
        lemma_seg_run_parts(s, q, p + 1, seq![s[p]], false);
        if let Some(e2) = seg_run(s, q, p + 1, Seq::empty(), false) {
            let c = s.subrange(p, e2.1);
            assert(c.skip(1) =~= s.subrange(p + 1, e2.1));
            assert(acc.push(s[p]) + e2.0 =~= acc + (seq![s[p]] + e2.0));
        }
    }
}

/// A segment of a doubly quoted string follows the rule of an unquoted run:
/// its text is the segment with each escaping backslash removed, and it is
/// copied out of the input exactly where an escaping backslash stands past
/// the segment's first byte; otherwise the text is a slice of the segment.
pub proof fn law_double_segment(s: Seq<u8>, q: int)
    requires
        0 <= q <= s.len(),
        seg_run(s, q, q, Seq::empty(), false) is Some,
    ensures
        ({
            let e = seg_run(s, q, q, Seq::empty(), false).unwrap();
            let c = s.subrange(q, e.1);
            &&& q <= e.1 <= s.len()
            &&& e.0 == unescape_run(c)
            &&& e.2 == escapes_inside(c)
            &&& !e.2 ==> {
                &&& 0 <= run_lead(c) <= run_end(c) == c.len()
                &&& e.0 == c.subrange(run_lead(c), c.len() as int)
            }
        }),
{
    lemma_seg_run_parts(s, q, q, Seq::empty(), false);
    let e = seg_run(s, q, q, Seq::empty(), false).unwrap();
    if !e.2 {
        lemma_borrowed_run(s.subrange(q, e.1));
    }
}

pub open spec fn strings_view(v: Seq<String>) -> Seq<Seq<char>> {
    v.map_values(|x: String| x@)
}

impl<'a> QuotedString<'a> {
    /// Interprets the passed value as a seperator string. Does not check if the contained characters are valid seperators.
    pub fn as_separator(c: Cow<'a, [u8]>) -> (r: QuotedString<'a>)
        ensures
            r@ == QView::Separator(c@),
            r.alloc_flags() == seq![c is Owned],
    {
        QuotedString::Separator(c)
    }

    pub fn as_backslash(c: Cow<'a, [u8]>) -> (r: QuotedString<'a>)
        ensures
            r@ == QView::Backslash(c@),
            r.alloc_flags() == seq![c is Owned],
    {
        QuotedString::Backslash(c)
    }

    pub fn as_single(c: Cow<'a, [u8]>) -> (r: QuotedString<'a>)
        ensures
            r@ == QView::Single(c@),
            r.alloc_flags() == seq![c is Owned],
    {
        QuotedString::Single(c)
    }

    pub fn as_double(c: Cow<'a, [u8]>) -> (r: QuotedString<'a>)
        ensures
            r@ == QView::Double(seq![IView::Segment(c@)]),
            r.alloc_flags() == seq![c is Owned],
    {
        let mut sv: Vec<InnerString<'a>> = Vec::new();
        sv.push(InnerString::Segment(c));
        proof {
            assert(inner_views(sv@) =~= seq![IView::Segment(c@)]);
            assert(inner_flags(sv@) =~= seq![c is Owned]);
        }
        QuotedString::Double(sv)
    }

    pub fn as_ansi_c(c: Cow<'a, [u8]>) -> (r: QuotedString<'a>)
        ensures
            r@ == QView::AnsiC(c@),
            r.alloc_flags() == seq![c is Owned],
    {
        QuotedString::AnsiC(c)
    }

    pub fn as_locale(c: Cow<'a, [u8]>) -> (r: QuotedString<'a>)
        ensures
            r@ == QView::Locale(seq![IView::Segment(c@)]),
            r.alloc_flags() == seq![c is Owned],
    {
        let mut sv: Vec<InnerString<'a>> = Vec::new();
        sv.push(InnerString::Segment(c));
        proof {
            assert(inner_views(sv@) =~= seq![IView::Segment(c@)]);
            assert(inner_flags(sv@) =~= seq![c is Owned]);
        }
        QuotedString::Locale(sv)
    }

    pub fn style(&self) -> (r: QuoteStyle)
        ensures
            r == qview_style(self@),
    {
        match self {
            QuotedString::Separator(_) => QuoteStyle::Separator,
            QuotedString::Backslash(_) => QuoteStyle::Backslash,
            QuotedString::Single(_) => QuoteStyle::Single,
            QuotedString::Double(_) => QuoteStyle::Double,
            QuotedString::AnsiC(_) => QuoteStyle::AnsiC,
            QuotedString::Locale(_) => QuoteStyle::Locale,
        }
    }

    /// The text of the string, bytes that are not UTF-8 replaced.
    pub fn to_string_lossy(&self) -> (r: Cow<'_, str>)
        ensures
            r@ == quoted_lossy(*self),
            no_subshells(self@) ==> r@ == qview_lossy(self@),
        decreases self,
    {
        match self {
            QuotedString::Separator(s) => utf8_lossy(cow_bytes(s)),
            QuotedString::Backslash(s) => utf8_lossy(cow_bytes(s)),
            QuotedString::Single(s) => utf8_lossy(cow_bytes(s)),
            QuotedString::AnsiC(s) => utf8_lossy(cow_bytes(s)),
            QuotedString::Double(v) => QuotedString::inner_lossy(v),
            QuotedString::Locale(v) => QuotedString::inner_lossy(v),
        }
    }

    fn inner_lossy<'b>(v: &'b Vec<InnerString<'a>>) -> (r: Cow<'b, str>)
        ensures
            r@ == inners_lossy(v@, v@.len() as int),
            segments_only(inner_views(v@)) ==> r@ == segs_lossy(inner_views(v@)),
        decreases v,
    {
        if v.len() == 1 {
            match &v[0] {
                InnerString::Segment(s) => {
                    proof {
                        let vv = inner_views(v@);
                        assert(vv.drop_last() =~= Seq::<IView>::empty());
                        assert(vv.last() == IView::Segment(s@));
                        assert(segs_lossy(vv.drop_last()) =~= Seq::<char>::empty());
                        assert(segs_lossy(vv) =~= lossy_text(s@));
                        assert(inners_lossy(v@, 0) =~= Seq::<char>::empty());
                        assert(v@[0] == InnerString::Segment(*s));
                        assert(inner_string_lossy(v@[0]) == lossy_text(s@));
                        assert(inners_lossy(v@, 1) == inners_lossy(v@, 0) + inner_string_lossy(v@[0]));
                        assert(inners_lossy(v@, 1) =~= lossy_text(s@));
                    }
                    return utf8_lossy(cow_bytes(s));
                },
                _ => {},
            }
        }
        let mut s = String::new();
        let mut i: usize = 0;
        while i < v.len()
            invariant
                i <= v@.len(),
                s@ == inners_lossy(v@, i as int),
                segments_only(inner_views(v@)) ==> s@ == segs_lossy(inner_views(v@).take(i as int)),
            decreases v@.len() - i,
        {
            proof {
                assert(inner_views(v@).take(i + 1).drop_last() =~= inner_views(v@).take(i as int));
            }
            let ghost prev = s@;
            proof {
                assert(inners_lossy(v@, i + 1) == inners_lossy(v@, i as int) + inner_string_lossy(v@[i as int]));
            }
            match &v[i] {
                InnerString::Segment(st) => {
                    let piece = utf8_lossy(cow_bytes(st));
                    push_cow_str(&mut s, &piece);
                    proof {
                        assert(v@[i as int] == InnerString::Segment(*st));
                        assert(s@ == prev + inner_string_lossy(v@[i as int]));
                    }
                },
                InnerString::Subshell(st, ss) => {
                    proof {
                        assert(inner_views(v@)[i as int] is Subshell);
                    }
                    let mut is = String::new();
                    let mut k: usize = 0;
                    while k < ss.len()
                        invariant
                            k <= ss@.len(),
                            i < v@.len(),
                            v@[i as int] is Subshell,
                            v@[i as int]->Subshell_1 == *ss,
                            is@ == results_lossy(ss@, k as int),
                        decreases ss@.len() - k,
                    {
                        proof {
                            assert(decreases_to!(*v => v@));
                            assert(decreases_to!(v@ => v@[i as int]));
                            assert(decreases_to!(v@[i as int] => *ss));
                            assert(decreases_to!(*ss => ss@));
                            assert(decreases_to!(ss@ => ss@[k as int]));
                            assert(decreases_to!(ss@[k as int] => ss@[k as int].unescaped));
                        }
                        let part = ss[k].unescaped.to_string_lossy();
                        push_cow_str(&mut is, &part);
                        proof {
                            assert(results_lossy(ss@, k + 1) == results_lossy(ss@, k as int) + quoted_lossy(
                                ss@[k as int].unescaped,
                            ));
                        }
                        k = k + 1;
                    }
                    let quoted = debug_str(is.as_str());
                    let ghost before = s@;
                    proof {
                        assert(ss@.len() == k);
                        assert(v@[i as int] == InnerString::Subshell(*st, *ss));
                    }
                    match st {
                        SubshellStyle::Backticks => {
                            s.append("`");
                            s.append(quoted.as_str());
                            s.append("`");
                        },
                        SubshellStyle::Legacy => {
                            s.append("$(");
                            s.append(quoted.as_str());
                            s.append(")");
                        },
                    }
                    proof {
                        let t = spec_debug_str(results_lossy(ss@, ss@.len() as int));
                        match st {
                            SubshellStyle::Backticks => {
                                assert(s@ =~= before + ("`"@ + t + "`"@));
                            },
                            SubshellStyle::Legacy => {
                                assert(s@ =~= before + ("$("@ + t + ")"@));
                            },
                        }
                        assert(s@ == prev + inner_string_lossy(v@[i as int]));
                    }
                },
            }
            i = i + 1;
        }
        proof {
            assert(inner_views(v@).take(v@.len() as int) =~= inner_views(v@));
        }
        Cow::Owned(s)
    }

    /// Quotes the string again, so that bash reads back the same contents.
    /// A singly quoted string is only closed if `close_end`.
    pub fn escape(self, close_end: bool) -> (r: Cow<'a, [u8]>)
        requires
            self is Separator || self is Backslash || self is Single,
        ensures
            self is Separator ==> r@ == self->Separator_0@,
            self is Backslash ==> r@ == backslash_escape(self->Backslash_0@),
            self is Single ==> r@ == single_quoted(self->Single_0@, close_end),
    {
        match self {
            QuotedString::Separator(s) => s,
            QuotedString::Backslash(s) => escape_string::as_backslash(s),
            QuotedString::Single(s) => {
                let v = vstd::slice::slice_to_vec(cow_bytes(&s));
                Cow::Owned(escape_string::as_single(v, close_end))
            },
            _ => {
                assert(false);
                Cow::Owned(Vec::new())
            },
        }
    }
}

impl<'a> View for UnescapeResult<'a> {
    type V = (QView, bool, Seq<u8>);

    open spec fn view(&self) -> (QView, bool, Seq<u8>) {
        (self.unescaped@, self.was_closed, self.rest@)
    }
}

impl<'a> UnescapeResult<'a> {
    pub fn to_string_lossy(&self) -> (r: (Cow<'_, str>, QuoteStyle, bool))
        ensures
            r.0@ == quoted_lossy(self.unescaped),
            no_subshells(self.unescaped@) ==> r.0@ == qview_lossy(self.unescaped@),
            r.1 == qview_style(self.unescaped@),
            r.2 == self.was_closed,
    {
        (self.unescaped.to_string_lossy(), self.unescaped.style(), self.was_closed)
    }
}

impl QuoteStyle {
    /// Stores the unescaped byte string into a QuotedString struct based on the variant of the current QuoteStyle
    pub fn wrap_raw<'a>(&self, b: Cow<'a, [u8]>) -> (r: QuotedString<'a>)
        ensures
            qview_style(r@) == *self,
            r.alloc_flags() == seq![b is Owned],
            *self == QuoteStyle::Separator ==> r@ == QView::Separator(b@),
            *self == QuoteStyle::Backslash ==> r@ == QView::Backslash(b@),
            *self == QuoteStyle::Single ==> r@ == QView::Single(b@),
            *self == QuoteStyle::Double ==> r@ == QView::Double(seq![IView::Segment(b@)]),
            *self == QuoteStyle::AnsiC ==> r@ == QView::AnsiC(b@),
            *self == QuoteStyle::Locale ==> r@ == QView::Locale(seq![IView::Segment(b@)]),
    {
        match self {
            QuoteStyle::Separator => QuotedString::as_separator(b),
            QuoteStyle::Backslash => QuotedString::as_backslash(b),
            QuoteStyle::Single => QuotedString::as_single(b),
            QuoteStyle::Double => QuotedString::as_double(b),
            QuoteStyle::AnsiC => QuotedString::as_ansi_c(b),
            QuoteStyle::Locale => QuotedString::as_locale(b),
        }
    }
}

impl<'a> Substrings<'a> {
    /// Consumes the rest of the iterator: the text of each substring that is
    /// not a separator, and whether the last of them was closed.
    pub fn as_words_lossy(&'a mut self) -> (r: (Vec<String>, bool))
        requires
            splits_ok(old(self)@),
        ensures
            (strings_view(r.0@), r.1) == spec_words(old(self)@, Seq::empty(), true),
            final(self)@.len() == 0,
    {
        let mut v: Vec<String> = Vec::new();
        let mut last_closed = true;
        proof {
            assert(strings_view(v@) =~= Seq::<Seq<char>>::empty());
        }
        while self.rest.len() > 0
            invariant
                splits_ok(self@),
                spec_words(old(self)@, Seq::empty(), true) == spec_words(self@, strings_view(v@), last_closed),
            decreases self@.len(),
        {
            let ghost s = self@;
            proof {
                lemma_step_consumes(s);
                lemma_unescape_no_subshells(s);
            }
            match self.next() {
                None => {
                    assert(false);
                },
                Some(e) => {
                    match &e.unescaped {
                        QuotedString::Separator(_) => {},
                        _ => {
                            let text = cow_str_into_string(e.unescaped.to_string_lossy());
                            let ghost old_v = v@;
                            v.push(text);
                            last_closed = e.was_closed;
                            proof {
                                assert(strings_view(v@) =~= strings_view(old_v).push(text@));
                            }
                        },
                    }
                },
            }
        }
        (v, last_closed)
    }
}

// ---------------------------------------------------------------------------
// Laws
// ---------------------------------------------------------------------------

proof fn lemma_escape_concat(a: Seq<u8>, b: Seq<u8>)
    ensures
        backslash_escape(a + b) == backslash_escape(a) + backslash_escape(b),
    decreases b.len(),
{
    if b.len() == 0 {
        assert(a + b =~= a);
        assert(backslash_escape(b) =~= Seq::<u8>::empty());
        assert(backslash_escape(a) + backslash_escape(b) =~= backslash_escape(a));
    } else {
        lemma_escape_concat(a, b.drop_last());
        assert((a + b).drop_last() =~= a + b.drop_last());
        assert((a + b).last() == b.last());
        assert(backslash_escape(a) + backslash_escape(b) =~= backslash_escape(a) + backslash_escape(b.drop_last())
            + backslash_piece(b.last()));
    }
}

proof fn lemma_backslash_scan(s: Seq<u8>, k: int, owned: bool)
    requires
        0 <= k <= s.len(),
    ensures
        ({
            let e = backslash_escape(s);
            let r = bs_run(e, backslash_escape(s.take(k)).len() as int, s.take(k), owned);
            &&& r.0 == s
            &&& r.1 == e.len()
            &&& r.2
        }),
    decreases s.len() - k,
{
    let e = backslash_escape(s);
    let pos = backslash_escape(s.take(k)).len() as int;
    if k == s.len() {
        assert(s.take(k) =~= s);
    } else {
        let a = s.take(k);
        let c = s[k];
        let b = s.subrange(k + 1, s.len() as int);
        assert(s =~= a + seq![c] + b);
        assert(s.take(k + 1) =~= a + seq![c]);
        lemma_escape_concat(a + seq![c], b);
        lemma_escape_concat(a, seq![c]);
        assert(seq![c].drop_last() =~= Seq::<u8>::empty());
        assert(backslash_escape(Seq::<u8>::empty()) =~= Seq::<u8>::empty());
        assert(backslash_escape(seq![c]) =~= backslash_piece(c));
        let piece = backslash_piece(c);
        assert(e =~= backslash_escape(a) + piece + backslash_escape(b));
        let suffix = e.subrange(pos, e.len() as int);
        assert(suffix =~= piece + backslash_escape(b));
        assert(suffix[0] == piece[0]);
        assert(s.take(k).push(c) =~= s.take(k + 1));
        if needs_backslash(c) {
            assert(e[pos] == 92u8);
            assert(e[pos + 1] == c);
            assert(spec_starting_string_type(suffix) == Some(QuoteStyle::Backslash));
            lemma_backslash_scan(s, k + 1, owned || pos > 0);
        } else {
            assert(e[pos] == c);
            assert(spec_starting_string_type(suffix) == Some(QuoteStyle::Backslash));
            lemma_backslash_scan(s, k + 1, owned);
        }
    }
}

/// Quoting a non-empty word with backslashes and reading the result back as a
/// bash word gives the word again, closed, with all of the quoted text consumed.
pub proof fn law_backslash_roundtrip(word: Seq<u8>)
    requires
        word.len() > 0,
    ensures
        ({
            let quoted = backslash_escape(word);
            let st = spec_unescape(quoted);
            &&& spec_starting_string_type(quoted) == Some(QuoteStyle::Backslash)
            &&& unescape_ok(quoted)
            &&& st.unescaped == QView::Backslash(word)
            &&& st.closed
            &&& st.consumed == quoted.len()
        }),
{
    let e = backslash_escape(word);
    lemma_escape_concat(seq![word[0]], word.subrange(1, word.len() as int));
    assert(seq![word[0]] + word.subrange(1, word.len() as int) =~= word);
    assert(seq![word[0]].drop_last() =~= Seq::<u8>::empty());
    assert(backslash_escape(Seq::<u8>::empty()) =~= Seq::<u8>::empty());
    assert(backslash_escape(seq![word[0]]) =~= backslash_piece(word[0]));
    assert(e[0] == backslash_piece(word[0])[0]);
    assert(e.subrange(0, e.len() as int) =~= e);
    assert(word.take(0) =~= Seq::<u8>::empty());
    assert(backslash_escape(word.take(0)) =~= Seq::<u8>::empty());
    lemma_backslash_scan(word, 0, false);
}

proof fn lemma_single_quote_from_plain(s: Seq<u8>, w: Seq<u8>, i: int)
    requires
        s == seq![39u8] + w + seq![39u8],
        1 <= i <= w.len() + 1,
        forall|j: int| 0 <= j < w.len() ==> w[j] != 39u8,
    ensures
        single_quote_from(s, i) == w.len() + 1,
    decreases w.len() + 1 - i,
{
    if i < w.len() + 1 {
        assert(s[i] == w[i - 1]);
        lemma_single_quote_from_plain(s, w, i + 1);
    }
}

/// Quoting a word that holds no single quote with single quotes, and reading
/// the result back, gives the word again, closed, with all of the quoted text
/// consumed.
pub proof fn law_single_roundtrip(word: Seq<u8>)
    requires
        forall|j: int| 0 <= j < word.len() ==> word[j] != 39u8,
    ensures
        ({
            let quoted = single_quoted(word, true);
            let st = spec_unescape(quoted);
            &&& spec_starting_string_type(quoted) == Some(QuoteStyle::Single)
            &&& unescape_ok(quoted)
            &&& st.unescaped == QView::Single(word)
            &&& st.closed
            &&& st.consumed == quoted.len()
        }),
{
    let q = single_quoted(word, true);
    lemma_single_quote_from_plain(q, word, 1);
    assert(q.subrange(1, word.len() as int + 1) =~= word);
}

} // verus!
