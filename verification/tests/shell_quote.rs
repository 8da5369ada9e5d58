use std::borrow::Cow;

use cml::shell_quote::{InnerString, QuoteStyle, QuotedString, SubshellStyle, Substrings, UnescapeResult};

type TestResult<'a> = (usize, QuotedString<'a>);

fn cow_same_alloc(a: &Cow<'_, [u8]>, b: &Cow<'_, [u8]>) -> bool {
    matches!((a, b), (Cow::Borrowed(_), Cow::Borrowed(_)) | (Cow::Owned(_), Cow::Owned(_)))
}

/// Whether the two strings are equal, and each of their buffers is borrowed or owned alike.
fn equal_allocated(a: &QuotedString<'_>, b: &QuotedString<'_>) -> bool {
    if a != b {
        return false;
    }
    match (a, b) {
        (QuotedString::Separator(x), QuotedString::Separator(y))
        | (QuotedString::Backslash(x), QuotedString::Backslash(y))
        | (QuotedString::Single(x), QuotedString::Single(y))
        | (QuotedString::AnsiC(x), QuotedString::AnsiC(y)) => cow_same_alloc(x, y),
        (QuotedString::Double(xs), QuotedString::Double(ys))
        | (QuotedString::Locale(xs), QuotedString::Locale(ys)) => xs.iter().zip(ys).all(|(x, y)| match (x, y) {
            (InnerString::Segment(x), InnerString::Segment(y)) => cow_same_alloc(x, y),
            (InnerString::Subshell(_, x), InnerString::Subshell(_, y)) => {
                x.iter().zip(y).all(|(x, y)| equal_allocated(&x.unescaped, &y.unescaped))
            }
            _ => false,
        }),
        _ => false,
    }
}

fn run_compact_cases<'a>(test_case: &'a [u8], expected: &'_ [TestResult<'a>], last_closed: bool) {
    let mut generated = Substrings::new(test_case);
    let mut rest_ind = 0;
    for (i, exp) in expected.iter().enumerate() {
        rest_ind += exp.0;
        let _exp_str = exp.1.to_string_lossy();
        let gen = generated
            .next()
            .expect(&format!("did not generate at least {} elements as expected", i + 1));
        let _gen_str = gen.unescaped.to_string_lossy();

        assert_eq!(exp.1, gen.unescaped, "word {} was not as expected", i);
        assert_eq!(&test_case[rest_ind..], gen.rest, "rest for word {} was not as expected", i);
        assert!(equal_allocated(&exp.1, &gen.unescaped), "word {} was incorrectly allocated", i);

        if i == expected.len() {
            assert_eq!(last_closed, gen.was_closed, "word {} was not correctly marked as (un)closed", i);
        }
    }
    assert_eq!(None, generated.next(), "incorrectly generated extra results");
}

fn double<'a>(s: Cow<'a, [u8]>) -> QuotedString<'a> {
    QuotedString::Double(vec![InnerString::Segment(s)])
}

/// Tests seperating strings with out needing to escape characters/modify the string
#[test]
fn bash_separate_plain_fields() {
    const TEST_CASE: &'static [u8] = ("bash \nparsing  is\t neat").as_bytes();

    let expected: &[TestResult] = &[
        (4, QuotedString::Backslash(Cow::Borrowed(&*b"bash"))),
        (2, QuotedString::Separator(Cow::Borrowed(&*b" \n"))),
        (7, QuotedString::Backslash(Cow::Borrowed(&*b"parsing"))),
        (2, QuotedString::Separator(Cow::Borrowed(&*b"  "))),
        (2, QuotedString::Backslash(Cow::Borrowed(&*b"is"))),
        (2, QuotedString::Separator(Cow::Borrowed(&*b"\t "))),
        (4, QuotedString::Backslash(Cow::Borrowed(&*b"neat"))),
    ];

    run_compact_cases(&TEST_CASE, expected, true);
}

/// Tests escaping characters with backslash escapes
#[test]
fn bash_quote_backslash() {
    const TEST_CASE: &'_ [u8] = ("bash par\\ sing is\\$ \\$pretty \\$n\\$eat see\\").as_bytes();

    let expected: &[TestResult] = &[
        (4, QuotedString::Backslash(Cow::Borrowed(&*b"bash"))),
        (1, QuotedString::Separator(Cow::Borrowed(&*b" "))),
        (9, QuotedString::Backslash(Cow::Owned(b"par sing".to_vec()))),
        (1, QuotedString::Separator(Cow::Borrowed(&*b" "))),
        (4, QuotedString::Backslash(Cow::Owned(b"is$".to_vec()))),
        (1, QuotedString::Separator(Cow::Borrowed(&*b" "))),
        (8, QuotedString::Backslash(Cow::Borrowed(&*b"$pretty"))),
        (1, QuotedString::Separator(Cow::Borrowed(&*b" "))),
        (8, QuotedString::Backslash(Cow::Owned(b"$n$eat".to_vec()))),
        (1, QuotedString::Separator(Cow::Borrowed(&*b" "))),
        (4, QuotedString::Backslash(Cow::Borrowed(&*b"see"))),
    ];

    run_compact_cases(&TEST_CASE, &expected, false);
}

#[test]
fn bash_quote_single() {
    const TEST_CASE: &'_ [u8] = ("'''asd'  '\\n' '$s''' '''").as_bytes();

    let expected: &[TestResult] = &[
        (2, QuotedString::Single(Cow::Borrowed(&*b""))),
        (5, QuotedString::Single(Cow::Borrowed(&*b"asd"))),
        (2, QuotedString::Separator(Cow::Borrowed(&*b"  "))),
        (4, QuotedString::Single(Cow::Borrowed(&*b"\\n"))),
        (1, QuotedString::Separator(Cow::Borrowed(&*b" "))),
        (4, QuotedString::Single(Cow::Borrowed(&*b"$s"))),
        (2, QuotedString::Single(Cow::Borrowed(&*b""))),
        (1, QuotedString::Separator(Cow::Borrowed(&*b" "))),
        (2, QuotedString::Single(Cow::Borrowed(&*b""))),
        (1, QuotedString::Single(Cow::Borrowed(&*b""))),
    ];

    run_compact_cases(&TEST_CASE, expected, false);
}

#[test]
fn bash_quote_double() {
    const TEST_CASE: &'_ [u8] = (r#"start"mid"end "surround" "escap\e\"" "unfinish"#).as_bytes();

    let expected: &[TestResult] = &[
        (5, QuotedString::Backslash(Cow::Borrowed(&*b"start"))),
        (5, double(Cow::Borrowed(&*b"mid"))),
        (3, QuotedString::Backslash(Cow::Borrowed(&*b"end"))),
        (1, QuotedString::Separator(Cow::Borrowed(&*b" "))),
        (10, double(Cow::Borrowed(&*b"surround"))),
        (1, QuotedString::Separator(Cow::Borrowed(&*b" "))),
        (11, double(Cow::Owned(b"escape\"".to_vec()))),
        (1, QuotedString::Separator(Cow::Borrowed(&*b" "))),
        (9, double(Cow::Borrowed(&*b"unfinish"))),
    ];

    run_compact_cases(&TEST_CASE, expected, false);
}

#[test]
fn bash_doubly_quoted_substrings() {
    // TODO
}

#[test]
fn lossy_text_of_subshells() {
    let inner = |q: QuotedString<'static>| UnescapeResult { unescaped: q, was_closed: true, rest: b"" };
    let dq = QuotedString::Double(vec![
        InnerString::Segment(Cow::Borrowed(b"a ")),
        InnerString::Subshell(SubshellStyle::Backticks, vec![inner(QuotedString::Backslash(Cow::Borrowed(b"ls")))]),
        InnerString::Segment(Cow::Owned(vec![b' ', 0xff])),
        InnerString::Subshell(SubshellStyle::Legacy, vec![
            inner(QuotedString::Single(Cow::Borrowed(b"x\""))),
            inner(QuotedString::Separator(Cow::Borrowed(b" "))),
        ]),
    ]);
    assert_eq!(dq.to_string_lossy(), "a `\"ls\"` \u{FFFD}$(\"x\\\" \")");
    let one = QuotedString::Locale(vec![InnerString::Segment(Cow::Borrowed(b"plain"))]);
    assert_eq!(one.to_string_lossy(), "plain");
}

#[test]
fn parse_plain_consecutive_strings_all_types() {
    const TEST_CASE: &'static [u8] = (r#"he's'$'s'll"world"''$"asd"o"#).as_bytes();

    // the first number of each entry is the number of bytes the word takes in the input
    let expected: &[TestResult] = &[
        (2, QuotedString::Backslash(Cow::Borrowed(&*b"he"))),
        (3, QuotedString::Single(Cow::Borrowed(&*b"s"))),
        (4, QuotedString::AnsiC(Cow::Borrowed(&*b"s"))),
        (2, QuotedString::Backslash(Cow::Borrowed(&*b"ll"))),
        (7, double(Cow::Borrowed(&*b"world"))),
        (2, QuotedString::Single(Cow::Borrowed(&*b""))),
        (6, QuotedString::Locale(vec![InnerString::Segment(Cow::Borrowed(&*b"asd"))])),
        (1, QuotedString::Backslash(Cow::Borrowed(&*b"o"))),
    ];

    run_compact_cases(&TEST_CASE, expected, true);
}

#[test]
fn ansi_c_escapes() {
    let mut it = Substrings::new(br#"$'a\tb\'c\qd' x"#);
    let w = it.next().unwrap();
    assert_eq!(w.unescaped, QuotedString::AnsiC(Cow::Owned(b"a\tb'c\\qd".to_vec())));
    assert!(w.was_closed);
    assert_eq!(w.rest, b" x");
    let mut open = Substrings::new(b"$'ab");
    let w = open.next().unwrap();
    assert_eq!(w.unescaped, QuotedString::AnsiC(Cow::Borrowed(&*b"ab")));
    assert!(!w.was_closed);
    assert_eq!(w.unescaped.to_string_lossy(), "ab");
}

#[test]
fn unquoted_run_borrows_unless_escaped_inside() {
    let mut it = Substrings::new(br"\ ab cd");
    let w = it.next().unwrap();
    assert!(equal_allocated(&w.unescaped, &QuotedString::Backslash(Cow::Borrowed(&*b" ab"))));
    assert_eq!(w.rest, b" cd");
    let mut it = Substrings::new(br"a\ b");
    let w = it.next().unwrap();
    assert!(equal_allocated(&w.unescaped, &QuotedString::Backslash(Cow::Owned(b"a b".to_vec()))));
    let mut it = Substrings::new(br"ab\");
    let w = it.next().unwrap();
    assert!(equal_allocated(&w.unescaped, &QuotedString::Backslash(Cow::Borrowed(&*b"ab"))));
    assert!(!w.was_closed);
}

#[test]
fn double_segment_borrows_unless_escaped_inside() {
    let mut it = Substrings::new(br#""\$ab""#);
    let w = it.next().unwrap();
    assert!(equal_allocated(&w.unescaped, &double(Cow::Borrowed(&*b"$ab"))));
    let mut it = Substrings::new(br#""a\$b""#);
    let w = it.next().unwrap();
    assert!(equal_allocated(&w.unescaped, &double(Cow::Owned(b"a$b".to_vec()))));
}

#[test]
fn double_quote_trailing_backslash_is_left_over() {
    let src = br#""ab\"#;
    let mut it = Substrings::new(src);
    let w = it.next().unwrap();
    assert!(equal_allocated(&w.unescaped, &double(Cow::Borrowed(&*b"ab"))));
    assert!(!w.was_closed);
    assert_eq!(w.rest, br"\");
}

#[test]
fn substrings_consume_the_whole_input_in_order() {
    let src: &[u8] = br#"echo "a b"'c'  $'d\n'e\ f"#;
    let mut it = Substrings::new(src);
    let mut rebuilt: Vec<u8> = Vec::new();
    let mut rest = src;
    let mut count = 0;
    while let Some(w) = it.next() {
        assert!(w.rest.len() < rest.len());
        rebuilt.extend_from_slice(&rest[..rest.len() - w.rest.len()]);
        rest = w.rest;
        count += 1;
    }
    assert!(rest.is_empty());
    assert_eq!(rebuilt, src.to_vec());
    assert!(count <= src.len());
    assert_eq!(count, 7);
}

#[test]
fn bash_unescape_keeps_the_starting_style() {
    assert!(QuoteStyle::bash_unescape(b"").is_none());
    for s in [&b"ab cd"[..], b"  x", b"'q'r", b"\"d\"e"] {
        let r = QuoteStyle::bash_unescape(s).unwrap();
        assert_eq!(r.unescaped.style(), QuoteStyle::starting_string_type(s).unwrap());
        assert!(r.rest.len() < s.len());
    }
}
