//! The tokenizer: a single forward pass over a character sequence that
//! classifies each position, extracts whitespace runs, names and quoted
//! values, and appends the produced tokens in encounter order.
//!
//! The scan is specified by [`spec_tokenize`], a recursive function over a
//! mathematical character sequence; the executable scanner is proved to
//! return exactly what [`spec_tokenize`] says, including which failure, if
//! any, halted it.

use vstd::prelude::*;
use vstd::string::StrSliceExecFns;
use crate::errors::ExtractError;
use crate::token::{Lexeme, WhitespaceKind, XmlToken, lexeme_text, lexemes_text, push_char};

verus! {

// ---------------------------------------------------------------------------
// Character classes
// ---------------------------------------------------------------------------

/// The five XML whitespace code points the scanner recognizes.
pub open spec fn is_whitespace_char(c: char) -> bool {
    c == ' ' || c == '\t' || c == '\n' || c == '\r' || c == '\u{000C}'
}

/// A character that may open an element or attribute name: an ASCII letter
/// or an underscore.
pub open spec fn is_name_start_char(c: char) -> bool {
    ('a' <= c && c <= 'z') || ('A' <= c && c <= 'Z') || c == '_'
}

/// A character that may continue a name: an ASCII letter, an ASCII digit,
/// an underscore or a colon.
pub open spec fn is_name_char(c: char) -> bool {
    is_name_start_char(c) || ('0' <= c && c <= '9') || c == ':'
}

/// A character the XML data model accepts at all.
pub open spec fn spec_valid_in_xml(c: char) -> bool {
    ('\u{0001}' <= c && c <= '\u{D7FF}') || ('\u{E000}' <= c && c <= '\u{FFFD}')
}

/// A character the XML data model counts as a digit, over the Unicode
/// decimal-digit ranges up to and including Tibetan.
pub open spec fn spec_digit_in_xml(c: char) -> bool {
    ||| ('\u{0030}' <= c && c <= '\u{0039}')
    ||| ('\u{0660}' <= c && c <= '\u{0669}')
    ||| ('\u{06F0}' <= c && c <= '\u{06F9}')
    ||| ('\u{0966}' <= c && c <= '\u{096F}')
    ||| ('\u{09E6}' <= c && c <= '\u{09EF}')
    ||| ('\u{0A66}' <= c && c <= '\u{0A6F}')
    ||| ('\u{0AE6}' <= c && c <= '\u{0AEF}')
    ||| ('\u{0B66}' <= c && c <= '\u{0B6F}')
    ||| ('\u{0BE7}' <= c && c <= '\u{0BEF}')
    ||| ('\u{0C66}' <= c && c <= '\u{0C6F}')
    ||| ('\u{0CE6}' <= c && c <= '\u{0CEF}')
    ||| ('\u{0D66}' <= c && c <= '\u{0D6F}')
    ||| ('\u{0E50}' <= c && c <= '\u{0E59}')
    ||| ('\u{0ED0}' <= c && c <= '\u{0ED9}')
    ||| ('\u{0F20}' <= c && c <= '\u{0F29}')
}

/// Tests whether the character lies in the ranges XML accepts.
pub fn is_valid_in_xml(c: char) -> (r: bool)
    ensures
        r == spec_valid_in_xml(c),
{
    ('\u{0001}' <= c && c <= '\u{D7FF}') || ('\u{E000}' <= c && c <= '\u{FFFD}')
}

/// Tests whether the character is a digit in one of the Unicode
/// decimal-digit ranges XML names as digits.
pub fn is_digit_in_xml(c: char) -> (r: bool)
    ensures
        r == spec_digit_in_xml(c),
{
    ('\u{0030}' <= c && c <= '\u{0039}') || ('\u{0660}' <= c && c <= '\u{0669}')
        || ('\u{06F0}' <= c && c <= '\u{06F9}') || ('\u{0966}' <= c && c <= '\u{096F}')
        || ('\u{09E6}' <= c && c <= '\u{09EF}') || ('\u{0A66}' <= c && c <= '\u{0A6F}')
        || ('\u{0AE6}' <= c && c <= '\u{0AEF}') || ('\u{0B66}' <= c && c <= '\u{0B6F}')
        || ('\u{0BE7}' <= c && c <= '\u{0BEF}') || ('\u{0C66}' <= c && c <= '\u{0C6F}')
        || ('\u{0CE6}' <= c && c <= '\u{0CEF}') || ('\u{0D66}' <= c && c <= '\u{0D6F}')
        || ('\u{0E50}' <= c && c <= '\u{0E59}') || ('\u{0ED0}' <= c && c <= '\u{0ED9}')
        || ('\u{0F20}' <= c && c <= '\u{0F29}')
}

/// Tests whether the character may open a name.
pub fn is_valid_first_char_in_element_name(c: char) -> (r: bool)
    ensures
        r == is_name_start_char(c),
{
    ('a' <= c && c <= 'z') || ('A' <= c && c <= 'Z') || c == '_'
}

/// Tests whether the character may continue a name.
pub fn is_valid_char_in_element_name(c: char) -> (r: bool)
    ensures
        r == is_name_char(c),
{
    ('a' <= c && c <= 'z') || ('A' <= c && c <= 'Z') || ('0' <= c && c <= '9') || c == ':'
        || c == '_'
}

/// Tests for the `<` marker.
pub fn is_begin(c: char) -> (r: bool)
    ensures
        r == (c == '<'),
{
    c == '<'
}

/// Tests for the `>` marker.
pub fn is_end(c: char) -> (r: bool)
    ensures
        r == (c == '>'),
{
    c == '>'
}

/// Tests for the `/` marker.
pub fn is_close(c: char) -> (r: bool)
    ensures
        r == (c == '/'),
{
    c == '/'
}

/// Tests for the `"` marker.
pub fn is_quote(c: char) -> (r: bool)
    ensures
        r == (c == '"'),
{
    c == '"'
}

/// Tests for one of the five whitespace code points.
pub fn is_whitespace_in_xml(c: char) -> (r: bool)
    ensures
        r == is_whitespace_char(c),
{
    c == ' ' || c == '\t' || c == '\n' || c == '\r' || c == '\u{000C}'
}

/// Classifies a character and a run count as a whitespace kind; exactly the
/// five XML whitespace code points yield one.
pub fn new_whitespace_kind(value: &char, count: usize) -> (r: Option<WhitespaceKind>)
    ensures
        r == WhitespaceKind::spec_from_char(*value, count),
{
    match *value {
        '\u{0020}' => Some(WhitespaceKind::Space(count)),
        '\u{0009}' => Some(WhitespaceKind::Tab(count)),
        '\u{000A}' => Some(WhitespaceKind::LF(count)),
        '\u{000D}' => Some(WhitespaceKind::CR(count)),
        '\u{000C}' => Some(WhitespaceKind::FF(count)),
        _ => None,
    }
}

// ---------------------------------------------------------------------------
// Maximal prefixes
// ---------------------------------------------------------------------------

/// The length of the longest prefix of `s` whose characters all satisfy `p`.
pub open spec fn prefix_len(s: Seq<char>, p: spec_fn(char) -> bool) -> nat
    decreases s.len(),
{
    if s.len() > 0 && p(s[0]) {
        (1 + prefix_len(s.drop_first(), p)) as nat
    } else {
        0
    }
}

/// The predicate "equals `c`", for whitespace runs.
pub open spec fn char_eq(c: char) -> spec_fn(char) -> bool {
    |x: char| x == c
}

/// The predicate for characters that continue a name.
pub open spec fn name_char_pred() -> spec_fn(char) -> bool {
    |x: char| is_name_char(x)
}

/// The predicate for characters that may stand inside a quoted value.
pub open spec fn not_quote_pred() -> spec_fn(char) -> bool {
    |x: char| x != '"'
}

/// The maximal prefix satisfying `p` is bounded by the sequence, satisfies
/// `p` throughout, and ends either at the end of the sequence or at the
/// first character that fails `p`.
pub proof fn lemma_prefix_len(s: Seq<char>, p: spec_fn(char) -> bool)
    ensures
        prefix_len(s, p) <= s.len(),
        forall|i: int| 0 <= i < prefix_len(s, p) ==> p(s[i]),
        prefix_len(s, p) < s.len() ==> !p(s[prefix_len(s, p) as int]),
    decreases s.len(),
{
    if s.len() > 0 && p(s[0]) {
        lemma_prefix_len(s.drop_first(), p);
        let n = prefix_len(s, p);
        assert forall|i: int| 0 <= i < n implies p(s[i]) by {
            if i > 0 {
                assert(p(s.drop_first()[i - 1]));
            }
        }
        if n < s.len() {
            assert(s[n as int] == s.drop_first()[n - 1]);
        }
    }
}

/// A count is the maximal prefix length exactly when the characters before
/// it satisfy `p` and the character at it, if any, does not.
pub proof fn lemma_prefix_len_is(s: Seq<char>, p: spec_fn(char) -> bool, n: int)
    requires
        0 <= n <= s.len(),
        forall|i: int| 0 <= i < n ==> p(s[i]),
        n < s.len() ==> !p(s[n]),
    ensures
        prefix_len(s, p) == n,
    decreases s.len(),
{
    if n > 0 {
        assert(p(s[0]));
        assert forall|i: int| 0 <= i < n - 1 implies p(s.drop_first()[i]) by {
            assert(s.drop_first()[i] == s[i + 1]);
        }
        if n - 1 < s.drop_first().len() {
            assert(s.drop_first()[n - 1] == s[n]);
        }
        lemma_prefix_len_is(s.drop_first(), p, n - 1);
    }
}

// ---------------------------------------------------------------------------
// The scan, as a specification
// ---------------------------------------------------------------------------

/// What a scan produces: the lexemes emitted in encounter order, and the
/// failure, if any, that halted it.
pub ghost struct ScanResult {
    /// The lexemes emitted before the scan finished or halted.
    pub tokens: Seq<Lexeme>,
    /// `None` when the whole input was consumed; otherwise the failure.
    pub error: Option<ExtractError>,
}

/// The scan of a character sequence, one classification step per recursion:
/// a maximal same-character whitespace run, a structural symbol, a quoted
/// value between two quote markers, or a name; a character that fits no
/// class halts the scan with the failure and the tokens produced so far.
pub open spec fn spec_tokenize(s: Seq<char>) -> ScanResult
    decreases s.len(),
    via spec_tokenize_decreases
{
    if s.len() == 0 {
        ScanResult { tokens: Seq::empty(), error: None }
    } else {
        let c = s[0];
        if is_whitespace_char(c) {
            let n = prefix_len(s, char_eq(c)) as int;
            let rest = spec_tokenize(s.skip(n));
            ScanResult {
                tokens: seq![Lexeme::Whitespace { wch: c, count: n as nat }] + rest.tokens,
                error: rest.error,
            }
        } else if c == '<' {
            let rest = spec_tokenize(s.drop_first());
            ScanResult { tokens: seq![Lexeme::Begin] + rest.tokens, error: rest.error }
        } else if c == '>' {
            let rest = spec_tokenize(s.drop_first());
            ScanResult { tokens: seq![Lexeme::End] + rest.tokens, error: rest.error }
        } else if c == '=' {
            let rest = spec_tokenize(s.drop_first());
            ScanResult { tokens: seq![Lexeme::Assign] + rest.tokens, error: rest.error }
        } else if c == '/' {
            let rest = spec_tokenize(s.drop_first());
            ScanResult { tokens: seq![Lexeme::Close] + rest.tokens, error: rest.error }
        } else if c == '"' {
            let vlen = prefix_len(s.drop_first(), not_quote_pred()) as int;
            if 1 + vlen < s.len() {
                let rest = spec_tokenize(s.skip(2 + vlen));
                ScanResult {
                    tokens: seq![
                        Lexeme::Quote,
                        Lexeme::Value { vtext: s.subrange(1, 1 + vlen) },
                        Lexeme::Quote,
                    ] + rest.tokens,
                    error: rest.error,
                }
            } else {
                ScanResult {
                    tokens: seq![Lexeme::Quote],
                    error: Some(ExtractError::UnterminatedValue),
                }
            }
        } else if is_name_start_char(c) {
            let n = 1 + prefix_len(s.drop_first(), name_char_pred()) as int;
            let rest = spec_tokenize(s.skip(n));
            ScanResult {
                tokens: seq![Lexeme::Name { ntext: s.subrange(0, n) }] + rest.tokens,
                error: rest.error,
            }
        } else {
            ScanResult { tokens: Seq::empty(), error: Some(ExtractError::InvalidNameStart(c)) }
        }
    }
}

#[via_fn]
proof fn spec_tokenize_decreases(s: Seq<char>) {
    if s.len() > 0 {
        let c = s[0];
        if is_whitespace_char(c) {
            lemma_prefix_len(s, char_eq(c));
            assert(char_eq(c)(s[0]));
            assert(prefix_len(s, char_eq(c)) >= 1);
        } else if c == '<' || c == '>' || c == '=' || c == '/' {
        } else if c == '"' {
            lemma_prefix_len(s.drop_first(), not_quote_pred());
        } else if is_name_start_char(c) {
            lemma_prefix_len(s.drop_first(), name_char_pred());
        }
    }
}

// ---------------------------------------------------------------------------
// The scanner
// ---------------------------------------------------------------------------

/// The lexemes a token vector stands for, token by token.
pub open spec fn lexemes_of(ts: Seq<XmlToken>) -> Seq<Lexeme> {
    ts.map_values(|t: XmlToken| t@)
}

/// Appending one token appends its lexeme.
pub proof fn lemma_lexemes_of_push(ts: Seq<XmlToken>, t: XmlToken)
    ensures
        lexemes_of(ts.push(t)) == lexemes_of(ts).push(t@),
{
    assert(lexemes_of(ts.push(t)) =~= lexemes_of(ts).push(t@));
}

/// Consumes the maximal run of the whitespace character at `pos` and appends
/// one whitespace token sized to the run.
fn parse_whitespace(input: &str, pos: usize, tokens: &mut Vec<XmlToken>) -> (next: usize)
    requires
        pos < input@.len(),
        is_whitespace_char(input@[pos as int]),
    ensures
        ({
            let c = input@[pos as int];
            let n = prefix_len(input@.skip(pos as int), char_eq(c));
            &&& next == pos + n
            &&& pos < next <= input@.len()
            &&& lexemes_of(final(tokens)@) == lexemes_of(old(tokens)@).push(
                Lexeme::Whitespace { wch: c, count: n },
            )
        }),
{
    let len = input.unicode_len();
    let c = input.get_char(pos);
    let mut j: usize = pos + 1;
    loop
        invariant
            len == input@.len(),
            pos < j <= len,
            c == input@[pos as int],
            forall|k: int| pos <= k < j ==> input@[k] == c,
        ensures
            pos < j <= len,
            forall|k: int| pos <= k < j ==> input@[k] == c,
            j < len ==> input@[j as int] != c,
        decreases len - j,
    {
        if j >= len {
            break;
        }
        let d = input.get_char(j);
        if d != c {
            break;
        }
        j = j + 1;
    }
    proof {
        let tail = input@.skip(pos as int);
        assert forall|i: int| 0 <= i < j - pos implies char_eq(c)(tail[i]) by {
            assert(tail[i] == input@[pos + i]);
        }
        if j - pos < tail.len() {
            assert(tail[j - pos] == input@[j as int]);
        }
        lemma_prefix_len_is(tail, char_eq(c), j - pos);
    }
    let count: usize = j - pos;
    let k = match WhitespaceKind::from_char(c, count) {
        Some(k) => k,
        None => {
            proof {
                assert(false);
            }
            WhitespaceKind::Space(count)
        },
    };
    tokens.push(XmlToken::Whitespace(k));
    proof {
        lemma_lexemes_of_push(old(tokens)@, XmlToken::Whitespace(k));
    }
    j
}

/// Consumes the name opened by the valid first character at `pos`, through
/// the last following name character, and appends one name token carrying
/// exactly the consumed text.
fn parse_name(input: &str, pos: usize, tokens: &mut Vec<XmlToken>) -> (next: usize)
    requires
        pos < input@.len(),
        is_name_start_char(input@[pos as int]),
    ensures
        ({
            let n = 1 + prefix_len(input@.skip(pos + 1), name_char_pred());
            &&& next == pos + n
            &&& pos < next <= input@.len()
            &&& lexemes_of(final(tokens)@) == lexemes_of(old(tokens)@).push(
                Lexeme::Name { ntext: input@.subrange(pos as int, pos + n) },
            )
        }),
{
    let len = input.unicode_len();
    let c0 = input.get_char(pos);
    let mut text = String::new();
    push_char(&mut text, c0);
    proof {
        assert(text@ =~= input@.subrange(pos as int, pos + 1));
    }
    let mut j: usize = pos + 1;
    loop
        invariant
            len == input@.len(),
            pos < j <= len,
            text@ == input@.subrange(pos as int, j as int),
            forall|k: int| pos + 1 <= k < j ==> is_name_char(input@[k]),
        ensures
            pos < j <= len,
            text@ == input@.subrange(pos as int, j as int),
            forall|k: int| pos + 1 <= k < j ==> is_name_char(input@[k]),
            j < len ==> !is_name_char(input@[j as int]),
        decreases len - j,
    {
        if j >= len {
            break;
        }
        let d = input.get_char(j);
        if !is_valid_char_in_element_name(d) {
            break;
        }
        push_char(&mut text, d);
        j = j + 1;
        proof {
            assert(text@ =~= input@.subrange(pos as int, j as int));
        }
    }
    proof {
        let tail = input@.skip(pos + 1);
        assert forall|i: int| 0 <= i < j - pos - 1 implies name_char_pred()(tail[i]) by {
            assert(tail[i] == input@[pos + 1 + i]);
        }
        if j - pos - 1 < tail.len() {
            assert(tail[j - pos - 1] == input@[j as int]);
        }
        lemma_prefix_len_is(tail, name_char_pred(), j - pos - 1);
    }
    let t = XmlToken::new_name(text);
    tokens.push(t);
    proof {
        lemma_lexemes_of_push(old(tokens)@, t);
    }
    j
}

/// Extracts the quoted value that starts at `pos`, the position right after
/// an opening quote marker. When a closing quote exists, appends the value
/// token and the closing quote token and returns the position after the
/// closing quote; when the input ends first, appends nothing and returns
/// nothing, for the caller to surface the unterminated-value failure.
fn parse_value(input: &str, pos: usize, tokens: &mut Vec<XmlToken>) -> (r: Option<usize>)
    requires
        pos <= input@.len(),
    ensures
        ({
            let vlen = prefix_len(input@.skip(pos as int), not_quote_pred());
            if pos + vlen < input@.len() {
                &&& r == Some((pos + vlen + 1) as usize)
                &&& lexemes_of(final(tokens)@) == lexemes_of(old(tokens)@) + seq![
                    Lexeme::Value { vtext: input@.subrange(pos as int, pos + vlen) },
                    Lexeme::Quote,
                ]
            } else {
                &&& r is None
                &&& final(tokens)@ == old(tokens)@
            }
        }),
{
    let len = input.unicode_len();
    let mut text = String::new();
    proof {
        assert(text@ =~= input@.subrange(pos as int, pos as int));
    }
    let mut j: usize = pos;
    loop
        invariant
            len == input@.len(),
            pos <= j <= len,
            text@ == input@.subrange(pos as int, j as int),
            forall|k: int| pos <= k < j ==> input@[k] != '"',
        ensures
            pos <= j <= len,
            text@ == input@.subrange(pos as int, j as int),
            forall|k: int| pos <= k < j ==> input@[k] != '"',
            j < len ==> input@[j as int] == '"',
        decreases len - j,
    {
        if j >= len {
            break;
        }
        let d = input.get_char(j);
        if is_quote(d) {
            break;
        }
        push_char(&mut text, d);
        j = j + 1;
        proof {
            assert(text@ =~= input@.subrange(pos as int, j as int));
        }
    }
    proof {
        let tail = input@.skip(pos as int);
        assert forall|i: int| 0 <= i < j - pos implies not_quote_pred()(tail[i]) by {
            assert(tail[i] == input@[pos + i]);
        }
        if j - pos < tail.len() {
            assert(tail[j - pos] == input@[j as int]);
        }
        lemma_prefix_len_is(tail, not_quote_pred(), j - pos);
    }
    if j < len {
        let v = XmlToken::new_value(text);
        tokens.push(v);
        proof {
            lemma_lexemes_of_push(old(tokens)@, v);
        }
        let q = XmlToken::new_quote();
        tokens.push(q);
        proof {
            lemma_lexemes_of_push(old(tokens)@.push(v), q);
            assert(lexemes_of(old(tokens)@).push(v@).push(q@) =~= lexemes_of(old(tokens)@)
                + seq![v@, q@]);
        }
        Some(j + 1)
    } else {
        None
    }
}

/// Scans the whole input in one forward pass: classifies the character at
/// the cursor, extracts one token or token group, and repeats until the
/// input is exhausted or a failure halts the scan. Returns the tokens
/// produced so far together with the failure, if any — exactly the scan
/// that [`spec_tokenize`] describes.
pub fn tokenize_str(input: &str) -> (r: (Vec<XmlToken>, Option<ExtractError>))
    ensures
        lexemes_of(r.0@) == spec_tokenize(input@).tokens,
        r.1 == spec_tokenize(input@).error,
{
    let len = input.unicode_len();
    let mut tokens: Vec<XmlToken> = Vec::new();
    let mut err: Option<ExtractError> = None;
    let mut pos: usize = 0;
    proof {
        assert(lexemes_of(tokens@) =~= Seq::<Lexeme>::empty());
        assert(input@.skip(0) =~= input@);
        assert(lexemes_of(tokens@) + spec_tokenize(input@).tokens =~= spec_tokenize(
            input@,
        ).tokens);
    }
    while pos < len && err.is_none()
        invariant
            len == input@.len(),
            pos <= len,
            err is None ==> spec_tokenize(input@).tokens == lexemes_of(tokens@)
                + spec_tokenize(input@.skip(pos as int)).tokens,
            err is None ==> spec_tokenize(input@).error == spec_tokenize(
                input@.skip(pos as int),
            ).error,
            err matches Some(e) ==> spec_tokenize(input@).tokens == lexemes_of(tokens@)
                && spec_tokenize(input@).error == Some(e),
        decreases len - pos + (if err is None { 1int } else { 0int }),
    {
        let ghost prev = tokens@;
        let ghost tail = input@.skip(pos as int);
        proof {
            assert(tail[0] == input@[pos as int]);
        }
        let c = input.get_char(pos);
        if is_whitespace_in_xml(c) {
            let next = parse_whitespace(input, pos, &mut tokens);
            proof {
                assert(tail.skip((next - pos) as int) =~= input@.skip(next as int));
                assert(prefix_len(tail, char_eq(c)) == next - pos);
                assert(lexemes_of(prev).push(
                    Lexeme::Whitespace { wch: c, count: (next - pos) as nat },
                ) + spec_tokenize(input@.skip(next as int)).tokens =~= lexemes_of(prev) + (seq![
                    Lexeme::Whitespace { wch: c, count: (next - pos) as nat },
                ] + spec_tokenize(input@.skip(next as int)).tokens));
            }
            pos = next;
        } else if is_begin(c) {
            tokens.push(XmlToken::new_begin());
            proof {
                lemma_lexemes_of_push(prev, XmlToken::Begin);
                assert(tail.drop_first() =~= input@.skip(pos + 1));
                assert(lexemes_of(prev).push(Lexeme::Begin) + spec_tokenize(
                    input@.skip(pos + 1),
                ).tokens =~= lexemes_of(prev) + (seq![Lexeme::Begin] + spec_tokenize(
                    input@.skip(pos + 1),
                ).tokens));
            }
            pos = pos + 1;
        } else if is_end(c) {
            tokens.push(XmlToken::new_end());
            proof {
                lemma_lexemes_of_push(prev, XmlToken::End);
                assert(tail.drop_first() =~= input@.skip(pos + 1));
                assert(lexemes_of(prev).push(Lexeme::End) + spec_tokenize(
                    input@.skip(pos + 1),
                ).tokens =~= lexemes_of(prev) + (seq![Lexeme::End] + spec_tokenize(
                    input@.skip(pos + 1),
                ).tokens));
            }
            pos = pos + 1;
        } else if c == '=' {
            tokens.push(XmlToken::new_assign());
            proof {
                lemma_lexemes_of_push(prev, XmlToken::Assign);
                assert(tail.drop_first() =~= input@.skip(pos + 1));
                assert(lexemes_of(prev).push(Lexeme::Assign) + spec_tokenize(
                    input@.skip(pos + 1),
                ).tokens =~= lexemes_of(prev) + (seq![Lexeme::Assign] + spec_tokenize(
                    input@.skip(pos + 1),
                ).tokens));
            }
            pos = pos + 1;
        } else if is_close(c) {
            tokens.push(XmlToken::new_close());
            proof {
                lemma_lexemes_of_push(prev, XmlToken::Close);
                assert(tail.drop_first() =~= input@.skip(pos + 1));
                assert(lexemes_of(prev).push(Lexeme::Close) + spec_tokenize(
                    input@.skip(pos + 1),
                ).tokens =~= lexemes_of(prev) + (seq![Lexeme::Close] + spec_tokenize(
                    input@.skip(pos + 1),
                ).tokens));
            }
            pos = pos + 1;
        } else if is_quote(c) {
            tokens.push(XmlToken::new_quote());
            proof {
                lemma_lexemes_of_push(prev, XmlToken::Quote);
                assert(tail.drop_first() =~= input@.skip(pos + 1));
            }
            let extracted = parse_value(input, pos + 1, &mut tokens);
            proof {
                assert(prefix_len(input@.skip(pos + 1), not_quote_pred()) == prefix_len(
                    tail.drop_first(),
                    not_quote_pred(),
                ));
            }
            let ghost vlen = prefix_len(tail.drop_first(), not_quote_pred());
            match extracted {
                Some(next) => {
                    proof {
                        assert(tail.subrange(1, 1 + vlen as int) =~= input@.subrange(
                            pos + 1,
                            pos + 1 + vlen as int,
                        ));
                        assert(tail.skip(2 + vlen as int) =~= input@.skip(next as int));
                        assert(lexemes_of(prev).push(Lexeme::Quote) + seq![
                            Lexeme::Value { vtext: tail.subrange(1, 1 + vlen as int) },
                            Lexeme::Quote,
                        ] + spec_tokenize(input@.skip(next as int)).tokens =~= lexemes_of(prev)
                            + (seq![
                            Lexeme::Quote,
                            Lexeme::Value { vtext: tail.subrange(1, 1 + vlen as int) },
                            Lexeme::Quote,
                        ] + spec_tokenize(input@.skip(next as int)).tokens));
                    }
                    pos = next;
                },
                None => {
                    proof {
                        assert(lexemes_of(prev).push(Lexeme::Quote) =~= lexemes_of(prev) + seq![
                            Lexeme::Quote,
                        ]);
                        assert(lexemes_of(prev) + spec_tokenize(tail).tokens =~= lexemes_of(
                            prev,
                        ).push(Lexeme::Quote));
                    }
                    err = Some(ExtractError::UnterminatedValue);
                },
            }
        } else if is_valid_first_char_in_element_name(c) {
            let next = parse_name(input, pos, &mut tokens);
            let ghost n = 1 + prefix_len(tail.drop_first(), name_char_pred());
            proof {
                assert(tail.drop_first() =~= input@.skip(pos + 1));
                assert(next == pos + n);
                assert(tail.subrange(0, n as int) =~= input@.subrange(pos as int, pos + n));
                assert(tail.skip(n as int) =~= input@.skip(next as int));
                assert(lexemes_of(prev).push(Lexeme::Name { ntext: tail.subrange(0, n as int) })
                    + spec_tokenize(input@.skip(next as int)).tokens =~= lexemes_of(prev) + (seq![
                    Lexeme::Name { ntext: tail.subrange(0, n as int) },
                ] + spec_tokenize(input@.skip(next as int)).tokens));
            }
            pos = next;
        } else {
            proof {
                assert(spec_tokenize(tail).tokens =~= Seq::<Lexeme>::empty());
                assert(lexemes_of(tokens@) + spec_tokenize(tail).tokens =~= lexemes_of(tokens@));
            }
            err = Some(ExtractError::InvalidNameStart(c));
        }
    }
    proof {
        if err is None {
            assert(pos == len);
            assert(input@.skip(pos as int) =~= Seq::<char>::empty());
            assert(spec_tokenize(input@.skip(pos as int)).tokens =~= Seq::<Lexeme>::empty());
            assert(lexemes_of(tokens@) + Seq::<Lexeme>::empty() =~= lexemes_of(tokens@));
        }
    }
    (tokens, err)
}

// ---------------------------------------------------------------------------
// Laws of the scan
// ---------------------------------------------------------------------------

/// Serialization distributes over concatenation of lexeme sequences.
pub proof fn lemma_lexemes_text_concat(a: Seq<Lexeme>, b: Seq<Lexeme>)
    ensures
        lexemes_text(a + b) == lexemes_text(a) + lexemes_text(b),
    decreases a.len(),
{
    if a.len() == 0 {
        assert(a + b =~= b);
        assert(lexemes_text(a) + lexemes_text(b) =~= lexemes_text(b));
    } else {
        assert((a + b).drop_first() =~= a.drop_first() + b);
        lemma_lexemes_text_concat(a.drop_first(), b);
        assert((a + b)[0] == a[0]);
        assert(lexeme_text(a[0]) + (lexemes_text(a.drop_first()) + lexemes_text(b))
            =~= (lexeme_text(a[0]) + lexemes_text(a.drop_first())) + lexemes_text(b));
    }
}

/// The text of a single lexeme, as a sequence of one.
pub proof fn lemma_lexemes_text_singleton(l: Lexeme)
    ensures
        lexemes_text(seq![l]) == lexeme_text(l),
{
    assert(seq![l].drop_first() =~= Seq::<Lexeme>::empty());
    assert(lexeme_text(l) + lexemes_text(Seq::<Lexeme>::empty()) =~= lexeme_text(l));
}

/// Round-trip law: when a character sequence tokenizes without error,
/// concatenating the serialized form of every produced token reproduces the
/// input exactly.
pub proof fn lemma_round_trip(s: Seq<char>)
    requires
        spec_tokenize(s).error is None,
    ensures
        lexemes_text(spec_tokenize(s).tokens) == s,
    decreases s.len(),
{
    if s.len() == 0 {
        assert(lexemes_text(spec_tokenize(s).tokens) =~= s);
    } else {
        let c = s[0];
        if is_whitespace_char(c) {
            lemma_prefix_len(s, char_eq(c));
            assert(char_eq(c)(s[0]));
            let n = prefix_len(s, char_eq(c)) as int;
            assert(n >= 1);
            let rest = spec_tokenize(s.skip(n));
            lemma_round_trip(s.skip(n));
            let w = Lexeme::Whitespace { wch: c, count: n as nat };
            lemma_lexemes_text_concat(seq![w], rest.tokens);
            lemma_lexemes_text_singleton(w);
            assert(lexeme_text(w) =~= s.subrange(0, n)) by {
                assert forall|i: int| 0 <= i < n implies s.subrange(0, n)[i] == c by {
                    assert(char_eq(c)(s[i]));
                }
            }
            assert(s.subrange(0, n) + s.skip(n) =~= s);
        } else if c == '<' || c == '>' || c == '=' || c == '/' {
            let rest = spec_tokenize(s.drop_first());
            lemma_round_trip(s.drop_first());
            let l = if c == '<' {
                Lexeme::Begin
            } else if c == '>' {
                Lexeme::End
            } else if c == '=' {
                Lexeme::Assign
            } else {
                Lexeme::Close
            };
            lemma_lexemes_text_concat(seq![l], rest.tokens);
            lemma_lexemes_text_singleton(l);
            assert(lexeme_text(l) =~= s.subrange(0, 1));
            assert(s.subrange(0, 1) + s.drop_first() =~= s);
        } else if c == '"' {
            lemma_prefix_len(s.drop_first(), not_quote_pred());
            let vlen = prefix_len(s.drop_first(), not_quote_pred()) as int;
            assert(1 + vlen < s.len());
            assert(!not_quote_pred()(s.drop_first()[vlen]));
            assert(s[1 + vlen] == s.drop_first()[vlen]);
            let rest = spec_tokenize(s.skip(2 + vlen));
            lemma_round_trip(s.skip(2 + vlen));
            let v = Lexeme::Value { vtext: s.subrange(1, 1 + vlen) };
            let pre = seq![Lexeme::Quote, v, Lexeme::Quote];
            lemma_lexemes_text_concat(pre, rest.tokens);
            assert(pre =~= seq![Lexeme::Quote] + seq![v] + seq![Lexeme::Quote]);
            lemma_lexemes_text_concat(seq![Lexeme::Quote] + seq![v], seq![Lexeme::Quote]);
            lemma_lexemes_text_concat(seq![Lexeme::Quote], seq![v]);
            lemma_lexemes_text_singleton(Lexeme::Quote);
            lemma_lexemes_text_singleton(v);
            assert(lexemes_text(pre) =~= seq!['"'] + s.subrange(1, 1 + vlen) + seq!['"']);
            assert(lexemes_text(pre) =~= s.subrange(0, 2 + vlen)) by {
                assert forall|i: int| 1 <= i < 1 + vlen implies s[i] != '"' by {
                    assert(not_quote_pred()(s.drop_first()[i - 1]));
                }
            }
            assert(s.subrange(0, 2 + vlen) + s.skip(2 + vlen) =~= s);
        } else if is_name_start_char(c) {
            lemma_prefix_len(s.drop_first(), name_char_pred());
            let n = 1 + prefix_len(s.drop_first(), name_char_pred()) as int;
            let rest = spec_tokenize(s.skip(n));
            lemma_round_trip(s.skip(n));
            let l = Lexeme::Name { ntext: s.subrange(0, n) };
            lemma_lexemes_text_concat(seq![l], rest.tokens);
            lemma_lexemes_text_singleton(l);
            assert(s.subrange(0, n) + s.skip(n) =~= s);
        } else {
            assert(false);
        }
    }
}

/// Two lexemes that are whitespace runs of the same character.
pub open spec fn same_whitespace_pair(x: Lexeme, y: Lexeme) -> bool {
    x is Whitespace && y is Whitespace && x->Whitespace_wch == y->Whitespace_wch
}

/// Every whitespace run in the sequence is maximal: no two adjacent lexemes
/// are whitespace runs of the same character.
pub open spec fn whitespace_runs_maximal(ls: Seq<Lexeme>) -> bool {
    forall|i: int| 0 <= i && i + 1 < ls.len() ==> !same_whitespace_pair(#[trigger] ls[i], ls[i + 1])
}

/// When the scan of `s` opens with a whitespace lexeme, that lexeme's
/// character is the first character of `s`.
proof fn lemma_first_lexeme_whitespace(s: Seq<char>)
    ensures
        ({
            let ts = spec_tokenize(s).tokens;
            ts.len() > 0 && ts[0] is Whitespace ==> s.len() > 0 && ts[0]->Whitespace_wch == s[0]
        }),
{
    if s.len() > 0 {
        let c = s[0];
        let ts = spec_tokenize(s).tokens;
        if is_whitespace_char(c) {
            let n = prefix_len(s, char_eq(c)) as int;
            assert(ts[0] == Lexeme::Whitespace { wch: c, count: n as nat });
        } else if c == '<' {
            assert(ts[0] == Lexeme::Begin);
        } else if c == '>' {
            assert(ts[0] == Lexeme::End);
        } else if c == '=' {
            assert(ts[0] == Lexeme::Assign);
        } else if c == '/' {
            assert(ts[0] == Lexeme::Close);
        } else if c == '"' {
            assert(ts[0] == Lexeme::Quote);
        } else if is_name_start_char(c) {
            let n = 1 + prefix_len(s.drop_first(), name_char_pred()) as int;
            assert(ts[0] == Lexeme::Name { ntext: s.subrange(0, n) });
        }
    }
}

/// Whitespace-maximality law: on every input, the scan never emits two
/// adjacent whitespace tokens of the same character class.
pub proof fn lemma_whitespace_maximality(s: Seq<char>)
    ensures
        whitespace_runs_maximal(spec_tokenize(s).tokens),
    decreases s.len(),
{
    if s.len() > 0 {
        let c = s[0];
        let ts = spec_tokenize(s).tokens;
        if is_whitespace_char(c) {
            lemma_prefix_len(s, char_eq(c));
            assert(char_eq(c)(s[0]));
            let n = prefix_len(s, char_eq(c)) as int;
            assert(n >= 1);
            let rest = spec_tokenize(s.skip(n)).tokens;
            lemma_whitespace_maximality(s.skip(n));
            let w = Lexeme::Whitespace { wch: c, count: n as nat };
            assert forall|i: int| 0 <= i && i + 1 < ts.len() implies !same_whitespace_pair(
                #[trigger] ts[i],
                ts[i + 1],
            ) by {
                if i == 0 {
                    if rest.len() > 0 && rest[0] is Whitespace {
                        lemma_first_lexeme_whitespace(s.skip(n));
                        assert(s.skip(n)[0] == s[n]);
                        assert(!char_eq(c)(s[n]));
                        assert(rest[0]->Whitespace_wch != c);
                    }
                } else {
                    assert(ts[i] == rest[i - 1]);
                    assert(ts[i + 1] == rest[i]);
                    assert(!same_whitespace_pair(rest[i - 1], rest[i]));
                }
            }
        } else if c == '<' || c == '>' || c == '=' || c == '/' {
            let rest = spec_tokenize(s.drop_first()).tokens;
            lemma_whitespace_maximality(s.drop_first());
            assert forall|i: int| 0 <= i && i + 1 < ts.len() implies !same_whitespace_pair(
                #[trigger] ts[i],
                ts[i + 1],
            ) by {
                if i == 0 {
                    assert(!(ts[0] is Whitespace));
                } else {
                    assert(!same_whitespace_pair(rest[i - 1], rest[i]));
                }
            }
        } else if c == '"' {
            let vlen = prefix_len(s.drop_first(), not_quote_pred()) as int;
            if 1 + vlen < s.len() {
                let rest = spec_tokenize(s.skip(2 + vlen)).tokens;
                lemma_whitespace_maximality(s.skip(2 + vlen));
                assert forall|i: int| 0 <= i && i + 1 < ts.len() implies !same_whitespace_pair(
                    #[trigger] ts[i],
                    ts[i + 1],
                ) by {
                    if i >= 3 {
                        assert(ts[i] == rest[i - 3]);
                        assert(ts[i + 1] == rest[i - 2]);
                        assert(!same_whitespace_pair(rest[i - 3], rest[i - 2]));
                    } else if i == 2 {
                        assert(!(ts[2] is Whitespace));
                    } else {
                        assert(!(ts[i] is Whitespace));
                    }
                }
            }
        } else if is_name_start_char(c) {
            lemma_prefix_len(s.drop_first(), name_char_pred());
            let n = 1 + prefix_len(s.drop_first(), name_char_pred()) as int;
            let rest = spec_tokenize(s.skip(n)).tokens;
            lemma_whitespace_maximality(s.skip(n));
            assert forall|i: int| 0 <= i && i + 1 < ts.len() implies !same_whitespace_pair(
                #[trigger] ts[i],
                ts[i + 1],
            ) by {
                if i == 0 {
                    assert(!(ts[0] is Whitespace));
                } else {
                    assert(!same_whitespace_pair(rest[i - 1], rest[i]));
                }
            }
        }
    }
}

/// Text that may stand in a name token: non-empty, opening with an ASCII
/// letter or underscore, continuing with ASCII letters, digits, underscores
/// or colons.
pub open spec fn valid_name_text(t: Seq<char>) -> bool {
    &&& t.len() > 0
    &&& is_name_start_char(t[0])
    &&& forall|i: int| 1 <= i < t.len() ==> is_name_char(t[i])
}

/// Every name lexeme in the sequence carries valid name text.
pub open spec fn all_names_valid(ls: Seq<Lexeme>) -> bool {
    forall|i: int| 0 <= i < ls.len() ==> (#[trigger] ls[i] matches Lexeme::Name { ntext }
        ==> valid_name_text(ntext))
}

/// Name-validity law: every name token the scan emits has non-empty text
/// whose first character is an ASCII letter or underscore and whose other
/// characters are ASCII letters, digits, underscores or colons.
pub proof fn lemma_name_validity(s: Seq<char>)
    ensures
        all_names_valid(spec_tokenize(s).tokens),
    decreases s.len(),
{
    if s.len() > 0 {
        let c = s[0];
        let ts = spec_tokenize(s).tokens;
        if is_whitespace_char(c) {
            lemma_prefix_len(s, char_eq(c));
            assert(char_eq(c)(s[0]));
            let n = prefix_len(s, char_eq(c)) as int;
            assert(n >= 1);
            let rest = spec_tokenize(s.skip(n)).tokens;
            lemma_name_validity(s.skip(n));
            assert forall|i: int| 0 <= i < ts.len() implies (#[trigger] ts[i] matches Lexeme::Name { ntext }
                ==> valid_name_text(ntext)) by {
                if i > 0 {
                    assert(ts[i] == rest[i - 1]);
                }
            }
        } else if c == '<' || c == '>' || c == '=' || c == '/' {
            let rest = spec_tokenize(s.drop_first()).tokens;
            lemma_name_validity(s.drop_first());
            assert forall|i: int| 0 <= i < ts.len() implies (#[trigger] ts[i] matches Lexeme::Name { ntext }
                ==> valid_name_text(ntext)) by {
                if i > 0 {
                    assert(ts[i] == rest[i - 1]);
                }
            }
        } else if c == '"' {
            let vlen = prefix_len(s.drop_first(), not_quote_pred()) as int;
            if 1 + vlen < s.len() {
                let rest = spec_tokenize(s.skip(2 + vlen)).tokens;
                lemma_name_validity(s.skip(2 + vlen));
                assert forall|i: int| 0 <= i < ts.len() implies (#[trigger] ts[i] matches Lexeme::Name {
                    ntext } ==> valid_name_text(ntext)) by {
                    if i >= 3 {
                        assert(ts[i] == rest[i - 3]);
                    }
                }
            }
        } else if is_name_start_char(c) {
            lemma_prefix_len(s.drop_first(), name_char_pred());
            let n = 1 + prefix_len(s.drop_first(), name_char_pred()) as int;
            let rest = spec_tokenize(s.skip(n)).tokens;
            lemma_name_validity(s.skip(n));
            let t = s.subrange(0, n);
            assert(valid_name_text(t)) by {
                assert(t[0] == s[0]);
                assert forall|i: int| 1 <= i < t.len() implies is_name_char(t[i]) by {
                    assert(name_char_pred()(s.drop_first()[i - 1]));
                    assert(s.drop_first()[i - 1] == t[i]);
                }
            }
            assert forall|i: int| 0 <= i < ts.len() implies (#[trigger] ts[i] matches Lexeme::Name { ntext }
                ==> valid_name_text(ntext)) by {
                if i > 0 {
                    assert(ts[i] == rest[i - 1]);
                }
            }
        }
    }
}

/// No lexeme in the sequence is free-form `Text` or unclassified `Other`
/// content.
pub open spec fn no_free_content(ls: Seq<Lexeme>) -> bool {
    forall|i: int| 0 <= i < ls.len() ==> !((#[trigger] ls[i]) is Text || ls[i] is Other)
}

/// The scan classifies every character it consumes: it never emits a `Text`
/// or `Other` lexeme.
pub proof fn lemma_no_free_content(s: Seq<char>)
    ensures
        no_free_content(spec_tokenize(s).tokens),
    decreases s.len(),
{
    if s.len() > 0 {
        let c = s[0];
        let ts = spec_tokenize(s).tokens;
        if is_whitespace_char(c) {
            lemma_prefix_len(s, char_eq(c));
            assert(char_eq(c)(s[0]));
            let n = prefix_len(s, char_eq(c)) as int;
            assert(n >= 1);
            let rest = spec_tokenize(s.skip(n)).tokens;
            lemma_no_free_content(s.skip(n));
            assert forall|i: int| 0 <= i < ts.len() implies !((#[trigger] ts[i]) is Text || ts[i]
                is Other) by {
                if i > 0 {
                    assert(ts[i] == rest[i - 1]);
                }
            }
        } else if c == '<' || c == '>' || c == '=' || c == '/' {
            let rest = spec_tokenize(s.drop_first()).tokens;
            lemma_no_free_content(s.drop_first());
            assert forall|i: int| 0 <= i < ts.len() implies !((#[trigger] ts[i]) is Text || ts[i]
                is Other) by {
                if i > 0 {
                    assert(ts[i] == rest[i - 1]);
                }
            }
        } else if c == '"' {
            let vlen = prefix_len(s.drop_first(), not_quote_pred()) as int;
            if 1 + vlen < s.len() {
                let rest = spec_tokenize(s.skip(2 + vlen)).tokens;
                lemma_no_free_content(s.skip(2 + vlen));
                assert forall|i: int| 0 <= i < ts.len() implies !((#[trigger] ts[i]) is Text
                    || ts[i] is Other) by {
                    if i >= 3 {
                        assert(ts[i] == rest[i - 3]);
                    }
                }
            }
        } else if is_name_start_char(c) {
            lemma_prefix_len(s.drop_first(), name_char_pred());
            let n = 1 + prefix_len(s.drop_first(), name_char_pred()) as int;
            let rest = spec_tokenize(s.skip(n)).tokens;
            lemma_no_free_content(s.skip(n));
            assert forall|i: int| 0 <= i < ts.len() implies !((#[trigger] ts[i]) is Text || ts[i]
                is Other) by {
                if i > 0 {
                    assert(ts[i] == rest[i - 1]);
                }
            }
        }
    }
}

/// Idempotence law: serializing an error-free token sequence and scanning
/// the result again yields the same tokens and no error. The scan never
/// emits `Text` or `Other` lexemes ([`lemma_no_free_content`]), so no
/// free-form ambiguity arises.
pub proof fn lemma_retokenize_idempotent(s: Seq<char>)
    requires
        spec_tokenize(s).error is None,
    ensures
        spec_tokenize(lexemes_text(spec_tokenize(s).tokens)) == spec_tokenize(s),
{
    lemma_round_trip(s);
}

/// The tokenizing interface: a value that exposes its text as a character
/// sequence hands back the scan of that text.
pub trait XmlTokenize {
    /// The character sequence the scan reads.
    spec fn text(&self) -> Seq<char>;

    /// Scans the text into an ordered token sequence. Returns the tokens
    /// produced up to the point the scan finished or halted, together with
    /// the failure, if any; the result is exactly what [`spec_tokenize`]
    /// says of the text.
    fn tokenize(&self) -> (r: (Vec<XmlToken>, Option<ExtractError>))
        ensures
            lexemes_of(r.0@) == spec_tokenize(self.text()).tokens,
            r.1 == spec_tokenize(self.text()).error,
    ;
}

impl XmlTokenize for String {
    open spec fn text(&self) -> Seq<char> {
        self@
    }

    fn tokenize(&self) -> (r: (Vec<XmlToken>, Option<ExtractError>)) {
        tokenize_str(self.as_str())
    }
}

} // verus!
