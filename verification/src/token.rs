//! The token model: whitespace run kinds, the closed set of lexical token
//! variants, and serialization of each token back to the text it stands for.

use vstd::prelude::*;
use vstd::string::StrSliceExecFns;

verus! {

/// Tags a maximal run of one whitespace character with its repeat count.
/// `Space(n)` stands for `n` spaces, `Tab(n)` for `n` tabs, and so on for
/// carriage return, line feed and form feed.
#[derive(Debug, Copy, Clone, PartialEq, Eq)]
pub enum WhitespaceKind {
    Space(usize),
    Tab(usize),
    CR(usize),
    LF(usize),
    FF(usize),
}

/// A vestigial wrapper for a single symbol character.
#[derive(Debug, Copy, Clone, PartialEq, Eq)]
pub enum SymbolKind {
    Symbol(char),
}

impl WhitespaceKind {
    /// The whitespace character this kind repeats.
    pub open spec fn spec_char(self) -> char {
        match self {
            WhitespaceKind::Space(_) => ' ',
            WhitespaceKind::Tab(_) => '\t',
            WhitespaceKind::CR(_) => '\r',
            WhitespaceKind::LF(_) => '\n',
            WhitespaceKind::FF(_) => '\u{000C}',
        }
    }

    /// The length of the run.
    pub open spec fn spec_count(self) -> nat {
        match self {
            WhitespaceKind::Space(n) => n as nat,
            WhitespaceKind::Tab(n) => n as nat,
            WhitespaceKind::CR(n) => n as nat,
            WhitespaceKind::LF(n) => n as nat,
            WhitespaceKind::FF(n) => n as nat,
        }
    }

    /// The text this run serializes to: its character, repeated.
    pub open spec fn spec_text(self) -> Seq<char> {
        Seq::new(self.spec_count(), |i: int| self.spec_char())
    }

    /// Which kind, if any, a character and a count classify as: exactly the
    /// five XML whitespace code points map to a kind.
    pub open spec fn spec_from_char(value: char, count: usize) -> Option<WhitespaceKind> {
        if value == ' ' {
            Some(WhitespaceKind::Space(count))
        } else if value == '\t' {
            Some(WhitespaceKind::Tab(count))
        } else if value == '\n' {
            Some(WhitespaceKind::LF(count))
        } else if value == '\r' {
            Some(WhitespaceKind::CR(count))
        } else if value == '\u{000C}' {
            Some(WhitespaceKind::FF(count))
        } else {
            None
        }
    }

    /// The whitespace character this kind repeats.
    pub fn to_char(self) -> (c: char)
        ensures
            c == self.spec_char(),
    {
        match self {
            WhitespaceKind::Space(_) => ' ',
            WhitespaceKind::Tab(_) => '\t',
            WhitespaceKind::CR(_) => '\r',
            WhitespaceKind::LF(_) => '\n',
            WhitespaceKind::FF(_) => '\u{000C}',
        }
    }

    /// Serializes the run: its character repeated as many times as counted.
    pub fn to_string(self) -> (r: String)
        ensures
            r@ == self.spec_text(),
    {
        let c = self.to_char();
        let n: usize = match self {
            WhitespaceKind::Space(n) => n,
            WhitespaceKind::Tab(n) => n,
            WhitespaceKind::CR(n) => n,
            WhitespaceKind::LF(n) => n,
            WhitespaceKind::FF(n) => n,
        };
        let mut r = String::new();
        let mut i: usize = 0;
        while i < n
            invariant
                i <= n,
                c == self.spec_char(),
                n == self.spec_count(),
                r@ == Seq::new(i as nat, |k: int| c),
            decreases n - i,
        {
            push_char(&mut r, c);
            i = i + 1;
            proof {
                assert(r@ =~= Seq::new(i as nat, |k: int| c));
            }
        }
        proof {
            assert(r@ =~= self.spec_text());
        }
        r
    }

    /// Classifies a character and a run count: exactly the five XML
    /// whitespace code points yield a kind, anything else yields none.
    pub fn from_char(value: char, count: usize) -> (r: Option<WhitespaceKind>)
        ensures
            r == Self::spec_from_char(value, count),
    {
        match value {
            ' ' => Some(WhitespaceKind::Space(count)),
            '\t' => Some(WhitespaceKind::Tab(count)),
            '\n' => Some(WhitespaceKind::LF(count)),
            '\r' => Some(WhitespaceKind::CR(count)),
            '\u{000C}' => Some(WhitespaceKind::FF(count)),
            _ => None,
        }
    }

    /// Classifies a whole string by its first character, counting its
    /// characters as the run length; the empty string yields no kind.
    pub fn from_string(value: String) -> (r: Option<WhitespaceKind>)
        ensures
            value@.len() == 0 ==> r is None,
            value@.len() > 0 ==> r == Self::spec_from_char(
                value@.first(),
                value@.len() as usize,
            ),
    {
        let s = value.as_str();
        let n = s.unicode_len();
        if n > 0 {
            let c = s.get_char(0);
            WhitespaceKind::from_char(c, n)
        } else {
            None
        }
    }
}

/// The spec-level form of one token: payloads appear as mathematical
/// sequences of characters, and a whitespace run as its character and count.
pub ghost enum Lexeme {
    Whitespace { wch: char, count: nat },
    Begin,
    Name { ntext: Seq<char> },
    Close,
    End,
    Value { vtext: Seq<char> },
    Assign,
    Quote,
    Text { ttext: Seq<char> },
    Other { otext: Seq<char> },
}

/// The text a single lexeme serializes to.
pub open spec fn lexeme_text(l: Lexeme) -> Seq<char> {
    match l {
        Lexeme::Whitespace { wch, count } => Seq::new(count, |i: int| wch),
        Lexeme::Begin => seq!['<'],
        Lexeme::Name { ntext } => ntext,
        Lexeme::Close => seq!['/'],
        Lexeme::End => seq!['>'],
        Lexeme::Value { vtext } => vtext,
        Lexeme::Assign => seq!['='],
        Lexeme::Quote => seq!['"'],
        Lexeme::Text { ttext } => ttext,
        Lexeme::Other { otext } => otext,
    }
}

/// The text a whole lexeme sequence serializes to: each lexeme's text,
/// concatenated in order.
pub open spec fn lexemes_text(ls: Seq<Lexeme>) -> Seq<char>
    decreases ls.len(),
{
    if ls.len() == 0 {
        Seq::empty()
    } else {
        lexeme_text(ls[0]) + lexemes_text(ls.drop_first())
    }
}

/// One classified lexical unit. The structural symbols `Begin` (`<`),
/// `Close` (`/`), `End` (`>`), `Assign` (`=`) and `Quote` (`"`) are fixed
/// markers; `Whitespace` carries a run, `Name` an identifier, `Value` the
/// content between two quotes, and `Text` / `Other` free-form content kept
/// for forward compatibility.
#[derive(Debug, Clone, PartialEq, Eq)]
pub enum XmlToken {
    Whitespace(WhitespaceKind),
    Begin,
    Name(String),
    Close,
    End,
    Value(String),
    Assign,
    Quote,
    Text(String),
    Other(String),
}

impl View for XmlToken {
    type V = Lexeme;

    open spec fn view(&self) -> Lexeme {
        match self {
            XmlToken::Whitespace(k) => Lexeme::Whitespace {
                wch: k.spec_char(),
                count: k.spec_count(),
            },
            XmlToken::Begin => Lexeme::Begin,
            XmlToken::Name(s) => Lexeme::Name { ntext: s@ },
            XmlToken::Close => Lexeme::Close,
            XmlToken::End => Lexeme::End,
            XmlToken::Value(s) => Lexeme::Value { vtext: s@ },
            XmlToken::Assign => Lexeme::Assign,
            XmlToken::Quote => Lexeme::Quote,
            XmlToken::Text(s) => Lexeme::Text { ttext: s@ },
            XmlToken::Other(s) => Lexeme::Other { otext: s@ },
        }
    }
}

impl XmlToken {
    /// Which fixed token, if any, a single character stands for: exactly the
    /// five structural symbol characters map to a token.
    pub open spec fn spec_from_char(c: char) -> Option<XmlToken> {
        if c == '<' {
            Some(XmlToken::Begin)
        } else if c == '>' {
            Some(XmlToken::End)
        } else if c == '=' {
            Some(XmlToken::Assign)
        } else if c == '/' {
            Some(XmlToken::Close)
        } else if c == '"' {
            Some(XmlToken::Quote)
        } else {
            None
        }
    }

    /// Builds a whitespace token from run text: the first character decides
    /// the kind and the character count the run length; text that is empty or
    /// does not start with one of the five whitespace code points yields none.
    pub fn new_whitespace(value: String) -> (r: Option<XmlToken>)
        ensures
            value@.len() == 0 ==> r is None,
            value@.len() > 0 ==> r == (
            match WhitespaceKind::spec_from_char(value@.first(), value@.len() as usize) {
                Some(k) => Some(XmlToken::Whitespace(k)),
                None => None,
            }),
    {
        let s = WhitespaceKind::from_string(value);
        match s {
            Some(k) => Some(XmlToken::Whitespace(k)),
            None => None,
        }
    }

    /// Wraps an identifier as a name token.
    pub fn new_name(name: String) -> (t: XmlToken)
        ensures
            t == XmlToken::Name(name),
    {
        XmlToken::Name(name)
    }

    /// The `<` marker.
    pub fn new_begin() -> (t: XmlToken)
        ensures
            t == XmlToken::Begin,
    {
        XmlToken::Begin
    }

    /// The `/` marker.
    pub fn new_close() -> (t: XmlToken)
        ensures
            t == XmlToken::Close,
    {
        XmlToken::Close
    }

    /// The `>` marker.
    pub fn new_end() -> (t: XmlToken)
        ensures
            t == XmlToken::End,
    {
        XmlToken::End
    }

    /// Wraps quoted content as a value token.
    pub fn new_value(value: String) -> (t: XmlToken)
        ensures
            t == XmlToken::Value(value),
    {
        XmlToken::Value(value)
    }

    /// The `=` marker.
    pub fn new_assign() -> (t: XmlToken)
        ensures
            t == XmlToken::Assign,
    {
        XmlToken::Assign
    }

    /// The `"` marker.
    pub fn new_quote() -> (t: XmlToken)
        ensures
            t == XmlToken::Quote,
    {
        XmlToken::Quote
    }

    /// Wraps free-form content as a text token.
    pub fn new_text(value: String) -> (t: XmlToken)
        ensures
            t == XmlToken::Text(value),
    {
        XmlToken::Text(value)
    }

    /// Serializes the token to exactly the source text it stands for.
    pub fn to_string(self) -> (r: String)
        ensures
            r@ == lexeme_text(self@),
    {
        match self {
            XmlToken::Begin => {
                let r = String::from_str("<");
                proof {
                    reveal_strlit("<");
                    assert(r@ =~= seq!['<']);
                }
                r
            },
            XmlToken::Name(s) => s,
            XmlToken::Close => {
                let r = String::from_str("/");
                proof {
                    reveal_strlit("/");
                    assert(r@ =~= seq!['/']);
                }
                r
            },
            XmlToken::End => {
                let r = String::from_str(">");
                proof {
                    reveal_strlit(">");
                    assert(r@ =~= seq!['>']);
                }
                r
            },
            XmlToken::Assign => {
                let r = String::from_str("=");
                proof {
                    reveal_strlit("=");
                    assert(r@ =~= seq!['=']);
                }
                r
            },
            XmlToken::Value(v) => v,
            XmlToken::Quote => {
                let r = String::from_str("\"");
                proof {
                    reveal_strlit("\"");
                    assert(r@ =~= seq!['"']);
                }
                r
            },
            XmlToken::Text(s) => s,
            XmlToken::Other(s) => s,
            XmlToken::Whitespace(t) => t.to_string(),
        }
    }

    /// Classifies a single character as one of the five fixed structural
    /// symbol tokens, or as nothing.
    pub fn from_char(c: char) -> (r: Option<XmlToken>)
        ensures
            r == Self::spec_from_char(c),
    {
        match c {
            '<' => Some(XmlToken::Begin),
            '>' => Some(XmlToken::End),
            '=' => Some(XmlToken::Assign),
            '/' => Some(XmlToken::Close),
            '"' => Some(XmlToken::Quote),
            _ => None,
        }
    }
}

/// Relies on `String::push`: appends one character at the end of the string.
#[verifier::external_body]
pub(crate) fn push_char(s: &mut String, c: char)
    ensures
        final(s)@ == old(s)@.push(c),
{
    s.push(c);
}

} // verus!
