use xml_lexer::errors::ExtractError;
use xml_lexer::token::{WhitespaceKind, XmlToken};
use xml_lexer::tokenizer::{new_whitespace_kind, tokenize_str, XmlTokenize};

fn render(tokens: Vec<XmlToken>) -> String {
    let mut text = String::new();
    for token in tokens {
        text += &token.to_string();
    }
    text
}

#[test]
fn scenario_empty_input() {
    let (tokens, error) = tokenize_str("");
    assert!(tokens.is_empty());
    assert!(error.is_none());
}

#[test]
fn scenario_three_spaces() {
    let (tokens, error) = tokenize_str("   ");
    assert!(error.is_none());
    assert_eq!(tokens, vec![XmlToken::Whitespace(WhitespaceKind::Space(3))]);
}

#[test]
fn scenario_element() {
    let (tokens, error) = tokenize_str("<element>");
    assert!(error.is_none());
    assert_eq!(
        tokens,
        vec![
            XmlToken::Begin,
            XmlToken::Name("element".to_string()),
            XmlToken::End,
        ]
    );
}

#[test]
fn scenario_empty_element() {
    let (tokens, error) = tokenize_str("<element/>");
    assert!(error.is_none());
    assert_eq!(
        tokens,
        vec![
            XmlToken::Begin,
            XmlToken::Name("element".to_string()),
            XmlToken::Close,
            XmlToken::End,
        ]
    );
}

#[test]
fn scenario_element_with_attribute() {
    let (tokens, error) = tokenize_str("<element attribute=\"value\"/>");
    assert!(error.is_none());
    assert_eq!(tokens.len(), 10);
    assert_eq!(
        tokens,
        vec![
            XmlToken::Begin,
            XmlToken::Name("element".to_string()),
            XmlToken::Whitespace(WhitespaceKind::Space(1)),
            XmlToken::Name("attribute".to_string()),
            XmlToken::Assign,
            XmlToken::Quote,
            XmlToken::Value("value".to_string()),
            XmlToken::Quote,
            XmlToken::Close,
            XmlToken::End,
        ]
    );
}

#[test]
fn scenario_nested_elements() {
    let (tokens, error) = tokenize_str("<a><b/></a>");
    assert!(error.is_none());
    assert_eq!(
        tokens,
        vec![
            XmlToken::Begin,
            XmlToken::Name("a".to_string()),
            XmlToken::End,
            XmlToken::Begin,
            XmlToken::Name("b".to_string()),
            XmlToken::Close,
            XmlToken::End,
            XmlToken::Begin,
            XmlToken::Close,
            XmlToken::Name("a".to_string()),
            XmlToken::End,
        ]
    );
}

#[test]
fn scenario_unterminated_value() {
    let (tokens, error) = tokenize_str("<a x=\"v");
    assert_eq!(error, Some(ExtractError::UnterminatedValue));
    assert_eq!(
        tokens,
        vec![
            XmlToken::Begin,
            XmlToken::Name("a".to_string()),
            XmlToken::Whitespace(WhitespaceKind::Space(1)),
            XmlToken::Name("x".to_string()),
            XmlToken::Assign,
            XmlToken::Quote,
        ]
    );
}

#[test]
fn scenario_invalid_name_start() {
    let (tokens, error) = tokenize_str("<1>");
    assert_eq!(error, Some(ExtractError::InvalidNameStart('1')));
    assert_eq!(tokens, vec![XmlToken::Begin]);
}

#[test]
fn scenario_empty_value() {
    let (tokens, error) = tokenize_str("<a x=\"\"/>");
    assert!(error.is_none());
    assert_eq!(
        tokens,
        vec![
            XmlToken::Begin,
            XmlToken::Name("a".to_string()),
            XmlToken::Whitespace(WhitespaceKind::Space(1)),
            XmlToken::Name("x".to_string()),
            XmlToken::Assign,
            XmlToken::Quote,
            XmlToken::Value("".to_string()),
            XmlToken::Quote,
            XmlToken::Close,
            XmlToken::End,
        ]
    );
}

#[test]
fn whitespace_runs_are_never_merged() {
    let (tokens, error) = tokenize_str(" \t");
    assert!(error.is_none());
    assert_eq!(
        tokens,
        vec![
            XmlToken::Whitespace(WhitespaceKind::Space(1)),
            XmlToken::Whitespace(WhitespaceKind::Tab(1)),
        ]
    );
}

#[test]
fn whitespace_crlf_is_two_runs() {
    let (tokens, error) = tokenize_str("\r\n\n");
    assert!(error.is_none());
    assert_eq!(
        tokens,
        vec![
            XmlToken::Whitespace(WhitespaceKind::CR(1)),
            XmlToken::Whitespace(WhitespaceKind::LF(2)),
        ]
    );
}

#[test]
fn whitespace_form_feed_run() {
    let (tokens, error) = tokenize_str("\u{000C}\u{000C}");
    assert!(error.is_none());
    assert_eq!(tokens, vec![XmlToken::Whitespace(WhitespaceKind::FF(2))]);
}

#[test]
fn adjacent_whitespace_tokens_differ_in_class() {
    let (tokens, error) = tokenize_str("  \t\t\r\n <a>  ");
    assert!(error.is_none());
    for pair in tokens.windows(2) {
        if let (XmlToken::Whitespace(a), XmlToken::Whitespace(b)) = (&pair[0], &pair[1]) {
            assert_ne!(a.to_char(), b.to_char());
        }
    }
}

#[test]
fn name_tokens_are_valid_names() {
    let (tokens, error) = tokenize_str("<a_1:b x_y=\"v\"> _z");
    assert!(error.is_none());
    for token in &tokens {
        if let XmlToken::Name(text) = token {
            let first = text.chars().next().unwrap();
            assert!(first.is_ascii_alphabetic() || first == '_');
            for c in text.chars().skip(1) {
                assert!(c.is_ascii_alphanumeric() || c == '_' || c == ':');
            }
        }
    }
}

#[test]
fn round_trip_reproduces_input() {
    let source = "<a_1:b x_y=\"some value\"/>\r\n\t <c>  </c>";
    let (tokens, error) = source.to_string().tokenize();
    assert!(error.is_none());
    assert_eq!(render(tokens), source);
}

#[test]
fn retokenizing_output_is_idempotent() {
    let source = "<a x=\"v w\">\t\t<b/> </a>";
    let (tokens, error) = tokenize_str(source);
    assert!(error.is_none());
    let again = render(tokens.clone());
    let (tokens_again, error_again) = tokenize_str(&again);
    assert!(error_again.is_none());
    assert_eq!(tokens_again, tokens);
}

#[test]
fn whitespace_kind_from_char_classifies_five_code_points() {
    assert_eq!(WhitespaceKind::from_char(' ', 2), Some(WhitespaceKind::Space(2)));
    assert_eq!(WhitespaceKind::from_char('\t', 1), Some(WhitespaceKind::Tab(1)));
    assert_eq!(WhitespaceKind::from_char('\n', 3), Some(WhitespaceKind::LF(3)));
    assert_eq!(WhitespaceKind::from_char('\r', 4), Some(WhitespaceKind::CR(4)));
    assert_eq!(WhitespaceKind::from_char('\u{000C}', 5), Some(WhitespaceKind::FF(5)));
    assert_eq!(WhitespaceKind::from_char('x', 1), None);
}

#[test]
fn whitespace_kind_from_string_counts_characters() {
    assert_eq!(WhitespaceKind::from_string("   ".to_string()), Some(WhitespaceKind::Space(3)));
    assert_eq!(WhitespaceKind::from_string("".to_string()), None);
    assert_eq!(WhitespaceKind::from_string("abc".to_string()), None);
}

#[test]
fn new_whitespace_kind_matches_from_char() {
    assert_eq!(new_whitespace_kind(&' ', 7), Some(WhitespaceKind::Space(7)));
    assert_eq!(new_whitespace_kind(&'\u{000C}', 1), Some(WhitespaceKind::FF(1)));
    assert_eq!(new_whitespace_kind(&'q', 7), None);
}

#[test]
fn token_from_char_classifies_symbols() {
    assert_eq!(XmlToken::from_char('<'), Some(XmlToken::Begin));
    assert_eq!(XmlToken::from_char('>'), Some(XmlToken::End));
    assert_eq!(XmlToken::from_char('='), Some(XmlToken::Assign));
    assert_eq!(XmlToken::from_char('/'), Some(XmlToken::Close));
    assert_eq!(XmlToken::from_char('"'), Some(XmlToken::Quote));
    assert_eq!(XmlToken::from_char('a'), None);
}

#[test]
fn error_descriptions() {
    assert_eq!(
        ExtractError::UnterminatedValue.description(),
        "missing closing quote for value"
    );
    assert_eq!(
        ExtractError::InvalidNameStart('1').description(),
        "invalid first character for name"
    );
}

#[test]
fn name_at_end_of_input_is_complete() {
    let (tokens, error) = tokenize_str("name");
    assert!(error.is_none());
    assert_eq!(tokens, vec![XmlToken::Name("name".to_string())]);
}

#[test]
fn new_whitespace_rejects_non_whitespace_text() {
    assert_eq!(XmlToken::new_whitespace("".to_string()), None);
    assert_eq!(XmlToken::new_whitespace("ab".to_string()), None);
    assert_eq!(
        XmlToken::new_whitespace("  ".to_string()),
        Some(XmlToken::Whitespace(WhitespaceKind::Space(2)))
    );
}
