use xml_lexer::token::{WhitespaceKind, XmlToken};

#[test]
fn space_token() {
    let whitespace_space = WhitespaceKind::Space(10);
    assert_eq!(whitespace_space, WhitespaceKind::Space(10));
    assert_eq!(whitespace_space.to_char(), ' ');
    assert_eq!(whitespace_space.to_string(), " ".repeat(10));
    let whitespace_tab = WhitespaceKind::Tab(5);
    assert_eq!(whitespace_tab, WhitespaceKind::Tab(5));
    assert_eq!(whitespace_tab.to_char(), '\t');
    assert_eq!(whitespace_tab.to_string(), "\t".repeat(5));
    let whitespace_cr = WhitespaceKind::CR(1);
    assert_eq!(whitespace_cr, WhitespaceKind::CR(1));
    assert_eq!(whitespace_cr.to_char(), '\r');
    assert_eq!(whitespace_cr.to_string(), "\r".repeat(1));
    let whitespace_lf = WhitespaceKind::LF(15);
    assert_eq!(whitespace_lf, WhitespaceKind::LF(15));
    assert_eq!(whitespace_lf.to_char(), '\n');
    assert_eq!(whitespace_lf.to_string(), "\n".repeat(15));
}

#[test]
fn xml_token_whitespace() {
    let token = XmlToken::new_whitespace("\t\t\t".to_string());
    assert_eq!(token, Some(XmlToken::Whitespace(WhitespaceKind::Tab(3))));
}

#[test]
fn xml_token_whitespace_to_string() {
    let token = XmlToken::new_whitespace("\t\t\t".to_string()).unwrap();
    assert_eq!(token.to_string(), "\t\t\t".to_string());
}

#[test]
fn xml_token_element() {
    let token = XmlToken::new_name("element".to_string());
    assert_eq!(token, XmlToken::Name("element".to_string()));
}

#[test]
fn xml_token_element_to_string() {
    let token = XmlToken::new_name("element".to_string());
    assert_eq!(token.to_string(), "element".to_string());
}

#[test]
fn xml_token_close() {
    let token = XmlToken::new_close();
    assert_eq!(token, XmlToken::Close);
}

#[test]
fn xml_token_close_to_string() {
    let token = XmlToken::new_close();
    assert_eq!(token.to_string(), "/".to_string());
}

#[test]
fn xml_token_end() {
    let token = XmlToken::new_end();
    assert_eq!(token, XmlToken::End);
}

#[test]
fn xml_token_end_to_string() {
    let token = XmlToken::new_end();
    assert_eq!(token.to_string(), ">".to_string());
}

#[test]
fn xml_token_quote() {
    let token = XmlToken::new_quote();
    assert_eq!(token, XmlToken::Quote);
}

#[test]
fn xml_token_quote_to_string() {
    let token = XmlToken::new_quote();
    assert_eq!(token.to_string(), "\"".to_string());
}

#[test]
fn xml_token_value() {
    let token = XmlToken::new_value("value".to_string());
    assert_eq!(token, XmlToken::Value("value".to_string()));
}

#[test]
fn xml_token_value_to_string() {
    let token = XmlToken::new_value("value".to_string());
    assert_eq!(token.to_string(), "value".to_string());
}
