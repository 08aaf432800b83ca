use xml_lexer::token::{WhitespaceKind, XmlToken};
use xml_lexer::tokenizer::XmlTokenize;

#[test]
fn space_token_should_be_updated() {
    let whitespace = WhitespaceKind::Space(10);
    assert_eq!(whitespace, WhitespaceKind::Space(10));
}

#[test]
fn new_tokenizer() {
    let (tokenizer, error) = "".to_string().tokenize();
    assert_eq!(tokenizer.len(), 0);
    assert!(error.is_none());
}

#[test]
fn new_tokenizer_one_space() {
    let (tokenizer, error) = " ".to_string().tokenize();
    assert!(error.is_none());
    {
        let mut iter = tokenizer.iter();
        assert_eq!(iter.next().unwrap(), &XmlToken::Whitespace(WhitespaceKind::Space(1)));
    }
}

#[test]
fn new_tokenizer_xml_element() {
    let (tokenizer, error) = "<element>".to_string().tokenize();
    assert!(error.is_none());
    {
        let mut iter = tokenizer.iter();
        assert_eq!(iter.next().unwrap(), &XmlToken::new_begin());
        assert_eq!(iter.next().unwrap(), &XmlToken::new_name("element".to_string()));
        assert_eq!(iter.next().unwrap(), &XmlToken::new_end());
    }
}

#[test]
fn new_tokenizer_xml_element_to_string() {
    let (tokenizer, error) = "<element>".to_string().tokenize();
    assert!(error.is_none());
    let mut text = String::new();
    for token in tokenizer {
        text = text + &token.to_string();
    }
    assert_eq!(text, "<element>".to_string());
}

#[test]
fn new_tokenizer_xml_full_element() {
    let (tokenizer, error) = "<element/>".to_string().tokenize();
    assert!(error.is_none());
    {
        let mut iter = tokenizer.iter();
        assert_eq!(iter.next().unwrap(), &XmlToken::new_begin());
        assert_eq!(iter.next().unwrap(), &XmlToken::new_name("element".to_string()));
        assert_eq!(iter.next().unwrap(), &XmlToken::new_close());
        assert_eq!(iter.next().unwrap(), &XmlToken::new_end());
    }
}

#[test]
fn new_tokenizer_xml_element_in_element() {
    let (tokenizer, error) = "<element><level/></element>".to_string().tokenize();
    assert!(error.is_none());
    {
        let mut iter = tokenizer.iter();
        assert_eq!(iter.next().unwrap(), &XmlToken::new_begin());
        assert_eq!(iter.next().unwrap(), &XmlToken::new_name("element".to_string()));
        assert_eq!(iter.next().unwrap(), &XmlToken::new_end());
        assert_eq!(iter.next().unwrap(), &XmlToken::new_begin());
        assert_eq!(iter.next().unwrap(), &XmlToken::new_name("level".to_string()));
        assert_eq!(iter.next().unwrap(), &XmlToken::new_close());
        assert_eq!(iter.next().unwrap(), &XmlToken::new_end());
        assert_eq!(iter.next().unwrap(), &XmlToken::new_begin());
        assert_eq!(iter.next().unwrap(), &XmlToken::new_close());
        assert_eq!(iter.next().unwrap(), &XmlToken::new_name("element".to_string()));
        assert_eq!(iter.next().unwrap(), &XmlToken::new_end());
    }
}

#[test]
fn new_tokenizer_xml_full_element_with_attribute() {
    let (tokenizer, error) = "<element attribute=\"value\"/>".to_string().tokenize();
    assert!(error.is_none());
    assert_eq!(tokenizer.len(), 10);
    {
        let mut iter = tokenizer.iter();
        assert_eq!(iter.next().unwrap(), &XmlToken::new_begin());
        assert_eq!(iter.next().unwrap(), &XmlToken::new_name("element".to_string()));
        assert_eq!(iter.next().unwrap(), &XmlToken::Whitespace(WhitespaceKind::Space(1)));
        assert_eq!(iter.next().unwrap(), &XmlToken::new_name("attribute".to_string()));
        assert_eq!(iter.next().unwrap(), &XmlToken::new_assign());
        assert_eq!(iter.next().unwrap(), &XmlToken::new_quote());
        assert_eq!(iter.next().unwrap(), &XmlToken::new_value("value".to_string()));
        assert_eq!(iter.next().unwrap(), &XmlToken::new_quote());
        assert_eq!(iter.next().unwrap(), &XmlToken::new_close());
        assert_eq!(iter.next().unwrap(), &XmlToken::new_end());
    }
}

#[test]
fn new_tokenizer_xml_full_element_with_attribute_to_string() {
    let (tokenizer, error) = "<element attribute=\"value\"/>".to_string().tokenize();
    assert!(error.is_none());
    assert_eq!(tokenizer.len(), 10);
    let mut text = String::new();
    for token in tokenizer {
        text += &token.to_string();
    }
    assert_eq!(text, "<element attribute=\"value\"/>".to_string());
}
