use xml_lexer::attribute::XmlAttribute;

#[test]
fn new_attribute() {
    let attribute = XmlAttribute::new("name".to_string(), "value".to_string()).unwrap();
    assert_eq!(attribute.name, "name");
    assert_eq!(attribute.value, "value");
}

#[test]
fn display_attribute() {
    let attribute = XmlAttribute::new("name".to_string(), "value".to_string()).unwrap();
    assert_eq!("name=\"value\"".to_owned(), attribute.to_string());
}
