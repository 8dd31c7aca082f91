use xml_tokenizer::{
    consume_comment, consume_name, consume_processing_instruction, consume_tag_attribute, consume_value,
    consume_white_spaces, ErrorKind, ParseError, Token, XmlChars,
};

#[test]
fn test_consume_pi_fail_no_name() {
    let mut contents = XmlChars::new(
        r#"<? target instruction instruction   ?>
        "#,
    );
    contents.next();
    let mut tokens = vec![];

    let r = consume_processing_instruction(&mut contents, &mut tokens);

    assert_eq!(Err(ParseError { kind: ErrorKind::MalformedName, offset: 2 }), r);
}

#[test]
fn test_consume_pi_1() {
    let mut contents = XmlChars::new(
        r#"<?target instruction instruction   ?>
        "#,
    );
    contents.next();
    let mut tokens = vec![];

    consume_processing_instruction(&mut contents, &mut tokens).unwrap();

    assert_eq!(
        vec![Token::ProcessingInstruction {
            name: "target".to_string(),
            content: " instruction instruction   ".to_string(),
        }],
        tokens
    );
}

#[test]
fn test_consume_prolog_1() {
    let mut contents = XmlChars::new(
        r#"<?xml 
             version="2.0" 

             standalone="test"

             attr1
attr2="with value"
              ?>
        "#,
    );
    contents.next();
    let mut tokens = vec![];

    consume_processing_instruction(&mut contents, &mut tokens).unwrap();

    assert_eq!(
        vec![Token::Prolog {
            encoding: "UTF-8".to_string(),
            version: "2.0".to_string(),
            standalone: false,
        }],
        tokens
    );
}

#[test]
fn test_consume_prolog_2() {
    let mut contents = XmlChars::new(
        r#"<?xml 
             version="1.0"             encoding="UTF-8" ?>
        "#,
    );
    contents.next();
    let mut tokens = vec![];

    consume_processing_instruction(&mut contents, &mut tokens).unwrap();

    assert_eq!(
        vec![Token::Prolog {
            encoding: "UTF-8".to_string(),
            version: "1.0".to_string(),
            standalone: true,
        }],
        tokens
    );
}

#[test]
fn test_consume_tag_attribute_1() {
    let mut contents = XmlChars::new(r#"a-namespace:b-attribute="c-va\"lue" "#);
    contents.next();
    let mut tokens = vec![];

    consume_tag_attribute(&mut contents, &mut tokens).unwrap();

    assert_eq!(
        vec![Token::Attr {
            ns: Some("a-namespace".to_string()),
            name: "b-attribute".to_string(),
            value: Some("c-va\\\"lue".to_string())
        }],
        tokens
    );
}

#[test]
fn test_consume_value_1() {
    let mut contents = XmlChars::new("\"b-value\"");
    contents.next();

    let value = consume_value(&mut contents).unwrap();

    assert_eq!("b-value".to_string(), value);
}

#[test]
fn test_consume_value_2() {
    let mut contents = XmlChars::new(r#""b\"test""#);
    contents.next();

    let value = consume_value(&mut contents).unwrap();

    assert_eq!("b\\\"test".to_string(), value);
}

#[test]
fn test_consume_name_1() {
    let mut contents = XmlChars::new(r#"a-attribute="b-value"#);
    contents.next();

    let (ns, name) = consume_name(&mut contents).unwrap();

    assert_eq!(None, ns);
    assert_eq!("a-attribute".to_string(), name);
}

#[test]
fn test_consume_name_2() {
    let mut contents = XmlChars::new(r#"a-namespace:b-attribute="c-value"#);
    contents.next();

    let (ns, name) = consume_name(&mut contents).unwrap();

    assert_eq!(Some("a-namespace".to_string()), ns);
    assert_eq!("b-attribute".to_string(), name);
}

#[test]
fn test_consume_whites_paces() {
    let mut contents = XmlChars::new(" a");
    contents.next();

    consume_white_spaces(&mut contents);

    assert_eq!(Some('a'), contents.current());
}

#[test]
fn test_consume_tag_comment_1() {
    let mut contents = XmlChars::new("<!--xxx xxx-->");
    contents.next();
    contents.next();
    let mut tokens = vec![];

    consume_comment(&mut contents, &mut tokens).unwrap();

    assert_eq!(vec![Token::Comment("xxx xxx".to_string())], tokens);
}

#[test]
fn test_consume_tag_comment_bad_format_1() {
    let mut contents = XmlChars::new("<! -- -->");
    contents.next();
    contents.next();
    let mut tokens = vec![];

    let r = consume_comment(&mut contents, &mut tokens);

    assert_eq!(Err(ParseError { kind: ErrorKind::MalformedName, offset: 2 }), r);
}

#[test]
fn test_consume_tag_comment_bad_format_2() {
    let mut contents = XmlChars::new("<!-- - ->");
    contents.next();
    contents.next();
    let mut tokens = vec![];

    let r = consume_comment(&mut contents, &mut tokens);

    assert_eq!(Err(ParseError { kind: ErrorKind::MalformedCommentEnd, offset: 8 }), r);
}
