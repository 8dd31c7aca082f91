use xml_tokenizer::{
    consume_tag_attribute, is_illegal, parse, ErrorKind, ParseError, Token, XmlChars,
};

fn s(v: &str) -> String {
    v.to_string()
}

fn err(kind: ErrorKind, offset: usize) -> Result<Vec<Token>, ParseError> {
    Err(ParseError { kind, offset })
}

#[test]
fn prolog_with_defaults_spelled_out() {
    let r = parse(r#"<?xml version="1.0" encoding="UTF-8"?>"#);
    assert_eq!(
        Ok(vec![Token::Prolog { version: s("1.0"), encoding: s("UTF-8"), standalone: true }]),
        r
    );
}

#[test]
fn prolog_standalone_other_than_true_is_false() {
    let r = parse(r#"<?xml version="2.0" standalone="test"?>"#);
    assert_eq!(
        Ok(vec![Token::Prolog { version: s("2.0"), encoding: s("UTF-8"), standalone: false }]),
        r
    );
}

#[test]
fn prolog_standalone_true_and_valueless() {
    let r = parse(r#"<?xml standalone="true"?>"#);
    assert_eq!(
        Ok(vec![Token::Prolog { version: s("1.0"), encoding: s("UTF-8"), standalone: true }]),
        r
    );
    let r = parse(r#"<?xml standalone?>"#);
    assert_eq!(
        Ok(vec![Token::Prolog { version: s("1.0"), encoding: s("UTF-8"), standalone: false }]),
        r
    );
}

#[test]
fn prolog_ignores_prefixed_attributes() {
    let r = parse(r#"<?xml x:version="9.9" encoding="latin1"?>"#);
    assert_eq!(
        Ok(vec![Token::Prolog { version: s("1.0"), encoding: s("latin1"), standalone: true }]),
        r
    );
}

#[test]
fn processing_instruction_content_is_raw() {
    let r = parse("<?target some content?>");
    assert_eq!(
        Ok(vec![Token::ProcessingInstruction { name: s("target"), content: s(" some content") }]),
        r
    );
}

#[test]
fn comment_content() {
    assert_eq!(Ok(vec![Token::Comment(s("xxx xxx"))]), parse("<!--xxx xxx-->"));
}

#[test]
fn comment_keeps_dashes_that_do_not_close() {
    assert_eq!(Ok(vec![Token::Comment(s("a-b--c"))]), parse("<!--a-b--c-->"));
}

#[test]
fn comment_single_dash_before_close_fails() {
    assert_eq!(err(ErrorKind::MalformedCommentEnd, 8), parse("<!-- - ->"));
}

#[test]
fn comment_three_dashes_before_close_fails() {
    assert_eq!(err(ErrorKind::MalformedCommentEnd, 8), parse("<!--x--->"));
}

#[test]
fn comment_one_dash_opening_fails() {
    assert_eq!(err(ErrorKind::MalformedComment, 3), parse("<!-x-->"));
}

#[test]
fn attribute_escaped_quote_kept_verbatim() {
    let r = parse(r#"<e a-namespace:b-attribute="c-va\"lue"/>"#);
    assert_eq!(
        Ok(vec![
            Token::Start { ns: None, name: s("e") },
            Token::Attr {
                ns: Some(s("a-namespace")),
                name: s("b-attribute"),
                value: Some(s("c-va\\\"lue")),
            },
            Token::End { ns: None, name: s("e") },
        ]),
        r
    );
}

#[test]
fn attribute_name_at_end_of_input_fails() {
    let mut contents = XmlChars::new("abc");
    contents.next();
    let mut tokens = vec![];
    let r = consume_tag_attribute(&mut contents, &mut tokens);
    assert_eq!(Err(ParseError { kind: ErrorKind::UnexpectedEndOfInput, offset: 3 }), r);
    assert!(tokens.is_empty());
    assert_eq!(err(ErrorKind::UnexpectedEndOfInput, 4), parse("<a b"));
}

#[test]
fn tokenizing_twice_gives_the_same_tokens() {
    let text = r#"<?xml version="1.0"?><!DOCTYPE r><r a="1">t<!--c--><s/></r>"#;
    let first = parse(text);
    let second = parse(text);
    assert!(first.is_ok());
    assert_eq!(first, second);
}

#[test]
fn nesting_order_is_preserved() {
    let r = parse("<a><b/>t</a>");
    assert_eq!(
        Ok(vec![
            Token::Start { ns: None, name: s("a") },
            Token::Start { ns: None, name: s("b") },
            Token::End { ns: None, name: s("b") },
            Token::Text(s("t")),
            Token::End { ns: None, name: s("a") },
        ]),
        r
    );
}

#[test]
fn text_runs_and_namespaced_tags() {
    let r = parse("hello <x:b k>y</x:b >");
    assert_eq!(
        Ok(vec![
            Token::Text(s("hello ")),
            Token::Start { ns: Some(s("x")), name: s("b") },
            Token::Attr { ns: None, name: s("k"), value: None },
            Token::Text(s("y")),
            Token::End { ns: Some(s("x")), name: s("b") },
        ]),
        r
    );
}

#[test]
fn empty_input_gives_no_tokens() {
    assert_eq!(Ok(vec![]), parse(""));
}

#[test]
fn doctype_with_url_and_internal_subset() {
    let r = parse(r#"<!DOCTYPE html "about:legacy" [<!ENTITY x "y">]>"#);
    assert_eq!(
        Ok(vec![Token::DocType {
            name: s("html"),
            content: Some(s(r#"<!ENTITY x "y">"#)),
            url: Some(s("about:legacy")),
        }]),
        r
    );
}

#[test]
fn doctype_bare_with_prefixed_root() {
    let r = parse("<!DOCTYPE svg:svg>");
    assert_eq!(Ok(vec![Token::DocType { name: s("svg:svg"), content: None, url: None }]), r);
}

#[test]
fn doctype_wrong_keyword_fails() {
    assert_eq!(err(ErrorKind::MalformedXml, 5), parse("<!FOO x>"));
}

#[test]
fn namespaced_pi_target_fails() {
    assert_eq!(err(ErrorKind::MalformedProcessingInstruction, 5), parse("<?a:b c?>"));
}

#[test]
fn pi_question_mark_without_close_fails() {
    assert_eq!(err(ErrorKind::MalformedPrologEnd, 6), parse("<?a b?x"));
}

#[test]
fn unquoted_attribute_value_fails() {
    assert_eq!(err(ErrorKind::UnboundedAttributeValue, 5), parse("<a b=c>"));
}

#[test]
fn slash_not_closing_tag_fails() {
    assert_eq!(err(ErrorKind::MalformedTag, 3), parse("<a/x>"));
}

#[test]
fn second_namespace_separator_fails() {
    assert_eq!(err(ErrorKind::MalformedName, 4), parse("<a:b:c/>"));
}

#[test]
fn illegal_character_in_name_fails() {
    assert_eq!(err(ErrorKind::MalformedName, 2), parse("<a$b/>"));
    assert!(is_illegal(&'['));
    assert!(!is_illegal(&'-'));
}

#[test]
fn unterminated_constructs_fail_at_end() {
    assert_eq!(err(ErrorKind::UnexpectedEndOfInput, 2), parse("<a"));
    assert_eq!(err(ErrorKind::UnexpectedEndOfInput, 7), parse("<!--abc"));
    assert_eq!(err(ErrorKind::UnexpectedEndOfInput, 7), parse(r#"<a b="c"#));
    assert_eq!(err(ErrorKind::UnexpectedEndOfInput, 1), parse("<"));
}

#[test]
fn cursor_reads_one_character_at_a_time() {
    let mut c = XmlChars::new("ab");
    assert_eq!(None, c.current());
    assert_eq!(Some('a'), c.next());
    assert_eq!(Some('a'), c.current());
    assert_eq!(Some('b'), c.next());
    assert_eq!(None, c.next());
    assert_eq!(None, c.next());
    assert_eq!(None, c.current());
}

#[test]
fn fragments_joined_at_markup_tokenize_as_their_parts() {
    let x = r#"<a k="v">"#;
    let y = "<b/>text";
    let z = "</a>";
    let whole = parse(&format!("{}{}{}", x, y, z)).unwrap();
    let mut parts = parse(x).unwrap();
    parts.extend(parse(y).unwrap());
    parts.extend(parse(z).unwrap());
    assert_eq!(parts, whole);
    assert_eq!(6, whole.len());
}
