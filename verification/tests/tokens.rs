//! End-to-end token streams.

use std::str;

use xml5::errors::Xml5Error;
use xml5::events::Token;
use xml5::Tokenizer;

fn collect(input: &str) -> Vec<Token> {
    let mut iter = Tokenizer::new().from_str_reader(input);
    let mut out = Vec::new();
    while let Some(t) = iter.next() {
        out.push(t);
    }
    out
}

fn collect_buffered(input: &str) -> Vec<Token> {
    let mut iter = Tokenizer::new().from_reader(input);
    let mut out = Vec::new();
    while let Some(t) = iter.next() {
        out.push(t);
    }
    out
}

#[test]
fn test_mini_part() {
    let tokenizer = Tokenizer::new();
    let mut iter = tokenizer.from_str_reader("<xml>test</xml>");
    let next = iter.next();
    assert_eq!(
        "xml",
        str::from_utf8(next.unwrap().get_name().unwrap()).unwrap()
    );
    let next = iter.next();
    assert_eq!(
        "test",
        str::from_utf8(next.unwrap().get_text().unwrap()).unwrap()
    );
    let next = iter.next();
    assert_eq!(
        "xml",
        str::from_utf8(next.unwrap().get_name().unwrap()).unwrap()
    );
}

#[test]
fn test_pi() {
    let tokenizer = Tokenizer::new();
    let mut iter = tokenizer.from_str_reader("<?target data?>");
    let next = iter.next();
    assert_eq!(
        "target",
        str::from_utf8(next.as_ref().unwrap().get_target().unwrap()).unwrap()
    );
    assert_eq!(
        "data",
        str::from_utf8(next.as_ref().unwrap().get_data().unwrap()).unwrap()
    );
}

#[test]
fn test_decl() {
    let tokenizer = Tokenizer::new();
    let mut iter = tokenizer.from_str_reader("<?xml encoding='utf8' ?>");
    let next = iter.next();
    assert_eq!(
        "encoding=\"utf8\"",
        str::from_utf8(next.as_ref().unwrap().get_declaration().unwrap()).unwrap()
    );
}

#[test]
fn empty_input_is_one_eof() {
    let toks = collect("");
    assert_eq!(toks.len(), 1);
    assert!(matches!(toks[0], Token::Eof));
}

#[test]
fn lone_open_angle() {
    let toks = collect("<");
    assert_eq!(toks.len(), 3);
    assert!(matches!(
        toks[0],
        Token::Error(Xml5Error::UnexpectedSymbolOrEof(None))
    ));
    assert_eq!(toks[1].get_text().unwrap(), b"<");
    assert!(matches!(toks[2], Token::Eof));
}

#[test]
fn short_end_tag() {
    let toks = collect("</>");
    assert_eq!(toks.len(), 2);
    assert_eq!(toks[0].get_name().unwrap(), b"");
    assert!(matches!(toks[0], Token::EndTag(_)));
    assert!(matches!(toks[1], Token::Eof));
}

#[test]
fn truncated_tag_reports_partial() {
    let toks = collect("<foo");
    assert_eq!(toks.len(), 3);
    assert!(matches!(toks[0], Token::Error(Xml5Error::EofInTag)));
    assert_eq!(toks[1].get_name().unwrap(), b"foo");
    assert!(matches!(toks[1], Token::StartTag(_)));
    assert!(matches!(toks[2], Token::Eof));
}

#[test]
fn truncated_tag_after_text() {
    let toks = collect("a<foo");
    assert_eq!(toks.len(), 4);
    assert_eq!(toks[0].get_text().unwrap(), b"a");
    assert!(matches!(toks[1], Token::Error(Xml5Error::EofInTag)));
    assert_eq!(toks[2].get_name().unwrap(), b"foo");
    assert!(matches!(toks[3], Token::Eof));
}

#[test]
fn comment_with_recovery() {
    let toks = collect("<!-->");
    assert_eq!(toks.len(), 3);
    assert!(matches!(
        toks[0],
        Token::Error(Xml5Error::AbruptClosingEmptyComment)
    ));
    match &toks[1] {
        Token::Comment(c) => assert!(c.is_empty()),
        other => panic!("expected a comment, got {:?}", other),
    }
    assert!(matches!(toks[2], Token::Eof));
}

#[test]
fn full_comment() {
    let toks = collect("<!-- hi -->");
    assert_eq!(toks.len(), 2);
    match &toks[0] {
        Token::Comment(c) => assert_eq!(c.name, b" hi ".to_vec()),
        other => panic!("expected a comment, got {:?}", other),
    }
}

#[test]
fn cdata_section() {
    let toks = collect("<a><![CDATA[x]]></a>");
    assert_eq!(toks.len(), 4);
    assert_eq!(toks[0].get_name().unwrap(), b"a");
    match &toks[1] {
        Token::CData(c) => assert_eq!(c.name, b"x".to_vec()),
        other => panic!("expected CDATA, got {:?}", other),
    }
    assert_eq!(toks[2].get_name().unwrap(), b"a");
    assert!(matches!(toks[3], Token::Eof));
}

#[test]
fn xml_declaration_captures_attributes() {
    let toks = collect("<?xml version=\"1.0\" encoding=\"utf-8\"?>");
    assert_eq!(toks.len(), 2);
    assert_eq!(
        toks[0].get_declaration().unwrap(),
        b"version=\"1.0\" encoding=\"utf-8\""
    );
    assert!(matches!(toks[1], Token::Eof));
}

#[test]
fn doctype_name_is_lowercased() {
    let toks = collect("<!DOCTYPE HTML>");
    assert_eq!(toks.len(), 2);
    match &toks[0] {
        Token::DocType(d) => {
            assert_eq!(d.name, b"html".to_vec());
            assert!(d.public_id.is_none());
            assert!(d.system_id.is_none());
        }
        other => panic!("expected a doctype, got {:?}", other),
    }
}

#[test]
fn doctype_with_public_and_system() {
    let toks = collect("<!DOCTYPE html PUBLIC \"id\" \"url\">");
    assert_eq!(toks.len(), 2);
    match &toks[0] {
        Token::DocType(d) => {
            assert_eq!(d.name, b"html".to_vec());
            assert_eq!(d.public_id.as_ref().unwrap(), &b"id".to_vec());
            assert_eq!(d.system_id.as_ref().unwrap(), &b"url".to_vec());
        }
        other => panic!("expected a doctype, got {:?}", other),
    }
}

#[test]
fn self_closing_tag() {
    let toks = collect("<br/>");
    assert_eq!(toks.len(), 2);
    match &toks[0] {
        Token::EmptyTag(t) => {
            assert_eq!(t.name, b"br".to_vec());
            assert!(t.self_closing);
        }
        other => panic!("expected an empty tag, got {:?}", other),
    }
}

#[test]
fn attributes_are_collected() {
    let toks = collect("<a href=\"x\" id='y'>");
    match &toks[0] {
        Token::StartTag(t) => {
            assert_eq!(t.name, b"a".to_vec());
            assert_eq!(t.attrs.len(), 2);
            assert_eq!(t.attrs[0].0, b"href".to_vec());
            assert_eq!(t.attrs[0].1, b"x".to_vec());
            assert_eq!(t.attrs[1].0, b"id".to_vec());
            assert_eq!(t.attrs[1].1, b"y".to_vec());
        }
        other => panic!("expected a start tag, got {:?}", other),
    }
}

#[test]
fn duplicate_attribute_is_dropped_and_reported() {
    let toks = collect("<a x=\"1\" x=\"2\">");
    assert!(matches!(
        toks[0],
        Token::Error(Xml5Error::DuplicateAttribute)
    ));
    match &toks[1] {
        Token::StartTag(t) => {
            assert_eq!(t.attrs.len(), 1);
            assert_eq!(t.attrs[0].1, b"1".to_vec());
        }
        other => panic!("expected a start tag, got {:?}", other),
    }
}

#[test]
fn no_two_adjacent_text_tokens() {
    let toks = collect("a&b<c>d&e</c>");
    for w in toks.windows(2) {
        assert!(!(matches!(w[0], Token::Text(_)) && matches!(w[1], Token::Text(_))));
    }
}

#[test]
fn exactly_one_eof_and_it_is_last() {
    for input in ["", "<", "<a>", "<foo", "a<!--x", "<?p d?>x"] {
        let toks = collect(input);
        let eofs = toks
            .iter()
            .filter(|t| matches!(t, Token::Eof))
            .count();
        assert_eq!(eofs, 1, "input {:?}", input);
        assert!(matches!(toks.last().unwrap(), Token::Eof));
    }
}

#[test]
fn slice_and_buffered_readers_agree() {
    for input in [
        "",
        "<xml>test</xml>",
        "<?xml version=\"1.0\"?>",
        "<a x=1 y=2>text<!--c--><![CDATA[d]]></a>",
        "<!DOCTYPE html PUBLIC \"p\" \"s\">",
        "<foo",
        "a&b",
        "<!-->",
    ] {
        assert_eq!(collect(input), collect_buffered(input), "input {:?}", input);
    }
}

#[test]
fn colon_before_attribute_name() {
    let toks = collect("<a :b=\"c\">");
    assert!(toks
        .iter()
        .any(|t| matches!(t, Token::Error(Xml5Error::ColonBeforeAttrName))));
}

#[test]
fn greater_than_in_comment() {
    let toks = collect("<!--a--!>");
    assert!(toks
        .iter()
        .any(|t| matches!(t, Token::Error(Xml5Error::GreaterThanInComment))));
}

#[test]
fn incorrectly_opened_comment() {
    let toks = collect("<!x>");
    assert!(matches!(
        toks[0],
        Token::Error(Xml5Error::IncorrectlyOpenedComment)
    ));
    assert!(matches!(toks[1], Token::Comment(_)));
}

#[test]
fn missing_whitespace_before_doctype_name() {
    let toks = collect("<!DOCTYPEhtml>");
    assert!(matches!(
        toks[0],
        Token::Error(Xml5Error::MissingWhitespaceDoctype)
    ));
}

#[test]
fn truncated_comment_reports_partial() {
    let toks = collect("<!--abc");
    assert_eq!(toks.len(), 3);
    assert!(matches!(toks[0], Token::Error(Xml5Error::EofInComment)));
    match &toks[1] {
        Token::Comment(c) => assert_eq!(c.name, b"abc".to_vec()),
        other => panic!("expected a comment, got {:?}", other),
    }
    assert!(matches!(toks[2], Token::Eof));
}

#[test]
fn truncated_pi_reports_partial() {
    let toks = collect("<?t d");
    assert!(matches!(toks[0], Token::Error(Xml5Error::UnexpectedEof)));
    assert!(matches!(toks[1], Token::PI(_)));
    assert!(matches!(toks[2], Token::Eof));
}

#[test]
fn truncated_doctype_reports_partial() {
    let toks = collect("<!DOCTYPE ht");
    assert!(matches!(toks[0], Token::Error(Xml5Error::EofInDoctype)));
    assert!(matches!(toks[1], Token::DocType(_)));
    assert!(matches!(toks[2], Token::Eof));
}

#[test]
fn truncated_cdata_reports_partial() {
    let toks = collect("<![CDATA[xy");
    assert!(matches!(toks[0], Token::Error(Xml5Error::EofInCdata)));
    match &toks[1] {
        Token::CData(c) => assert_eq!(c.name, b"xy".to_vec()),
        other => panic!("expected CDATA, got {:?}", other),
    }
    assert!(matches!(toks[2], Token::Eof));
}

#[test]
fn character_reference_stays_literal() {
    let toks = collect("a&amp;b");
    assert_eq!(toks[0].get_text().unwrap(), b"a&amp;b");
}
