//! The tokens the tokenizer delivers, with owned byte payloads.

use vstd::prelude::*;

use crate::decoding::Decoder;
use crate::errors::Xml5Error;
use crate::model::TokenV;

verus! {

/// Bytes together with the decoder that applies to them.
#[derive(Clone, Debug, PartialEq, Eq)]
pub struct EncodedText {
    pub buf: Vec<u8>,
    pub decoder: Decoder,
}

/// A tag name with its attribute list.
#[derive(Clone, Debug, PartialEq, Eq)]
pub struct TagAndAttrText {
    pub name: Vec<u8>,
    pub attrs: Vec<(Vec<u8>, Vec<u8>)>,
    pub self_closing: bool,
}

/// A single byte-sequence payload.
#[derive(Clone, Debug, PartialEq, Eq, Default)]
pub struct BytesText {
    pub name: Vec<u8>,
}

impl BytesText {
    pub fn is_empty(&self) -> (r: bool)
        ensures
            r <==> self.name@.len() == 0,
    {
        self.name.len() == 0
    }
}

/// A processing instruction's target and data.
#[derive(Clone, Debug, PartialEq, Eq)]
pub struct PiText {
    pub target: Vec<u8>,
    pub data: Vec<u8>,
}

impl PiText {
    pub fn get_target(&self) -> (r: &Vec<u8>)
        ensures
            r@ == self.target@,
    {
        &self.target
    }

    pub fn get_data(&self) -> (r: &Vec<u8>)
        ensures
            r@ == self.data@,
    {
        &self.data
    }
}

/// A doctype's name and its PUBLIC and SYSTEM identifiers, when present.
#[derive(Clone, Debug, PartialEq, Eq)]
pub struct DocTypeText {
    pub name: Vec<u8>,
    pub public_id: Option<Vec<u8>>,
    pub system_id: Option<Vec<u8>>,
}

/// A token of the stream.
#[derive(Clone, Debug, PartialEq, Eq)]
pub enum Token {
    /// A byte-order mark, with the decoder it announces.
    Bom(EncodedText),
    /// Character data between markup.
    Text(BytesText),
    /// Start tag `<tag attr="value">`.
    StartTag(TagAndAttrText),
    /// End tag `</tag>`; an empty name is the short end tag `</>`.
    EndTag(BytesText),
    /// Self-closed tag `<tag attr="value"/>`.
    EmptyTag(TagAndAttrText),
    /// Comment `<!-- ... -->`.
    Comment(BytesText),
    /// CData section `<![CDATA[...]]>`.
    CData(BytesText),
    /// XML declaration `<?xml ...?>`; the payload carries the captured
    /// attributes rendered as `name="value"`, separated by single spaces.
    Declaration(BytesText),
    /// Processing instruction `<?target data?>`.
    PI(PiText),
    /// Doctype `<!DOCTYPE ...>`.
    DocType(DocTypeText),
    /// End of the document; emitted exactly once, as the last token.
    Eof,
    /// An in-band error report.
    Error(Xml5Error),
}

pub open spec fn attrs_v(attrs: Seq<(Vec<u8>, Vec<u8>)>) -> Seq<(Seq<u8>, Seq<u8>)> {
    attrs.map_values(|p: (Vec<u8>, Vec<u8>)| (p.0@, p.1@))
}

impl View for Token {
    type V = TokenV;

    open spec fn view(&self) -> TokenV {
        match self {
            Token::Bom(t) => TokenV::Bom(t.buf@),
            Token::Text(t) => TokenV::Text(t.name@),
            Token::StartTag(t) => TokenV::StartTag {
                name: t.name@,
                attrs: attrs_v(t.attrs@),
                self_closing: t.self_closing,
            },
            Token::EndTag(t) => TokenV::EndTag(t.name@),
            Token::EmptyTag(t) => TokenV::StartTag {
                name: t.name@,
                attrs: attrs_v(t.attrs@),
                self_closing: t.self_closing,
            },
            Token::Comment(t) => TokenV::Comment(t.name@),
            Token::CData(t) => TokenV::CData(t.name@),
            Token::Declaration(t) => TokenV::Decl(t.name@),
            Token::PI(t) => TokenV::Pi { target: t.target@, data: t.data@ },
            Token::DocType(t) => TokenV::DocType {
                name: t.name@,
                public_id: match t.public_id {
                    Some(v) => Some(v@),
                    None => None,
                },
                system_id: match t.system_id {
                    Some(v) => Some(v@),
                    None => None,
                },
            },
            Token::Eof => TokenV::Eof,
            Token::Error(e) => TokenV::Error(*e),
        }
    }
}

impl Token {
    /// A start tag token; not self-closing.
    pub fn start_tag(name: Vec<u8>, attrs: Vec<(Vec<u8>, Vec<u8>)>) -> (r: Token)
        ensures
            r == Token::StartTag(TagAndAttrText { name, attrs, self_closing: false }),
    {
        Token::StartTag(TagAndAttrText { name, attrs, self_closing: false })
    }

    /// A self-closed tag token.
    pub fn empty_tag(name: Vec<u8>, attrs: Vec<(Vec<u8>, Vec<u8>)>) -> (r: Token)
        ensures
            r == Token::EmptyTag(TagAndAttrText { name, attrs, self_closing: true }),
    {
        Token::EmptyTag(TagAndAttrText { name, attrs, self_closing: true })
    }

    /// An end tag token.
    pub fn end_tag(name: Vec<u8>) -> (r: Token)
        ensures
            r == Token::EndTag(BytesText { name }),
    {
        Token::EndTag(BytesText { name })
    }

    /// A processing instruction token.
    pub fn pi_tag(data: Vec<u8>, target: Vec<u8>) -> (r: Token)
        ensures
            r == Token::PI(PiText { data, target }),
    {
        Token::PI(PiText { data, target })
    }

    /// A comment token.
    pub fn comment(name: Vec<u8>) -> (r: Token)
        ensures
            r == Token::Comment(BytesText { name }),
    {
        Token::Comment(BytesText { name })
    }

    /// An XML declaration token.
    pub fn declaration(text: Vec<u8>) -> (r: Token)
        ensures
            r == Token::Declaration(BytesText { name: text }),
    {
        Token::Declaration(BytesText { name: text })
    }

    /// A CData token.
    pub fn cdata(text: Vec<u8>) -> (r: Token)
        ensures
            r == Token::CData(BytesText { name: text }),
    {
        Token::CData(BytesText { name: text })
    }

    /// The short end tag `</>`: an end tag with an empty name, closing the
    /// innermost open element.
    pub fn auto_close_tag() -> (r: Token)
        ensures
            r is EndTag,
            r@ == TokenV::EndTag(Seq::<u8>::empty()),
    {
        let t = Token::EndTag(BytesText { name: Vec::new() });
        proof {
            assert(t@->EndTag_0 =~= Seq::<u8>::empty());
        }
        t
    }

    /// A text token.
    pub fn text(text: Vec<u8>) -> (r: Token)
        ensures
            r == Token::Text(BytesText { name: text }),
    {
        Token::Text(BytesText { name: text })
    }

    /// An error token.
    pub fn error(err: Xml5Error) -> (r: Token)
        ensures
            r == Token::Error(err),
    {
        Token::Error(err)
    }

    /// The tag name, for start, empty and end tags.
    pub fn get_name(&self) -> (r: Option<&Vec<u8>>)
        ensures
            match self {
                Token::StartTag(t) => r == Some(&t.name),
                Token::EmptyTag(t) => r == Some(&t.name),
                Token::EndTag(t) => r == Some(&t.name),
                _ => r is None,
            },
    {
        match self {
            Token::StartTag(t) => Some(&t.name),
            Token::EmptyTag(t) => Some(&t.name),
            Token::EndTag(t) => Some(&t.name),
            _ => None,
        }
    }

    /// The target of a processing instruction.
    pub fn get_target(&self) -> (r: Option<&Vec<u8>>)
        ensures
            match self {
                Token::PI(t) => r == Some(&t.target),
                _ => r is None,
            },
    {
        match self {
            Token::PI(t) => Some(&t.target),
            _ => None,
        }
    }

    /// The data of a processing instruction.
    pub fn get_data(&self) -> (r: Option<&Vec<u8>>)
        ensures
            match self {
                Token::PI(t) => r == Some(&t.data),
                _ => r is None,
            },
    {
        match self {
            Token::PI(t) => Some(&t.data),
            _ => None,
        }
    }

    /// The payload of a text or CData token.
    pub fn get_text(&self) -> (r: Option<&Vec<u8>>)
        ensures
            match self {
                Token::Text(t) => r == Some(&t.name),
                Token::CData(t) => r == Some(&t.name),
                _ => r is None,
            },
    {
        match self {
            Token::Text(t) => Some(&t.name),
            Token::CData(t) => Some(&t.name),
            _ => None,
        }
    }

    /// The payload of an XML declaration token.
    pub fn get_declaration(&self) -> (r: Option<&Vec<u8>>)
        ensures
            match self {
                Token::Declaration(t) => r == Some(&t.name),
                _ => r is None,
            },
    {
        match self {
            Token::Declaration(t) => Some(&t.name),
            _ => None,
        }
    }
}

} // verus!
