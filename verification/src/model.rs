//! The mathematical model of the tokenizer's output: tokens with their
//! payloads materialized to byte sequences, the in-flight token being built,
//! and the well-formedness of an emitted token stream.

use vstd::prelude::*;

use crate::errors::is_truncation_error;
use crate::errors::Xml5Error;

verus! {

/// Which doctype identifier a verb applies to: the PUBLIC or the SYSTEM one.
#[derive(Clone, Copy, Debug, PartialEq, Eq, Structural)]
pub enum DoctypeKind {
    Public,
    System,
}

/// The kind of the in-flight token being accumulated by the emitter.
#[derive(Clone, Copy, Debug, PartialEq, Eq, Structural)]
pub enum CurrentToken {
    NoToken,
    StartTag,
    EndTag,
    ProcessingInstruction,
    Doctype,
    Comment,
    CData,
    Decl,
}

/// The attribute names an XML declaration may carry.
#[derive(Clone, Copy, Debug, PartialEq, Eq, Structural)]
pub enum XmlDeclAttr {
    Version,
    Encoding,
    Standalone,
}

/// A token with every payload materialized to the bytes it stands for.
/// This is the reader-independent view of the tokenizer's output: it does
/// not mention backing buffers or span ranges.
#[verifier::ext_equal]
pub ghost enum TokenV {
    Text(Seq<u8>),
    CData(Seq<u8>),
    Comment(Seq<u8>),
    Decl(Seq<u8>),
    StartTag { name: Seq<u8>, attrs: Seq<(Seq<u8>, Seq<u8>)>, self_closing: bool },
    EndTag(Seq<u8>),
    Pi { target: Seq<u8>, data: Seq<u8> },
    DocType { name: Seq<u8>, public_id: Option<Seq<u8>>, system_id: Option<Seq<u8>> },
    Bom(Seq<u8>),
    Error(Xml5Error),
    Eof,
}

/// A construct token: one that carries the material of a single syntactic
/// construct. These are the tokens that can be emitted partially when the
/// input ends inside the construct.
pub open spec fn is_construct_token(t: TokenV) -> bool {
    ||| t is StartTag
    ||| t is EndTag
    ||| t is Pi
    ||| t is DocType
    ||| t is Comment
    ||| t is CData
    ||| t is Decl
}

/// Well-formedness of an emitted token stream:
/// - every `Text` token is non-empty;
/// - no two consecutive `Text` tokens;
/// - `Eof` appears only as the last token, so nothing follows it;
/// - every truncation error is immediately followed by exactly one partial
///   construct token and then by `Eof`.
pub open spec fn stream_wf(s: Seq<TokenV>) -> bool {
    &&& (forall|i: int| 0 <= i < s.len() && #[trigger] s[i] is Text ==> s[i]->Text_0.len() > 0)
    &&& (forall|i: int|
        1 <= i < s.len() ==> !(s[i - 1] is Text && #[trigger] s[i] is Text))
    &&& (forall|i: int| 0 <= i < s.len() && #[trigger] s[i] is Eof ==> i == s.len() - 1)
    &&& (forall|i: int|
        0 <= i < s.len() && #[trigger] s[i] is Error && is_truncation_error(s[i]->Error_0)
            ==> i + 2 < s.len())
    &&& (forall|i: int|
        1 <= i < s.len() && s[i - 1] is Error && is_truncation_error(s[i - 1]->Error_0)
            ==> is_construct_token(#[trigger] s[i]))
    &&& (forall|i: int|
        2 <= i < s.len() && s[i - 2] is Error && is_truncation_error(s[i - 2]->Error_0)
            ==> (#[trigger] s[i]) is Eof)
}

/// The in-flight token being accumulated, with all material materialized to
/// bytes. `name` holds the primary material of the construct (tag name, PI
/// data, comment body, CDATA body, declaration body, doctype name);
/// `target` holds the PI target.
#[verifier::ext_equal]
pub ghost struct InflightV {
    pub kind: CurrentToken,
    pub name: Seq<u8>,
    pub target: Seq<u8>,
    pub attrs: Seq<(Seq<u8>, Seq<u8>)>,
    pub attr_name: Seq<u8>,
    pub attr_value: Seq<u8>,
    pub attr_open: bool,
    pub self_closing: bool,
    pub public_id: Option<Seq<u8>>,
    pub system_id: Option<Seq<u8>>,
    pub id_kind: DoctypeKind,
    pub text: Seq<u8>,
}

/// The in-flight state with nothing accumulated.
pub open spec fn empty_inflight() -> InflightV {
    InflightV {
        kind: CurrentToken::NoToken,
        name: Seq::empty(),
        target: Seq::empty(),
        attrs: Seq::empty(),
        attr_name: Seq::empty(),
        attr_value: Seq::empty(),
        attr_open: false,
        self_closing: false,
        public_id: None,
        system_id: None,
        id_kind: DoctypeKind::Public,
        text: Seq::empty(),
    }
}

/// The token that emitting the in-flight state yields, partial or complete.
pub open spec fn partial_v(cur: InflightV) -> TokenV {
    match cur.kind {
        CurrentToken::StartTag => TokenV::StartTag {
            name: cur.name,
            attrs: cur.attrs,
            self_closing: cur.self_closing,
        },
        CurrentToken::EndTag => TokenV::EndTag(cur.name),
        CurrentToken::ProcessingInstruction => TokenV::Pi { target: cur.target, data: cur.name },
        CurrentToken::Doctype => TokenV::DocType {
            name: cur.name,
            public_id: cur.public_id,
            system_id: cur.system_id,
        },
        CurrentToken::Comment => TokenV::Comment(cur.name),
        CurrentToken::CData => TokenV::CData(cur.name),
        CurrentToken::Decl => TokenV::Decl(cur.name),
        CurrentToken::NoToken => TokenV::Eof,
    }
}

/// The tokens that flushing the pending text produces: one `Text` token when
/// the pending text is non-empty, nothing otherwise.
pub open spec fn flush_out(text: Seq<u8>) -> Seq<TokenV> {
    if text.len() > 0 {
        seq![TokenV::Text(text)]
    } else {
        Seq::empty()
    }
}

/// A stream that has not ended yet: well formed, and not closed by `Eof`.
pub open spec fn stream_open(s: Seq<TokenV>) -> bool {
    &&& stream_wf(s)
    &&& (s.len() > 0 ==> !(s.last() is Eof))
    &&& (s.len() > 0 ==> !(s.last() is Text))
}

/// An open stream holds no `Eof` and no unresolved truncation error.
pub proof fn lemma_stream_open_facts(s: Seq<TokenV>)
    requires
        stream_open(s),
    ensures
        forall|i: int| 0 <= i < s.len() ==> !(#[trigger] s[i] is Eof),
        forall|i: int|
            0 <= i < s.len() ==> !(#[trigger] s[i] is Error && is_truncation_error(
                s[i]->Error_0,
            )),
{
    assert forall|i: int| 0 <= i < s.len() implies !(#[trigger] s[i] is Eof) by {
        if s[i] is Eof {
            assert(i == s.len() - 1);
        }
    }
    assert forall|i: int| 0 <= i < s.len() implies !(#[trigger] s[i] is Error
        && is_truncation_error(s[i]->Error_0)) by {
        if s[i] is Error && is_truncation_error(s[i]->Error_0) {
            assert(s[i + 2] is Eof);
        }
    }
}

/// Flushing pending text and then emitting one ordinary token (not text, not
/// `Eof`, not a truncation error) keeps the stream open.
pub proof fn lemma_stream_push(s: Seq<TokenV>, text: Seq<u8>, t: TokenV)
    requires
        stream_open(s),
        !(t is Text),
        !(t is Eof),
        t is Error ==> !is_truncation_error(t->Error_0),
    ensures
        stream_open(s + flush_out(text) + seq![t]),
{
    lemma_stream_open_facts(s);
    let s2 = s + flush_out(text) + seq![t];
    assert forall|i: int| 0 <= i < s2.len() && #[trigger] s2[i] is Text implies s2[i]->Text_0.len()
        > 0 by {
        if i < s.len() {
            assert(s2[i] == s[i]);
        } else if i < s.len() + flush_out(text).len() {
            assert(s2[i] == flush_out(text)[i - s.len()]);
        } else {
            assert(s2[i] == t);
        }
    }
    assert forall|i: int| 0 <= i && i + 1 < s2.len() implies !(#[trigger] s2[i] is Text && s2[i
        + 1] is Text) by {
        if i + 1 < s.len() {
            assert(s2[i] == s[i] && s2[i + 1] == s[i + 1]);
        } else if i < s.len() {
            assert(s2[i] == s[i]);
        } else if i < s.len() + flush_out(text).len() {
            assert(s2[i + 1] == t);
        }
    }
    assert forall|i: int| 0 <= i < s2.len() && #[trigger] s2[i] is Eof implies i == s2.len()
        - 1 by {
        if i < s.len() {
            assert(s2[i] == s[i]);
        } else if i < s.len() + flush_out(text).len() {
            assert(s2[i] is Text);
        }
    }
    assert forall|i: int|
        0 <= i < s2.len() && #[trigger] s2[i] is Error && is_truncation_error(s2[i]->Error_0)
        implies i + 2 < s2.len() && is_construct_token(s2[i + 1]) && s2[i + 2] is Eof by {
        if i < s.len() {
            assert(s2[i] == s[i]);
        } else if i < s.len() + flush_out(text).len() {
            assert(s2[i] is Text);
        } else {
            assert(s2[i] == t);
        }
    }
}

/// Flushing pending text and closing the stream with `Eof` keeps it well
/// formed; the stream then ends in `Eof`.
pub proof fn lemma_stream_push_eof(s: Seq<TokenV>, text: Seq<u8>)
    requires
        stream_open(s),
    ensures
        stream_wf(s + flush_out(text) + seq![TokenV::Eof]),
        (s + flush_out(text) + seq![TokenV::Eof]).last() is Eof,
{
    lemma_stream_open_facts(s);
    let s2 = s + flush_out(text) + seq![TokenV::Eof];
    assert forall|i: int| 0 <= i < s2.len() && #[trigger] s2[i] is Text implies s2[i]->Text_0.len()
        > 0 by {
        if i < s.len() {
            assert(s2[i] == s[i]);
        } else if i < s.len() + flush_out(text).len() {
            assert(s2[i] == flush_out(text)[i - s.len()]);
        }
    }
    assert forall|i: int| 0 <= i && i + 1 < s2.len() implies !(#[trigger] s2[i] is Text && s2[i
        + 1] is Text) by {
        if i + 1 < s.len() {
            assert(s2[i] == s[i] && s2[i + 1] == s[i + 1]);
        } else if i < s.len() {
            assert(s2[i] == s[i]);
        } else if i < s.len() + flush_out(text).len() {
            assert(s2[i + 1] is Eof);
        }
    }
    assert forall|i: int| 0 <= i < s2.len() && #[trigger] s2[i] is Eof implies i == s2.len()
        - 1 by {
        if i < s.len() {
            assert(s2[i] == s[i]);
        } else if i < s.len() + flush_out(text).len() {
            assert(s2[i] is Text);
        }
    }
    assert forall|i: int|
        0 <= i < s2.len() && #[trigger] s2[i] is Error && is_truncation_error(s2[i]->Error_0)
        implies i + 2 < s2.len() && is_construct_token(s2[i + 1]) && s2[i + 2] is Eof by {
        if i < s.len() {
            assert(s2[i] == s[i]);
        } else if i < s.len() + flush_out(text).len() {
            assert(s2[i] is Text);
        } else {
            assert(s2[i] is Eof);
        }
    }
}

/// A truncation is reported atomically: pending text is flushed, then the
/// truncation error, the one partial construct token, and `Eof` follow. This
/// shape is exactly what stream well-formedness demands of a truncation
/// error, so the stream stays well formed and ends in `Eof`.
pub proof fn lemma_stream_push_truncation(s: Seq<TokenV>, text: Seq<u8>, e: Xml5Error, p: TokenV)
    requires
        stream_open(s),
        is_truncation_error(e),
        is_construct_token(p),
    ensures
        stream_wf(s + flush_out(text) + seq![TokenV::Error(e), p, TokenV::Eof]),
        (s + flush_out(text) + seq![TokenV::Error(e), p, TokenV::Eof]).last() is Eof,
{
    lemma_stream_open_facts(s);
    let s2 = s + flush_out(text) + seq![TokenV::Error(e), p, TokenV::Eof];
    assert forall|i: int| 0 <= i < s2.len() && #[trigger] s2[i] is Text implies s2[i]->Text_0.len()
        > 0 by {
        if i < s.len() {
            assert(s2[i] == s[i]);
        } else if i < s.len() + flush_out(text).len() {
            assert(s2[i] == flush_out(text)[i - s.len()]);
        }
    }
    assert forall|i: int| 0 <= i && i + 1 < s2.len() implies !(#[trigger] s2[i] is Text && s2[i
        + 1] is Text) by {
        if i + 1 < s.len() {
            assert(s2[i] == s[i] && s2[i + 1] == s[i + 1]);
        } else if i < s.len() {
            assert(s2[i] == s[i]);
        } else if i < s.len() + flush_out(text).len() {
            assert(s2[i + 1] is Error);
        }
    }
    assert forall|i: int| 0 <= i < s2.len() && #[trigger] s2[i] is Eof implies i == s2.len()
        - 1 by {
        if i < s.len() {
            assert(s2[i] == s[i]);
        } else if i < s.len() + flush_out(text).len() {
            assert(s2[i] is Text);
        }
    }
    assert forall|i: int|
        0 <= i < s2.len() && #[trigger] s2[i] is Error && is_truncation_error(s2[i]->Error_0)
        implies i + 2 < s2.len() && is_construct_token(s2[i + 1]) && s2[i + 2] is Eof by {
        if i < s.len() {
            assert(s2[i] == s[i]);
        } else if i < s.len() + flush_out(text).len() {
            assert(s2[i] is Text);
        }
    }
}

} // verus!
