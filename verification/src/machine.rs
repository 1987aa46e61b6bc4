//! The tokenizer's state machine: the lexical states, the spec-level
//! transition function `step_spec`, and the verified step implementation.
//!
//! `step_spec` is the machine's mathematical model: it maps the current
//! configuration (state, cursor, in-flight token) and the input bytes to the
//! next configuration and the tokens emitted by that step. The executable
//! step is proved to realize `step_spec` for every reader, which is why the
//! token stream depends on the input bytes alone.

use vstd::prelude::*;

use crate::decoding::EncodingKind;
use crate::errors::Xml5Error;
use crate::model::empty_inflight;
use crate::model::flush_out;
use crate::model::partial_v;
use crate::model::CurrentToken;
use crate::model::DoctypeKind;
use crate::model::InflightV;
use crate::model::TokenV;
use crate::model::XmlDeclAttr;
use crate::emitter::DefaultEmitter;
use crate::reader::FastRead;
use crate::reader::Reader;

verus! {

/// How an attribute value is delimited.
#[derive(Clone, Copy, Debug, PartialEq, Eq, Structural)]
pub enum AttrValueKind {
    Unquoted,
    SingleQuoted,
    DoubleQuoted,
}

/// How an XML declaration attribute value is quoted.
#[derive(Clone, Copy, Debug, PartialEq, Eq, Structural)]
pub enum DeclQuote {
    SingleQuoted,
    DoubleQuoted,
}

/// The lexical states of the machine.
#[derive(Clone, Copy, Debug, PartialEq, Eq, Structural)]
pub enum TokenState {
    Data,
    /// A character reference was opened with `&`. Resolution is out of
    /// scope: the `&` is kept as literal content of the surrounding text
    /// (`Unquoted`) or attribute value (quoted kinds).
    CharRefInData(AttrValueKind),
    TagOpen,
    EndTagOpen,
    EndTagName,
    EndTagNameAfter,
    TagName,
    EmptyTag,
    TagAttrNameBefore,
    TagAttrName,
    TagAttrValueBefore,
    TagAttrValue(AttrValueKind),
    Pi,
    PiTarget,
    PiTargetAfter,
    PiData,
    PiAfter,
    XmlDecl,
    XmlDeclAttrName,
    XmlDeclAttrNameAfter,
    XmlDeclAttrValueBefore,
    XmlDeclAttrValue(DeclQuote),
    XmlDeclAfter,
    MarkupDecl,
    CommentStart,
    CommentStartDash,
    Comment,
    CommentLessThan,
    CommentLessThanBang,
    CommentLessThanBangDash,
    CommentLessThanBangDashDash,
    CommentEnd,
    CommentEndDash,
    CommentEndBang,
    Cdata,
    CdataBracket,
    CdataEnd,
    BogusComment,
    Doctype,
    BeforeDoctypeName,
    DoctypeName,
    AfterDoctypeName(usize),
    AfterDoctypeKeyword(DoctypeKind),
    BeforeDoctypeIdentifier(DoctypeKind),
    DoctypeIdentifierDoubleQuoted(DoctypeKind),
    DoctypeIdentifierSingleQuoted(DoctypeKind),
    AfterDoctypeIdentifier(DoctypeKind),
    BetweenDoctypePublicAndSystemIdentifiers,
    BogusDoctype,
}

/// What one drive of the machine decided: keep going, or the stream is done.
pub enum Control {
    Continue,
    Eof,
}

/// The tokenizer: the current lexical state, the end-of-stream flag, and the
/// encoding captured for payload decoding.
pub struct Tokenizer {
    pub state: TokenState,
    pub eof: bool,
    pub encoding: EncodingKind,
    pub is_encoding_set: bool,
}

/// The machine configuration the spec-level transition function works on.
#[verifier::ext_equal]
pub ghost struct MState {
    pub state: TokenState,
    pub pos: int,
    pub cur: InflightV,
    pub done: bool,
}

/// One spec-level step: the next configuration and the tokens emitted.
#[verifier::ext_equal]
pub ghost struct StepV {
    pub m: MState,
    pub out: Seq<TokenV>,
}

pub open spec fn is_ws(b: u8) -> bool {
    b == 9 || b == 10 || b == 32
}

/// The index of the first byte at or after `pos` that belongs to the needle
/// set, or the input length when there is none.
pub open spec fn first_needle(input: Seq<u8>, pos: int, ns: Seq<u8>) -> int
    decreases input.len() - pos,
{
    if pos < 0 || pos >= input.len() {
        input.len() as int
    } else if ns.contains(input[pos]) {
        pos
    } else {
        first_needle(input, pos + 1, ns)
    }
}

/// A run `[pos, j)` free of needles that stops at a needle or at the end of
/// the input ends exactly at `first_needle`.
pub proof fn lemma_first_needle_range(input: Seq<u8>, pos: int, j: int, ns: Seq<u8>)
    requires
        0 <= pos <= j <= input.len(),
        forall|k: int| pos <= k < j ==> !ns.contains(#[trigger] input[k]),
        j == input.len() || ns.contains(input[j]),
    ensures
        first_needle(input, pos, ns) == j,
    decreases j - pos,
{
    if pos < j {
        lemma_first_needle_range(input, pos + 1, j, ns);
    }
}

/// `first_needle` stays within the input and marks a needle-free run.
pub proof fn lemma_first_needle_props(input: Seq<u8>, pos: int, ns: Seq<u8>)
    requires
        0 <= pos <= input.len(),
    ensures
        pos <= first_needle(input, pos, ns) <= input.len(),
        forall|k: int|
            pos <= k < first_needle(input, pos, ns) ==> !ns.contains(#[trigger] input[k]),
        first_needle(input, pos, ns) == input.len() || ns.contains(
            input[first_needle(input, pos, ns)],
        ),
    decreases input.len() - pos,
{
    if pos < input.len() && !ns.contains(input[pos]) {
        lemma_first_needle_props(input, pos + 1, ns);
    }
}

// In-flight updates used by the transition function.
pub open spec fn add_text(cur: InflightV, s: Seq<u8>) -> InflightV {
    InflightV { text: cur.text + s, ..cur }
}

pub open spec fn add_name(cur: InflightV, s: Seq<u8>) -> InflightV {
    InflightV { name: cur.name + s, ..cur }
}

pub open spec fn add_target(cur: InflightV, s: Seq<u8>) -> InflightV {
    InflightV { target: cur.target + s, ..cur }
}

pub open spec fn add_attr_name(cur: InflightV, s: Seq<u8>) -> InflightV {
    InflightV { attr_name: cur.attr_name + s, ..cur }
}

pub open spec fn add_attr_value(cur: InflightV, s: Seq<u8>) -> InflightV {
    InflightV { attr_value: cur.attr_value + s, ..cur }
}

pub open spec fn with_kind(cur: InflightV, k: CurrentToken) -> InflightV {
    InflightV { kind: k, ..cur }
}

pub open spec fn flushed(cur: InflightV) -> InflightV {
    InflightV { text: Seq::empty(), ..cur }
}

/// The effect of closing the current attribute: a duplicate name is dropped
/// and reported (which flushes pending text), a fresh name joins the list.
pub open spec fn close_attr_spec(cur: InflightV) -> (InflightV, Seq<TokenV>) {
    if crate::emitter::attr_name_dup(cur.attrs, cur.attr_name) {
        (
            InflightV {
                attr_name: Seq::empty(),
                attr_value: Seq::empty(),
                attr_open: false,
                text: Seq::empty(),
                ..cur
            },
            flush_out(cur.text) + seq![TokenV::Error(Xml5Error::DuplicateAttribute)],
        )
    } else {
        (
            InflightV {
                attrs: cur.attrs.push((cur.attr_name, cur.attr_value)),
                attr_name: Seq::empty(),
                attr_value: Seq::empty(),
                attr_open: false,
                ..cur
            },
            Seq::empty(),
        )
    }
}

// Step constructors.
pub open spec fn stv(state: TokenState, pos: int, cur: InflightV, out: Seq<TokenV>) -> StepV {
    StepV { m: MState { state, pos, cur, done: false }, out }
}

/// A step that emits the finished in-flight token and returns to `Data`.
pub open spec fn emit_stv(pos: int, cur: InflightV) -> StepV {
    stv(TokenState::Data, pos, empty_inflight(), flush_out(cur.text) + seq![partial_v(cur)])
}

/// A step that reports a truncation and closes the stream.
pub open spec fn trunc_stv(e: Xml5Error, pos: int, cur: InflightV) -> StepV {
    StepV {
        m: MState { state: TokenState::Data, pos, cur: empty_inflight(), done: true },
        out: flush_out(cur.text) + seq![TokenV::Error(e), partial_v(cur), TokenV::Eof],
    }
}

/// A step that emits one plain error token.
pub open spec fn err_stv(
    state: TokenState,
    pos: int,
    cur: InflightV,
    e: Xml5Error,
) -> StepV {
    stv(state, pos, flushed(cur), flush_out(cur.text) + seq![TokenV::Error(e)])
}

// Keyword byte sequences.
pub open spec fn kw_xml() -> Seq<u8> {
    seq![120u8, 109u8, 108u8]
}

pub open spec fn kw_dashdash() -> Seq<u8> {
    seq![45u8, 45u8]
}

pub open spec fn kw_doctype() -> Seq<u8> {
    seq![68u8, 79u8, 67u8, 84u8, 89u8, 80u8, 69u8]
}

pub open spec fn kw_cdata() -> Seq<u8> {
    seq![91u8, 67u8, 68u8, 65u8, 84u8, 65u8, 91u8]
}

pub open spec fn kw_public() -> Seq<u8> {
    seq![80u8, 85u8, 66u8, 76u8, 73u8, 67u8]
}

pub open spec fn kw_system() -> Seq<u8> {
    seq![83u8, 89u8, 83u8, 84u8, 69u8, 77u8]
}

/// The initial machine configuration.
pub open spec fn empty_mstate() -> MState {
    MState { state: TokenState::Data, pos: 0, cur: empty_inflight(), done: false }
}

/// A rank on states that strictly decreases on every transition that does
/// not consume input and does not end the stream; used to show that the
/// pull loop terminates.
pub open spec fn state_rank(s: TokenState) -> int {
    match s {
        TokenState::Data => 0,
        TokenState::TagAttrValue(_) => 1,
        TokenState::TagName => 1,
        TokenState::EndTagName => 1,
        TokenState::TagAttrNameBefore => 1,
        TokenState::EndTagNameAfter => 1,
        TokenState::TagAttrName => 1,
        TokenState::PiData => 1,
        TokenState::BogusComment => 1,
        TokenState::Comment => 1,
        TokenState::XmlDeclAttrValue(_) => 1,
        TokenState::BogusDoctype => 1,
        TokenState::DoctypeIdentifierDoubleQuoted(_) => 1,
        TokenState::DoctypeIdentifierSingleQuoted(_) => 1,
        TokenState::BeforeDoctypeName => 1,
        TokenState::DoctypeName => 1,
        TokenState::AfterDoctypeName(_) => 1,
        TokenState::Cdata => 1,
        TokenState::CdataBracket => 1,
        TokenState::CdataEnd => 1,
        TokenState::CharRefInData(_) => 2,
        TokenState::TagAttrValueBefore => 2,
        TokenState::EmptyTag => 2,
        TokenState::PiTarget => 2,
        TokenState::CommentEndDash => 2,
        TokenState::CommentLessThan => 2,
        TokenState::CommentLessThanBang => 2,
        TokenState::BeforeDoctypeIdentifier(_) => 2,
        TokenState::BetweenDoctypePublicAndSystemIdentifiers => 2,
        TokenState::Doctype => 2,
        TokenState::TagOpen => 3,
        TokenState::EndTagOpen => 3,
        TokenState::PiTargetAfter => 3,
        TokenState::PiAfter => 3,
        TokenState::CommentEnd => 3,
        TokenState::AfterDoctypeKeyword(_) => 3,
        TokenState::AfterDoctypeIdentifier(_) => 3,
        TokenState::XmlDeclAttrName => 3,
        TokenState::XmlDeclAttrNameAfter => 3,
        TokenState::XmlDeclAttrValueBefore => 3,
        TokenState::CommentLessThanBangDashDash => 4,
        TokenState::CommentLessThanBangDash => 4,
        TokenState::CommentStart => 4,
        TokenState::CommentStartDash => 4,
        TokenState::CommentEndBang => 4,
        TokenState::XmlDecl => 4,
        TokenState::Pi => 5,
        TokenState::MarkupDecl => 5,
        TokenState::XmlDeclAfter => 5,
    }
}

/// Every step either ends the stream, consumes input, or moves to a state
/// of strictly smaller rank; and the cursor never moves backwards or past
/// the end of the input.
#[verifier::rlimit(100)]
#[verifier::spinoff_prover]
pub proof fn lemma_step_progress(input: Seq<u8>, m: MState)
    requires
        !m.done,
        0 <= m.pos <= input.len(),
    ensures
        ({
            let sv = step_spec(input, m);
            &&& m.pos <= sv.m.pos <= input.len()
            &&& (sv.m.done || sv.m.pos > m.pos || state_rank(sv.m.state) < state_rank(m.state))
        }),
{
    match m.state {
        TokenState::Data => {
            if m.pos < input.len() && input[m.pos] != 60 && input[m.pos] != 38 {
                lemma_first_needle_props(input, m.pos, seq![60u8, 38u8]);
                assert(first_needle(input, m.pos, seq![60u8, 38u8]) == first_needle(
                    input,
                    m.pos + 1,
                    seq![60u8, 38u8],
                ));
                lemma_first_needle_props(input, m.pos + 1, seq![60u8, 38u8]);
            }
        },
        TokenState::TagName => {
            let ns = seq![9u8, 10u8, 32u8, 62u8, 47u8];
            if m.pos < input.len() && !(is_ws(input[m.pos]) || input[m.pos] == 62 || input[m.pos]
                == 47) {
                assert(!ns.contains(input[m.pos])) by {
                    if ns.contains(input[m.pos]) {
                        let i = choose|i: int| 0 <= i < ns.len() && ns[i] == input[m.pos];
                        assert(ns[0] == 9 && ns[1] == 10 && ns[2] == 32 && ns[3] == 62 && ns[4]
                            == 47);
                    }
                }
                assert(first_needle(input, m.pos, ns) == first_needle(input, m.pos + 1, ns));
                lemma_first_needle_props(input, m.pos + 1, ns);
            }
        },
        TokenState::EndTagName => {
            let ns = seq![9u8, 10u8, 32u8, 47u8, 62u8];
            if m.pos < input.len() && !(is_ws(input[m.pos]) || input[m.pos] == 47 || input[m.pos]
                == 62) {
                assert(!ns.contains(input[m.pos])) by {
                    if ns.contains(input[m.pos]) {
                        let i = choose|i: int| 0 <= i < ns.len() && ns[i] == input[m.pos];
                        assert(ns[0] == 9 && ns[1] == 10 && ns[2] == 32 && ns[3] == 47 && ns[4]
                            == 62);
                    }
                }
                assert(first_needle(input, m.pos, ns) == first_needle(input, m.pos + 1, ns));
                lemma_first_needle_props(input, m.pos + 1, ns);
            }
        },
        TokenState::TagAttrName => {
            let ns = seq![9u8, 10u8, 32u8, 61u8, 62u8, 47u8];
            if m.pos < input.len() && !(is_ws(input[m.pos]) || input[m.pos] == 61 || input[m.pos]
                == 62 || input[m.pos] == 47) {
                assert(!ns.contains(input[m.pos])) by {
                    if ns.contains(input[m.pos]) {
                        let i = choose|i: int| 0 <= i < ns.len() && ns[i] == input[m.pos];
                        assert(ns[0] == 9 && ns[1] == 10 && ns[2] == 32 && ns[3] == 61 && ns[4]
                            == 62 && ns[5] == 47);
                    }
                }
                assert(first_needle(input, m.pos, ns) == first_needle(input, m.pos + 1, ns));
                lemma_first_needle_props(input, m.pos + 1, ns);
            }
        },
        TokenState::TagAttrValue(k) => {
            let ns = attr_value_needles(k);
            if m.pos < input.len() && !ns.contains(input[m.pos]) {
                assert(first_needle(input, m.pos, ns) == first_needle(input, m.pos + 1, ns));
                lemma_first_needle_props(input, m.pos + 1, ns);
            }
        },
        TokenState::PiTarget => {
            let ns = seq![9u8, 10u8, 32u8, 63u8];
            if m.pos < input.len() && !(is_ws(input[m.pos]) || input[m.pos] == 63) {
                assert(!ns.contains(input[m.pos])) by {
                    if ns.contains(input[m.pos]) {
                        let i = choose|i: int| 0 <= i < ns.len() && ns[i] == input[m.pos];
                        assert(ns[0] == 9 && ns[1] == 10 && ns[2] == 32 && ns[3] == 63);
                    }
                }
                assert(first_needle(input, m.pos, ns) == first_needle(input, m.pos + 1, ns));
                lemma_first_needle_props(input, m.pos + 1, ns);
            }
        },
        TokenState::PiData => {
            let ns = seq![63u8];
            if m.pos < input.len() && input[m.pos] != 63 {
                assert(!ns.contains(input[m.pos])) by {
                    if ns.contains(input[m.pos]) {
                        let i = choose|i: int| 0 <= i < ns.len() && ns[i] == input[m.pos];
                        assert(ns[0] == 63);
                    }
                }
                assert(first_needle(input, m.pos, ns) == first_needle(input, m.pos + 1, ns));
                lemma_first_needle_props(input, m.pos + 1, ns);
            }
        },
        TokenState::XmlDeclAttrValue(q) => {
            let ns = seq![decl_quote_byte(q), 63u8];
            if m.pos < input.len() && input[m.pos] != decl_quote_byte(q) && input[m.pos] != 63 {
                assert(!ns.contains(input[m.pos])) by {
                    if ns.contains(input[m.pos]) {
                        let i = choose|i: int| 0 <= i < ns.len() && ns[i] == input[m.pos];
                        assert(ns[0] == decl_quote_byte(q) && ns[1] == 63);
                    }
                }
                assert(first_needle(input, m.pos, ns) == first_needle(input, m.pos + 1, ns));
                lemma_first_needle_props(input, m.pos + 1, ns);
            }
        },
        TokenState::Comment => {
            let ns = seq![60u8, 45u8];
            if m.pos < input.len() && input[m.pos] != 60 && input[m.pos] != 45 {
                assert(!ns.contains(input[m.pos])) by {
                    if ns.contains(input[m.pos]) {
                        let i = choose|i: int| 0 <= i < ns.len() && ns[i] == input[m.pos];
                        assert(ns[0] == 60 && ns[1] == 45);
                    }
                }
                assert(first_needle(input, m.pos, ns) == first_needle(input, m.pos + 1, ns));
                lemma_first_needle_props(input, m.pos + 1, ns);
            }
        },
        TokenState::Cdata => {
            let ns = seq![93u8];
            if m.pos < input.len() && input[m.pos] != 93 {
                assert(!ns.contains(input[m.pos])) by {
                    if ns.contains(input[m.pos]) {
                        let i = choose|i: int| 0 <= i < ns.len() && ns[i] == input[m.pos];
                        assert(ns[0] == 93);
                    }
                }
                assert(first_needle(input, m.pos, ns) == first_needle(input, m.pos + 1, ns));
                lemma_first_needle_props(input, m.pos + 1, ns);
            }
        },
        TokenState::BogusComment => {
            let ns = seq![62u8];
            if m.pos < input.len() && input[m.pos] != 62 {
                assert(!ns.contains(input[m.pos])) by {
                    if ns.contains(input[m.pos]) {
                        let i = choose|i: int| 0 <= i < ns.len() && ns[i] == input[m.pos];
                        assert(ns[0] == 62);
                    }
                }
                assert(first_needle(input, m.pos, ns) == first_needle(input, m.pos + 1, ns));
                lemma_first_needle_props(input, m.pos + 1, ns);
            }
        },
        TokenState::BogusDoctype => {
            let ns = seq![62u8];
            if m.pos < input.len() && input[m.pos] != 62 {
                assert(!ns.contains(input[m.pos])) by {
                    if ns.contains(input[m.pos]) {
                        let i = choose|i: int| 0 <= i < ns.len() && ns[i] == input[m.pos];
                        assert(ns[0] == 62);
                    }
                }
                assert(first_needle(input, m.pos, ns) == first_needle(input, m.pos + 1, ns));
                lemma_first_needle_props(input, m.pos + 1, ns);
            }
        },
        TokenState::DoctypeIdentifierDoubleQuoted(_) => {
            let ns = seq![34u8, 62u8];
            if m.pos < input.len() && input[m.pos] != 34 && input[m.pos] != 62 {
                assert(!ns.contains(input[m.pos])) by {
                    if ns.contains(input[m.pos]) {
                        let i = choose|i: int| 0 <= i < ns.len() && ns[i] == input[m.pos];
                        assert(ns[0] == 34 && ns[1] == 62);
                    }
                }
                assert(first_needle(input, m.pos, ns) == first_needle(input, m.pos + 1, ns));
                lemma_first_needle_props(input, m.pos + 1, ns);
            }
        },
        TokenState::DoctypeIdentifierSingleQuoted(_) => {
            let ns = seq![39u8, 62u8];
            if m.pos < input.len() && input[m.pos] != 39 && input[m.pos] != 62 {
                assert(!ns.contains(input[m.pos])) by {
                    if ns.contains(input[m.pos]) {
                        let i = choose|i: int| 0 <= i < ns.len() && ns[i] == input[m.pos];
                        assert(ns[0] == 39 && ns[1] == 62);
                    }
                }
                assert(first_needle(input, m.pos, ns) == first_needle(input, m.pos + 1, ns));
                lemma_first_needle_props(input, m.pos + 1, ns);
            }
        },
        _ => {},
    }
}

/// The machine-emitter coupling: which in-flight token each state works on.
pub open spec fn mst_wf(state: TokenState, cur: InflightV) -> bool {
    match state {
        TokenState::Data | TokenState::TagOpen | TokenState::EndTagOpen | TokenState::Pi
            | TokenState::MarkupDecl | TokenState::Doctype | TokenState::BeforeDoctypeName => {
            cur.kind == CurrentToken::NoToken && !cur.attr_open
        },
        TokenState::CharRefInData(k) => match k {
            AttrValueKind::Unquoted => cur.kind == CurrentToken::NoToken && !cur.attr_open,
            _ => cur.kind == CurrentToken::StartTag && cur.attr_open,
        },
        TokenState::TagName | TokenState::EmptyTag | TokenState::TagAttrNameBefore => {
            cur.kind == CurrentToken::StartTag && !cur.attr_open
        },
        TokenState::TagAttrName | TokenState::TagAttrValueBefore | TokenState::TagAttrValue(_) => {
            cur.kind == CurrentToken::StartTag && cur.attr_open
        },
        TokenState::EndTagName | TokenState::EndTagNameAfter => {
            cur.kind == CurrentToken::EndTag && !cur.attr_open
        },
        TokenState::PiTarget | TokenState::PiTargetAfter | TokenState::PiData
            | TokenState::PiAfter => {
            cur.kind == CurrentToken::ProcessingInstruction && !cur.attr_open
        },
        TokenState::XmlDecl | TokenState::XmlDeclAttrName | TokenState::XmlDeclAttrNameAfter
            | TokenState::XmlDeclAttrValueBefore | TokenState::XmlDeclAttrValue(_)
            | TokenState::XmlDeclAfter => {
            cur.kind == CurrentToken::Decl && !cur.attr_open
        },
        TokenState::CommentStart | TokenState::CommentStartDash | TokenState::Comment
            | TokenState::CommentLessThan | TokenState::CommentLessThanBang
            | TokenState::CommentLessThanBangDash | TokenState::CommentLessThanBangDashDash
            | TokenState::CommentEnd | TokenState::CommentEndDash | TokenState::CommentEndBang
            | TokenState::BogusComment => {
            cur.kind == CurrentToken::Comment && !cur.attr_open
        },
        TokenState::Cdata | TokenState::CdataBracket | TokenState::CdataEnd => {
            cur.kind == CurrentToken::CData && !cur.attr_open
        },
        TokenState::DoctypeName | TokenState::AfterDoctypeName(_)
            | TokenState::AfterDoctypeKeyword(_) | TokenState::BeforeDoctypeIdentifier(_)
            | TokenState::AfterDoctypeIdentifier(_)
            | TokenState::BetweenDoctypePublicAndSystemIdentifiers | TokenState::BogusDoctype => {
            cur.kind == CurrentToken::Doctype && !cur.attr_open
        },
        TokenState::DoctypeIdentifierDoubleQuoted(k) | TokenState::DoctypeIdentifierSingleQuoted(
            k,
        ) => {
            &&& cur.kind == CurrentToken::Doctype
            &&& !cur.attr_open
            &&& cur.id_kind == k
            &&& (k == DoctypeKind::Public ==> cur.public_id is Some)
            &&& (k == DoctypeKind::System ==> cur.system_id is Some)
        },
    }
}

/// Transitions of the `Data` state: fast-scan to `<` or `&`; intervening
/// bytes extend the pending text; at the end of the input the text is
/// flushed and the stream closed.
pub open spec fn spec_data(input: Seq<u8>, pos: int, cur: InflightV) -> StepV {
    if first_needle(input, pos, seq![60u8, 38u8]) == input.len() {
        let cur1 = add_text(cur, input.subrange(pos, input.len() as int));
        StepV {
            m: MState {
                state: TokenState::Data,
                pos: input.len() as int,
                cur: flushed(cur1),
                done: true,
            },
            out: flush_out(cur1.text) + seq![TokenV::Eof],
        }
    } else if input[pos] == 60 {
        stv(TokenState::TagOpen, pos + 1, cur, Seq::empty())
    } else if input[pos] == 38 {
        stv(
            TokenState::CharRefInData(AttrValueKind::Unquoted),
            pos + 1,
            cur,
            Seq::empty(),
        )
    } else {
        let j = first_needle(input, pos, seq![60u8, 38u8]);
        stv(TokenState::Data, j, add_text(cur, input.subrange(pos, j)), Seq::empty())
    }
}

/// Character references are not resolved here: the `&` stays as literal
/// content of the text or attribute value it appeared in.
pub open spec fn spec_char_ref(k: AttrValueKind, pos: int, cur: InflightV) -> StepV {
    match k {
        AttrValueKind::Unquoted => stv(
            TokenState::Data,
            pos,
            add_text(cur, seq![38u8]),
            Seq::empty(),
        ),
        _ => stv(TokenState::TagAttrValue(k), pos, add_attr_value(cur, seq![38u8]), Seq::empty()),
    }
}

pub open spec fn spec_tag_open(input: Seq<u8>, pos: int, cur: InflightV) -> StepV {
    match crate::reader::peek_spec(input, pos) {
        None => StepV {
            m: MState {
                state: TokenState::Data,
                pos,
                cur: add_text(flushed(cur), seq![60u8]),
                done: false,
            },
            out: flush_out(cur.text) + seq![TokenV::Error(Xml5Error::UnexpectedSymbolOrEof(None))],
        },
        Some(c) => {
            if c == 47 {
                stv(TokenState::EndTagOpen, pos + 1, cur, Seq::empty())
            } else if c == 63 {
                stv(TokenState::Pi, pos + 1, cur, Seq::empty())
            } else if c == 33 {
                stv(TokenState::MarkupDecl, pos + 1, cur, Seq::empty())
            } else if is_ws(c) || c == 58 || c == 60 || c == 62 {
                StepV {
                    m: MState {
                        state: TokenState::Data,
                        pos: pos + 1,
                        cur: add_text(flushed(cur), seq![60u8]),
                        done: false,
                    },
                    out: flush_out(cur.text) + seq![
                        TokenV::Error(Xml5Error::UnexpectedSymbolOrEof(Some(c))),
                    ],
                }
            } else {
                stv(
                    TokenState::TagName,
                    pos,
                    with_kind(cur, CurrentToken::StartTag),
                    Seq::empty(),
                )
            }
        },
    }
}

pub open spec fn spec_end_tag_open(input: Seq<u8>, pos: int, cur: InflightV) -> StepV {
    match crate::reader::peek_spec(input, pos) {
        None => StepV {
            m: MState {
                state: TokenState::Data,
                pos,
                cur: add_text(flushed(cur), seq![60u8, 47u8]),
                done: false,
            },
            out: flush_out(cur.text) + seq![TokenV::Error(Xml5Error::UnexpectedSymbolOrEof(None))],
        },
        Some(c) => {
            if c == 62 {
                stv(
                    TokenState::Data,
                    pos + 1,
                    flushed(cur),
                    flush_out(cur.text) + seq![TokenV::EndTag(Seq::<u8>::empty())],
                )
            } else if is_ws(c) || c == 58 || c == 60 {
                StepV {
                    m: MState {
                        state: TokenState::Data,
                        pos,
                        cur: add_text(flushed(cur), seq![60u8, 47u8]),
                        done: false,
                    },
                    out: flush_out(cur.text) + seq![
                        TokenV::Error(Xml5Error::UnexpectedSymbolOrEof(Some(c))),
                    ],
                }
            } else {
                stv(
                    TokenState::EndTagName,
                    pos,
                    with_kind(cur, CurrentToken::EndTag),
                    Seq::empty(),
                )
            }
        },
    }
}

pub open spec fn spec_tag_name(input: Seq<u8>, pos: int, cur: InflightV) -> StepV {
    if first_needle(input, pos, seq![9u8, 10u8, 32u8, 62u8, 47u8]) == input.len() {
        trunc_stv(
            Xml5Error::EofInTag,
            input.len() as int,
            add_name(cur, input.subrange(pos, input.len() as int)),
        )
    } else if is_ws(input[pos]) {
        stv(TokenState::TagAttrNameBefore, pos + 1, cur, Seq::empty())
    } else if input[pos] == 62 {
        emit_stv(pos + 1, cur)
    } else if input[pos] == 47 {
        stv(
            TokenState::EmptyTag,
            pos + 1,
            InflightV { self_closing: true, ..cur },
            Seq::empty(),
        )
    } else {
        let j = first_needle(input, pos, seq![9u8, 10u8, 32u8, 62u8, 47u8]);
        stv(TokenState::TagName, j, add_name(cur, input.subrange(pos, j)), Seq::empty())
    }
}

pub open spec fn spec_empty_tag(input: Seq<u8>, pos: int, cur: InflightV) -> StepV {
    match crate::reader::peek_spec(input, pos) {
        Some(c) => {
            if c == 62 {
                emit_stv(pos + 1, cur)
            } else {
                stv(TokenState::TagAttrNameBefore, pos, cur, Seq::empty())
            }
        },
        None => stv(TokenState::TagAttrNameBefore, pos, cur, Seq::empty()),
    }
}

pub open spec fn spec_attr_name_before(input: Seq<u8>, pos: int, cur: InflightV) -> StepV {
    match crate::reader::peek_spec(input, pos) {
        None => trunc_stv(Xml5Error::EofInTag, pos, cur),
        Some(c) => {
            if is_ws(c) {
                stv(TokenState::TagAttrNameBefore, pos + 1, cur, Seq::empty())
            } else if c == 62 {
                emit_stv(pos + 1, cur)
            } else if c == 47 {
                stv(
                    TokenState::EmptyTag,
                    pos + 1,
                    InflightV { self_closing: true, ..cur },
                    Seq::empty(),
                )
            } else if c == 58 {
                err_stv(
                    TokenState::TagAttrNameBefore,
                    pos + 1,
                    cur,
                    Xml5Error::ColonBeforeAttrName,
                )
            } else {
                stv(
                    TokenState::TagAttrName,
                    pos + 1,
                    add_attr_name(InflightV { attr_open: true, ..cur }, seq![c]),
                    Seq::empty(),
                )
            }
        },
    }
}

pub open spec fn spec_attr_name(input: Seq<u8>, pos: int, cur: InflightV) -> StepV {
    if first_needle(input, pos, seq![9u8, 10u8, 32u8, 61u8, 62u8, 47u8]) == input.len() {
        let cur1 = add_attr_name(cur, input.subrange(pos, input.len() as int));
        let (cur2, out2) = close_attr_spec(cur1);
        StepV {
            m: MState {
                state: TokenState::Data,
                pos: input.len() as int,
                cur: empty_inflight(),
                done: true,
            },
            out: out2 + flush_out(cur2.text) + seq![
                TokenV::Error(Xml5Error::EofInTag),
                partial_v(cur2),
                TokenV::Eof,
            ],
        }
    } else if is_ws(input[pos]) || input[pos] == 61 {
        stv(TokenState::TagAttrValueBefore, pos + 1, cur, Seq::empty())
    } else if input[pos] == 62 {
        let (cur2, out2) = close_attr_spec(cur);
        stv(
            TokenState::Data,
            pos + 1,
            empty_inflight(),
            out2 + flush_out(cur2.text) + seq![partial_v(cur2)],
        )
    } else if input[pos] == 47 {
        let (cur2, out2) = close_attr_spec(cur);
        stv(
            TokenState::EmptyTag,
            pos + 1,
            InflightV { self_closing: true, ..cur2 },
            out2,
        )
    } else {
        let j = first_needle(input, pos, seq![9u8, 10u8, 32u8, 61u8, 62u8, 47u8]);
        stv(
            TokenState::TagAttrName,
            j,
            add_attr_name(cur, input.subrange(pos, j)),
            Seq::empty(),
        )
    }
}

pub open spec fn spec_attr_value_before(input: Seq<u8>, pos: int, cur: InflightV) -> StepV {
    match crate::reader::peek_spec(input, pos) {
        None => {
            let (cur2, out2) = close_attr_spec(cur);
            StepV {
                m: MState { state: TokenState::Data, pos, cur: empty_inflight(), done: true },
                out: out2 + flush_out(cur2.text) + seq![
                    TokenV::Error(Xml5Error::EofInTag),
                    partial_v(cur2),
                    TokenV::Eof,
                ],
            }
        },
        Some(c) => {
            if is_ws(c) {
                stv(TokenState::TagAttrValueBefore, pos + 1, cur, Seq::empty())
            } else if c == 34 {
                stv(
                    TokenState::TagAttrValue(AttrValueKind::DoubleQuoted),
                    pos + 1,
                    cur,
                    Seq::empty(),
                )
            } else if c == 39 {
                stv(
                    TokenState::TagAttrValue(AttrValueKind::SingleQuoted),
                    pos + 1,
                    cur,
                    Seq::empty(),
                )
            } else if c == 38 {
                stv(TokenState::TagAttrValue(AttrValueKind::Unquoted), pos, cur, Seq::empty())
            } else if c == 62 {
                let (cur2, out2) = close_attr_spec(cur);
                stv(
                    TokenState::Data,
                    pos + 1,
                    empty_inflight(),
                    out2 + flush_out(cur2.text) + seq![partial_v(cur2)],
                )
            } else {
                stv(
                    TokenState::TagAttrValue(AttrValueKind::Unquoted),
                    pos + 1,
                    add_attr_value(cur, seq![c]),
                    Seq::empty(),
                )
            }
        },
    }
}

pub open spec fn attr_value_needles(k: AttrValueKind) -> Seq<u8> {
    match k {
        AttrValueKind::DoubleQuoted => seq![38u8, 34u8],
        AttrValueKind::SingleQuoted => seq![38u8, 39u8],
        AttrValueKind::Unquoted => seq![9u8, 10u8, 32u8, 38u8, 62u8],
    }
}

pub open spec fn spec_attr_value(
    k: AttrValueKind,
    input: Seq<u8>,
    pos: int,
    cur: InflightV,
) -> StepV {
    if first_needle(input, pos, attr_value_needles(k)) == input.len() {
        let cur1 = add_attr_value(cur, input.subrange(pos, input.len() as int));
        let (cur2, out2) = close_attr_spec(cur1);
        StepV {
            m: MState {
                state: TokenState::Data,
                pos: input.len() as int,
                cur: empty_inflight(),
                done: true,
            },
            out: out2 + flush_out(cur2.text) + seq![
                TokenV::Error(Xml5Error::EofInTag),
                partial_v(cur2),
                TokenV::Eof,
            ],
        }
    } else if attr_value_needles(k).contains(input[pos]) {
        let c = input[pos];
        if c == 38 {
            match k {
                AttrValueKind::Unquoted => stv(
                    TokenState::TagAttrValue(k),
                    pos + 1,
                    add_attr_value(cur, seq![38u8]),
                    Seq::empty(),
                ),
                _ => stv(TokenState::CharRefInData(k), pos + 1, cur, Seq::empty()),
            }
        } else if c == 62 {
            // only reachable for the unquoted kind
            let (cur2, out2) = close_attr_spec(cur);
            stv(
                TokenState::Data,
                pos + 1,
                empty_inflight(),
                out2 + flush_out(cur2.text) + seq![partial_v(cur2)],
            )
        } else if c == 34 || c == 39 {
            let (cur2, out2) = close_attr_spec(cur);
            stv(TokenState::TagAttrNameBefore, pos + 1, cur2, out2)
        } else {
            // whitespace, unquoted kind
            let (cur2, out2) = close_attr_spec(cur);
            stv(TokenState::TagAttrNameBefore, pos + 1, cur2, out2)
        }
    } else {
        let j = first_needle(input, pos, attr_value_needles(k));
        stv(
            TokenState::TagAttrValue(k),
            j,
            add_attr_value(cur, input.subrange(pos, j)),
            Seq::empty(),
        )
    }
}

pub open spec fn spec_end_tag_name(input: Seq<u8>, pos: int, cur: InflightV) -> StepV {
    if first_needle(input, pos, seq![9u8, 10u8, 32u8, 47u8, 62u8]) == input.len() {
        trunc_stv(
            Xml5Error::EofInTag,
            input.len() as int,
            add_name(cur, input.subrange(pos, input.len() as int)),
        )
    } else if is_ws(input[pos]) {
        stv(TokenState::EndTagNameAfter, pos + 1, cur, Seq::empty())
    } else if input[pos] == 47 {
        err_stv(
            TokenState::EndTagNameAfter,
            pos + 1,
            cur,
            Xml5Error::UnexpectedSymbol('/'),
        )
    } else if input[pos] == 62 {
        emit_stv(pos + 1, cur)
    } else {
        let j = first_needle(input, pos, seq![9u8, 10u8, 32u8, 47u8, 62u8]);
        stv(TokenState::EndTagName, j, add_name(cur, input.subrange(pos, j)), Seq::empty())
    }
}

/// Entering `Pi` after `<?`: an exact `xml` match followed by whitespace
/// begins an XML declaration; a matched `xml` without whitespace becomes the
/// PI target; otherwise the byte after `<?` decides.
pub open spec fn spec_pi(input: Seq<u8>, pos: int, cur: InflightV) -> StepV {
    if crate::reader::try_match_spec(input, pos, kw_xml(), true) {
        if pos + 3 < input.len() && is_ws(input[pos + 3]) {
            stv(TokenState::XmlDecl, pos + 3, with_kind(cur, CurrentToken::Decl), Seq::empty())
        } else {
            stv(
                TokenState::PiTarget,
                pos + 3,
                add_target(
                    with_kind(cur, CurrentToken::ProcessingInstruction),
                    kw_xml(),
                ),
                Seq::empty(),
            )
        }
    } else {
        match crate::reader::peek_spec(input, pos) {
            None => StepV {
                m: MState {
                    state: TokenState::BogusComment,
                    pos,
                    cur: with_kind(flushed(cur), CurrentToken::Comment),
                    done: false,
                },
                out: flush_out(cur.text) + seq![
                    TokenV::Error(Xml5Error::UnexpectedSymbolOrEof(None)),
                ],
            },
            Some(c) => {
                if is_ws(c) {
                    StepV {
                        m: MState {
                            state: TokenState::BogusComment,
                            pos,
                            cur: with_kind(flushed(cur), CurrentToken::Comment),
                            done: false,
                        },
                        out: flush_out(cur.text) + seq![
                            TokenV::Error(Xml5Error::UnexpectedSymbolOrEof(Some(c))),
                        ],
                    }
                } else {
                    stv(
                        TokenState::PiTarget,
                        pos,
                        with_kind(cur, CurrentToken::ProcessingInstruction),
                        Seq::empty(),
                    )
                }
            },
        }
    }
}

pub open spec fn spec_pi_target(input: Seq<u8>, pos: int, cur: InflightV) -> StepV {
    if first_needle(input, pos, seq![9u8, 10u8, 32u8, 63u8]) == input.len() {
        trunc_stv(
            Xml5Error::UnexpectedEof,
            input.len() as int,
            add_target(cur, input.subrange(pos, input.len() as int)),
        )
    } else if is_ws(input[pos]) {
        stv(TokenState::PiTargetAfter, pos + 1, cur, Seq::empty())
    } else if input[pos] == 63 {
        stv(TokenState::PiAfter, pos + 1, cur, Seq::empty())
    } else {
        let j = first_needle(input, pos, seq![9u8, 10u8, 32u8, 63u8]);
        stv(TokenState::PiTarget, j, add_target(cur, input.subrange(pos, j)), Seq::empty())
    }
}

pub open spec fn spec_pi_target_after(input: Seq<u8>, pos: int, cur: InflightV) -> StepV {
    match crate::reader::peek_spec(input, pos) {
        Some(c) => {
            if is_ws(c) {
                stv(TokenState::PiTargetAfter, pos + 1, cur, Seq::empty())
            } else {
                stv(TokenState::PiData, pos, cur, Seq::empty())
            }
        },
        None => stv(TokenState::PiData, pos, cur, Seq::empty()),
    }
}

pub open spec fn spec_pi_data(input: Seq<u8>, pos: int, cur: InflightV) -> StepV {
    if first_needle(input, pos, seq![63u8]) == input.len() {
        trunc_stv(
            Xml5Error::UnexpectedEof,
            input.len() as int,
            add_name(cur, input.subrange(pos, input.len() as int)),
        )
    } else if input[pos] == 63 {
        stv(TokenState::PiAfter, pos + 1, cur, Seq::empty())
    } else {
        let j = first_needle(input, pos, seq![63u8]);
        stv(TokenState::PiData, j, add_name(cur, input.subrange(pos, j)), Seq::empty())
    }
}

pub open spec fn spec_pi_after(input: Seq<u8>, pos: int, cur: InflightV) -> StepV {
    match crate::reader::peek_spec(input, pos) {
        None => stv(TokenState::PiData, pos, cur, Seq::empty()),
        Some(c) => {
            if c == 62 {
                emit_stv(pos + 1, cur)
            } else if c == 63 {
                stv(TokenState::PiAfter, pos + 1, add_name(cur, seq![63u8]), Seq::empty())
            } else {
                stv(TokenState::PiData, pos, add_name(cur, seq![63u8]), Seq::empty())
            }
        },
    }
}

pub open spec fn spec_xml_decl(input: Seq<u8>, pos: int, cur: InflightV) -> StepV {
    match crate::reader::peek_spec(input, pos) {
        None => trunc_stv(Xml5Error::EofInXmlDeclaration, pos, cur),
        Some(c) => {
            if is_ws(c) {
                stv(TokenState::XmlDecl, pos + 1, cur, Seq::empty())
            } else if c == 63 {
                stv(TokenState::XmlDeclAfter, pos + 1, cur, Seq::empty())
            } else if c == 118 || c == 101 || c == 115 {
                stv(TokenState::XmlDeclAttrName, pos, cur, Seq::empty())
            } else {
                StepV {
                    m: MState {
                        state: TokenState::PiData,
                        pos,
                        cur: add_target(
                            with_kind(flushed(cur), CurrentToken::ProcessingInstruction),
                            kw_xml(),
                        ),
                        done: false,
                    },
                    out: flush_out(cur.text) + seq![
                        TokenV::Error(Xml5Error::InvalidXmlDeclaration),
                    ],
                }
            }
        },
    }
}

pub open spec fn spec_xml_decl_attr_name(input: Seq<u8>, pos: int, cur: InflightV) -> StepV {
    if crate::reader::try_match_spec(input, pos, decl_attr_kw(XmlDeclAttr::Version), true) {
        stv(
            TokenState::XmlDeclAttrNameAfter,
            pos + 7,
            add_name(
                cur,
                crate::emitter::decl_attr_open_bytes(XmlDeclAttr::Version, cur.name.len() == 0),
            ),
            Seq::empty(),
        )
    } else if crate::reader::try_match_spec(input, pos, decl_attr_kw(XmlDeclAttr::Encoding), true) {
        stv(
            TokenState::XmlDeclAttrNameAfter,
            pos + 8,
            add_name(
                cur,
                crate::emitter::decl_attr_open_bytes(XmlDeclAttr::Encoding, cur.name.len() == 0),
            ),
            Seq::empty(),
        )
    } else if crate::reader::try_match_spec(
        input,
        pos,
        decl_attr_kw(XmlDeclAttr::Standalone),
        true,
    ) {
        stv(
            TokenState::XmlDeclAttrNameAfter,
            pos + 10,
            add_name(
                cur,
                crate::emitter::decl_attr_open_bytes(XmlDeclAttr::Standalone, cur.name.len() == 0),
            ),
            Seq::empty(),
        )
    } else {
        StepV {
            m: MState {
                state: TokenState::PiTarget,
                pos,
                cur: add_target(
                    with_kind(flushed(cur), CurrentToken::ProcessingInstruction),
                    kw_xml(),
                ),
                done: false,
            },
            out: flush_out(cur.text) + seq![TokenV::Error(Xml5Error::InvalidXmlDeclaration)],
        }
    }
}

pub open spec fn decl_attr_kw(attr: XmlDeclAttr) -> Seq<u8> {
    crate::emitter::decl_attr_name_bytes(attr)
}

pub open spec fn spec_xml_decl_attr_name_after(input: Seq<u8>, pos: int, cur: InflightV) -> StepV {
    match crate::reader::peek_spec(input, pos) {
        None => trunc_stv(Xml5Error::EofInXmlDeclaration, pos, cur),
        Some(c) => {
            if is_ws(c) {
                stv(TokenState::XmlDeclAttrNameAfter, pos + 1, cur, Seq::empty())
            } else if c == 61 {
                stv(TokenState::XmlDeclAttrValueBefore, pos + 1, cur, Seq::empty())
            } else {
                stv(
                    TokenState::PiTarget,
                    pos,
                    add_target(with_kind(cur, CurrentToken::ProcessingInstruction), kw_xml()),
                    Seq::empty(),
                )
            }
        },
    }
}

pub open spec fn spec_xml_decl_attr_value_before(
    input: Seq<u8>,
    pos: int,
    cur: InflightV,
) -> StepV {
    match crate::reader::peek_spec(input, pos) {
        None => trunc_stv(Xml5Error::EofInXmlDeclaration, pos, cur),
        Some(c) => {
            if is_ws(c) {
                stv(TokenState::XmlDeclAttrValueBefore, pos + 1, cur, Seq::empty())
            } else if c == 39 {
                stv(
                    TokenState::XmlDeclAttrValue(DeclQuote::SingleQuoted),
                    pos + 1,
                    cur,
                    Seq::empty(),
                )
            } else if c == 34 {
                stv(
                    TokenState::XmlDeclAttrValue(DeclQuote::DoubleQuoted),
                    pos + 1,
                    cur,
                    Seq::empty(),
                )
            } else {
                stv(
                    TokenState::PiTarget,
                    pos,
                    add_target(with_kind(cur, CurrentToken::ProcessingInstruction), kw_xml()),
                    Seq::empty(),
                )
            }
        },
    }
}

pub open spec fn decl_quote_byte(q: DeclQuote) -> u8 {
    match q {
        DeclQuote::SingleQuoted => 39u8,
        DeclQuote::DoubleQuoted => 34u8,
    }
}

pub open spec fn spec_xml_decl_attr_value(
    q: DeclQuote,
    input: Seq<u8>,
    pos: int,
    cur: InflightV,
) -> StepV {
    if first_needle(input, pos, seq![decl_quote_byte(q), 63u8]) == input.len() {
        trunc_stv(
            Xml5Error::EofInXmlDeclaration,
            input.len() as int,
            add_name(cur, input.subrange(pos, input.len() as int)),
        )
    } else if input[pos] == decl_quote_byte(q) {
        stv(TokenState::XmlDecl, pos + 1, add_name(cur, seq![34u8]), Seq::empty())
    } else if input[pos] == 63 {
        StepV {
            m: MState {
                state: TokenState::XmlDeclAfter,
                pos: pos + 1,
                cur: add_name(flushed(cur), seq![34u8]),
                done: false,
            },
            out: flush_out(cur.text) + seq![
                TokenV::Error(Xml5Error::AbruptClosingXmlDeclaration),
            ],
        }
    } else {
        let j = first_needle(input, pos, seq![decl_quote_byte(q), 63u8]);
        stv(
            TokenState::XmlDeclAttrValue(q),
            j,
            add_name(cur, input.subrange(pos, j)),
            Seq::empty(),
        )
    }
}

pub open spec fn spec_xml_decl_after(input: Seq<u8>, pos: int, cur: InflightV) -> StepV {
    match crate::reader::peek_spec(input, pos) {
        None => trunc_stv(Xml5Error::EofInXmlDeclaration, pos, cur),
        Some(c) => {
            if c == 62 {
                emit_stv(pos + 1, cur)
            } else {
                stv(TokenState::XmlDecl, pos, cur, Seq::empty())
            }
        },
    }
}

/// `<!` dispatch: `--` opens a comment, `DOCTYPE` (any case) a doctype,
/// `[CDATA[` a CDATA section; anything else is a bogus comment.
pub open spec fn spec_markup_decl(input: Seq<u8>, pos: int, cur: InflightV) -> StepV {
    if crate::reader::try_match_spec(input, pos, kw_dashdash(), true) {
        stv(
            TokenState::CommentStart,
            pos + 2,
            with_kind(cur, CurrentToken::Comment),
            Seq::empty(),
        )
    } else if crate::reader::try_match_spec(input, pos, kw_doctype(), false) {
        stv(TokenState::Doctype, pos + 7, cur, Seq::empty())
    } else if crate::reader::try_match_spec(input, pos, kw_cdata(), true) {
        stv(TokenState::Cdata, pos + 7, with_kind(cur, CurrentToken::CData), Seq::empty())
    } else {
        StepV {
            m: MState {
                state: TokenState::BogusComment,
                pos,
                cur: with_kind(flushed(cur), CurrentToken::Comment),
                done: false,
            },
            out: flush_out(cur.text) + seq![TokenV::Error(Xml5Error::IncorrectlyOpenedComment)],
        }
    }
}

pub open spec fn spec_comment_start(input: Seq<u8>, pos: int, cur: InflightV) -> StepV {
    match crate::reader::peek_spec(input, pos) {
        Some(c) => {
            if c == 45 {
                stv(TokenState::CommentStartDash, pos + 1, cur, Seq::empty())
            } else if c == 62 {
                StepV {
                    m: MState {
                        state: TokenState::Data,
                        pos: pos + 1,
                        cur: empty_inflight(),
                        done: false,
                    },
                    out: flush_out(cur.text) + seq![
                        TokenV::Error(Xml5Error::AbruptClosingEmptyComment),
                        partial_v(flushed(cur)),
                    ],
                }
            } else {
                stv(TokenState::Comment, pos, cur, Seq::empty())
            }
        },
        None => stv(TokenState::Comment, pos, cur, Seq::empty()),
    }
}

pub open spec fn spec_comment_start_dash(input: Seq<u8>, pos: int, cur: InflightV) -> StepV {
    match crate::reader::peek_spec(input, pos) {
        None => trunc_stv(Xml5Error::EofInComment, pos, cur),
        Some(c) => {
            if c == 45 {
                stv(TokenState::CommentEnd, pos + 1, cur, Seq::empty())
            } else if c == 62 {
                StepV {
                    m: MState {
                        state: TokenState::Data,
                        pos: pos + 1,
                        cur: empty_inflight(),
                        done: false,
                    },
                    out: flush_out(cur.text) + seq![
                        TokenV::Error(Xml5Error::AbruptClosingEmptyComment),
                        partial_v(flushed(cur)),
                    ],
                }
            } else {
                stv(TokenState::Comment, pos, add_name(cur, seq![45u8]), Seq::empty())
            }
        },
    }
}

pub open spec fn spec_comment(input: Seq<u8>, pos: int, cur: InflightV) -> StepV {
    if first_needle(input, pos, seq![60u8, 45u8]) == input.len() {
        trunc_stv(
            Xml5Error::EofInComment,
            input.len() as int,
            add_name(cur, input.subrange(pos, input.len() as int)),
        )
    } else if input[pos] == 60 {
        stv(
            TokenState::CommentLessThan,
            pos + 1,
            add_name(cur, seq![60u8]),
            Seq::empty(),
        )
    } else if input[pos] == 45 {
        stv(TokenState::CommentEndDash, pos + 1, cur, Seq::empty())
    } else {
        let j = first_needle(input, pos, seq![60u8, 45u8]);
        stv(TokenState::Comment, j, add_name(cur, input.subrange(pos, j)), Seq::empty())
    }
}

pub open spec fn spec_comment_less_than(input: Seq<u8>, pos: int, cur: InflightV) -> StepV {
    match crate::reader::peek_spec(input, pos) {
        Some(c) => {
            if c == 33 {
                stv(
                    TokenState::CommentLessThanBang,
                    pos + 1,
                    add_name(cur, seq![33u8]),
                    Seq::empty(),
                )
            } else if c == 60 {
                stv(
                    TokenState::CommentLessThan,
                    pos + 1,
                    add_name(cur, seq![60u8]),
                    Seq::empty(),
                )
            } else {
                stv(TokenState::Comment, pos, cur, Seq::empty())
            }
        },
        None => stv(TokenState::Comment, pos, cur, Seq::empty()),
    }
}

pub open spec fn spec_comment_less_than_bang(input: Seq<u8>, pos: int, cur: InflightV) -> StepV {
    match crate::reader::peek_spec(input, pos) {
        Some(c) => {
            if c == 45 {
                stv(TokenState::CommentLessThanBangDash, pos + 1, cur, Seq::empty())
            } else {
                stv(TokenState::Comment, pos, cur, Seq::empty())
            }
        },
        None => stv(TokenState::Comment, pos, cur, Seq::empty()),
    }
}

pub open spec fn spec_comment_less_than_bang_dash(
    input: Seq<u8>,
    pos: int,
    cur: InflightV,
) -> StepV {
    match crate::reader::peek_spec(input, pos) {
        Some(c) => {
            if c == 45 {
                stv(TokenState::CommentLessThanBangDashDash, pos + 1, cur, Seq::empty())
            } else {
                stv(TokenState::CommentEndDash, pos, cur, Seq::empty())
            }
        },
        None => stv(TokenState::CommentEndDash, pos, cur, Seq::empty()),
    }
}

pub open spec fn spec_comment_less_than_bang_dash_dash(
    input: Seq<u8>,
    pos: int,
    cur: InflightV,
) -> StepV {
    stv(TokenState::CommentEnd, pos, cur, Seq::empty())
}

pub open spec fn spec_comment_end_dash(input: Seq<u8>, pos: int, cur: InflightV) -> StepV {
    match crate::reader::peek_spec(input, pos) {
        None => trunc_stv(Xml5Error::EofInComment, pos, cur),
        Some(c) => {
            if c == 45 {
                stv(TokenState::CommentEnd, pos + 1, cur, Seq::empty())
            } else {
                stv(TokenState::Comment, pos, add_name(cur, seq![45u8]), Seq::empty())
            }
        },
    }
}

pub open spec fn spec_comment_end(input: Seq<u8>, pos: int, cur: InflightV) -> StepV {
    match crate::reader::peek_spec(input, pos) {
        None => trunc_stv(Xml5Error::EofInComment, pos, cur),
        Some(c) => {
            if c == 62 {
                emit_stv(pos + 1, cur)
            } else if c == 33 {
                stv(TokenState::CommentEndBang, pos + 1, cur, Seq::empty())
            } else if c == 45 {
                stv(TokenState::CommentEnd, pos + 1, add_name(cur, seq![45u8]), Seq::empty())
            } else {
                stv(
                    TokenState::Comment,
                    pos,
                    add_name(cur, seq![45u8, 45u8]),
                    Seq::empty(),
                )
            }
        },
    }
}

pub open spec fn spec_comment_end_bang(input: Seq<u8>, pos: int, cur: InflightV) -> StepV {
    match crate::reader::peek_spec(input, pos) {
        None => trunc_stv(Xml5Error::EofInComment, pos, cur),
        Some(c) => {
            if c == 45 {
                stv(
                    TokenState::CommentEndDash,
                    pos + 1,
                    add_name(cur, seq![45u8, 45u8, 33u8]),
                    Seq::empty(),
                )
            } else if c == 62 {
                StepV {
                    m: MState {
                        state: TokenState::Data,
                        pos: pos + 1,
                        cur: empty_inflight(),
                        done: false,
                    },
                    out: flush_out(cur.text) + seq![
                        TokenV::Error(Xml5Error::GreaterThanInComment),
                        partial_v(flushed(cur)),
                    ],
                }
            } else {
                stv(
                    TokenState::Comment,
                    pos,
                    add_name(cur, seq![45u8, 45u8, 33u8]),
                    Seq::empty(),
                )
            }
        },
    }
}

pub open spec fn spec_cdata(input: Seq<u8>, pos: int, cur: InflightV) -> StepV {
    if first_needle(input, pos, seq![93u8]) == input.len() {
        trunc_stv(
            Xml5Error::EofInCdata,
            input.len() as int,
            add_name(cur, input.subrange(pos, input.len() as int)),
        )
    } else if input[pos] == 93 {
        stv(TokenState::CdataBracket, pos + 1, cur, Seq::empty())
    } else {
        let j = first_needle(input, pos, seq![93u8]);
        stv(TokenState::Cdata, j, add_name(cur, input.subrange(pos, j)), Seq::empty())
    }
}

pub open spec fn spec_cdata_bracket(input: Seq<u8>, pos: int, cur: InflightV) -> StepV {
    match crate::reader::peek_spec(input, pos) {
        None => trunc_stv(Xml5Error::EofInCdata, pos, cur),
        Some(c) => {
            if c == 93 {
                stv(TokenState::CdataEnd, pos + 1, cur, Seq::empty())
            } else {
                stv(TokenState::Cdata, pos + 1, add_name(cur, seq![93u8, c]), Seq::empty())
            }
        },
    }
}

pub open spec fn spec_cdata_end(input: Seq<u8>, pos: int, cur: InflightV) -> StepV {
    match crate::reader::peek_spec(input, pos) {
        None => trunc_stv(Xml5Error::EofInCdata, pos, cur),
        Some(c) => {
            if c == 62 {
                emit_stv(pos + 1, cur)
            } else if c == 93 {
                stv(TokenState::CdataEnd, pos + 1, add_name(cur, seq![93u8]), Seq::empty())
            } else {
                stv(
                    TokenState::Cdata,
                    pos + 1,
                    add_name(cur, seq![93u8, 93u8, c]),
                    Seq::empty(),
                )
            }
        },
    }
}

pub open spec fn spec_bogus_comment(input: Seq<u8>, pos: int, cur: InflightV) -> StepV {
    if first_needle(input, pos, seq![62u8]) == input.len() {
        let cur1 = add_name(cur, input.subrange(pos, input.len() as int));
        StepV {
            m: MState {
                state: TokenState::Data,
                pos: input.len() as int,
                cur: empty_inflight(),
                done: true,
            },
            out: flush_out(cur1.text) + seq![partial_v(flushed(cur1)), TokenV::Eof],
        }
    } else if input[pos] == 62 {
        emit_stv(pos + 1, cur)
    } else {
        let j = first_needle(input, pos, seq![62u8]);
        stv(TokenState::BogusComment, j, add_name(cur, input.subrange(pos, j)), Seq::empty())
    }
}

pub open spec fn spec_doctype(input: Seq<u8>, pos: int, cur: InflightV) -> StepV {
    match crate::reader::peek_spec(input, pos) {
        None => trunc_stv(
            Xml5Error::EofInDoctype,
            pos,
            with_kind(cur, CurrentToken::Doctype),
        ),
        Some(c) => {
            if is_ws(c) {
                stv(TokenState::BeforeDoctypeName, pos + 1, cur, Seq::empty())
            } else {
                err_stv(
                    TokenState::BeforeDoctypeName,
                    pos,
                    cur,
                    Xml5Error::MissingWhitespaceDoctype,
                )
            }
        },
    }
}

pub open spec fn spec_before_doctype_name(input: Seq<u8>, pos: int, cur: InflightV) -> StepV {
    match crate::reader::peek_spec(input, pos) {
        None => trunc_stv(
            Xml5Error::EofInDoctype,
            pos,
            with_kind(cur, CurrentToken::Doctype),
        ),
        Some(c) => {
            if is_ws(c) {
                stv(TokenState::BeforeDoctypeName, pos + 1, cur, Seq::empty())
            } else if c == 62 {
                StepV {
                    m: MState {
                        state: TokenState::Data,
                        pos: pos + 1,
                        cur: empty_inflight(),
                        done: false,
                    },
                    out: flush_out(cur.text) + seq![
                        TokenV::Error(Xml5Error::MissingDoctypeName),
                        partial_v(with_kind(flushed(cur), CurrentToken::Doctype)),
                    ],
                }
            } else {
                stv(
                    TokenState::DoctypeName,
                    pos + 1,
                    add_name(
                        with_kind(cur, CurrentToken::Doctype),
                        seq![crate::reader::lower(c)],
                    ),
                    Seq::empty(),
                )
            }
        },
    }
}

pub open spec fn spec_doctype_name(input: Seq<u8>, pos: int, cur: InflightV) -> StepV {
    match crate::reader::peek_spec(input, pos) {
        None => trunc_stv(Xml5Error::EofInDoctype, pos, cur),
        Some(c) => {
            if is_ws(c) {
                stv(TokenState::AfterDoctypeName(0), pos + 1, cur, Seq::empty())
            } else if c == 62 {
                emit_stv(pos + 1, cur)
            } else {
                stv(
                    TokenState::DoctypeName,
                    pos + 1,
                    add_name(cur, seq![crate::reader::lower(c)]),
                    Seq::empty(),
                )
            }
        },
    }
}

pub open spec fn spec_after_doctype_name(
    depth: usize,
    input: Seq<u8>,
    pos: int,
    cur: InflightV,
) -> StepV {
    match crate::reader::peek_spec(input, pos) {
        None => trunc_stv(Xml5Error::EofInDoctype, pos, cur),
        Some(c) => {
            if is_ws(c) {
                stv(TokenState::AfterDoctypeName(depth), pos + 1, cur, Seq::empty())
            } else if c == 91 {
                let d2 = if depth < usize::MAX {
                    (depth + 1) as usize
                } else {
                    depth
                };
                stv(TokenState::AfterDoctypeName(d2), pos + 1, cur, Seq::empty())
            } else if c == 93 {
                if depth == 0 {
                    stv(TokenState::BogusDoctype, pos + 1, cur, Seq::empty())
                } else {
                    stv(
                        TokenState::AfterDoctypeName((depth - 1) as usize),
                        pos + 1,
                        cur,
                        Seq::empty(),
                    )
                }
            } else if c == 62 {
                if depth == 0 {
                    emit_stv(pos + 1, cur)
                } else {
                    stv(TokenState::AfterDoctypeName(depth), pos + 1, cur, Seq::empty())
                }
            } else if depth > 0 {
                stv(TokenState::AfterDoctypeName(depth), pos + 1, cur, Seq::empty())
            } else if (c == 80 || c == 112) && crate::reader::try_match_spec(
                input,
                pos,
                kw_public(),
                false,
            ) {
                stv(
                    TokenState::AfterDoctypeKeyword(DoctypeKind::Public),
                    pos + 6,
                    cur,
                    Seq::empty(),
                )
            } else if (c == 83 || c == 115) && crate::reader::try_match_spec(
                input,
                pos,
                kw_system(),
                false,
            ) {
                stv(
                    TokenState::AfterDoctypeKeyword(DoctypeKind::System),
                    pos + 6,
                    cur,
                    Seq::empty(),
                )
            } else {
                err_stv(
                    TokenState::BogusDoctype,
                    pos + 1,
                    cur,
                    Xml5Error::InvalidCharactersInAfterDoctypeName,
                )
            }
        },
    }
}

pub open spec fn spec_after_doctype_keyword(
    kind: DoctypeKind,
    input: Seq<u8>,
    pos: int,
    cur: InflightV,
) -> StepV {
    match crate::reader::peek_spec(input, pos) {
        None => trunc_stv(Xml5Error::EofInDoctype, pos, cur),
        Some(c) => {
            if is_ws(c) {
                stv(TokenState::BeforeDoctypeIdentifier(kind), pos + 1, cur, Seq::empty())
            } else if c == 34 || c == 39 {
                err_stv(
                    TokenState::BeforeDoctypeIdentifier(kind),
                    pos,
                    cur,
                    Xml5Error::MissingWhitespaceAfterDoctypeKeyword,
                )
            } else if c == 62 {
                StepV {
                    m: MState {
                        state: TokenState::Data,
                        pos: pos + 1,
                        cur: empty_inflight(),
                        done: false,
                    },
                    out: flush_out(cur.text) + seq![
                        TokenV::Error(Xml5Error::MissingDoctypeIdentifier),
                        partial_v(flushed(cur)),
                    ],
                }
            } else {
                err_stv(
                    TokenState::BogusDoctype,
                    pos,
                    cur,
                    Xml5Error::MissingQuoteBeforeIdentifier,
                )
            }
        },
    }
}

/// Make the selected doctype identifier present and empty.
pub open spec fn cleared_id(cur: InflightV, kind: DoctypeKind) -> InflightV {
    InflightV {
        public_id: if kind == DoctypeKind::Public {
            Some(Seq::empty())
        } else {
            cur.public_id
        },
        system_id: if kind == DoctypeKind::System {
            Some(Seq::empty())
        } else {
            cur.system_id
        },
        id_kind: kind,
        ..cur
    }
}

pub open spec fn spec_before_doctype_identifier(
    kind: DoctypeKind,
    input: Seq<u8>,
    pos: int,
    cur: InflightV,
) -> StepV {
    match crate::reader::peek_spec(input, pos) {
        None => trunc_stv(Xml5Error::EofInDoctype, pos, cur),
        Some(c) => {
            if is_ws(c) {
                stv(TokenState::BeforeDoctypeIdentifier(kind), pos + 1, cur, Seq::empty())
            } else if c == 34 {
                stv(
                    TokenState::DoctypeIdentifierDoubleQuoted(kind),
                    pos + 1,
                    cleared_id(cur, kind),
                    Seq::empty(),
                )
            } else if c == 39 {
                stv(
                    TokenState::DoctypeIdentifierSingleQuoted(kind),
                    pos + 1,
                    cleared_id(cur, kind),
                    Seq::empty(),
                )
            } else if c == 62 {
                StepV {
                    m: MState {
                        state: TokenState::Data,
                        pos: pos + 1,
                        cur: empty_inflight(),
                        done: false,
                    },
                    out: flush_out(cur.text) + seq![
                        TokenV::Error(Xml5Error::MissingDoctypeIdentifier),
                        partial_v(flushed(cur)),
                    ],
                }
            } else {
                err_stv(
                    TokenState::BogusDoctype,
                    pos,
                    cur,
                    Xml5Error::MissingQuoteBeforeIdentifier,
                )
            }
        },
    }
}

/// Append to the doctype identifier selected by `cur.id_kind`.
pub open spec fn add_id(cur: InflightV, s: Seq<u8>) -> InflightV {
    InflightV {
        public_id: if cur.id_kind == DoctypeKind::Public {
            Some(cur.public_id->0 + s)
        } else {
            cur.public_id
        },
        system_id: if cur.id_kind == DoctypeKind::System {
            Some(cur.system_id->0 + s)
        } else {
            cur.system_id
        },
        ..cur
    }
}

pub open spec fn spec_doctype_identifier_quoted(
    quote: u8,
    kind: DoctypeKind,
    input: Seq<u8>,
    pos: int,
    cur: InflightV,
) -> StepV {
    if first_needle(input, pos, seq![quote, 62u8]) == input.len() {
        trunc_stv(
            Xml5Error::EofInDoctype,
            input.len() as int,
            add_id(cur, input.subrange(pos, input.len() as int)),
        )
    } else if input[pos] == quote {
        stv(TokenState::AfterDoctypeIdentifier(kind), pos + 1, cur, Seq::empty())
    } else if input[pos] == 62 {
        StepV {
            m: MState { state: TokenState::Data, pos: pos + 1, cur: empty_inflight(), done: false },
            out: flush_out(cur.text) + seq![
                TokenV::Error(Xml5Error::AbruptEndDoctypeIdentifier),
                partial_v(flushed(cur)),
            ],
        }
    } else {
        let j = first_needle(input, pos, seq![quote, 62u8]);
        let st = if quote == 34 {
            TokenState::DoctypeIdentifierDoubleQuoted(kind)
        } else {
            TokenState::DoctypeIdentifierSingleQuoted(kind)
        };
        stv(st, j, add_id(cur, input.subrange(pos, j)), Seq::empty())
    }
}

pub open spec fn spec_after_doctype_identifier(
    kind: DoctypeKind,
    input: Seq<u8>,
    pos: int,
    cur: InflightV,
) -> StepV {
    match crate::reader::peek_spec(input, pos) {
        None => trunc_stv(Xml5Error::EofInDoctype, pos, cur),
        Some(c) => {
            if c == 62 {
                emit_stv(pos + 1, cur)
            } else if is_ws(c) {
                match kind {
                    DoctypeKind::Public => stv(
                        TokenState::BetweenDoctypePublicAndSystemIdentifiers,
                        pos + 1,
                        cur,
                        Seq::empty(),
                    ),
                    DoctypeKind::System => stv(
                        TokenState::AfterDoctypeIdentifier(kind),
                        pos + 1,
                        cur,
                        Seq::empty(),
                    ),
                }
            } else if (c == 34 || c == 39) && kind == DoctypeKind::Public {
                err_stv(
                    TokenState::BeforeDoctypeIdentifier(DoctypeKind::System),
                    pos,
                    cur,
                    Xml5Error::MissingWhitespaceBetweenDoctypePublicAndSystem,
                )
            } else {
                err_stv(
                    TokenState::BogusDoctype,
                    pos,
                    cur,
                    Xml5Error::MissingQuoteBeforeIdentifier,
                )
            }
        },
    }
}

pub open spec fn spec_between_doctype_ids(input: Seq<u8>, pos: int, cur: InflightV) -> StepV {
    match crate::reader::peek_spec(input, pos) {
        None => trunc_stv(Xml5Error::EofInDoctype, pos, cur),
        Some(c) => {
            if is_ws(c) {
                stv(
                    TokenState::BetweenDoctypePublicAndSystemIdentifiers,
                    pos + 1,
                    cur,
                    Seq::empty(),
                )
            } else if c == 62 {
                emit_stv(pos + 1, cur)
            } else if c == 34 {
                stv(
                    TokenState::DoctypeIdentifierDoubleQuoted(DoctypeKind::System),
                    pos + 1,
                    cleared_id(cur, DoctypeKind::System),
                    Seq::empty(),
                )
            } else if c == 39 {
                stv(
                    TokenState::DoctypeIdentifierSingleQuoted(DoctypeKind::System),
                    pos + 1,
                    cleared_id(cur, DoctypeKind::System),
                    Seq::empty(),
                )
            } else {
                err_stv(
                    TokenState::BogusDoctype,
                    pos,
                    cur,
                    Xml5Error::MissingQuoteBeforeIdentifier,
                )
            }
        },
    }
}

pub open spec fn spec_bogus_doctype(input: Seq<u8>, pos: int, cur: InflightV) -> StepV {
    if first_needle(input, pos, seq![62u8]) == input.len() {
        StepV {
            m: MState { state: TokenState::Data, pos, cur: empty_inflight(), done: true },
            out: flush_out(cur.text) + seq![partial_v(flushed(cur)), TokenV::Eof],
        }
    } else if input[pos] == 62 {
        emit_stv(pos + 1, cur)
    } else {
        let j = first_needle(input, pos, seq![62u8]);
        stv(TokenState::BogusDoctype, j, cur, Seq::empty())
    }
}

/// The spec-level transition function: one machine step on the given input.
pub open spec fn step_spec(input: Seq<u8>, m: MState) -> StepV {
    if m.done {
        StepV { m, out: Seq::empty() }
    } else {
        match m.state {
            TokenState::Data => spec_data(input, m.pos, m.cur),
            TokenState::CharRefInData(k) => spec_char_ref(k, m.pos, m.cur),
            TokenState::TagOpen => spec_tag_open(input, m.pos, m.cur),
            TokenState::EndTagOpen => spec_end_tag_open(input, m.pos, m.cur),
            TokenState::EndTagName => spec_end_tag_name(input, m.pos, m.cur),
            TokenState::EndTagNameAfter => spec_end_tag_name_after(input, m.pos, m.cur),
            TokenState::TagName => spec_tag_name(input, m.pos, m.cur),
            TokenState::EmptyTag => spec_empty_tag(input, m.pos, m.cur),
            TokenState::TagAttrNameBefore => spec_attr_name_before(input, m.pos, m.cur),
            TokenState::TagAttrName => spec_attr_name(input, m.pos, m.cur),
            TokenState::TagAttrValueBefore => spec_attr_value_before(input, m.pos, m.cur),
            TokenState::TagAttrValue(k) => spec_attr_value(k, input, m.pos, m.cur),
            TokenState::Pi => spec_pi(input, m.pos, m.cur),
            TokenState::PiTarget => spec_pi_target(input, m.pos, m.cur),
            TokenState::PiTargetAfter => spec_pi_target_after(input, m.pos, m.cur),
            TokenState::PiData => spec_pi_data(input, m.pos, m.cur),
            TokenState::PiAfter => spec_pi_after(input, m.pos, m.cur),
            TokenState::XmlDecl => spec_xml_decl(input, m.pos, m.cur),
            TokenState::XmlDeclAttrName => spec_xml_decl_attr_name(input, m.pos, m.cur),
            TokenState::XmlDeclAttrNameAfter => spec_xml_decl_attr_name_after(
                input,
                m.pos,
                m.cur,
            ),
            TokenState::XmlDeclAttrValueBefore => spec_xml_decl_attr_value_before(
                input,
                m.pos,
                m.cur,
            ),
            TokenState::XmlDeclAttrValue(q) => spec_xml_decl_attr_value(q, input, m.pos, m.cur),
            TokenState::XmlDeclAfter => spec_xml_decl_after(input, m.pos, m.cur),
            TokenState::MarkupDecl => spec_markup_decl(input, m.pos, m.cur),
            TokenState::CommentStart => spec_comment_start(input, m.pos, m.cur),
            TokenState::CommentStartDash => spec_comment_start_dash(input, m.pos, m.cur),
            TokenState::Comment => spec_comment(input, m.pos, m.cur),
            TokenState::CommentLessThan => spec_comment_less_than(input, m.pos, m.cur),
            TokenState::CommentLessThanBang => spec_comment_less_than_bang(input, m.pos, m.cur),
            TokenState::CommentLessThanBangDash => spec_comment_less_than_bang_dash(
                input,
                m.pos,
                m.cur,
            ),
            TokenState::CommentLessThanBangDashDash => spec_comment_less_than_bang_dash_dash(
                input,
                m.pos,
                m.cur,
            ),
            TokenState::CommentEnd => spec_comment_end(input, m.pos, m.cur),
            TokenState::CommentEndDash => spec_comment_end_dash(input, m.pos, m.cur),
            TokenState::CommentEndBang => spec_comment_end_bang(input, m.pos, m.cur),
            TokenState::Cdata => spec_cdata(input, m.pos, m.cur),
            TokenState::CdataBracket => spec_cdata_bracket(input, m.pos, m.cur),
            TokenState::CdataEnd => spec_cdata_end(input, m.pos, m.cur),
            TokenState::BogusComment => spec_bogus_comment(input, m.pos, m.cur),
            TokenState::Doctype => spec_doctype(input, m.pos, m.cur),
            TokenState::BeforeDoctypeName => spec_before_doctype_name(input, m.pos, m.cur),
            TokenState::DoctypeName => spec_doctype_name(input, m.pos, m.cur),
            TokenState::AfterDoctypeName(d) => spec_after_doctype_name(d, input, m.pos, m.cur),
            TokenState::AfterDoctypeKeyword(k) => spec_after_doctype_keyword(
                k,
                input,
                m.pos,
                m.cur,
            ),
            TokenState::BeforeDoctypeIdentifier(k) => spec_before_doctype_identifier(
                k,
                input,
                m.pos,
                m.cur,
            ),
            TokenState::DoctypeIdentifierDoubleQuoted(k) => spec_doctype_identifier_quoted(
                34u8,
                k,
                input,
                m.pos,
                m.cur,
            ),
            TokenState::DoctypeIdentifierSingleQuoted(k) => spec_doctype_identifier_quoted(
                39u8,
                k,
                input,
                m.pos,
                m.cur,
            ),
            TokenState::AfterDoctypeIdentifier(k) => spec_after_doctype_identifier(
                k,
                input,
                m.pos,
                m.cur,
            ),
            TokenState::BetweenDoctypePublicAndSystemIdentifiers => spec_between_doctype_ids(
                input,
                m.pos,
                m.cur,
            ),
            TokenState::BogusDoctype => spec_bogus_doctype(input, m.pos, m.cur),
        }
    }
}

pub open spec fn spec_end_tag_name_after(input: Seq<u8>, pos: int, cur: InflightV) -> StepV {
    match crate::reader::peek_spec(input, pos) {
        None => trunc_stv(Xml5Error::EofInTag, pos, cur),
        Some(c) => {
            if c == 62 {
                emit_stv(pos + 1, cur)
            } else if is_ws(c) {
                stv(TokenState::EndTagNameAfter, pos + 1, cur, Seq::empty())
            } else {
                err_stv(
                    TokenState::EndTagNameAfter,
                    pos + 1,
                    cur,
                    Xml5Error::UnexpectedSymbolOrEof(Some(c)),
                )
            }
        },
    }
}

/// The invariant the iterator maintains between machine drives.
pub open spec fn machine_inv<R: Reader>(t: Tokenizer, r: R, e: DefaultEmitter) -> bool {
    &&& r.wf()
    &&& e.inv(r.backing())
    &&& mst_wf(t.state, e.cur_v(r.backing()))
    &&& (t.eof <==> e.eof_done)
}

/// The precondition of every machine step: valid reader, emitter invariant,
/// stream still open, machine and emitter agreeing on the in-flight token.
pub open spec fn step_pre<R: Reader>(t0: Tokenizer, r0: R, e0: DefaultEmitter) -> bool {
    &&& r0.wf()
    &&& e0.inv(r0.backing())
    &&& !e0.eof_done
    &&& !t0.eof
    &&& mst_wf(t0.state, e0.cur_v(r0.backing()))
}

/// What one executable machine step guarantees, measured against a
/// spec-level step `sv`: the reader keeps its input and extends its backing,
/// the emitter invariant is maintained, and the new configuration and
/// emitted tokens are exactly those of `sv`.
pub open spec fn step_effects<R: Reader>(
    t0: Tokenizer,
    r0: R,
    e0: DefaultEmitter,
    t1: Tokenizer,
    r1: R,
    e1: DefaultEmitter,
    c: Control,
    sv: StepV,
) -> bool {
    &&& r1.wf()
    &&& r1.input() == r0.input()
    &&& r0.backing().len() <= r1.backing().len()
    &&& r1.backing().subrange(0, r0.backing().len() as int) == r0.backing()
    &&& e1.inv(r1.backing())
    &&& e1.popped_v() == e0.popped_v()
    &&& t1.state == sv.m.state
    &&& r1.pos() == sv.m.pos
    &&& e1.cur_v(r1.backing()) == sv.m.cur
    &&& e1.hist() == e0.hist() + sv.out
    &&& t1.eof == sv.m.done
    &&& e1.eof_done == sv.m.done
    &&& (c is Eof <==> sv.m.done)
    &&& mst_wf(t1.state, e1.cur_v(r1.backing()))
    &&& t1.encoding == t0.encoding
    &&& t1.is_encoding_set == t0.is_encoding_set
}

/// One executable machine step realizes `step_spec`.
pub open spec fn handler_post<R: Reader>(
    t0: Tokenizer,
    r0: R,
    e0: DefaultEmitter,
    t1: Tokenizer,
    r1: R,
    e1: DefaultEmitter,
    c: Control,
) -> bool {
    step_effects(
        t0,
        r0,
        e0,
        t1,
        r1,
        e1,
        c,
        step_spec(
            r0.input(),
            MState { state: t0.state, pos: r0.pos(), cur: e0.cur_v(r0.backing()), done: false },
        ),
    )
}

impl Tokenizer {
    /// A fresh tokenizer in the `Data` state.
    pub fn new() -> (r: Tokenizer)
        ensures
            r.state == TokenState::Data,
            r.eof == false,
            r.encoding == EncodingKind::Utf8,
            r.is_encoding_set == false,
    {
        Tokenizer {
            state: TokenState::Data,
            eof: false,
            encoding: EncodingKind::Utf8,
            is_encoding_set: false,
        }
    }

    /// One step of the `Data` state.
    #[verifier::rlimit(100)]
    #[verifier::spinoff_prover]
    fn step_data<R: Reader>(&mut self, r: &mut R, e: &mut DefaultEmitter) -> (c: Control)
        requires
            step_pre(*old(self), *old(r), *old(e)),
            old(self).state is Data,
        ensures
            step_effects(
                *old(self),
                *old(r),
                *old(e),
                *final(self),
                *final(r),
                *final(e),
                c,
                spec_data(old(r).input(), old(r).pos(), old(e).cur_v(old(r).backing())),
            ),
    {
        let ghost input = r.input();
        let ghost pos0 = r.pos();
        let ghost b0 = r.backing();
        let ghost cur0 = e.cur_v(b0);
        let ghost sv = spec_data(input, pos0, cur0);
        proof {
            r.wf_facts();
            assert(b0.subrange(0, b0.len() as int) =~= b0);
        }
        let needles: Vec<u8> = vec![60u8, 38u8];
        proof {
            assert(needles@ =~= seq![60u8, 38u8]);
        }
        let res = r.read_fast_until(needles.as_slice());
        proof {
            e.lemma_inv_backing_extend(b0, r.backing());
        }
        match res {
            FastRead::EOF => {
                proof {
                    lemma_first_needle_range(input, pos0, input.len() as int, seq![60u8, 38u8]);
                }
                let rest = r.read_to_end();
                proof {
                    e.lemma_inv_backing_extend(b0, r.backing());
                }
                match rest {
                    Some((s2, e2)) => {
                        e.emit_chars(s2, e2, Ghost(r.backing()));
                    }
                    None => {
                        proof {
                            assert(input.subrange(pos0, input.len() as int) =~= Seq::<u8>::empty());
                        }
                    }
                }
                e.emit_eof(Ghost(r.backing()));
                self.eof = true;
                proof {
                    let cur1 = add_text(cur0, input.subrange(pos0, input.len() as int));
                    assert(sv.m.cur =~= flushed(cur1));
                    assert(sv.out =~= flush_out(cur1.text) + seq![TokenV::Eof]);
                    assert(e.cur_v(r.backing()) =~= sv.m.cur);
                    assert(e.hist() =~= old(e).hist() + sv.out);
                    assert(mst_wf(self.state, e.cur_v(r.backing())));
                }
                Control::Eof
            }
            FastRead::Char(ch) => {
                proof {
                    lemma_first_needle_range(input, pos0, pos0, seq![60u8, 38u8]);
                }
                proof {
                    assert(seq![60u8, 38u8].contains(ch));
                    assert(ch == 60 || ch == 38) by {
                        assert(seq![60u8, 38u8][0] == 60u8);
                        assert(seq![60u8, 38u8][1] == 38u8);
                    }
                }
                if ch == 60 {
                    self.state = TokenState::TagOpen;
                } else {
                    self.state = TokenState::CharRefInData(AttrValueKind::Unquoted);
                }
                proof {
                    assert(sv.m.state == self.state && sv.m.pos == r.pos() && sv.m.cur == cur0
                        && !sv.m.done && sv.out =~= Seq::<TokenV>::empty());
                    assert(e.hist() =~= old(e).hist() + sv.out);
                    assert(mst_wf(self.state, e.cur_v(r.backing())));
                }
                Control::Continue
            }
            FastRead::InterNeedle(s, en) => {
                e.emit_chars(s, en, Ghost(r.backing()));
                proof {
                    lemma_first_needle_range(input, pos0, r.pos(), seq![60u8, 38u8]);
                    assert(sv.m.state == TokenState::Data && sv.m.pos == r.pos() && !sv.m.done);
                    assert(sv.m.cur == add_text(cur0, input.subrange(pos0, r.pos())));
                    assert(e.cur_v(r.backing()) =~= sv.m.cur);
                    assert(sv.out =~= Seq::<TokenV>::empty());
                    assert(e.hist() =~= old(e).hist() + sv.out);
                    assert(mst_wf(self.state, e.cur_v(r.backing())));
                }
                Control::Continue
            }
        }
    }

    /// One step of the character-reference state: the `&` stays as literal
    /// content of the surrounding text or attribute value.
    #[verifier::rlimit(100)]
    #[verifier::spinoff_prover]
    fn step_char_ref<R: Reader>(&mut self, r: &mut R, e: &mut DefaultEmitter) -> (c: Control)
        requires
            step_pre(*old(self), *old(r), *old(e)),
            old(self).state is CharRefInData,
        ensures
            step_effects(
                *old(self),
                *old(r),
                *old(e),
                *final(self),
                *final(r),
                *final(e),
                c,
                spec_char_ref(
                    old(self).state->CharRefInData_0,
                    old(r).pos(),
                    old(e).cur_v(old(r).backing()),
                ),
            ),
    {
        let ghost b0 = r.backing();
        let ghost cur0 = e.cur_v(b0);
        let ghost sv = spec_char_ref(self.state->CharRefInData_0, r.pos(), cur0);
        proof {
            r.wf_facts();
            assert(b0.subrange(0, b0.len() as int) =~= b0);
        }
        match self.state {
            TokenState::CharRefInData(AttrValueKind::Unquoted) => {
                let amp: Vec<u8> = vec![38u8];
                assert(amp@ =~= seq![38u8]);
                e.emit_chars_now(amp, Ghost(r.backing()));
                self.state = TokenState::Data;
            }
            TokenState::CharRefInData(AttrValueKind::DoubleQuoted) => {
                e.attr_value_byte(38u8, Ghost(r.backing()));
                self.state = TokenState::TagAttrValue(AttrValueKind::DoubleQuoted);
            }
            TokenState::CharRefInData(AttrValueKind::SingleQuoted) => {
                e.attr_value_byte(38u8, Ghost(r.backing()));
                self.state = TokenState::TagAttrValue(AttrValueKind::SingleQuoted);
            }
            _ => {
                proof {
                    assert(false);
                }
            }
        }
        proof {
            assert(e.cur_v(r.backing()) =~= sv.m.cur);
            assert(e.hist() =~= old(e).hist() + sv.out);
            assert(mst_wf(self.state, e.cur_v(r.backing())));
        }
        Control::Continue
    }

    /// One step of the `TagOpen` state.
    #[verifier::rlimit(100)]
    #[verifier::spinoff_prover]
    fn step_tag_open<R: Reader>(&mut self, r: &mut R, e: &mut DefaultEmitter) -> (c: Control)
        requires
            step_pre(*old(self), *old(r), *old(e)),
            old(self).state is TagOpen,
        ensures
            step_effects(
                *old(self),
                *old(r),
                *old(e),
                *final(self),
                *final(r),
                *final(e),
                c,
                spec_tag_open(old(r).input(), old(r).pos(), old(e).cur_v(old(r).backing())),
            ),
    {
        let ghost b0 = r.backing();
        let ghost cur0 = e.cur_v(b0);
        let ghost sv = spec_tag_open(r.input(), r.pos(), cur0);
        proof {
            r.wf_facts();
            assert(b0.subrange(0, b0.len() as int) =~= b0);
        }
        match r.peek_byte() {
            None => {
                e.emit_error(Xml5Error::UnexpectedSymbolOrEof(None), Ghost(r.backing()));
                let lt: Vec<u8> = vec![60u8];
                assert(lt@ =~= seq![60u8]);
                e.emit_chars_now(lt, Ghost(r.backing()));
                self.state = TokenState::Data;
                proof {
                    assert(e.cur_v(r.backing()) =~= sv.m.cur);
                    assert(e.hist() =~= old(e).hist() + sv.out);
                    assert(mst_wf(self.state, e.cur_v(r.backing())));
                }
                Control::Continue
            }
            Some(ch) => {
                if ch == 47 {
                    r.consume_bytes(1);
                    self.state = TokenState::EndTagOpen;
                    proof {
                        assert(e.cur_v(r.backing()) =~= sv.m.cur);
                        assert(e.hist() =~= old(e).hist() + sv.out);
                    }
                    Control::Continue
                } else if ch == 63 {
                    r.consume_bytes(1);
                    self.state = TokenState::Pi;
                    proof {
                        assert(e.cur_v(r.backing()) =~= sv.m.cur);
                        assert(e.hist() =~= old(e).hist() + sv.out);
                    }
                    Control::Continue
                } else if ch == 33 {
                    r.consume_bytes(1);
                    self.state = TokenState::MarkupDecl;
                    proof {
                        assert(e.cur_v(r.backing()) =~= sv.m.cur);
                        assert(e.hist() =~= old(e).hist() + sv.out);
                    }
                    Control::Continue
                } else if ch == 9 || ch == 10 || ch == 32 || ch == 58 || ch == 60 || ch == 62 {
                    e.emit_error(
                        Xml5Error::UnexpectedSymbolOrEof(Some(ch)),
                        Ghost(r.backing()),
                    );
                    let lt: Vec<u8> = vec![60u8];
                    assert(lt@ =~= seq![60u8]);
                    e.emit_chars_now(lt, Ghost(r.backing()));
                    r.consume_bytes(1);
                    self.state = TokenState::Data;
                    proof {
                        assert(e.cur_v(r.backing()) =~= sv.m.cur);
                        assert(e.hist() =~= old(e).hist() + sv.out);
                        assert(mst_wf(self.state, e.cur_v(r.backing())));
                    }
                    Control::Continue
                } else {
                    e.create_tag(Ghost(r.backing()));
                    self.state = TokenState::TagName;
                    proof {
                        assert(e.cur_v(r.backing()) =~= sv.m.cur);
                        assert(e.hist() =~= old(e).hist() + sv.out);
                        assert(mst_wf(self.state, e.cur_v(r.backing())));
                    }
                    Control::Continue
                }
            }
        }
    }

    /// One step of the `EndTagOpen` state.
    #[verifier::rlimit(100)]
    #[verifier::spinoff_prover]
    fn step_end_tag_open<R: Reader>(&mut self, r: &mut R, e: &mut DefaultEmitter) -> (c: Control)
        requires
            step_pre(*old(self), *old(r), *old(e)),
            old(self).state is EndTagOpen,
        ensures
            step_effects(
                *old(self),
                *old(r),
                *old(e),
                *final(self),
                *final(r),
                *final(e),
                c,
                spec_end_tag_open(old(r).input(), old(r).pos(), old(e).cur_v(old(r).backing())),
            ),
    {
        let ghost b0 = r.backing();
        let ghost cur0 = e.cur_v(b0);
        let ghost sv = spec_end_tag_open(r.input(), r.pos(), cur0);
        proof {
            r.wf_facts();
            assert(b0.subrange(0, b0.len() as int) =~= b0);
        }
        match r.peek_byte() {
            None => {
                e.emit_error(Xml5Error::UnexpectedSymbolOrEof(None), Ghost(r.backing()));
                let ltsl: Vec<u8> = vec![60u8, 47u8];
                assert(ltsl@ =~= seq![60u8, 47u8]);
                e.emit_chars_now(ltsl, Ghost(r.backing()));
                self.state = TokenState::Data;
                proof {
                    assert(e.cur_v(r.backing()) =~= sv.m.cur);
                    assert(e.hist() =~= old(e).hist() + sv.out);
                    assert(mst_wf(self.state, e.cur_v(r.backing())));
                }
                Control::Continue
            }
            Some(ch) => {
                if ch == 62 {
                    e.emit_short_end_tag(Ghost(r.backing()));
                    r.consume_bytes(1);
                    self.state = TokenState::Data;
                    proof {
                        assert(e.cur_v(r.backing()) =~= sv.m.cur);
                        assert(e.hist() =~= old(e).hist() + sv.out);
                    }
                    Control::Continue
                } else if ch == 9 || ch == 10 || ch == 32 || ch == 58 || ch == 60 {
                    e.emit_error(
                        Xml5Error::UnexpectedSymbolOrEof(Some(ch)),
                        Ghost(r.backing()),
                    );
                    let ltsl: Vec<u8> = vec![60u8, 47u8];
                    assert(ltsl@ =~= seq![60u8, 47u8]);
                    e.emit_chars_now(ltsl, Ghost(r.backing()));
                    self.state = TokenState::Data;
                    proof {
                        assert(e.cur_v(r.backing()) =~= sv.m.cur);
                        assert(e.hist() =~= old(e).hist() + sv.out);
                        assert(mst_wf(self.state, e.cur_v(r.backing())));
                    }
                    Control::Continue
                } else {
                    e.create_end_tag(Ghost(r.backing()));
                    self.state = TokenState::EndTagName;
                    proof {
                        assert(e.cur_v(r.backing()) =~= sv.m.cur);
                        assert(e.hist() =~= old(e).hist() + sv.out);
                        assert(mst_wf(self.state, e.cur_v(r.backing())));
                    }
                    Control::Continue
                }
            }
        }
    }

    /// One step of the `TagName` state.
    #[verifier::rlimit(100)]
    #[verifier::spinoff_prover]
    fn step_tag_name<R: Reader>(&mut self, r: &mut R, e: &mut DefaultEmitter) -> (c: Control)
        requires
            step_pre(*old(self), *old(r), *old(e)),
            old(self).state is TagName,
        ensures
            step_effects(
                *old(self),
                *old(r),
                *old(e),
                *final(self),
                *final(r),
                *final(e),
                c,
                spec_tag_name(old(r).input(), old(r).pos(), old(e).cur_v(old(r).backing())),
            ),
    {
        let ghost input = r.input();
        let ghost pos0 = r.pos();
        let ghost b0 = r.backing();
        let ghost cur0 = e.cur_v(b0);
        let ghost sv = spec_tag_name(input, pos0, cur0);
        proof {
            r.wf_facts();
            assert(b0.subrange(0, b0.len() as int) =~= b0);
        }
        let needles: Vec<u8> = vec![9u8, 10u8, 32u8, 62u8, 47u8];
        proof {
            assert(needles@ =~= seq![9u8, 10u8, 32u8, 62u8, 47u8]);
        }
        let res = r.read_fast_until(needles.as_slice());
        proof {
            e.lemma_inv_backing_extend(b0, r.backing());
        }
        match res {
            FastRead::EOF => {
                proof {
                    lemma_first_needle_range(input, pos0, input.len() as int, seq![9u8, 10u8, 32u8, 62u8, 47u8]);
                }
                let rest = r.read_to_end();
                proof {
                    e.lemma_inv_backing_extend(b0, r.backing());
                }
                match rest {
                    Some((s2, e2)) => {
                        e.append_primary(s2, e2, Ghost(r.backing()));
                    }
                    None => {
                        proof {
                            assert(input.subrange(pos0, input.len() as int) =~= Seq::<u8>::empty());
                        }
                    }
                }
                e.emit_truncation(Xml5Error::EofInTag, Ghost(r.backing()));
                self.state = TokenState::Data;
                self.eof = true;
                proof {
                    assert(e.cur_v(r.backing()) =~= sv.m.cur);
                    assert(e.hist() =~= old(e).hist() + sv.out);
                    assert(mst_wf(self.state, e.cur_v(r.backing())));
                }
                Control::Eof
            }
            FastRead::Char(ch) => {
                proof {
                    lemma_first_needle_range(input, pos0, pos0, seq![9u8, 10u8, 32u8, 62u8, 47u8]);
                }
                proof {
                    assert(seq![9u8, 10u8, 32u8, 62u8, 47u8].contains(ch));
                    assert(ch == 9 || ch == 10 || ch == 32 || ch == 62 || ch == 47) by {
                        assert(seq![9u8, 10u8, 32u8, 62u8, 47u8][0] == 9u8);
                        assert(seq![9u8, 10u8, 32u8, 62u8, 47u8][1] == 10u8);
                        assert(seq![9u8, 10u8, 32u8, 62u8, 47u8][2] == 32u8);
                        assert(seq![9u8, 10u8, 32u8, 62u8, 47u8][3] == 62u8);
                        assert(seq![9u8, 10u8, 32u8, 62u8, 47u8][4] == 47u8);
                    }
                }
                if ch == 62 {
                    e.emit_tag(Ghost(r.backing()));
                    self.state = TokenState::Data;
                    proof {
                        assert(partial_v(cur0) == (TokenV::StartTag {
                            name: cur0.name,
                            attrs: cur0.attrs,
                            self_closing: cur0.self_closing,
                        }));
                        assert(e.cur_v(r.backing()) =~= sv.m.cur);
                        assert(e.hist() =~= old(e).hist() + sv.out);
                    }
                    Control::Continue
                } else if ch == 47 {
                    e.set_empty_tag(Ghost(r.backing()));
                    self.state = TokenState::EmptyTag;
                    proof {
                        assert(e.cur_v(r.backing()) =~= sv.m.cur);
                        assert(e.hist() =~= old(e).hist() + sv.out);
                        assert(mst_wf(self.state, e.cur_v(r.backing())));
                    }
                    Control::Continue
                } else {
                    self.state = TokenState::TagAttrNameBefore;
                    proof {
                        assert(e.cur_v(r.backing()) =~= sv.m.cur);
                        assert(e.hist() =~= old(e).hist() + sv.out);
                    }
                    Control::Continue
                }
            }
            FastRead::InterNeedle(s, en) => {
                e.append_primary(s, en, Ghost(r.backing()));
                proof {
                    lemma_first_needle_range(
                        input,
                        pos0,
                        r.pos(),
                        seq![9u8, 10u8, 32u8, 62u8, 47u8],
                    );
                    assert(e.cur_v(r.backing()) =~= sv.m.cur);
                    assert(e.hist() =~= old(e).hist() + sv.out);
                }
                Control::Continue
            }
        }
    }

    /// One step of the `EmptyTag` state.
    #[verifier::rlimit(100)]
    #[verifier::spinoff_prover]
    fn step_empty_tag<R: Reader>(&mut self, r: &mut R, e: &mut DefaultEmitter) -> (c: Control)
        requires
            step_pre(*old(self), *old(r), *old(e)),
            old(self).state is EmptyTag,
        ensures
            step_effects(
                *old(self),
                *old(r),
                *old(e),
                *final(self),
                *final(r),
                *final(e),
                c,
                spec_empty_tag(old(r).input(), old(r).pos(), old(e).cur_v(old(r).backing())),
            ),
    {
        let ghost b0 = r.backing();
        let ghost cur0 = e.cur_v(b0);
        let ghost sv = spec_empty_tag(r.input(), r.pos(), cur0);
        proof {
            r.wf_facts();
            assert(b0.subrange(0, b0.len() as int) =~= b0);
        }
        match r.peek_byte() {
            Some(ch) => {
                if ch == 62 {
                    e.emit_tag(Ghost(r.backing()));
                    r.consume_bytes(1);
                    self.state = TokenState::Data;
                    proof {
                        assert(e.cur_v(r.backing()) =~= sv.m.cur);
                        assert(e.hist() =~= old(e).hist() + sv.out);
                    }
                    Control::Continue
                } else {
                    self.state = TokenState::TagAttrNameBefore;
                    proof {
                        assert(e.cur_v(r.backing()) =~= sv.m.cur);
                        assert(e.hist() =~= old(e).hist() + sv.out);
                    }
                    Control::Continue
                }
            }
            None => {
                self.state = TokenState::TagAttrNameBefore;
                proof {
                    assert(e.cur_v(r.backing()) =~= sv.m.cur);
                    assert(e.hist() =~= old(e).hist() + sv.out);
                }
                Control::Continue
            }
        }
    }

    /// One step of the `TagAttrNameBefore` state.
    #[verifier::rlimit(100)]
    #[verifier::spinoff_prover]
    fn step_attr_name_before<R: Reader>(
        &mut self,
        r: &mut R,
        e: &mut DefaultEmitter,
    ) -> (c: Control)
        requires
            step_pre(*old(self), *old(r), *old(e)),
            old(self).state is TagAttrNameBefore,
        ensures
            step_effects(
                *old(self),
                *old(r),
                *old(e),
                *final(self),
                *final(r),
                *final(e),
                c,
                spec_attr_name_before(
                    old(r).input(),
                    old(r).pos(),
                    old(e).cur_v(old(r).backing()),
                ),
            ),
    {
        let ghost b0 = r.backing();
        let ghost cur0 = e.cur_v(b0);
        let ghost sv = spec_attr_name_before(r.input(), r.pos(), cur0);
        proof {
            r.wf_facts();
            assert(b0.subrange(0, b0.len() as int) =~= b0);
        }
        match r.peek_byte() {
            None => {
                e.emit_truncation(Xml5Error::EofInTag, Ghost(r.backing()));
                self.state = TokenState::Data;
                self.eof = true;
                proof {
                    assert(e.cur_v(r.backing()) =~= sv.m.cur);
                    assert(e.hist() =~= old(e).hist() + sv.out);
                }
                Control::Eof
            }
            Some(ch) => {
                if ch == 9 || ch == 10 || ch == 32 {
                    r.consume_bytes(1);
                    proof {
                        assert(e.cur_v(r.backing()) =~= sv.m.cur);
                        assert(e.hist() =~= old(e).hist() + sv.out);
                    }
                    Control::Continue
                } else if ch == 62 {
                    e.emit_tag(Ghost(r.backing()));
                    r.consume_bytes(1);
                    self.state = TokenState::Data;
                    proof {
                        assert(e.cur_v(r.backing()) =~= sv.m.cur);
                        assert(e.hist() =~= old(e).hist() + sv.out);
                    }
                    Control::Continue
                } else if ch == 47 {
                    e.set_empty_tag(Ghost(r.backing()));
                    r.consume_bytes(1);
                    self.state = TokenState::EmptyTag;
                    proof {
                        assert(e.cur_v(r.backing()) =~= sv.m.cur);
                        assert(e.hist() =~= old(e).hist() + sv.out);
                    }
                    Control::Continue
                } else if ch == 58 {
                    e.emit_error(Xml5Error::ColonBeforeAttrName, Ghost(r.backing()));
                    r.consume_bytes(1);
                    proof {
                        assert(e.cur_v(r.backing()) =~= sv.m.cur);
                        assert(e.hist() =~= old(e).hist() + sv.out);
                    }
                    Control::Continue
                } else {
                    e.create_attr(Ghost(r.backing()));
                    e.attr_name_byte(ch, Ghost(r.backing()));
                    r.consume_bytes(1);
                    self.state = TokenState::TagAttrName;
                    proof {
                        assert(e.cur_v(r.backing()) =~= sv.m.cur);
                        assert(e.hist() =~= old(e).hist() + sv.out);
                        assert(mst_wf(self.state, e.cur_v(r.backing())));
                    }
                    Control::Continue
                }
            }
        }
    }

    /// Close the current attribute against the reader's backing bytes.
    fn do_close_attr<R: Reader>(r: &R, e: &mut DefaultEmitter)
        requires
            r.wf(),
            old(e).inv(r.backing()),
            old(e).attr_open,
            !old(e).eof_done,
        ensures
            final(e).inv(r.backing()),
            final(e).popped_v() == old(e).popped_v(),
            final(e).eof_done == false,
            ({
                let (cur2, out2) = close_attr_spec(old(e).cur_v(r.backing()));
                final(e).cur_v(r.backing()) == cur2 && final(e).hist() == old(e).hist() + out2
            }),
    {
        let bl = r.backing_len();
        let bs = r.slice_bytes(0, bl);
        proof {
            assert(bs@ =~= r.backing());
        }
        e.close_attr(bs);
        proof {
            let cur0 = old(e).cur_v(r.backing());
            if crate::emitter::attr_name_dup(cur0.attrs, cur0.attr_name) {
                assert(e.cur_v(r.backing()) =~= close_attr_spec(cur0).0);
                assert(e.hist() =~= old(e).hist() + close_attr_spec(cur0).1);
            } else {
                assert(e.cur_v(r.backing()) =~= close_attr_spec(cur0).0);
                assert(e.hist() =~= old(e).hist() + close_attr_spec(cur0).1);
            }
        }
    }

    /// One step of the `TagAttrName` state.
    #[verifier::rlimit(100)]
    #[verifier::spinoff_prover]
    fn step_attr_name<R: Reader>(&mut self, r: &mut R, e: &mut DefaultEmitter) -> (c: Control)
        requires
            step_pre(*old(self), *old(r), *old(e)),
            old(self).state is TagAttrName,
        ensures
            step_effects(
                *old(self),
                *old(r),
                *old(e),
                *final(self),
                *final(r),
                *final(e),
                c,
                spec_attr_name(old(r).input(), old(r).pos(), old(e).cur_v(old(r).backing())),
            ),
    {
        let ghost input = r.input();
        let ghost pos0 = r.pos();
        let ghost b0 = r.backing();
        let ghost cur0 = e.cur_v(b0);
        let ghost sv = spec_attr_name(input, pos0, cur0);
        proof {
            r.wf_facts();
            assert(b0.subrange(0, b0.len() as int) =~= b0);
        }
        let needles: Vec<u8> = vec![9u8, 10u8, 32u8, 61u8, 62u8, 47u8];
        proof {
            assert(needles@ =~= seq![9u8, 10u8, 32u8, 61u8, 62u8, 47u8]);
        }
        let res = r.read_fast_until(needles.as_slice());
        proof {
            e.lemma_inv_backing_extend(b0, r.backing());
        }
        match res {
            FastRead::EOF => {
                proof {
                    lemma_first_needle_range(input, pos0, input.len() as int, seq![9u8, 10u8, 32u8, 61u8, 62u8, 47u8]);
                }
                let rest = r.read_to_end();
                proof {
                    e.lemma_inv_backing_extend(b0, r.backing());
                }
                match rest {
                    Some((s2, e2)) => {
                        e.attr_names(s2, e2, Ghost(r.backing()));
                    }
                    None => {
                        proof {
                            assert(input.subrange(pos0, input.len() as int) =~= Seq::<u8>::empty());
                        }
                    }
                }
                Self::do_close_attr(r, e);
                e.emit_truncation(Xml5Error::EofInTag, Ghost(r.backing()));
                self.state = TokenState::Data;
                self.eof = true;
                proof {
                    assert(e.cur_v(r.backing()) =~= sv.m.cur);
                    assert(e.hist() =~= old(e).hist() + sv.out);
                }
                Control::Eof
            }
            FastRead::Char(ch) => {
                proof {
                    lemma_first_needle_range(input, pos0, pos0, seq![9u8, 10u8, 32u8, 61u8, 62u8, 47u8]);
                }
                proof {
                    assert(seq![9u8, 10u8, 32u8, 61u8, 62u8, 47u8].contains(ch));
                    assert(ch == 9 || ch == 10 || ch == 32 || ch == 61 || ch == 62 || ch == 47)
                        by {
                        assert(seq![9u8, 10u8, 32u8, 61u8, 62u8, 47u8][0] == 9u8);
                        assert(seq![9u8, 10u8, 32u8, 61u8, 62u8, 47u8][1] == 10u8);
                        assert(seq![9u8, 10u8, 32u8, 61u8, 62u8, 47u8][2] == 32u8);
                        assert(seq![9u8, 10u8, 32u8, 61u8, 62u8, 47u8][3] == 61u8);
                        assert(seq![9u8, 10u8, 32u8, 61u8, 62u8, 47u8][4] == 62u8);
                        assert(seq![9u8, 10u8, 32u8, 61u8, 62u8, 47u8][5] == 47u8);
                    }
                }
                if ch == 62 {
                    Self::do_close_attr(r, e);
                    e.emit_tag(Ghost(r.backing()));
                    self.state = TokenState::Data;
                    proof {
                        assert(e.cur_v(r.backing()) =~= sv.m.cur);
                        assert(e.hist() =~= old(e).hist() + sv.out);
                    }
                    Control::Continue
                } else if ch == 47 {
                    Self::do_close_attr(r, e);
                    e.set_empty_tag(Ghost(r.backing()));
                    self.state = TokenState::EmptyTag;
                    proof {
                        assert(e.cur_v(r.backing()) =~= sv.m.cur);
                        assert(e.hist() =~= old(e).hist() + sv.out);
                    }
                    Control::Continue
                } else {
                    self.state = TokenState::TagAttrValueBefore;
                    proof {
                        assert(e.cur_v(r.backing()) =~= sv.m.cur);
                        assert(e.hist() =~= old(e).hist() + sv.out);
                    }
                    Control::Continue
                }
            }
            FastRead::InterNeedle(s, en) => {
                e.attr_names(s, en, Ghost(r.backing()));
                proof {
                    lemma_first_needle_range(
                        input,
                        pos0,
                        r.pos(),
                        seq![9u8, 10u8, 32u8, 61u8, 62u8, 47u8],
                    );
                    assert(e.cur_v(r.backing()) =~= sv.m.cur);
                    assert(e.hist() =~= old(e).hist() + sv.out);
                }
                Control::Continue
            }
        }
    }

    /// One step of the `TagAttrValueBefore` state.
    #[verifier::rlimit(100)]
    #[verifier::spinoff_prover]
    fn step_attr_value_before<R: Reader>(
        &mut self,
        r: &mut R,
        e: &mut DefaultEmitter,
    ) -> (c: Control)
        requires
            step_pre(*old(self), *old(r), *old(e)),
            old(self).state is TagAttrValueBefore,
        ensures
            step_effects(
                *old(self),
                *old(r),
                *old(e),
                *final(self),
                *final(r),
                *final(e),
                c,
                spec_attr_value_before(
                    old(r).input(),
                    old(r).pos(),
                    old(e).cur_v(old(r).backing()),
                ),
            ),
    {
        let ghost b0 = r.backing();
        let ghost cur0 = e.cur_v(b0);
        let ghost sv = spec_attr_value_before(r.input(), r.pos(), cur0);
        proof {
            r.wf_facts();
            assert(b0.subrange(0, b0.len() as int) =~= b0);
        }
        match r.peek_byte() {
            None => {
                Self::do_close_attr(r, e);
                e.emit_truncation(Xml5Error::EofInTag, Ghost(r.backing()));
                self.state = TokenState::Data;
                self.eof = true;
                proof {
                    assert(e.cur_v(r.backing()) =~= sv.m.cur);
                    assert(e.hist() =~= old(e).hist() + sv.out);
                }
                Control::Eof
            }
            Some(ch) => {
                if ch == 9 || ch == 10 || ch == 32 {
                    r.consume_bytes(1);
                    proof {
                        assert(e.cur_v(r.backing()) =~= sv.m.cur);
                        assert(e.hist() =~= old(e).hist() + sv.out);
                    }
                    Control::Continue
                } else if ch == 34 {
                    r.consume_bytes(1);
                    self.state = TokenState::TagAttrValue(AttrValueKind::DoubleQuoted);
                    proof {
                        assert(e.cur_v(r.backing()) =~= sv.m.cur);
                        assert(e.hist() =~= old(e).hist() + sv.out);
                    }
                    Control::Continue
                } else if ch == 39 {
                    r.consume_bytes(1);
                    self.state = TokenState::TagAttrValue(AttrValueKind::SingleQuoted);
                    proof {
                        assert(e.cur_v(r.backing()) =~= sv.m.cur);
                        assert(e.hist() =~= old(e).hist() + sv.out);
                    }
                    Control::Continue
                } else if ch == 38 {
                    self.state = TokenState::TagAttrValue(AttrValueKind::Unquoted);
                    proof {
                        assert(e.cur_v(r.backing()) =~= sv.m.cur);
                        assert(e.hist() =~= old(e).hist() + sv.out);
                    }
                    Control::Continue
                } else if ch == 62 {
                    Self::do_close_attr(r, e);
                    e.emit_tag(Ghost(r.backing()));
                    r.consume_bytes(1);
                    self.state = TokenState::Data;
                    proof {
                        assert(e.cur_v(r.backing()) =~= sv.m.cur);
                        assert(e.hist() =~= old(e).hist() + sv.out);
                    }
                    Control::Continue
                } else {
                    e.attr_value_byte(ch, Ghost(r.backing()));
                    r.consume_bytes(1);
                    self.state = TokenState::TagAttrValue(AttrValueKind::Unquoted);
                    proof {
                        assert(e.cur_v(r.backing()) =~= sv.m.cur);
                        assert(e.hist() =~= old(e).hist() + sv.out);
                    }
                    Control::Continue
                }
            }
        }
    }

    /// One step of a `TagAttrValue` state.
    #[verifier::rlimit(100)]
    #[verifier::spinoff_prover]
    fn step_attr_value<R: Reader>(&mut self, r: &mut R, e: &mut DefaultEmitter) -> (c: Control)
        requires
            step_pre(*old(self), *old(r), *old(e)),
            old(self).state is TagAttrValue,
        ensures
            step_effects(
                *old(self),
                *old(r),
                *old(e),
                *final(self),
                *final(r),
                *final(e),
                c,
                spec_attr_value(
                    old(self).state->TagAttrValue_0,
                    old(r).input(),
                    old(r).pos(),
                    old(e).cur_v(old(r).backing()),
                ),
            ),
    {
        let ghost input = r.input();
        let ghost pos0 = r.pos();
        let ghost b0 = r.backing();
        let ghost cur0 = e.cur_v(b0);
        let ghost k = self.state->TagAttrValue_0;
        let ghost sv = spec_attr_value(k, input, pos0, cur0);
        proof {
            r.wf_facts();
            assert(b0.subrange(0, b0.len() as int) =~= b0);
        }
        let kind = match self.state {
            TokenState::TagAttrValue(kk) => kk,
            _ => {
                proof {
                    assert(false);
                }
                AttrValueKind::Unquoted
            }
        };
        let needles: Vec<u8> = match kind {
            AttrValueKind::DoubleQuoted => vec![38u8, 34u8],
            AttrValueKind::SingleQuoted => vec![38u8, 39u8],
            AttrValueKind::Unquoted => vec![9u8, 10u8, 32u8, 38u8, 62u8],
        };
        proof {
            assert(needles@ =~= attr_value_needles(k));
        }
        let res = r.read_fast_until(needles.as_slice());
        proof {
            e.lemma_inv_backing_extend(b0, r.backing());
        }
        match res {
            FastRead::EOF => {
                proof {
                    lemma_first_needle_range(input, pos0, input.len() as int, attr_value_needles(k));
                }
                let rest = r.read_to_end();
                proof {
                    e.lemma_inv_backing_extend(b0, r.backing());
                }
                match rest {
                    Some((s2, e2)) => {
                        e.attr_values(s2, e2, Ghost(r.backing()));
                    }
                    None => {
                        proof {
                            assert(input.subrange(pos0, input.len() as int) =~= Seq::<u8>::empty());
                        }
                    }
                }
                Self::do_close_attr(r, e);
                e.emit_truncation(Xml5Error::EofInTag, Ghost(r.backing()));
                self.state = TokenState::Data;
                self.eof = true;
                proof {
                    assert(e.cur_v(r.backing()) =~= sv.m.cur);
                    assert(e.hist() =~= old(e).hist() + sv.out);
                }
                Control::Eof
            }
            FastRead::Char(ch) => {
                proof {
                    lemma_first_needle_range(input, pos0, pos0, attr_value_needles(k));
                }
                proof {
                    assert(attr_value_needles(k).contains(ch));
                }
                if ch == 38 {
                    match kind {
                        AttrValueKind::Unquoted => {
                            e.attr_value_byte(38u8, Ghost(r.backing()));
                            proof {
                                assert(e.cur_v(r.backing()) =~= sv.m.cur);
                                assert(e.hist() =~= old(e).hist() + sv.out);
                            }
                            Control::Continue
                        }
                        _ => {
                            self.state = TokenState::CharRefInData(kind);
                            proof {
                                assert(e.cur_v(r.backing()) =~= sv.m.cur);
                                assert(e.hist() =~= old(e).hist() + sv.out);
                            }
                            Control::Continue
                        }
                    }
                } else if ch == 62 {
                    proof {
                        assert(k is Unquoted) by {
                            match k {
                                AttrValueKind::DoubleQuoted => {
                                    assert(attr_value_needles(k)[0] == 38u8);
                                    assert(attr_value_needles(k)[1] == 34u8);
                                }
                                AttrValueKind::SingleQuoted => {
                                    assert(attr_value_needles(k)[0] == 38u8);
                                    assert(attr_value_needles(k)[1] == 39u8);
                                }
                                AttrValueKind::Unquoted => {}
                            }
                        }
                    }
                    Self::do_close_attr(r, e);
                    e.emit_tag(Ghost(r.backing()));
                    self.state = TokenState::Data;
                    proof {
                        assert(e.cur_v(r.backing()) =~= sv.m.cur);
                        assert(e.hist() =~= old(e).hist() + sv.out);
                    }
                    Control::Continue
                } else {
                    Self::do_close_attr(r, e);
                    self.state = TokenState::TagAttrNameBefore;
                    proof {
                        assert(e.cur_v(r.backing()) =~= sv.m.cur);
                        assert(e.hist() =~= old(e).hist() + sv.out);
                    }
                    Control::Continue
                }
            }
            FastRead::InterNeedle(s, en) => {
                e.attr_values(s, en, Ghost(r.backing()));
                proof {
                    lemma_first_needle_range(input, pos0, r.pos(), attr_value_needles(k));
                    assert(e.cur_v(r.backing()) =~= sv.m.cur);
                    assert(e.hist() =~= old(e).hist() + sv.out);
                }
                Control::Continue
            }
        }
    }

    /// One step of the `EndTagName` state.
    #[verifier::rlimit(100)]
    #[verifier::spinoff_prover]
    fn step_end_tag_name<R: Reader>(&mut self, r: &mut R, e: &mut DefaultEmitter) -> (c: Control)
        requires
            step_pre(*old(self), *old(r), *old(e)),
            old(self).state is EndTagName,
        ensures
            step_effects(
                *old(self),
                *old(r),
                *old(e),
                *final(self),
                *final(r),
                *final(e),
                c,
                spec_end_tag_name(old(r).input(), old(r).pos(), old(e).cur_v(old(r).backing())),
            ),
    {
        let ghost input = r.input();
        let ghost pos0 = r.pos();
        let ghost b0 = r.backing();
        let ghost cur0 = e.cur_v(b0);
        let ghost sv = spec_end_tag_name(input, pos0, cur0);
        proof {
            r.wf_facts();
            assert(b0.subrange(0, b0.len() as int) =~= b0);
        }
        let needles: Vec<u8> = vec![9u8, 10u8, 32u8, 47u8, 62u8];
        proof {
            assert(needles@ =~= seq![9u8, 10u8, 32u8, 47u8, 62u8]);
        }
        let res = r.read_fast_until(needles.as_slice());
        proof {
            e.lemma_inv_backing_extend(b0, r.backing());
        }
        match res {
            FastRead::EOF => {
                proof {
                    lemma_first_needle_range(input, pos0, input.len() as int, seq![9u8, 10u8, 32u8, 47u8, 62u8]);
                }
                let rest = r.read_to_end();
                proof {
                    e.lemma_inv_backing_extend(b0, r.backing());
                }
                match rest {
                    Some((s2, e2)) => {
                        e.append_primary(s2, e2, Ghost(r.backing()));
                    }
                    None => {
                        proof {
                            assert(input.subrange(pos0, input.len() as int) =~= Seq::<u8>::empty());
                        }
                    }
                }
                e.emit_truncation(Xml5Error::EofInTag, Ghost(r.backing()));
                self.state = TokenState::Data;
                self.eof = true;
                proof {
                    assert(e.cur_v(r.backing()) =~= sv.m.cur);
                    assert(e.hist() =~= old(e).hist() + sv.out);
                }
                Control::Eof
            }
            FastRead::Char(ch) => {
                proof {
                    lemma_first_needle_range(input, pos0, pos0, seq![9u8, 10u8, 32u8, 47u8, 62u8]);
                }
                proof {
                    assert(seq![9u8, 10u8, 32u8, 47u8, 62u8].contains(ch));
                    assert(ch == 9 || ch == 10 || ch == 32 || ch == 47 || ch == 62) by {
                        assert(seq![9u8, 10u8, 32u8, 47u8, 62u8][0] == 9u8);
                        assert(seq![9u8, 10u8, 32u8, 47u8, 62u8][1] == 10u8);
                        assert(seq![9u8, 10u8, 32u8, 47u8, 62u8][2] == 32u8);
                        assert(seq![9u8, 10u8, 32u8, 47u8, 62u8][3] == 47u8);
                        assert(seq![9u8, 10u8, 32u8, 47u8, 62u8][4] == 62u8);
                    }
                }
                if ch == 62 {
                    e.emit_end_tag(Ghost(r.backing()));
                    self.state = TokenState::Data;
                    proof {
                        assert(e.cur_v(r.backing()) =~= sv.m.cur);
                        assert(e.hist() =~= old(e).hist() + sv.out);
                    }
                    Control::Continue
                } else if ch == 47 {
                    e.emit_error(Xml5Error::UnexpectedSymbol('/'), Ghost(r.backing()));
                    self.state = TokenState::EndTagNameAfter;
                    proof {
                        assert(e.cur_v(r.backing()) =~= sv.m.cur);
                        assert(e.hist() =~= old(e).hist() + sv.out);
                    }
                    Control::Continue
                } else {
                    self.state = TokenState::EndTagNameAfter;
                    proof {
                        assert(e.cur_v(r.backing()) =~= sv.m.cur);
                        assert(e.hist() =~= old(e).hist() + sv.out);
                    }
                    Control::Continue
                }
            }
            FastRead::InterNeedle(s, en) => {
                e.append_primary(s, en, Ghost(r.backing()));
                proof {
                    lemma_first_needle_range(
                        input,
                        pos0,
                        r.pos(),
                        seq![9u8, 10u8, 32u8, 47u8, 62u8],
                    );
                    assert(e.cur_v(r.backing()) =~= sv.m.cur);
                    assert(e.hist() =~= old(e).hist() + sv.out);
                }
                Control::Continue
            }
        }
    }

    /// One step of the `EndTagNameAfter` state.
    #[verifier::rlimit(100)]
    #[verifier::spinoff_prover]
    fn step_end_tag_name_after<R: Reader>(
        &mut self,
        r: &mut R,
        e: &mut DefaultEmitter,
    ) -> (c: Control)
        requires
            step_pre(*old(self), *old(r), *old(e)),
            old(self).state is EndTagNameAfter,
        ensures
            step_effects(
                *old(self),
                *old(r),
                *old(e),
                *final(self),
                *final(r),
                *final(e),
                c,
                spec_end_tag_name_after(
                    old(r).input(),
                    old(r).pos(),
                    old(e).cur_v(old(r).backing()),
                ),
            ),
    {
        let ghost b0 = r.backing();
        let ghost cur0 = e.cur_v(b0);
        let ghost sv = spec_end_tag_name_after(r.input(), r.pos(), cur0);
        proof {
            r.wf_facts();
            assert(b0.subrange(0, b0.len() as int) =~= b0);
        }
        match r.peek_byte() {
            None => {
                e.emit_truncation(Xml5Error::EofInTag, Ghost(r.backing()));
                self.state = TokenState::Data;
                self.eof = true;
                proof {
                    assert(e.cur_v(r.backing()) =~= sv.m.cur);
                    assert(e.hist() =~= old(e).hist() + sv.out);
                }
                Control::Eof
            }
            Some(ch) => {
                if ch == 62 {
                    e.emit_end_tag(Ghost(r.backing()));
                    r.consume_bytes(1);
                    self.state = TokenState::Data;
                    proof {
                        assert(e.cur_v(r.backing()) =~= sv.m.cur);
                        assert(e.hist() =~= old(e).hist() + sv.out);
                    }
                    Control::Continue
                } else if ch == 9 || ch == 10 || ch == 32 {
                    r.consume_bytes(1);
                    proof {
                        assert(e.cur_v(r.backing()) =~= sv.m.cur);
                        assert(e.hist() =~= old(e).hist() + sv.out);
                    }
                    Control::Continue
                } else {
                    e.emit_error(
                        Xml5Error::UnexpectedSymbolOrEof(Some(ch)),
                        Ghost(r.backing()),
                    );
                    r.consume_bytes(1);
                    proof {
                        assert(e.cur_v(r.backing()) =~= sv.m.cur);
                        assert(e.hist() =~= old(e).hist() + sv.out);
                    }
                    Control::Continue
                }
            }
        }
    }

    /// One step of the `Pi` state: decide between an XML declaration and an
    /// ordinary processing instruction.
    #[verifier::rlimit(100)]
    #[verifier::spinoff_prover]
    fn step_pi<R: Reader>(&mut self, r: &mut R, e: &mut DefaultEmitter) -> (c: Control)
        requires
            step_pre(*old(self), *old(r), *old(e)),
            old(self).state is Pi,
        ensures
            step_effects(
                *old(self),
                *old(r),
                *old(e),
                *final(self),
                *final(r),
                *final(e),
                c,
                spec_pi(old(r).input(), old(r).pos(), old(e).cur_v(old(r).backing())),
            ),
    {
        let ghost b0 = r.backing();
        let ghost cur0 = e.cur_v(b0);
        let ghost sv = spec_pi(r.input(), r.pos(), cur0);
        proof {
            r.wf_facts();
            assert(b0.subrange(0, b0.len() as int) =~= b0);
        }
        let xml_kw: Vec<u8> = vec![120u8, 109u8, 108u8];
        proof {
            assert(xml_kw@ =~= kw_xml());
        }
        if r.try_read_slice_exact(xml_kw.as_slice()) {
            let ws_next = match r.peek_byte() {
                Some(ch) => ch == 9 || ch == 10 || ch == 32,
                None => false,
            };
            if ws_next {
                e.create_decl(Ghost(r.backing()));
                self.state = TokenState::XmlDecl;
                proof {
                    assert(e.cur_v(r.backing()) =~= sv.m.cur);
                    assert(e.hist() =~= old(e).hist() + sv.out);
                }
                Control::Continue
            } else {
                e.create_pi_tag(Ghost(r.backing()));
                let xml_kw2: Vec<u8> = vec![120u8, 109u8, 108u8];
                proof {
                    assert(xml_kw2@ =~= kw_xml());
                }
                e.pi_target_owned(xml_kw2, Ghost(r.backing()));
                self.state = TokenState::PiTarget;
                proof {
                    assert(e.cur_v(r.backing()) =~= sv.m.cur);
                    assert(e.hist() =~= old(e).hist() + sv.out);
                }
                Control::Continue
            }
        } else {
            match r.peek_byte() {
                None => {
                    e.emit_error(
                        Xml5Error::UnexpectedSymbolOrEof(None),
                        Ghost(r.backing()),
                    );
                    e.create_comment_token(Ghost(r.backing()));
                    self.state = TokenState::BogusComment;
                    proof {
                        assert(e.cur_v(r.backing()) =~= sv.m.cur);
                        assert(e.hist() =~= old(e).hist() + sv.out);
                    }
                    Control::Continue
                }
                Some(ch) => {
                    if ch == 9 || ch == 10 || ch == 32 {
                        e.emit_error(
                            Xml5Error::UnexpectedSymbolOrEof(Some(ch)),
                            Ghost(r.backing()),
                        );
                        e.create_comment_token(Ghost(r.backing()));
                        self.state = TokenState::BogusComment;
                        proof {
                            assert(e.cur_v(r.backing()) =~= sv.m.cur);
                            assert(e.hist() =~= old(e).hist() + sv.out);
                        }
                        Control::Continue
                    } else {
                        e.create_pi_tag(Ghost(r.backing()));
                        self.state = TokenState::PiTarget;
                        proof {
                            assert(e.cur_v(r.backing()) =~= sv.m.cur);
                            assert(e.hist() =~= old(e).hist() + sv.out);
                        }
                        Control::Continue
                    }
                }
            }
        }
    }

    /// One step of the `PiTarget` state.
    #[verifier::rlimit(100)]
    #[verifier::spinoff_prover]
    fn step_pi_target<R: Reader>(&mut self, r: &mut R, e: &mut DefaultEmitter) -> (c: Control)
        requires
            step_pre(*old(self), *old(r), *old(e)),
            old(self).state is PiTarget,
        ensures
            step_effects(
                *old(self),
                *old(r),
                *old(e),
                *final(self),
                *final(r),
                *final(e),
                c,
                spec_pi_target(old(r).input(), old(r).pos(), old(e).cur_v(old(r).backing())),
            ),
    {
        let ghost input = r.input();
        let ghost pos0 = r.pos();
        let ghost b0 = r.backing();
        let ghost cur0 = e.cur_v(b0);
        let ghost sv = spec_pi_target(input, pos0, cur0);
        proof {
            r.wf_facts();
            assert(b0.subrange(0, b0.len() as int) =~= b0);
        }
        let needles: Vec<u8> = vec![9u8, 10u8, 32u8, 63u8];
        proof {
            assert(needles@ =~= seq![9u8, 10u8, 32u8, 63u8]);
        }
        let res = r.read_fast_until(needles.as_slice());
        proof {
            e.lemma_inv_backing_extend(b0, r.backing());
        }
        match res {
            FastRead::EOF => {
                proof {
                    lemma_first_needle_range(input, pos0, input.len() as int, seq![9u8, 10u8, 32u8, 63u8]);
                }
                let rest = r.read_to_end();
                proof {
                    e.lemma_inv_backing_extend(b0, r.backing());
                }
                match rest {
                    Some((s2, e2)) => {
                        e.pi_target(s2, e2, Ghost(r.backing()));
                    }
                    None => {
                        proof {
                            assert(input.subrange(pos0, input.len() as int) =~= Seq::<u8>::empty());
                        }
                    }
                }
                e.emit_truncation(Xml5Error::UnexpectedEof, Ghost(r.backing()));
                self.state = TokenState::Data;
                self.eof = true;
                proof {
                    assert(e.cur_v(r.backing()) =~= sv.m.cur);
                    assert(e.hist() =~= old(e).hist() + sv.out);
                }
                Control::Eof
            }
            FastRead::Char(ch) => {
                proof {
                    lemma_first_needle_range(input, pos0, pos0, seq![9u8, 10u8, 32u8, 63u8]);
                }
                proof {
                    assert(seq![9u8, 10u8, 32u8, 63u8].contains(ch));
                    assert(ch == 9 || ch == 10 || ch == 32 || ch == 63) by {
                        assert(seq![9u8, 10u8, 32u8, 63u8][0] == 9u8);
                        assert(seq![9u8, 10u8, 32u8, 63u8][1] == 10u8);
                        assert(seq![9u8, 10u8, 32u8, 63u8][2] == 32u8);
                        assert(seq![9u8, 10u8, 32u8, 63u8][3] == 63u8);
                    }
                }
                if ch == 63 {
                    self.state = TokenState::PiAfter;
                } else {
                    self.state = TokenState::PiTargetAfter;
                }
                proof {
                    assert(e.cur_v(r.backing()) =~= sv.m.cur);
                    assert(e.hist() =~= old(e).hist() + sv.out);
                }
                Control::Continue
            }
            FastRead::InterNeedle(s, en) => {
                e.pi_target(s, en, Ghost(r.backing()));
                proof {
                    lemma_first_needle_range(input, pos0, r.pos(), seq![9u8, 10u8, 32u8, 63u8]);
                    assert(e.cur_v(r.backing()) =~= sv.m.cur);
                    assert(e.hist() =~= old(e).hist() + sv.out);
                }
                Control::Continue
            }
        }
    }

    /// One step of the `PiTargetAfter` state.
    #[verifier::rlimit(100)]
    #[verifier::spinoff_prover]
    fn step_pi_target_after<R: Reader>(
        &mut self,
        r: &mut R,
        e: &mut DefaultEmitter,
    ) -> (c: Control)
        requires
            step_pre(*old(self), *old(r), *old(e)),
            old(self).state is PiTargetAfter,
        ensures
            step_effects(
                *old(self),
                *old(r),
                *old(e),
                *final(self),
                *final(r),
                *final(e),
                c,
                spec_pi_target_after(
                    old(r).input(),
                    old(r).pos(),
                    old(e).cur_v(old(r).backing()),
                ),
            ),
    {
        let ghost b0 = r.backing();
        let ghost sv = spec_pi_target_after(r.input(), r.pos(), e.cur_v(b0));
        proof {
            r.wf_facts();
            assert(b0.subrange(0, b0.len() as int) =~= b0);
        }
        match r.peek_byte() {
            Some(ch) => {
                if ch == 9 || ch == 10 || ch == 32 {
                    r.consume_bytes(1);
                } else {
                    self.state = TokenState::PiData;
                }
                proof {
                    assert(e.cur_v(r.backing()) =~= sv.m.cur);
                    assert(e.hist() =~= old(e).hist() + sv.out);
                }
                Control::Continue
            }
            None => {
                self.state = TokenState::PiData;
                proof {
                    assert(e.cur_v(r.backing()) =~= sv.m.cur);
                    assert(e.hist() =~= old(e).hist() + sv.out);
                }
                Control::Continue
            }
        }
    }

    /// One step of the `PiData` state.
    #[verifier::rlimit(100)]
    #[verifier::spinoff_prover]
    fn step_pi_data<R: Reader>(&mut self, r: &mut R, e: &mut DefaultEmitter) -> (c: Control)
        requires
            step_pre(*old(self), *old(r), *old(e)),
            old(self).state is PiData,
        ensures
            step_effects(
                *old(self),
                *old(r),
                *old(e),
                *final(self),
                *final(r),
                *final(e),
                c,
                spec_pi_data(old(r).input(), old(r).pos(), old(e).cur_v(old(r).backing())),
            ),
    {
        let ghost input = r.input();
        let ghost pos0 = r.pos();
        let ghost b0 = r.backing();
        let ghost sv = spec_pi_data(input, pos0, e.cur_v(b0));
        proof {
            r.wf_facts();
            assert(b0.subrange(0, b0.len() as int) =~= b0);
        }
        let needles: Vec<u8> = vec![63u8];
        proof {
            assert(needles@ =~= seq![63u8]);
        }
        let res = r.read_fast_until(needles.as_slice());
        proof {
            e.lemma_inv_backing_extend(b0, r.backing());
        }
        match res {
            FastRead::EOF => {
                proof {
                    lemma_first_needle_range(input, pos0, input.len() as int, seq![63u8]);
                }
                let rest = r.read_to_end();
                proof {
                    e.lemma_inv_backing_extend(b0, r.backing());
                }
                match rest {
                    Some((s2, e2)) => {
                        e.append_primary(s2, e2, Ghost(r.backing()));
                    }
                    None => {
                        proof {
                            assert(input.subrange(pos0, input.len() as int) =~= Seq::<u8>::empty());
                        }
                    }
                }
                e.emit_truncation(Xml5Error::UnexpectedEof, Ghost(r.backing()));
                self.state = TokenState::Data;
                self.eof = true;
                proof {
                    assert(e.cur_v(r.backing()) =~= sv.m.cur);
                    assert(e.hist() =~= old(e).hist() + sv.out);
                }
                Control::Eof
            }
            FastRead::Char(ch) => {
                proof {
                    lemma_first_needle_range(input, pos0, pos0, seq![63u8]);
                }
                proof {
                    assert(seq![63u8].contains(ch));
                    assert(ch == 63) by {
                        assert(seq![63u8][0] == 63u8);
                    }
                }
                self.state = TokenState::PiAfter;
                proof {
                    assert(e.cur_v(r.backing()) =~= sv.m.cur);
                    assert(e.hist() =~= old(e).hist() + sv.out);
                }
                Control::Continue
            }
            FastRead::InterNeedle(s, en) => {
                e.append_primary(s, en, Ghost(r.backing()));
                proof {
                    lemma_first_needle_range(input, pos0, r.pos(), seq![63u8]);
                    assert(e.cur_v(r.backing()) =~= sv.m.cur);
                    assert(e.hist() =~= old(e).hist() + sv.out);
                }
                Control::Continue
            }
        }
    }

    /// One step of the `PiAfter` state.
    #[verifier::rlimit(100)]
    #[verifier::spinoff_prover]
    fn step_pi_after<R: Reader>(&mut self, r: &mut R, e: &mut DefaultEmitter) -> (c: Control)
        requires
            step_pre(*old(self), *old(r), *old(e)),
            old(self).state is PiAfter,
        ensures
            step_effects(
                *old(self),
                *old(r),
                *old(e),
                *final(self),
                *final(r),
                *final(e),
                c,
                spec_pi_after(old(r).input(), old(r).pos(), old(e).cur_v(old(r).backing())),
            ),
    {
        let ghost b0 = r.backing();
        let ghost sv = spec_pi_after(r.input(), r.pos(), e.cur_v(b0));
        proof {
            r.wf_facts();
            assert(b0.subrange(0, b0.len() as int) =~= b0);
        }
        match r.peek_byte() {
            None => {
                self.state = TokenState::PiData;
                proof {
                    assert(e.cur_v(r.backing()) =~= sv.m.cur);
                    assert(e.hist() =~= old(e).hist() + sv.out);
                }
                Control::Continue
            }
            Some(ch) => {
                if ch == 62 {
                    e.emit_pi(Ghost(r.backing()));
                    r.consume_bytes(1);
                    self.state = TokenState::Data;
                    proof {
                        assert(e.cur_v(r.backing()) =~= sv.m.cur);
                        assert(e.hist() =~= old(e).hist() + sv.out);
                    }
                    Control::Continue
                } else if ch == 63 {
                    let q: Vec<u8> = vec![63u8];
                    assert(q@ =~= seq![63u8]);
                    e.append_primary_owned(q, Ghost(r.backing()));
                    r.consume_bytes(1);
                    proof {
                        assert(e.cur_v(r.backing()) =~= sv.m.cur);
                        assert(e.hist() =~= old(e).hist() + sv.out);
                    }
                    Control::Continue
                } else {
                    let q: Vec<u8> = vec![63u8];
                    assert(q@ =~= seq![63u8]);
                    e.append_primary_owned(q, Ghost(r.backing()));
                    self.state = TokenState::PiData;
                    proof {
                        assert(e.cur_v(r.backing()) =~= sv.m.cur);
                        assert(e.hist() =~= old(e).hist() + sv.out);
                    }
                    Control::Continue
                }
            }
        }
    }

    /// One step of the `XmlDecl` state.
    #[verifier::rlimit(100)]
    #[verifier::spinoff_prover]
    fn step_xml_decl<R: Reader>(&mut self, r: &mut R, e: &mut DefaultEmitter) -> (c: Control)
        requires
            step_pre(*old(self), *old(r), *old(e)),
            old(self).state is XmlDecl,
        ensures
            step_effects(
                *old(self),
                *old(r),
                *old(e),
                *final(self),
                *final(r),
                *final(e),
                c,
                spec_xml_decl(old(r).input(), old(r).pos(), old(e).cur_v(old(r).backing())),
            ),
    {
        let ghost b0 = r.backing();
        let ghost sv = spec_xml_decl(r.input(), r.pos(), e.cur_v(b0));
        proof {
            r.wf_facts();
            assert(b0.subrange(0, b0.len() as int) =~= b0);
        }
        match r.peek_byte() {
            None => {
                e.emit_truncation(Xml5Error::EofInXmlDeclaration, Ghost(r.backing()));
                self.state = TokenState::Data;
                self.eof = true;
                proof {
                    assert(e.cur_v(r.backing()) =~= sv.m.cur);
                    assert(e.hist() =~= old(e).hist() + sv.out);
                }
                Control::Eof
            }
            Some(ch) => {
                if ch == 9 || ch == 10 || ch == 32 {
                    r.consume_bytes(1);
                    proof {
                        assert(e.cur_v(r.backing()) =~= sv.m.cur);
                        assert(e.hist() =~= old(e).hist() + sv.out);
                    }
                    Control::Continue
                } else if ch == 63 {
                    r.consume_bytes(1);
                    self.state = TokenState::XmlDeclAfter;
                    proof {
                        assert(e.cur_v(r.backing()) =~= sv.m.cur);
                        assert(e.hist() =~= old(e).hist() + sv.out);
                    }
                    Control::Continue
                } else if ch == 118 || ch == 101 || ch == 115 {
                    self.state = TokenState::XmlDeclAttrName;
                    proof {
                        assert(e.cur_v(r.backing()) =~= sv.m.cur);
                        assert(e.hist() =~= old(e).hist() + sv.out);
                    }
                    Control::Continue
                } else {
                    e.emit_error(Xml5Error::InvalidXmlDeclaration, Ghost(r.backing()));
                    e.demote_decl_to_pi(Ghost(r.backing()));
                    self.state = TokenState::PiData;
                    proof {
                        assert(e.cur_v(r.backing()) =~= sv.m.cur);
                        assert(e.hist() =~= old(e).hist() + sv.out);
                    }
                    Control::Continue
                }
            }
        }
    }

    /// One step of the `XmlDeclAttrName` state.
    #[verifier::rlimit(100)]
    #[verifier::spinoff_prover]
    fn step_xml_decl_attr_name<R: Reader>(
        &mut self,
        r: &mut R,
        e: &mut DefaultEmitter,
    ) -> (c: Control)
        requires
            step_pre(*old(self), *old(r), *old(e)),
            old(self).state is XmlDeclAttrName,
        ensures
            step_effects(
                *old(self),
                *old(r),
                *old(e),
                *final(self),
                *final(r),
                *final(e),
                c,
                spec_xml_decl_attr_name(
                    old(r).input(),
                    old(r).pos(),
                    old(e).cur_v(old(r).backing()),
                ),
            ),
    {
        let ghost b0 = r.backing();
        let ghost cur0 = e.cur_v(b0);
        let ghost sv = spec_xml_decl_attr_name(r.input(), r.pos(), cur0);
        proof {
            r.wf_facts();
            assert(b0.subrange(0, b0.len() as int) =~= b0);
        }
        let kw_v: Vec<u8> = vec![118u8, 101u8, 114u8, 115u8, 105u8, 111u8, 110u8];
        proof {
            assert(kw_v@ =~= decl_attr_kw(XmlDeclAttr::Version));
        }
        if r.try_read_slice_exact(kw_v.as_slice()) {
            e.set_xml_declaration(XmlDeclAttr::Version, Ghost(r.backing()));
            self.state = TokenState::XmlDeclAttrNameAfter;
            proof {
                assert(e.cur_v(r.backing()) =~= sv.m.cur);
                assert(e.hist() =~= old(e).hist() + sv.out);
            }
            return Control::Continue;
        }
        let kw_e: Vec<u8> = vec![101u8, 110u8, 99u8, 111u8, 100u8, 105u8, 110u8, 103u8];
        proof {
            assert(kw_e@ =~= decl_attr_kw(XmlDeclAttr::Encoding));
        }
        if r.try_read_slice_exact(kw_e.as_slice()) {
            e.set_xml_declaration(XmlDeclAttr::Encoding, Ghost(r.backing()));
            self.state = TokenState::XmlDeclAttrNameAfter;
            proof {
                assert(e.cur_v(r.backing()) =~= sv.m.cur);
                assert(e.hist() =~= old(e).hist() + sv.out);
            }
            return Control::Continue;
        }
        let kw_s: Vec<u8> = vec![115u8, 116u8, 97u8, 110u8, 100u8, 97u8, 108u8, 111u8, 110u8, 101u8];
        proof {
            assert(kw_s@ =~= decl_attr_kw(XmlDeclAttr::Standalone));
        }
        if r.try_read_slice_exact(kw_s.as_slice()) {
            e.set_xml_declaration(XmlDeclAttr::Standalone, Ghost(r.backing()));
            self.state = TokenState::XmlDeclAttrNameAfter;
            proof {
                assert(e.cur_v(r.backing()) =~= sv.m.cur);
                assert(e.hist() =~= old(e).hist() + sv.out);
            }
            return Control::Continue;
        }
        e.emit_error(Xml5Error::InvalidXmlDeclaration, Ghost(r.backing()));
        e.demote_decl_to_pi(Ghost(r.backing()));
        self.state = TokenState::PiTarget;
        proof {
            assert(e.cur_v(r.backing()) =~= sv.m.cur);
            assert(e.hist() =~= old(e).hist() + sv.out);
        }
        Control::Continue
    }

    /// One step of the `XmlDeclAttrNameAfter` state.
    #[verifier::rlimit(100)]
    #[verifier::spinoff_prover]
    fn step_xml_decl_attr_name_after<R: Reader>(
        &mut self,
        r: &mut R,
        e: &mut DefaultEmitter,
    ) -> (c: Control)
        requires
            step_pre(*old(self), *old(r), *old(e)),
            old(self).state is XmlDeclAttrNameAfter,
        ensures
            step_effects(
                *old(self),
                *old(r),
                *old(e),
                *final(self),
                *final(r),
                *final(e),
                c,
                spec_xml_decl_attr_name_after(
                    old(r).input(),
                    old(r).pos(),
                    old(e).cur_v(old(r).backing()),
                ),
            ),
    {
        let ghost b0 = r.backing();
        let ghost sv = spec_xml_decl_attr_name_after(r.input(), r.pos(), e.cur_v(b0));
        proof {
            r.wf_facts();
            assert(b0.subrange(0, b0.len() as int) =~= b0);
        }
        match r.peek_byte() {
            None => {
                e.emit_truncation(Xml5Error::EofInXmlDeclaration, Ghost(r.backing()));
                self.state = TokenState::Data;
                self.eof = true;
                proof {
                    assert(e.cur_v(r.backing()) =~= sv.m.cur);
                    assert(e.hist() =~= old(e).hist() + sv.out);
                }
                Control::Eof
            }
            Some(ch) => {
                if ch == 9 || ch == 10 || ch == 32 {
                    r.consume_bytes(1);
                } else if ch == 61 {
                    r.consume_bytes(1);
                    self.state = TokenState::XmlDeclAttrValueBefore;
                } else {
                    e.demote_decl_to_pi(Ghost(r.backing()));
                    self.state = TokenState::PiTarget;
                }
                proof {
                    assert(e.cur_v(r.backing()) =~= sv.m.cur);
                    assert(e.hist() =~= old(e).hist() + sv.out);
                }
                Control::Continue
            }
        }
    }

    /// One step of the `XmlDeclAttrValueBefore` state.
    #[verifier::rlimit(100)]
    #[verifier::spinoff_prover]
    fn step_xml_decl_attr_value_before<R: Reader>(
        &mut self,
        r: &mut R,
        e: &mut DefaultEmitter,
    ) -> (c: Control)
        requires
            step_pre(*old(self), *old(r), *old(e)),
            old(self).state is XmlDeclAttrValueBefore,
        ensures
            step_effects(
                *old(self),
                *old(r),
                *old(e),
                *final(self),
                *final(r),
                *final(e),
                c,
                spec_xml_decl_attr_value_before(
                    old(r).input(),
                    old(r).pos(),
                    old(e).cur_v(old(r).backing()),
                ),
            ),
    {
        let ghost b0 = r.backing();
        let ghost sv = spec_xml_decl_attr_value_before(r.input(), r.pos(), e.cur_v(b0));
        proof {
            r.wf_facts();
            assert(b0.subrange(0, b0.len() as int) =~= b0);
        }
        match r.peek_byte() {
            None => {
                e.emit_truncation(Xml5Error::EofInXmlDeclaration, Ghost(r.backing()));
                self.state = TokenState::Data;
                self.eof = true;
                proof {
                    assert(e.cur_v(r.backing()) =~= sv.m.cur);
                    assert(e.hist() =~= old(e).hist() + sv.out);
                }
                Control::Eof
            }
            Some(ch) => {
                if ch == 9 || ch == 10 || ch == 32 {
                    r.consume_bytes(1);
                } else if ch == 39 {
                    r.consume_bytes(1);
                    self.state = TokenState::XmlDeclAttrValue(DeclQuote::SingleQuoted);
                } else if ch == 34 {
                    r.consume_bytes(1);
                    self.state = TokenState::XmlDeclAttrValue(DeclQuote::DoubleQuoted);
                } else {
                    e.demote_decl_to_pi(Ghost(r.backing()));
                    self.state = TokenState::PiTarget;
                }
                proof {
                    assert(e.cur_v(r.backing()) =~= sv.m.cur);
                    assert(e.hist() =~= old(e).hist() + sv.out);
                }
                Control::Continue
            }
        }
    }

    /// One step of an `XmlDeclAttrValue` state.
    #[verifier::rlimit(100)]
    #[verifier::spinoff_prover]
    fn step_xml_decl_attr_value<R: Reader>(
        &mut self,
        r: &mut R,
        e: &mut DefaultEmitter,
    ) -> (c: Control)
        requires
            step_pre(*old(self), *old(r), *old(e)),
            old(self).state is XmlDeclAttrValue,
        ensures
            step_effects(
                *old(self),
                *old(r),
                *old(e),
                *final(self),
                *final(r),
                *final(e),
                c,
                spec_xml_decl_attr_value(
                    old(self).state->XmlDeclAttrValue_0,
                    old(r).input(),
                    old(r).pos(),
                    old(e).cur_v(old(r).backing()),
                ),
            ),
    {
        let ghost input = r.input();
        let ghost pos0 = r.pos();
        let ghost b0 = r.backing();
        let ghost q = self.state->XmlDeclAttrValue_0;
        let ghost sv = spec_xml_decl_attr_value(q, input, pos0, e.cur_v(b0));
        proof {
            r.wf_facts();
            assert(b0.subrange(0, b0.len() as int) =~= b0);
        }
        let quote = match self.state {
            TokenState::XmlDeclAttrValue(DeclQuote::SingleQuoted) => 39u8,
            TokenState::XmlDeclAttrValue(DeclQuote::DoubleQuoted) => 34u8,
            _ => {
                proof {
                    assert(false);
                }
                34u8
            }
        };
        proof {
            assert(quote == decl_quote_byte(q));
        }
        let needles: Vec<u8> = vec![quote, 63u8];
        proof {
            assert(needles@ =~= seq![decl_quote_byte(q), 63u8]);
        }
        let res = r.read_fast_until(needles.as_slice());
        proof {
            e.lemma_inv_backing_extend(b0, r.backing());
        }
        match res {
            FastRead::EOF => {
                proof {
                    lemma_first_needle_range(input, pos0, input.len() as int, seq![decl_quote_byte(q), 63u8]);
                }
                let rest = r.read_to_end();
                proof {
                    e.lemma_inv_backing_extend(b0, r.backing());
                }
                match rest {
                    Some((s2, e2)) => {
                        e.append_primary(s2, e2, Ghost(r.backing()));
                    }
                    None => {
                        proof {
                            assert(input.subrange(pos0, input.len() as int) =~= Seq::<u8>::empty());
                        }
                    }
                }
                e.emit_truncation(Xml5Error::EofInXmlDeclaration, Ghost(r.backing()));
                self.state = TokenState::Data;
                self.eof = true;
                proof {
                    assert(e.cur_v(r.backing()) =~= sv.m.cur);
                    assert(e.hist() =~= old(e).hist() + sv.out);
                }
                Control::Eof
            }
            FastRead::Char(ch) => {
                proof {
                    lemma_first_needle_range(input, pos0, pos0, seq![decl_quote_byte(q), 63u8]);
                }
                proof {
                    assert(seq![decl_quote_byte(q), 63u8].contains(ch));
                    assert(ch == decl_quote_byte(q) || ch == 63) by {
                        assert(seq![decl_quote_byte(q), 63u8][0] == decl_quote_byte(q));
                        assert(seq![decl_quote_byte(q), 63u8][1] == 63u8);
                    }
                }
                if ch == quote {
                    let dq: Vec<u8> = vec![34u8];
                    assert(dq@ =~= seq![34u8]);
                    e.append_primary_owned(dq, Ghost(r.backing()));
                    self.state = TokenState::XmlDecl;
                    proof {
                        assert(e.cur_v(r.backing()) =~= sv.m.cur);
                        assert(e.hist() =~= old(e).hist() + sv.out);
                    }
                    Control::Continue
                } else {
                    e.emit_error(
                        Xml5Error::AbruptClosingXmlDeclaration,
                        Ghost(r.backing()),
                    );
                    let dq: Vec<u8> = vec![34u8];
                    assert(dq@ =~= seq![34u8]);
                    e.append_primary_owned(dq, Ghost(r.backing()));
                    self.state = TokenState::XmlDeclAfter;
                    proof {
                        assert(e.cur_v(r.backing()) =~= sv.m.cur);
                        assert(e.hist() =~= old(e).hist() + sv.out);
                    }
                    Control::Continue
                }
            }
            FastRead::InterNeedle(s, en) => {
                e.append_primary(s, en, Ghost(r.backing()));
                proof {
                    lemma_first_needle_range(input, pos0, r.pos(), seq![decl_quote_byte(q), 63u8]);
                    assert(e.cur_v(r.backing()) =~= sv.m.cur);
                    assert(e.hist() =~= old(e).hist() + sv.out);
                }
                Control::Continue
            }
        }
    }

    /// One step of the `XmlDeclAfter` state.
    #[verifier::rlimit(100)]
    #[verifier::spinoff_prover]
    fn step_xml_decl_after<R: Reader>(
        &mut self,
        r: &mut R,
        e: &mut DefaultEmitter,
    ) -> (c: Control)
        requires
            step_pre(*old(self), *old(r), *old(e)),
            old(self).state is XmlDeclAfter,
        ensures
            step_effects(
                *old(self),
                *old(r),
                *old(e),
                *final(self),
                *final(r),
                *final(e),
                c,
                spec_xml_decl_after(old(r).input(), old(r).pos(), old(e).cur_v(old(r).backing())),
            ),
    {
        let ghost b0 = r.backing();
        let ghost sv = spec_xml_decl_after(r.input(), r.pos(), e.cur_v(b0));
        proof {
            r.wf_facts();
            assert(b0.subrange(0, b0.len() as int) =~= b0);
        }
        match r.peek_byte() {
            None => {
                e.emit_truncation(Xml5Error::EofInXmlDeclaration, Ghost(r.backing()));
                self.state = TokenState::Data;
                self.eof = true;
                proof {
                    assert(e.cur_v(r.backing()) =~= sv.m.cur);
                    assert(e.hist() =~= old(e).hist() + sv.out);
                }
                Control::Eof
            }
            Some(ch) => {
                if ch == 62 {
                    e.emit_decl(Ghost(r.backing()));
                    r.consume_bytes(1);
                    self.state = TokenState::Data;
                } else {
                    self.state = TokenState::XmlDecl;
                }
                proof {
                    assert(e.cur_v(r.backing()) =~= sv.m.cur);
                    assert(e.hist() =~= old(e).hist() + sv.out);
                }
                Control::Continue
            }
        }
    }

    /// One step of the `MarkupDecl` dispatch after `<!`.
    #[verifier::rlimit(100)]
    #[verifier::spinoff_prover]
    fn step_markup_decl<R: Reader>(&mut self, r: &mut R, e: &mut DefaultEmitter) -> (c: Control)
        requires
            step_pre(*old(self), *old(r), *old(e)),
            old(self).state is MarkupDecl,
        ensures
            step_effects(
                *old(self),
                *old(r),
                *old(e),
                *final(self),
                *final(r),
                *final(e),
                c,
                spec_markup_decl(old(r).input(), old(r).pos(), old(e).cur_v(old(r).backing())),
            ),
    {
        let ghost b0 = r.backing();
        let ghost sv = spec_markup_decl(r.input(), r.pos(), e.cur_v(b0));
        proof {
            r.wf_facts();
            assert(b0.subrange(0, b0.len() as int) =~= b0);
        }
        let dashes: Vec<u8> = vec![45u8, 45u8];
        proof {
            assert(dashes@ =~= kw_dashdash());
        }
        if r.try_read_slice_exact(dashes.as_slice()) {
            e.create_comment_token(Ghost(r.backing()));
            self.state = TokenState::CommentStart;
            proof {
                assert(e.cur_v(r.backing()) =~= sv.m.cur);
                assert(e.hist() =~= old(e).hist() + sv.out);
            }
            return Control::Continue;
        }
        let dt: Vec<u8> = vec![68u8, 79u8, 67u8, 84u8, 89u8, 80u8, 69u8];
        proof {
            assert(dt@ =~= kw_doctype());
        }
        if r.try_read_slice(dt.as_slice(), false) {
            self.state = TokenState::Doctype;
            proof {
                assert(e.cur_v(r.backing()) =~= sv.m.cur);
                assert(e.hist() =~= old(e).hist() + sv.out);
            }
            return Control::Continue;
        }
        let cd: Vec<u8> = vec![91u8, 67u8, 68u8, 65u8, 84u8, 65u8, 91u8];
        proof {
            assert(cd@ =~= kw_cdata());
        }
        if r.try_read_slice_exact(cd.as_slice()) {
            e.create_cdata_token(Ghost(r.backing()));
            self.state = TokenState::Cdata;
            proof {
                assert(e.cur_v(r.backing()) =~= sv.m.cur);
                assert(e.hist() =~= old(e).hist() + sv.out);
            }
            return Control::Continue;
        }
        e.emit_error(Xml5Error::IncorrectlyOpenedComment, Ghost(r.backing()));
        e.create_comment_token(Ghost(r.backing()));
        self.state = TokenState::BogusComment;
        proof {
            assert(e.cur_v(r.backing()) =~= sv.m.cur);
            assert(e.hist() =~= old(e).hist() + sv.out);
        }
        Control::Continue
    }

    /// One step of the `CommentStart` state.
    #[verifier::rlimit(100)]
    #[verifier::spinoff_prover]
    fn step_comment_start<R: Reader>(&mut self, r: &mut R, e: &mut DefaultEmitter) -> (c: Control)
        requires
            step_pre(*old(self), *old(r), *old(e)),
            old(self).state is CommentStart,
        ensures
            step_effects(
                *old(self),
                *old(r),
                *old(e),
                *final(self),
                *final(r),
                *final(e),
                c,
                spec_comment_start(old(r).input(), old(r).pos(), old(e).cur_v(old(r).backing())),
            ),
    {
        let ghost b0 = r.backing();
        let ghost cur0 = e.cur_v(b0);
        let ghost sv = spec_comment_start(r.input(), r.pos(), cur0);
        proof {
            r.wf_facts();
            assert(b0.subrange(0, b0.len() as int) =~= b0);
        }
        match r.peek_byte() {
            None => {
                self.state = TokenState::Comment;
                proof {
                    assert(e.cur_v(r.backing()) =~= sv.m.cur);
                    assert(e.hist() =~= old(e).hist() + sv.out);
                }
                Control::Continue
            }
            Some(ch) => {
                if ch == 45 {
                    r.consume_bytes(1);
                    self.state = TokenState::CommentStartDash;
                    proof {
                        assert(e.cur_v(r.backing()) =~= sv.m.cur);
                        assert(e.hist() =~= old(e).hist() + sv.out);
                    }
                    Control::Continue
                } else if ch == 62 {
                    e.emit_error(
                        Xml5Error::AbruptClosingEmptyComment,
                        Ghost(r.backing()),
                    );
                    e.emit_comment(Ghost(r.backing()));
                    r.consume_bytes(1);
                    self.state = TokenState::Data;
                    proof {
                        assert(e.cur_v(r.backing()) =~= sv.m.cur);
                        assert(e.hist() =~= old(e).hist() + sv.out);
                    }
                    Control::Continue
                } else {
                    self.state = TokenState::Comment;
                    proof {
                        assert(e.cur_v(r.backing()) =~= sv.m.cur);
                        assert(e.hist() =~= old(e).hist() + sv.out);
                    }
                    Control::Continue
                }
            }
        }
    }

    /// One step of the `CommentStartDash` state.
    #[verifier::rlimit(100)]
    #[verifier::spinoff_prover]
    fn step_comment_start_dash<R: Reader>(
        &mut self,
        r: &mut R,
        e: &mut DefaultEmitter,
    ) -> (c: Control)
        requires
            step_pre(*old(self), *old(r), *old(e)),
            old(self).state is CommentStartDash,
        ensures
            step_effects(
                *old(self),
                *old(r),
                *old(e),
                *final(self),
                *final(r),
                *final(e),
                c,
                spec_comment_start_dash(
                    old(r).input(),
                    old(r).pos(),
                    old(e).cur_v(old(r).backing()),
                ),
            ),
    {
        let ghost b0 = r.backing();
        let ghost sv = spec_comment_start_dash(r.input(), r.pos(), e.cur_v(b0));
        proof {
            r.wf_facts();
            assert(b0.subrange(0, b0.len() as int) =~= b0);
        }
        match r.peek_byte() {
            None => {
                e.emit_truncation(Xml5Error::EofInComment, Ghost(r.backing()));
                self.state = TokenState::Data;
                self.eof = true;
                proof {
                    assert(e.cur_v(r.backing()) =~= sv.m.cur);
                    assert(e.hist() =~= old(e).hist() + sv.out);
                }
                Control::Eof
            }
            Some(ch) => {
                if ch == 45 {
                    r.consume_bytes(1);
                    self.state = TokenState::CommentEnd;
                } else if ch == 62 {
                    e.emit_error(
                        Xml5Error::AbruptClosingEmptyComment,
                        Ghost(r.backing()),
                    );
                    e.emit_comment(Ghost(r.backing()));
                    r.consume_bytes(1);
                    self.state = TokenState::Data;
                } else {
                    let d: Vec<u8> = vec![45u8];
                    assert(d@ =~= seq![45u8]);
                    e.append_primary_owned(d, Ghost(r.backing()));
                    self.state = TokenState::Comment;
                }
                proof {
                    assert(e.cur_v(r.backing()) =~= sv.m.cur);
                    assert(e.hist() =~= old(e).hist() + sv.out);
                }
                Control::Continue
            }
        }
    }

    /// One step of the `Comment` state.
    #[verifier::rlimit(100)]
    #[verifier::spinoff_prover]
    fn step_comment<R: Reader>(&mut self, r: &mut R, e: &mut DefaultEmitter) -> (c: Control)
        requires
            step_pre(*old(self), *old(r), *old(e)),
            old(self).state is Comment,
        ensures
            step_effects(
                *old(self),
                *old(r),
                *old(e),
                *final(self),
                *final(r),
                *final(e),
                c,
                spec_comment(old(r).input(), old(r).pos(), old(e).cur_v(old(r).backing())),
            ),
    {
        let ghost input = r.input();
        let ghost pos0 = r.pos();
        let ghost b0 = r.backing();
        let ghost sv = spec_comment(input, pos0, e.cur_v(b0));
        proof {
            r.wf_facts();
            assert(b0.subrange(0, b0.len() as int) =~= b0);
        }
        let needles: Vec<u8> = vec![60u8, 45u8];
        proof {
            assert(needles@ =~= seq![60u8, 45u8]);
        }
        let res = r.read_fast_until(needles.as_slice());
        proof {
            e.lemma_inv_backing_extend(b0, r.backing());
        }
        match res {
            FastRead::EOF => {
                proof {
                    lemma_first_needle_range(input, pos0, input.len() as int, seq![60u8, 45u8]);
                }
                let rest = r.read_to_end();
                proof {
                    e.lemma_inv_backing_extend(b0, r.backing());
                }
                match rest {
                    Some((s2, e2)) => {
                        e.append_primary(s2, e2, Ghost(r.backing()));
                    }
                    None => {
                        proof {
                            assert(input.subrange(pos0, input.len() as int) =~= Seq::<u8>::empty());
                        }
                    }
                }
                e.emit_truncation(Xml5Error::EofInComment, Ghost(r.backing()));
                self.state = TokenState::Data;
                self.eof = true;
                proof {
                    assert(e.cur_v(r.backing()) =~= sv.m.cur);
                    assert(e.hist() =~= old(e).hist() + sv.out);
                }
                Control::Eof
            }
            FastRead::Char(ch) => {
                proof {
                    lemma_first_needle_range(input, pos0, pos0, seq![60u8, 45u8]);
                }
                proof {
                    assert(seq![60u8, 45u8].contains(ch));
                    assert(ch == 60 || ch == 45) by {
                        assert(seq![60u8, 45u8][0] == 60u8);
                        assert(seq![60u8, 45u8][1] == 45u8);
                    }
                }
                if ch == 60 {
                    let lt: Vec<u8> = vec![60u8];
                    assert(lt@ =~= seq![60u8]);
                    e.append_primary_owned(lt, Ghost(r.backing()));
                    self.state = TokenState::CommentLessThan;
                } else {
                    self.state = TokenState::CommentEndDash;
                }
                proof {
                    assert(e.cur_v(r.backing()) =~= sv.m.cur);
                    assert(e.hist() =~= old(e).hist() + sv.out);
                }
                Control::Continue
            }
            FastRead::InterNeedle(s, en) => {
                e.append_primary(s, en, Ghost(r.backing()));
                proof {
                    lemma_first_needle_range(input, pos0, r.pos(), seq![60u8, 45u8]);
                    assert(e.cur_v(r.backing()) =~= sv.m.cur);
                    assert(e.hist() =~= old(e).hist() + sv.out);
                }
                Control::Continue
            }
        }
    }

    /// One step of the `CommentLessThan` state.
    #[verifier::rlimit(100)]
    #[verifier::spinoff_prover]
    fn step_comment_less_than<R: Reader>(
        &mut self,
        r: &mut R,
        e: &mut DefaultEmitter,
    ) -> (c: Control)
        requires
            step_pre(*old(self), *old(r), *old(e)),
            old(self).state is CommentLessThan,
        ensures
            step_effects(
                *old(self),
                *old(r),
                *old(e),
                *final(self),
                *final(r),
                *final(e),
                c,
                spec_comment_less_than(
                    old(r).input(),
                    old(r).pos(),
                    old(e).cur_v(old(r).backing()),
                ),
            ),
    {
        let ghost b0 = r.backing();
        let ghost sv = spec_comment_less_than(r.input(), r.pos(), e.cur_v(b0));
        proof {
            r.wf_facts();
            assert(b0.subrange(0, b0.len() as int) =~= b0);
        }
        match r.peek_byte() {
            None => {
                self.state = TokenState::Comment;
                proof {
                    assert(e.cur_v(r.backing()) =~= sv.m.cur);
                    assert(e.hist() =~= old(e).hist() + sv.out);
                }
                Control::Continue
            }
            Some(ch) => {
                if ch == 33 {
                    let ex: Vec<u8> = vec![33u8];
                    assert(ex@ =~= seq![33u8]);
                    e.append_primary_owned(ex, Ghost(r.backing()));
                    r.consume_bytes(1);
                    self.state = TokenState::CommentLessThanBang;
                } else if ch == 60 {
                    let lt: Vec<u8> = vec![60u8];
                    assert(lt@ =~= seq![60u8]);
                    e.append_primary_owned(lt, Ghost(r.backing()));
                    r.consume_bytes(1);
                } else {
                    self.state = TokenState::Comment;
                }
                proof {
                    assert(e.cur_v(r.backing()) =~= sv.m.cur);
                    assert(e.hist() =~= old(e).hist() + sv.out);
                }
                Control::Continue
            }
        }
    }

    /// One step of the `CommentLessThanBang` state.
    #[verifier::rlimit(100)]
    #[verifier::spinoff_prover]
    fn step_comment_less_than_bang<R: Reader>(
        &mut self,
        r: &mut R,
        e: &mut DefaultEmitter,
    ) -> (c: Control)
        requires
            step_pre(*old(self), *old(r), *old(e)),
            old(self).state is CommentLessThanBang,
        ensures
            step_effects(
                *old(self),
                *old(r),
                *old(e),
                *final(self),
                *final(r),
                *final(e),
                c,
                spec_comment_less_than_bang(
                    old(r).input(),
                    old(r).pos(),
                    old(e).cur_v(old(r).backing()),
                ),
            ),
    {
        let ghost b0 = r.backing();
        let ghost sv = spec_comment_less_than_bang(r.input(), r.pos(), e.cur_v(b0));
        proof {
            r.wf_facts();
            assert(b0.subrange(0, b0.len() as int) =~= b0);
        }
        match r.peek_byte() {
            Some(ch) => {
                if ch == 45 {
                    r.consume_bytes(1);
                    self.state = TokenState::CommentLessThanBangDash;
                } else {
                    self.state = TokenState::Comment;
                }
                proof {
                    assert(e.cur_v(r.backing()) =~= sv.m.cur);
                    assert(e.hist() =~= old(e).hist() + sv.out);
                }
                Control::Continue
            }
            None => {
                self.state = TokenState::Comment;
                proof {
                    assert(e.cur_v(r.backing()) =~= sv.m.cur);
                    assert(e.hist() =~= old(e).hist() + sv.out);
                }
                Control::Continue
            }
        }
    }

    /// One step of the `CommentLessThanBangDash` state.
    #[verifier::rlimit(100)]
    #[verifier::spinoff_prover]
    fn step_comment_less_than_bang_dash<R: Reader>(
        &mut self,
        r: &mut R,
        e: &mut DefaultEmitter,
    ) -> (c: Control)
        requires
            step_pre(*old(self), *old(r), *old(e)),
            old(self).state is CommentLessThanBangDash,
        ensures
            step_effects(
                *old(self),
                *old(r),
                *old(e),
                *final(self),
                *final(r),
                *final(e),
                c,
                spec_comment_less_than_bang_dash(
                    old(r).input(),
                    old(r).pos(),
                    old(e).cur_v(old(r).backing()),
                ),
            ),
    {
        let ghost b0 = r.backing();
        let ghost sv = spec_comment_less_than_bang_dash(r.input(), r.pos(), e.cur_v(b0));
        proof {
            r.wf_facts();
            assert(b0.subrange(0, b0.len() as int) =~= b0);
        }
        match r.peek_byte() {
            Some(ch) => {
                if ch == 45 {
                    r.consume_bytes(1);
                    self.state = TokenState::CommentLessThanBangDashDash;
                } else {
                    self.state = TokenState::CommentEndDash;
                }
                proof {
                    assert(e.cur_v(r.backing()) =~= sv.m.cur);
                    assert(e.hist() =~= old(e).hist() + sv.out);
                }
                Control::Continue
            }
            None => {
                self.state = TokenState::CommentEndDash;
                proof {
                    assert(e.cur_v(r.backing()) =~= sv.m.cur);
                    assert(e.hist() =~= old(e).hist() + sv.out);
                }
                Control::Continue
            }
        }
    }

    /// One step of the `CommentLessThanBangDashDash` state: the two dashes
    /// seen count as a potential comment end.
    #[verifier::rlimit(100)]
    #[verifier::spinoff_prover]
    fn step_comment_less_than_bang_dash_dash<R: Reader>(
        &mut self,
        r: &mut R,
        e: &mut DefaultEmitter,
    ) -> (c: Control)
        requires
            step_pre(*old(self), *old(r), *old(e)),
            old(self).state is CommentLessThanBangDashDash,
        ensures
            step_effects(
                *old(self),
                *old(r),
                *old(e),
                *final(self),
                *final(r),
                *final(e),
                c,
                spec_comment_less_than_bang_dash_dash(
                    old(r).input(),
                    old(r).pos(),
                    old(e).cur_v(old(r).backing()),
                ),
            ),
    {
        let ghost b0 = r.backing();
        let ghost sv = spec_comment_less_than_bang_dash_dash(r.input(), r.pos(), e.cur_v(b0));
        proof {
            r.wf_facts();
            assert(b0.subrange(0, b0.len() as int) =~= b0);
        }
        self.state = TokenState::CommentEnd;
        proof {
            assert(e.cur_v(r.backing()) =~= sv.m.cur);
            assert(e.hist() =~= old(e).hist() + sv.out);
        }
        Control::Continue
    }

    /// One step of the `CommentEndDash` state.
    #[verifier::rlimit(100)]
    #[verifier::spinoff_prover]
    fn step_comment_end_dash<R: Reader>(
        &mut self,
        r: &mut R,
        e: &mut DefaultEmitter,
    ) -> (c: Control)
        requires
            step_pre(*old(self), *old(r), *old(e)),
            old(self).state is CommentEndDash,
        ensures
            step_effects(
                *old(self),
                *old(r),
                *old(e),
                *final(self),
                *final(r),
                *final(e),
                c,
                spec_comment_end_dash(
                    old(r).input(),
                    old(r).pos(),
                    old(e).cur_v(old(r).backing()),
                ),
            ),
    {
        let ghost b0 = r.backing();
        let ghost sv = spec_comment_end_dash(r.input(), r.pos(), e.cur_v(b0));
        proof {
            r.wf_facts();
            assert(b0.subrange(0, b0.len() as int) =~= b0);
        }
        match r.peek_byte() {
            None => {
                e.emit_truncation(Xml5Error::EofInComment, Ghost(r.backing()));
                self.state = TokenState::Data;
                self.eof = true;
                proof {
                    assert(e.cur_v(r.backing()) =~= sv.m.cur);
                    assert(e.hist() =~= old(e).hist() + sv.out);
                }
                Control::Eof
            }
            Some(ch) => {
                if ch == 45 {
                    r.consume_bytes(1);
                    self.state = TokenState::CommentEnd;
                } else {
                    let d: Vec<u8> = vec![45u8];
                    assert(d@ =~= seq![45u8]);
                    e.append_primary_owned(d, Ghost(r.backing()));
                    self.state = TokenState::Comment;
                }
                proof {
                    assert(e.cur_v(r.backing()) =~= sv.m.cur);
                    assert(e.hist() =~= old(e).hist() + sv.out);
                }
                Control::Continue
            }
        }
    }

    /// One step of the `CommentEnd` state.
    #[verifier::rlimit(100)]
    #[verifier::spinoff_prover]
    fn step_comment_end<R: Reader>(&mut self, r: &mut R, e: &mut DefaultEmitter) -> (c: Control)
        requires
            step_pre(*old(self), *old(r), *old(e)),
            old(self).state is CommentEnd,
        ensures
            step_effects(
                *old(self),
                *old(r),
                *old(e),
                *final(self),
                *final(r),
                *final(e),
                c,
                spec_comment_end(old(r).input(), old(r).pos(), old(e).cur_v(old(r).backing())),
            ),
    {
        let ghost b0 = r.backing();
        let ghost cur0 = e.cur_v(b0);
        let ghost sv = spec_comment_end(r.input(), r.pos(), cur0);
        proof {
            r.wf_facts();
            assert(b0.subrange(0, b0.len() as int) =~= b0);
        }
        match r.peek_byte() {
            None => {
                e.emit_truncation(Xml5Error::EofInComment, Ghost(r.backing()));
                self.state = TokenState::Data;
                self.eof = true;
                proof {
                    assert(e.cur_v(r.backing()) =~= sv.m.cur);
                    assert(e.hist() =~= old(e).hist() + sv.out);
                }
                Control::Eof
            }
            Some(ch) => {
                if ch == 62 {
                    e.emit_comment(Ghost(r.backing()));
                    r.consume_bytes(1);
                    self.state = TokenState::Data;
                } else if ch == 33 {
                    r.consume_bytes(1);
                    self.state = TokenState::CommentEndBang;
                } else if ch == 45 {
                    let d: Vec<u8> = vec![45u8];
                    assert(d@ =~= seq![45u8]);
                    e.append_primary_owned(d, Ghost(r.backing()));
                    r.consume_bytes(1);
                } else {
                    let dd: Vec<u8> = vec![45u8, 45u8];
                    assert(dd@ =~= seq![45u8, 45u8]);
                    e.append_primary_owned(dd, Ghost(r.backing()));
                    self.state = TokenState::Comment;
                }
                proof {
                    assert(e.cur_v(r.backing()) =~= sv.m.cur);
                    assert(e.hist() =~= old(e).hist() + sv.out);
                }
                Control::Continue
            }
        }
    }

    /// One step of the `CommentEndBang` state.
    #[verifier::rlimit(100)]
    #[verifier::spinoff_prover]
    fn step_comment_end_bang<R: Reader>(
        &mut self,
        r: &mut R,
        e: &mut DefaultEmitter,
    ) -> (c: Control)
        requires
            step_pre(*old(self), *old(r), *old(e)),
            old(self).state is CommentEndBang,
        ensures
            step_effects(
                *old(self),
                *old(r),
                *old(e),
                *final(self),
                *final(r),
                *final(e),
                c,
                spec_comment_end_bang(
                    old(r).input(),
                    old(r).pos(),
                    old(e).cur_v(old(r).backing()),
                ),
            ),
    {
        let ghost b0 = r.backing();
        let ghost cur0 = e.cur_v(b0);
        let ghost sv = spec_comment_end_bang(r.input(), r.pos(), cur0);
        proof {
            r.wf_facts();
            assert(b0.subrange(0, b0.len() as int) =~= b0);
        }
        match r.peek_byte() {
            None => {
                e.emit_truncation(Xml5Error::EofInComment, Ghost(r.backing()));
                self.state = TokenState::Data;
                self.eof = true;
                proof {
                    assert(e.cur_v(r.backing()) =~= sv.m.cur);
                    assert(e.hist() =~= old(e).hist() + sv.out);
                }
                Control::Eof
            }
            Some(ch) => {
                if ch == 45 {
                    let ddb: Vec<u8> = vec![45u8, 45u8, 33u8];
                    assert(ddb@ =~= seq![45u8, 45u8, 33u8]);
                    e.append_primary_owned(ddb, Ghost(r.backing()));
                    r.consume_bytes(1);
                    self.state = TokenState::CommentEndDash;
                } else if ch == 62 {
                    e.emit_error(Xml5Error::GreaterThanInComment, Ghost(r.backing()));
                    e.emit_comment(Ghost(r.backing()));
                    r.consume_bytes(1);
                    self.state = TokenState::Data;
                } else {
                    let ddb: Vec<u8> = vec![45u8, 45u8, 33u8];
                    assert(ddb@ =~= seq![45u8, 45u8, 33u8]);
                    e.append_primary_owned(ddb, Ghost(r.backing()));
                    self.state = TokenState::Comment;
                }
                proof {
                    assert(e.cur_v(r.backing()) =~= sv.m.cur);
                    assert(e.hist() =~= old(e).hist() + sv.out);
                }
                Control::Continue
            }
        }
    }

    /// One step of the `Cdata` state.
    #[verifier::rlimit(100)]
    #[verifier::spinoff_prover]
    fn step_cdata<R: Reader>(&mut self, r: &mut R, e: &mut DefaultEmitter) -> (c: Control)
        requires
            step_pre(*old(self), *old(r), *old(e)),
            old(self).state is Cdata,
        ensures
            step_effects(
                *old(self),
                *old(r),
                *old(e),
                *final(self),
                *final(r),
                *final(e),
                c,
                spec_cdata(old(r).input(), old(r).pos(), old(e).cur_v(old(r).backing())),
            ),
    {
        let ghost input = r.input();
        let ghost pos0 = r.pos();
        let ghost b0 = r.backing();
        let ghost sv = spec_cdata(input, pos0, e.cur_v(b0));
        proof {
            r.wf_facts();
            assert(b0.subrange(0, b0.len() as int) =~= b0);
        }
        let needles: Vec<u8> = vec![93u8];
        proof {
            assert(needles@ =~= seq![93u8]);
        }
        let res = r.read_fast_until(needles.as_slice());
        proof {
            e.lemma_inv_backing_extend(b0, r.backing());
        }
        match res {
            FastRead::EOF => {
                proof {
                    lemma_first_needle_range(input, pos0, input.len() as int, seq![93u8]);
                }
                let rest = r.read_to_end();
                proof {
                    e.lemma_inv_backing_extend(b0, r.backing());
                }
                match rest {
                    Some((s2, e2)) => {
                        e.append_primary(s2, e2, Ghost(r.backing()));
                    }
                    None => {
                        proof {
                            assert(input.subrange(pos0, input.len() as int) =~= Seq::<u8>::empty());
                        }
                    }
                }
                e.emit_truncation(Xml5Error::EofInCdata, Ghost(r.backing()));
                self.state = TokenState::Data;
                self.eof = true;
                proof {
                    assert(e.cur_v(r.backing()) =~= sv.m.cur);
                    assert(e.hist() =~= old(e).hist() + sv.out);
                }
                Control::Eof
            }
            FastRead::Char(ch) => {
                proof {
                    lemma_first_needle_range(input, pos0, pos0, seq![93u8]);
                }
                proof {
                    assert(seq![93u8].contains(ch));
                    assert(ch == 93) by {
                        assert(seq![93u8][0] == 93u8);
                    }
                }
                self.state = TokenState::CdataBracket;
                proof {
                    assert(e.cur_v(r.backing()) =~= sv.m.cur);
                    assert(e.hist() =~= old(e).hist() + sv.out);
                }
                Control::Continue
            }
            FastRead::InterNeedle(s, en) => {
                e.append_primary(s, en, Ghost(r.backing()));
                proof {
                    lemma_first_needle_range(input, pos0, r.pos(), seq![93u8]);
                    assert(e.cur_v(r.backing()) =~= sv.m.cur);
                    assert(e.hist() =~= old(e).hist() + sv.out);
                }
                Control::Continue
            }
        }
    }

    /// One step of the `CdataBracket` state.
    #[verifier::rlimit(100)]
    #[verifier::spinoff_prover]
    fn step_cdata_bracket<R: Reader>(&mut self, r: &mut R, e: &mut DefaultEmitter) -> (c: Control)
        requires
            step_pre(*old(self), *old(r), *old(e)),
            old(self).state is CdataBracket,
        ensures
            step_effects(
                *old(self),
                *old(r),
                *old(e),
                *final(self),
                *final(r),
                *final(e),
                c,
                spec_cdata_bracket(old(r).input(), old(r).pos(), old(e).cur_v(old(r).backing())),
            ),
    {
        let ghost b0 = r.backing();
        let ghost sv = spec_cdata_bracket(r.input(), r.pos(), e.cur_v(b0));
        proof {
            r.wf_facts();
            assert(b0.subrange(0, b0.len() as int) =~= b0);
        }
        match r.peek_byte() {
            None => {
                e.emit_truncation(Xml5Error::EofInCdata, Ghost(r.backing()));
                self.state = TokenState::Data;
                self.eof = true;
                proof {
                    assert(e.cur_v(r.backing()) =~= sv.m.cur);
                    assert(e.hist() =~= old(e).hist() + sv.out);
                }
                Control::Eof
            }
            Some(ch) => {
                if ch == 93 {
                    r.consume_bytes(1);
                    self.state = TokenState::CdataEnd;
                } else {
                    let br: Vec<u8> = vec![93u8, ch];
                    assert(br@ =~= seq![93u8, ch]);
                    e.append_primary_owned(br, Ghost(r.backing()));
                    r.consume_bytes(1);
                    self.state = TokenState::Cdata;
                }
                proof {
                    assert(e.cur_v(r.backing()) =~= sv.m.cur);
                    assert(e.hist() =~= old(e).hist() + sv.out);
                }
                Control::Continue
            }
        }
    }

    /// One step of the `CdataEnd` state.
    #[verifier::rlimit(100)]
    #[verifier::spinoff_prover]
    fn step_cdata_end<R: Reader>(&mut self, r: &mut R, e: &mut DefaultEmitter) -> (c: Control)
        requires
            step_pre(*old(self), *old(r), *old(e)),
            old(self).state is CdataEnd,
        ensures
            step_effects(
                *old(self),
                *old(r),
                *old(e),
                *final(self),
                *final(r),
                *final(e),
                c,
                spec_cdata_end(old(r).input(), old(r).pos(), old(e).cur_v(old(r).backing())),
            ),
    {
        let ghost b0 = r.backing();
        let ghost sv = spec_cdata_end(r.input(), r.pos(), e.cur_v(b0));
        proof {
            r.wf_facts();
            assert(b0.subrange(0, b0.len() as int) =~= b0);
        }
        match r.peek_byte() {
            None => {
                e.emit_truncation(Xml5Error::EofInCdata, Ghost(r.backing()));
                self.state = TokenState::Data;
                self.eof = true;
                proof {
                    assert(e.cur_v(r.backing()) =~= sv.m.cur);
                    assert(e.hist() =~= old(e).hist() + sv.out);
                }
                Control::Eof
            }
            Some(ch) => {
                if ch == 62 {
                    e.emit_cdata(Ghost(r.backing()));
                    r.consume_bytes(1);
                    self.state = TokenState::Data;
                } else if ch == 93 {
                    let br: Vec<u8> = vec![93u8];
                    assert(br@ =~= seq![93u8]);
                    e.append_primary_owned(br, Ghost(r.backing()));
                    r.consume_bytes(1);
                } else {
                    let br: Vec<u8> = vec![93u8, 93u8, ch];
                    assert(br@ =~= seq![93u8, 93u8, ch]);
                    e.append_primary_owned(br, Ghost(r.backing()));
                    r.consume_bytes(1);
                    self.state = TokenState::Cdata;
                }
                proof {
                    assert(e.cur_v(r.backing()) =~= sv.m.cur);
                    assert(e.hist() =~= old(e).hist() + sv.out);
                }
                Control::Continue
            }
        }
    }

    /// One step of the `BogusComment` state.
    #[verifier::rlimit(100)]
    #[verifier::spinoff_prover]
    fn step_bogus_comment<R: Reader>(&mut self, r: &mut R, e: &mut DefaultEmitter) -> (c: Control)
        requires
            step_pre(*old(self), *old(r), *old(e)),
            old(self).state is BogusComment,
        ensures
            step_effects(
                *old(self),
                *old(r),
                *old(e),
                *final(self),
                *final(r),
                *final(e),
                c,
                spec_bogus_comment(old(r).input(), old(r).pos(), old(e).cur_v(old(r).backing())),
            ),
    {
        let ghost input = r.input();
        let ghost pos0 = r.pos();
        let ghost b0 = r.backing();
        let ghost cur0 = e.cur_v(b0);
        let ghost sv = spec_bogus_comment(input, pos0, cur0);
        proof {
            r.wf_facts();
            assert(b0.subrange(0, b0.len() as int) =~= b0);
        }
        let needles: Vec<u8> = vec![62u8];
        proof {
            assert(needles@ =~= seq![62u8]);
        }
        let res = r.read_fast_until(needles.as_slice());
        proof {
            e.lemma_inv_backing_extend(b0, r.backing());
        }
        match res {
            FastRead::EOF => {
                proof {
                    lemma_first_needle_range(input, pos0, input.len() as int, seq![62u8]);
                }
                let rest = r.read_to_end();
                proof {
                    e.lemma_inv_backing_extend(b0, r.backing());
                }
                match rest {
                    Some((s2, e2)) => {
                        e.append_primary(s2, e2, Ghost(r.backing()));
                    }
                    None => {
                        proof {
                            assert(input.subrange(pos0, input.len() as int) =~= Seq::<u8>::empty());
                        }
                    }
                }
                e.emit_comment(Ghost(r.backing()));
                e.emit_eof(Ghost(r.backing()));
                self.state = TokenState::Data;
                self.eof = true;
                proof {
                    assert(e.cur_v(r.backing()) =~= sv.m.cur);
                    assert(e.hist() =~= old(e).hist() + sv.out);
                }
                Control::Eof
            }
            FastRead::Char(ch) => {
                proof {
                    lemma_first_needle_range(input, pos0, pos0, seq![62u8]);
                }
                proof {
                    assert(seq![62u8].contains(ch));
                    assert(ch == 62) by {
                        assert(seq![62u8][0] == 62u8);
                    }
                }
                e.emit_comment(Ghost(r.backing()));
                self.state = TokenState::Data;
                proof {
                    assert(e.cur_v(r.backing()) =~= sv.m.cur);
                    assert(e.hist() =~= old(e).hist() + sv.out);
                }
                Control::Continue
            }
            FastRead::InterNeedle(s, en) => {
                e.append_primary(s, en, Ghost(r.backing()));
                proof {
                    lemma_first_needle_range(input, pos0, r.pos(), seq![62u8]);
                    assert(e.cur_v(r.backing()) =~= sv.m.cur);
                    assert(e.hist() =~= old(e).hist() + sv.out);
                }
                Control::Continue
            }
        }
    }

    /// One step of the `Doctype` state (just after the keyword).
    #[verifier::rlimit(100)]
    #[verifier::spinoff_prover]
    fn step_doctype<R: Reader>(&mut self, r: &mut R, e: &mut DefaultEmitter) -> (c: Control)
        requires
            step_pre(*old(self), *old(r), *old(e)),
            old(self).state is Doctype,
        ensures
            step_effects(
                *old(self),
                *old(r),
                *old(e),
                *final(self),
                *final(r),
                *final(e),
                c,
                spec_doctype(old(r).input(), old(r).pos(), old(e).cur_v(old(r).backing())),
            ),
    {
        let ghost b0 = r.backing();
        let ghost sv = spec_doctype(r.input(), r.pos(), e.cur_v(b0));
        proof {
            r.wf_facts();
            assert(b0.subrange(0, b0.len() as int) =~= b0);
        }
        match r.peek_byte() {
            None => {
                e.create_doctype(Ghost(r.backing()));
                e.emit_truncation(Xml5Error::EofInDoctype, Ghost(r.backing()));
                self.state = TokenState::Data;
                self.eof = true;
                proof {
                    assert(e.cur_v(r.backing()) =~= sv.m.cur);
                    assert(e.hist() =~= old(e).hist() + sv.out);
                }
                Control::Eof
            }
            Some(ch) => {
                if ch == 9 || ch == 10 || ch == 32 {
                    r.consume_bytes(1);
                    self.state = TokenState::BeforeDoctypeName;
                } else {
                    e.emit_error(Xml5Error::MissingWhitespaceDoctype, Ghost(r.backing()));
                    self.state = TokenState::BeforeDoctypeName;
                }
                proof {
                    assert(e.cur_v(r.backing()) =~= sv.m.cur);
                    assert(e.hist() =~= old(e).hist() + sv.out);
                }
                Control::Continue
            }
        }
    }

    /// One step of the `BeforeDoctypeName` state.
    #[verifier::rlimit(100)]
    #[verifier::spinoff_prover]
    fn step_before_doctype_name<R: Reader>(
        &mut self,
        r: &mut R,
        e: &mut DefaultEmitter,
    ) -> (c: Control)
        requires
            step_pre(*old(self), *old(r), *old(e)),
            old(self).state is BeforeDoctypeName,
        ensures
            step_effects(
                *old(self),
                *old(r),
                *old(e),
                *final(self),
                *final(r),
                *final(e),
                c,
                spec_before_doctype_name(
                    old(r).input(),
                    old(r).pos(),
                    old(e).cur_v(old(r).backing()),
                ),
            ),
    {
        let ghost b0 = r.backing();
        let ghost sv = spec_before_doctype_name(r.input(), r.pos(), e.cur_v(b0));
        proof {
            r.wf_facts();
            assert(b0.subrange(0, b0.len() as int) =~= b0);
        }
        match r.peek_byte() {
            None => {
                e.create_doctype(Ghost(r.backing()));
                e.emit_truncation(Xml5Error::EofInDoctype, Ghost(r.backing()));
                self.state = TokenState::Data;
                self.eof = true;
                proof {
                    assert(e.cur_v(r.backing()) =~= sv.m.cur);
                    assert(e.hist() =~= old(e).hist() + sv.out);
                }
                Control::Eof
            }
            Some(ch) => {
                if ch == 9 || ch == 10 || ch == 32 {
                    r.consume_bytes(1);
                } else if ch == 62 {
                    e.emit_error(Xml5Error::MissingDoctypeName, Ghost(r.backing()));
                    e.create_doctype(Ghost(r.backing()));
                    e.emit_doctype(Ghost(r.backing()));
                    r.consume_bytes(1);
                    self.state = TokenState::Data;
                } else {
                    e.create_doctype(Ghost(r.backing()));
                    e.doctype_name_now(crate::reader::ascii_lower_pub(ch), Ghost(r.backing()));
                    r.consume_bytes(1);
                    self.state = TokenState::DoctypeName;
                }
                proof {
                    assert(e.cur_v(r.backing()) =~= sv.m.cur);
                    assert(e.hist() =~= old(e).hist() + sv.out);
                }
                Control::Continue
            }
        }
    }

    /// One step of the `DoctypeName` state: the name is lowercased byte by
    /// byte.
    #[verifier::rlimit(100)]
    #[verifier::spinoff_prover]
    fn step_doctype_name<R: Reader>(&mut self, r: &mut R, e: &mut DefaultEmitter) -> (c: Control)
        requires
            step_pre(*old(self), *old(r), *old(e)),
            old(self).state is DoctypeName,
        ensures
            step_effects(
                *old(self),
                *old(r),
                *old(e),
                *final(self),
                *final(r),
                *final(e),
                c,
                spec_doctype_name(old(r).input(), old(r).pos(), old(e).cur_v(old(r).backing())),
            ),
    {
        let ghost b0 = r.backing();
        let ghost sv = spec_doctype_name(r.input(), r.pos(), e.cur_v(b0));
        proof {
            r.wf_facts();
            assert(b0.subrange(0, b0.len() as int) =~= b0);
        }
        match r.peek_byte() {
            None => {
                e.emit_truncation(Xml5Error::EofInDoctype, Ghost(r.backing()));
                self.state = TokenState::Data;
                self.eof = true;
                proof {
                    assert(e.cur_v(r.backing()) =~= sv.m.cur);
                    assert(e.hist() =~= old(e).hist() + sv.out);
                }
                Control::Eof
            }
            Some(ch) => {
                if ch == 9 || ch == 10 || ch == 32 {
                    r.consume_bytes(1);
                    self.state = TokenState::AfterDoctypeName(0);
                } else if ch == 62 {
                    e.emit_doctype(Ghost(r.backing()));
                    r.consume_bytes(1);
                    self.state = TokenState::Data;
                } else {
                    e.doctype_name_now(crate::reader::ascii_lower_pub(ch), Ghost(r.backing()));
                    r.consume_bytes(1);
                }
                proof {
                    assert(e.cur_v(r.backing()) =~= sv.m.cur);
                    assert(e.hist() =~= old(e).hist() + sv.out);
                }
                Control::Continue
            }
        }
    }

    /// One step of the `AfterDoctypeName` state, tracking the internal
    /// subset bracket depth.
    #[verifier::rlimit(100)]
    #[verifier::spinoff_prover]
    fn step_after_doctype_name<R: Reader>(
        &mut self,
        r: &mut R,
        e: &mut DefaultEmitter,
    ) -> (c: Control)
        requires
            step_pre(*old(self), *old(r), *old(e)),
            old(self).state is AfterDoctypeName,
        ensures
            step_effects(
                *old(self),
                *old(r),
                *old(e),
                *final(self),
                *final(r),
                *final(e),
                c,
                spec_after_doctype_name(
                    old(self).state->AfterDoctypeName_0,
                    old(r).input(),
                    old(r).pos(),
                    old(e).cur_v(old(r).backing()),
                ),
            ),
    {
        let ghost b0 = r.backing();
        let ghost d = self.state->AfterDoctypeName_0;
        let ghost sv = spec_after_doctype_name(d, r.input(), r.pos(), e.cur_v(b0));
        proof {
            r.wf_facts();
            assert(b0.subrange(0, b0.len() as int) =~= b0);
        }
        let depth = match self.state {
            TokenState::AfterDoctypeName(dd) => dd,
            _ => {
                proof {
                    assert(false);
                }
                0
            }
        };
        match r.peek_byte() {
            None => {
                e.emit_truncation(Xml5Error::EofInDoctype, Ghost(r.backing()));
                self.state = TokenState::Data;
                self.eof = true;
                proof {
                    assert(e.cur_v(r.backing()) =~= sv.m.cur);
                    assert(e.hist() =~= old(e).hist() + sv.out);
                }
                Control::Eof
            }
            Some(ch) => {
                if ch == 9 || ch == 10 || ch == 32 {
                    r.consume_bytes(1);
                    proof {
                        assert(e.cur_v(r.backing()) =~= sv.m.cur);
                        assert(e.hist() =~= old(e).hist() + sv.out);
                    }
                    Control::Continue
                } else if ch == 91 {
                    let d2 = if depth < usize::MAX {
                        depth + 1
                    } else {
                        depth
                    };
                    r.consume_bytes(1);
                    self.state = TokenState::AfterDoctypeName(d2);
                    proof {
                        assert(e.cur_v(r.backing()) =~= sv.m.cur);
                        assert(e.hist() =~= old(e).hist() + sv.out);
                    }
                    Control::Continue
                } else if ch == 93 {
                    r.consume_bytes(1);
                    if depth == 0 {
                        self.state = TokenState::BogusDoctype;
                    } else {
                        self.state = TokenState::AfterDoctypeName(depth - 1);
                    }
                    proof {
                        assert(e.cur_v(r.backing()) =~= sv.m.cur);
                        assert(e.hist() =~= old(e).hist() + sv.out);
                    }
                    Control::Continue
                } else if ch == 62 {
                    if depth == 0 {
                        e.emit_doctype(Ghost(r.backing()));
                        r.consume_bytes(1);
                        self.state = TokenState::Data;
                    } else {
                        r.consume_bytes(1);
                    }
                    proof {
                        assert(e.cur_v(r.backing()) =~= sv.m.cur);
                        assert(e.hist() =~= old(e).hist() + sv.out);
                    }
                    Control::Continue
                } else if depth > 0 {
                    r.consume_bytes(1);
                    proof {
                        assert(e.cur_v(r.backing()) =~= sv.m.cur);
                        assert(e.hist() =~= old(e).hist() + sv.out);
                    }
                    Control::Continue
                } else if ch == 80 || ch == 112 {
                    let kw: Vec<u8> = vec![80u8, 85u8, 66u8, 76u8, 73u8, 67u8];
                    proof {
                        assert(kw@ =~= kw_public());
                    }
                    if r.try_read_slice(kw.as_slice(), false) {
                        self.state = TokenState::AfterDoctypeKeyword(DoctypeKind::Public);
                        proof {
                            assert(e.cur_v(r.backing()) =~= sv.m.cur);
                            assert(e.hist() =~= old(e).hist() + sv.out);
                        }
                        Control::Continue
                    } else {
                        e.emit_error(
                            Xml5Error::InvalidCharactersInAfterDoctypeName,
                            Ghost(r.backing()),
                        );
                        r.consume_bytes(1);
                        self.state = TokenState::BogusDoctype;
                        proof {
                            assert(e.cur_v(r.backing()) =~= sv.m.cur);
                            assert(e.hist() =~= old(e).hist() + sv.out);
                        }
                        Control::Continue
                    }
                } else if ch == 83 || ch == 115 {
                    let kw: Vec<u8> = vec![83u8, 89u8, 83u8, 84u8, 69u8, 77u8];
                    proof {
                        assert(kw@ =~= kw_system());
                    }
                    if r.try_read_slice(kw.as_slice(), false) {
                        self.state = TokenState::AfterDoctypeKeyword(DoctypeKind::System);
                        proof {
                            assert(e.cur_v(r.backing()) =~= sv.m.cur);
                            assert(e.hist() =~= old(e).hist() + sv.out);
                        }
                        Control::Continue
                    } else {
                        e.emit_error(
                            Xml5Error::InvalidCharactersInAfterDoctypeName,
                            Ghost(r.backing()),
                        );
                        r.consume_bytes(1);
                        self.state = TokenState::BogusDoctype;
                        proof {
                            assert(e.cur_v(r.backing()) =~= sv.m.cur);
                            assert(e.hist() =~= old(e).hist() + sv.out);
                        }
                        Control::Continue
                    }
                } else {
                    e.emit_error(
                        Xml5Error::InvalidCharactersInAfterDoctypeName,
                        Ghost(r.backing()),
                    );
                    r.consume_bytes(1);
                    self.state = TokenState::BogusDoctype;
                    proof {
                        assert(e.cur_v(r.backing()) =~= sv.m.cur);
                        assert(e.hist() =~= old(e).hist() + sv.out);
                    }
                    Control::Continue
                }
            }
        }
    }

    /// One step of the `AfterDoctypeKeyword` state.
    #[verifier::rlimit(100)]
    #[verifier::spinoff_prover]
    fn step_after_doctype_keyword<R: Reader>(
        &mut self,
        r: &mut R,
        e: &mut DefaultEmitter,
    ) -> (c: Control)
        requires
            step_pre(*old(self), *old(r), *old(e)),
            old(self).state is AfterDoctypeKeyword,
        ensures
            step_effects(
                *old(self),
                *old(r),
                *old(e),
                *final(self),
                *final(r),
                *final(e),
                c,
                spec_after_doctype_keyword(
                    old(self).state->AfterDoctypeKeyword_0,
                    old(r).input(),
                    old(r).pos(),
                    old(e).cur_v(old(r).backing()),
                ),
            ),
    {
        let ghost b0 = r.backing();
        let ghost k = self.state->AfterDoctypeKeyword_0;
        let ghost sv = spec_after_doctype_keyword(k, r.input(), r.pos(), e.cur_v(b0));
        proof {
            r.wf_facts();
            assert(b0.subrange(0, b0.len() as int) =~= b0);
        }
        let kind = match self.state {
            TokenState::AfterDoctypeKeyword(kk) => kk,
            _ => {
                proof {
                    assert(false);
                }
                DoctypeKind::Public
            }
        };
        match r.peek_byte() {
            None => {
                e.emit_truncation(Xml5Error::EofInDoctype, Ghost(r.backing()));
                self.state = TokenState::Data;
                self.eof = true;
                proof {
                    assert(e.cur_v(r.backing()) =~= sv.m.cur);
                    assert(e.hist() =~= old(e).hist() + sv.out);
                }
                Control::Eof
            }
            Some(ch) => {
                if ch == 9 || ch == 10 || ch == 32 {
                    r.consume_bytes(1);
                    self.state = TokenState::BeforeDoctypeIdentifier(kind);
                } else if ch == 34 || ch == 39 {
                    e.emit_error(
                        Xml5Error::MissingWhitespaceAfterDoctypeKeyword,
                        Ghost(r.backing()),
                    );
                    self.state = TokenState::BeforeDoctypeIdentifier(kind);
                } else if ch == 62 {
                    e.emit_error(Xml5Error::MissingDoctypeIdentifier, Ghost(r.backing()));
                    e.emit_doctype(Ghost(r.backing()));
                    r.consume_bytes(1);
                    self.state = TokenState::Data;
                } else {
                    e.emit_error(Xml5Error::MissingQuoteBeforeIdentifier, Ghost(r.backing()));
                    self.state = TokenState::BogusDoctype;
                }
                proof {
                    assert(e.cur_v(r.backing()) =~= sv.m.cur);
                    assert(e.hist() =~= old(e).hist() + sv.out);
                }
                Control::Continue
            }
        }
    }

    /// One step of the `BeforeDoctypeIdentifier` state.
    #[verifier::rlimit(100)]
    #[verifier::spinoff_prover]
    fn step_before_doctype_identifier<R: Reader>(
        &mut self,
        r: &mut R,
        e: &mut DefaultEmitter,
    ) -> (c: Control)
        requires
            step_pre(*old(self), *old(r), *old(e)),
            old(self).state is BeforeDoctypeIdentifier,
        ensures
            step_effects(
                *old(self),
                *old(r),
                *old(e),
                *final(self),
                *final(r),
                *final(e),
                c,
                spec_before_doctype_identifier(
                    old(self).state->BeforeDoctypeIdentifier_0,
                    old(r).input(),
                    old(r).pos(),
                    old(e).cur_v(old(r).backing()),
                ),
            ),
    {
        let ghost b0 = r.backing();
        let ghost k = self.state->BeforeDoctypeIdentifier_0;
        let ghost sv = spec_before_doctype_identifier(k, r.input(), r.pos(), e.cur_v(b0));
        proof {
            r.wf_facts();
            assert(b0.subrange(0, b0.len() as int) =~= b0);
        }
        let kind = match self.state {
            TokenState::BeforeDoctypeIdentifier(kk) => kk,
            _ => {
                proof {
                    assert(false);
                }
                DoctypeKind::Public
            }
        };
        match r.peek_byte() {
            None => {
                e.emit_truncation(Xml5Error::EofInDoctype, Ghost(r.backing()));
                self.state = TokenState::Data;
                self.eof = true;
                proof {
                    assert(e.cur_v(r.backing()) =~= sv.m.cur);
                    assert(e.hist() =~= old(e).hist() + sv.out);
                }
                Control::Eof
            }
            Some(ch) => {
                if ch == 9 || ch == 10 || ch == 32 {
                    r.consume_bytes(1);
                } else if ch == 34 {
                    e.clear_doctype_id(kind, Ghost(r.backing()));
                    r.consume_bytes(1);
                    self.state = TokenState::DoctypeIdentifierDoubleQuoted(kind);
                } else if ch == 39 {
                    e.clear_doctype_id(kind, Ghost(r.backing()));
                    r.consume_bytes(1);
                    self.state = TokenState::DoctypeIdentifierSingleQuoted(kind);
                } else if ch == 62 {
                    e.emit_error(Xml5Error::MissingDoctypeIdentifier, Ghost(r.backing()));
                    e.emit_doctype(Ghost(r.backing()));
                    r.consume_bytes(1);
                    self.state = TokenState::Data;
                } else {
                    e.emit_error(Xml5Error::MissingQuoteBeforeIdentifier, Ghost(r.backing()));
                    self.state = TokenState::BogusDoctype;
                }
                proof {
                    assert(e.cur_v(r.backing()) =~= sv.m.cur);
                    assert(e.hist() =~= old(e).hist() + sv.out);
                }
                Control::Continue
            }
        }
    }

    /// One step of the double-quoted doctype identifier state.
    #[verifier::rlimit(100)]
    #[verifier::spinoff_prover]
    fn step_doctype_identifier_dq<R: Reader>(
        &mut self,
        r: &mut R,
        e: &mut DefaultEmitter,
    ) -> (c: Control)
        requires
            step_pre(*old(self), *old(r), *old(e)),
            old(self).state is DoctypeIdentifierDoubleQuoted,
        ensures
            step_effects(
                *old(self),
                *old(r),
                *old(e),
                *final(self),
                *final(r),
                *final(e),
                c,
                spec_doctype_identifier_quoted(
                    34u8,
                    old(self).state->DoctypeIdentifierDoubleQuoted_0,
                    old(r).input(),
                    old(r).pos(),
                    old(e).cur_v(old(r).backing()),
                ),
            ),
    {
        let ghost input = r.input();
        let ghost pos0 = r.pos();
        let ghost b0 = r.backing();
        let ghost k = self.state->DoctypeIdentifierDoubleQuoted_0;
        let ghost sv = spec_doctype_identifier_quoted(34u8, k, input, pos0, e.cur_v(b0));
        proof {
            r.wf_facts();
            assert(b0.subrange(0, b0.len() as int) =~= b0);
        }
        let kind = match self.state {
            TokenState::DoctypeIdentifierDoubleQuoted(kk) => kk,
            _ => {
                proof {
                    assert(false);
                }
                DoctypeKind::Public
            }
        };
        let needles: Vec<u8> = vec![34u8, 62u8];
        proof {
            assert(needles@ =~= seq![34u8, 62u8]);
        }
        let res = r.read_fast_until(needles.as_slice());
        proof {
            e.lemma_inv_backing_extend(b0, r.backing());
        }
        match res {
            FastRead::EOF => {
                proof {
                    lemma_first_needle_range(input, pos0, input.len() as int, seq![34u8, 62u8]);
                }
                let rest = r.read_to_end();
                proof {
                    e.lemma_inv_backing_extend(b0, r.backing());
                }
                match rest {
                    Some((s2, e2)) => {
                        e.doctype_id(s2, e2, Ghost(r.backing()));
                    }
                    None => {
                        proof {
                            assert(input.subrange(pos0, input.len() as int) =~= Seq::<u8>::empty());
                        }
                    }
                }
                e.emit_truncation(Xml5Error::EofInDoctype, Ghost(r.backing()));
                self.state = TokenState::Data;
                self.eof = true;
                proof {
                    assert(e.cur_v(r.backing()) =~= sv.m.cur);
                    assert(e.hist() =~= old(e).hist() + sv.out);
                }
                Control::Eof
            }
            FastRead::Char(ch) => {
                proof {
                    lemma_first_needle_range(input, pos0, pos0, seq![34u8, 62u8]);
                }
                proof {
                    assert(seq![34u8, 62u8].contains(ch));
                    assert(ch == 34 || ch == 62) by {
                        assert(seq![34u8, 62u8][0] == 34u8);
                        assert(seq![34u8, 62u8][1] == 62u8);
                    }
                }
                if ch == 34 {
                    self.state = TokenState::AfterDoctypeIdentifier(kind);
                    proof {
                        assert(e.cur_v(r.backing()) =~= sv.m.cur);
                        assert(e.hist() =~= old(e).hist() + sv.out);
                    }
                    Control::Continue
                } else {
                    e.emit_error(Xml5Error::AbruptEndDoctypeIdentifier, Ghost(r.backing()));
                    e.emit_doctype(Ghost(r.backing()));
                    self.state = TokenState::Data;
                    proof {
                        assert(e.cur_v(r.backing()) =~= sv.m.cur);
                        assert(e.hist() =~= old(e).hist() + sv.out);
                    }
                    Control::Continue
                }
            }
            FastRead::InterNeedle(s, en) => {
                e.doctype_id(s, en, Ghost(r.backing()));
                proof {
                    lemma_first_needle_range(input, pos0, r.pos(), seq![34u8, 62u8]);
                    assert(e.cur_v(r.backing()) =~= sv.m.cur);
                    assert(e.hist() =~= old(e).hist() + sv.out);
                }
                Control::Continue
            }
        }
    }

    /// One step of the single-quoted doctype identifier state.
    #[verifier::rlimit(100)]
    #[verifier::spinoff_prover]
    fn step_doctype_identifier_sq<R: Reader>(
        &mut self,
        r: &mut R,
        e: &mut DefaultEmitter,
    ) -> (c: Control)
        requires
            step_pre(*old(self), *old(r), *old(e)),
            old(self).state is DoctypeIdentifierSingleQuoted,
        ensures
            step_effects(
                *old(self),
                *old(r),
                *old(e),
                *final(self),
                *final(r),
                *final(e),
                c,
                spec_doctype_identifier_quoted(
                    39u8,
                    old(self).state->DoctypeIdentifierSingleQuoted_0,
                    old(r).input(),
                    old(r).pos(),
                    old(e).cur_v(old(r).backing()),
                ),
            ),
    {
        let ghost input = r.input();
        let ghost pos0 = r.pos();
        let ghost b0 = r.backing();
        let ghost k = self.state->DoctypeIdentifierSingleQuoted_0;
        let ghost sv = spec_doctype_identifier_quoted(39u8, k, input, pos0, e.cur_v(b0));
        proof {
            r.wf_facts();
            assert(b0.subrange(0, b0.len() as int) =~= b0);
        }
        let kind = match self.state {
            TokenState::DoctypeIdentifierSingleQuoted(kk) => kk,
            _ => {
                proof {
                    assert(false);
                }
                DoctypeKind::Public
            }
        };
        let needles: Vec<u8> = vec![39u8, 62u8];
        proof {
            assert(needles@ =~= seq![39u8, 62u8]);
        }
        let res = r.read_fast_until(needles.as_slice());
        proof {
            e.lemma_inv_backing_extend(b0, r.backing());
        }
        match res {
            FastRead::EOF => {
                proof {
                    lemma_first_needle_range(input, pos0, input.len() as int, seq![39u8, 62u8]);
                }
                let rest = r.read_to_end();
                proof {
                    e.lemma_inv_backing_extend(b0, r.backing());
                }
                match rest {
                    Some((s2, e2)) => {
                        e.doctype_id(s2, e2, Ghost(r.backing()));
                    }
                    None => {
                        proof {
                            assert(input.subrange(pos0, input.len() as int) =~= Seq::<u8>::empty());
                        }
                    }
                }
                e.emit_truncation(Xml5Error::EofInDoctype, Ghost(r.backing()));
                self.state = TokenState::Data;
                self.eof = true;
                proof {
                    assert(e.cur_v(r.backing()) =~= sv.m.cur);
                    assert(e.hist() =~= old(e).hist() + sv.out);
                }
                Control::Eof
            }
            FastRead::Char(ch) => {
                proof {
                    lemma_first_needle_range(input, pos0, pos0, seq![39u8, 62u8]);
                }
                proof {
                    assert(seq![39u8, 62u8].contains(ch));
                    assert(ch == 39 || ch == 62) by {
                        assert(seq![39u8, 62u8][0] == 39u8);
                        assert(seq![39u8, 62u8][1] == 62u8);
                    }
                }
                if ch == 39 {
                    self.state = TokenState::AfterDoctypeIdentifier(kind);
                    proof {
                        assert(e.cur_v(r.backing()) =~= sv.m.cur);
                        assert(e.hist() =~= old(e).hist() + sv.out);
                    }
                    Control::Continue
                } else {
                    e.emit_error(Xml5Error::AbruptEndDoctypeIdentifier, Ghost(r.backing()));
                    e.emit_doctype(Ghost(r.backing()));
                    self.state = TokenState::Data;
                    proof {
                        assert(e.cur_v(r.backing()) =~= sv.m.cur);
                        assert(e.hist() =~= old(e).hist() + sv.out);
                    }
                    Control::Continue
                }
            }
            FastRead::InterNeedle(s, en) => {
                e.doctype_id(s, en, Ghost(r.backing()));
                proof {
                    lemma_first_needle_range(input, pos0, r.pos(), seq![39u8, 62u8]);
                    assert(e.cur_v(r.backing()) =~= sv.m.cur);
                    assert(e.hist() =~= old(e).hist() + sv.out);
                }
                Control::Continue
            }
        }
    }

    /// One step of the `AfterDoctypeIdentifier` state.
    #[verifier::rlimit(100)]
    #[verifier::spinoff_prover]
    fn step_after_doctype_identifier<R: Reader>(
        &mut self,
        r: &mut R,
        e: &mut DefaultEmitter,
    ) -> (c: Control)
        requires
            step_pre(*old(self), *old(r), *old(e)),
            old(self).state is AfterDoctypeIdentifier,
        ensures
            step_effects(
                *old(self),
                *old(r),
                *old(e),
                *final(self),
                *final(r),
                *final(e),
                c,
                spec_after_doctype_identifier(
                    old(self).state->AfterDoctypeIdentifier_0,
                    old(r).input(),
                    old(r).pos(),
                    old(e).cur_v(old(r).backing()),
                ),
            ),
    {
        let ghost b0 = r.backing();
        let ghost k = self.state->AfterDoctypeIdentifier_0;
        let ghost sv = spec_after_doctype_identifier(k, r.input(), r.pos(), e.cur_v(b0));
        proof {
            r.wf_facts();
            assert(b0.subrange(0, b0.len() as int) =~= b0);
        }
        let kind = match self.state {
            TokenState::AfterDoctypeIdentifier(kk) => kk,
            _ => {
                proof {
                    assert(false);
                }
                DoctypeKind::Public
            }
        };
        match r.peek_byte() {
            None => {
                e.emit_truncation(Xml5Error::EofInDoctype, Ghost(r.backing()));
                self.state = TokenState::Data;
                self.eof = true;
                proof {
                    assert(e.cur_v(r.backing()) =~= sv.m.cur);
                    assert(e.hist() =~= old(e).hist() + sv.out);
                }
                Control::Eof
            }
            Some(ch) => {
                if ch == 62 {
                    e.emit_doctype(Ghost(r.backing()));
                    r.consume_bytes(1);
                    self.state = TokenState::Data;
                } else if ch == 9 || ch == 10 || ch == 32 {
                    r.consume_bytes(1);
                    match kind {
                        DoctypeKind::Public => {
                            self.state = TokenState::BetweenDoctypePublicAndSystemIdentifiers;
                        }
                        DoctypeKind::System => {}
                    }
                } else if (ch == 34 || ch == 39) && matches!(kind, DoctypeKind::Public) {
                    e.emit_error(
                        Xml5Error::MissingWhitespaceBetweenDoctypePublicAndSystem,
                        Ghost(r.backing()),
                    );
                    self.state = TokenState::BeforeDoctypeIdentifier(DoctypeKind::System);
                } else {
                    e.emit_error(Xml5Error::MissingQuoteBeforeIdentifier, Ghost(r.backing()));
                    self.state = TokenState::BogusDoctype;
                }
                proof {
                    assert(e.cur_v(r.backing()) =~= sv.m.cur);
                    assert(e.hist() =~= old(e).hist() + sv.out);
                }
                Control::Continue
            }
        }
    }

    /// One step of the state between the PUBLIC and SYSTEM identifiers.
    #[verifier::rlimit(100)]
    #[verifier::spinoff_prover]
    fn step_between_doctype_ids<R: Reader>(
        &mut self,
        r: &mut R,
        e: &mut DefaultEmitter,
    ) -> (c: Control)
        requires
            step_pre(*old(self), *old(r), *old(e)),
            old(self).state is BetweenDoctypePublicAndSystemIdentifiers,
        ensures
            step_effects(
                *old(self),
                *old(r),
                *old(e),
                *final(self),
                *final(r),
                *final(e),
                c,
                spec_between_doctype_ids(
                    old(r).input(),
                    old(r).pos(),
                    old(e).cur_v(old(r).backing()),
                ),
            ),
    {
        let ghost b0 = r.backing();
        let ghost sv = spec_between_doctype_ids(r.input(), r.pos(), e.cur_v(b0));
        proof {
            r.wf_facts();
            assert(b0.subrange(0, b0.len() as int) =~= b0);
        }
        match r.peek_byte() {
            None => {
                e.emit_truncation(Xml5Error::EofInDoctype, Ghost(r.backing()));
                self.state = TokenState::Data;
                self.eof = true;
                proof {
                    assert(e.cur_v(r.backing()) =~= sv.m.cur);
                    assert(e.hist() =~= old(e).hist() + sv.out);
                }
                Control::Eof
            }
            Some(ch) => {
                if ch == 9 || ch == 10 || ch == 32 {
                    r.consume_bytes(1);
                } else if ch == 62 {
                    e.emit_doctype(Ghost(r.backing()));
                    r.consume_bytes(1);
                    self.state = TokenState::Data;
                } else if ch == 34 {
                    e.clear_doctype_id(DoctypeKind::System, Ghost(r.backing()));
                    r.consume_bytes(1);
                    self.state = TokenState::DoctypeIdentifierDoubleQuoted(DoctypeKind::System);
                } else if ch == 39 {
                    e.clear_doctype_id(DoctypeKind::System, Ghost(r.backing()));
                    r.consume_bytes(1);
                    self.state = TokenState::DoctypeIdentifierSingleQuoted(DoctypeKind::System);
                } else {
                    e.emit_error(Xml5Error::MissingQuoteBeforeIdentifier, Ghost(r.backing()));
                    self.state = TokenState::BogusDoctype;
                }
                proof {
                    assert(e.cur_v(r.backing()) =~= sv.m.cur);
                    assert(e.hist() =~= old(e).hist() + sv.out);
                }
                Control::Continue
            }
        }
    }

    /// One step of the `BogusDoctype` state: run to `>`.
    #[verifier::rlimit(100)]
    #[verifier::spinoff_prover]
    fn step_bogus_doctype<R: Reader>(&mut self, r: &mut R, e: &mut DefaultEmitter) -> (c: Control)
        requires
            step_pre(*old(self), *old(r), *old(e)),
            old(self).state is BogusDoctype,
        ensures
            step_effects(
                *old(self),
                *old(r),
                *old(e),
                *final(self),
                *final(r),
                *final(e),
                c,
                spec_bogus_doctype(old(r).input(), old(r).pos(), old(e).cur_v(old(r).backing())),
            ),
    {
        let ghost input = r.input();
        let ghost pos0 = r.pos();
        let ghost b0 = r.backing();
        let ghost sv = spec_bogus_doctype(input, pos0, e.cur_v(b0));
        proof {
            r.wf_facts();
            assert(b0.subrange(0, b0.len() as int) =~= b0);
        }
        let needles: Vec<u8> = vec![62u8];
        proof {
            assert(needles@ =~= seq![62u8]);
        }
        let res = r.read_fast_until(needles.as_slice());
        proof {
            e.lemma_inv_backing_extend(b0, r.backing());
        }
        match res {
            FastRead::EOF => {
                proof {
                    lemma_first_needle_range(input, pos0, input.len() as int, seq![62u8]);
                }
                e.emit_doctype(Ghost(r.backing()));
                e.emit_eof(Ghost(r.backing()));
                self.state = TokenState::Data;
                self.eof = true;
                proof {
                    assert(e.cur_v(r.backing()) =~= sv.m.cur);
                    assert(e.hist() =~= old(e).hist() + sv.out);
                }
                Control::Eof
            }
            FastRead::Char(ch) => {
                proof {
                    lemma_first_needle_range(input, pos0, pos0, seq![62u8]);
                }
                proof {
                    assert(seq![62u8].contains(ch));
                    assert(ch == 62) by {
                        assert(seq![62u8][0] == 62u8);
                    }
                }
                e.emit_doctype(Ghost(r.backing()));
                self.state = TokenState::Data;
                proof {
                    assert(e.cur_v(r.backing()) =~= sv.m.cur);
                    assert(e.hist() =~= old(e).hist() + sv.out);
                }
                Control::Continue
            }
            FastRead::InterNeedle(s, en) => {
                proof {
                    lemma_first_needle_range(input, pos0, r.pos(), seq![62u8]);
                    assert(e.cur_v(r.backing()) =~= sv.m.cur);
                    assert(e.hist() =~= old(e).hist() + sv.out);
                }
                Control::Continue
            }
        }
    }

    /// Drive the machine one step. The new configuration and the emitted
    /// tokens are exactly those of `step_spec` on the input bytes, whatever
    /// reader supplies them.
    pub fn next_state<R: Reader>(&mut self, r: &mut R, e: &mut DefaultEmitter) -> (c: Control)
        requires
            step_pre(*old(self), *old(r), *old(e)),
        ensures
            handler_post(*old(self), *old(r), *old(e), *final(self), *final(r), *final(e), c),
    {
        match self.state {
            TokenState::Data => self.step_data(r, e),
            TokenState::CharRefInData(_) => self.step_char_ref(r, e),
            TokenState::TagOpen => self.step_tag_open(r, e),
            TokenState::EndTagOpen => self.step_end_tag_open(r, e),
            TokenState::EndTagName => self.step_end_tag_name(r, e),
            TokenState::EndTagNameAfter => self.step_end_tag_name_after(r, e),
            TokenState::TagName => self.step_tag_name(r, e),
            TokenState::EmptyTag => self.step_empty_tag(r, e),
            TokenState::TagAttrNameBefore => self.step_attr_name_before(r, e),
            TokenState::TagAttrName => self.step_attr_name(r, e),
            TokenState::TagAttrValueBefore => self.step_attr_value_before(r, e),
            TokenState::TagAttrValue(_) => self.step_attr_value(r, e),
            TokenState::Pi => self.step_pi(r, e),
            TokenState::PiTarget => self.step_pi_target(r, e),
            TokenState::PiTargetAfter => self.step_pi_target_after(r, e),
            TokenState::PiData => self.step_pi_data(r, e),
            TokenState::PiAfter => self.step_pi_after(r, e),
            TokenState::XmlDecl => self.step_xml_decl(r, e),
            TokenState::XmlDeclAttrName => self.step_xml_decl_attr_name(r, e),
            TokenState::XmlDeclAttrNameAfter => self.step_xml_decl_attr_name_after(r, e),
            TokenState::XmlDeclAttrValueBefore => self.step_xml_decl_attr_value_before(r, e),
            TokenState::XmlDeclAttrValue(_) => self.step_xml_decl_attr_value(r, e),
            TokenState::XmlDeclAfter => self.step_xml_decl_after(r, e),
            TokenState::MarkupDecl => self.step_markup_decl(r, e),
            TokenState::CommentStart => self.step_comment_start(r, e),
            TokenState::CommentStartDash => self.step_comment_start_dash(r, e),
            TokenState::Comment => self.step_comment(r, e),
            TokenState::CommentLessThan => self.step_comment_less_than(r, e),
            TokenState::CommentLessThanBang => self.step_comment_less_than_bang(r, e),
            TokenState::CommentLessThanBangDash => self.step_comment_less_than_bang_dash(r, e),
            TokenState::CommentLessThanBangDashDash => self.step_comment_less_than_bang_dash_dash(
                r,
                e,
            ),
            TokenState::CommentEnd => self.step_comment_end(r, e),
            TokenState::CommentEndDash => self.step_comment_end_dash(r, e),
            TokenState::CommentEndBang => self.step_comment_end_bang(r, e),
            TokenState::Cdata => self.step_cdata(r, e),
            TokenState::CdataBracket => self.step_cdata_bracket(r, e),
            TokenState::CdataEnd => self.step_cdata_end(r, e),
            TokenState::BogusComment => self.step_bogus_comment(r, e),
            TokenState::Doctype => self.step_doctype(r, e),
            TokenState::BeforeDoctypeName => self.step_before_doctype_name(r, e),
            TokenState::DoctypeName => self.step_doctype_name(r, e),
            TokenState::AfterDoctypeName(_) => self.step_after_doctype_name(r, e),
            TokenState::AfterDoctypeKeyword(_) => self.step_after_doctype_keyword(r, e),
            TokenState::BeforeDoctypeIdentifier(_) => self.step_before_doctype_identifier(r, e),
            TokenState::DoctypeIdentifierDoubleQuoted(_) => self.step_doctype_identifier_dq(r, e),
            TokenState::DoctypeIdentifierSingleQuoted(_) => self.step_doctype_identifier_sq(r, e),
            TokenState::AfterDoctypeIdentifier(_) => self.step_after_doctype_identifier(r, e),
            TokenState::BetweenDoctypePublicAndSystemIdentifiers => self.step_between_doctype_ids(
                r,
                e,
            ),
            TokenState::BogusDoctype => self.step_bogus_doctype(r, e),
        }
    }
}

} // verus!
