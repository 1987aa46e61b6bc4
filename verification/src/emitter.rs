//! The emitter: accumulates the in-flight token as mix spans and queues
//! finished tokens in an output FIFO.
//!
//! Pending text is flushed as one `Text` token immediately before any other
//! token is queued, so no two consecutive `Text` tokens ever appear and every
//! queued `Text` token is non-empty. `Eof` is queued at most once and closes
//! the stream. A truncation (end of input inside a construct) is queued
//! atomically as the error, the partial token, and `Eof`.

use vstd::prelude::*;

use crate::errors::is_truncation_error;
use crate::errors::Xml5Error;
use crate::model::empty_inflight;
use crate::model::flush_out;
use crate::model::is_construct_token;
use crate::model::lemma_stream_push;
use crate::model::lemma_stream_push_eof;
use crate::model::lemma_stream_push_truncation;
use crate::model::partial_v;
use crate::model::stream_open;
use crate::model::stream_wf;
use crate::model::CurrentToken;
use crate::model::DoctypeKind;
use crate::model::InflightV;
use crate::model::TokenV;
use crate::model::XmlDeclAttr;
use crate::spans::lemma_spans_bytes_prefix;
use crate::spans::lemma_spans_nonempty;
use crate::spans::mix_bytes;
use crate::spans::mix_wf;
use crate::spans::spans_data_bytes;
use crate::spans::spans_data_nonempty;
use crate::spans::spans_data_wf;
use crate::spans::Mix;
use crate::spans::Spans;

verus! {

/// A finished token still carrying its payload as spans, before
/// materialization against the reader's backing bytes.
pub enum SpanTokens {
    Text(Spans),
    CData(Spans),
    Decl(Spans),
    Comment(Spans),
    /// An end tag; `None` is the short end tag `</>`.
    EndTag(Option<Spans>),
    PiData { target: Spans, data: Spans },
    StartTag { self_close: bool, name: Spans, attrs: Vec<(Spans, Spans)> },
    DocType { name: Spans, public_id: Option<Spans>, system_id: Option<Spans> },
    Error(Xml5Error),
    Eof,
}

pub open spec fn attrs_bytes(b: Seq<u8>, attrs: Seq<(Spans, Spans)>) -> Seq<(Seq<u8>, Seq<u8>)> {
    attrs.map_values(
        |p: (Spans, Spans)| (spans_data_bytes(b, p.0.data@), spans_data_bytes(b, p.1.data@)),
    )
}

pub open spec fn attrs_wf(attrs: Seq<(Spans, Spans)>, blen: int) -> bool {
    forall|i: int|
        0 <= i < attrs.len() ==> (#[trigger] attrs[i]).0.wf(blen) && attrs[i].1.wf(blen)
}

pub open spec fn opt_spans_bytes(b: Seq<u8>, o: Option<Spans>) -> Option<Seq<u8>> {
    match o {
        Some(s) => Some(s.bytes(b)),
        None => None,
    }
}

pub open spec fn opt_spans_wf(o: Option<Spans>, blen: int) -> bool {
    match o {
        Some(s) => s.wf(blen),
        None => true,
    }
}

/// The materialized view of a queued token, given the backing bytes.
pub open spec fn span_token_v(b: Seq<u8>, t: SpanTokens) -> TokenV {
    match t {
        SpanTokens::Text(s) => TokenV::Text(s.bytes(b)),
        SpanTokens::CData(s) => TokenV::CData(s.bytes(b)),
        SpanTokens::Decl(s) => TokenV::Decl(s.bytes(b)),
        SpanTokens::Comment(s) => TokenV::Comment(s.bytes(b)),
        SpanTokens::EndTag(Some(s)) => TokenV::EndTag(s.bytes(b)),
        SpanTokens::EndTag(None) => TokenV::EndTag(Seq::empty()),
        SpanTokens::PiData { target, data } => TokenV::Pi {
            target: target.bytes(b),
            data: data.bytes(b),
        },
        SpanTokens::StartTag { self_close, name, attrs } => TokenV::StartTag {
            name: name.bytes(b),
            attrs: attrs_bytes(b, attrs@),
            self_closing: self_close,
        },
        SpanTokens::DocType { name, public_id, system_id } => TokenV::DocType {
            name: name.bytes(b),
            public_id: opt_spans_bytes(b, public_id),
            system_id: opt_spans_bytes(b, system_id),
        },
        SpanTokens::Error(e) => TokenV::Error(e),
        SpanTokens::Eof => TokenV::Eof,
    }
}

/// All span ranges of a queued token lie inside a backing of length `blen`.
pub open spec fn st_wf(t: SpanTokens, blen: int) -> bool {
    match t {
        SpanTokens::Text(s) => s.wf(blen),
        SpanTokens::CData(s) => s.wf(blen),
        SpanTokens::Decl(s) => s.wf(blen),
        SpanTokens::Comment(s) => s.wf(blen),
        SpanTokens::EndTag(Some(s)) => s.wf(blen),
        SpanTokens::EndTag(None) => true,
        SpanTokens::PiData { target, data } => target.wf(blen) && data.wf(blen),
        SpanTokens::StartTag { self_close, name, attrs } => name.wf(blen) && attrs_wf(
            attrs@,
            blen,
        ),
        SpanTokens::DocType { name, public_id, system_id } => name.wf(blen) && opt_spans_wf(
            public_id,
            blen,
        ) && opt_spans_wf(system_id, blen),
        SpanTokens::Error(_) => true,
        SpanTokens::Eof => true,
    }
}

/// The default emitter: one in-flight token slot plus an output FIFO.
pub struct DefaultEmitter {
    pub tokens: Vec<SpanTokens>,
    pub current_token_type: CurrentToken,
    /// Primary material of the construct: tag name, PI data, comment body,
    /// CDATA body, declaration body, doctype name.
    pub primary: Spans,
    /// Secondary material: the PI target.
    pub secondary: Spans,
    pub attrs: Vec<(Spans, Spans)>,
    /// Materialized names of the attributes already on the current tag,
    /// for duplicate detection.
    pub seen_names: Vec<Vec<u8>>,
    pub attr_name: Spans,
    pub attr_value: Spans,
    pub attr_open: bool,
    pub self_closing: bool,
    pub public_id: Option<Spans>,
    pub system_id: Option<Spans>,
    pub id_kind: DoctypeKind,
    /// Pending text, flushed before any other token is queued.
    pub text: Spans,
    pub eof_done: bool,
    /// All tokens ever queued, materialized at the moment of queuing.
    pub history: Ghost<Seq<TokenV>>,
    /// The prefix of the history already handed out by `pop_token`.
    pub popped: Ghost<Seq<TokenV>>,
}

impl DefaultEmitter {
    /// The materialized view of the output FIFO.
    pub open spec fn queue_v(&self, b: Seq<u8>) -> Seq<TokenV> {
        self.tokens@.map_values(|t: SpanTokens| span_token_v(b, t))
    }

    /// Every token ever queued, in order: the popped prefix plus the FIFO.
    pub open spec fn hist(&self) -> Seq<TokenV> {
        self.history@
    }

    pub open spec fn popped_v(&self) -> Seq<TokenV> {
        self.popped@
    }

    /// The materialized view of the in-flight token.
    pub open spec fn cur_v(&self, b: Seq<u8>) -> InflightV {
        InflightV {
            kind: self.current_token_type,
            name: self.primary.bytes(b),
            target: self.secondary.bytes(b),
            attrs: attrs_bytes(b, self.attrs@),
            attr_name: self.attr_name.bytes(b),
            attr_value: self.attr_value.bytes(b),
            attr_open: self.attr_open,
            self_closing: self.self_closing,
            public_id: opt_spans_bytes(b, self.public_id),
            system_id: opt_spans_bytes(b, self.system_id),
            id_kind: self.id_kind,
            text: self.text.bytes(b),
        }
    }

    /// The emitter invariant, for backing bytes `b`:
    /// - all held span ranges lie inside the backing;
    /// - pending text and primary material consist of non-empty pieces;
    /// - the history equals the popped prefix plus the FIFO;
    /// - the history is a well-formed stream and never ends in pending text;
    /// - `eof_done` holds exactly when the history ends in `Eof`;
    /// - the duplicate-detection names mirror the current attribute names.
    pub open spec fn inv(&self, b: Seq<u8>) -> bool {
        let blen = b.len() as int;
        &&& self.primary.wf(blen)
        &&& self.secondary.wf(blen)
        &&& self.attr_name.wf(blen)
        &&& self.attr_value.wf(blen)
        &&& self.text.wf(blen)
        &&& spans_data_nonempty(b, self.text.data@)
        &&& spans_data_nonempty(b, self.primary.data@)
        &&& attrs_wf(self.attrs@, blen)
        &&& opt_spans_wf(self.public_id, blen)
        &&& opt_spans_wf(self.system_id, blen)
        &&& (forall|i: int| 0 <= i < self.tokens@.len() ==> st_wf(#[trigger] self.tokens@[i], blen))
        &&& self.history@ == self.popped@ + self.queue_v(b)
        &&& stream_wf(self.history@)
        &&& (self.history@.len() > 0 ==> !(self.history@.last() is Text))
        &&& (self.eof_done <==> (self.history@.len() > 0 && self.history@.last() is Eof))
        &&& self.seen_names@.len() == self.attrs@.len()
        &&& (forall|i: int|
            0 <= i < self.attrs@.len() ==> (#[trigger] self.seen_names@[i])@ == spans_data_bytes(
                b,
                self.attrs@[i].0.data@,
            ))
        &&& (!self.attr_open ==> self.attr_name.data@.len() == 0 && self.attr_value.data@.len()
            == 0)
    }

    /// A fresh emitter: empty FIFO, nothing in flight.
    pub fn new() -> (r: DefaultEmitter)
        ensures
            forall|b: Seq<u8>| #[trigger] r.inv(b),
            forall|b: Seq<u8>| #[trigger] r.cur_v(b) == empty_inflight(),
            r.hist() == Seq::<TokenV>::empty(),
            r.popped_v() == Seq::<TokenV>::empty(),
            r.eof_done == false,
    {
        let e = DefaultEmitter {
            tokens: Vec::new(),
            current_token_type: CurrentToken::NoToken,
            primary: Spans::new(),
            secondary: Spans::new(),
            attrs: Vec::new(),
            seen_names: Vec::new(),
            attr_name: Spans::new(),
            attr_value: Spans::new(),
            attr_open: false,
            self_closing: false,
            public_id: None,
            system_id: None,
            id_kind: DoctypeKind::Public,
            text: Spans::new(),
            eof_done: false,
            history: Ghost(Seq::empty()),
            popped: Ghost(Seq::empty()),
        };
        proof {
            assert forall|b: Seq<u8>| #[trigger] e.inv(b) by {
                assert(e.queue_v(b) =~= Seq::<TokenV>::empty());
                assert(e.history@ =~= e.popped@ + e.queue_v(b));
            }
            assert forall|b: Seq<u8>| #[trigger] e.cur_v(b) == empty_inflight() by {
                assert(attrs_bytes(b, e.attrs@) =~= Seq::<(Seq<u8>, Seq<u8>)>::empty());
            }
        }
        e
    }

    /// Pop the oldest queued token, if any.
    pub fn pop_token(&mut self, Ghost(b): Ghost<Seq<u8>>) -> (r: Option<SpanTokens>)
        requires
            old(self).inv(b),
        ensures
            final(self).inv(b),
            final(self).hist() == old(self).hist(),
            final(self).eof_done == old(self).eof_done,
            final(self).cur_v(b) == old(self).cur_v(b),
            match r {
                Some(t) => {
                    &&& st_wf(t, b.len() as int)
                    &&& old(self).queue_v(b).len() > 0
                    &&& span_token_v(b, t) == old(self).queue_v(b)[0]
                    &&& final(self).popped_v() == old(self).popped_v().push(span_token_v(b, t))
                    &&& final(self).queue_v(b) == old(self).queue_v(b).subrange(
                        1,
                        old(self).queue_v(b).len() as int,
                    )
                },
                None => {
                    &&& old(self).queue_v(b).len() == 0
                    &&& final(self).popped_v() == old(self).popped_v()
                    &&& final(self).queue_v(b) == old(self).queue_v(b)
                },
            },
    {
        if self.tokens.len() == 0 {
            None
        } else {
            let t = self.tokens.remove(0);
            proof {
                self.popped@ = self.popped@.push(span_token_v(b, t));
                assert(self.queue_v(b) =~= old(self).queue_v(b).subrange(
                    1,
                    old(self).queue_v(b).len() as int,
                ));
                assert(self.history@ =~= self.popped@ + self.queue_v(b));
            }
            Some(t)
        }
    }

    /// Flush pending text, then queue one ordinary token (not text, not
    /// `Eof`, not a truncation error).
    fn push_tok(&mut self, t: SpanTokens, Ghost(b): Ghost<Seq<u8>>)
        requires
            old(self).inv(b),
            st_wf(t, b.len() as int),
            !old(self).eof_done,
            !(span_token_v(b, t) is Text),
            !(span_token_v(b, t) is Eof),
            (span_token_v(b, t) is Error) ==> !is_truncation_error(span_token_v(b, t)->Error_0),
        ensures
            final(self).inv(b),
            final(self).hist() == old(self).hist() + flush_out(old(self).cur_v(b).text) + seq![
                span_token_v(b, t),
            ],
            final(self).popped_v() == old(self).popped_v(),
            final(self).cur_v(b) == (InflightV { text: Seq::empty(), ..old(self).cur_v(b) }),
            final(self).eof_done == false,
    {
        proof {
            lemma_stream_push(self.history@, self.cur_v(b).text, span_token_v(b, t));
        }
        if self.text.data.len() > 0 {
            let mut txt = Spans::new();
            core::mem::swap(&mut txt, &mut self.text);
            proof {
                lemma_spans_nonempty(b, txt.data@);
                self.history@ = self.history@ + seq![TokenV::Text(txt.bytes(b))];
            }
            self.tokens.push(SpanTokens::Text(txt));
        }
        proof {
            self.history@ = self.history@ + seq![span_token_v(b, t)];
        }
        self.tokens.push(t);
        proof {
            if old(self).text.data@.len() > 0 {
                assert(self.tokens@ =~= old(self).tokens@ + seq![
                    SpanTokens::Text(old(self).text),
                    t,
                ]);
                assert(self.queue_v(b) =~= old(self).queue_v(b) + seq![
                    TokenV::Text(old(self).text.bytes(b)),
                    span_token_v(b, t),
                ]);
                assert(flush_out(old(self).cur_v(b).text) =~= seq![
                    TokenV::Text(old(self).text.bytes(b)),
                ]) by {
                    lemma_spans_nonempty(b, old(self).text.data@);
                }
            } else {
                assert(old(self).text.data@ =~= Seq::<Mix>::empty());
                assert(old(self).cur_v(b).text.len() == 0);
                assert(flush_out(old(self).cur_v(b).text) =~= Seq::<TokenV>::empty());
                assert(self.tokens@ =~= old(self).tokens@ + seq![t]);
                assert(self.queue_v(b) =~= old(self).queue_v(b) + seq![span_token_v(b, t)]);
            }
            assert(self.history@ =~= old(self).hist() + flush_out(old(self).cur_v(b).text) + seq![
                span_token_v(b, t),
            ]);
            assert(self.history@ =~= self.popped@ + self.queue_v(b));
            assert(self.text.data@.len() == 0);
            assert(self.cur_v(b) == InflightV { text: Seq::empty(), ..old(self).cur_v(b) }) by {
                assert(self.text.bytes(b) =~= Seq::<u8>::empty());
            }
        }
    }

    /// Begin a start tag.
    pub fn create_tag(&mut self, Ghost(b): Ghost<Seq<u8>>)
        requires
            old(self).inv(b),
        ensures
            final(self).inv(b),
            final(self).cur_v(b) == (InflightV {
                kind: CurrentToken::StartTag,
                ..old(self).cur_v(b)
            }),
            final(self).hist() == old(self).hist(),
            final(self).popped_v() == old(self).popped_v(),
            final(self).eof_done == old(self).eof_done,
    {
        self.current_token_type = CurrentToken::StartTag;
    }

    /// Begin an end tag.
    pub fn create_end_tag(&mut self, Ghost(b): Ghost<Seq<u8>>)
        requires
            old(self).inv(b),
        ensures
            final(self).inv(b),
            final(self).cur_v(b) == (InflightV {
                kind: CurrentToken::EndTag,
                ..old(self).cur_v(b)
            }),
            final(self).hist() == old(self).hist(),
            final(self).popped_v() == old(self).popped_v(),
            final(self).eof_done == old(self).eof_done,
    {
        self.current_token_type = CurrentToken::EndTag;
    }

    /// Begin a processing instruction.
    pub fn create_pi_tag(&mut self, Ghost(b): Ghost<Seq<u8>>)
        requires
            old(self).inv(b),
        ensures
            final(self).inv(b),
            final(self).cur_v(b) == (InflightV {
                kind: CurrentToken::ProcessingInstruction,
                ..old(self).cur_v(b)
            }),
            final(self).hist() == old(self).hist(),
            final(self).popped_v() == old(self).popped_v(),
            final(self).eof_done == old(self).eof_done,
    {
        self.current_token_type = CurrentToken::ProcessingInstruction;
    }

    /// Begin a doctype.
    pub fn create_doctype(&mut self, Ghost(b): Ghost<Seq<u8>>)
        requires
            old(self).inv(b),
        ensures
            final(self).inv(b),
            final(self).cur_v(b) == (InflightV {
                kind: CurrentToken::Doctype,
                ..old(self).cur_v(b)
            }),
            final(self).hist() == old(self).hist(),
            final(self).popped_v() == old(self).popped_v(),
            final(self).eof_done == old(self).eof_done,
    {
        self.current_token_type = CurrentToken::Doctype;
    }

    /// Begin a comment.
    pub fn create_comment_token(&mut self, Ghost(b): Ghost<Seq<u8>>)
        requires
            old(self).inv(b),
        ensures
            final(self).inv(b),
            final(self).cur_v(b) == (InflightV {
                kind: CurrentToken::Comment,
                ..old(self).cur_v(b)
            }),
            final(self).hist() == old(self).hist(),
            final(self).popped_v() == old(self).popped_v(),
            final(self).eof_done == old(self).eof_done,
    {
        self.current_token_type = CurrentToken::Comment;
    }

    /// Begin a CDATA section.
    pub fn create_cdata_token(&mut self, Ghost(b): Ghost<Seq<u8>>)
        requires
            old(self).inv(b),
        ensures
            final(self).inv(b),
            final(self).cur_v(b) == (InflightV {
                kind: CurrentToken::CData,
                ..old(self).cur_v(b)
            }),
            final(self).hist() == old(self).hist(),
            final(self).popped_v() == old(self).popped_v(),
            final(self).eof_done == old(self).eof_done,
    {
        self.current_token_type = CurrentToken::CData;
    }

    /// Begin an XML declaration.
    pub fn create_decl(&mut self, Ghost(b): Ghost<Seq<u8>>)
        requires
            old(self).inv(b),
        ensures
            final(self).inv(b),
            final(self).cur_v(b) == (InflightV { kind: CurrentToken::Decl, ..old(self).cur_v(b) }),
            final(self).hist() == old(self).hist(),
            final(self).popped_v() == old(self).popped_v(),
            final(self).eof_done == old(self).eof_done,
    {
        self.current_token_type = CurrentToken::Decl;
    }

    /// Mark the current tag self-closing.
    pub fn set_empty_tag(&mut self, Ghost(b): Ghost<Seq<u8>>)
        requires
            old(self).inv(b),
        ensures
            final(self).inv(b),
            final(self).cur_v(b) == (InflightV { self_closing: true, ..old(self).cur_v(b) }),
            final(self).hist() == old(self).hist(),
            final(self).popped_v() == old(self).popped_v(),
            final(self).eof_done == old(self).eof_done,
    {
        self.self_closing = true;
    }

    /// Append the backing range `[start, end)` to the primary material of
    /// the in-flight token (tag name, PI data, comment, CDATA, declaration
    /// body, doctype name).
    pub fn append_primary(&mut self, start: usize, end: usize, Ghost(b): Ghost<Seq<u8>>)
        requires
            old(self).inv(b),
            start < end,
            end <= b.len(),
        ensures
            final(self).inv(b),
            final(self).cur_v(b) == (InflightV {
                name: old(self).cur_v(b).name + b.subrange(start as int, end as int),
                ..old(self).cur_v(b)
            }),
            final(self).hist() == old(self).hist(),
            final(self).popped_v() == old(self).popped_v(),
            final(self).eof_done == old(self).eof_done,
    {
        proof {
            crate::spans::lemma_merge_span_bytes(b, self.primary.data@, start, end);
            crate::spans::lemma_merge_span_nonempty(b, self.primary.data@, start, end);
        }
        self.primary.add_span(start, end);
    }

    /// Append owned bytes to the primary material of the in-flight token.
    pub fn append_primary_owned(&mut self, bytes: Vec<u8>, Ghost(b): Ghost<Seq<u8>>)
        requires
            old(self).inv(b),
            bytes@.len() > 0,
        ensures
            final(self).inv(b),
            final(self).cur_v(b) == (InflightV {
                name: old(self).cur_v(b).name + bytes@,
                ..old(self).cur_v(b)
            }),
            final(self).hist() == old(self).hist(),
            final(self).popped_v() == old(self).popped_v(),
            final(self).eof_done == old(self).eof_done,
    {
        proof {
            crate::spans::lemma_spans_push(b, self.primary.data@, Mix::Owned(bytes));
            assert forall|i: int| 0 <= i < self.primary.data@.push(Mix::Owned(bytes)).len()
                implies mix_bytes(b, #[trigger] self.primary.data@.push(Mix::Owned(bytes))[i]).len()
                > 0 by {
                if i < self.primary.data@.len() {
                    assert(self.primary.data@.push(Mix::Owned(bytes))[i] == self.primary.data@[i]);
                }
            }
        }
        self.primary.add_owned(bytes);
    }

    /// Append one byte to the doctype name (already case-normalized).
    pub fn doctype_name_now(&mut self, chr: u8, Ghost(b): Ghost<Seq<u8>>)
        requires
            old(self).inv(b),
        ensures
            final(self).inv(b),
            final(self).cur_v(b) == (InflightV {
                name: old(self).cur_v(b).name + seq![chr],
                ..old(self).cur_v(b)
            }),
            final(self).hist() == old(self).hist(),
            final(self).popped_v() == old(self).popped_v(),
            final(self).eof_done == old(self).eof_done,
    {
        let v: Vec<u8> = vec![chr];
        assert(v@ =~= seq![chr]);
        self.append_primary_owned(v, Ghost(b));
    }

    /// Append the backing range `[start, end)` to the PI target.
    pub fn pi_target(&mut self, start: usize, end: usize, Ghost(b): Ghost<Seq<u8>>)
        requires
            old(self).inv(b),
            start <= end,
            end <= b.len(),
        ensures
            final(self).inv(b),
            final(self).cur_v(b) == (InflightV {
                target: old(self).cur_v(b).target + b.subrange(start as int, end as int),
                ..old(self).cur_v(b)
            }),
            final(self).hist() == old(self).hist(),
            final(self).popped_v() == old(self).popped_v(),
            final(self).eof_done == old(self).eof_done,
    {
        proof {
            crate::spans::lemma_merge_span_bytes(b, self.secondary.data@, start, end);
        }
        self.secondary.add_span(start, end);
    }

    /// Append owned bytes to the PI target.
    pub fn pi_target_owned(&mut self, bytes: Vec<u8>, Ghost(b): Ghost<Seq<u8>>)
        requires
            old(self).inv(b),
        ensures
            final(self).inv(b),
            final(self).cur_v(b) == (InflightV {
                target: old(self).cur_v(b).target + bytes@,
                ..old(self).cur_v(b)
            }),
            final(self).hist() == old(self).hist(),
            final(self).popped_v() == old(self).popped_v(),
            final(self).eof_done == old(self).eof_done,
    {
        proof {
            crate::spans::lemma_spans_push(b, self.secondary.data@, Mix::Owned(bytes));
        }
        self.secondary.add_owned(bytes);
    }

    /// Begin an attribute on the current tag.
    pub fn create_attr(&mut self, Ghost(b): Ghost<Seq<u8>>)
        requires
            old(self).inv(b),
            !old(self).attr_open,
        ensures
            final(self).inv(b),
            final(self).cur_v(b) == (InflightV { attr_open: true, ..old(self).cur_v(b) }),
            final(self).hist() == old(self).hist(),
            final(self).popped_v() == old(self).popped_v(),
            final(self).eof_done == old(self).eof_done,
    {
        self.attr_open = true;
    }

    /// Append the backing range `[start, end)` to the current attribute name.
    pub fn attr_names(&mut self, start: usize, end: usize, Ghost(b): Ghost<Seq<u8>>)
        requires
            old(self).inv(b),
            old(self).attr_open,
            start <= end,
            end <= b.len(),
        ensures
            final(self).inv(b),
            final(self).cur_v(b) == (InflightV {
                attr_name: old(self).cur_v(b).attr_name + b.subrange(start as int, end as int),
                ..old(self).cur_v(b)
            }),
            final(self).hist() == old(self).hist(),
            final(self).popped_v() == old(self).popped_v(),
            final(self).eof_done == old(self).eof_done,
    {
        proof {
            crate::spans::lemma_merge_span_bytes(b, self.attr_name.data@, start, end);
        }
        self.attr_name.add_span(start, end);
    }

    /// Append the backing range `[start, end)` to the current attribute value.
    pub fn attr_values(&mut self, start: usize, end: usize, Ghost(b): Ghost<Seq<u8>>)
        requires
            old(self).inv(b),
            old(self).attr_open,
            start <= end,
            end <= b.len(),
        ensures
            final(self).inv(b),
            final(self).cur_v(b) == (InflightV {
                attr_value: old(self).cur_v(b).attr_value + b.subrange(start as int, end as int),
                ..old(self).cur_v(b)
            }),
            final(self).hist() == old(self).hist(),
            final(self).popped_v() == old(self).popped_v(),
            final(self).eof_done == old(self).eof_done,
    {
        proof {
            crate::spans::lemma_merge_span_bytes(b, self.attr_value.data@, start, end);
        }
        self.attr_value.add_span(start, end);
    }

    /// Append one synthesized byte to the current attribute name.
    pub fn attr_name_byte(&mut self, chr: u8, Ghost(b): Ghost<Seq<u8>>)
        requires
            old(self).inv(b),
            old(self).attr_open,
        ensures
            final(self).inv(b),
            final(self).cur_v(b) == (InflightV {
                attr_name: old(self).cur_v(b).attr_name + seq![chr],
                ..old(self).cur_v(b)
            }),
            final(self).hist() == old(self).hist(),
            final(self).popped_v() == old(self).popped_v(),
            final(self).eof_done == old(self).eof_done,
    {
        let v: Vec<u8> = vec![chr];
        assert(v@ =~= seq![chr]);
        proof {
            crate::spans::lemma_spans_push(b, self.attr_name.data@, Mix::Owned(v));
        }
        self.attr_name.add_owned(v);
    }

    /// Append one synthesized byte to the current attribute value.
    pub fn attr_value_byte(&mut self, chr: u8, Ghost(b): Ghost<Seq<u8>>)
        requires
            old(self).inv(b),
            old(self).attr_open,
        ensures
            final(self).inv(b),
            final(self).cur_v(b) == (InflightV {
                attr_value: old(self).cur_v(b).attr_value + seq![chr],
                ..old(self).cur_v(b)
            }),
            final(self).hist() == old(self).hist(),
            final(self).popped_v() == old(self).popped_v(),
            final(self).eof_done == old(self).eof_done,
    {
        let v: Vec<u8> = vec![chr];
        assert(v@ =~= seq![chr]);
        proof {
            crate::spans::lemma_spans_push(b, self.attr_value.data@, Mix::Owned(v));
        }
        self.attr_value.add_owned(v);
    }

    /// Make the named doctype identifier present (and empty), and select it
    /// for subsequent appends.
    pub fn clear_doctype_id(&mut self, kind: DoctypeKind, Ghost(b): Ghost<Seq<u8>>)
        requires
            old(self).inv(b),
        ensures
            final(self).inv(b),
            final(self).cur_v(b) == (InflightV {
                public_id: if kind == DoctypeKind::Public {
                    Some(Seq::empty())
                } else {
                    old(self).cur_v(b).public_id
                },
                system_id: if kind == DoctypeKind::System {
                    Some(Seq::empty())
                } else {
                    old(self).cur_v(b).system_id
                },
                id_kind: kind,
                ..old(self).cur_v(b)
            }),
            final(self).hist() == old(self).hist(),
            final(self).popped_v() == old(self).popped_v(),
            final(self).eof_done == old(self).eof_done,
    {
        match kind {
            DoctypeKind::Public => {
                self.public_id = Some(Spans::new());
            }
            DoctypeKind::System => {
                self.system_id = Some(Spans::new());
            }
        }
        self.id_kind = kind;
    }

    /// Append the backing range `[start, end)` to the selected doctype
    /// identifier.
    pub fn doctype_id(&mut self, start: usize, end: usize, Ghost(b): Ghost<Seq<u8>>)
        requires
            old(self).inv(b),
            start <= end,
            end <= b.len(),
            old(self).id_kind == DoctypeKind::Public ==> old(self).cur_v(b).public_id is Some,
            old(self).id_kind == DoctypeKind::System ==> old(self).cur_v(b).system_id is Some,
        ensures
            final(self).inv(b),
            final(self).cur_v(b) == (InflightV {
                public_id: if old(self).id_kind == DoctypeKind::Public {
                    Some(old(self).cur_v(b).public_id->0 + b.subrange(start as int, end as int))
                } else {
                    old(self).cur_v(b).public_id
                },
                system_id: if old(self).id_kind == DoctypeKind::System {
                    Some(old(self).cur_v(b).system_id->0 + b.subrange(start as int, end as int))
                } else {
                    old(self).cur_v(b).system_id
                },
                ..old(self).cur_v(b)
            }),
            final(self).hist() == old(self).hist(),
            final(self).popped_v() == old(self).popped_v(),
            final(self).eof_done == old(self).eof_done,
    {
        match self.id_kind {
            DoctypeKind::Public => {
                let mut o: Option<Spans> = None;
                core::mem::swap(&mut o, &mut self.public_id);
                let mut sp = match o {
                    Some(sp) => sp,
                    None => Spans::new(),
                };
                proof {
                    crate::spans::lemma_merge_span_bytes(b, sp.data@, start, end);
                }
                sp.add_span(start, end);
                self.public_id = Some(sp);
            }
            DoctypeKind::System => {
                let mut o: Option<Spans> = None;
                core::mem::swap(&mut o, &mut self.system_id);
                let mut sp = match o {
                    Some(sp) => sp,
                    None => Spans::new(),
                };
                proof {
                    crate::spans::lemma_merge_span_bytes(b, sp.data@, start, end);
                }
                sp.add_span(start, end);
                self.system_id = Some(sp);
            }
        }
    }

    /// Append the backing range `[start, end)` to the pending text.
    pub fn emit_chars(&mut self, start: usize, end: usize, Ghost(b): Ghost<Seq<u8>>)
        requires
            old(self).inv(b),
            start < end,
            end <= b.len(),
        ensures
            final(self).inv(b),
            final(self).cur_v(b) == (InflightV {
                text: old(self).cur_v(b).text + b.subrange(start as int, end as int),
                ..old(self).cur_v(b)
            }),
            final(self).hist() == old(self).hist(),
            final(self).popped_v() == old(self).popped_v(),
            final(self).eof_done == old(self).eof_done,
    {
        proof {
            crate::spans::lemma_merge_span_bytes(b, self.text.data@, start, end);
            crate::spans::lemma_merge_span_nonempty(b, self.text.data@, start, end);
        }
        self.text.add_span(start, end);
    }

    /// Append synthesized bytes to the pending text.
    pub fn emit_chars_now(&mut self, bytes: Vec<u8>, Ghost(b): Ghost<Seq<u8>>)
        requires
            old(self).inv(b),
            bytes@.len() > 0,
        ensures
            final(self).inv(b),
            final(self).cur_v(b) == (InflightV {
                text: old(self).cur_v(b).text + bytes@,
                ..old(self).cur_v(b)
            }),
            final(self).hist() == old(self).hist(),
            final(self).popped_v() == old(self).popped_v(),
            final(self).eof_done == old(self).eof_done,
    {
        proof {
            crate::spans::lemma_spans_push(b, self.text.data@, Mix::Owned(bytes));
            assert forall|i: int| 0 <= i < self.text.data@.push(Mix::Owned(bytes)).len()
                implies mix_bytes(b, #[trigger] self.text.data@.push(Mix::Owned(bytes))[i]).len()
                > 0 by {
                if i < self.text.data@.len() {
                    assert(self.text.data@.push(Mix::Owned(bytes))[i] == self.text.data@[i]);
                }
            }
        }
        self.text.add_owned(bytes);
    }
}

/// The rendered name of an XML declaration attribute.
pub open spec fn decl_attr_name_bytes(attr: XmlDeclAttr) -> Seq<u8> {
    match attr {
        XmlDeclAttr::Version => seq![118u8, 101u8, 114u8, 115u8, 105u8, 111u8, 110u8],
        XmlDeclAttr::Encoding => seq![101u8, 110u8, 99u8, 111u8, 100u8, 105u8, 110u8, 103u8],
        XmlDeclAttr::Standalone => seq![
            115u8,
            116u8,
            97u8,
            110u8,
            100u8,
            97u8,
            108u8,
            111u8,
            110u8,
            101u8,
        ],
    }
}

/// The bytes that open one rendered declaration attribute: a separating
/// space (except for the first attribute), the attribute name, `="`.
pub open spec fn decl_attr_open_bytes(attr: XmlDeclAttr, first: bool) -> Seq<u8> {
    (if first {
        Seq::<u8>::empty()
    } else {
        seq![32u8]
    }) + decl_attr_name_bytes(attr) + seq![61u8, 34u8]
}

/// Whether an attribute of this name is already on the current tag.
pub open spec fn attr_name_dup(attrs: Seq<(Seq<u8>, Seq<u8>)>, name: Seq<u8>) -> bool {
    exists|i: int| 0 <= i < attrs.len() && (#[trigger] attrs[i]).0 == name
}

fn vec_bytes_eq(a: &Vec<u8>, b: &Vec<u8>) -> (r: bool)
    ensures
        r == (a@ == b@),
{
    if a.len() != b.len() {
        return false;
    }
    let mut i: usize = 0;
    while i < a.len()
        invariant
            a@.len() == b@.len(),
            i <= a@.len(),
            forall|j: int| 0 <= j < i ==> a@[j] == b@[j],
        decreases a@.len() - i,
    {
        if a[i] != b[i] {
            return false;
        }
        i = i + 1;
    }
    proof {
        assert(a@ =~= b@);
    }
    true
}

/// One mix element's bytes survive a backing extension.
pub proof fn lemma_mix_prefix(b1: Seq<u8>, b2: Seq<u8>, m: Mix)
    requires
        mix_wf(m, b1.len() as int),
        b1.len() <= b2.len(),
        b2.subrange(0, b1.len() as int) == b1,
    ensures
        mix_wf(m, b2.len() as int),
        mix_bytes(b2, m) == mix_bytes(b1, m),
{
    match m {
        Mix::Range(s, e) => {
            assert(b2.subrange(s as int, e as int) =~= b1.subrange(s as int, e as int));
        }
        Mix::Owned(_) => (),
    }
}

/// A queued token's well-formedness and materialization survive a backing
/// extension.
pub proof fn lemma_st_prefix(b1: Seq<u8>, b2: Seq<u8>, t: SpanTokens)
    requires
        st_wf(t, b1.len() as int),
        b1.len() <= b2.len(),
        b2.subrange(0, b1.len() as int) == b1,
    ensures
        st_wf(t, b2.len() as int),
        span_token_v(b2, t) == span_token_v(b1, t),
{
    match t {
        SpanTokens::Text(s) => lemma_spans_bytes_prefix(b1, b2, s.data@),
        SpanTokens::CData(s) => lemma_spans_bytes_prefix(b1, b2, s.data@),
        SpanTokens::Decl(s) => lemma_spans_bytes_prefix(b1, b2, s.data@),
        SpanTokens::Comment(s) => lemma_spans_bytes_prefix(b1, b2, s.data@),
        SpanTokens::EndTag(Some(s)) => lemma_spans_bytes_prefix(b1, b2, s.data@),
        SpanTokens::EndTag(None) => (),
        SpanTokens::PiData { target, data } => {
            lemma_spans_bytes_prefix(b1, b2, target.data@);
            lemma_spans_bytes_prefix(b1, b2, data.data@);
        }
        SpanTokens::StartTag { self_close, name, attrs } => {
            lemma_spans_bytes_prefix(b1, b2, name.data@);
            assert forall|i: int| 0 <= i < attrs@.len() implies (#[trigger] attrs@[i]).0.wf(
                b2.len() as int,
            ) && attrs@[i].1.wf(b2.len() as int) && spans_data_bytes(b2, attrs@[i].0.data@)
                == spans_data_bytes(b1, attrs@[i].0.data@) && spans_data_bytes(
                b2,
                attrs@[i].1.data@,
            ) == spans_data_bytes(b1, attrs@[i].1.data@) by {
                lemma_spans_bytes_prefix(b1, b2, attrs@[i].0.data@);
                lemma_spans_bytes_prefix(b1, b2, attrs@[i].1.data@);
            }
            assert(attrs_bytes(b2, attrs@) =~= attrs_bytes(b1, attrs@));
            assert(span_token_v(b2, t) =~= span_token_v(b1, t));
        }
        SpanTokens::DocType { name, public_id, system_id } => {
            lemma_spans_bytes_prefix(b1, b2, name.data@);
            match public_id {
                Some(sp) => lemma_spans_bytes_prefix(b1, b2, sp.data@),
                None => (),
            }
            match system_id {
                Some(sp) => lemma_spans_bytes_prefix(b1, b2, sp.data@),
                None => (),
            }
        }
        SpanTokens::Error(_) => (),
        SpanTokens::Eof => (),
    }
}

impl DefaultEmitter {
    /// Begin one rendered declaration attribute in the declaration body:
    /// `name="`, preceded by a space when it is not the first one.
    pub fn set_xml_declaration(&mut self, attr: XmlDeclAttr, Ghost(b): Ghost<Seq<u8>>)
        requires
            old(self).inv(b),
        ensures
            final(self).inv(b),
            final(self).cur_v(b) == (InflightV {
                name: old(self).cur_v(b).name + decl_attr_open_bytes(
                    attr,
                    old(self).cur_v(b).name.len() == 0,
                ),
                ..old(self).cur_v(b)
            }),
            final(self).hist() == old(self).hist(),
            final(self).popped_v() == old(self).popped_v(),
            final(self).eof_done == old(self).eof_done,
    {
        let first = self.primary.data.len() == 0;
        proof {
            if self.primary.data@.len() == 0 {
                assert(self.cur_v(b).name.len() == 0);
            } else {
                lemma_spans_nonempty(b, self.primary.data@);
            }
        }
        let mut piece: Vec<u8> = Vec::new();
        if !first {
            piece.push(32u8);
        }
        match attr {
            XmlDeclAttr::Version => {
                piece.push(118u8);
                piece.push(101u8);
                piece.push(114u8);
                piece.push(115u8);
                piece.push(105u8);
                piece.push(111u8);
                piece.push(110u8);
            }
            XmlDeclAttr::Encoding => {
                piece.push(101u8);
                piece.push(110u8);
                piece.push(99u8);
                piece.push(111u8);
                piece.push(100u8);
                piece.push(105u8);
                piece.push(110u8);
                piece.push(103u8);
            }
            XmlDeclAttr::Standalone => {
                piece.push(115u8);
                piece.push(116u8);
                piece.push(97u8);
                piece.push(110u8);
                piece.push(100u8);
                piece.push(97u8);
                piece.push(108u8);
                piece.push(111u8);
                piece.push(110u8);
                piece.push(101u8);
            }
        }
        piece.push(61u8);
        piece.push(34u8);
        proof {
            assert(piece@ =~= decl_attr_open_bytes(attr, first));
        }
        self.append_primary_owned(piece, Ghost(b));
    }

    /// Demote the XML declaration under construction to a processing
    /// instruction with target `xml`; the accumulated declaration body
    /// becomes PI data.
    pub fn demote_decl_to_pi(&mut self, Ghost(b): Ghost<Seq<u8>>)
        requires
            old(self).inv(b),
        ensures
            final(self).inv(b),
            final(self).cur_v(b) == (InflightV {
                kind: CurrentToken::ProcessingInstruction,
                target: old(self).cur_v(b).target + seq![120u8, 109u8, 108u8],
                ..old(self).cur_v(b)
            }),
            final(self).hist() == old(self).hist(),
            final(self).popped_v() == old(self).popped_v(),
            final(self).eof_done == old(self).eof_done,
    {
        self.current_token_type = CurrentToken::ProcessingInstruction;
        let v: Vec<u8> = vec![120u8, 109u8, 108u8];
        assert(v@ =~= seq![120u8, 109u8, 108u8]);
        self.pi_target_owned(v, Ghost(b));
    }

    /// Add the closed attribute, whose name is not yet on the tag, to the
    /// attribute list.
    #[verifier::rlimit(100)]
    #[verifier::spinoff_prover]
    fn close_attr_add(&mut self, name_bytes: Vec<u8>, Ghost(b): Ghost<Seq<u8>>)
        requires
            old(self).inv(b),
            old(self).attr_open,
            !old(self).eof_done,
            name_bytes@ == old(self).cur_v(b).attr_name,
        ensures
            final(self).inv(b),
            final(self).popped_v() == old(self).popped_v(),
            final(self).eof_done == false,
            final(self).hist() == old(self).hist(),
            final(self).cur_v(b) == (InflightV {
                attrs: old(self).cur_v(b).attrs.push(
                    (old(self).cur_v(b).attr_name, old(self).cur_v(b).attr_value),
                ),
                attr_name: Seq::empty(),
                attr_value: Seq::empty(),
                attr_open: false,
                ..old(self).cur_v(b)
            }),
    {
        let mut an = Spans::new();
        core::mem::swap(&mut an, &mut self.attr_name);
        let mut av = Spans::new();
        core::mem::swap(&mut av, &mut self.attr_value);
        self.attrs.push((an, av));
        self.seen_names.push(name_bytes);
        self.attr_open = false;
        proof {
            assert(self.tokens@ == old(self).tokens@);
            assert(self.queue_v(b) =~= old(self).queue_v(b));
            assert(self.attrs@ =~= old(self).attrs@.push((an, av)));
            assert forall|i: int| 0 <= i < self.attrs@.len() implies (#[trigger] self.attrs@[i]).0.wf(
                b.len() as int,
            ) && self.attrs@[i].1.wf(b.len() as int) by {
                if i < old(self).attrs@.len() {
                    assert(self.attrs@[i] == old(self).attrs@[i]);
                }
            }
            assert forall|i: int| 0 <= i < self.attrs@.len() implies (#[trigger] self.seen_names@[i])@
                == spans_data_bytes(b, self.attrs@[i].0.data@) by {
                if i < old(self).attrs@.len() {
                    assert(self.attrs@[i] == old(self).attrs@[i]);
                    assert(self.seen_names@[i] == old(self).seen_names@[i]);
                } else {
                    assert(self.attrs@[i] == (an, av));
                    assert(self.seen_names@[i] == name_bytes);
                }
            }
            assert(self.cur_v(b).attrs =~= old(self).cur_v(b).attrs.push(
                (old(self).cur_v(b).attr_name, old(self).cur_v(b).attr_value),
            ));
            assert(self.attr_name.bytes(b) =~= Seq::<u8>::empty());
            assert(self.attr_value.bytes(b) =~= Seq::<u8>::empty());
        }
    }

    /// Close the current attribute. A duplicate name is dropped and reported
    /// with one `DuplicateAttribute` error; otherwise the attribute joins the
    /// current tag's attribute list.
    #[verifier::rlimit(60)]
    #[verifier::spinoff_prover]
    pub fn close_attr(&mut self, backing: &[u8])
        requires
            old(self).inv(backing@),
            old(self).attr_open,
            !old(self).eof_done,
        ensures
            final(self).inv(backing@),
            final(self).popped_v() == old(self).popped_v(),
            final(self).eof_done == false,
            if attr_name_dup(old(self).cur_v(backing@).attrs, old(self).cur_v(backing@).attr_name) {
                final(self).hist() == old(self).hist() + flush_out(old(self).cur_v(backing@).text)
                    + seq![TokenV::Error(Xml5Error::DuplicateAttribute)] && final(self).cur_v(
                    backing@,
                ) == (InflightV {
                    attr_name: Seq::empty(),
                    attr_value: Seq::empty(),
                    attr_open: false,
                    text: Seq::empty(),
                    ..old(self).cur_v(backing@)
                })
            } else {
                final(self).hist() == old(self).hist() && final(self).cur_v(backing@)
                    == (InflightV {
                    attrs: old(self).cur_v(backing@).attrs.push(
                        (old(self).cur_v(backing@).attr_name, old(self).cur_v(backing@).attr_value),
                    ),
                    attr_name: Seq::empty(),
                    attr_value: Seq::empty(),
                    attr_open: false,
                    ..old(self).cur_v(backing@)
                })
            },
    {
        let ghost b = backing@;
        let name_bytes = crate::spans::materialize(&self.attr_name, backing);
        let mut found = false;
        let mut i: usize = 0;
        while i < self.seen_names.len()
            invariant
                self == old(self),
                name_bytes@ == old(self).cur_v(b).attr_name,
                b == backing@,
                old(self).inv(b),
                i <= self.seen_names@.len(),
                found <==> exists|j: int|
                    0 <= j < i && (#[trigger] self.seen_names@[j])@ == name_bytes@,
            decreases self.seen_names@.len() - i,
        {
            if vec_bytes_eq(&self.seen_names[i], &name_bytes) {
                found = true;
            }
            i = i + 1;
        }
        proof {
            if found {
                let j = choose|j: int|
                    0 <= j < self.seen_names@.len() && (#[trigger] self.seen_names@[j])@
                        == name_bytes@;
                assert(spans_data_bytes(b, self.attrs@[j].0.data@) == name_bytes@);
                assert(attrs_bytes(b, self.attrs@)[j].0 == name_bytes@);
                assert(attr_name_dup(self.cur_v(b).attrs, self.cur_v(b).attr_name));
            } else {
                if attr_name_dup(self.cur_v(b).attrs, self.cur_v(b).attr_name) {
                    let j = choose|j: int|
                        0 <= j < attrs_bytes(b, self.attrs@).len() && (#[trigger] attrs_bytes(
                            b,
                            self.attrs@,
                        )[j]).0 == self.cur_v(b).attr_name;
                    assert(spans_data_bytes(b, self.attrs@[j].0.data@) == name_bytes@);
                    assert(self.seen_names@[j]@ == name_bytes@);
                    assert(false);
                }
            }
        }
        if found {
            self.attr_name = Spans::new();
            self.attr_value = Spans::new();
            self.attr_open = false;
            proof {
                assert(self.attr_name.bytes(b) =~= Seq::<u8>::empty());
                assert(self.attr_value.bytes(b) =~= Seq::<u8>::empty());
            }
            self.push_tok(SpanTokens::Error(Xml5Error::DuplicateAttribute), Ghost(backing@));
        } else {
            self.close_attr_add(name_bytes, Ghost(backing@));
        }
    }

    /// Queue an ordinary (non-truncation) error token.
    pub fn emit_error(&mut self, err: Xml5Error, Ghost(b): Ghost<Seq<u8>>)
        requires
            old(self).inv(b),
            !old(self).eof_done,
            !is_truncation_error(err),
        ensures
            final(self).inv(b),
            final(self).hist() == old(self).hist() + flush_out(old(self).cur_v(b).text) + seq![
                TokenV::Error(err),
            ],
            final(self).popped_v() == old(self).popped_v(),
            final(self).cur_v(b) == (InflightV { text: Seq::empty(), ..old(self).cur_v(b) }),
            final(self).eof_done == false,
    {
        self.push_tok(SpanTokens::Error(err), Ghost(b));
    }

    /// Take and reset the whole in-flight slot, leaving only pending text.
    fn take_current(&mut self) -> (r: (
        Spans,
        Spans,
        Vec<(Spans, Spans)>,
        Option<Spans>,
        Option<Spans>,
        bool,
        CurrentToken,
    ))
        ensures
            r.0 == old(self).primary,
            r.1 == old(self).secondary,
            r.2 == old(self).attrs,
            r.3 == old(self).public_id,
            r.4 == old(self).system_id,
            r.5 == old(self).self_closing,
            r.6 == old(self).current_token_type,
            final(self).primary.data@.len() == 0,
            final(self).secondary.data@.len() == 0,
            final(self).attrs@.len() == 0,
            final(self).seen_names@.len() == 0,
            final(self).attr_name.data@.len() == 0,
            final(self).attr_value.data@.len() == 0,
            final(self).attr_open == false,
            final(self).self_closing == false,
            final(self).public_id is None,
            final(self).system_id is None,
            final(self).id_kind == DoctypeKind::Public,
            final(self).current_token_type == CurrentToken::NoToken,
            final(self).tokens == old(self).tokens,
            final(self).text == old(self).text,
            final(self).eof_done == old(self).eof_done,
            final(self).history == old(self).history,
            final(self).popped == old(self).popped,
    {
        let mut name = Spans::new();
        core::mem::swap(&mut name, &mut self.primary);
        let mut target = Spans::new();
        core::mem::swap(&mut target, &mut self.secondary);
        let mut attrs: Vec<(Spans, Spans)> = Vec::new();
        core::mem::swap(&mut attrs, &mut self.attrs);
        self.seen_names = Vec::new();
        let mut pid: Option<Spans> = None;
        core::mem::swap(&mut pid, &mut self.public_id);
        let mut sid: Option<Spans> = None;
        core::mem::swap(&mut sid, &mut self.system_id);
        let sc = self.self_closing;
        self.self_closing = false;
        let kind = self.current_token_type;
        self.current_token_type = CurrentToken::NoToken;
        self.attr_name = Spans::new();
        self.attr_value = Spans::new();
        self.attr_open = false;
        self.id_kind = DoctypeKind::Public;
        (name, target, attrs, pid, sid, sc, kind)
    }

    /// The emitter invariant holds for the reset in-flight slot.
    proof fn lemma_reset_inv(&self, b: Seq<u8>, prev: &DefaultEmitter)
        requires
            prev.inv(b),
            self.primary.data@.len() == 0,
            self.secondary.data@.len() == 0,
            self.attrs@.len() == 0,
            self.seen_names@.len() == 0,
            self.attr_name.data@.len() == 0,
            self.attr_value.data@.len() == 0,
            self.attr_open == false,
            self.public_id is None,
            self.system_id is None,
            self.tokens == prev.tokens,
            self.text == prev.text,
            self.eof_done == prev.eof_done,
            self.history == prev.history,
            self.popped == prev.popped,
        ensures
            self.inv(b),
            self.cur_v(b) == (InflightV {
                kind: self.current_token_type,
                self_closing: self.self_closing,
                id_kind: self.id_kind,
                text: prev.cur_v(b).text,
                ..empty_inflight()
            }),
    {
        assert(self.queue_v(b) =~= prev.queue_v(b));
        assert(attrs_bytes(b, self.attrs@) =~= Seq::<(Seq<u8>, Seq<u8>)>::empty());
        assert(self.primary.bytes(b) =~= Seq::<u8>::empty());
        assert(self.secondary.bytes(b) =~= Seq::<u8>::empty());
        assert(self.attr_name.bytes(b) =~= Seq::<u8>::empty());
        assert(self.attr_value.bytes(b) =~= Seq::<u8>::empty());
    }

    /// Queue the finished start tag.
    pub fn emit_tag(&mut self, Ghost(b): Ghost<Seq<u8>>)
        requires
            old(self).inv(b),
            !old(self).eof_done,
            !old(self).attr_open,
            old(self).current_token_type == CurrentToken::StartTag,
        ensures
            final(self).inv(b),
            final(self).hist() == old(self).hist() + flush_out(old(self).cur_v(b).text) + seq![
                (TokenV::StartTag {
                    name: old(self).cur_v(b).name,
                    attrs: old(self).cur_v(b).attrs,
                    self_closing: old(self).cur_v(b).self_closing,
                }),
            ],
            final(self).popped_v() == old(self).popped_v(),
            final(self).cur_v(b) == empty_inflight(),
            final(self).eof_done == false,
    {
        let (name, _target, attrs, _pid, _sid, sc, _kind) = self.take_current();
        proof {
            self.lemma_reset_inv(b, &old(self));
        }
        self.push_tok(SpanTokens::StartTag { self_close: sc, name, attrs }, Ghost(b));
        proof {
            assert(final(self).cur_v(b) =~= empty_inflight());
        }
    }

    /// Queue the finished end tag.
    pub fn emit_end_tag(&mut self, Ghost(b): Ghost<Seq<u8>>)
        requires
            old(self).inv(b),
            !old(self).eof_done,
            !old(self).attr_open,
            old(self).current_token_type == CurrentToken::EndTag,
        ensures
            final(self).inv(b),
            final(self).hist() == old(self).hist() + flush_out(old(self).cur_v(b).text) + seq![
                TokenV::EndTag(old(self).cur_v(b).name),
            ],
            final(self).popped_v() == old(self).popped_v(),
            final(self).cur_v(b) == empty_inflight(),
            final(self).eof_done == false,
    {
        let (name, _target, _attrs, _pid, _sid, _sc, _kind) = self.take_current();
        proof {
            self.lemma_reset_inv(b, &old(self));
        }
        self.push_tok(SpanTokens::EndTag(Some(name)), Ghost(b));
        proof {
            assert(final(self).cur_v(b) =~= empty_inflight());
        }
    }

    /// Queue the short end tag `</>`.
    pub fn emit_short_end_tag(&mut self, Ghost(b): Ghost<Seq<u8>>)
        requires
            old(self).inv(b),
            !old(self).eof_done,
        ensures
            final(self).inv(b),
            final(self).hist() == old(self).hist() + flush_out(old(self).cur_v(b).text) + seq![
                TokenV::EndTag(Seq::<u8>::empty()),
            ],
            final(self).popped_v() == old(self).popped_v(),
            final(self).cur_v(b) == (InflightV { text: Seq::empty(), ..old(self).cur_v(b) }),
            final(self).eof_done == false,
    {
        self.push_tok(SpanTokens::EndTag(None), Ghost(b));
    }

    /// Queue the finished processing instruction.
    pub fn emit_pi(&mut self, Ghost(b): Ghost<Seq<u8>>)
        requires
            old(self).inv(b),
            !old(self).eof_done,
            !old(self).attr_open,
            old(self).current_token_type == CurrentToken::ProcessingInstruction,
        ensures
            final(self).inv(b),
            final(self).hist() == old(self).hist() + flush_out(old(self).cur_v(b).text) + seq![
                (TokenV::Pi { target: old(self).cur_v(b).target, data: old(self).cur_v(b).name }),
            ],
            final(self).popped_v() == old(self).popped_v(),
            final(self).cur_v(b) == empty_inflight(),
            final(self).eof_done == false,
    {
        let (name, target, _attrs, _pid, _sid, _sc, _kind) = self.take_current();
        proof {
            self.lemma_reset_inv(b, &old(self));
        }
        self.push_tok(SpanTokens::PiData { target, data: name }, Ghost(b));
        proof {
            assert(final(self).cur_v(b) =~= empty_inflight());
        }
    }

    /// Queue the finished comment.
    pub fn emit_comment(&mut self, Ghost(b): Ghost<Seq<u8>>)
        requires
            old(self).inv(b),
            !old(self).eof_done,
            !old(self).attr_open,
            old(self).current_token_type == CurrentToken::Comment,
        ensures
            final(self).inv(b),
            final(self).hist() == old(self).hist() + flush_out(old(self).cur_v(b).text) + seq![
                TokenV::Comment(old(self).cur_v(b).name),
            ],
            final(self).popped_v() == old(self).popped_v(),
            final(self).cur_v(b) == empty_inflight(),
            final(self).eof_done == false,
    {
        let (name, _target, _attrs, _pid, _sid, _sc, _kind) = self.take_current();
        proof {
            self.lemma_reset_inv(b, &old(self));
        }
        self.push_tok(SpanTokens::Comment(name), Ghost(b));
        proof {
            assert(final(self).cur_v(b) =~= empty_inflight());
        }
    }

    /// Queue the finished CDATA section.
    pub fn emit_cdata(&mut self, Ghost(b): Ghost<Seq<u8>>)
        requires
            old(self).inv(b),
            !old(self).eof_done,
            !old(self).attr_open,
            old(self).current_token_type == CurrentToken::CData,
        ensures
            final(self).inv(b),
            final(self).hist() == old(self).hist() + flush_out(old(self).cur_v(b).text) + seq![
                TokenV::CData(old(self).cur_v(b).name),
            ],
            final(self).popped_v() == old(self).popped_v(),
            final(self).cur_v(b) == empty_inflight(),
            final(self).eof_done == false,
    {
        let (name, _target, _attrs, _pid, _sid, _sc, _kind) = self.take_current();
        proof {
            self.lemma_reset_inv(b, &old(self));
        }
        self.push_tok(SpanTokens::CData(name), Ghost(b));
        proof {
            assert(final(self).cur_v(b) =~= empty_inflight());
        }
    }

    /// Queue the finished XML declaration.
    pub fn emit_decl(&mut self, Ghost(b): Ghost<Seq<u8>>)
        requires
            old(self).inv(b),
            !old(self).eof_done,
            !old(self).attr_open,
            old(self).current_token_type == CurrentToken::Decl,
        ensures
            final(self).inv(b),
            final(self).hist() == old(self).hist() + flush_out(old(self).cur_v(b).text) + seq![
                TokenV::Decl(old(self).cur_v(b).name),
            ],
            final(self).popped_v() == old(self).popped_v(),
            final(self).cur_v(b) == empty_inflight(),
            final(self).eof_done == false,
    {
        let (name, _target, _attrs, _pid, _sid, _sc, _kind) = self.take_current();
        proof {
            self.lemma_reset_inv(b, &old(self));
        }
        self.push_tok(SpanTokens::Decl(name), Ghost(b));
        proof {
            assert(final(self).cur_v(b) =~= empty_inflight());
        }
    }

    /// Queue the finished doctype.
    pub fn emit_doctype(&mut self, Ghost(b): Ghost<Seq<u8>>)
        requires
            old(self).inv(b),
            !old(self).eof_done,
            !old(self).attr_open,
            old(self).current_token_type == CurrentToken::Doctype,
        ensures
            final(self).inv(b),
            final(self).hist() == old(self).hist() + flush_out(old(self).cur_v(b).text) + seq![
                (TokenV::DocType {
                    name: old(self).cur_v(b).name,
                    public_id: old(self).cur_v(b).public_id,
                    system_id: old(self).cur_v(b).system_id,
                }),
            ],
            final(self).popped_v() == old(self).popped_v(),
            final(self).cur_v(b) == empty_inflight(),
            final(self).eof_done == false,
    {
        let (name, _target, _attrs, pid, sid, _sc, _kind) = self.take_current();
        proof {
            self.lemma_reset_inv(b, &old(self));
        }
        self.push_tok(
            SpanTokens::DocType { name, public_id: pid, system_id: sid },
            Ghost(b),
        );
        proof {
            assert(final(self).cur_v(b) =~= empty_inflight());
        }
    }

    /// Flush pending text and close the stream with `Eof`; a second call does
    /// nothing.
    pub fn emit_eof(&mut self, Ghost(b): Ghost<Seq<u8>>)
        requires
            old(self).inv(b),
        ensures
            final(self).inv(b),
            final(self).popped_v() == old(self).popped_v(),
            final(self).eof_done == true,
            old(self).eof_done ==> final(self).hist() == old(self).hist() && final(self).cur_v(b)
                == old(self).cur_v(b),
            !old(self).eof_done ==> final(self).hist() == old(self).hist() + flush_out(
                old(self).cur_v(b).text,
            ) + seq![TokenV::Eof] && final(self).cur_v(b) == (InflightV {
                text: Seq::empty(),
                ..old(self).cur_v(b)
            }),
    {
        if self.eof_done {
            return ;
        }
        proof {
            lemma_stream_push_eof(self.history@, self.cur_v(b).text);
        }
        if self.text.data.len() > 0 {
            let mut txt = Spans::new();
            core::mem::swap(&mut txt, &mut self.text);
            proof {
                lemma_spans_nonempty(b, txt.data@);
                self.history@ = self.history@ + seq![TokenV::Text(txt.bytes(b))];
            }
            self.tokens.push(SpanTokens::Text(txt));
        }
        proof {
            self.history@ = self.history@ + seq![TokenV::Eof];
        }
        self.tokens.push(SpanTokens::Eof);
        self.eof_done = true;
        proof {
            if old(self).text.data@.len() > 0 {
                assert(self.tokens@ =~= old(self).tokens@ + seq![
                    SpanTokens::Text(old(self).text),
                    SpanTokens::Eof,
                ]);
                assert(self.queue_v(b) =~= old(self).queue_v(b) + seq![
                    TokenV::Text(old(self).text.bytes(b)),
                    TokenV::Eof,
                ]);
                assert(flush_out(old(self).cur_v(b).text) =~= seq![
                    TokenV::Text(old(self).text.bytes(b)),
                ]) by {
                    lemma_spans_nonempty(b, old(self).text.data@);
                }
            } else {
                assert(old(self).text.data@ =~= Seq::<Mix>::empty());
                assert(flush_out(old(self).cur_v(b).text) =~= Seq::<TokenV>::empty());
                assert(self.tokens@ =~= old(self).tokens@ + seq![SpanTokens::Eof]);
                assert(self.queue_v(b) =~= old(self).queue_v(b) + seq![TokenV::Eof]);
            }
            assert(self.history@ =~= old(self).hist() + flush_out(old(self).cur_v(b).text) + seq![
                TokenV::Eof,
            ]);
            assert(self.history@ =~= self.popped@ + self.queue_v(b));
            assert(self.cur_v(b) == (InflightV { text: Seq::empty(), ..old(self).cur_v(b) })) by {
                assert(self.text.bytes(b) =~= Seq::<u8>::empty());
            }
        }
    }

    /// The emitter invariant and views survive an extension of the backing
    /// bytes: every held range lies inside the old backing, which the new
    /// backing begins with.
    pub proof fn lemma_inv_backing_extend(&self, b1: Seq<u8>, b2: Seq<u8>)
        requires
            self.inv(b1),
            b1.len() <= b2.len(),
            b2.subrange(0, b1.len() as int) == b1,
        ensures
            self.inv(b2),
            self.cur_v(b2) == self.cur_v(b1),
            self.queue_v(b2) == self.queue_v(b1),
    {
        let l1 = b1.len() as int;
        let l2 = b2.len() as int;
        lemma_spans_bytes_prefix(b1, b2, self.primary.data@);
        lemma_spans_bytes_prefix(b1, b2, self.secondary.data@);
        lemma_spans_bytes_prefix(b1, b2, self.attr_name.data@);
        lemma_spans_bytes_prefix(b1, b2, self.attr_value.data@);
        lemma_spans_bytes_prefix(b1, b2, self.text.data@);
        assert forall|i: int| 0 <= i < self.text.data@.len() implies mix_bytes(
            b2,
            #[trigger] self.text.data@[i],
        ).len() > 0 by {
            lemma_mix_prefix(b1, b2, self.text.data@[i]);
        }
        assert forall|i: int| 0 <= i < self.primary.data@.len() implies mix_bytes(
            b2,
            #[trigger] self.primary.data@[i],
        ).len() > 0 by {
            lemma_mix_prefix(b1, b2, self.primary.data@[i]);
        }
        assert forall|i: int| 0 <= i < self.attrs@.len() implies (#[trigger] self.attrs@[i]).0.wf(
            l2,
        ) && self.attrs@[i].1.wf(l2) && spans_data_bytes(b2, self.attrs@[i].0.data@)
            == spans_data_bytes(b1, self.attrs@[i].0.data@) && spans_data_bytes(
            b2,
            self.attrs@[i].1.data@,
        ) == spans_data_bytes(b1, self.attrs@[i].1.data@) by {
            lemma_spans_bytes_prefix(b1, b2, self.attrs@[i].0.data@);
            lemma_spans_bytes_prefix(b1, b2, self.attrs@[i].1.data@);
        }
        match self.public_id {
            Some(sp) => lemma_spans_bytes_prefix(b1, b2, sp.data@),
            None => (),
        }
        match self.system_id {
            Some(sp) => lemma_spans_bytes_prefix(b1, b2, sp.data@),
            None => (),
        }
        assert forall|i: int| 0 <= i < self.tokens@.len() implies st_wf(
            #[trigger] self.tokens@[i],
            l2,
        ) && span_token_v(b2, self.tokens@[i]) == span_token_v(b1, self.tokens@[i]) by {
            lemma_st_prefix(b1, b2, self.tokens@[i]);
        }
        assert(self.queue_v(b2) =~= self.queue_v(b1));
        assert(attrs_bytes(b2, self.attrs@) =~= attrs_bytes(b1, self.attrs@));
        assert(self.cur_v(b2) =~= self.cur_v(b1));
    }

    /// Report a truncation: flush pending text, then queue the truncation
    /// error, the partial token being built, and `Eof`, atomically.
    #[verifier::rlimit(100)]
    #[verifier::spinoff_prover]
    pub fn emit_truncation(&mut self, err: Xml5Error, Ghost(b): Ghost<Seq<u8>>)
        requires
            old(self).inv(b),
            !old(self).eof_done,
            is_truncation_error(err),
            old(self).current_token_type != CurrentToken::NoToken,
            !old(self).attr_open,
        ensures
            final(self).inv(b),
            final(self).hist() == old(self).hist() + flush_out(old(self).cur_v(b).text) + seq![
                TokenV::Error(err),
                partial_v(old(self).cur_v(b)),
                TokenV::Eof,
            ],
            final(self).popped_v() == old(self).popped_v(),
            final(self).cur_v(b) == empty_inflight(),
            final(self).eof_done == true,
    {
        proof {
            lemma_stream_push_truncation(
                self.history@,
                self.cur_v(b).text,
                err,
                partial_v(self.cur_v(b)),
            );
        }
        let (name, target, attrs, pid, sid, sc, kind) = self.take_current();
        proof {
            self.lemma_reset_inv(b, &old(self));
        }
        let pt = match kind {
            CurrentToken::StartTag => SpanTokens::StartTag { self_close: sc, name, attrs },
            CurrentToken::EndTag => SpanTokens::EndTag(Some(name)),
            CurrentToken::ProcessingInstruction => SpanTokens::PiData { target, data: name },
            CurrentToken::Doctype => SpanTokens::DocType {
                name,
                public_id: pid,
                system_id: sid,
            },
            CurrentToken::Comment => SpanTokens::Comment(name),
            CurrentToken::CData => SpanTokens::CData(name),
            CurrentToken::Decl => SpanTokens::Decl(name),
            CurrentToken::NoToken => {
                proof {
                    assert(false);
                }
                SpanTokens::Eof
            }
        };
        proof {
            assert(span_token_v(b, pt) == partial_v(old(self).cur_v(b)));
        }
        if self.text.data.len() > 0 {
            let mut txt = Spans::new();
            core::mem::swap(&mut txt, &mut self.text);
            proof {
                lemma_spans_nonempty(b, txt.data@);
                self.history@ = self.history@ + seq![TokenV::Text(txt.bytes(b))];
            }
            self.tokens.push(SpanTokens::Text(txt));
        }
        proof {
            self.history@ = self.history@ + seq![
                TokenV::Error(err),
                partial_v(old(self).cur_v(b)),
                TokenV::Eof,
            ];
        }
        self.tokens.push(SpanTokens::Error(err));
        self.tokens.push(pt);
        self.tokens.push(SpanTokens::Eof);
        self.eof_done = true;
        proof {
            if old(self).text.data@.len() > 0 {
                assert(self.tokens@ =~= old(self).tokens@ + seq![
                    SpanTokens::Text(old(self).text),
                    SpanTokens::Error(err),
                    pt,
                    SpanTokens::Eof,
                ]);
                assert(self.queue_v(b) =~= old(self).queue_v(b) + seq![
                    TokenV::Text(old(self).text.bytes(b)),
                    TokenV::Error(err),
                    partial_v(old(self).cur_v(b)),
                    TokenV::Eof,
                ]);
                assert(flush_out(old(self).cur_v(b).text) =~= seq![
                    TokenV::Text(old(self).text.bytes(b)),
                ]) by {
                    lemma_spans_nonempty(b, old(self).text.data@);
                }
            } else {
                assert(old(self).text.data@ =~= Seq::<Mix>::empty());
                assert(flush_out(old(self).cur_v(b).text) =~= Seq::<TokenV>::empty());
                assert(self.tokens@ =~= old(self).tokens@ + seq![
                    SpanTokens::Error(err),
                    pt,
                    SpanTokens::Eof,
                ]);
                assert(self.queue_v(b) =~= old(self).queue_v(b) + seq![
                    TokenV::Error(err),
                    partial_v(old(self).cur_v(b)),
                    TokenV::Eof,
                ]);
            }
            assert(self.history@ =~= old(self).hist() + flush_out(old(self).cur_v(b).text) + seq![
                TokenV::Error(err),
                partial_v(old(self).cur_v(b)),
                TokenV::Eof,
            ]);
            assert(self.history@ =~= self.popped@ + self.queue_v(b));
            assert(self.cur_v(b) =~= empty_inflight()) by {
                assert(self.text.bytes(b) =~= Seq::<u8>::empty());
            }
        }
    }
}

} // verus!
