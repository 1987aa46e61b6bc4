//! The iterator façade: owns the machine, a reader and the emitter, and
//! yields tokens on demand.
//!
//! `run_spec` is the spec-level run of the machine: the configuration and
//! the cumulative token stream after a number of steps. Each iterator keeps
//! the invariant that its configuration and emitted stream equal `run_spec`
//! of its input at some step count, so the token stream is a function of the
//! input bytes alone — feeding the same bytes through the slice reader and
//! through the buffered reader yields the same stream.

use vstd::prelude::*;
use vstd::string::StringSliceAdditionalSpecFns;

use crate::emitter::span_token_v;
use crate::emitter::st_wf;
use crate::emitter::DefaultEmitter;
use crate::emitter::SpanTokens;
use crate::errors::Xml5Error;
use crate::events::attrs_v;
use crate::events::Token;
use crate::machine::empty_mstate;
use crate::machine::machine_inv;
use crate::machine::state_rank;
use crate::machine::step_pre;
use crate::machine::step_spec;
use crate::machine::Control;
use crate::machine::MState;
use crate::machine::Tokenizer;
use crate::machine::TokenState;
use crate::model::stream_wf;
use crate::model::TokenV;
use crate::reader::BuffReader;
use crate::reader::Reader;
use crate::reader::SliceReader;
use crate::spans::materialize;
use crate::spans::Spans;

verus! {

/// The configuration and cumulative token stream after `n` machine steps on
/// the given input.
pub open spec fn run_spec(input: Seq<u8>, n: nat) -> (MState, Seq<TokenV>)
    decreases n,
{
    if n == 0 {
        (empty_mstate(), Seq::empty())
    } else {
        let prev = run_spec(input, (n - 1) as nat);
        let sv = step_spec(input, prev.0);
        (sv.m, prev.1 + sv.out)
    }
}

/// The iterator's configuration and emitted stream equal the spec-level run
/// at step `n`.
pub open spec fn iter_matches<R: Reader>(
    t: Tokenizer,
    r: R,
    e: DefaultEmitter,
    n: nat,
) -> bool {
    run_spec(r.input(), n) == (
        MState { state: t.state, pos: r.pos(), cur: e.cur_v(r.backing()), done: t.eof },
        e.hist(),
    )
}

/// The iterator invariant: machine, reader and emitter are coupled, and the
/// whole configuration is a point of the spec-level run.
pub open spec fn iter_wf<R: Reader>(t: Tokenizer, r: R, e: DefaultEmitter) -> bool {
    &&& machine_inv(t, r, e)
    &&& exists|n: nat| #[trigger] iter_matches(t, r, e, n)
}

/// Materialize one queued token against the reader's backing bytes.
fn materialize_token<R: Reader>(r: &R, st: SpanTokens) -> (t: Token)
    requires
        r.wf(),
        st_wf(st, r.backing().len() as int),
    ensures
        t@ == span_token_v(r.backing(), st),
{
    let bl = r.backing_len();
    let bs = r.slice_bytes(0, bl);
    proof {
        assert(bs@ =~= r.backing());
    }
    match st {
        SpanTokens::Text(sp) => Token::text(materialize(&sp, bs)),
        SpanTokens::CData(sp) => Token::cdata(materialize(&sp, bs)),
        SpanTokens::Decl(sp) => Token::declaration(materialize(&sp, bs)),
        SpanTokens::Comment(sp) => Token::comment(materialize(&sp, bs)),
        SpanTokens::EndTag(Some(sp)) => Token::end_tag(materialize(&sp, bs)),
        SpanTokens::EndTag(None) => Token::auto_close_tag(),
        SpanTokens::PiData { target, data } => Token::pi_tag(
            materialize(&data, bs),
            materialize(&target, bs),
        ),
        SpanTokens::StartTag { self_close, name, attrs } => {
            let n = materialize(&name, bs);
            let mut out_attrs: Vec<(Vec<u8>, Vec<u8>)> = Vec::new();
            let mut i: usize = 0;
            while i < attrs.len()
                invariant
                    r.wf(),
                    bs@ == r.backing(),
                    crate::emitter::attrs_wf(attrs@, r.backing().len() as int),
                    i <= attrs@.len(),
                    out_attrs@.len() == i,
                    attrs_v(out_attrs@) == crate::emitter::attrs_bytes(
                        r.backing(),
                        attrs@.subrange(0, i as int),
                    ),
                decreases attrs@.len() - i,
            {
                let an = materialize(&attrs[i].0, bs);
                let av = materialize(&attrs[i].1, bs);
                let ghost prev = out_attrs@;
                out_attrs.push((an, av));
                proof {
                    assert(attrs@.subrange(0, (i + 1) as int) =~= attrs@.subrange(
                        0,
                        i as int,
                    ).push(attrs@[i as int]));
                    assert forall|j: int| 0 <= j < out_attrs@.len() implies attrs_v(out_attrs@)[j]
                        == #[trigger] crate::emitter::attrs_bytes(
                        r.backing(),
                        attrs@.subrange(0, (i + 1) as int),
                    )[j] by {
                        if j < i {
                            assert(out_attrs@[j] == prev[j]);
                            assert(attrs_v(prev)[j] == crate::emitter::attrs_bytes(
                                r.backing(),
                                attrs@.subrange(0, i as int),
                            )[j]);
                            assert(attrs@.subrange(0, (i + 1) as int)[j] == attrs@.subrange(
                                0,
                                i as int,
                            )[j]);
                        } else {
                            assert(out_attrs@[j] == (an, av));
                            assert(attrs@.subrange(0, (i + 1) as int)[j] == attrs@[i as int]);
                        }
                    }
                    assert(attrs_v(out_attrs@) =~= crate::emitter::attrs_bytes(
                        r.backing(),
                        attrs@.subrange(0, (i + 1) as int),
                    ));
                }
                i = i + 1;
            }
            proof {
                assert(attrs@.subrange(0, attrs@.len() as int) =~= attrs@);
            }
            let t = if self_close {
                Token::empty_tag(n, out_attrs)
            } else {
                Token::start_tag(n, out_attrs)
            };
            proof {
                assert(t@ =~= span_token_v(r.backing(), st));
            }
            t
        }
        SpanTokens::DocType { name, public_id, system_id } => {
            let n = materialize(&name, bs);
            let pid = match public_id {
                Some(sp) => Some(materialize(&sp, bs)),
                None => None,
            };
            let sid = match system_id {
                Some(sp) => Some(materialize(&sp, bs)),
                None => None,
            };
            let t = Token::DocType(crate::events::DocTypeText {
                name: n,
                public_id: pid,
                system_id: sid,
            });
            proof {
                assert(t@ =~= span_token_v(r.backing(), st));
            }
            t
        }
        SpanTokens::Error(err) => Token::error(err),
        SpanTokens::Eof => Token::Eof,
    }
}

/// Drive the machine one step, keeping the iterator invariant; the step
/// either ends the stream, consumes input, or strictly lowers the state
/// rank, so the pull loop terminates.
#[verifier::rlimit(100)]
#[verifier::spinoff_prover]
fn drive_once<R: Reader>(t: &mut Tokenizer, r: &mut R, e: &mut DefaultEmitter)
    requires
        iter_wf(*old(t), *old(r), *old(e)),
        !old(t).eof,
    ensures
        iter_wf(*final(t), *final(r), *final(e)),
        final(r).input() == old(r).input(),
        final(e).popped_v() == old(e).popped_v(),
        old(r).pos() <= final(r).pos() <= final(r).input().len(),
        final(t).eof || final(r).pos() > old(r).pos() || state_rank(final(t).state) < state_rank(
            old(t).state,
        ),
{
    let ghost n0 = choose|n: nat| iter_matches(*t, *r, *e, n);
    proof {
        r.wf_facts();
        assert(iter_matches(*t, *r, *e, n0));
        crate::machine::lemma_step_progress(
            r.input(),
            MState { state: t.state, pos: r.pos(), cur: e.cur_v(r.backing()), done: t.eof },
        );
    }
    let _ = t.next_state(r, e);
    proof {
        assert(iter_matches(*t, *r, *e, n0 + 1)) by {
            assert(run_spec(r.input(), n0 + 1).0 == step_spec(
                r.input(),
                run_spec(r.input(), n0).0,
            ).m);
        }
    }
}

/// Pop and materialize the oldest queued token, if any. When the FIFO is
/// empty, the history equals the tokens already delivered.
#[verifier::rlimit(100)]
#[verifier::spinoff_prover]
fn pop_step<R: Reader>(t: &Tokenizer, r: &R, e: &mut DefaultEmitter) -> (tok: Option<Token>)
    requires
        iter_wf(*t, *r, *old(e)),
    ensures
        iter_wf(*t, *r, *final(e)),
        final(e).hist() == old(e).hist(),
        match tok {
            Some(tk) => {
                &&& final(e).popped_v() == old(e).popped_v().push(tk@)
                &&& old(e).popped_v().len() < final(e).hist().len()
                &&& tk@ == final(e).hist()[old(e).popped_v().len() as int]
            },
            None => {
                &&& final(e).popped_v() == old(e).popped_v()
                &&& final(e).popped_v() == final(e).hist()
            },
        },
{
    proof {
        r.wf_facts();
    }
    let ghost n0 = choose|n: nat| iter_matches(*t, *r, *old(e), n);
    let popped = e.pop_token(Ghost(r.backing()));
    proof {
        assert(iter_matches(*t, *r, *e, n0));
    }
    match popped {
        Some(st) => {
            let tk = materialize_token(r, st);
            proof {
                assert(e.hist() == e.popped_v() + e.queue_v(r.backing()));
                assert(e.hist()[old(e).popped_v().len() as int] == tk@);
            }
            Some(tk)
        }
        None => {
            proof {
                assert(e.hist() =~= e.popped_v());
            }
            None
        }
    }
}

/// Pull the next token: drain the FIFO, else drive the machine until it
/// queues one; `None` after `Eof` has been delivered.
#[verifier::rlimit(100)]
#[verifier::spinoff_prover]
fn next_token<R: Reader>(t: &mut Tokenizer, r: &mut R, e: &mut DefaultEmitter) -> (tok: Option<
    Token,
>)
    requires
        iter_wf(*old(t), *old(r), *old(e)),
    ensures
        iter_wf(*final(t), *final(r), *final(e)),
        final(r).input() == old(r).input(),
        stream_wf(final(e).hist()),
        match tok {
            Some(tk) => {
                &&& final(e).popped_v() == old(e).popped_v().push(tk@)
                &&& old(e).popped_v().len() < final(e).hist().len()
                &&& tk@ == final(e).hist()[old(e).popped_v().len() as int]
            },
            None => {
                &&& final(t).eof
                &&& final(e).popped_v() == old(e).popped_v()
                &&& final(e).popped_v() == final(e).hist()
            },
        },
{
    loop
        invariant
            iter_wf(*t, *r, *e),
            r.input() == old(r).input(),
            e.popped_v() == old(e).popped_v(),
        decreases
                r.input().len() - r.pos() + 1,
                (if t.eof {
                    0int
                } else {
                    1int
                }),
                state_rank(t.state),
    {
        proof {
            r.wf_facts();
        }
        let popped = pop_step(t, r, e);
        match popped {
            Some(tk) => {
                return Some(tk);
            }
            None => {
                if t.eof {
                    return None;
                }
                drive_once(t, r, e);
            }
        }
    }
}

/// A pull iterator over the tokens of a borrowed byte slice.
pub struct SliceIterator<'a> {
    pub state: Tokenizer,
    pub reader: SliceReader<'a>,
    pub emitter: DefaultEmitter,
}

impl<'a> SliceIterator<'a> {
    pub open spec fn wf(&self) -> bool {
        iter_wf(self.state, self.reader, self.emitter)
    }

    /// The whole token stream the machine has produced so far.
    pub open spec fn stream(&self) -> Seq<TokenV> {
        self.emitter.hist()
    }

    /// The tokens already handed out.
    pub open spec fn delivered(&self) -> Seq<TokenV> {
        self.emitter.popped_v()
    }

    /// The next token of the stream; `None` once `Eof` has been delivered.
    ///
    /// The stream this method yields is exactly the materialization of the
    /// spec-level run of the machine on the input bytes: well formed (one
    /// final `Eof`, no adjacent text tokens, truncations reported as error,
    /// partial token, `Eof`), and independent of the reader.
    pub fn next(&mut self) -> (tok: Option<Token>)
        requires
            old(self).wf(),
        ensures
            final(self).wf(),
            final(self).reader.input() == old(self).reader.input(),
            stream_wf(final(self).stream()),
            match tok {
                Some(tk) => {
                    &&& final(self).delivered() == old(self).delivered().push(tk@)
                    &&& old(self).delivered().len() < final(self).stream().len()
                    &&& tk@ == final(self).stream()[old(self).delivered().len() as int]
                },
                None => {
                    &&& final(self).state.eof
                    &&& final(self).delivered() == old(self).delivered()
                    &&& final(self).delivered() == final(self).stream()
                },
            },
    {
        next_token(&mut self.state, &mut self.reader, &mut self.emitter)
    }
}

/// A pull iterator whose spans are backed by an owned scratch buffer.
pub struct BufIterator {
    pub state: Tokenizer,
    pub reader: BuffReader,
    pub emitter: DefaultEmitter,
}

impl BufIterator {
    pub open spec fn wf(&self) -> bool {
        iter_wf(self.state, self.reader, self.emitter)
    }

    pub open spec fn stream(&self) -> Seq<TokenV> {
        self.emitter.hist()
    }

    pub open spec fn delivered(&self) -> Seq<TokenV> {
        self.emitter.popped_v()
    }

    /// The next token of the stream; `None` once `Eof` has been delivered.
    /// Same contract as the slice iterator: the stream is the one spec-level
    /// run of the machine on the input bytes.
    pub fn next(&mut self) -> (tok: Option<Token>)
        requires
            old(self).wf(),
        ensures
            final(self).wf(),
            final(self).reader.input() == old(self).reader.input(),
            stream_wf(final(self).stream()),
            match tok {
                Some(tk) => {
                    &&& final(self).delivered() == old(self).delivered().push(tk@)
                    &&& old(self).delivered().len() < final(self).stream().len()
                    &&& tk@ == final(self).stream()[old(self).delivered().len() as int]
                },
                None => {
                    &&& final(self).state.eof
                    &&& final(self).delivered() == old(self).delivered()
                    &&& final(self).delivered() == final(self).stream()
                },
            },
    {
        next_token(&mut self.state, &mut self.reader, &mut self.emitter)
    }
}

impl Tokenizer {
    /// A token iterator over the bytes of `input`, borrowing them as the
    /// backing store (zero-copy spans).
    #[verifier::rlimit(100)]
    #[verifier::spinoff_prover]
    pub fn from_str_reader<'a>(self, input: &'a str) -> (it: SliceIterator<'a>)
        ensures
            it.wf(),
            it.reader.input() == input.spec_bytes(),
            it.stream() == Seq::<TokenV>::empty(),
            it.delivered() == Seq::<TokenV>::empty(),
    {
        let reader = SliceReader::from_str(input);
        let emitter = DefaultEmitter::new();
        let state = Tokenizer {
            state: TokenState::Data,
            eof: false,
            encoding: self.encoding,
            is_encoding_set: self.is_encoding_set,
        };
        let it = SliceIterator { state, reader, emitter };
        proof {
            assert(iter_matches(it.state, it.reader, it.emitter, 0nat)) by {
                assert(it.emitter.cur_v(it.reader.backing()) == crate::model::empty_inflight());
            }
        }
        it
    }

    /// A token iterator over the bytes of `input`, mirroring examined bytes
    /// into an owned scratch buffer that backs the spans.
    #[verifier::rlimit(100)]
    #[verifier::spinoff_prover]
    pub fn from_reader(self, input: &str) -> (it: BufIterator)
        ensures
            it.wf(),
            it.reader.input() == input.spec_bytes(),
            it.stream() == Seq::<TokenV>::empty(),
            it.delivered() == Seq::<TokenV>::empty(),
    {
        let reader = BuffReader::from_str(input);
        let emitter = DefaultEmitter::new();
        let state = Tokenizer {
            state: TokenState::Data,
            eof: false,
            encoding: self.encoding,
            is_encoding_set: self.is_encoding_set,
        };
        let it = BufIterator { state, reader, emitter };
        proof {
            assert(iter_matches(it.state, it.reader, it.emitter, 0nat)) by {
                assert(it.emitter.cur_v(it.reader.backing()) == crate::model::empty_inflight());
            }
        }
        it
    }
}

} // verus!
