//! The laws of the token stream, stated over the stream model that the
//! iterators' contracts guarantee (`stream_wf` holds of every stream an
//! iterator produces, and the stream equals the spec-level run of the
//! machine on the input bytes).

use vstd::prelude::*;
use vstd::seq_lib::*;

use crate::errors::is_truncation_error;
use crate::model::is_construct_token;
use crate::model::stream_wf;
use crate::model::TokenV;
use crate::tokenizer::run_spec;

verus! {

/// Law: no two consecutive `Text` tokens are ever emitted.
pub proof fn lemma_no_adjacent_text(s: Seq<TokenV>, i: int)
    requires
        stream_wf(s),
        0 <= i,
        i + 1 < s.len(),
    ensures
        !(s[i] is Text && s[i + 1] is Text),
{
}

/// Law: `Eof` is produced at most once, as the last token; no token follows
/// it.
pub proof fn lemma_eof_is_final(s: Seq<TokenV>, i: int, j: int)
    requires
        stream_wf(s),
        0 <= i < s.len(),
        0 <= j < s.len(),
        s[i] is Eof,
        s[j] is Eof,
    ensures
        i == s.len() - 1,
        i == j,
{
}

/// Law: every truncation error (end of input inside a construct) is followed
/// by exactly one partial construct token and then by `Eof`, which closes
/// the stream.
pub proof fn lemma_truncation_reports(s: Seq<TokenV>, i: int)
    requires
        stream_wf(s),
        0 <= i < s.len(),
        s[i] is Error,
        is_truncation_error(s[i]->Error_0),
    ensures
        i + 2 < s.len(),
        is_construct_token(s[i + 1]),
        s[i + 2] is Eof,
        i + 2 == s.len() - 1,
{
    assert(s[i + 2] is Eof);
}

/// Law: the token stream is a function of the input bytes alone. Both
/// readers are proved against the same transition function, so the stream an
/// iterator has produced after any number of steps is a prefix of the stream
/// produced after more steps on the same input — whichever reader supplied
/// the bytes.
pub proof fn lemma_stream_is_function_of_input(input: Seq<u8>, n1: nat, n2: nat)
    requires
        n1 <= n2,
    ensures
        run_spec(input, n1).1.is_prefix_of(run_spec(input, n2).1),
    decreases n2 - n1,
{
    if n1 == n2 {
        assert(run_spec(input, n1).1.is_prefix_of(run_spec(input, n2).1)) by {
            assert(run_spec(input, n1).1 =~= run_spec(input, n2).1.subrange(
                0,
                run_spec(input, n1).1.len() as int,
            ));
        }
    } else {
        lemma_stream_is_function_of_input(input, n1, (n2 - 1) as nat);
        let prev = run_spec(input, (n2 - 1) as nat);
        assert(run_spec(input, n2).1 == prev.1 + crate::machine::step_spec(input, prev.0).out);
        assert(run_spec(input, n1).1.is_prefix_of(run_spec(input, n2).1)) by {
            assert(run_spec(input, n1).1 =~= run_spec(input, n2).1.subrange(
                0,
                run_spec(input, n1).1.len() as int,
            ));
        }
    }
}

} // verus!
