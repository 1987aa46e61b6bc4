//! Mix spans: descriptors of byte sequences that either index into the
//! reader's stable backing bytes (zero-copy) or own their bytes (synthesized
//! fragments inserted by recovery paths).

use vstd::prelude::*;

verus! {

/// One element of a span: a range into the backing bytes, or owned bytes.
#[derive(Clone, Debug)]
pub enum Mix {
    Range(usize, usize),
    Owned(Vec<u8>),
}

impl Mix {
    /// True when this element borrows a range of the backing bytes rather
    /// than owning its bytes.
    pub fn is_borrowed(&self) -> (r: bool)
        ensures
            r <==> self is Range,
    {
        match self {
            Mix::Range(_, _) => true,
            Mix::Owned(_) => false,
        }
    }
}

/// The bytes that one mix element stands for, given the backing bytes.
pub open spec fn mix_bytes(b: Seq<u8>, m: Mix) -> Seq<u8> {
    match m {
        Mix::Range(s, e) => b.subrange(s as int, e as int),
        Mix::Owned(v) => v@,
    }
}

/// A mix element is well formed for a backing of length `blen` when any
/// range it holds lies inside the backing.
pub open spec fn mix_wf(m: Mix, blen: int) -> bool {
    match m {
        Mix::Range(s, e) => s <= e && e <= blen,
        Mix::Owned(_) => true,
    }
}

/// The bytes a list of mix elements stands for: the concatenation of the
/// bytes of each element, in order.
pub open spec fn spans_data_bytes(b: Seq<u8>, d: Seq<Mix>) -> Seq<u8>
    decreases d.len(),
{
    if d.len() == 0 {
        Seq::empty()
    } else {
        spans_data_bytes(b, d.drop_last()) + mix_bytes(b, d.last())
    }
}

pub open spec fn spans_data_wf(d: Seq<Mix>, blen: int) -> bool {
    forall|i: int| 0 <= i < d.len() ==> mix_wf(#[trigger] d[i], blen)
}

/// The effect of `Spans::add_span`: extend the last range when the new range
/// is exactly contiguous with it, otherwise append a new range element.
pub open spec fn merge_span(d: Seq<Mix>, start: usize, end: usize) -> Seq<Mix> {
    if d.len() > 0 && d.last() is Range && d.last()->Range_1 == start {
        d.update(d.len() - 1, Mix::Range(d.last()->Range_0, end))
    } else {
        d.push(Mix::Range(start, end))
    }
}

/// A span: an ordered list of mix elements.
#[derive(Clone, Debug)]
pub struct Spans {
    pub data: Vec<Mix>,
}

impl Spans {
    /// The bytes this span stands for, given the backing bytes.
    pub open spec fn bytes(&self, b: Seq<u8>) -> Seq<u8> {
        spans_data_bytes(b, self.data@)
    }

    pub open spec fn wf(&self, blen: int) -> bool {
        spans_data_wf(self.data@, blen)
    }

    pub fn new() -> (r: Spans)
        ensures
            r.data@ == Seq::<Mix>::empty(),
    {
        Spans { data: Vec::new() }
    }

    /// The single contiguous range this span reduces to, when it consists of
    /// exactly one range element; `None` otherwise.
    pub fn to_range(&self) -> (r: Option<(usize, usize)>)
        ensures
            match r {
                Some((s, e)) => self.data@.len() == 1 && self.data@[0] == Mix::Range(s, e),
                None => !(self.data@.len() == 1 && self.data@[0] is Range),
            },
    {
        if self.data.len() == 1 {
            match &self.data[0] {
                Mix::Range(s, e) => Some((*s, *e)),
                Mix::Owned(_) => None,
            }
        } else {
            None
        }
    }

    /// Append the range `[start, end)` of the backing bytes to this span,
    /// merging it into the last element when exactly contiguous with it.
    pub fn add_span(&mut self, start: usize, end: usize)
        ensures
            final(self).data@ == merge_span(old(self).data@, start, end),
    {
        let n = self.data.len();
        if n > 0 {
            let last = self.data.pop().unwrap();
            match last {
                Mix::Range(a, c) => {
                    if c == start {
                        self.data.push(Mix::Range(a, end));
                        proof {
                            assert(self.data@ =~= merge_span(old(self).data@, start, end));
                        }
                    } else {
                        self.data.push(Mix::Range(a, c));
                        self.data.push(Mix::Range(start, end));
                        proof {
                            assert(self.data@ =~= merge_span(old(self).data@, start, end));
                        }
                    }
                }
                Mix::Owned(v) => {
                    self.data.push(Mix::Owned(v));
                    self.data.push(Mix::Range(start, end));
                    proof {
                        assert(self.data@ =~= merge_span(old(self).data@, start, end));
                    }
                }
            }
        } else {
            self.data.push(Mix::Range(start, end));
        }
    }

    /// Append owned bytes to this span as a synthesized fragment.
    pub fn add_owned(&mut self, bytes: Vec<u8>)
        ensures
            final(self).data@ == old(self).data@.push(Mix::Owned(bytes)),
    {
        self.data.push(Mix::Owned(bytes));
    }
}

/// Appending one element extends the materialized bytes by that element's
/// bytes.
pub proof fn lemma_spans_push(b: Seq<u8>, d: Seq<Mix>, m: Mix)
    ensures
        spans_data_bytes(b, d.push(m)) == spans_data_bytes(b, d) + mix_bytes(b, m),
{
    assert(d.push(m).drop_last() =~= d);
    assert(d.push(m).last() == m);
}

/// `merge_span` extends the materialized bytes by exactly the bytes of the
/// added range, and keeps the span well formed.
pub proof fn lemma_merge_span_bytes(b: Seq<u8>, d: Seq<Mix>, start: usize, end: usize)
    requires
        spans_data_wf(d, b.len() as int),
        start <= end,
        end <= b.len(),
    ensures
        spans_data_bytes(b, merge_span(d, start, end)) == spans_data_bytes(b, d) + b.subrange(
            start as int,
            end as int,
        ),
        spans_data_wf(merge_span(d, start, end), b.len() as int),
{
    if d.len() > 0 && d.last() is Range && d.last()->Range_1 == start {
        let a = d.last()->Range_0;
        let m2 = merge_span(d, start, end);
        assert(mix_wf(d[d.len() - 1], b.len() as int));
        assert(m2.drop_last() =~= d.drop_last());
        assert(m2.last() == Mix::Range(a, end));
        assert(b.subrange(a as int, end as int) =~= b.subrange(a as int, start as int)
            + b.subrange(start as int, end as int));
        assert(spans_data_bytes(b, m2) == spans_data_bytes(b, d.drop_last()) + b.subrange(
            a as int,
            end as int,
        ));
        assert(spans_data_bytes(b, m2) =~= spans_data_bytes(b, d) + b.subrange(
            start as int,
            end as int,
        ));
        assert forall|i: int| 0 <= i < m2.len() implies mix_wf(#[trigger] m2[i], b.len() as int) by {
            if i < m2.len() - 1 {
                assert(m2[i] == d[i]);
            }
        }
    } else {
        lemma_spans_push(b, d, Mix::Range(start, end));
        assert forall|i: int| 0 <= i < merge_span(d, start, end).len() implies mix_wf(
            #[trigger] merge_span(d, start, end)[i],
            b.len() as int,
        ) by {
            if i < d.len() {
                assert(merge_span(d, start, end)[i] == d[i]);
            }
        }
    }
}

/// Every element of the list stands for at least one byte.
pub open spec fn spans_data_nonempty(b: Seq<u8>, d: Seq<Mix>) -> bool {
    forall|i: int| 0 <= i < d.len() ==> mix_bytes(b, #[trigger] d[i]).len() > 0
}

/// `merge_span` keeps every element non-empty when the added range is.
pub proof fn lemma_merge_span_nonempty(b: Seq<u8>, d: Seq<Mix>, start: usize, end: usize)
    requires
        spans_data_nonempty(b, d),
        spans_data_wf(d, b.len() as int),
        start < end,
        end <= b.len(),
    ensures
        spans_data_nonempty(b, merge_span(d, start, end)),
{
    let m2 = merge_span(d, start, end);
    if d.len() > 0 && d.last() is Range && d.last()->Range_1 == start {
        assert(mix_wf(d[d.len() - 1], b.len() as int));
        assert forall|i: int| 0 <= i < m2.len() implies mix_bytes(b, #[trigger] m2[i]).len()
            > 0 by {
            if i < m2.len() - 1 {
                assert(m2[i] == d[i]);
            } else {
                assert(mix_bytes(b, d[d.len() - 1]).len() >= 0);
            }
        }
    } else {
        assert forall|i: int| 0 <= i < m2.len() implies mix_bytes(b, #[trigger] m2[i]).len()
            > 0 by {
            if i < d.len() {
                assert(m2[i] == d[i]);
            }
        }
    }
}

/// A non-empty list of non-empty elements stands for at least one byte.
pub proof fn lemma_spans_nonempty(b: Seq<u8>, d: Seq<Mix>)
    requires
        d.len() > 0,
        spans_data_nonempty(b, d),
    ensures
        spans_data_bytes(b, d).len() > 0,
{
    assert(mix_bytes(b, d[d.len() - 1]).len() > 0);
}

/// Build the byte sequence a span stands for, copying from the backing bytes.
pub fn materialize(sp: &Spans, backing: &[u8]) -> (r: Vec<u8>)
    requires
        sp.wf(backing@.len() as int),
    ensures
        r@ == sp.bytes(backing@),
{
    let mut out: Vec<u8> = Vec::new();
    let mut i: usize = 0;
    while i < sp.data.len()
        invariant
            sp.wf(backing@.len() as int),
            i <= sp.data@.len(),
            out@ == spans_data_bytes(backing@, sp.data@.subrange(0, i as int)),
        decreases sp.data@.len() - i,
    {
        proof {
            assert(mix_wf(sp.data@[i as int], backing@.len() as int));
        }
        match &sp.data[i] {
            Mix::Range(s, e) => {
                let mut j: usize = *s;
                while j < *e
                    invariant
                        sp.data@[i as int] == Mix::Range(*s, *e),
                        *s <= j <= *e,
                        *e <= backing@.len(),
                        out@ == spans_data_bytes(backing@, sp.data@.subrange(0, i as int))
                            + backing@.subrange(*s as int, j as int),
                    decreases *e - j,
                {
                    out.push(backing[j]);
                    proof {
                        assert(out@ =~= spans_data_bytes(backing@, sp.data@.subrange(0, i as int))
                            + backing@.subrange(*s as int, (j + 1) as int));
                    }
                    j = j + 1;
                }
            }
            Mix::Owned(v) => {
                let mut j: usize = 0;
                while j < v.len()
                    invariant
                        sp.data@[i as int] == Mix::Owned(*v),
                        j <= v@.len(),
                        out@ == spans_data_bytes(backing@, sp.data@.subrange(0, i as int))
                            + v@.subrange(0, j as int),
                    decreases v@.len() - j,
                {
                    out.push(v[j]);
                    proof {
                        assert(out@ =~= spans_data_bytes(backing@, sp.data@.subrange(0, i as int))
                            + v@.subrange(0, (j + 1) as int));
                    }
                    j = j + 1;
                }
            }
        }
        proof {
            assert(sp.data@.subrange(0, (i + 1) as int) =~= sp.data@.subrange(0, i as int).push(
                sp.data@[i as int],
            ));
            lemma_spans_push(backing@, sp.data@.subrange(0, i as int), sp.data@[i as int]);
            match sp.data@[i as int] {
                Mix::Range(s, e) => {
                    assert(backing@.subrange(s as int, e as int) =~= backing@.subrange(
                        s as int,
                        e as int,
                    ));
                }
                Mix::Owned(v) => {
                    assert(v@.subrange(0, v@.len() as int) =~= v@);
                }
            }
        }
        i = i + 1;
    }
    proof {
        assert(sp.data@.subrange(0, sp.data@.len() as int) =~= sp.data@);
    }
    out
}

/// Materialized bytes do not change when the backing is extended, as long as
/// the span was well formed for the shorter backing.
pub proof fn lemma_spans_bytes_prefix(b1: Seq<u8>, b2: Seq<u8>, d: Seq<Mix>)
    requires
        spans_data_wf(d, b1.len() as int),
        b1.len() <= b2.len(),
        b2.subrange(0, b1.len() as int) == b1,
    ensures
        spans_data_bytes(b2, d) == spans_data_bytes(b1, d),
        spans_data_wf(d, b2.len() as int),
    decreases d.len(),
{
    if d.len() > 0 {
        assert(spans_data_wf(d.drop_last(), b1.len() as int)) by {
            assert forall|i: int| 0 <= i < d.drop_last().len() implies mix_wf(
                #[trigger] d.drop_last()[i],
                b1.len() as int,
            ) by {
                assert(d.drop_last()[i] == d[i]);
            }
        }
        lemma_spans_bytes_prefix(b1, b2, d.drop_last());
        assert(mix_wf(d[d.len() - 1], b1.len() as int));
        match d.last() {
            Mix::Range(s, e) => {
                assert(b2.subrange(s as int, e as int) =~= b1.subrange(s as int, e as int));
            }
            Mix::Owned(_) => {}
        }
    }
}

} // verus!
