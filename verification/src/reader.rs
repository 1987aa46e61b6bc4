//! The reader capability: peek one byte, consume, fast-scan to a needle set,
//! match a keyword, and expose stable backing bytes for span materialization.
//!
//! Two implementations share the same contracts: `SliceReader` backs spans
//! directly by the input slice; `BuffReader` backs them by an owned scratch
//! buffer that mirrors the bytes the machine has examined.

use vstd::prelude::*;
use vstd::slice::slice_subrange;
use vstd::string::StringSliceAdditionalSpecFns;

verus! {

/// The outcome of a fast scan.
#[derive(Debug, PartialEq, Eq, Structural)]
pub enum FastRead {
    /// The cursor was on a needle byte; that byte, now consumed.
    Char(u8),
    /// A non-empty run of non-needle bytes was consumed; the range of the
    /// backing bytes that holds it.
    InterNeedle(usize, usize),
    /// The cursor was already at the end of the input.
    EOF,
}

/// The lowercased form of an ASCII byte; other bytes are unchanged.
pub open spec fn lower(b: u8) -> u8 {
    if 65 <= b && b <= 90 {
        (b + 32) as u8
    } else {
        b
    }
}

pub open spec fn seq_lower(s: Seq<u8>) -> Seq<u8> {
    s.map_values(|b: u8| lower(b))
}

/// The byte the reader's peek yields: the byte at the cursor, or `None` at
/// the end of the input.
pub open spec fn peek_spec(input: Seq<u8>, pos: int) -> Option<u8> {
    if pos < input.len() {
        Some(input[pos])
    } else {
        None
    }
}

/// Whether the keyword `n` matches the input at `pos`, comparing bytes
/// exactly or under ASCII lowercasing.
pub open spec fn try_match_spec(input: Seq<u8>, pos: int, n: Seq<u8>, case_sensitive: bool) -> bool {
    &&& pos + n.len() <= input.len()
    &&& if case_sensitive {
        input.subrange(pos, pos + n.len()) == n
    } else {
        seq_lower(input.subrange(pos, pos + n.len())) == seq_lower(n)
    }
}

fn ascii_lower(b: u8) -> (r: u8)
    ensures
        r == lower(b),
{
    if b >= 65 && b <= 90 {
        b + 32
    } else {
        b
    }
}

/// The ASCII-lowercased form of a byte.
pub fn ascii_lower_pub(b: u8) -> (r: u8)
    ensures
        r == lower(b),
{
    ascii_lower(b)
}

fn slice_contains_byte(s: &[u8], b: u8) -> (r: bool)
    ensures
        r == s@.contains(b),
{
    let mut i: usize = 0;
    while i < s.len()
        invariant
            i <= s@.len(),
            forall|j: int| 0 <= j < i ==> s@[j] != b,
        decreases s@.len() - i,
    {
        if s[i] == b {
            return true;
        }
        i = i + 1;
    }
    false
}

/// Relies on `jetscii::Bytes::find`: returns the index of the first byte of
/// the haystack that belongs to the needle set, or `None` when no haystack
/// byte is in the set. The fallback closure searches the same set.
#[verifier::external_body]
fn fast_find(needle: &[u8], haystack: &[u8]) -> (r: Option<usize>)
    requires
        1 <= needle@.len() <= 16,
    ensures
        match r {
            Some(i) => i < haystack@.len() && needle@.contains(haystack@[i as int]) && forall|
                j: int,
            | 0 <= j < i ==> !needle@.contains(haystack@[j]),
            None => forall|j: int| 0 <= j < haystack@.len() ==> !needle@.contains(haystack@[j]),
        },
{
    let mut arr = [0u8; 16];
    arr[..needle.len()].copy_from_slice(needle);
    jetscii::Bytes::new(arr, needle.len() as i32, |b| slice_contains_byte(needle, b)).find(haystack)
}

/// The reader capability the state machine drives.
///
/// `input()` is the whole input; `pos()` the cursor; `backing()` the stable
/// bytes that span ranges index into. Every method's result is fixed by
/// `input()` and `pos()` alone, so the tokens the machine emits do not
/// depend on which reader supplies the bytes.
pub trait Reader: Sized {
    spec fn input(&self) -> Seq<u8>;

    spec fn pos(&self) -> int;

    spec fn backing(&self) -> Seq<u8>;

    spec fn wf(&self) -> bool;

    /// Well-formedness keeps the cursor inside the input.
    proof fn wf_facts(&self)
        requires
            self.wf(),
        ensures
            0 <= self.pos() <= self.input().len(),
    ;

    /// The byte at the cursor, without advancing; `None` at clean EOF.
    fn peek_byte(&self) -> (r: Option<u8>)
        requires
            self.wf(),
        ensures
            r == peek_spec(self.input(), self.pos()),
    ;

    /// Advance the cursor by `amount` bytes.
    fn consume_bytes(&mut self, amount: usize)
        requires
            old(self).wf(),
            old(self).pos() + amount <= old(self).input().len(),
        ensures
            final(self).wf(),
            final(self).input() == old(self).input(),
            final(self).backing() == old(self).backing(),
            final(self).pos() == old(self).pos() + amount,
    ;

    /// The current length of the backing bytes.
    fn backing_len(&self) -> (r: usize)
        requires
            self.wf(),
        ensures
            r == self.backing().len(),
    ;

    /// A stable view of the backing bytes in `[start, end)`.
    fn slice_bytes(&self, start: usize, end: usize) -> (r: &[u8])
        requires
            self.wf(),
            start <= end,
            end <= self.backing().len(),
        ensures
            r@ == self.backing().subrange(start as int, end as int),
    ;

    /// Make the byte under the cursor addressable in the backing bytes,
    /// without consuming it, and return its backing index.
    fn append_curr_char(&mut self) -> (i: usize)
        requires
            old(self).wf(),
            old(self).pos() < old(self).input().len(),
        ensures
            final(self).wf(),
            final(self).input() == old(self).input(),
            final(self).pos() == old(self).pos(),
            old(self).backing().len() <= final(self).backing().len(),
            final(self).backing().subrange(0, old(self).backing().len() as int) == old(
                self,
            ).backing(),
            i < final(self).backing().len(),
            final(self).backing()[i as int] == old(self).input()[old(self).pos()],
    ;

    /// If the bytes at the cursor match the keyword (exactly, or under ASCII
    /// lowercasing), consume them and return true; otherwise do not advance.
    fn try_read_slice(&mut self, needle: &[u8], case_sensitive: bool) -> (r: bool)
        requires
            old(self).wf(),
        ensures
            final(self).wf(),
            final(self).input() == old(self).input(),
            final(self).backing() == old(self).backing(),
            r == try_match_spec(old(self).input(), old(self).pos(), needle@, case_sensitive),
            final(self).pos() == if r {
                old(self).pos() + needle@.len()
            } else {
                old(self).pos()
            },
    ;

    /// Like `try_read_slice` with exact byte comparison.
    fn try_read_slice_exact(&mut self, needle: &[u8]) -> (r: bool)
        requires
            old(self).wf(),
        ensures
            final(self).wf(),
            final(self).input() == old(self).input(),
            final(self).backing() == old(self).backing(),
            r == try_match_spec(old(self).input(), old(self).pos(), needle@, true),
            final(self).pos() == if r {
                old(self).pos() + needle@.len()
            } else {
                old(self).pos()
            },
    ;

    /// Consume the remainder of the input, making it addressable in the
    /// backing bytes; `None` when the cursor is already at the end.
    fn read_to_end(&mut self) -> (r: Option<(usize, usize)>)
        requires
            old(self).wf(),
        ensures
            final(self).wf(),
            final(self).input() == old(self).input(),
            old(self).backing().len() <= final(self).backing().len(),
            final(self).backing().subrange(0, old(self).backing().len() as int) == old(
                self,
            ).backing(),
            match r {
                Some((s, e)) => {
                    &&& s <= e
                    &&& e <= final(self).backing().len()
                    &&& e - s >= 1
                    &&& old(self).pos() < old(self).input().len()
                    &&& final(self).pos() == old(self).input().len()
                    &&& e - s == old(self).input().len() - old(self).pos()
                    &&& final(self).backing().subrange(s as int, e as int) == old(
                        self,
                    ).input().subrange(old(self).pos(), old(self).input().len() as int)
                },
                None => {
                    &&& old(self).pos() == old(self).input().len()
                    &&& final(self).pos() == old(self).pos()
                    &&& final(self).backing() == old(self).backing()
                },
            },
    ;

    /// Scan forward from the cursor until the first needle byte.
    ///
    /// `Char(c)`: the cursor was on needle byte `c`, which is consumed.
    /// `InterNeedle(s, e)`: a non-empty run of non-needle bytes was consumed
    /// and is addressable as backing range `[s, e)`; the cursor stops on the
    /// next needle byte. `EOF`: no needle byte remains before the end of the
    /// input; the cursor does not move.
    fn read_fast_until(&mut self, needle: &[u8]) -> (r: FastRead)
        requires
            old(self).wf(),
            1 <= needle@.len() <= 16,
        ensures
            final(self).wf(),
            final(self).input() == old(self).input(),
            old(self).backing().len() <= final(self).backing().len(),
            final(self).backing().subrange(0, old(self).backing().len() as int) == old(
                self,
            ).backing(),
            match r {
                FastRead::Char(c) => {
                    &&& old(self).pos() < old(self).input().len()
                    &&& old(self).input()[old(self).pos()] == c
                    &&& needle@.contains(c)
                    &&& final(self).pos() == old(self).pos() + 1
                    &&& final(self).backing() == old(self).backing()
                },
                FastRead::InterNeedle(s, e) => {
                    &&& s <= e
                    &&& e <= final(self).backing().len()
                    &&& e - s >= 1
                    &&& final(self).pos() == old(self).pos() + (e - s)
                    &&& final(self).pos() < old(self).input().len()
                    &&& final(self).backing().subrange(s as int, e as int) == old(
                        self,
                    ).input().subrange(old(self).pos(), final(self).pos())
                    &&& (forall|j: int|
                        old(self).pos() <= j < final(self).pos() ==> !needle@.contains(
                            #[trigger] old(self).input()[j],
                        ))
                    &&& needle@.contains(old(self).input()[final(self).pos()])
                },
                FastRead::EOF => {
                    &&& (forall|j: int|
                        old(self).pos() <= j < old(self).input().len() ==> !needle@.contains(
                            #[trigger] old(self).input()[j],
                        ))
                    &&& final(self).pos() == old(self).pos()
                    &&& final(self).backing() == old(self).backing()
                },
            },
    ;
}

/// A reader over a borrowed byte slice: spans index directly into the input.
pub struct SliceReader<'a> {
    pub slice: &'a [u8],
    pub pos: usize,
}

impl<'a> SliceReader<'a> {
    /// A reader over the bytes of `input`, cursor at the start.
    pub fn from_str(input: &'a str) -> (r: SliceReader<'a>)
        ensures
            r.wf(),
            r.input() == input.spec_bytes(),
            r.pos() == 0,
            r.backing() == input.spec_bytes(),
    {
        SliceReader { slice: input.as_bytes(), pos: 0 }
    }

    /// A reader over the given bytes, cursor at the start.
    pub fn from_bytes(input: &'a [u8]) -> (r: SliceReader<'a>)
        ensures
            r.wf(),
            r.input() == input@,
            r.pos() == 0,
            r.backing() == input@,
    {
        SliceReader { slice: input, pos: 0 }
    }
}

impl<'a> Reader for SliceReader<'a> {
    open spec fn input(&self) -> Seq<u8> {
        self.slice@
    }

    open spec fn pos(&self) -> int {
        self.pos as int
    }

    open spec fn backing(&self) -> Seq<u8> {
        self.slice@
    }

    open spec fn wf(&self) -> bool {
        self.pos <= self.slice@.len()
    }

    proof fn wf_facts(&self) {
    }

    fn peek_byte(&self) -> (r: Option<u8>) {
        if self.pos < self.slice.len() {
            Some(self.slice[self.pos])
        } else {
            None
        }
    }

    fn consume_bytes(&mut self, amount: usize) {
        let total = self.slice.len();
        assert(self.pos + amount <= total);
        self.pos = self.pos + amount;
    }

    fn backing_len(&self) -> (r: usize) {
        self.slice.len()
    }

    fn slice_bytes(&self, start: usize, end: usize) -> (r: &[u8]) {
        slice_subrange(self.slice, start, end)
    }

    fn append_curr_char(&mut self) -> (i: usize) {
        self.pos
    }

    fn try_read_slice(&mut self, needle: &[u8], case_sensitive: bool) -> (r: bool) {
        if self.slice.len() - self.pos < needle.len() {
            return false;
        }
        let total = self.slice.len();
        assert(self.pos + needle@.len() <= total);
        let mut i: usize = 0;
        while i < needle.len()
            invariant
                total == self.slice@.len(),
                self.pos + needle@.len() <= total,
                i <= needle@.len(),
                forall|j: int|
                    0 <= j < i ==> lower(self.slice@[self.pos + j]) == lower(needle@[j]) || (
                    case_sensitive && self.slice@[self.pos + j] == needle@[j]),
                case_sensitive ==> forall|j: int| 0 <= j < i ==> self.slice@[self.pos + j]
                    == needle@[j],
                !case_sensitive ==> forall|j: int|
                    0 <= j < i ==> lower(self.slice@[self.pos + j]) == lower(needle@[j]),
            decreases needle@.len() - i,
        {
            assert(self.pos + i < total);
            let a = self.slice[self.pos + i];
            let b = needle[i];
            let ok = if case_sensitive {
                a == b
            } else {
                ascii_lower(a) == ascii_lower(b)
            };
            if !ok {
                proof {
                    let sub = self.slice@.subrange(
                        self.pos as int,
                        self.pos + needle@.len() as int,
                    );
                    assert(sub[i as int] == self.slice@[self.pos + i]);
                    if !case_sensitive {
                        assert(seq_lower(sub)[i as int] == lower(sub[i as int]));
                        assert(seq_lower(needle@)[i as int] == lower(needle@[i as int]));
                    }
                }
                return false;
            }
            i = i + 1;
        }
        proof {
            let sub = self.slice@.subrange(self.pos as int, self.pos + needle@.len() as int);
            if case_sensitive {
                assert(sub =~= needle@);
            } else {
                assert forall|j: int| 0 <= j < needle@.len() implies #[trigger] seq_lower(sub)[j]
                    == seq_lower(needle@)[j] by {
                    assert(sub[j] == self.slice@[self.pos + j]);
                }
                assert(seq_lower(sub) =~= seq_lower(needle@));
            }
        }
        self.pos = self.pos + needle.len();
        true
    }

    fn try_read_slice_exact(&mut self, needle: &[u8]) -> (r: bool) {
        self.try_read_slice(needle, true)
    }

    fn read_to_end(&mut self) -> (r: Option<(usize, usize)>) {
        if self.pos == self.slice.len() {
            return None;
        }
        let s = self.pos;
        self.pos = self.slice.len();
        Some((s, self.pos))
    }

    fn read_fast_until(&mut self, needle: &[u8]) -> (r: FastRead) {
        if self.pos == self.slice.len() {
            return FastRead::EOF;
        }
        let hay = slice_subrange(self.slice, self.pos, self.slice.len());
        match fast_find(needle, hay) {
            Some(0) => {
                let c = self.slice[self.pos];
                self.pos = self.pos + 1;
                FastRead::Char(c)
            }
            Some(i) => {
                let s = self.pos;
                self.pos = self.pos + i;
                proof {
                    assert forall|j: int| s <= j < self.pos implies !needle@.contains(
                        #[trigger] self.slice@[j],
                    ) by {
                        assert(hay@[j - s] == self.slice@[j]);
                    }
                    assert(needle@.contains(hay@[i as int]));
                    assert(self.slice@[self.pos as int] == hay@[i as int]);
                }
                FastRead::InterNeedle(s, self.pos)
            }
            None => {
                proof {
                    assert forall|j: int| self.pos <= j < self.slice@.len()
                        implies !needle@.contains(#[trigger] self.slice@[j]) by {
                        assert(hay@[j - self.pos] == self.slice@[j]);
                    }
                }
                FastRead::EOF
            }
        }
    }
}

/// A reader whose spans index into an owned scratch buffer mirroring the
/// bytes the machine has examined.
pub struct BuffReader {
    pub source: Vec<u8>,
    pub src_pos: usize,
    pub buffer: Vec<u8>,
}

impl BuffReader {
    /// A buffered reader over the bytes of `input`, cursor at the start,
    /// scratch buffer empty.
    pub fn from_str(input: &str) -> (r: BuffReader)
        ensures
            r.wf(),
            r.input() == input.spec_bytes(),
            r.pos() == 0,
            r.backing() == Seq::<u8>::empty(),
    {
        let mut v: Vec<u8> = Vec::new();
        let b = input.as_bytes();
        let mut i: usize = 0;
        while i < b.len()
            invariant
                i <= b@.len(),
                v@ == b@.subrange(0, i as int),
            decreases b@.len() - i,
        {
            v.push(b[i]);
            proof {
                assert(v@ =~= b@.subrange(0, i + 1 as int));
            }
            i = i + 1;
        }
        proof {
            assert(v@ =~= b@);
        }
        BuffReader { source: v, src_pos: 0, buffer: Vec::new() }
    }
}

impl Reader for BuffReader {
    open spec fn input(&self) -> Seq<u8> {
        self.source@
    }

    open spec fn pos(&self) -> int {
        self.src_pos as int
    }

    open spec fn backing(&self) -> Seq<u8> {
        self.buffer@
    }

    open spec fn wf(&self) -> bool {
        self.src_pos <= self.source@.len()
    }

    proof fn wf_facts(&self) {
    }

    fn peek_byte(&self) -> (r: Option<u8>) {
        if self.src_pos < self.source.len() {
            Some(self.source[self.src_pos])
        } else {
            None
        }
    }

    fn consume_bytes(&mut self, amount: usize) {
        let total = self.source.len();
        assert(self.src_pos + amount <= total);
        self.src_pos = self.src_pos + amount;
    }

    fn backing_len(&self) -> (r: usize) {
        self.buffer.len()
    }

    fn slice_bytes(&self, start: usize, end: usize) -> (r: &[u8]) {
        slice_subrange(self.buffer.as_slice(), start, end)
    }

    fn append_curr_char(&mut self) -> (i: usize) {
        self.buffer.push(self.source[self.src_pos]);
        proof {
            assert(self.buffer@.subrange(0, old(self).buffer@.len() as int) =~= old(
                self,
            ).buffer@);
        }
        self.buffer.len() - 1
    }

    fn try_read_slice(&mut self, needle: &[u8], case_sensitive: bool) -> (r: bool) {
        if self.source.len() - self.src_pos < needle.len() {
            return false;
        }
        let total = self.source.len();
        assert(self.src_pos + needle@.len() <= total);
        let mut i: usize = 0;
        while i < needle.len()
            invariant
                total == self.source@.len(),
                self.src_pos + needle@.len() <= total,
                i <= needle@.len(),
                case_sensitive ==> forall|j: int| 0 <= j < i ==> self.source@[self.src_pos + j]
                    == needle@[j],
                !case_sensitive ==> forall|j: int|
                    0 <= j < i ==> lower(self.source@[self.src_pos + j]) == lower(needle@[j]),
            decreases needle@.len() - i,
        {
            assert(self.src_pos + i < total);
            let a = self.source[self.src_pos + i];
            let b = needle[i];
            let ok = if case_sensitive {
                a == b
            } else {
                ascii_lower(a) == ascii_lower(b)
            };
            if !ok {
                proof {
                    let sub = self.source@.subrange(
                        self.src_pos as int,
                        self.src_pos + needle@.len() as int,
                    );
                    assert(sub[i as int] == self.source@[self.src_pos + i]);
                    if !case_sensitive {
                        assert(seq_lower(sub)[i as int] == lower(sub[i as int]));
                        assert(seq_lower(needle@)[i as int] == lower(needle@[i as int]));
                    }
                }
                return false;
            }
            i = i + 1;
        }
        proof {
            let sub = self.source@.subrange(
                self.src_pos as int,
                self.src_pos + needle@.len() as int,
            );
            if case_sensitive {
                assert(sub =~= needle@);
            } else {
                assert forall|j: int| 0 <= j < needle@.len() implies #[trigger] seq_lower(sub)[j]
                    == seq_lower(needle@)[j] by {
                    assert(sub[j] == self.source@[self.src_pos + j]);
                }
                assert(seq_lower(sub) =~= seq_lower(needle@));
            }
        }
        self.src_pos = self.src_pos + needle.len();
        true
    }

    fn try_read_slice_exact(&mut self, needle: &[u8]) -> (r: bool) {
        self.try_read_slice(needle, true)
    }

    fn read_to_end(&mut self) -> (r: Option<(usize, usize)>) {
        if self.src_pos == self.source.len() {
            return None;
        }
        let total = self.source.len();
        let s = self.buffer.len();
        let mut k: usize = 0;
        let n = total - self.src_pos;
        while k < n
            invariant
                self.src_pos == old(self).src_pos,
                self.source@ == old(self).source@,
                total == self.source@.len(),
                self.src_pos + n == total,
                k <= n,
                s == old(self).buffer@.len(),
                self.buffer@.len() == s + k,
                self.buffer@.subrange(0, s as int) == old(self).buffer@,
                self.buffer@.subrange(s as int, (s + k) as int) == self.source@.subrange(
                    self.src_pos as int,
                    self.src_pos + k as int,
                ),
            decreases n - k,
        {
            assert(self.src_pos + k < total);
            self.buffer.push(self.source[self.src_pos + k]);
            proof {
                assert(self.buffer@.subrange(0, s as int) =~= old(self).buffer@);
                assert(self.buffer@.subrange(s as int, (s + k + 1) as int) =~= self.source@.subrange(
                    self.src_pos as int,
                    self.src_pos + (k + 1) as int,
                ));
            }
            k = k + 1;
        }
        let e = self.buffer.len();
        assert(e == s + n);
        self.src_pos = total;
        Some((s, e))
    }

    fn read_fast_until(&mut self, needle: &[u8]) -> (r: FastRead) {
        if self.src_pos == self.source.len() {
            return FastRead::EOF;
        }
        let hay = slice_subrange(self.source.as_slice(), self.src_pos, self.source.len());
        match fast_find(needle, hay) {
            Some(0) => {
                let c = self.source[self.src_pos];
                self.src_pos = self.src_pos + 1;
                FastRead::Char(c)
            }
            Some(i) => {
                proof {
                    assert forall|j: int| self.src_pos <= j < self.src_pos + i
                        implies !needle@.contains(#[trigger] self.source@[j]) by {
                        assert(hay@[j - self.src_pos] == self.source@[j]);
                    }
                    assert(needle@.contains(hay@[i as int]));
                    assert(self.source@[self.src_pos + i] == hay@[i as int]);
                }
                self.copy_run(needle, i)
            }
            None => {
                proof {
                    assert forall|j: int| self.src_pos <= j < self.source@.len()
                        implies !needle@.contains(#[trigger] self.source@[j]) by {
                        assert(hay@[j - self.src_pos] == self.source@[j]);
                    }
                }
                FastRead::EOF
            }
        }
    }
}

impl BuffReader {
    /// Copy the next `n` bytes of the source into the scratch buffer and
    /// consume them; returns the scratch range that now holds them.
    fn copy_run(&mut self, needle: &[u8], n: usize) -> (r: FastRead)
        requires
            old(self).wf(),
            1 <= n,
            old(self).src_pos + n <= old(self).source@.len(),
            forall|j: int|
                old(self).src_pos <= j < old(self).src_pos + n ==> !needle@.contains(
                    #[trigger] old(self).source@[j],
                ),
            old(self).src_pos + n < old(self).source@.len(),
            needle@.contains(old(self).source@[old(self).src_pos + n]),
        ensures
            final(self).wf(),
            final(self).source@ == old(self).source@,
            old(self).buffer@.len() <= final(self).buffer@.len(),
            final(self).buffer@.subrange(0, old(self).buffer@.len() as int) == old(self).buffer@,
            match r {
                FastRead::InterNeedle(s, e) => {
                    &&& s <= e
                    &&& e <= final(self).buffer@.len()
                    &&& e - s >= 1
                    &&& final(self).src_pos == old(self).src_pos + (e - s)
                    &&& final(self).src_pos < old(self).source@.len()
                    &&& final(self).buffer@.subrange(s as int, e as int) == old(
                        self,
                    ).source@.subrange(old(self).src_pos as int, final(self).src_pos as int)
                    &&& (forall|j: int|
                        old(self).src_pos <= j < final(self).src_pos ==> !needle@.contains(
                            #[trigger] old(self).source@[j],
                        ))
                    &&& needle@.contains(old(self).source@[final(self).src_pos as int])
                },
                _ => false,
            },
    {
        let s = self.buffer.len();
        let total = self.source.len();
        assert(self.src_pos + n <= total);
        let mut k: usize = 0;
        while k < n
            invariant
                self.src_pos == old(self).src_pos,
                self.source@ == old(self).source@,
                total == self.source@.len(),
                self.src_pos + n <= total,
                k <= n,
                s == old(self).buffer@.len(),
                self.buffer@.len() == s + k,
                self.buffer@.subrange(0, s as int) == old(self).buffer@,
                self.buffer@.subrange(s as int, (s + k) as int) == self.source@.subrange(
                    self.src_pos as int,
                    self.src_pos + k as int,
                ),
            decreases n - k,
        {
            assert(self.src_pos + k < total);
            self.buffer.push(self.source[self.src_pos + k]);
            proof {
                assert(self.buffer@.subrange(0, s as int) =~= old(self).buffer@);
                assert(self.buffer@.subrange(s as int, (s + k + 1) as int) =~= self.source@.subrange(
                    self.src_pos as int,
                    self.src_pos + (k + 1) as int,
                ));
            }
            k = k + 1;
        }
        let e = self.buffer.len();
        assert(e == s + n);
        self.src_pos = self.src_pos + n;
        FastRead::InterNeedle(s, e)
    }
}

} // verus!
