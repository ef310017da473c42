//! The samples between the decoder and the output device.
//!
//! A sample is a 32-bit floating-point number. It is passed on as the bits that make it up, and
//! silence is the number with no bit set.
use crate::bytes;
use std::collections::VecDeque;
use vstd::prelude::*;

verus! {

/// How many samples may wait: 150 ms of stereo at 48 kHz. More would let the sound fall behind
/// the picture.
pub const MAX_QUEUED_SAMPLES: usize = 14_400;

/// The samples in `b`, low bytes first, without what is left over.
pub open spec fn samples_in(b: Seq<u8>) -> Seq<u32> {
    Seq::new(b.len() / 4, |i: int| bytes::le32(b, 4 * i))
}

/// The bytes at the end of `b` that do not make up a sample.
pub open spec fn rest_of(b: Seq<u8>) -> Seq<u8> {
    b.skip(b.len() - b.len() % 4)
}

/// Cuts a stream of bytes, which comes in pieces of any length, into samples.
pub struct SampleReader {
    /// The bytes that do not make up a sample yet.
    rest: Vec<u8>,
}

impl View for SampleReader {
    type V = Seq<u8>;

    closed spec fn view(&self) -> Seq<u8> {
        self.rest@
    }
}

impl SampleReader {
    /// No bytes yet.
    pub fn new() -> (r: SampleReader)
        ensures
            r@ == Seq::<u8>::empty(),
    {
        SampleReader { rest: Vec::new() }
    }

    /// Takes a piece. Gives the samples that are complete with it.
    pub fn read(&mut self, piece: &[u8]) -> (r: Vec<u32>)
        ensures
            r@ == samples_in(old(self)@ + piece@),
            final(self)@ == rest_of(old(self)@ + piece@),
    {
        let ghost all = self.rest@ + piece@;
        self.rest.extend_from_slice(piece);
        let len: usize = self.rest.len();
        let n: usize = len / 4;
        let mut out: Vec<u32> = Vec::new();
        let mut i: usize = 0;
        while i < n
            invariant
                all == self.rest@,
                len == all.len(),
                n == len / 4,
                i <= n,
                out@ == samples_in(all).take(i as int),
            decreases n - i,
        {
            let word: u32 = bytes::read_le32(self.rest.as_slice(), 4 * i);
            out.push(word);
            assert(samples_in(all).take(i + 1) =~= samples_in(all).take(i as int).push(word));
            i = i + 1;
        }
        assert(samples_in(all).take(n as int) =~= samples_in(all));
        let left = vstd::slice::slice_to_vec(
            vstd::slice::slice_subrange(self.rest.as_slice(), len - len % 4, len),
        );
        self.rest = left;
        assert(self.rest@ =~= rest_of(all));
        out
    }
}

/// The samples do not depend on where the stream was cut into pieces.
pub proof fn law_pieces_do_not_matter(a: Seq<u8>, b: Seq<u8>)
    ensures
        samples_in(a) + samples_in(rest_of(a) + b) == samples_in(a + b),
        rest_of(rest_of(a) + b) == rest_of(a + b),
{
    let tail = rest_of(a) + b;
    let all = a + b;
    let n = a.len() as int / 4;
    assert(a.len() == 4 * n + a.len() % 4);
    assert(tail =~= all.skip(4 * n));
    let joined = samples_in(a) + samples_in(tail);
    assert(joined.len() == samples_in(all).len());
    assert forall|i: int| 0 <= i < joined.len() implies joined[i] == samples_in(all)[i] by {
        if i < n {
            assert(joined[i] == bytes::le32(a, 4 * i));
            assert(bytes::le32(a, 4 * i) == bytes::le32(all, 4 * i));
        } else {
            assert(joined[i] == bytes::le32(tail, 4 * (i - n)));
            assert(tail[4 * (i - n)] == all[4 * i]);
            assert(tail[4 * (i - n) + 1] == all[4 * i + 1]);
            assert(tail[4 * (i - n) + 2] == all[4 * i + 2]);
            assert(tail[4 * (i - n) + 3] == all[4 * i + 3]);
        }
    }
    assert(joined =~= samples_in(all));
    assert(rest_of(tail) =~= rest_of(all));
}

/// The samples that wait for the output device.
pub struct SampleQueue {
    samples: VecDeque<u32>,
}

impl View for SampleQueue {
    type V = Seq<u32>;

    closed spec fn view(&self) -> Seq<u32> {
        self.samples@
    }
}

/// The queue before new samples are added: empty, where too many wait.
pub open spec fn with_room(q: Seq<u32>) -> Seq<u32> {
    if q.len() > MAX_QUEUED_SAMPLES {
        seq![]
    } else {
        q
    }
}

/// The `n` samples that a queue gives: what waits, and silence behind it.
pub open spec fn given(q: Seq<u32>, n: nat) -> Seq<u32> {
    Seq::new(
        n,
        |i: int|
            if i < q.len() {
                q[i]
            } else {
                0u32
            },
    )
}

/// The queue once a piece brought these samples.
pub open spec fn after_piece(q: Seq<u32>, new: Seq<u32>) -> Seq<u32> {
    if new.len() == 0 {
        q
    } else {
        with_room(q) + new
    }
}

/// The queue once `n` samples were taken out.
pub open spec fn after_fill(q: Seq<u32>, n: nat) -> Seq<u32> {
    q.skip(
        if n <= q.len() {
            n as int
        } else {
            q.len() as int
        },
    )
}

/// A piece that brings nothing changes nothing; any other stands behind what waits, or alone where
/// too much did.
pub proof fn law_pieces_queue_up(q: Seq<u32>, new: Seq<u32>)
    ensures
        after_piece(q, seq![]) == q,
        q.len() <= 14_400 ==> after_piece(q, new) == q + new,
        q.len() > 14_400 && new.len() > 0 ==> after_piece(q, new) == new,
{
    if new.len() == 0 {
        assert(q + new =~= q);
    }
    assert(seq![] + new =~= new);
}

/// Taking samples out in two goes gives what taking them out in one does, and leaves the same.
pub proof fn law_taking_out_in_two_goes(q: Seq<u32>, a: nat, b: nat)
    ensures
        given(q, a) + given(after_fill(q, a), b) == given(q, a + b),
        after_fill(after_fill(q, a), b) == after_fill(q, a + b),
        after_fill(q, q.len()).len() == 0,
{
    assert(given(q, a) + given(after_fill(q, a), b) =~= given(q, a + b));
    assert(after_fill(after_fill(q, a), b) =~= after_fill(q, a + b));
}

impl SampleQueue {
    /// No samples.
    pub fn new() -> (r: SampleQueue)
        ensures
            r@ == Seq::<u32>::empty(),
    {
        SampleQueue { samples: VecDeque::new() }
    }

    /// Adds samples. Where too many wait already, those are dropped.
    pub fn push(&mut self, new: &[u32])
        ensures
            final(self)@ == with_room(old(self)@) + new@,
            final(self)@.len() <= MAX_QUEUED_SAMPLES + new@.len(),
    {
        if self.samples.len() > MAX_QUEUED_SAMPLES {
            self.samples.clear();
        }
        let ghost start = self.samples@;
        let mut i: usize = 0;
        while i < new.len()
            invariant
                i <= new@.len(),
                self.samples@ == start + new@.take(i as int),
            decreases new@.len() - i,
        {
            self.samples.push_back(new[i]);
            assert(self.samples@ =~= start + new@.take(i + 1));
            i = i + 1;
        }
        assert(new@.take(i as int) =~= new@);
    }

    /// Adds what a piece of the decoder's output completes, if that is anything.
    pub fn push_read(&mut self, reader: &mut SampleReader, piece: &[u8])
        ensures
            ({
                let new = samples_in(old(reader)@ + piece@);
                final(self)@ == if new.len() == 0 {
                    old(self)@
                } else {
                    with_room(old(self)@) + new
                }
            }),
            final(self)@ == after_piece(old(self)@, samples_in(old(reader)@ + piece@)),
            final(reader)@ == rest_of(old(reader)@ + piece@),
    {
        let new = reader.read(piece);
        if new.len() > 0 {
            self.push(new.as_slice());
        }
    }

    /// Takes `n` samples out, and silence where there are fewer.
    pub fn fill(&mut self, n: usize) -> (r: Vec<u32>)
        ensures
            r@ == given(old(self)@, n as nat),
            final(self)@ == old(self)@.skip(
                if n <= old(self)@.len() {
                    n as int
                } else {
                    old(self)@.len() as int
                },
            ),
            final(self)@ == after_fill(old(self)@, n as nat),
    {
        let ghost q = self.samples@;
        let mut out: Vec<u32> = Vec::new();
        let mut i: usize = 0;
        assert(q.skip(0) =~= q);
        while i < n
            invariant
                i <= n,
                out@ == given(q, n as nat).take(i as int),
                self.samples@ == q.skip(
                    if i <= q.len() {
                        i as int
                    } else {
                        q.len() as int
                    },
                ),
            decreases n - i,
        {
            let v: u32 = match self.samples.pop_front() {
                Some(v) => v,
                None => 0,
            };
            out.push(v);
            proof {
                assert(given(q, n as nat).take(i + 1) =~= given(q, n as nat).take(i as int).push(
                    v,
                ));
            }
            i = i + 1;
        }
        assert(given(q, n as nat).take(n as int) =~= given(q, n as nat));
        out
    }
}

/// What was added is what comes out, in order, to an output that never asks for more than waits.
pub proof fn law_queue_keeps_order(q: Seq<u32>, new: Seq<u32>)
    requires
        q.len() <= MAX_QUEUED_SAMPLES,
    ensures
        given(with_room(q) + new, q.len() + new.len()) == q + new,
{
    assert(given(with_room(q) + new, q.len() + new.len()) =~= q + new);
}

/// What is taken out is the front of what waits, and silence only where nothing is left.
pub proof fn law_fill_takes_from_the_front(q: Seq<u32>, n: nat)
    ensures
        given(q, n).len() == n,
        n <= q.len() ==> given(q, n) + q.skip(n as int) == q,
        n > q.len() ==> given(q, n).take(q.len() as int) == q && forall|i: int|
            q.len() <= i < n ==> #[trigger] given(q, n)[i] == 0,
{
    if n <= q.len() {
        assert(given(q, n) + q.skip(n as int) =~= q);
    } else {
        assert(given(q, n).take(q.len() as int) =~= q);
    }
}

/// No more than 14400 samples wait when new ones come; those that do are all kept, and a queue that
/// grew longer is dropped whole.
pub proof fn law_queue_stays_short(q: Seq<u32>)
    ensures
        q.len() <= 14_400 ==> with_room(q) == q,
        q.len() > 14_400 ==> with_room(q).len() == 0,
{
}

/// Samples take four bytes each, one behind the other, and what is left over is less than one.
pub proof fn law_samples_take_four_bytes(b: Seq<u8>, i: int)
    requires
        0 <= i < b.len() / 4,
    ensures
        4 * samples_in(b).len() + rest_of(b).len() == b.len(),
        rest_of(b).len() < 4,
        b.take(4int * samples_in(b).len()) + rest_of(b) == b,
        samples_in(b)[i] == bytes::be32(
            seq![b[4 * i + 3], b[4 * i + 2], b[4 * i + 1], b[4 * i]],
            0,
        ),
{
    assert(b.take(4int * samples_in(b).len()) + rest_of(b) =~= b);
}

} // verus!
