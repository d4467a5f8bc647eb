//! Streaming a byte source: the decoder that cuts what was read into chunks
//! of a fixed size, and the decisions of one streaming job.
use vstd::prelude::*;
use bytes::BytesMut;

verus! {

#[verifier::external_type_specification]
#[verifier::external_body]
pub struct ExBytesMut(BytesMut);

/// The bytes that a `BytesMut` holds, in order.
pub uninterp spec fn buffered(b: BytesMut) -> Seq<u8>;

/// Relies on `bytes::BytesMut::len`: the number of bytes held.
pub assume_specification[ BytesMut::len ](b: &BytesMut) -> (r: usize)
    ensures
        r == buffered(*b).len(),
;

/// Relies on `bytes::BytesMut::split_to`: the first `at` bytes leave the
/// buffer and are handed back, the rest stay; it panics when `at` exceeds the
/// length.
#[verifier::external_body]
fn split_front(b: &mut BytesMut, at: usize) -> (r: Vec<u8>)
    requires
        at <= buffered(*old(b)).len(),
    ensures
        r@ == buffered(*old(b)).take(at as int),
        buffered(*final(b)) == buffered(*old(b)).skip(at as int),
{
    b.split_to(at).to_vec()
}

/// The size of the chunks that a source is streamed in.
pub const CHUNK_SIZE: usize = 1024;

/// The chunk that comes next out of the bytes `s`: `n` of them, or all that
/// are left when fewer remain.
pub open spec fn next_chunk(s: Seq<u8>, n: nat) -> Seq<u8> {
    if s.len() >= n {
        s.take(n as int)
    } else {
        s
    }
}

/// The chunks that the bytes `s` are streamed in: each of `n` bytes, but the
/// last, which holds what is left.
pub open spec fn chunks_of(s: Seq<u8>, n: nat) -> Seq<Seq<u8>>
    decreases s.len(),
{
    if s.len() == 0 || n == 0 {
        Seq::empty()
    } else {
        seq![next_chunk(s, n)] + chunks_of(s.skip(next_chunk(s, n).len() as int), n)
    }
}

/// Cuts the bytes read from a source into chunks of a fixed length.
pub struct ChunkDecoder {
    length: usize,
}

impl ChunkDecoder {
    /// The length of the chunks.
    pub closed spec fn chunk_len(&self) -> nat {
        self.length as nat
    }

    /// A decoder for chunks of `length` bytes.
    pub fn new(length: usize) -> (r: ChunkDecoder)
        requires
            length > 0,
        ensures
            r.chunk_len() == length,
    {
        ChunkDecoder { length }
    }

    /// While the source is still being read: a whole chunk from the front of
    /// `src` if it holds one, else `None` and `src` untouched.
    pub fn decode(&mut self, src: &mut BytesMut) -> (r: Option<Vec<u8>>)
        ensures
            *final(self) == *old(self),
            buffered(*old(src)).len() >= old(self).chunk_len() ==> (r matches Some(c) && c@
                == buffered(*old(src)).take(old(self).chunk_len() as int) && buffered(*final(src))
                == buffered(*old(src)).skip(old(self).chunk_len() as int)),
            buffered(*old(src)).len() < old(self).chunk_len() ==> r is None && *final(src) == *old(
                src,
            ),
    {
        if src.len() >= self.length {
            Some(split_front(src, self.length))
        } else {
            None
        }
    }

    /// Once the source is exhausted: the next chunk from the front of `src`,
    /// shorter than the others if it is the last, or `None` when `src` is
    /// empty.
    pub fn decode_eof(&mut self, src: &mut BytesMut) -> (r: Option<Vec<u8>>)
        ensures
            *final(self) == *old(self),
            r is None <==> buffered(*old(src)).len() == 0,
            r is None ==> *final(src) == *old(src),
            r matches Some(c) ==> c@ == next_chunk(buffered(*old(src)), old(self).chunk_len())
                && buffered(*final(src)) == buffered(*old(src)).skip(c@.len() as int),
    {
        let n = src.len();
        if n == 0 {
            None
        } else if n >= self.length {
            Some(split_front(src, self.length))
        } else {
            Some(split_front(src, n))
        }
    }

    /// All the chunks of what `src` holds once the source is exhausted, in
    /// order; `src` is left empty.
    pub fn decode_all(&mut self, src: &mut BytesMut) -> (r: Vec<Vec<u8>>)
        requires
            old(self).chunk_len() > 0,
        ensures
            *final(self) == *old(self),
            r@.map_values(|c: Vec<u8>| c@) == chunks_of(buffered(*old(src)), old(self).chunk_len()),
            buffered(*final(src)).len() == 0,
    {
        let ghost whole = buffered(*src);
        let ghost n = self.chunk_len();
        let mut out: Vec<Vec<u8>> = Vec::new();
        loop
            invariant
                *self == *old(self),
                n == self.chunk_len(),
                n > 0,
                out@.map_values(|c: Vec<u8>| c@) + chunks_of(buffered(*src), n) == chunks_of(
                    whole,
                    n,
                ),
            ensures
                out@.map_values(|c: Vec<u8>| c@) == chunks_of(whole, n),
                buffered(*src).len() == 0,
            decreases buffered(*src).len(),
        {
            let ghost before = buffered(*src);
            match self.decode_eof(src) {
                Some(c) => {
                    let ghost cv = c@;
                    out.push(c);
                    assert(chunks_of(before, n) == seq![cv] + chunks_of(buffered(*src), n));
                    assert(out@.map_values(|c: Vec<u8>| c@) =~= out@.drop_last().map_values(
                        |c: Vec<u8>| c@,
                    ).push(cv));
                    assert(out@.map_values(|c: Vec<u8>| c@) + chunks_of(buffered(*src), n)
                        =~= out@.drop_last().map_values(|c: Vec<u8>| c@) + chunks_of(before, n));
                },
                None => {
                    assert(chunks_of(before, n) =~= Seq::<Seq<u8>>::empty());
                    assert(out@.map_values(|c: Vec<u8>| c@) + chunks_of(buffered(*src), n)
                        =~= out@.map_values(|c: Vec<u8>| c@));
                    break;
                },
            }
        }
        out
    }
}

/// A source of `s.len()` bytes is streamed in `ceil(s.len() / n)` chunks, each
/// of `n` bytes but the last, which holds from one to `n`; together they are
/// the source's bytes, in order.
pub proof fn lemma_chunk_layout(s: Seq<u8>, n: nat)
    requires
        n > 0,
    ensures
        chunks_of(s, n).len() == (s.len() + n - 1) / n as int,
        forall|i: int| 0 <= i < chunks_of(s, n).len() - 1 ==> #[trigger] chunks_of(s, n)[i].len() == n,
        chunks_of(s, n).len() > 0 ==> 0 < chunks_of(s, n).last().len() <= n,
        chunks_of(s, n).flatten() == s,
    decreases s.len(),
{
    let cs = chunks_of(s, n);
    if s.len() == 0 {
        assert(cs.flatten() =~= s);
        assert((s.len() + n - 1) / n as int == 0) by (nonlinear_arith)
            requires
                s.len() == 0,
                n > 0,
        ;
    } else {
        let c = next_chunk(s, n);
        let rest = s.skip(c.len() as int);
        lemma_chunk_layout(rest, n);
        assert(cs == seq![c] + chunks_of(rest, n));
        assert(cs.drop_first() =~= chunks_of(rest, n));
        assert(c + rest =~= s);
        if s.len() > n {
            let a = rest.len();
            assert(a == s.len() - n);
            assert((a + n - 1) / n as int + 1 == (a + n + n - 1) / n as int) by (nonlinear_arith)
                requires
                    n > 0,
                    a > 0,
            {
                vstd::arithmetic::div_mod::lemma_div_plus_one((a + n - 1) as int, n as int);
            };
            assert forall|i: int| 0 <= i < cs.len() - 1 implies #[trigger] cs[i].len() == n by {
                if i > 0 {
                    assert(cs[i] == chunks_of(rest, n)[i - 1]);
                }
            };
        } else {
            assert(rest.len() == 0);
            assert(chunks_of(rest, n).len() == 0);
            assert((s.len() + n - 1) / n as int == 1) by (nonlinear_arith)
                requires
                    0 < s.len() <= n,
            {
                vstd::arithmetic::div_mod::lemma_div_plus_one((s.len() - 1) as int, n as int);
                vstd::arithmetic::div_mod::lemma_basic_div((s.len() - 1) as int, n as int);
            };
        }
    }
}

/// What reading a job's source gave.
pub enum ReadEvent {
    /// The next chunk.
    Chunk(Vec<u8>),
    /// The source is exhausted.
    End,
    /// The read failed.
    Failed,
}

/// What a job hands to the response body next.
pub enum Delivery {
    /// Send this chunk.
    Send(Vec<u8>),
    /// Send the terminal "stream corrupted" error; the body stays truncated.
    SendError,
    /// Close the body: it is complete.
    Finish,
    /// Nothing: the job has ended.
    Nothing,
}

/// Where a streaming job stands.
#[derive(PartialEq, Eq, Structural, Clone, Copy, Debug)]
pub enum JobState {
    /// Chunks are still being forwarded.
    Streaming,
    /// The source was drained, or the client went away.
    Done,
    /// A read failed and the error was sent.
    Corrupted,
}

/// One step of a job: the state it goes to and what it delivers on `ev`.
pub open spec fn job_step(st: JobState, ev: ReadEvent) -> (JobState, Delivery) {
    match st {
        JobState::Streaming => match ev {
            ReadEvent::Chunk(c) => (JobState::Streaming, Delivery::Send(c)),
            ReadEvent::End => (JobState::Done, Delivery::Finish),
            ReadEvent::Failed => (JobState::Corrupted, Delivery::SendError),
        },
        _ => (st, Delivery::Nothing),
    }
}

/// The state that a job in state `st` reaches through the events `evs`.
pub open spec fn job_state_after(st: JobState, evs: Seq<ReadEvent>) -> JobState
    decreases evs.len(),
{
    if evs.len() == 0 {
        st
    } else {
        job_step(job_state_after(st, evs.drop_last()), evs.last()).0
    }
}

/// What a job in state `st` delivers on each of the events `evs`.
pub open spec fn job_deliveries(st: JobState, evs: Seq<ReadEvent>) -> Seq<Delivery>
    decreases evs.len(),
{
    if evs.len() == 0 {
        Seq::empty()
    } else {
        job_deliveries(st, evs.drop_last()).push(
            job_step(job_state_after(st, evs.drop_last()), evs.last()).1,
        )
    }
}

/// The decisions of one streaming job: forward chunks in the order they were
/// read, end on exhaustion, and end with one error on a failed read.
pub struct StreamJob {
    state: JobState,
}

impl StreamJob {
    /// The job's state.
    pub closed spec fn state_spec(&self) -> JobState {
        self.state
    }

    /// A job that has not read anything yet.
    pub fn new() -> (r: StreamJob)
        ensures
            r.state_spec() == JobState::Streaming,
    {
        StreamJob { state: JobState::Streaming }
    }

    /// The job's state.
    pub fn state(&self) -> (r: JobState)
        ensures
            r == self.state_spec(),
    {
        self.state
    }

    /// Takes in what a read gave and says what to deliver.
    pub fn on_read(&mut self, ev: ReadEvent) -> (r: Delivery)
        ensures
            (final(self).state_spec(), r) == job_step(old(self).state_spec(), ev),
    {
        match self.state {
            JobState::Streaming => match ev {
                ReadEvent::Chunk(c) => Delivery::Send(c),
                ReadEvent::End => {
                    self.state = JobState::Done;
                    Delivery::Finish
                },
                ReadEvent::Failed => {
                    self.state = JobState::Corrupted;
                    Delivery::SendError
                },
            },
            _ => Delivery::Nothing,
        }
    }

    /// The body's receiver is gone: the job is abandoned.
    pub fn on_send_failed(&mut self)
        ensures
            final(self).state_spec() == (if old(self).state_spec() == JobState::Streaming {
                JobState::Done
            } else {
                old(self).state_spec()
            }),
    {
        if self.state == JobState::Streaming {
            self.state = JobState::Done;
        }
    }
}

/// Once a job has ended, it stays ended and delivers nothing more.
pub proof fn lemma_ended_job_is_silent(st: JobState, evs: Seq<ReadEvent>)
    requires
        st != JobState::Streaming,
    ensures
        job_state_after(st, evs) == st,
        job_deliveries(st, evs).len() == evs.len(),
        forall|i: int| 0 <= i < evs.len() ==> #[trigger] job_deliveries(st, evs)[i] is Nothing,
    decreases evs.len(),
{
    if evs.len() > 0 {
        let init = evs.drop_last();
        lemma_ended_job_is_silent(st, init);
        let d = job_deliveries(st, evs);
        assert forall|i: int| 0 <= i < evs.len() implies #[trigger] d[i] is Nothing by {
            if i < init.len() {
                assert(d[i] == job_deliveries(st, init)[i]);
            }
        };
    }
}

/// A failed read ends a job with one error, unless the job had already ended;
/// nothing is delivered after it, whatever is read later.
pub proof fn lemma_nothing_after_failure(pre: Seq<ReadEvent>, post: Seq<ReadEvent>)
    ensures
        ({
            let evs = pre.push(ReadEvent::Failed) + post;
            let d = job_deliveries(JobState::Streaming, evs);
            &&& d.len() == evs.len()
            &&& d[pre.len() as int] is SendError || d[pre.len() as int] is Nothing
            &&& forall|i: int| pre.len() < i < evs.len() ==> #[trigger] d[i] is Nothing
        }),
    decreases post.len(),
{
    let evs = pre.push(ReadEvent::Failed) + post;
    lemma_deliveries_len(JobState::Streaming, evs);
    if post.len() == 0 {
        assert(evs =~= pre.push(ReadEvent::Failed));
        assert(evs.drop_last() =~= pre);
    } else {
        let shorter = post.drop_last();
        lemma_nothing_after_failure(pre, shorter);
        let prev = pre.push(ReadEvent::Failed) + shorter;
        assert(evs.drop_last() =~= prev);
        lemma_state_after_failure(pre, shorter);
        let d = job_deliveries(JobState::Streaming, evs);
        let dp = job_deliveries(JobState::Streaming, prev);
        lemma_deliveries_len(JobState::Streaming, prev);
        assert forall|i: int| 0 <= i < prev.len() implies d[i] == dp[i] by {};
    }
}

/// After a failed read, a job is no longer streaming.
proof fn lemma_state_after_failure(pre: Seq<ReadEvent>, post: Seq<ReadEvent>)
    ensures
        job_state_after(JobState::Streaming, pre.push(ReadEvent::Failed) + post) != JobState::Streaming,
    decreases post.len(),
{
    let evs = pre.push(ReadEvent::Failed) + post;
    if post.len() == 0 {
        assert(evs =~= pre.push(ReadEvent::Failed));
        assert(evs.drop_last() =~= pre);
    } else {
        lemma_state_after_failure(pre, post.drop_last());
        assert(evs.drop_last() =~= pre.push(ReadEvent::Failed) + post.drop_last());
    }
}

proof fn lemma_deliveries_len(st: JobState, evs: Seq<ReadEvent>)
    ensures
        job_deliveries(st, evs).len() == evs.len(),
    decreases evs.len(),
{
    if evs.len() > 0 {
        lemma_deliveries_len(st, evs.drop_last());
    }
}

} // verus!
