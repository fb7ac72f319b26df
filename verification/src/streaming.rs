//! The streaming transform chain: state machines that re-frame, pace and
//! observe an ordered stream of byte chunks without altering its content,
//! drivers that run whole streams through them, and a bounded collector.
//!
//! Each transform holds only its accumulation state; the caller feeds it the
//! upstream chunks as they arrive and forwards what it emits. Waiting on the
//! clock, where the rate limiter asks for it, is the caller's suspension.

use vstd::prelude::*;

use crate::config::Config;
use crate::error::ApiError;

verus! {

/// The bytes of a whole stream: its chunks, concatenated in order.
pub open spec fn concat_of(chunks: Seq<Seq<u8>>) -> Seq<u8>
    decreases chunks.len(),
{
    if chunks.len() == 0 {
        Seq::empty()
    } else {
        chunks[0] + concat_of(chunks.drop_first())
    }
}

proof fn lemma_concat_push(s: Seq<Seq<u8>>, x: Seq<u8>)
    ensures
        concat_of(s.push(x)) == concat_of(s) + x,
    decreases s.len(),
{
    if s.len() == 0 {
        assert(s.push(x).drop_first() =~= Seq::<Seq<u8>>::empty());
        assert(concat_of(Seq::<Seq<u8>>::empty()) =~= Seq::<u8>::empty());
        assert(concat_of(s.push(x)) == s.push(x)[0] + concat_of(s.push(x).drop_first()));
        assert(concat_of(s.push(x)) =~= x);
        assert(concat_of(s) + x =~= x);
    } else {
        lemma_concat_push(s.drop_first(), x);
        assert(s.push(x).drop_first() =~= s.drop_first().push(x));
        assert(s[0] + (concat_of(s.drop_first()) + x) =~= (s[0] + concat_of(s.drop_first())) + x);
    }
}

proof fn lemma_concat_take_succ(s: Seq<Seq<u8>>, i: int)
    requires
        0 <= i < s.len(),
    ensures
        concat_of(s.take(i + 1)) == concat_of(s.take(i)) + s[i],
{
    assert(s.take(i + 1) =~= s.take(i).push(s[i]));
    lemma_concat_push(s.take(i), s[i]);
}

proof fn lemma_concat_split(s: Seq<Seq<u8>>, i: int)
    requires
        0 <= i <= s.len(),
    ensures
        concat_of(s) == concat_of(s.take(i)) + concat_of(s.skip(i)),
    decreases i,
{
    if i == 0 {
        assert(s.take(0) =~= Seq::<Seq<u8>>::empty());
        assert(s.skip(0) =~= s);
        assert(concat_of(s.take(0)) + concat_of(s) =~= concat_of(s));
    } else {
        lemma_concat_split(s, i - 1);
        lemma_concat_take_succ(s, i - 1);
        assert(s.skip(i - 1).drop_first() =~= s.skip(i));
        if i - 1 < s.len() {
            assert(concat_of(s.skip(i - 1)) == s[i - 1] + concat_of(s.skip(i)));
        }
        assert((concat_of(s.take(i - 1)) + s[i - 1]) + concat_of(s.skip(i)) =~= concat_of(
            s.take(i - 1),
        ) + (s[i - 1] + concat_of(s.skip(i))));
    }
}

/// The total length of a prefix never passes the total length of the whole
/// stream, item by item.
proof fn lemma_concat_take_len(s: Seq<Seq<u8>>, i: int)
    requires
        0 <= i < s.len(),
    ensures
        concat_of(s.take(i)).len() + s[i].len() <= concat_of(s).len(),
{
    lemma_concat_split(s, i);
    assert(s.skip(i).drop_first() =~= s.skip(i + 1));
    assert(concat_of(s.skip(i)) == s[i] + concat_of(s.skip(i + 1)));
}

/// Accumulates upstream chunks and emits one aggregated chunk whenever the
/// buffer has reached its capacity, with the remainder emitted once at the
/// end of the stream.
#[derive(Debug)]
pub struct BufferedStream {
    pub buffer: Vec<u8>,
    pub buffer_size: usize,
}

impl BufferedStream {
    pub fn new(buffer_size: usize) -> (r: BufferedStream)
        ensures
            r.buffer@ == Seq::<u8>::empty(),
            r.buffer_size == buffer_size,
    {
        BufferedStream { buffer: Vec::new(), buffer_size }
    }

    /// Takes one upstream chunk. When the buffer reaches the capacity it is
    /// emitted whole, so an emitted chunk is never shorter than the capacity
    /// and carries exactly the bytes received so far and not yet emitted.
    pub fn push(&mut self, chunk: &[u8]) -> (r: Option<Vec<u8>>)
        requires
            old(self).buffer@.len() + chunk@.len() <= usize::MAX,
        ensures
            final(self).buffer_size == old(self).buffer_size,
            match r {
                Option::Some(out) => {
                    &&& out@ == old(self).buffer@ + chunk@
                    &&& out@.len() >= old(self).buffer_size
                    &&& final(self).buffer@ == Seq::<u8>::empty()
                },
                Option::None => {
                    &&& final(self).buffer@ == old(self).buffer@ + chunk@
                    &&& final(self).buffer@.len() < old(self).buffer_size
                },
            },
    {
        self.buffer.extend_from_slice(chunk);
        assert(self.buffer@ =~= old(self).buffer@ + chunk@);
        if self.buffer.len() >= self.buffer_size {
            let mut data: Vec<u8> = Vec::new();
            core::mem::swap(&mut self.buffer, &mut data);
            Some(data)
        } else {
            None
        }
    }

    /// The upstream is done: emits whatever is still buffered, exactly once,
    /// and nothing when the buffer is empty.
    pub fn finish(&mut self) -> (r: Option<Vec<u8>>)
        ensures
            final(self).buffer_size == old(self).buffer_size,
            final(self).buffer@ == Seq::<u8>::empty(),
            match r {
                Option::Some(out) => out@ == old(self).buffer@ && out@.len() > 0,
                Option::None => old(self).buffer@.len() == 0,
            },
    {
        if self.buffer.is_empty() {
            None
        } else {
            let mut data: Vec<u8> = Vec::new();
            core::mem::swap(&mut self.buffer, &mut data);
            Some(data)
        }
    }
}

/// Re-frames the stream into chunks of exactly `chunk_size` bytes, with the
/// final remainder, when there is one, shorter but never empty.
#[derive(Debug)]
pub struct ChunkedStream {
    pub buffer: Vec<u8>,
    pub chunk_size: usize,
}

impl ChunkedStream {
    pub fn new(chunk_size: usize) -> (r: ChunkedStream)
        requires
            chunk_size >= 1,
        ensures
            r.buffer@ == Seq::<u8>::empty(),
            r.chunk_size == chunk_size,
    {
        ChunkedStream { buffer: Vec::new(), chunk_size }
    }

    /// Takes one upstream chunk into the buffer.
    pub fn push(&mut self, chunk: &[u8])
        requires
            old(self).buffer@.len() + chunk@.len() <= usize::MAX,
        ensures
            final(self).chunk_size == old(self).chunk_size,
            final(self).buffer@ == old(self).buffer@ + chunk@,
    {
        self.buffer.extend_from_slice(chunk);
        assert(self.buffer@ =~= old(self).buffer@ + chunk@);
    }

    /// Emits the next full chunk: exactly the first `chunk_size` buffered
    /// bytes, when that many are buffered.
    pub fn next_chunk(&mut self) -> (r: Option<Vec<u8>>)
        ensures
            final(self).chunk_size == old(self).chunk_size,
            match r {
                Option::Some(out) => {
                    &&& old(self).buffer@.len() >= old(self).chunk_size
                    &&& out@ == old(self).buffer@.take(old(self).chunk_size as int)
                    &&& final(self).buffer@ == old(self).buffer@.skip(old(self).chunk_size as int)
                },
                Option::None => {
                    &&& old(self).buffer@.len() < old(self).chunk_size
                    &&& final(self).buffer@ == old(self).buffer@
                },
            },
    {
        if self.buffer.len() >= self.chunk_size {
            let mut tail = self.buffer.split_off(self.chunk_size);
            core::mem::swap(&mut self.buffer, &mut tail);
            Some(tail)
        } else {
            None
        }
    }

    /// The upstream is done: emits the remainder, exactly once, and nothing
    /// when the buffer is empty.
    pub fn finish(&mut self) -> (r: Option<Vec<u8>>)
        ensures
            final(self).chunk_size == old(self).chunk_size,
            final(self).buffer@ == Seq::<u8>::empty(),
            match r {
                Option::Some(out) => out@ == old(self).buffer@ && out@.len() > 0,
                Option::None => old(self).buffer@.len() == 0,
            },
    {
        if self.buffer.is_empty() {
            None
        } else {
            let mut data: Vec<u8> = Vec::new();
            core::mem::swap(&mut self.buffer, &mut data);
            Some(data)
        }
    }
}

/// Paces a stream against a per-tick byte budget without touching the
/// chunks: once more bytes than one budget have passed since the last tick,
/// delivery waits for the next tick, which resets the count.
#[derive(Debug)]
pub struct RateLimitedStream {
    pub bytes_per_tick: u64,
    pub pending_bytes: u64,
}

impl RateLimitedStream {
    /// Budgets a tenth of the configured bytes-per-second for each of the
    /// ten ticks a second.
    pub fn new(bytes_per_second: u64) -> (r: RateLimitedStream)
        ensures
            r.bytes_per_tick == bytes_per_second / 10,
            r.pending_bytes == 0,
    {
        RateLimitedStream { bytes_per_tick: bytes_per_second / 10, pending_bytes: 0 }
    }

    /// Whether delivery must wait for the next tick before the next chunk
    /// may pass.
    pub fn needs_tick(&self) -> (r: bool)
        ensures
            r == (self.pending_bytes > self.bytes_per_tick),
    {
        self.pending_bytes > self.bytes_per_tick
    }

    /// A tick elapsed: the budget is fresh again.
    pub fn on_tick(&mut self)
        ensures
            final(self).bytes_per_tick == old(self).bytes_per_tick,
            final(self).pending_bytes == 0,
    {
        self.pending_bytes = 0;
    }

    /// Lets one chunk pass, charging its length against the budget. The
    /// chunk itself is untouched: pacing never alters content.
    pub fn charge(&mut self, chunk_len: u64)
        requires
            old(self).pending_bytes <= old(self).bytes_per_tick,
            old(self).pending_bytes + chunk_len <= u64::MAX,
        ensures
            final(self).bytes_per_tick == old(self).bytes_per_tick,
            final(self).pending_bytes == old(self).pending_bytes + chunk_len,
    {
        self.pending_bytes = self.pending_bytes + chunk_len;
    }
}

/// Counts the bytes that have passed, so the caller can report progress
/// after each chunk; the chunks themselves pass through unmodified.
#[derive(Debug)]
pub struct ProgressStream {
    pub total_bytes: u64,
}

impl ProgressStream {
    pub fn new() -> (r: ProgressStream)
        ensures
            r.total_bytes == 0,
    {
        ProgressStream { total_bytes: 0 }
    }

    /// Records one chunk and returns the running total the caller hands to
    /// its progress callback.
    pub fn observe(&mut self, chunk_len: u64) -> (r: u64)
        requires
            old(self).total_bytes + chunk_len <= u64::MAX,
        ensures
            final(self).total_bytes == old(self).total_bytes + chunk_len,
            r == final(self).total_bytes,
    {
        self.total_bytes = self.total_bytes + chunk_len;
        self.total_bytes
    }
}


/// One chunk is never longer than the whole stream it belongs to.
proof fn lemma_element_len_le_concat(s: Seq<Seq<u8>>, i: int)
    requires
        0 <= i < s.len(),
    ensures
        s[i].len() <= concat_of(s).len(),
{
    lemma_concat_take_len(s, i);
}

/// A stream of chunks all of one length concatenates to their count times
/// that length.
proof fn lemma_concat_uniform_len(s: Seq<Seq<u8>>, c: int)
    requires
        forall|i: int| 0 <= i < s.len() ==> s[i].len() == c,
    ensures
        concat_of(s).len() == s.len() * c,
    decreases s.len(),
{
    if s.len() == 0 {
    } else {
        lemma_concat_uniform_len(s.drop_first(), c);
        let n = s.len() as int;
        assert(n * c == (n - 1) * c + c) by (nonlinear_arith);
    }
}

/// The emissions of the aggregation stage from input position `i` on, given
/// what is already buffered: each input chunk joins the buffer, a buffer at
/// or past the capacity is emitted whole, and a non-empty remainder is
/// emitted once at the end.
pub open spec fn spec_buffered_from(
    chunks: Seq<Seq<u8>>,
    capacity: int,
    i: int,
    buf: Seq<u8>,
) -> Seq<Seq<u8>>
    decreases chunks.len() - i,
{
    if i < 0 || i >= chunks.len() {
        if buf.len() > 0 {
            seq![buf]
        } else {
            Seq::empty()
        }
    } else {
        let grown = buf + chunks[i];
        if grown.len() >= capacity {
            seq![grown] + spec_buffered_from(chunks, capacity, i + 1, Seq::empty())
        } else {
            spec_buffered_from(chunks, capacity, i + 1, grown)
        }
    }
}

/// Runs a whole stream through a `BufferedStream`: exactly the emissions of
/// `spec_buffered_from`, so the content is preserved byte for byte, every
/// emitted chunk but the last reaches the capacity, and no emitted chunk is
/// empty.
pub fn run_buffered(input: &Vec<Vec<u8>>, buffer_size: usize) -> (out: Vec<Vec<u8>>)
    requires
        buffer_size >= 1,
        concat_of(input.deep_view()).len() <= usize::MAX,
    ensures
        out.deep_view() == spec_buffered_from(
            input.deep_view(),
            buffer_size as int,
            0,
            Seq::empty(),
        ),
        concat_of(out.deep_view()) == concat_of(input.deep_view()),
        forall|j: int|
            0 <= j < out.deep_view().len() - 1 ==> out.deep_view()[j].len() >= buffer_size,
        forall|j: int| 0 <= j < out.deep_view().len() ==> out.deep_view()[j].len() > 0,
{
    let ghost iv = input.deep_view();
    let mut stage = BufferedStream::new(buffer_size);
    let mut out: Vec<Vec<u8>> = Vec::new();
    let mut i: usize = 0;
    while i < input.len()
        invariant
            buffer_size >= 1,
            stage.buffer_size == buffer_size,
            0 <= i <= input@.len(),
            iv == input.deep_view(),
            concat_of(iv).len() <= usize::MAX,
            concat_of(out.deep_view()) + stage.buffer@ == concat_of(iv.take(i as int)),
            spec_buffered_from(iv, buffer_size as int, 0, Seq::empty()) == out.deep_view()
                + spec_buffered_from(iv, buffer_size as int, i as int, stage.buffer@),
            forall|j: int| 0 <= j < out.deep_view().len() ==> out.deep_view()[j].len()
                >= buffer_size,
        decreases input@.len() - i,
    {
        proof {
            lemma_concat_take_len(iv, i as int);
            lemma_concat_take_succ(iv, i as int);
            assert(iv[i as int] == input@[i as int]@);
        }
        let ghost old_out = out.deep_view();
        let ghost old_buf = stage.buffer@;
        match stage.push(input[i].as_slice()) {
            Some(data) => {
                proof {
                    lemma_concat_push(old_out, data@);
                }
                out.push(data);
                proof {
                    assert(out.deep_view() =~~= old_out.push(old_buf + iv[i as int]));
                    assert(concat_of(out.deep_view()) + stage.buffer@ =~= concat_of(
                        iv.take(i as int + 1),
                    ));
                    assert(old_out + (seq![old_buf + iv[i as int]] + spec_buffered_from(
                        iv,
                        buffer_size as int,
                        i as int + 1,
                        Seq::empty(),
                    )) =~~= out.deep_view() + spec_buffered_from(
                        iv,
                        buffer_size as int,
                        i as int + 1,
                        Seq::empty(),
                    ));
                }
            },
            None => {},
        }
        i += 1;
    }
    proof {
        assert(iv.take(input@.len() as int) =~= iv);
    }
    let ghost old_out = out.deep_view();
    let ghost old_buf = stage.buffer@;
    match stage.finish() {
        Some(data) => {
            proof {
                lemma_concat_push(old_out, data@);
            }
            out.push(data);
            proof {
                assert(out.deep_view() =~~= old_out.push(old_buf));
                assert(concat_of(out.deep_view()) =~= concat_of(iv));
                assert(old_out + seq![old_buf] =~~= old_out.push(old_buf));
            }
        },
        None => {
            proof {
                assert(concat_of(out.deep_view()) + Seq::<u8>::empty() =~= concat_of(
                    out.deep_view(),
                ));
                assert(old_out + Seq::<Seq<u8>>::empty() =~~= old_out);
            }
        },
    }
    out
}

pub open spec fn div_ceil(total: int, n: int) -> int {
    (total + n - 1) / n
}

/// The chunk count of a re-framed stream: full chunks plus one for a
/// non-empty remainder is exactly the total length divided by the chunk
/// size, rounded up.
proof fn lemma_chunk_count(f: int, c: int, r: int)
    requires
        c >= 1,
        f >= 0,
        0 <= r < c,
    ensures
        f + (if r > 0 { 1int } else { 0int }) == div_ceil(f * c + r, c),
{
    let n = f * c + r + c - 1;
    if r > 0 {
        assert(f * c + r + c - 1 == (f + 1) * c + (r - 1)) by (nonlinear_arith);
        vstd::arithmetic::div_mod::lemma_fundamental_div_mod_converse(n, c, f + 1, r - 1);
    } else {
        assert(n == f * c + (c - 1));
        vstd::arithmetic::div_mod::lemma_fundamental_div_mod_converse(n, c, f, c - 1);
    }
}

/// Runs a whole stream through a `ChunkedStream`: the content is preserved
/// byte for byte, every chunk but the last has exactly `chunk_size` bytes,
/// no chunk is empty or longer than `chunk_size`, and the count is the total
/// length divided by `chunk_size`, rounded up.
pub fn run_chunked(input: &Vec<Vec<u8>>, chunk_size: usize) -> (out: Vec<Vec<u8>>)
    requires
        chunk_size >= 1,
        concat_of(input.deep_view()).len() <= usize::MAX,
    ensures
        concat_of(out.deep_view()) == concat_of(input.deep_view()),
        forall|j: int|
            0 <= j < out.deep_view().len() ==> 0 < #[trigger] out.deep_view()[j].len()
                <= chunk_size,
        forall|j: int|
            0 <= j < out.deep_view().len() - 1 ==> #[trigger] out.deep_view()[j].len()
                == chunk_size,
        out@.len() == div_ceil(concat_of(input.deep_view()).len() as int, chunk_size as int),

{
    let ghost iv = input.deep_view();
    let mut stage = ChunkedStream::new(chunk_size);
    let mut out: Vec<Vec<u8>> = Vec::new();
    let mut i: usize = 0;
    while i < input.len()
        invariant
            chunk_size >= 1,
            stage.chunk_size == chunk_size,
            0 <= i <= input@.len(),
            iv == input.deep_view(),
            concat_of(iv).len() <= usize::MAX,
            concat_of(out.deep_view()) + stage.buffer@ == concat_of(iv.take(i as int)),
            stage.buffer@.len() < chunk_size,
            forall|j: int| 0 <= j < out.deep_view().len() ==> out.deep_view()[j].len()
                == chunk_size,
        decreases input@.len() - i,
    {
        proof {
            lemma_concat_take_len(iv, i as int);
            lemma_concat_take_succ(iv, i as int);
            assert(iv[i as int] == input@[i as int]@);
        }
        stage.push(input[i].as_slice());
        i += 1;
        while stage.buffer.len() >= stage.chunk_size
            invariant
                chunk_size >= 1,
                stage.chunk_size == chunk_size,
                0 <= i <= input@.len(),
                iv == input.deep_view(),
                concat_of(iv).len() <= usize::MAX,
                concat_of(out.deep_view()) + stage.buffer@ == concat_of(iv.take(i as int)),
                forall|j: int| 0 <= j < out.deep_view().len() ==> out.deep_view()[j].len()
                    == chunk_size,
            decreases stage.buffer@.len(),
        {
            let ghost old_out = out.deep_view();
            let ghost old_buf = stage.buffer@;
            match stage.next_chunk() {
                Some(data) => {
                    proof {
                        lemma_concat_push(old_out, data@);
                    }
                    out.push(data);
                    proof {
                        assert(out.deep_view() =~~= old_out.push(old_buf.take(chunk_size as int)));
                        assert(old_buf.take(chunk_size as int) + old_buf.skip(chunk_size as int)
                            =~= old_buf);
                        assert((concat_of(old_out) + old_buf.take(chunk_size as int))
                            + old_buf.skip(chunk_size as int) =~= concat_of(old_out) + old_buf);
                    }
                },
                None => {
                    proof {
                        assert(false);
                    }
                },
            }
        }
    }
    proof {
        assert(iv.take(input@.len() as int) =~= iv);
    }
    let ghost full = out.deep_view().len() as int;
    let ghost rem = stage.buffer@.len() as int;
    proof {
        lemma_concat_uniform_len(out.deep_view(), chunk_size as int);
    }
    let ghost old_out = out.deep_view();
    let ghost old_buf = stage.buffer@;
    match stage.finish() {
        Some(data) => {
            proof {
                lemma_concat_push(old_out, data@);
            }
            out.push(data);
            proof {
                assert(out.deep_view() =~~= old_out.push(old_buf));
                assert(concat_of(out.deep_view()) =~= concat_of(iv));
                lemma_chunk_count(full, chunk_size as int, rem);
            }
        },
        None => {
            proof {
                assert(concat_of(out.deep_view()) + Seq::<u8>::empty() =~= concat_of(
                    out.deep_view(),
                ));
                lemma_chunk_count(full, chunk_size as int, rem);
            }
        },
    }
    out
}

/// The pacing meaning of a whole stream: for each chunk in order, a spent
/// budget first waits one tick, which resets it, and then the chunk passes
/// and is charged. The result is the final tick count and pending charge.
pub open spec fn spec_rate_steps(
    chunks: Seq<Seq<u8>>,
    bpt: int,
    ticks: int,
    pending: int,
) -> (int, int)
    decreases chunks.len(),
{
    if chunks.len() == 0 {
        (ticks, pending)
    } else {
        let len = chunks[0].len() as int;
        if pending > bpt {
            spec_rate_steps(chunks.drop_first(), bpt, ticks + 1, len)
        } else {
            spec_rate_steps(chunks.drop_first(), bpt, ticks, pending + len)
        }
    }
}

/// Runs a whole stream through a `RateLimitedStream`: the chunks come back
/// exactly as they went in, and the run waits for as many ticks as the
/// pacing meaning of the stream says.
pub fn run_rate_limited(input: Vec<Vec<u8>>, bytes_per_second: u64) -> (r: (Vec<Vec<u8>>, u64))
    requires
        forall|i: int|
            0 <= i < input.deep_view().len() ==> #[trigger] input.deep_view()[i].len()
                + bytes_per_second / 10 <= u64::MAX,
    ensures
        r.0 == input,
        r.1 as int == spec_rate_steps(
            input.deep_view(),
            (bytes_per_second / 10) as int,
            0,
            0,
        ).0,
{
    let ghost iv = input.deep_view();
    let mut limiter = RateLimitedStream::new(bytes_per_second);
    let mut ticks: u64 = 0;
    let mut i: usize = 0;
    proof {
        assert(iv.skip(0) =~= iv);
    }
    while i < input.len()
        invariant
            iv == input.deep_view(),
            limiter.bytes_per_tick == bytes_per_second / 10,
            0 <= i <= input@.len(),
            ticks <= i,
            limiter.pending_bytes <= limiter.bytes_per_tick || i > 0,
            forall|j: int|
                0 <= j < iv.len() ==> #[trigger] iv[j].len() + bytes_per_second / 10 <= u64::MAX,
            spec_rate_steps(iv, limiter.bytes_per_tick as int, 0, 0) == spec_rate_steps(
                iv.skip(i as int),
                limiter.bytes_per_tick as int,
                ticks as int,
                limiter.pending_bytes as int,
            ),
        decreases input@.len() - i,
    {
        proof {
            assert(iv[i as int] == input@[i as int]@);
            assert(iv.skip(i as int).drop_first() =~= iv.skip(i as int + 1));
            assert(iv.skip(i as int)[0] == iv[i as int]);
        }
        if limiter.needs_tick() {
            limiter.on_tick();
            ticks = ticks + 1;
        }
        let len = input[i].len() as u64;
        proof {
            lemma_element_len_le_concat(iv, i as int);
        }
        limiter.charge(len);
        i += 1;
    }
    proof {
        assert(iv.skip(input@.len() as int) =~= Seq::<Seq<u8>>::empty());
    }
    (input, ticks)
}

/// The pacing invariant: between two ticks at most one budget plus one
/// chunk passes, so the whole stream charges no more than the ticks it
/// waited for, plus one, times that bound.
proof fn lemma_rate_tick_invariant(
    chunks: Seq<Seq<u8>>,
    bpt: int,
    ticks: int,
    pending: int,
    cmax: int,
)
    requires
        bpt >= 0,
        cmax >= 0,
        ticks >= 0,
        0 <= pending <= bpt + cmax,
        forall|i: int| 0 <= i < chunks.len() ==> #[trigger] chunks[i].len() <= cmax,
    ensures
        ({
            let end = spec_rate_steps(chunks, bpt, ticks, pending);
            &&& end.0 >= ticks
            &&& 0 <= end.1 <= bpt + cmax
            &&& concat_of(chunks).len() + ticks * (bpt + cmax) + pending <= end.0 * (bpt + cmax)
                + end.1
        }),
    decreases chunks.len(),
{
    if chunks.len() > 0 {
        let len = chunks[0].len() as int;
        let rest = chunks.drop_first();
        assert(forall|i: int| 0 <= i < rest.len() ==> #[trigger] rest[i].len() <= cmax);
        let q = bpt + cmax;
        if pending > bpt {
            lemma_rate_tick_invariant(rest, bpt, ticks + 1, len, cmax);
            assert((ticks + 1) * q == ticks * q + q) by (nonlinear_arith);
        } else {
            lemma_rate_tick_invariant(rest, bpt, ticks, pending + len, cmax);
        }
    }
}

/// Rate limiting bounds throughput from above: a stream whose chunks each
/// hold at most `cmax` bytes and whose pacing waited `t` ticks holds at most
/// `(t + 1) * (bpt + cmax)` bytes in all -- so a long stream must wait for
/// many ticks, while its content passes untouched.
pub proof fn lemma_rate_limit_tick_bound(chunks: Seq<Seq<u8>>, bpt: int, cmax: int)
    requires
        bpt >= 0,
        cmax >= 0,
        forall|i: int| 0 <= i < chunks.len() ==> #[trigger] chunks[i].len() <= cmax,
    ensures
        concat_of(chunks).len() <= (spec_rate_steps(chunks, bpt, 0, 0).0 + 1) * (bpt + cmax),
{
    lemma_rate_tick_invariant(chunks, bpt, 0, 0, cmax);
    let t = spec_rate_steps(chunks, bpt, 0, 0).0;
    let q = bpt + cmax;
    assert((t + 1) * q == t * q + q) by (nonlinear_arith);
}

/// Runs a whole stream through a `ProgressStream`: the chunks come back
/// exactly as they went in, and the reported total is their total length.
pub fn run_progress(input: Vec<Vec<u8>>) -> (r: (Vec<Vec<u8>>, u64))
    requires
        concat_of(input.deep_view()).len() <= u64::MAX,
    ensures
        r.0 == input,
        r.1 == concat_of(input.deep_view()).len(),
{
    let ghost iv = input.deep_view();
    let mut tracker = ProgressStream::new();
    let mut i: usize = 0;
    while i < input.len()
        invariant
            iv == input.deep_view(),
            0 <= i <= input@.len(),
            concat_of(iv).len() <= u64::MAX,
            tracker.total_bytes == concat_of(iv.take(i as int)).len(),
        decreases input@.len() - i,
    {
        proof {
            assert(iv[i as int] == input@[i as int]@);
            lemma_concat_take_len(iv, i as int);
            lemma_concat_take_succ(iv, i as int);
        }
        let len = input[i].len() as u64;
        tracker.observe(len);
        i += 1;
    }
    proof {
        assert(iv.take(input@.len() as int) =~= iv);
    }
    (input, tracker.total_bytes)
}

/// One step of a caller-composed transform chain.
#[derive(Debug, Clone, Copy)]
pub enum TransformKind {
    Buffered(usize),
    Chunked(usize),
    RateLimited(u64),
    Progress,
}

/// Content preservation over any composition: whatever transforms stand in
/// the chain and in whatever order, the bytes that come out are exactly the
/// bytes that went in. Framing and pacing change; content never does.
pub fn run_chain(input: Vec<Vec<u8>>, chain: &Vec<TransformKind>) -> (out: Vec<Vec<u8>>)
    requires
        concat_of(input.deep_view()).len() <= usize::MAX,
        forall|t: int|
            0 <= t < chain@.len() ==> match #[trigger] chain@[t] {
                TransformKind::Buffered(n) => n >= 1,
                TransformKind::Chunked(n) => n >= 1,
                TransformKind::RateLimited(bps) => bps / 10 + concat_of(input.deep_view()).len()
                    <= u64::MAX,
                TransformKind::Progress => true,
            },
    ensures
        concat_of(out.deep_view()) == concat_of(input.deep_view()),
{
    let ghost iv = input.deep_view();
    let mut cur = input;
    let mut t: usize = 0;
    while t < chain.len()
        invariant
            concat_of(cur.deep_view()) == concat_of(iv),
            concat_of(iv).len() <= usize::MAX,
            0 <= t <= chain@.len(),
            forall|k: int|
                0 <= k < chain@.len() ==> match #[trigger] chain@[k] {
                    TransformKind::Buffered(n) => n >= 1,
                    TransformKind::Chunked(n) => n >= 1,
                    TransformKind::RateLimited(bps) => bps / 10 + concat_of(iv).len() <= u64::MAX,
                    TransformKind::Progress => true,
                },
        decreases chain@.len() - t,
    {
        match chain[t] {
            TransformKind::Buffered(n) => {
                cur = run_buffered(&cur, n);
            },
            TransformKind::Chunked(n) => {
                cur = run_chunked(&cur, n);
            },
            TransformKind::RateLimited(bps) => {
                proof {
                    assert forall|j: int|
                        0 <= j < cur.deep_view().len() implies #[trigger] cur.deep_view()[j].len()
                        + bps / 10 <= u64::MAX by {
                        lemma_element_len_le_concat(cur.deep_view(), j);
                    }
                }
                let stepped = run_rate_limited(cur, bps);
                cur = stepped.0;
            },
            TransformKind::Progress => {
                let stepped = run_progress(cur);
                cur = stepped.0;
            },
        }
        t += 1;
    }
    cur
}


/// Clamps a mathematical size to what a machine word can report.
pub open spec fn saturate_u64(x: int) -> u64 {
    if x > u64::MAX {
        u64::MAX
    } else if x < 0 {
        0u64
    } else {
        x as u64
    }
}

/// How collecting a stream ends, at the specification level: all bytes in
/// order, or the index of the first upstream error, returned verbatim, or
/// the size that first passed the limit. A partial prefix is never returned.
pub enum CollectEnd {
    Collected { bytes: Seq<u8> },
    Aborted { index: int },
    Oversize { size: int },
}

/// The meaning of collection from item `k` on with `acc` bytes already
/// counted: the first upstream error aborts, a chunk that lifts the count
/// past the limit oversizes, and otherwise the bytes accumulate in order.
pub open spec fn spec_collect(
    items: Seq<Result<Vec<u8>, ApiError>>,
    limit: int,
    k: int,
    acc: int,
) -> CollectEnd
    decreases items.len() - k,
{
    if k < 0 || k >= items.len() {
        CollectEnd::Collected { bytes: Seq::empty() }
    } else {
        match items[k] {
            Result::Err(_) => CollectEnd::Aborted { index: k },
            Result::Ok(chunk) => {
                if acc + chunk@.len() > limit {
                    CollectEnd::Oversize { size: acc + chunk@.len() }
                } else {
                    match spec_collect(items, limit, k + 1, acc + chunk@.len()) {
                        CollectEnd::Collected { bytes } => CollectEnd::Collected {
                            bytes: chunk@ + bytes,
                        },
                        end => end,
                    }
                }
            },
        }
    }
}

/// Builds and hands out the transform chain's stages, configured once per
/// client, and collects whole streams under the configured size limit.
#[derive(Debug)]
pub struct StreamHandler {
    pub config: Config,
}

impl StreamHandler {
    pub fn new(config: Config) -> (r: StreamHandler)
        ensures
            r.config == config,
    {
        StreamHandler { config }
    }

    /// A fresh aggregation stage at the configured buffer size.
    pub fn create_buffered_stream(&self) -> (r: BufferedStream)
        ensures
            r.buffer_size == self.config.streaming.buffer_size,
            r.buffer@ == Seq::<u8>::empty(),
    {
        BufferedStream::new(self.config.streaming.buffer_size)
    }

    /// A fresh re-framing stage at the configured chunk size.
    pub fn create_chunked_stream(&self) -> (r: ChunkedStream)
        requires
            self.config.streaming.chunk_size >= 1,
        ensures
            r.chunk_size == self.config.streaming.chunk_size,
            r.buffer@ == Seq::<u8>::empty(),
    {
        ChunkedStream::new(self.config.streaming.chunk_size)
    }

    /// A fresh pacing stage at the given rate.
    pub fn create_rate_limited_stream(&self, bytes_per_second: u64) -> (r: RateLimitedStream)
        ensures
            r.bytes_per_tick == bytes_per_second / 10,
            r.pending_bytes == 0,
    {
        RateLimitedStream::new(bytes_per_second)
    }

    /// A fresh progress stage with nothing counted yet.
    pub fn track_progress(&self) -> (r: ProgressStream)
        ensures
            r.total_bytes == 0,
    {
        ProgressStream::new()
    }

    /// Collects a whole stream under a size limit, the configured maximum
    /// file size unless the caller narrows it: the first upstream error
    /// comes back verbatim, a stream past the limit aborts with the size
    /// that crossed it and no partial result, and otherwise all bytes come
    /// back in order.
    #[verifier::loop_isolation(false)]
    pub fn collect_stream(
        &self,
        items: Vec<Result<Vec<u8>, ApiError>>,
        max_size: Option<u64>,
    ) -> (r: Result<Vec<u8>, ApiError>)
        ensures
            ({
                let limit = (match max_size {
                    Option::Some(m) => m,
                    Option::None => self.config.storage.max_file_size,
                }) as int;
                match spec_collect(items@, limit, 0, 0) {
                    CollectEnd::Collected { bytes } => r matches Ok(b) && b@ == bytes,
                    CollectEnd::Aborted { index } => r matches Err(e) && items@[index] matches Err(
                        e0,
                    ) && e == e0,
                    CollectEnd::Oversize { size } => r matches Err(e) && e matches (
                    ApiError::SizeExceeded { size: s, limit: l }) && s == saturate_u64(size) && l
                        as int == limit,
                }
            }),
    {
        let limit: u64 = match max_size {
            Some(m) => m,
            None => self.config.storage.max_file_size,
        };
        let ghost orig = items@;
        let mut items = items;
        let items_len = items.len();
        proof {
            assert(orig.len() == items_len);
        }
        let mut collected: Vec<u8> = Vec::new();
        let mut k: usize = 0;
        while items.len() > 0
            invariant
                orig.len() <= usize::MAX,
                items@ == orig.skip(k as int),
                0 <= k <= orig.len(),
                collected@.len() <= limit,
                ({
                    let from_here = spec_collect(orig, limit as int, k as int, collected@.len() as int);
                    match spec_collect(orig, limit as int, 0, 0) {
                        CollectEnd::Collected { bytes } => from_here matches CollectEnd::Collected {
                            bytes: rest } && bytes == collected@ + rest,
                        CollectEnd::Aborted { index } => from_here == (CollectEnd::Aborted {
                            index }),
                        CollectEnd::Oversize { size } => from_here == (CollectEnd::Oversize {
                            size }),
                    }
                }),
            decreases orig.len() - k,
        {
            proof {
                assert(k < orig.len());
            }
            let item = items.remove(0);
            proof {
                assert(item == orig[k as int]);
                assert(items@ =~= orig.skip(k as int + 1));
            }
            match item {
                Err(e) => {
                    proof {
                        assert(spec_collect(orig, limit as int, k as int, collected@.len() as int)
                            == (CollectEnd::Aborted { index: k as int }));
                    }
                    return Err(e);
                },
                Ok(chunk) => {
                    let chunk_len = chunk.len() as u64;
                    let room = limit - collected.len() as u64;
                    if chunk_len > room {
                        proof {
                            assert(spec_collect(
                                orig,
                                limit as int,
                                k as int,
                                collected@.len() as int,
                            ) == (CollectEnd::Oversize {
                                size: collected@.len() as int + chunk@.len() as int,
                            }));
                        }
                        return Err(ApiError::SizeExceeded {
                            size: saturating_add_u64(collected.len() as u64, chunk_len),
                            limit,
                        });
                    }
                    let mut chunk = chunk;
                    let ghost old_collected = collected@;
                    collected.append(&mut chunk);
                    k += 1;
                },
            }
        }
        proof {
            assert(k == orig.len());
            assert(collected@ + Seq::<u8>::empty() =~= collected@);
        }
        Ok(collected)
    }
}

fn saturating_add_u64(a: u64, b: u64) -> (r: u64)
    ensures
        r == saturate_u64(a + b),
{
    if a <= u64::MAX - b {
        a + b
    } else {
        u64::MAX
    }
}


/// The position of the first upstream error among the items, or the item
/// count when every item is a chunk.
pub open spec fn first_error(items: Seq<Result<Vec<u8>, ApiError>>) -> int
    decreases items.len(),
{
    if items.len() == 0 {
        0
    } else if items[0] is Err {
        0
    } else {
        1 + first_error(items.drop_first())
    }
}

/// The chunks that arrive before the first upstream error, as byte
/// sequences, in order.
pub open spec fn ok_chunks(items: Seq<Result<Vec<u8>, ApiError>>) -> Seq<Seq<u8>>
    decreases items.len(),
{
    if items.len() == 0 {
        Seq::empty()
    } else {
        match items[0] {
            Result::Err(_) => Seq::empty(),
            Result::Ok(c) => seq![c@] + ok_chunks(items.drop_first()),
        }
    }
}

proof fn lemma_ok_chunks_props(items: Seq<Result<Vec<u8>, ApiError>>)
    ensures
        0 <= first_error(items) <= items.len(),
        first_error(items) < items.len() ==> items[first_error(items)] is Err,
        ok_chunks(items).len() == first_error(items),
        forall|j: int|
            0 <= j < first_error(items) ==> (#[trigger] items[j] matches Ok(c) && ok_chunks(
                items,
            )[j] == c@),
    decreases items.len(),
{
    if items.len() > 0 && !(items[0] is Err) {
        lemma_ok_chunks_props(items.drop_first());
        assert forall|j: int| 0 <= j < first_error(items) implies (#[trigger] items[j] matches Ok(
            c,
        ) && ok_chunks(items)[j] == c@) by {
            if j >= 1 {
                assert(items[j] == items.drop_first()[j - 1]);
                assert(ok_chunks(items)[j] == ok_chunks(items.drop_first())[j - 1]);
            }
        }
    }
}

/// The emissions of the aggregation stage over the chunks from position `i`
/// on, without the end-of-stream flush: what a run that is cut short may
/// emit.
pub open spec fn spec_buffered_steps(
    chunks: Seq<Seq<u8>>,
    capacity: int,
    i: int,
    buf: Seq<u8>,
) -> Seq<Seq<u8>>
    decreases chunks.len() - i,
{
    if i < 0 || i >= chunks.len() {
        Seq::empty()
    } else {
        let grown = buf + chunks[i];
        if grown.len() >= capacity {
            seq![grown] + spec_buffered_steps(chunks, capacity, i + 1, Seq::empty())
        } else {
            spec_buffered_steps(chunks, capacity, i + 1, grown)
        }
    }
}

/// Runs a fallible stream through a `BufferedStream`: the first upstream
/// error stops the run at once and comes back verbatim, and whatever sat in
/// the buffer at that moment is lost, never flushed. A stream that ends
/// cleanly is aggregated exactly as `run_buffered` aggregates it.
#[verifier::loop_isolation(false)]
pub fn run_buffered_fallible(items: Vec<Result<Vec<u8>, ApiError>>, buffer_size: usize) -> (r: (
    Vec<Vec<u8>>,
    Option<ApiError>,
))
    requires
        buffer_size >= 1,
        concat_of(ok_chunks(items@)).len() <= usize::MAX,
    ensures
        ({
            let prefix = ok_chunks(items@);
            if first_error(items@) == items@.len() {
                &&& r.0.deep_view() == spec_buffered_from(prefix, buffer_size as int, 0, Seq::empty())
                &&& r.1 is None
            } else {
                &&& r.0.deep_view() == spec_buffered_steps(
                    prefix,
                    buffer_size as int,
                    0,
                    Seq::empty(),
                )
                &&& r.1 matches Some(e) && items@[first_error(items@)] matches Err(e0) && e == e0
            }
        }),
{
    let ghost orig = items@;
    let ghost prefix = ok_chunks(orig);
    proof {
        lemma_ok_chunks_props(orig);
    }
    let mut items = items;
    let items_len = items.len();
    proof {
        assert(orig.len() == items_len);
    }
    let mut stage = BufferedStream::new(buffer_size);
    let mut out: Vec<Vec<u8>> = Vec::new();
    let mut k: usize = 0;
    while items.len() > 0
        invariant
            buffer_size >= 1,
            stage.buffer_size == buffer_size,
            orig.len() <= usize::MAX,
            prefix == ok_chunks(orig),
            concat_of(prefix).len() <= usize::MAX,
            items@ == orig.skip(k as int),
            0 <= k <= first_error(orig),
            concat_of(out.deep_view()) + stage.buffer@ == concat_of(prefix.take(k as int)),
            spec_buffered_from(prefix, buffer_size as int, 0, Seq::empty()) == out.deep_view()
                + spec_buffered_from(prefix, buffer_size as int, k as int, stage.buffer@),
            spec_buffered_steps(prefix, buffer_size as int, 0, Seq::empty()) == out.deep_view()
                + spec_buffered_steps(prefix, buffer_size as int, k as int, stage.buffer@),
        decreases orig.len() - k,
    {
        proof {
            assert(k < orig.len());
            lemma_ok_chunks_props(orig);
        }
        let item = items.remove(0);
        proof {
            assert(item == orig[k as int]);
            assert(items@ =~= orig.skip(k as int + 1));
        }
        match item {
            Err(e) => {
                proof {
                    lemma_first_error_here(orig, k as int);
                    assert(spec_buffered_steps(prefix, buffer_size as int, k as int, stage.buffer@)
                        =~~= Seq::<Seq<u8>>::empty());
                    assert(out.deep_view() + Seq::<Seq<u8>>::empty() =~~= out.deep_view());
                }
                return (out, Some(e));
            },
            Ok(chunk) => {
                proof {
                    lemma_ok_here(orig, k as int);
                    assert(prefix[k as int] == chunk@);
                    lemma_concat_take_len(prefix, k as int);
                    lemma_concat_take_succ(prefix, k as int);
                }
                let ghost old_out = out.deep_view();
                let ghost old_buf = stage.buffer@;
                match stage.push(chunk.as_slice()) {
                    Some(data) => {
                        proof {
                            lemma_concat_push(old_out, data@);
                        }
                        out.push(data);
                        proof {
                            assert(out.deep_view() =~~= old_out.push(old_buf + prefix[k as int]));
                            assert(concat_of(out.deep_view()) + stage.buffer@ =~= concat_of(
                                prefix.take(k as int + 1),
                            ));
                            assert(old_out + (seq![old_buf + prefix[k as int]]
                                + spec_buffered_from(
                                prefix,
                                buffer_size as int,
                                k as int + 1,
                                Seq::empty(),
                            )) =~~= out.deep_view() + spec_buffered_from(
                                prefix,
                                buffer_size as int,
                                k as int + 1,
                                Seq::empty(),
                            ));
                            assert(old_out + (seq![old_buf + prefix[k as int]]
                                + spec_buffered_steps(
                                prefix,
                                buffer_size as int,
                                k as int + 1,
                                Seq::empty(),
                            )) =~~= out.deep_view() + spec_buffered_steps(
                                prefix,
                                buffer_size as int,
                                k as int + 1,
                                Seq::empty(),
                            ));
                        }
                    },
                    None => {},
                }
                k += 1;
            },
        }
    }
    proof {
        assert(k == orig.len());
        assert(first_error(orig) == orig.len());
        assert(prefix.take(k as int) =~= prefix);
    }
    let ghost old_out = out.deep_view();
    let ghost old_buf = stage.buffer@;
    match stage.finish() {
        Some(data) => {
            out.push(data);
            proof {
                assert(out.deep_view() =~~= old_out.push(old_buf));
                assert(old_out + seq![old_buf] =~~= old_out.push(old_buf));
            }
        },
        None => {
            proof {
                assert(old_out + Seq::<Seq<u8>>::empty() =~~= old_out);
            }
        },
    }
    (out, None)
}

/// At a position before the first error that holds a chunk, the error
/// position lies further on.
proof fn lemma_ok_here(items: Seq<Result<Vec<u8>, ApiError>>, k: int)
    requires
        0 <= k < items.len(),
        k <= first_error(items),
        items[k] is Ok,
    ensures
        k < first_error(items),
{
    lemma_ok_chunks_props(items);
    if k == first_error(items) {
        assert(items[k] is Err || first_error(items) == items.len());
    }
}

/// A position at or before the first error that holds an error is the first
/// error.
proof fn lemma_first_error_here(items: Seq<Result<Vec<u8>, ApiError>>, k: int)
    requires
        0 <= k < items.len(),
        k <= first_error(items),
        items[k] is Err,
    ensures
        first_error(items) == k,
{
    lemma_ok_chunks_props(items);
    if k < first_error(items) {
        assert(items[k] is Ok);
    }
}


/// Runs a fallible stream through a `ChunkedStream`: the first upstream
/// error stops the run at once and comes back verbatim; the full chunks cut
/// so far have been emitted and the partial remainder is lost, never
/// flushed. A stream that ends cleanly is re-framed exactly as `run_chunked`
/// frames it.
#[verifier::loop_isolation(false)]
pub fn run_chunked_fallible(items: Vec<Result<Vec<u8>, ApiError>>, chunk_size: usize) -> (r: (
    Vec<Vec<u8>>,
    Option<ApiError>,
))
    requires
        chunk_size >= 1,
        concat_of(ok_chunks(items@)).len() <= usize::MAX,
    ensures
        ({
            let prefix = ok_chunks(items@);
            let total = concat_of(prefix);
            if first_error(items@) == items@.len() {
                &&& concat_of(r.0.deep_view()) == total
                &&& (forall|j: int|
                    0 <= j < r.0.deep_view().len() ==> 0 < #[trigger] r.0.deep_view()[j].len()
                        <= chunk_size)
                &&& (forall|j: int|
                    0 <= j < r.0.deep_view().len() - 1 ==> #[trigger] r.0.deep_view()[j].len()
                        == chunk_size)
                &&& r.0@.len() == div_ceil(total.len() as int, chunk_size as int)
                &&& r.1 is None
            } else {
                &&& (forall|j: int|
                    0 <= j < r.0.deep_view().len() ==> #[trigger] r.0.deep_view()[j].len()
                        == chunk_size)
                &&& concat_of(r.0.deep_view()) == total.take(
                    total.len() as int - (total.len() as int % (chunk_size as int)),
                )
                &&& r.1 matches Some(e) && items@[first_error(items@)] matches Err(e0) && e == e0
            }
        }),
{
    let ghost orig = items@;
    let ghost prefix = ok_chunks(orig);
    proof {
        lemma_ok_chunks_props(orig);
    }
    let mut items = items;
    let items_len = items.len();
    proof {
        assert(orig.len() == items_len);
    }
    let mut stage = ChunkedStream::new(chunk_size);
    let mut out: Vec<Vec<u8>> = Vec::new();
    let mut k: usize = 0;
    while items.len() > 0
        invariant
            chunk_size >= 1,
            stage.chunk_size == chunk_size,
            items@ == orig.skip(k as int),
            0 <= k <= first_error(orig),
            concat_of(out.deep_view()) + stage.buffer@ == concat_of(prefix.take(k as int)),
            stage.buffer@.len() < chunk_size,
            forall|j: int| 0 <= j < out.deep_view().len() ==> #[trigger] out.deep_view()[j].len()
                == chunk_size,
        decreases orig.len() - k,
    {
        proof {
            assert(k < orig.len());
        }
        let item = items.remove(0);
        proof {
            assert(item == orig[k as int]);
            assert(items@ =~= orig.skip(k as int + 1));
        }
        match item {
            Err(e) => {
                proof {
                    lemma_first_error_here(orig, k as int);
                    assert(prefix.take(k as int) =~= prefix);
                    let total = concat_of(prefix);
                    let full = out.deep_view().len() as int;
                    lemma_concat_uniform_len(out.deep_view(), chunk_size as int);
                    vstd::arithmetic::div_mod::lemma_fundamental_div_mod_converse(
                        total.len() as int,
                        chunk_size as int,
                        full,
                        stage.buffer@.len() as int,
                    );
                    assert(concat_of(out.deep_view()) =~= total.take(
                        total.len() as int - (total.len() as int % (chunk_size as int)),
                    ));
                }
                return (out, Some(e));
            },
            Ok(chunk) => {
                proof {
                    lemma_ok_here(orig, k as int);
                    assert(prefix[k as int] == chunk@);
                    lemma_concat_take_len(prefix, k as int);
                    lemma_concat_take_succ(prefix, k as int);
                }
                stage.push(chunk.as_slice());
                k += 1;
                while stage.buffer.len() >= stage.chunk_size
                    invariant
                        chunk_size >= 1,
                        stage.chunk_size == chunk_size,
                        concat_of(out.deep_view()) + stage.buffer@ == concat_of(
                            prefix.take(k as int),
                        ),
                        forall|j: int|
                            0 <= j < out.deep_view().len()
                                ==> #[trigger] out.deep_view()[j].len() == chunk_size,
                    decreases stage.buffer@.len(),
                {
                    let ghost old_out = out.deep_view();
                    let ghost old_buf = stage.buffer@;
                    match stage.next_chunk() {
                        Some(data) => {
                            proof {
                                lemma_concat_push(old_out, data@);
                            }
                            out.push(data);
                            proof {
                                assert(out.deep_view() =~~= old_out.push(
                                    old_buf.take(chunk_size as int),
                                ));
                                assert(old_buf.take(chunk_size as int) + old_buf.skip(
                                    chunk_size as int,
                                ) =~= old_buf);
                                assert((concat_of(old_out) + old_buf.take(chunk_size as int))
                                    + old_buf.skip(chunk_size as int) =~= concat_of(old_out)
                                    + old_buf);
                            }
                        },
                        None => {
                            proof {
                                assert(false);
                            }
                        },
                    }
                }
            },
        }
    }
    proof {
        assert(k == orig.len());
        assert(first_error(orig) == orig.len());
        assert(prefix.take(k as int) =~= prefix);
    }
    let ghost full = out.deep_view().len() as int;
    let ghost rem = stage.buffer@.len() as int;
    proof {
        lemma_concat_uniform_len(out.deep_view(), chunk_size as int);
    }
    let ghost old_out = out.deep_view();
    let ghost old_buf = stage.buffer@;
    match stage.finish() {
        Some(data) => {
            proof {
                lemma_concat_push(old_out, data@);
            }
            out.push(data);
            proof {
                assert(out.deep_view() =~~= old_out.push(old_buf));
                assert(concat_of(out.deep_view()) =~= concat_of(prefix));
                lemma_chunk_count(full, chunk_size as int, rem);
            }
        },
        None => {
            proof {
                assert(concat_of(out.deep_view()) + Seq::<u8>::empty() =~= concat_of(
                    out.deep_view(),
                ));
                lemma_chunk_count(full, chunk_size as int, rem);
            }
        },
    }
    (out, None)
}


/// Runs a fallible stream through a `RateLimitedStream`: the first upstream
/// error stops the run at once and comes back verbatim; the chunks before
/// it pass through exactly as they arrived, having waited for as many ticks
/// as the pacing meaning of that prefix says. Pacing only delays delivery;
/// it never alters content or framing.
#[verifier::loop_isolation(false)]
pub fn run_rate_limited_fallible(items: Vec<Result<Vec<u8>, ApiError>>, bytes_per_second: u64)
    -> (r: (Vec<Vec<u8>>, u64, Option<ApiError>))
    requires
        forall|j: int|
            0 <= j < ok_chunks(items@).len() ==> #[trigger] ok_chunks(items@)[j].len()
                + bytes_per_second / 10 <= u64::MAX,
    ensures
        r.0.deep_view() == ok_chunks(items@),
        r.1 as int == spec_rate_steps(ok_chunks(items@), (bytes_per_second / 10) as int, 0, 0).0,
        ({
            if first_error(items@) == items@.len() {
                r.2 is None
            } else {
                r.2 matches Some(e) && items@[first_error(items@)] matches Err(e0) && e == e0
            }
        }),
{
    let ghost orig = items@;
    let ghost prefix = ok_chunks(orig);
    proof {
        lemma_ok_chunks_props(orig);
        assert(prefix.skip(0) =~= prefix);
        assert(prefix.take(0) =~~= Seq::<Seq<u8>>::empty());
    }
    let mut items = items;
    let items_len = items.len();
    proof {
        assert(orig.len() == items_len);
    }
    let mut limiter = RateLimitedStream::new(bytes_per_second);
    let mut out: Vec<Vec<u8>> = Vec::new();
    let mut ticks: u64 = 0;
    let mut k: usize = 0;
    while items.len() > 0
        invariant
            limiter.bytes_per_tick == bytes_per_second / 10,
            items@ == orig.skip(k as int),
            0 <= k <= first_error(orig),
            out.deep_view() =~~= prefix.take(k as int),
            ticks <= k,
            limiter.pending_bytes <= limiter.bytes_per_tick || k > 0,
            spec_rate_steps(prefix, limiter.bytes_per_tick as int, 0, 0) == spec_rate_steps(
                prefix.skip(k as int),
                limiter.bytes_per_tick as int,
                ticks as int,
                limiter.pending_bytes as int,
            ),
        decreases orig.len() - k,
    {
        proof {
            assert(k < orig.len());
        }
        let item = items.remove(0);
        proof {
            assert(item == orig[k as int]);
            assert(items@ =~= orig.skip(k as int + 1));
        }
        match item {
            Err(e) => {
                proof {
                    lemma_first_error_here(orig, k as int);
                    assert(prefix.take(k as int) =~= prefix);
                    assert(prefix.skip(k as int) =~= Seq::<Seq<u8>>::empty());
                }
                return (out, ticks, Some(e));
            },
            Ok(chunk) => {
                proof {
                    lemma_ok_here(orig, k as int);
                    assert(prefix[k as int] == chunk@);
                    assert(prefix.skip(k as int).drop_first() =~= prefix.skip(k as int + 1));
                    assert(prefix.skip(k as int)[0] == prefix[k as int]);
                }
                if limiter.needs_tick() {
                    limiter.on_tick();
                    ticks = ticks + 1;
                }
                let len = chunk.len() as u64;
                limiter.charge(len);
                let ghost old_out = out.deep_view();
                out.push(chunk);
                proof {
                    assert(out.deep_view() =~~= old_out.push(prefix[k as int]));
                    assert(prefix.take(k as int + 1) =~~= prefix.take(k as int).push(
                        prefix[k as int],
                    ));
                }
                k += 1;
            },
        }
    }
    proof {
        assert(k == orig.len());
        assert(first_error(orig) == orig.len());
        assert(prefix.take(k as int) =~= prefix);
        assert(prefix.skip(k as int) =~= Seq::<Seq<u8>>::empty());
    }
    (out, ticks, None)
}

/// Runs a fallible stream through a `ProgressStream`: the first upstream
/// error stops the run at once and comes back verbatim; the chunks before
/// it pass through exactly as they arrived, and the reported total is their
/// total length, every one of them having been observed before the error.
#[verifier::loop_isolation(false)]
pub fn run_progress_fallible(items: Vec<Result<Vec<u8>, ApiError>>) -> (r: (
    Vec<Vec<u8>>,
    u64,
    Option<ApiError>,
))
    requires
        concat_of(ok_chunks(items@)).len() <= u64::MAX,
    ensures
        r.0.deep_view() == ok_chunks(items@),
        r.1 == concat_of(ok_chunks(items@)).len(),
        ({
            if first_error(items@) == items@.len() {
                r.2 is None
            } else {
                r.2 matches Some(e) && items@[first_error(items@)] matches Err(e0) && e == e0
            }
        }),
{
    let ghost orig = items@;
    let ghost prefix = ok_chunks(orig);
    proof {
        lemma_ok_chunks_props(orig);
        assert(prefix.take(0) =~~= Seq::<Seq<u8>>::empty());
    }
    let mut items = items;
    let items_len = items.len();
    proof {
        assert(orig.len() == items_len);
    }
    let mut tracker = ProgressStream::new();
    let mut out: Vec<Vec<u8>> = Vec::new();
    let mut k: usize = 0;
    while items.len() > 0
        invariant
            items@ == orig.skip(k as int),
            0 <= k <= first_error(orig),
            out.deep_view() =~~= prefix.take(k as int),
            tracker.total_bytes == concat_of(prefix.take(k as int)).len(),
        decreases orig.len() - k,
    {
        proof {
            assert(k < orig.len());
        }
        let item = items.remove(0);
        proof {
            assert(item == orig[k as int]);
            assert(items@ =~= orig.skip(k as int + 1));
        }
        match item {
            Err(e) => {
                proof {
                    lemma_first_error_here(orig, k as int);
                    assert(prefix.take(k as int) =~= prefix);
                }
                return (out, tracker.total_bytes, Some(e));
            },
            Ok(chunk) => {
                proof {
                    lemma_ok_here(orig, k as int);
                    assert(prefix[k as int] == chunk@);
                    lemma_concat_take_len(prefix, k as int);
                    lemma_concat_take_succ(prefix, k as int);
                }
                let len = chunk.len() as u64;
                tracker.observe(len);
                let ghost old_out = out.deep_view();
                out.push(chunk);
                proof {
                    assert(out.deep_view() =~~= old_out.push(prefix[k as int]));
                    assert(prefix.take(k as int + 1) =~~= prefix.take(k as int).push(
                        prefix[k as int],
                    ));
                }
                k += 1;
            },
        }
    }
    proof {
        assert(k == orig.len());
        assert(first_error(orig) == orig.len());
        assert(prefix.take(k as int) =~= prefix);
    }
    (out, tracker.total_bytes, None)
}

} // verus!





