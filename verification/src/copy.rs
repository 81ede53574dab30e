//! Encrypted copy engine.
//!
//! Both copy modes — buffered (8 KiB blocks, with progress reporting) and
//! byte-at-a-time (interactive paths) — repeat one step: read a block, apply
//! the keystream, write the block out, add its length to the running total.
//! The step and the decision taken on each read outcome live here, verified;
//! the unverified shell supplies the actual reads and writes.

use vstd::prelude::*;

use crate::cipher::{xor_stream, Crypto};

verus! {

/// Block size of the buffered copy mode.
pub const COPY_BUF_SIZE: usize = 8192;

/// Block size of the byte-at-a-time copy mode.
pub const COPY_UNBUFFERED_SIZE: usize = 1;

/// What one read of the source returned: `Len(0)` is end of stream,
/// `Interrupted` a transient signal, `Failed` any other I/O error.
#[derive(Clone, Copy, PartialEq, Eq, Structural, Debug)]
pub enum ReadOutcome {
    Len(usize),
    Interrupted,
    Failed,
}

/// What the copy loop does with that outcome.
#[derive(Clone, Copy, PartialEq, Eq, Structural, Debug)]
pub enum CopyDecision {
    /// End of stream: return the running total successfully.
    Finish,
    /// A block arrived: cipher it, write it, extend the total.
    Process,
    /// Transient interruption: silently retry the same read.
    Retry,
    /// Any other error: abort the copy and propagate the error.
    Abort,
}

/// The copy loop's reaction to one read outcome.
pub open spec fn spec_classify_read(r: ReadOutcome) -> CopyDecision {
    match r {
        ReadOutcome::Len(n) => if n == 0 {
            CopyDecision::Finish
        } else {
            CopyDecision::Process
        },
        ReadOutcome::Interrupted => CopyDecision::Retry,
        ReadOutcome::Failed => CopyDecision::Abort,
    }
}

/// Decides what the copy loop does with one read outcome: end of stream
/// finishes with the running total, a block is processed, an interrupted
/// read is retried silently, any other error aborts the copy.
pub fn classify_read(r: ReadOutcome) -> (d: CopyDecision)
    ensures
        d == spec_classify_read(r),
{
    match r {
        ReadOutcome::Len(n) => if n == 0 {
            CopyDecision::Finish
        } else {
            CopyDecision::Process
        },
        ReadOutcome::Interrupted => CopyDecision::Retry,
        ReadOutcome::Failed => CopyDecision::Abort,
    }
}

impl Crypto {
    /// One copy step: ciphers the block in place at the current keystream
    /// position and returns the new cumulative byte count, which is also the
    /// progress value the buffered mode reports. The count grows by exactly
    /// the block's length, so on nonempty blocks it strictly increases and
    /// never reports zero.
    pub fn copy_chunk(&mut self, chunk: &mut Vec<u8>, written: u64) -> (total: u64)
        requires
            written + old(chunk)@.len() <= u64::MAX,
            old(self).pos() + old(chunk)@.len() <= u64::MAX,
        ensures
            total == written + old(chunk)@.len(),
            old(chunk)@.len() > 0 ==> total > written,
            final (chunk)@ == xor_stream(
                old(self).key(),
                old(self).iv(),
                old(self).pos() as int,
                old(chunk)@,
            ),
            final (self).key() == old(self).key(),
            final (self).iv() == old(self).iv(),
            final (self).pos() == old(self).pos() + old(chunk)@.len(),
    {
        let len = chunk.len();
        self.apply(chunk);
        written + (len as u64)
    }
}

/// Overwrites every byte of the scratch block with zero, keeping its length:
/// the byte-at-a-time mode scrubs its block after each write so no plaintext
/// lingers in memory.
pub fn zero_buf(buf: &mut Vec<u8>)
    ensures
        final (buf)@.len() == old(buf)@.len(),
        forall|i: int| 0 <= i < final (buf)@.len() ==> final (buf)@[i] == 0u8,
{
    let n = buf.len();
    let mut i: usize = 0;
    while i < n
        invariant
            n == buf@.len(),
            0 <= i <= n,
            forall|j: int| 0 <= j < i ==> buf@[j] == 0u8,
        decreases n - i,
    {
        buf.set(i, 0u8);
        i = i + 1;
    }
}

/// What the progress consumer does with one received update.
#[derive(Clone, Copy, PartialEq, Eq, Structural, Debug)]
pub enum ProgressStep {
    /// The zero sentinel: no more updates will follow. Stop listening — it
    /// does not mean zero bytes were transferred.
    Stop,
    /// A cumulative byte count to report.
    Report(u64),
}

/// The progress consumer's decision on one update: zero is the explicit
/// end-of-updates sentinel, every other value a cumulative count to report.
pub fn progress_step(counter: u64) -> (r: ProgressStep)
    ensures
        counter == 0 ==> r == ProgressStep::Stop,
        counter != 0 ==> r == ProgressStep::Report(counter),
{
    if counter == 0 {
        ProgressStep::Stop
    } else {
        ProgressStep::Report(counter)
    }
}

/// Cumulative byte count after the first `i` blocks of the given lengths.
pub open spec fn total_after(lens: Seq<nat>, i: int) -> nat
    decreases i,
{
    if i <= 0 {
        0
    } else {
        total_after(lens, i - 1) + lens[i - 1]
    }
}

proof fn lemma_total_after_mono(lens: Seq<nat>, i: int, j: int)
    requires
        0 <= i < j <= lens.len(),
        forall|k: int| 0 <= k < lens.len() ==> lens[k] > 0,
    ensures
        total_after(lens, i) < total_after(lens, j),
    decreases j - i,
{
    if i + 1 < j {
        lemma_total_after_mono(lens, i, j - 1);
    }
}

/// Progress reporting law: during a buffered copy whose blocks are all
/// nonempty, the cumulative counts reported after each block form a strictly
/// increasing sequence of positive values. Zero is therefore never one of
/// the reports; it serves only as the explicit end-of-updates sentinel sent
/// after the last real report.
pub proof fn lemma_progress_strictly_increasing(lens: Seq<nat>)
    requires
        forall|k: int| 0 <= k < lens.len() ==> lens[k] > 0,
    ensures
        forall|i: int, j: int|
            0 <= i < j <= lens.len() ==> total_after(lens, i) < total_after(lens, j),
        forall|i: int| 0 < i <= lens.len() ==> total_after(lens, i) > 0,
{
    assert forall|i: int, j: int|
        0 <= i < j <= lens.len() implies total_after(lens, i) < total_after(lens, j) by {
        lemma_total_after_mono(lens, i, j);
    }
    assert forall|i: int| 0 < i <= lens.len() implies total_after(lens, i) > 0 by {
        lemma_total_after_mono(lens, 0, i);
    }
}

/// The lengths of the blocks, in order.
pub open spec fn chunk_lens(chunks: Seq<Seq<u8>>) -> Seq<nat> {
    chunks.map_values(|c: Seq<u8>| c.len())
}

/// The bytes of all blocks in order.
pub open spec fn concat_chunks(chunks: Seq<Seq<u8>>) -> Seq<u8>
    decreases chunks.len(),
{
    if chunks.len() == 0 {
        Seq::empty()
    } else {
        chunks.first() + concat_chunks(chunks.drop_first())
    }
}

/// Concatenating one more block appends its bytes.
proof fn lemma_concat_push(chunks: Seq<Seq<u8>>, x: Seq<u8>)
    ensures
        concat_chunks(chunks.push(x)) == concat_chunks(chunks) + x,
    decreases chunks.len(),
{
    if chunks.len() == 0 {
        assert(chunks.push(x).drop_first() =~~= Seq::<Seq<u8>>::empty());
        assert(chunks.push(x).first() == x);
        assert(concat_chunks(chunks.push(x).drop_first()) == Seq::<u8>::empty());
        assert(concat_chunks(chunks.push(x)) == x + Seq::<u8>::empty());
        assert(x + Seq::<u8>::empty() =~= Seq::<u8>::empty() + x);
    } else {
        let rest = chunks.drop_first();
        assert(chunks.push(x).first() == chunks.first());
        assert(chunks.push(x).drop_first() =~~= rest.push(x));
        lemma_concat_push(rest, x);
        assert(concat_chunks(chunks.push(x)) == chunks.first() + (concat_chunks(rest) + x));
        assert(chunks.first() + (concat_chunks(rest) + x) =~= (chunks.first() + concat_chunks(
            rest,
        )) + x);
    }
}

/// The cumulative count after the first `i` blocks is the length of the
/// bytes those blocks carry.
proof fn lemma_total_take(chunks: Seq<Seq<u8>>, i: int)
    requires
        0 <= i <= chunks.len(),
    ensures
        total_after(chunk_lens(chunks), i) == concat_chunks(chunks.take(i)).len(),
    decreases i,
{
    if i == 0 {
        assert(chunks.take(0) =~= Seq::<Seq<u8>>::empty());
    } else {
        lemma_total_take(chunks, i - 1);
        assert(chunks.take(i) =~= chunks.take(i - 1).push(chunks[i - 1]));
        lemma_concat_push(chunks.take(i - 1), chunks[i - 1]);
        assert(chunk_lens(chunks)[i - 1] == chunks[i - 1].len());
    }
}

/// Progress reporting law, completed: the last report of a buffered copy is
/// the transferred total — the length of the whole byte stream carried by
/// its blocks.
pub proof fn lemma_progress_ends_at_total(chunks: Seq<Seq<u8>>)
    ensures
        total_after(chunk_lens(chunks), chunks.len() as int) == concat_chunks(chunks).len(),
{
    lemma_total_take(chunks, chunks.len() as int);
    assert(chunks.take(chunks.len() as int) =~= chunks);
}

/// The output of a copy that ciphers the blocks one after another with a
/// single instance: each block is transformed at the keystream position the
/// previous blocks advanced to.
pub open spec fn cipher_chunks(key: Seq<u8>, iv: Seq<u8>, pos: int, chunks: Seq<Seq<u8>>) -> Seq<
    u8,
>
    decreases chunks.len(),
{
    if chunks.len() == 0 {
        Seq::empty()
    } else {
        xor_stream(key, iv, pos, chunks.first()) + cipher_chunks(
            key,
            iv,
            pos + chunks.first().len(),
            chunks.drop_first(),
        )
    }
}

/// Splitting a block in two and ciphering the halves at consecutive
/// positions gives the same bytes as ciphering the whole.
proof fn lemma_xor_stream_append(key: Seq<u8>, iv: Seq<u8>, pos: int, a: Seq<u8>, b: Seq<u8>)
    ensures
        xor_stream(key, iv, pos, a + b) == xor_stream(key, iv, pos, a) + xor_stream(
            key,
            iv,
            pos + a.len(),
            b,
        ),
{
    assert(xor_stream(key, iv, pos, a + b) =~= xor_stream(key, iv, pos, a) + xor_stream(
        key,
        iv,
        pos + a.len(),
        b,
    ));
}

/// Chunking law: a copy that ciphers block after block with one instance
/// produces exactly the keystream transform of the whole byte stream —
/// however the stream was cut into blocks.
pub proof fn lemma_cipher_chunks_is_whole(
    key: Seq<u8>,
    iv: Seq<u8>,
    pos: int,
    chunks: Seq<Seq<u8>>,
)
    ensures
        cipher_chunks(key, iv, pos, chunks) == xor_stream(key, iv, pos, concat_chunks(chunks)),
    decreases chunks.len(),
{
    if chunks.len() == 0 {
        assert(cipher_chunks(key, iv, pos, chunks) =~= xor_stream(
            key,
            iv,
            pos,
            concat_chunks(chunks),
        ));
    } else {
        let head = chunks.first();
        let tail = chunks.drop_first();
        lemma_cipher_chunks_is_whole(key, iv, pos + head.len(), tail);
        lemma_xor_stream_append(key, iv, pos, head, concat_chunks(tail));
    }
}

/// Transfer law: if the wire carried the keystream transform of some
/// plaintext, then deciphering the received blocks one after another with a
/// fresh instance — whatever block boundaries the transport produced —
/// reconstructs the plaintext exactly.
pub proof fn lemma_transfer_roundtrip(
    key: Seq<u8>,
    iv: Seq<u8>,
    plain: Seq<u8>,
    chunks: Seq<Seq<u8>>,
)
    requires
        concat_chunks(chunks) == xor_stream(key, iv, 0, plain),
    ensures
        cipher_chunks(key, iv, 0, chunks) == plain,
{
    lemma_cipher_chunks_is_whole(key, iv, 0, chunks);
    crate::cipher::lemma_xor_stream_roundtrip(key, iv, 0, plain);
}

} // verus!
