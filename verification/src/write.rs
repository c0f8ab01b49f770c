//! Raw image to device write engine: what is done with each chunk.
//!
//! A job reads the image in chunks, writes each to the device, flushes, and, if
//! asked to, reads both again and compares them. It can be cancelled between
//! chunks.

use crate::copy::wrap64;
use crate::text::{dec, push_dec};
use vstd::prelude::*;
use vstd::string::*;

verus! {

pub const CHUNK_SIZE: usize = 4_194_304;

#[derive(Debug, Clone, Copy, PartialEq, Eq, Structural)]
pub struct WriteProgress {
    pub bytes_done: u64,
    pub total: u64,
    pub verifying: bool,
}

#[derive(Debug, Clone, Copy, PartialEq, Eq, Structural)]
pub enum WriteOutcome {
    Completed,
    Cancelled,
}

/// What comes after a read into a buffer that is to be filled.
#[derive(Debug, Clone, Copy, PartialEq, Eq, Structural)]
pub enum Fill {
    /// Read again, into the buffer from this offset on.
    More(usize),
    /// So many bytes are there: the buffer is full, or the input has ended.
    Full(usize),
}

/// Fills a buffer completely unless the input ends first.
pub fn read_full(filled: usize, len: usize, n: usize) -> (r: Fill)
    requires
        filled + n <= len,
    ensures
        r == if n == 0 || filled + n == len {
            Fill::Full((filled + n) as usize)
        } else {
            Fill::More((filled + n) as usize)
        },
{
    if n == 0 || filled + n == len {
        Fill::Full(filled + n)
    } else {
        Fill::More(filled + n)
    }
}

/// What a job does next.
#[derive(Debug, Clone, Copy, PartialEq, Eq, Structural)]
pub enum WriteAction {
    /// Read a chunk of the image.
    ReadSource,
    /// Write the chunk that was read.
    WriteChunk,
    /// Flush the device and wait until it is written.
    Sync,
    /// Open the image again and go back to the start of the device.
    Rewind,
    /// Read back as much of the device as a chunk holds.
    ReadBack,
    /// The job is over.
    Finish(WriteOutcome),
}

/// A job that writes `total` bytes to a device.
#[derive(Debug, Clone, Copy, PartialEq, Eq, Structural)]
pub struct WriteJob {
    pub total: u64,
    pub verify: bool,
    /// Whether the job is reading back.
    pub verifying: bool,
    /// Bytes written, or compared, so far; modulo 2^64.
    pub done: u64,
}

/// Where the two chunks first differ.
pub open spec fn first_difference(a: Seq<u8>, b: Seq<u8>) -> int
    decreases a.len(),
{
    if a.len() == 0 || b.len() == 0 || a[0] != b[0] {
        0
    } else {
        1 + first_difference(a.drop_first(), b.drop_first())
    }
}

/// What is said of a chunk that was read back wrong: the device ends too soon,
/// or a byte differs.
pub open spec fn chunk_error(src: Seq<u8>, dst: Seq<u8>, offset: int) -> Option<Seq<char>> {
    if dst.len() < src.len() {
        Some(
            "destination shorter than image: missing "@ + dec((src.len() - dst.len()) as nat)
                + " bytes at offset "@ + dec(offset as nat),
        )
    } else if dst.take(src.len() as int) != src {
        Some(
            "verification mismatch at offset "@ + dec(
                wrap64(offset + first_difference(src, dst)) as nat,
            ),
        )
    } else {
        None
    }
}

proof fn lemma_difference(a: Seq<u8>, b: Seq<u8>)
    requires
        a.len() <= b.len(),
    ensures
        0 <= first_difference(a, b) <= a.len(),
        first_difference(a, b) == a.len() <==> b.take(a.len() as int) == a,
    decreases a.len(),
{
    if a.len() > 0 {
        let x = a.drop_first();
        let y = b.drop_first();
        lemma_difference(x, y);
        if a[0] == b[0] {
            if y.take(x.len() as int) == x {
                assert forall|i: int| 0 <= i < a.len() implies b.take(a.len() as int)[i] == a[i] by {
                    if i > 0 {
                        assert(y.take(x.len() as int)[i - 1] == x[i - 1]);
                    }
                }
                assert(b.take(a.len() as int) =~= a);
            }
            if b.take(a.len() as int) == a {
                assert forall|i: int| 0 <= i < x.len() implies y.take(x.len() as int)[i]
                    == x[i] by {
                    assert(b.take(a.len() as int)[i + 1] == a[i + 1]);
                }
                assert(y.take(x.len() as int) =~= x);
            }
        } else {
            if b.take(a.len() as int) == a {
                assert(b.take(a.len() as int)[0] == a[0]);
            }
        }
    } else {
        assert(b.take(0) =~= a);
    }
}

impl WriteJob {
    pub fn new(total: u64, verify: bool) -> (j: WriteJob)
        ensures
            j == (WriteJob { total, verify, verifying: false, done: 0 }),
    {
        WriteJob { total, verify, verifying: false, done: 0 }
    }

    /// Between chunks: stop where a cancel was asked for, else read on.
    pub fn next_chunk(&self, cancel: bool) -> (a: WriteAction)
        ensures
            a == if cancel {
                WriteAction::Finish(WriteOutcome::Cancelled)
            } else {
                WriteAction::ReadSource
            },
    {
        if cancel {
            WriteAction::Finish(WriteOutcome::Cancelled)
        } else {
            WriteAction::ReadSource
        }
    }

    /// A chunk of `n` bytes of the image was read; none means that it has
    /// ended. What a larger device holds behind the image is not compared.
    pub fn source_read(&self, n: usize) -> (a: WriteAction)
        ensures
            a == match (self.verifying, n == 0) {
                (false, false) => WriteAction::WriteChunk,
                (false, true) => WriteAction::Sync,
                (true, false) => WriteAction::ReadBack,
                (true, true) => WriteAction::Finish(WriteOutcome::Completed),
            },
    {
        if self.verifying {
            if n == 0 {
                WriteAction::Finish(WriteOutcome::Completed)
            } else {
                WriteAction::ReadBack
            }
        } else if n == 0 {
            WriteAction::Sync
        } else {
            WriteAction::WriteChunk
        }
    }

    /// A chunk of `n` bytes was written.
    pub fn chunk_written(&mut self, n: usize) -> (p: WriteProgress)
        ensures
            final(self).done == wrap64(old(self).done + n),
            final(self).total == old(self).total,
            final(self).verify == old(self).verify,
            final(self).verifying == old(self).verifying,
            p == (WriteProgress {
                bytes_done: final(self).done,
                total: old(self).total,
                verifying: old(self).verifying,
            }),
    {
        self.done = self.done.wrapping_add(n as u64);
        WriteProgress { bytes_done: self.done, total: self.total, verifying: self.verifying }
    }

    /// The device holds everything.
    pub fn synced(&mut self) -> (a: WriteAction)
        ensures
            final(self).total == old(self).total,
            final(self).verify == old(self).verify,
            old(self).verify ==> a == WriteAction::Rewind,
            old(self).verify ==> final(self).verifying,
            old(self).verify ==> final(self).done == 0,
            !old(self).verify ==> a == WriteAction::Finish(WriteOutcome::Completed)
                && *final(self) == *old(self),
    {
        if self.verify {
            self.verifying = true;
            self.done = 0;
            WriteAction::Rewind
        } else {
            WriteAction::Finish(WriteOutcome::Completed)
        }
    }

    /// A chunk of the image and what was read back for it.
    pub fn compare_chunk(&mut self, src: &[u8], dst: &[u8]) -> (r: Result<WriteProgress, String>)
        ensures
            final(self).total == old(self).total,
            final(self).verify == old(self).verify,
            final(self).verifying == old(self).verifying,
            match r {
                Ok(p) => {
                    &&& chunk_error(src@, dst@, old(self).done as int) is None
                    &&& final(self).done == wrap64(old(self).done + src@.len())
                    &&& p == (WriteProgress {
                        bytes_done: final(self).done,
                        total: old(self).total,
                        verifying: old(self).verifying,
                    })
                },
                Err(e) => chunk_error(src@, dst@, old(self).done as int) == Some(e@)
                    && final(self).done == old(self).done,
            },
    {
        if dst.len() < src.len() {
            let mut e: String = "destination shorter than image: missing ".to_owned();
            push_dec(&mut e, (src.len() - dst.len()) as u64);
            e.append(" bytes at offset ");
            push_dec(&mut e, self.done);
            return Err(e);
        }
        proof {
            lemma_difference(src@, dst@);
            assert(src@.skip(0) =~= src@);
            assert(dst@.skip(0) =~= dst@);
        }
        let mut pos: usize = 0;
        while pos < src.len() && src[pos] == dst[pos]
            invariant
                pos <= src@.len() <= dst@.len(),
                first_difference(src@, dst@) == pos + first_difference(
                    src@.skip(pos as int),
                    dst@.skip(pos as int),
                ),
            decreases src@.len() - pos,
        {
            assert(src@.skip(pos as int).drop_first() =~= src@.skip(pos + 1));
            assert(dst@.skip(pos as int).drop_first() =~= dst@.skip(pos + 1));
            pos += 1;
        }
        assert(first_difference(src@, dst@) == pos);
        if pos < src.len() {
            let mut e: String = "verification mismatch at offset ".to_owned();
            push_dec(&mut e, self.done.wrapping_add(pos as u64));
            return Err(e);
        }
        Ok(self.chunk_written(src.len()))
    }
}

// ---- what a verified write means --------------------------------------------------

/// The chunks of the image one behind another.
pub open spec fn image_of(chunks: Seq<(Seq<u8>, Seq<u8>)>) -> Seq<u8>
    decreases chunks.len(),
{
    if chunks.len() == 0 {
        seq![]
    } else {
        image_of(chunks.drop_last()) + chunks.last().0
    }
}

/// What was read back, each chunk as long as that of the image.
pub open spec fn read_back(chunks: Seq<(Seq<u8>, Seq<u8>)>) -> Seq<u8>
    decreases chunks.len(),
{
    if chunks.len() == 0 {
        seq![]
    } else {
        read_back(chunks.drop_last()) + chunks.last().1.take(chunks.last().0.len() as int)
    }
}

/// Whether a verify pass finds every chunk as it should be, each at the place
/// where the chunks before it end.
pub open spec fn passes(chunks: Seq<(Seq<u8>, Seq<u8>)>) -> bool
    decreases chunks.len(),
{
    chunks.len() == 0 || (passes(chunks.drop_last()) && chunk_error(
        chunks.last().0,
        chunks.last().1,
        image_of(chunks.drop_last()).len() as int,
    ) is None)
}

/// Whether as much was read back as was written.
pub open spec fn long_enough(chunks: Seq<(Seq<u8>, Seq<u8>)>) -> bool {
    forall|i: int| 0 <= i < chunks.len() ==> (#[trigger] chunks[i]).0.len() <= chunks[i].1.len()
}

proof fn lemma_read_back_len(chunks: Seq<(Seq<u8>, Seq<u8>)>)
    requires
        long_enough(chunks),
    ensures
        read_back(chunks).len() == image_of(chunks).len(),
    decreases chunks.len(),
{
    if chunks.len() > 0 {
        let front = chunks.drop_last();
        assert forall|i: int| 0 <= i < front.len() implies (#[trigger] front[i]).0.len()
            <= front[i].1.len() by {
            assert(front[i] == chunks[i]);
        }
        lemma_read_back_len(front);
        assert(chunks[chunks.len() - 1].0.len() <= chunks[chunks.len() - 1].1.len());
    }
}

/// A verify pass succeeds if and only if the image stands on the device, byte
/// for byte, whatever a larger device holds behind it.
pub proof fn law_verify_is_exact(chunks: Seq<(Seq<u8>, Seq<u8>)>)
    ensures
        passes(chunks) <==> long_enough(chunks) && read_back(chunks) == image_of(chunks),
    decreases chunks.len(),
{
    if chunks.len() > 0 {
        let front = chunks.drop_last();
        let (src, dst) = chunks.last();
        law_verify_is_exact(front);
        if passes(chunks) {
            assert forall|i: int| 0 <= i < chunks.len() implies (#[trigger] chunks[i]).0.len()
                <= chunks[i].1.len() by {
                if i < front.len() {
                    assert(front[i] == chunks[i]);
                }
            }
        }
        if long_enough(chunks) && read_back(chunks) == image_of(chunks) {
            assert forall|i: int| 0 <= i < front.len() implies (#[trigger] front[i]).0.len()
                <= front[i].1.len() by {
                assert(front[i] == chunks[i]);
            }
            assert(chunks[chunks.len() - 1].0.len() <= chunks[chunks.len() - 1].1.len());
            lemma_read_back_len(front);
            let n = image_of(front).len() as int;
            let d = dst.take(src.len() as int);
            assert(read_back(chunks).take(n) =~= read_back(front));
            assert(image_of(chunks).take(n) =~= image_of(front));
            assert(read_back(chunks).skip(n) =~= d);
            assert(image_of(chunks).skip(n) =~= src);
        }
    }
}

/// A byte that differs is found: with one in a chunk, the chunk is an error.
pub proof fn law_corruption_is_found(src: Seq<u8>, dst: Seq<u8>, offset: int, i: int)
    requires
        0 <= i < src.len(),
        i >= dst.len() || dst[i] != src[i],
    ensures
        chunk_error(src, dst, offset) is Some,
{
    if dst.len() >= src.len() && dst.take(src.len() as int) == src {
        assert(dst.take(src.len() as int)[i] == dst[i]);
    }
}

/// The words for a finished write.
pub open spec fn written_text(verify: bool, device: Seq<char>) -> Seq<char> {
    (if verify {
        "image written and verified to "@
    } else {
        "image written to "@
    }) + device
}

pub fn written_message(verify: bool, device: &str) -> (m: String)
    ensures
        m@ == written_text(verify, device@),
{
    let mut m: String = if verify {
        "image written and verified to ".to_owned()
    } else {
        "image written to ".to_owned()
    };
    m.append(device);
    m
}

} // verus!
