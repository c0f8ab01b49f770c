//! The write engine, driven over buffers in memory.

use ferrus::helper::{plan_reply, write_reply};
use ferrus::protocol::Response;
use ferrus::write::{
    read_full, Fill, WriteAction, WriteJob, WriteOutcome, WriteProgress, CHUNK_SIZE,
};

struct Lcg(u64);
impl Lcg {
    fn next_u8(&mut self) -> u8 {
        self.0 = self.0.wrapping_mul(6364136223846793005).wrapping_add(1442695040888963407);
        (self.0 >> 33) as u8
    }
}

fn make_source(len: usize) -> Vec<u8> {
    let mut lcg = Lcg(42);
    (0..len).map(|_| lcg.next_u8()).collect()
}

/// Runs a job from `src` to `dst`; the cancel is seen before chunk `cancel_at`.
fn drive(
    mut job: WriteJob,
    src: &[u8],
    dst: &mut Vec<u8>,
    cancel_at: Option<usize>,
    log: &mut Vec<WriteProgress>,
) -> Result<WriteOutcome, String> {
    let mut at = 0;
    let mut chunks = 0;
    loop {
        let mut action = job.next_chunk(cancel_at == Some(chunks));
        let mut end = at;
        if action == WriteAction::ReadSource {
            end = (at + CHUNK_SIZE).min(src.len());
            action = job.source_read(end - at);
        }
        match action {
            WriteAction::WriteChunk => {
                if dst.len() < end {
                    dst.resize(end, 0);
                }
                dst[at..end].copy_from_slice(&src[at..end]);
                log.push(job.chunk_written(end - at));
                at = end;
                chunks += 1;
            }
            WriteAction::Sync => match job.synced() {
                WriteAction::Rewind => at = 0,
                WriteAction::Finish(o) => return Ok(o),
                other => panic!("{other:?}"),
            },
            WriteAction::ReadBack => {
                let stop = end.min(dst.len());
                let back = if at < stop { dst[at..stop].to_vec() } else { Vec::new() };
                log.push(job.compare_chunk(&src[at..end], &back)?);
                at = end;
                chunks += 1;
            }
            WriteAction::Finish(o) => return Ok(o),
            other => panic!("{other:?}"),
        }
    }
}

/// Only the verify pass.
fn verifying(total: usize) -> WriteJob {
    let mut job = WriteJob::new(total as u64, true);
    assert_eq!(job.synced(), WriteAction::Rewind);
    job
}

#[test]
fn write_and_verify_roundtrip() {
    const LEN: usize = CHUNK_SIZE * 2 + 12345;
    let src = make_source(LEN);
    let mut dst = vec![0u8; LEN];
    let mut log = Vec::new();
    let outcome = drive(WriteJob::new(LEN as u64, true), &src, &mut dst, None, &mut log)
        .expect("engine failed");
    assert_eq!(outcome, WriteOutcome::Completed);
    assert_eq!(src, dst);
    assert_eq!(log.len(), 6);
    assert_eq!(
        log[2],
        WriteProgress { bytes_done: LEN as u64, total: LEN as u64, verifying: false }
    );
    assert_eq!(
        log[3],
        WriteProgress { bytes_done: CHUNK_SIZE as u64, total: LEN as u64, verifying: true }
    );
    assert_eq!(log[5].bytes_done, LEN as u64);
}

#[test]
fn cancel_before_start_yields_cancelled() {
    const LEN: usize = 1 << 20;
    let src = make_source(LEN);
    let mut dst = vec![0u8; LEN];
    let outcome =
        drive(WriteJob::new(LEN as u64, false), &src, &mut dst, Some(0), &mut Vec::new()).unwrap();
    assert_eq!(outcome, WriteOutcome::Cancelled);
}

#[test]
fn destination_larger_than_image_verifies_ok() {
    const LEN: usize = CHUNK_SIZE + (1 << 20);
    let src = make_source(LEN);
    let mut dst = vec![0u8; LEN + 32 * 1024 * 1024];
    drive(WriteJob::new(LEN as u64, true), &src, &mut dst, None, &mut Vec::new())
        .expect("write+verify on larger target failed");
}

#[test]
fn corrupted_destination_fails_verify() {
    const LEN: usize = 3 * 1024 * 1024;
    let src = make_source(LEN);
    let mut dst = vec![0u8; LEN];
    drive(WriteJob::new(LEN as u64, false), &src, &mut dst, None, &mut Vec::new()).unwrap();
    dst[CHUNK_SIZE / 2] ^= 0xff;
    let err = drive(verifying(LEN), &src, &mut dst, None, &mut Vec::new());
    assert!(err.is_err(), "verify must fail on corruption");
    assert_eq!(
        err.unwrap_err(),
        format!("verification mismatch at offset {}", CHUNK_SIZE / 2)
    );
}

#[test]
fn short_destination_fails_verify() {
    let src = make_source(CHUNK_SIZE + 100);
    let mut dst = src[..CHUNK_SIZE + 40].to_vec();
    assert_eq!(
        drive(verifying(src.len()), &src, &mut dst, None, &mut Vec::new()).unwrap_err(),
        format!("destination shorter than image: missing 60 bytes at offset {CHUNK_SIZE}")
    );
    // A byte in the second chunk is named by its place in the image.
    let mut dst = src.clone();
    dst[CHUNK_SIZE + 7] ^= 1;
    assert_eq!(
        drive(verifying(src.len()), &src, &mut dst, None, &mut Vec::new()).unwrap_err(),
        format!("verification mismatch at offset {}", CHUNK_SIZE + 7)
    );
}

#[test]
fn cancel_between_chunks() {
    let src = make_source(CHUNK_SIZE * 2);
    let mut dst = Vec::new();
    let mut log = Vec::new();
    let o = drive(WriteJob::new(src.len() as u64, true), &src, &mut dst, Some(1), &mut log);
    assert_eq!(o, Ok(WriteOutcome::Cancelled));
    assert_eq!(dst.len(), CHUNK_SIZE);
    assert_eq!(log.len(), 1);
}

#[test]
fn empty_image_completes() {
    let mut dst = Vec::new();
    let o = drive(WriteJob::new(0, true), &[], &mut dst, None, &mut Vec::new());
    assert_eq!(o, Ok(WriteOutcome::Completed));
}

#[test]
fn buffers_are_filled() {
    assert_eq!(read_full(0, 10, 4), Fill::More(4));
    assert_eq!(read_full(4, 10, 6), Fill::Full(10));
    assert_eq!(read_full(4, 10, 0), Fill::Full(4));
}

#[test]
fn last_words_of_a_job() {
    let text = |r: Response| match r {
        Response::Done(Some(m)) => m,
        Response::Error(e) => format!("! {e}"),
        other => panic!("{other:?}"),
    };
    assert_eq!(
        text(write_reply("/dev/sda", true, Ok(WriteOutcome::Completed))),
        "image written and verified to /dev/sda"
    );
    assert_eq!(
        text(write_reply("/dev/sda", false, Ok(WriteOutcome::Completed))),
        "image written to /dev/sda"
    );
    assert_eq!(
        text(write_reply("/dev/sda", false, Ok(WriteOutcome::Cancelled))),
        "! cancelled by user"
    );
    assert_eq!(text(write_reply("/dev/sda", false, Err("io".into()))), "! io");
    assert_eq!(text(plan_reply(Ok("fine".into()))), "fine");
    assert_eq!(text(plan_reply(Err("cancelled".into()))), "! cancelled by user");
    assert_eq!(text(plan_reply(Err("mkfs".into()))), "! mkfs");
}
