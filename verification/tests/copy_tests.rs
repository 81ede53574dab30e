use trsh::cipher::Crypto;
use trsh::copy::{classify_read, progress_step, zero_buf, CopyDecision, ProgressStep, ReadOutcome};

const KEY: &[u8] = b"Fahm9Oruet8zahcoFahm9Oruet8zahco";
const IV: &[u8] = b"biTh0eoY";

#[test]
fn copy_chunk_counts_are_strictly_increasing() {
    let mut cr = Crypto::new(KEY, IV).unwrap();
    let mut written: u64 = 0;
    let mut reports: Vec<u64> = Vec::new();
    for chunk in [&b"abc"[..], &b"defgh"[..], &b"i"[..]] {
        let mut block = chunk.to_vec();
        written = cr.copy_chunk(&mut block, written);
        reports.push(written);
    }
    assert_eq!(reports, vec![3, 8, 9]);
    for w in &reports {
        assert_ne!(*w, 0);
    }
    for pair in reports.windows(2) {
        assert!(pair[0] < pair[1]);
    }
}

#[test]
fn transfer_preserves_content_across_chunkings() {
    let plain = b"N bytes of file content, chunked differently on each side";

    // The sender ciphers in two blocks of its own choosing.
    let mut enc = Crypto::new(KEY, IV).unwrap();
    let mut wire: Vec<u8> = Vec::new();
    let mut written: u64 = 0;
    for chunk in [&plain[..20], &plain[20..]] {
        let mut block = chunk.to_vec();
        written = enc.copy_chunk(&mut block, written);
        wire.extend_from_slice(&block);
    }
    assert_eq!(written, plain.len() as u64);

    // The receiver deciphers whatever block boundaries the transport made.
    let mut dec = Crypto::new(KEY, IV).unwrap();
    let mut out: Vec<u8> = Vec::new();
    let mut total: u64 = 0;
    for chunk in [&wire[..7], &wire[7..11], &wire[11..]] {
        let mut block = chunk.to_vec();
        total = dec.copy_chunk(&mut block, total);
        out.extend_from_slice(&block);
    }
    assert_eq!(out, plain.to_vec());
    assert_eq!(total, plain.len() as u64);
}

#[test]
fn zero_buf_scrubs_every_byte() {
    let mut b = b"plaintext remnant".to_vec();
    let n = b.len();
    zero_buf(&mut b);
    assert_eq!(b, vec![0u8; n]);
}

#[test]
fn classify_read_decisions() {
    assert_eq!(classify_read(ReadOutcome::Len(0)), CopyDecision::Finish);
    assert_eq!(classify_read(ReadOutcome::Len(8192)), CopyDecision::Process);
    assert_eq!(classify_read(ReadOutcome::Interrupted), CopyDecision::Retry);
    assert_eq!(classify_read(ReadOutcome::Failed), CopyDecision::Abort);
}

#[test]
fn progress_zero_is_the_stop_sentinel() {
    assert_eq!(progress_step(0), ProgressStep::Stop);
    assert_eq!(progress_step(1), ProgressStep::Report(1));
    assert_eq!(progress_step(8192), ProgressStep::Report(8192));
}
