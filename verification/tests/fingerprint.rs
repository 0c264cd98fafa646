use sync_status::fingerprint::{compute_md5, to_hex, FingerprintError, Fingerprinter, ReadOutcome, Step};

fn chunk(bytes: &[u8]) -> ReadOutcome {
    ReadOutcome::Chunk(bytes.to_vec())
}

#[test]
fn file_that_cannot_be_opened_has_no_fingerprint() {
    assert_eq!(compute_md5(None), Ok(None));
}

#[test]
fn empty_file_has_no_fingerprint() {
    let reads = vec![chunk(b"")];
    assert_eq!(compute_md5(Some(&reads)), Ok(None));
    let none: Vec<ReadOutcome> = Vec::new();
    assert_eq!(compute_md5(Some(&none)), Ok(None));
    let ignored = vec![chunk(b""), chunk(b"abc")];
    assert_eq!(compute_md5(Some(&ignored)), Ok(None));
}

#[test]
fn one_byte_has_a_fingerprint() {
    let reads = vec![chunk(b"a"), chunk(b"")];
    assert_eq!(
        compute_md5(Some(&reads)),
        Ok(Some("0cc175b9c0f1b6a831c399e269772661".to_string()))
    );
}

#[test]
fn known_digests() {
    let reads = vec![chunk(b"abc"), chunk(b"")];
    assert_eq!(
        compute_md5(Some(&reads)),
        Ok(Some("900150983cd24fb0d6963f7d28e17f72".to_string()))
    );
    let reads = vec![chunk(b"abcdefghijklmnopqrstuvwxyz")];
    assert_eq!(
        compute_md5(Some(&reads)),
        Ok(Some("c3fcd3d76192e4007dfb496cca67e13b".to_string()))
    );
}

#[test]
fn same_content_gives_the_same_fingerprint() {
    let whole = vec![chunk(b"The quick brown fox jumps over the lazy dog")];
    let cut = vec![chunk(b"The quick "), chunk(b"brown fox jumps"), chunk(b" over the lazy dog")];
    let first = compute_md5(Some(&whole));
    assert_eq!(first, Ok(Some("9e107d9d372bb6826bd81d3542a419d6".to_string())));
    assert_eq!(compute_md5(Some(&whole)), first);
    assert_eq!(compute_md5(Some(&cut)), first);
}

#[test]
fn other_content_gives_another_fingerprint() {
    let a = vec![chunk(b"The quick brown fox jumps over the lazy dog")];
    let b = vec![chunk(b"The quick brown fox jumps over the lazy dog.")];
    assert_eq!(compute_md5(Some(&b)), Ok(Some("e4d909c290d0fb1ca068ffaddf22cbd0".to_string())));
    assert_ne!(compute_md5(Some(&a)), compute_md5(Some(&b)));
}

#[test]
fn large_content_in_chunks_of_a_buffer() {
    let content: Vec<u8> = (0..5000u32).map(|i| (i % 251) as u8).collect();
    let reads: Vec<ReadOutcome> = content.chunks(1024).map(chunk).collect();
    let once = vec![chunk(&content)];
    let digest = compute_md5(Some(&reads));
    assert_eq!(digest, compute_md5(Some(&once)));
    assert_eq!(digest.unwrap().unwrap(), format!("{:x}", md5::compute(&content)));
}

#[test]
fn reading_stops_at_the_first_empty_chunk() {
    let reads = vec![chunk(b"abc"), chunk(b""), chunk(b"def"), ReadOutcome::Failed("late".to_string())];
    assert_eq!(
        compute_md5(Some(&reads)),
        Ok(Some("900150983cd24fb0d6963f7d28e17f72".to_string()))
    );
}

#[test]
fn failed_read_is_an_error_with_its_cause() {
    let reads = vec![chunk(b"abc"), ReadOutcome::Failed("Kind(TimedOut)".to_string()), chunk(b"")];
    let result = compute_md5(Some(&reads));
    assert_eq!(
        result,
        Err(FingerprintError::Io("I/O reading file: Kind(TimedOut)".to_string()))
    );
    assert_eq!(result.unwrap_err().message(), "I/O reading file: Kind(TimedOut)");
}

#[test]
fn fingerprinter_streams() {
    let state = Fingerprinter::new().consume(b"ab").consume(b"").consume(b"c");
    assert_eq!(state.finish(), Some("900150983cd24fb0d6963f7d28e17f72".to_string()));
    assert_eq!(Fingerprinter::new().finish(), None);
    assert_eq!(Fingerprinter::new().consume(b"").finish(), None);
}

#[test]
fn advance_decides_after_each_read() {
    let state = Fingerprinter::new();
    let state = match state.advance(&chunk(b"abc")) {
        Step::More(next) => next,
        Step::Done(_) => panic!("a chunk with bytes does not end the file"),
    };
    match state.advance(&chunk(b"")) {
        Step::Done(Ok(hex)) => {
            assert_eq!(hex, Some("900150983cd24fb0d6963f7d28e17f72".to_string()))
        }
        _ => panic!("an empty chunk ends the file"),
    }
    match Fingerprinter::new().advance(&chunk(b"")) {
        Step::Done(Ok(hex)) => assert_eq!(hex, None),
        _ => panic!("an empty chunk ends the file"),
    }
    match Fingerprinter::new().advance(&ReadOutcome::Failed("broken".to_string())) {
        Step::Done(Err(error)) => {
            assert_eq!(error, FingerprintError::Io("I/O reading file: broken".to_string()))
        }
        _ => panic!("a failed read ends the file with an error"),
    }
}

#[test]
fn hex_is_lowercase_with_two_digits_for_each_byte() {
    assert_eq!(to_hex(&[]), "");
    assert_eq!(to_hex(&[0x00, 0x0f, 0xa0, 0xff, 0x1b]), "000fa0ff1b");
}
