use mod_updater::download::{to_hex, DownloadSession};

#[test]
fn digest_of_empty_payload_is_the_known_constant() {
    let session = DownloadSession::begin(String::from("m"), 0);
    let (bytes, digest) = session.finish();
    assert_eq!(bytes.len(), 0);
    assert_eq!(digest, "e3b0c44298fc1c149afbf4c8996fb92427ae41e4649b934ca495991b7852b855");
}

#[test]
fn digest_matches_known_vector() {
    let mut session = DownloadSession::begin(String::from("m"), 3);
    let chunk = vec![0x61u8, 0x62, 0x63];
    session.push_chunk(&chunk);
    let (bytes, digest) = session.finish();
    assert_eq!(bytes, vec![0x61u8, 0x62, 0x63]);
    assert_eq!(digest, "ba7816bf8f01cfea414140de5dae2223b00361a396177a9cb410ff61f20015ad");
}

#[test]
fn digest_is_deterministic_across_chunkings() {
    // the same payload, split differently, yields the same bytes and
    // the same digest
    let mut a = DownloadSession::begin(String::from("m"), 5);
    a.push_chunk(&vec![1u8, 2]);
    a.push_chunk(&vec![3u8, 4, 5]);
    let (bytes_a, digest_a) = a.finish();

    let mut b = DownloadSession::begin(String::from("m"), 5);
    b.push_chunk(&vec![1u8]);
    b.push_chunk(&vec![2u8, 3]);
    b.push_chunk(&vec![4u8, 5]);
    let (bytes_b, digest_b) = b.finish();

    assert_eq!(bytes_a, bytes_b);
    assert_eq!(digest_a, digest_b);
}

#[test]
fn progress_fires_at_boundaries_and_completion() {
    let total = 1048576u64;
    let mut s = DownloadSession::begin(String::from("pkg"), total);

    // 512 KiB: a boundary
    let big = vec![0u8; 524288];
    let ev = s.push_chunk(&big).expect("event due at the 512 KiB boundary");
    assert_eq!(ev.mod_name, "pkg");
    assert_eq!(ev.step, "downloading");
    assert_eq!(ev.current, 524288);
    assert_eq!(ev.total, total);
    assert_eq!(ev.percentage, 50);
    assert_eq!(ev.message, "Downloaded 0 / 1 MB");

    // 100 more bytes: neither a boundary nor the end
    let small = vec![0u8; 100];
    assert!(s.push_chunk(&small).is_none());

    // the rest: completion always reports
    let rest = vec![0u8; 524188];
    let ev = s.push_chunk(&rest).expect("event due at completion");
    assert_eq!(ev.current, total);
    assert_eq!(ev.percentage, 100);
    assert_eq!(ev.message, "Downloaded 1 / 1 MB");
}

#[test]
fn unknown_total_keeps_percentage_at_zero() {
    let mut s = DownloadSession::begin(String::from("pkg"), 0);
    let chunk = vec![0u8; 524288];
    let ev = s.push_chunk(&chunk).expect("512 KiB is a boundary");
    assert_eq!(ev.percentage, 0);
    assert_eq!(ev.total, 0);
}

#[test]
fn hex_encoding_is_lowercase_two_digits_per_byte() {
    assert_eq!(to_hex(&vec![]), "");
    assert_eq!(to_hex(&vec![0x00u8, 0x0f, 0xa5, 0xff]), "000fa5ff");
}
