use slotmerge::assets::{asset_needs_copy, digest_chunks, file_hash_equal, ContentHasher, Fed};

fn hex(bytes: &[u8]) -> String {
    let mut out = String::new();
    for b in bytes {
        out.push_str(&format!("{:02x}", b));
    }
    out
}

#[test]
fn digest_of_nothing_and_of_abc() {
    assert_eq!(
        hex(&digest_chunks(&vec![])),
        "e3b0c44298fc1c149afbf4c8996fb92427ae41e4649b934ca495991b7852b855"
    );
    assert_eq!(
        hex(&digest_chunks(&vec![b"abc".to_vec()])),
        "ba7816bf8f01cfea414140de5dae2223b00361a396177a9cb410ff61f20015ad"
    );
}

#[test]
fn digest_does_not_depend_on_the_cut() {
    let whole = digest_chunks(&vec![b"hello world".to_vec()]);
    let cut = digest_chunks(&vec![b"hel".to_vec(), b"".to_vec(), b"lo wor".to_vec(), b"ld".to_vec()]);
    assert!(file_hash_equal(&whole, &cut));
    assert_eq!(whole.len(), 32);
    let other = digest_chunks(&vec![b"hello world!".to_vec()]);
    assert!(!file_hash_equal(&whole, &other));
}

#[test]
fn feeding_a_stream_read_by_read() {
    let buffer = *b"abc-----";
    let hasher = ContentHasher::new();
    let hasher = match hasher.feed(&buffer, Some(3)) {
        Fed::More(next) => next,
        Fed::Done(_) => panic!("stream ended early"),
    };
    match hasher.feed(&buffer, Some(0)) {
        Fed::Done(digest) => assert_eq!(
            hex(&digest),
            "ba7816bf8f01cfea414140de5dae2223b00361a396177a9cb410ff61f20015ad"
        ),
        Fed::More(_) => panic!("stream did not end"),
    }
}

#[test]
fn a_failed_read_ends_the_stream() {
    let buffer = [0u8; 4];
    match ContentHasher::new().feed(&buffer, None) {
        Fed::Done(digest) => assert_eq!(
            hex(&digest),
            "e3b0c44298fc1c149afbf4c8996fb92427ae41e4649b934ca495991b7852b855"
        ),
        Fed::More(_) => panic!("stream did not end"),
    }
    assert!(matches!(ContentHasher::new().feed(&buffer, Some(5)), Fed::Done(_)));
}

#[test]
fn asset_is_copied_unless_destination_has_same_digest() {
    let source = digest_chunks(&vec![b"body { }".to_vec()]);
    let same = digest_chunks(&vec![b"body".to_vec(), b" { }".to_vec()]);
    let changed = digest_chunks(&vec![b"body { color: red }".to_vec()]);
    assert!(asset_needs_copy(None, &source));
    assert!(!asset_needs_copy(Some(&same), &source));
    assert!(asset_needs_copy(Some(&changed), &source));
}
