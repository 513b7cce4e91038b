use rurl::checksum::{digest_matches, kind_for, ChecksumCheck, ChecksumKind};
use rurl::errors::TaskError;

fn check(expected: &str, pieces: &[&[u8]]) -> Result<(), TaskError> {
    let mut check = ChecksumCheck::start(expected)?;
    for piece in pieces {
        check.feed(piece);
    }
    check.finish()
}

#[test]
fn the_length_tells_the_hash_function() {
    assert_eq!(kind_for("d41d8cd98f00b204e9800998ecf8427e"), Some(ChecksumKind::Md5));
    assert_eq!(kind_for(&"a".repeat(40)), Some(ChecksumKind::Sha1));
    assert_eq!(kind_for(&"a".repeat(64)), Some(ChecksumKind::Sha256));
    assert_eq!(kind_for(&"a".repeat(63)), None);
    assert_eq!(kind_for(""), None);
    // Sixteen letters of two bytes each.
    assert_eq!(kind_for(&"é".repeat(16)), Some(ChecksumKind::Md5));
}

#[test]
fn digests_of_nothing() {
    assert_eq!(check("d41d8cd98f00b204e9800998ecf8427e", &[]), Ok(()));
    assert_eq!(check("da39a3ee5e6b4b0d3255bfef95601890afd80709", &[]), Ok(()));
    assert_eq!(
        check("e3b0c44298fc1c149afbf4c8996fb92427ae41e4649b934ca495991b7852b855", &[]),
        Ok(())
    );
}

#[test]
fn digests_in_pieces() {
    let pieces: [&[u8]; 3] = [b"a", b"", b"bc"];
    assert_eq!(check("900150983cd24fb0d6963f7d28e17f72", &pieces), Ok(()));
    assert_eq!(check("a9993e364706816aba3e25717850c26c9cd0d89d", &pieces), Ok(()));
    assert_eq!(
        check("ba7816bf8f01cfea414140de5dae2223b00361a396177a9cb410ff61f20015ad", &pieces),
        Ok(())
    );
}

#[test]
fn letter_case_does_not_matter() {
    assert_eq!(check("900150983CD24FB0D6963F7D28E17F72", &[b"abc"]), Ok(()));
    assert_eq!(check("A9993E364706816ABA3E25717850C26C9CD0D89D", &[b"abc"]), Ok(()));
}

#[test]
fn other_data_does_not_pass() {
    assert_eq!(
        check("900150983cd24fb0d6963f7d28e17f72", &[b"abd"]),
        Err(TaskError::ChecksumMismatch)
    );
    assert_eq!(
        check("a9993e364706816aba3e25717850c26c9cd0d89d", &[b"ab"]),
        Err(TaskError::ChecksumMismatch)
    );
    assert_eq!(
        check("ba7816bf8f01cfea414140de5dae2223b00361a396177a9cb410ff61f20015ad", &[]),
        Err(TaskError::ChecksumMismatch)
    );
}

#[test]
fn a_digest_of_no_known_length_passes_nothing() {
    assert_eq!(check("", &[]), Err(TaskError::ChecksumMismatch));
    assert_eq!(check("d41d8cd98f00b204e9800998ecf8427", &[]), Err(TaskError::ChecksumMismatch));
}

#[test]
fn digests_are_shown_in_hexadecimal() {
    assert!(digest_matches(&vec![0x00, 0x0f, 0xa9, 0xff], "000fa9ff"));
    assert!(!digest_matches(&vec![0x00, 0x0f, 0xa9, 0xff], "000FA9FF"));
    assert!(digest_matches(&vec![], ""));
}
