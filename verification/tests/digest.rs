use lure::digest::{offline_uuid, session_digest};

#[test]
fn digest_of_known_names() {
    assert_eq!(session_digest(b"Notch", &[], &[]), "4ed1f46bbe04bc756bcb17c0c7ce3e4632f06a48");
    assert_eq!(session_digest(b"jeb_", &[], &[]), "-7c9d5b0044c130109a5d7b5fb5c317c02b4e28c1");
    assert_eq!(session_digest(b"simon", &[], &[]), "88e16a1019277b15d58faf0541e11910eb756f6");
}

#[test]
fn digest_of_the_counting_secret() {
    let secret: Vec<u8> = (0u8..16).collect();
    assert_eq!(session_digest(b"", &secret, &[]), "56178b86a57fac22899a9964185c2cc96e7da589");
}

#[test]
fn digest_hashes_its_parts_in_order() {
    assert_eq!(session_digest(b"je", b"b", b"_"), session_digest(b"jeb_", &[], &[]));
    assert_eq!(session_digest(&[], b"jeb", b"_"), session_digest(b"jeb_", &[], &[]));
    assert_ne!(session_digest(b"_", b"jeb", &[]), session_digest(b"jeb_", &[], &[]));
}

#[test]
fn digest_of_nothing() {
    assert_eq!(session_digest(&[], &[], &[]), "-25c65c11a194b4f2cdaa40106a9fe76f5027f8f7");
}

#[test]
fn offline_uuid_is_the_head_of_the_hash() {
    assert_eq!(offline_uuid("alice"), 0x2bd806c97f0e00af1a1fc3328fa763a9);
    assert_ne!(offline_uuid("alice"), offline_uuid("Alice"));
}
