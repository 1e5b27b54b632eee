use untroche::common::keys::{admin_key_of, stored_session_key};
use untroche::ondyst::util::webhook::webhook_targets;
use untroche::text::{base64_standard, base64_standard_decode, is_whitespace, uuid_text_of};

#[test]
fn base64_standard_round_trips() {
    assert_eq!(base64_standard(b"foo"), "Zm9v");
    assert_eq!(base64_standard(b"fo"), "Zm8=");
    assert_eq!(base64_standard_decode("Zm8="), Some(b"fo".to_vec()));
    // The standard engine asks for canonical padding.
    assert_eq!(base64_standard_decode("Zm8"), None);
    assert_eq!(base64_standard_decode("not base64!"), None);
}

#[test]
fn a_stored_admin_key_gives_back_its_session_key() {
    let master: Vec<u8> = (0..64).collect();
    let stored = admin_key_of(&master);
    assert_eq!(stored_session_key(&stored), Some(master));
    // Too short a key, or no Base64 at all, stands for no session key.
    assert_eq!(stored_session_key(&admin_key_of(&[1, 2, 3])), None);
    assert_eq!(stored_session_key("%%%"), None);
}

#[test]
fn uuid_texts_of_stored_users() {
    let bytes = vec![0xa1, 0xa2, 0xa3, 0xa4, 0xb1, 0xb2, 0xc1, 0xc2, 0xd1, 0xd2, 0xd3, 0xd4, 0xd5, 0xd6, 0xd7, 0xd8];
    assert_eq!(uuid_text_of(&bytes).unwrap(), "a1a2a3a4-b1b2-c1c2-d1d2-d3d4d5d6d7d8");
    assert_eq!(uuid_text_of(&bytes[..15]), None);
    let users = vec![bytes.clone(), vec![0; 16]];
    assert_eq!(
        webhook_targets(&users).unwrap(),
        vec!["a1a2a3a4-b1b2-c1c2-d1d2-d3d4d5d6d7d8".to_string(), "00000000-0000-0000-0000-000000000000".to_string()]
    );
    assert_eq!(webhook_targets(&[bytes, vec![1, 2]]), None);
    assert_eq!(webhook_targets(&[]), Some(vec![]));
}

#[test]
fn white_space_is_what_std_says() {
    for v in 0..=0x10FFFFu32 {
        if let Some(c) = char::from_u32(v) {
            assert_eq!(is_whitespace(c), c.is_whitespace(), "{v:#x}");
        }
    }
}
