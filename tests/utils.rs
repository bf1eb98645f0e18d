use cryptr::error::CryptrError;
use cryptr::utils::{b64_decode, b64_encode, secure_random, secure_random_alnum, secure_random_vec};

#[test]
fn test_secure_random() {
    let mut buf = [0u8; 32];
    secure_random(&mut buf).unwrap();
    assert_ne!(buf, [0u8; 32]);
    assert_eq!(buf.len(), 32);

    let mut buf = [0u8; 1337];
    secure_random(&mut buf).unwrap();
    assert_ne!(buf, [0u8; 1337]);
    assert_eq!(buf.len(), 1337);
}

#[test]
fn test_secure_random_vec() {
    let rnd = secure_random_vec(13).unwrap();
    assert_ne!(rnd.as_slice(), [0u8; 13]);
    assert_eq!(rnd.len(), 13);

    let rnd = secure_random_vec(32).unwrap();
    assert_ne!(rnd.as_slice(), [0u8; 32]);
    assert_eq!(rnd.len(), 32);
}

#[test]
fn secure_random_vec_of_zero_size_is_empty() {
    assert_eq!(secure_random_vec(0).unwrap(), Vec::<u8>::new());
}

#[test]
fn secure_random_alnum_gives_letters() {
    let s = secure_random_alnum(40);
    assert_eq!(s.chars().count(), 40);
    assert!(s.chars().all(|c| c.is_ascii_alphabetic()));
    assert_eq!(secure_random_alnum(0), "");
}

#[test]
fn b64_encode_known_values() {
    assert_eq!(b64_encode(b"hello"), "aGVsbG8=");
    assert_eq!(b64_encode(&[0xff, 0x00, 0x10]), "/wAQ");
    assert_eq!(b64_encode(b""), "");
}

#[test]
fn b64_decode_known_values() {
    assert_eq!(b64_decode("aGVsbG8=").unwrap(), b"hello".to_vec());
    assert_eq!(b64_decode("/wAQ").unwrap(), vec![0xff, 0x00, 0x10]);
    assert_eq!(b64_decode("").unwrap(), Vec::<u8>::new());
}

#[test]
fn b64_decode_rejects_invalid_text() {
    assert_eq!(b64_decode("not base64!"), Err(CryptrError::Base64Decode));
    assert_eq!(b64_decode("aGVsbG8"), Err(CryptrError::Base64Decode));
}

#[test]
fn b64_round_trip() {
    let data: Vec<u8> = (0..=255u8).collect();
    assert_eq!(b64_decode(&b64_encode(&data)).unwrap(), data);
}
