use base64::Engine;
use tally::codec::b64_encode;

fn decode(s: &str) -> Result<Vec<u8>, base64::DecodeError> {
    base64::engine::general_purpose::URL_SAFE_NO_PAD.decode(s)
}

#[test]
fn base64_url_safe_without_padding() {
    assert_eq!(b64_encode(b""), "");
    assert_eq!(b64_encode(b"f"), "Zg");
    assert_eq!(b64_encode(b"fo"), "Zm8");
    assert_eq!(b64_encode(b"foo"), "Zm9v");
    assert_eq!(b64_encode(&[0xfb, 0xff]), "-_8");
}

#[test]
fn base64_round_trip() {
    let bytes: Vec<u8> = (0..=255u8).collect();
    let text = b64_encode(&bytes);
    assert_eq!(decode(&text).unwrap(), bytes);
    assert!(decode("Zg==").is_err());
    assert!(decode("Zh").is_err());
}
