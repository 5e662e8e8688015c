use bettershot::ShotError;
use bettershot::encoding::{base64_decode, decode_payload};

#[test]
fn decodes_unpadded_base64() {
    let out = base64_decode(b"aGVsbG8h").unwrap();
    assert_eq!(out, b"hello!".to_vec());
}

#[test]
fn decodes_one_padding_byte() {
    let out = base64_decode(b"aGVsbG8=").unwrap();
    assert_eq!(out, b"hello".to_vec());
}

#[test]
fn decodes_two_padding_bytes() {
    let out = base64_decode(b"aGk=").unwrap();
    assert_eq!(out, b"hi".to_vec());
    let out = base64_decode(b"aA==").unwrap();
    assert_eq!(out, b"h".to_vec());
}

#[test]
fn decodes_empty_input_to_empty_output() {
    let out = base64_decode(b"").unwrap();
    assert!(out.is_empty());
}

#[test]
fn decodes_all_alphabet_ranges() {
    // "AZaz09+/" exercises every branch of the value table
    let out = base64_decode(b"AZaz09+/").unwrap();
    assert_eq!(out.len(), 6);
    assert_eq!(out, vec![0x01, 0x96, 0xB3, 0xD3, 0xDF, 0xBF]);
}

#[test]
fn refuses_length_off_a_multiple_of_four() {
    assert_eq!(base64_decode(b"aGk"), Err(ShotError::DecodeError));
    assert_eq!(base64_decode(b"a"), Err(ShotError::DecodeError));
}

#[test]
fn refuses_bytes_outside_the_alphabet() {
    assert_eq!(base64_decode(b"aGVs bG8h"), Err(ShotError::DecodeError));
    assert_eq!(base64_decode(b"aGVs!G8h"), Err(ShotError::DecodeError));
}

#[test]
fn refuses_misplaced_padding() {
    assert_eq!(base64_decode(b"aG=s"), Err(ShotError::DecodeError));
    assert_eq!(base64_decode(b"a=k="), Err(ShotError::DecodeError));
    assert_eq!(base64_decode(b"aG=kAAAA"), Err(ShotError::DecodeError));
}

#[test]
fn payload_with_data_url_header_is_decoded_after_the_comma() {
    let out = decode_payload(b"data:image/png;base64,aGVsbG8=").unwrap();
    assert_eq!(out, b"hello".to_vec());
}

#[test]
fn bare_payload_without_header_is_decoded_whole() {
    let out = decode_payload(b"aGVsbG8=").unwrap();
    assert_eq!(out, b"hello".to_vec());
}

#[test]
fn malformed_payload_body_is_refused() {
    assert_eq!(decode_payload(b"data:image/png;base64,a!!!"), Err(ShotError::DecodeError));
}
