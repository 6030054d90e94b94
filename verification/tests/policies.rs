use centix_core::classify::classify;
use centix_core::compress::{prepare_payload, recover_payload};
use centix_core::error::ApiError;
use centix_core::records::ContentType;

fn png_payload(extra: usize) -> Vec<u8> {
    let mut data = vec![0x89, 0x50, 0x4E, 0x47, 0x0D, 0x0A, 0x1A, 0x0A];
    data.extend(std::iter::repeat(0u8).take(extra));
    data
}

#[test]
fn tiny_incompressible_buffer_is_stored_raw() {
    // A 10-byte buffer whose zlib form is larger than the buffer itself:
    // the policy must keep the raw bytes and leave the compressed flag off.
    let payload = vec![0u8; 10];
    let (stored, compressed) = prepare_payload(payload.clone(), true);
    assert!(!compressed);
    assert_eq!(stored, payload);
    assert_eq!(stored.len(), 10);
}

#[test]
fn compressible_buffer_is_stored_compressed_and_recovers() {
    let payload = vec![7u8; 100000];
    let (stored, compressed) = prepare_payload(payload.clone(), true);
    assert!(compressed);
    assert!(stored.len() < payload.len());
    let served = recover_payload(stored, compressed).expect("stored bytes must decode");
    assert_eq!(served, payload);
}

#[test]
fn stored_size_never_exceeds_payload_size() {
    for payload in [vec![], vec![1u8], vec![0u8; 10], vec![9u8; 4096], png_payload(500)] {
        let (stored, _) = prepare_payload(payload.clone(), true);
        assert!(stored.len() <= payload.len());
        let (raw, flag) = prepare_payload(payload.clone(), false);
        assert!(!flag);
        assert_eq!(raw, payload);
    }
}

#[test]
fn compression_disabled_stores_raw() {
    let payload = vec![7u8; 100000];
    let (stored, compressed) = prepare_payload(payload.clone(), false);
    assert!(!compressed);
    assert_eq!(stored, payload);
    let served = recover_payload(stored, compressed).expect("raw bytes serve directly");
    assert_eq!(served, payload);
}

#[test]
fn png_magic_classifies_as_image() {
    let (category, extension) = classify(&png_payload(16)).expect("png magic must classify");
    assert_eq!(category, ContentType::Image);
    assert_eq!(extension, "png");
}

#[test]
fn classification_is_idempotent() {
    let data = png_payload(64);
    let first = classify(&data).expect("png magic must classify");
    let second = classify(&data).expect("png magic must classify");
    assert_eq!(first, second);
}

#[test]
fn unrecognized_bytes_fail_classification() {
    assert_eq!(classify(&vec![0u8; 10]), Err(ApiError::Internal));
    assert_eq!(classify(&vec![]), Err(ApiError::Internal));
}
