use armonik_api::buffer::ak_bytes;

#[test]
fn an_empty_buffer_has_no_bytes() {
    let empty = ak_bytes::empty();
    assert!(empty.is_empty());
    assert_eq!(empty.len(), 0);
    assert!(ak_bytes::from_vec(Vec::new()).is_empty());
    assert!(ak_bytes::from_boxed(Vec::new().into_boxed_slice()).is_empty());
}

#[test]
fn buffers_hold_exactly_their_bytes() {
    let boxed = ak_bytes::from_boxed(vec![1u8, 2, 3].into_boxed_slice());
    assert_eq!(boxed.as_slice(), &[1, 2, 3]);
    let text = ak_bytes::from_string("é!".to_string());
    assert_eq!(text.into_vec(), vec![0xc3, 0xa9, b'!']);
}

#[test]
fn a_vector_round_trips_through_a_buffer() {
    let bytes = vec![0u8, 1, 2, 255];
    assert_eq!(ak_bytes::from_vec(bytes.clone()).into_vec(), bytes);
}
