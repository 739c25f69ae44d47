use locallens::codec::{bytes_to_vec, vec_to_bytes, CodecError};

#[test]
fn one_is_stored_little_endian() {
    let v = vec![1.0f32.to_bits()];
    assert_eq!(vec_to_bytes(&v), vec![0, 0, 128, 63]);
}

#[test]
fn floats_round_trip_exactly() {
    let v: Vec<u32> = [0.1f32, -2.5, 0.0, -0.0, f32::MAX, f32::MIN_POSITIVE, 1e-40]
        .iter()
        .map(|x| x.to_bits())
        .collect();
    let bytes = vec_to_bytes(&v);
    assert_eq!(bytes.len(), 4 * v.len());
    let back = bytes_to_vec(&bytes).unwrap();
    assert_eq!(back, v);
    let floats: Vec<f32> = back.iter().map(|b| f32::from_bits(*b)).collect();
    assert_eq!(floats[1], -2.5);
}

#[test]
fn empty_vector_round_trips() {
    let bytes = vec_to_bytes(&vec![]);
    assert!(bytes.is_empty());
    assert_eq!(bytes_to_vec(&bytes), Ok(vec![]));
}

#[test]
fn bytes_decode_in_order() {
    assert_eq!(bytes_to_vec(&vec![1, 2, 3, 4, 0xff, 0, 0, 0]), Ok(vec![0x0403_0201, 0xff]));
}

#[test]
fn length_not_multiple_of_four_is_malformed() {
    assert_eq!(bytes_to_vec(&vec![1, 2, 3, 4, 5]), Err(CodecError::MalformedVectorBytes));
    assert_eq!(bytes_to_vec(&vec![9]), Err(CodecError::MalformedVectorBytes));
}
