use lib::padding::{apply_pkcs7_padding, remove_pkcs7_padding};

#[test]
fn empty_input_pads_to_one_full_block() {
    let padded = apply_pkcs7_padding(b"");
    assert_eq!(padded, vec![16u8; 16]);
    assert_eq!(remove_pkcs7_padding(&padded), Ok(Vec::new()));
}

#[test]
fn one_byte_short_of_a_block_gets_a_single_pad_byte() {
    let input = [7u8; 15];
    let padded = apply_pkcs7_padding(&input);
    assert_eq!(padded.len(), 16);
    assert_eq!(&padded[..15], &input[..]);
    assert_eq!(padded[15], 1);
}

#[test]
fn whole_block_gets_a_full_block_of_padding() {
    let input = [0xabu8; 16];
    let padded = apply_pkcs7_padding(&input);
    assert_eq!(padded.len(), 32);
    assert_eq!(&padded[..16], &input[..]);
    assert_eq!(&padded[16..], &[16u8; 16][..]);
}

#[test]
fn message_pads_to_next_block_boundary() {
    let plaintext = b"Hello, AES world! This is a test message for encryption.";
    assert_eq!(plaintext.len(), 56);
    let padded = apply_pkcs7_padding(plaintext);
    assert_eq!(padded.len(), 64);
    assert_eq!(&padded[..56], &plaintext[..]);
    assert_eq!(&padded[56..], &[8u8; 8][..]);
}

#[test]
fn padding_round_trips_for_every_length_up_to_three_blocks() {
    for n in 0..48usize {
        let input: Vec<u8> = (0..n).map(|i| (i * 7 + 3) as u8).collect();
        let padded = apply_pkcs7_padding(&input);
        assert_eq!(padded.len() % 16, 0);
        assert!(padded.len() > input.len() && padded.len() <= input.len() + 16);
        assert_eq!(remove_pkcs7_padding(&padded), Ok(input));
    }
}

#[test]
fn unpadding_then_padding_restores_an_aligned_buffer() {
    let mut data = vec![1u8, 2, 3, 4, 5, 6, 7, 8, 9, 10, 11, 12, 13];
    data.extend([3u8, 3, 3]);
    let message = remove_pkcs7_padding(&data).unwrap();
    assert_eq!(message, vec![1u8, 2, 3, 4, 5, 6, 7, 8, 9, 10, 11, 12, 13]);
    assert_eq!(apply_pkcs7_padding(&message), data);
}

#[test]
fn empty_data_is_refused() {
    assert_eq!(remove_pkcs7_padding(&[]), Err("Empty data"));
}

#[test]
fn zero_or_oversized_padding_length_is_refused() {
    assert_eq!(remove_pkcs7_padding(&[0u8]), Err("Invalid padding"));
    assert_eq!(remove_pkcs7_padding(&[1u8, 17u8]), Err("Invalid padding"));
    assert_eq!(remove_pkcs7_padding(&[0xffu8; 32]), Err("Invalid padding"));
}

#[test]
fn padding_longer_than_data_is_refused() {
    assert_eq!(remove_pkcs7_padding(&[5u8]), Err("Data too short for padding"));
    assert_eq!(remove_pkcs7_padding(&[16u8; 15]), Err("Data too short for padding"));
}

#[test]
fn mismatched_padding_bytes_are_refused() {
    assert_eq!(remove_pkcs7_padding(&[3u8, 2, 3]), Err("Invalid padding bytes"));
    assert_eq!(remove_pkcs7_padding(&[9u8, 4, 4, 4, 3, 4]), Err("Invalid padding bytes"));
}

#[test]
fn unaligned_valid_padding_is_still_removed() {
    assert_eq!(remove_pkcs7_padding(&[9u8, 8, 2, 2]), Ok(vec![9u8, 8]));
    assert_eq!(remove_pkcs7_padding(&[1u8]), Ok(Vec::new()));
}
