use efi_load_opt::{DecodeError, EFILoadOpt};

#[test]
fn decode_test() {
    let buf: Vec<u8> = vec![
        1, 0, 0, 0, 98, 0, 117, 0, 98, 0, 117, 0, 110, 0, 116, 0, 117, 0, 0, 0, 4, 1, 42, 0, 6, 0,
        0, 0, 0, 8, 132, 56, 1, 0, 0, 0, 0, 0, 32, 0, 0, 0, 0, 0, 17, 231, 186, 229, 231, 20, 31,
        76, 149, 26, 169, 112, 74, 106, 62, 66, 2, 2, 4, 4, 52, 0, 92, 0, 69, 0, 70, 0, 73, 0, 92,
        0, 85, 0, 66, 0, 85, 0, 78, 0, 84, 0, 85, 0, 92, 0, 83, 0, 72, 0, 73, 0, 77, 0, 88, 0, 54,
        0, 52, 0, 46, 0, 69, 0, 70, 0, 73, 0, 0, 0, 127, 255, 4, 0, 0, 0, 66, 79,
    ];
    assert_eq!(
        EFILoadOpt::decode(&buf).unwrap(),
        EFILoadOpt {
            attributes: 1,
            description: "ubuntu".to_owned(),
            optional_data: vec![0, 0, 66, 79],
        }
    );
}

#[test]
fn decode_is_deterministic() {
    let buf: Vec<u8> = vec![7, 0, 0, 0, 1, 0, 65, 0, 0, 0, 9, 2, 3];
    let first = EFILoadOpt::decode(&buf).unwrap();
    let second = EFILoadOpt::decode(&buf).unwrap();
    assert_eq!(first, second);
}

#[test]
fn round_trip_hand_built() {
    let mut buf: Vec<u8> = Vec::new();
    buf.extend_from_slice(&[0x78, 0x56, 0x34, 0x12]); // attributes, little-endian
    buf.extend_from_slice(&[3, 0]); // device-path region of 3 bytes
    buf.extend_from_slice(&[65, 0, 66, 0]); // "AB"
    buf.extend_from_slice(&[0, 0]); // terminator
    buf.extend_from_slice(&[9, 9, 9]); // device-path region, skipped
    buf.extend_from_slice(&[10, 20, 30]); // optional data
    let opt = EFILoadOpt::decode(&buf).unwrap();
    assert_eq!(opt.attributes, 0x12345678);
    assert_eq!(opt.description, "AB");
    assert_eq!(opt.optional_data, vec![10, 20, 30]);
}

#[test]
fn empty_description() {
    let buf: Vec<u8> = vec![5, 0, 0, 0, 0, 0, 0, 0, 7];
    let opt = EFILoadOpt::decode(&buf).unwrap();
    assert_eq!(opt.attributes, 5);
    assert_eq!(opt.description, "");
    assert_eq!(opt.optional_data, vec![7]);
}

#[test]
fn empty_optional_data() {
    let buf: Vec<u8> = vec![5, 0, 0, 0, 2, 0, 65, 0, 0, 0, 9, 9];
    let opt = EFILoadOpt::decode(&buf).unwrap();
    assert_eq!(opt.description, "A");
    assert_eq!(opt.optional_data, Vec::<u8>::new());
}

#[test]
fn empty_buffer_fails_header_read() {
    let buf: Vec<u8> = Vec::new();
    assert_eq!(
        EFILoadOpt::decode(&buf).unwrap_err(),
        DecodeError::HeaderReadFailure
    );
}

#[test]
fn truncated_header_fails_header_read() {
    let buf: Vec<u8> = vec![1, 0, 0, 0, 4];
    assert_eq!(
        EFILoadOpt::decode(&buf).unwrap_err(),
        DecodeError::HeaderReadFailure
    );
}

#[test]
fn header_only_fails_description_read() {
    let buf: Vec<u8> = vec![1, 0, 0, 0, 0, 0];
    assert_eq!(
        EFILoadOpt::decode(&buf).unwrap_err(),
        DecodeError::DescriptionReadFailure
    );
}

#[test]
fn truncation_before_terminator_fails_description_read() {
    let valid: Vec<u8> = vec![1, 0, 0, 0, 0, 0, 117, 0, 98, 0, 0, 0];
    assert!(EFILoadOpt::decode(&valid).is_ok());
    for cut in 6..11 {
        let truncated = &valid[..cut];
        assert_eq!(
            EFILoadOpt::decode(truncated).unwrap_err(),
            DecodeError::DescriptionReadFailure
        );
    }
}

#[test]
fn odd_byte_mid_unit_fails_description_read() {
    let buf: Vec<u8> = vec![1, 0, 0, 0, 0, 0, 117];
    assert_eq!(
        EFILoadOpt::decode(&buf).unwrap_err(),
        DecodeError::DescriptionReadFailure
    );
}

#[test]
fn unpaired_high_surrogate_fails_text_decode() {
    let buf: Vec<u8> = vec![1, 0, 0, 0, 0, 0, 0x00, 0xD8, 0, 0];
    assert_eq!(
        EFILoadOpt::decode(&buf).unwrap_err(),
        DecodeError::DescriptionTextFailure
    );
}

#[test]
fn lone_low_surrogate_fails_text_decode() {
    let buf: Vec<u8> = vec![1, 0, 0, 0, 0, 0, 0x00, 0xDC, 65, 0, 0, 0];
    assert_eq!(
        EFILoadOpt::decode(&buf).unwrap_err(),
        DecodeError::DescriptionTextFailure
    );
}

#[test]
fn surrogate_pair_decodes_to_supplementary_char() {
    let buf: Vec<u8> = vec![1, 0, 0, 0, 0, 0, 0x00, 0xD8, 0x00, 0xDC, 0, 0];
    let opt = EFILoadOpt::decode(&buf).unwrap();
    assert_eq!(opt.description, "\u{10000}");
}

#[test]
fn non_ascii_bmp_char_decodes() {
    let buf: Vec<u8> = vec![1, 0, 0, 0, 0, 0, 0xE9, 0x00, 0, 0];
    let opt = EFILoadOpt::decode(&buf).unwrap();
    assert_eq!(opt.description, "\u{E9}");
}

#[test]
fn overlong_device_path_fails_trailer_range() {
    let buf: Vec<u8> = vec![1, 0, 0, 0, 5, 0, 65, 0, 0, 0, 9, 9];
    assert_eq!(
        EFILoadOpt::decode(&buf).unwrap_err(),
        DecodeError::TrailerRangeFailure
    );
}

#[test]
fn decode_consumes_whole_buffer() {
    // header + "Hi" with terminator + 4-byte device path + optional data
    let buf: Vec<u8> = vec![
        9, 0, 0, 0, 4, 0, 72, 0, 105, 0, 0, 0, 1, 2, 3, 4, 0xAA, 0xBB,
    ];
    let opt = EFILoadOpt::decode(&buf).unwrap();
    let consumed = 6 + 2 * (opt.description.encode_utf16().count() + 1) + 4;
    assert_eq!(consumed + opt.optional_data.len(), buf.len());
    assert_eq!(opt.optional_data, vec![0xAA, 0xBB]);
}

#[test]
fn device_path_length_is_little_endian() {
    // length 0x0101 = 257: exactly 257 bytes of device path, then two tail bytes
    let mut buf: Vec<u8> = vec![0, 1, 0, 0, 1, 1, 0, 0];
    buf.extend(std::iter::repeat(9).take(257));
    buf.extend_from_slice(&[66, 79]);
    let opt = EFILoadOpt::decode(&buf).unwrap();
    assert_eq!(opt.attributes, 256);
    assert_eq!(opt.optional_data, vec![66, 79]);
}
