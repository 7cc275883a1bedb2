use serder::{DerDeserialize, DerError, DerSerialize, Length};

/// What `length` writes, laid into a zeroed buffer of five octets, with the
/// count that `serialize` returned.
fn serialized(length: Length) -> (usize, [u8; 5]) {
    let mut buffer = Vec::new();
    let written = length.serialize(&mut buffer);
    let mut slice = [0u8; 5];
    slice[..buffer.len()].copy_from_slice(&buffer);
    (written, slice)
}

#[test]
fn length_encoding() {
    // Length serialization
    let (written, slice) = serialized(Length::new(1));
    assert_eq!(written, 1);
    assert_eq!(slice, [1, 0, 0, 0, 0]);

    let (written, slice) = serialized(Length::new(128));
    assert_eq!(written, 2);
    assert_eq!(slice, [0x81, 0x80, 0x00, 0x00, 0x00]);

    let (written, slice) = serialized(Length::new(0x0000_A5B5));
    assert_eq!(written, 3);
    assert_eq!(slice, [0x82, 0xA5, 0xB5, 0x00, 0x00]);

    let (written, slice) = serialized(Length::new(0x00A5_B5C5));
    assert_eq!(written, 4);
    assert_eq!(slice, [0x83, 0xA5, 0xB5, 0xC5, 0x00]);

    let (written, slice) = serialized(Length::new(0xA5B5_C5D5));
    assert_eq!(written, 5);
    assert_eq!(slice, [0x84, 0xA5, 0xB5, 0xC5, 0xD5]);

    // Length deserialization
    let slice = [0x01];
    assert_eq!(Length::deserialize(&mut &slice[..]).unwrap(), Length::new(1));

    let slice = [0x82, 0xAB, 0xCD];
    assert_eq!(
        Length::deserialize(&mut &slice[..]).unwrap(),
        Length::new(0xABCD)
    );

    let slice = [0x83, 0xAB, 0xCD, 0xEF];
    assert_eq!(
        Length::deserialize(&mut &slice[..]).unwrap(),
        Length::new(0xAB_CDEF)
    );

    let slice = [0x84, 0xAB, 0xCD, 0xEF, 0x57];
    assert_eq!(
        Length::deserialize(&mut &slice[..]).unwrap(),
        Length::new(0xABCD_EF57)
    );

    let slice = [0x85, 0xAB, 0xCD, 0xEF, 0x88, 0x99];
    assert!(Length::deserialize(&mut &slice[..]).is_err());
}

#[test]
fn length_accessors() {
    let length = Length::new(0x0102_0304);
    assert_eq!(length.value(), 0x0102_0304);
    assert_eq!(length.into_usize(), 0x0102_0304usize);
    assert_eq!(Length::new(1).value(), 1);
    assert_eq!(Length::new(u32::MAX).value(), u32::MAX);
}

#[test]
fn length_try_new_refuses_zero() {
    assert!(matches!(Length::try_new(0), Err(DerError::InvalidEncoding)));
    assert_eq!(Length::try_new(1).unwrap(), Length::new(1));
    assert_eq!(Length::try_new(u32::MAX).unwrap().value(), u32::MAX);
}

#[test]
fn length_short_form_boundary() {
    let mut buffer = Vec::new();
    assert_eq!(Length::new(127).serialize(&mut buffer), 1);
    assert_eq!(buffer, [0x7F]);

    let mut buffer = Vec::new();
    assert_eq!(Length::new(128).serialize(&mut buffer), 2);
    assert_eq!(buffer, [0x81, 0x80]);

    let mut buffer = Vec::new();
    assert_eq!(Length::new(255).serialize(&mut buffer), 2);
    assert_eq!(buffer, [0x81, 0xFF]);

    let mut buffer = Vec::new();
    assert_eq!(Length::new(256).serialize(&mut buffer), 3);
    assert_eq!(buffer, [0x82, 0x01, 0x00]);

    let mut buffer = Vec::new();
    assert_eq!(Length::new(0x0100_0000).serialize(&mut buffer), 5);
    assert_eq!(buffer, [0x84, 0x01, 0x00, 0x00, 0x00]);

    let mut buffer = Vec::new();
    assert_eq!(Length::new(u32::MAX).serialize(&mut buffer), 5);
    assert_eq!(buffer, [0x84, 0xFF, 0xFF, 0xFF, 0xFF]);
}

#[test]
fn length_serialize_appends() {
    let mut buffer = vec![0xAA, 0xBB];
    assert_eq!(Length::new(0x1234).serialize(&mut buffer), 3);
    assert_eq!(buffer, [0xAA, 0xBB, 0x82, 0x12, 0x34]);
    assert_eq!(Length::new(5).serialize(&mut buffer), 1);
    assert_eq!(buffer, [0xAA, 0xBB, 0x82, 0x12, 0x34, 0x05]);
}

#[test]
fn length_round_trip_samples() {
    let mut value: u32 = 1;
    let mut count = 0;
    while count < 2000 {
        let mut buffer = Vec::new();
        let written = Length::new(value).serialize(&mut buffer);
        assert_eq!(written, buffer.len());
        buffer.push(0x5A);
        let mut input = &buffer[..];
        let read = Length::deserialize(&mut input).unwrap();
        assert_eq!(read.value(), value);
        assert_eq!(input, [0x5A]);
        value = value.wrapping_mul(1_664_525).wrapping_add(1_013_904_223) | 1;
        count += 1;
    }
    for value in [
        1u32, 2, 126, 127, 128, 129, 255, 256, 0xFFFF, 0x1_0000, 0xFF_FFFF, 0x100_0000, u32::MAX,
    ] {
        let mut buffer = Vec::new();
        Length::new(value).serialize(&mut buffer);
        assert_eq!(Length::deserialize(&mut &buffer[..]).unwrap(), Length::new(value));
    }
}

#[test]
fn length_deserialize_moves_behind_the_header() {
    let data = [0x82, 0x01, 0x02, 0x03, 0x04];
    let mut input = &data[..];
    assert_eq!(Length::deserialize(&mut input).unwrap().value(), 0x0102);
    assert_eq!(input, [0x03, 0x04]);
    assert_eq!(Length::deserialize(&mut input).unwrap().value(), 3);
    assert_eq!(input, [0x04]);
}

#[test]
fn length_of_zero_is_read() {
    let data = [0x00, 0x09];
    let mut input = &data[..];
    assert_eq!(Length::deserialize(&mut input).unwrap().value(), 0);
    assert_eq!(input, [0x09]);

    let data = [0x80, 0x09];
    let mut input = &data[..];
    assert_eq!(Length::deserialize(&mut input).unwrap().value(), 0);
    assert_eq!(input, [0x09]);

    let mut buffer = Vec::new();
    let zero = Length::deserialize(&mut &[0x00u8][..]).unwrap();
    assert_eq!(zero.serialize(&mut buffer), 1);
    assert_eq!(buffer, [0x00]);
}

#[test]
fn length_accepts_leading_zero_octets() {
    let data = [0x85, 0x00, 0x00, 0x00, 0x00, 0x01];
    assert_eq!(Length::deserialize(&mut &data[..]).unwrap().value(), 1);

    let data = [0x88, 0x00, 0x00, 0x00, 0x00, 0xAB, 0xCD, 0xEF, 0x57];
    assert_eq!(Length::deserialize(&mut &data[..]).unwrap().value(), 0xABCD_EF57);

    let data = [0x8A, 0, 0, 0, 0, 0, 0, 0, 0, 0x12, 0x34, 0x77];
    let mut input = &data[..];
    assert_eq!(Length::deserialize(&mut input).unwrap().value(), 0x1234);
    assert_eq!(input, [0x77]);

    let data = [0x83, 0x00, 0x00, 0x00];
    assert_eq!(Length::deserialize(&mut &data[..]).unwrap().value(), 0);
}

#[test]
fn length_too_large_is_refused() {
    let data = [0x85, 0x01, 0x00, 0x00, 0x00, 0x00];
    let mut input = &data[..];
    assert!(matches!(
        Length::deserialize(&mut input),
        Err(DerError::IntValueTooLarge)
    ));
    assert_eq!(input, data);

    let data = [0x88, 0xFF, 0xFF, 0xFF, 0xFF, 0xFF, 0xFF, 0xFF, 0xFF];
    assert!(matches!(
        Length::deserialize(&mut &data[..]),
        Err(DerError::IntValueTooLarge)
    ));

    let data = [0x89, 0x01, 0, 0, 0, 0, 0, 0, 0, 0];
    assert!(matches!(
        Length::deserialize(&mut &data[..]),
        Err(DerError::IntValueTooLarge)
    ));

    let data = [0x8A, 0, 0x01, 0, 0, 0, 0, 0, 0, 0, 0];
    assert!(matches!(
        Length::deserialize(&mut &data[..]),
        Err(DerError::IntValueTooLarge)
    ));
}

#[test]
fn length_truncated_is_unexpected_eof() {
    let data: [u8; 0] = [];
    assert!(matches!(
        Length::deserialize(&mut &data[..]),
        Err(DerError::UnexpectedEof)
    ));

    let data = [0x82, 0xAB];
    let mut input = &data[..];
    assert!(matches!(
        Length::deserialize(&mut input),
        Err(DerError::UnexpectedEof)
    ));
    assert_eq!(input, data);

    let data = [0x81];
    assert!(matches!(
        Length::deserialize(&mut &data[..]),
        Err(DerError::UnexpectedEof)
    ));

    let data = [0xFF, 0x00, 0x00];
    assert!(matches!(
        Length::deserialize(&mut &data[..]),
        Err(DerError::UnexpectedEof)
    ));

    // The end of input is found before the size of the number is.
    let data = [0x89, 0xFF, 0xFF];
    assert!(matches!(
        Length::deserialize(&mut &data[..]),
        Err(DerError::UnexpectedEof)
    ));
}
