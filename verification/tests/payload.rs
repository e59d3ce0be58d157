use quirs::constants::QUIRC_MAX_PAYLOAD;
use quirs::decode::datastream::Datastream;
use quirs::decode::payload::{
    alpha_tuple, decode_alpha, decode_byte, decode_eci, decode_kanji, decode_numeric, decode_payload, numeric_tuple,
};
use quirs::error::{error_message, QuircDecodeError};
use quirs::ops::QuircData;

fn stream(bits: &[(u32, usize)]) -> Datastream {
    let mut ds = Datastream::new();
    let mut n = 0usize;
    for (value, len) in bits {
        for i in (0..*len).rev() {
            if (value >> i) & 1 != 0 {
                ds.data[n / 8] |= 0x80 >> (n % 8);
            }
            n += 1;
        }
    }
    ds.data_bits = n as u32;
    ds
}

fn blank(version: u32) -> QuircData {
    QuircData {
        version,
        ecc_level: 0,
        mask: 0,
        data_type: 0,
        payload: [0u8; QUIRC_MAX_PAYLOAD],
        payload_len: 0,
        eci: 0,
    }
}

#[test]
fn take_bits_reads_most_significant_bit_first() {
    let mut ds = stream(&[(0b1011, 4), (0x1234, 16), (1, 1)]);
    assert_eq!(ds.bits_remaining(), 21);
    assert_eq!(ds.take_bits(4), 0b1011);
    assert_eq!(ds.take_bits(16), 0x1234);
    assert_eq!(ds.bits_remaining(), 1);
    // Only one bit is left: it is all that a longer request gets.
    assert_eq!(ds.take_bits(8), 1);
    assert_eq!(ds.bits_remaining(), 0);
    assert_eq!(ds.take_bits(8), 0);
}

#[test]
fn numeric_tuple_writes_decimal_digits() {
    let mut ds = stream(&[(7, 10), (98, 7), (5, 4), (1023, 10)]);
    let mut data = blank(1);
    assert!(!numeric_tuple(&mut data, &mut ds, 10, 3));
    assert!(!numeric_tuple(&mut data, &mut ds, 7, 2));
    assert!(!numeric_tuple(&mut data, &mut ds, 4, 1));
    assert!(!numeric_tuple(&mut data, &mut ds, 10, 3));
    assert_eq!(&data.payload[..9], b"007985023");
    assert_eq!(data.payload_len, 9);
    // Nothing is left for another group.
    assert!(numeric_tuple(&mut data, &mut ds, 4, 1));
    assert_eq!(data.payload_len, 9);
}

#[test]
fn alpha_tuple_writes_characters() {
    let mut ds = stream(&[(17 * 45 + 14, 11), (44, 6)]);
    let mut data = blank(1);
    assert!(!alpha_tuple(&mut data, &mut ds, 11, 2));
    assert!(!alpha_tuple(&mut data, &mut ds, 6, 1));
    assert_eq!(&data.payload[..3], b"HE:");
    assert!(alpha_tuple(&mut data, &mut ds, 6, 1));
}

#[test]
fn count_widths_depend_on_the_version() {
    for (version, width) in [(1u32, 10usize), (9, 10), (10, 12), (26, 12), (27, 14), (40, 14)] {
        let mut ds = stream(&[(1, width), (9, 4)]);
        let mut data = blank(version);
        assert_eq!(decode_numeric(&mut data, &mut ds), QuircDecodeError::QuircSuccess);
        assert_eq!(&data.payload[..1], b"9");
        assert_eq!(ds.bits_remaining(), 0);
    }
    for (version, width) in [(9u32, 9usize), (10, 11), (27, 13)] {
        let mut ds = stream(&[(1, width), (10, 6)]);
        let mut data = blank(version);
        assert_eq!(decode_alpha(&mut data, &mut ds), QuircDecodeError::QuircSuccess);
        assert_eq!(&data.payload[..1], b"A");
        assert_eq!(ds.bits_remaining(), 0);
    }
    for (version, width) in [(9u32, 8usize), (10, 16), (40, 16)] {
        let mut ds = stream(&[(1, width), (0x41, 8)]);
        let mut data = blank(version);
        assert_eq!(decode_byte(&mut data, &mut ds), QuircDecodeError::QuircSuccess);
        assert_eq!(&data.payload[..1], b"A");
        assert_eq!(ds.bits_remaining(), 0);
    }
    for (version, width) in [(9u32, 8usize), (10, 10), (27, 12)] {
        let mut ds = stream(&[(1, width), (0, 13)]);
        let mut data = blank(version);
        assert_eq!(decode_kanji(&mut data, &mut ds), QuircDecodeError::QuircSuccess);
        assert_eq!(&data.payload[..2], &[0x81, 0x40]);
        assert_eq!(ds.bits_remaining(), 0);
    }
}

#[test]
fn kanji_codes_map_into_both_ranges() {
    // 0x9FFC is the last code of the first range, 0xE040 the first of the second.
    let last_low = (0x9ffc - 0x8140) as u32;
    let code_low = (last_low >> 8) * 0xc0 + (last_low & 0xff);
    let first_high = (0xe040 - 0xc140) as u32;
    let code_high = (first_high >> 8) * 0xc0 + (first_high & 0xff);
    let mut ds = stream(&[(2, 8), (code_low, 13), (code_high, 13)]);
    let mut data = blank(1);
    assert_eq!(decode_kanji(&mut data, &mut ds), QuircDecodeError::QuircSuccess);
    assert_eq!(&data.payload[..4], &[0x9f, 0xfc, 0xe0, 0x40]);
    assert_eq!(data.payload_len, 4);
}

#[test]
fn segments_that_do_not_fit_overflow() {
    let mut data = blank(40);
    data.payload_len = QUIRC_MAX_PAYLOAD - 3;
    let mut ds = stream(&[(3, 14), (123, 10)]);
    assert_eq!(decode_numeric(&mut data, &mut ds), QuircDecodeError::QuircErrorDataOverflow);
    assert_eq!(data.payload_len, QUIRC_MAX_PAYLOAD - 3);
    let mut ds = stream(&[(2, 14), (12, 7)]);
    assert_eq!(decode_numeric(&mut data, &mut ds), QuircDecodeError::QuircSuccess);
    assert_eq!(data.payload_len, QUIRC_MAX_PAYLOAD - 1);

    let mut data = blank(40);
    data.payload_len = QUIRC_MAX_PAYLOAD - 2;
    let mut ds = stream(&[(1, 12), (0, 13)]);
    assert_eq!(decode_kanji(&mut data, &mut ds), QuircDecodeError::QuircErrorDataOverflow);
    let mut ds = stream(&[(2, 16), (0x4142, 16)]);
    assert_eq!(decode_byte(&mut data, &mut ds), QuircDecodeError::QuircErrorDataOverflow);
    let mut ds = stream(&[(2, 13), (45, 11)]);
    assert_eq!(decode_alpha(&mut data, &mut ds), QuircDecodeError::QuircErrorDataOverflow);
}

#[test]
fn segments_that_end_early_underflow() {
    let mut data = blank(1);
    let mut ds = stream(&[(4, 10), (123, 10)]);
    assert_eq!(decode_numeric(&mut data, &mut ds), QuircDecodeError::QuircErrorDataUnderflow);
    assert_eq!(&data.payload[..3], b"123");
    let mut data = blank(1);
    let mut ds = stream(&[(3, 9), (45, 11)]);
    assert_eq!(decode_alpha(&mut data, &mut ds), QuircDecodeError::QuircErrorDataUnderflow);
    let mut data = blank(1);
    let mut ds = stream(&[(2, 8), (0x41, 8)]);
    assert_eq!(decode_byte(&mut data, &mut ds), QuircDecodeError::QuircErrorDataUnderflow);
    assert_eq!(data.payload_len, 0);
    let mut data = blank(1);
    let mut ds = stream(&[(2, 8), (0, 13)]);
    assert_eq!(decode_kanji(&mut data, &mut ds), QuircDecodeError::QuircErrorDataUnderflow);
    let mut data = blank(1);
    let mut ds = stream(&[(0x80, 7)]);
    assert_eq!(decode_eci(&mut data, &mut ds), QuircDecodeError::QuircErrorDataUnderflow);
    let mut ds = stream(&[(0x80, 8), (1, 7)]);
    assert_eq!(decode_eci(&mut data, &mut ds), QuircDecodeError::QuircErrorDataUnderflow);
    let mut ds = stream(&[(0xc0, 8), (1, 15)]);
    assert_eq!(decode_eci(&mut data, &mut ds), QuircDecodeError::QuircErrorDataUnderflow);
}

#[test]
fn payload_ends_at_unknown_mode_and_is_terminated() {
    let mut ds = stream(&[(1, 4), (2, 10), (42, 7), (0, 4), (4, 4), (1, 8), (0x41, 8)]);
    let mut data = blank(1);
    data.payload[2] = 0xff;
    assert_eq!(decode_payload(&mut data, &mut ds), QuircDecodeError::QuircSuccess);
    assert_eq!(data.payload_len, 2);
    assert_eq!(&data.payload[..3], b"42\0");
    assert_eq!(data.data_type, 1);

    for stop in [0u32, 3, 5, 6, 9, 15] {
        let mut ds = stream(&[(stop, 4), (0xffff, 16)]);
        let mut data = blank(1);
        data.payload[0] = 0xff;
        assert_eq!(decode_payload(&mut data, &mut ds), QuircDecodeError::QuircSuccess);
        assert_eq!(data.payload_len, 0);
        assert_eq!(data.payload[0], 0);
        assert_eq!(data.data_type, 0);
    }
}

#[test]
fn payload_that_fills_the_room_loses_its_last_byte() {
    let mut data = blank(1);
    data.payload_len = QUIRC_MAX_PAYLOAD;
    data.payload[QUIRC_MAX_PAYLOAD - 1] = b'z';
    let mut ds = stream(&[(0, 3)]);
    assert_eq!(decode_payload(&mut data, &mut ds), QuircDecodeError::QuircSuccess);
    assert_eq!(data.payload_len, QUIRC_MAX_PAYLOAD - 1);
    assert_eq!(data.payload[QUIRC_MAX_PAYLOAD - 1], 0);
}

#[test]
fn payload_error_is_passed_on() {
    let mut ds = stream(&[(4, 4), (9, 8), (0x41, 8)]);
    let mut data = blank(1);
    assert_eq!(decode_payload(&mut data, &mut ds), QuircDecodeError::QuircErrorDataUnderflow);
}

#[test]
fn error_messages_are_fixed() {
    assert_eq!(error_message(QuircDecodeError::QuircSuccess), "Success");
    assert_eq!(error_message(QuircDecodeError::QuircErrorInvalidGridSize), "Invalid grid size");
    assert_eq!(error_message(QuircDecodeError::QuircErrorInvalidVersion), "Invalid version");
    assert_eq!(error_message(QuircDecodeError::QuircErrorFormatEcc), "Format data ECC failure");
    assert_eq!(error_message(QuircDecodeError::QuircErrorDataEcc), "ECC failure");
    assert_eq!(error_message(QuircDecodeError::QuircErrorUnknownDataType), "Unknown data type");
    assert_eq!(error_message(QuircDecodeError::QuircErrorDataOverflow), "Data overflow");
    assert_eq!(error_message(QuircDecodeError::QuircErrorDataUnderflow), "Data underflow");
}
