use fleabit::{FleaBitReader, FleaBitWriter};

#[test]
fn overwrite_first_bit() {
    let mut writer = FleaBitWriter::new();
    writer.bool(false);
    writer.bool(false);
    writer.bool(true);
    writer.set_bool(0, true);
    assert_eq!(writer.len(), 3);
    let mut reader = writer.into_reader();
    assert_eq!(reader.bool(), true);
    assert_eq!(reader.bool(), false);
    assert_eq!(reader.bool(), true);
    assert!(reader.is_end());
}

#[test]
fn overwrite_clears_bit() {
    let mut writer = FleaBitWriter::new();
    writer.u8(0xff);
    writer.set_bool(3, false);
    assert_eq!(writer.to_string(), "11110111");
    assert_eq!(writer.into_vec(), vec![0xf7]);
}

#[test]
fn bool_then_byte_scenario() {
    let mut writer = FleaBitWriter::new();
    writer.bool(false);
    writer.u8(135);
    assert_eq!(writer.len(), 9);
    assert_eq!(writer.to_string(), "00001110_.......1");
    let mut reader = writer.into_reader();
    assert_eq!(reader.bool(), false);
    assert_eq!(reader.u8(), 135);
    assert!(reader.is_end());
}

#[test]
fn empty_renders_one_group() {
    let writer = FleaBitWriter::new();
    assert_eq!(writer.len(), 0);
    assert_eq!(writer.to_string(), "........");
    let reader = writer.into_reader();
    assert!(reader.is_end());
    assert_eq!(reader.len(), 0);
    assert_eq!(reader.remaining_len(), 0);
}

#[test]
fn fixed_round_trips_after_each_offset() {
    for stray in 0..8usize {
        let mut writer = FleaBitWriter::new();
        for i in 0..stray {
            writer.bool(i % 2 == 0);
        }
        writer.u8(0xa5);
        writer.u16(0xbeef);
        writer.u32(0xdead_beef);
        writer.usize(0x0123_4567);
        let mut reader = writer.into_reader();
        for i in 0..stray {
            assert_eq!(reader.bool(), i % 2 == 0);
        }
        assert_eq!(reader.u8(), 0xa5);
        assert_eq!(reader.u16(), 0xbeef);
        assert_eq!(reader.u32(), 0xdead_beef);
        assert_eq!(reader.usize(), 0x0123_4567);
        assert!(reader.is_end());
    }
}

#[test]
fn truncated_keeps_low_bits() {
    let mut writer = FleaBitWriter::new();
    writer.bool(true);
    writer.u8_part(0xff, 3);
    writer.u16_part(0x1234, 12);
    writer.u32_part(0xffff_ffff, 0);
    writer.u32_part(0x8000_0001, 31);
    writer.usize_part(0x7f, 5);
    let mut reader = writer.into_reader();
    assert_eq!(reader.bool(), true);
    assert_eq!(reader.u8_part(3), 0x07);
    assert_eq!(reader.u16_part(12), 0x0234);
    assert_eq!(reader.usize_part(0), 0);
    assert_eq!(reader.usize_part(31), 0x0000_0001);
    assert_eq!(reader.usize_part(5), 0x1f);
    assert!(reader.is_end());
}

#[test]
fn u16_is_low_byte_first() {
    let mut writer = FleaBitWriter::new();
    writer.u16(0x1234);
    writer.u32(0x0a0b_0c0d);
    assert_eq!(writer.into_vec(), vec![0x34, 0x12, 0x0d, 0x0c, 0x0b, 0x0a]);
}

#[test]
fn into_vec_clears_unused_bits() {
    let mut writer = FleaBitWriter::new();
    writer.bool(true);
    writer.bool(true);
    writer.bool(false);
    writer.bool(true);
    assert_eq!(writer.into_vec(), vec![0x0b]);
    assert_eq!(FleaBitWriter::new().into_vec(), Vec::<u8>::new());
}

#[test]
fn pad_twice_keeps_length() {
    let mut writer = FleaBitWriter::new();
    writer.u8_part(1, 3);
    writer.pad();
    assert_eq!(writer.len(), 8);
    writer.pad();
    assert_eq!(writer.len(), 8);
    writer.bool(true);
    writer.pad();
    assert_eq!(writer.len(), 16);
    assert_eq!(writer.into_vec(), vec![1, 1]);
}

#[test]
fn reader_from_vec_and_slice() {
    let mut a = FleaBitReader::from_vec(vec![0x81, 0x02]);
    assert_eq!(a.len(), 16);
    assert_eq!(a.bool(), true);
    assert_eq!(a.remaining_len(), 15);
    assert_eq!(a.u8_part(7), 64);
    assert_eq!(a.u8(), 2);
    assert!(a.is_end());

    let data = [0x34u8, 0x12];
    let mut b = FleaBitReader::from_slice(&data);
    assert_eq!(b.to_string(), "00110100_00010010");
    assert_eq!(b.u16(), 0x1234);
    assert!(b.is_end());
}

#[test]
fn bytes_read_across_byte_boundary() {
    let mut reader = FleaBitReader::from_vec(vec![0xf0, 0x0f, 0xaa]);
    assert_eq!(reader.u8_part(4), 0);
    assert_eq!(reader.bytes(2), vec![0xff, 0xa0]);
    assert_eq!(reader.remaining_len(), 4);
    assert_eq!(reader.bytes(0), Vec::<u8>::new());
    assert_eq!(reader.u8_part(4), 0x0a);
    assert!(reader.is_end());
}

#[test]
fn bytes_round_trip_after_stray_bits() {
    let data = [0u8, 1, 0x80, 0x7f, 0xff, 0x5a];
    for stray in 0..8usize {
        let mut writer = FleaBitWriter::new();
        for _ in 0..stray {
            writer.bool(true);
        }
        writer.bytes(&data);
        let mut reader = writer.into_reader();
        for _ in 0..stray {
            assert!(reader.bool());
        }
        assert_eq!(reader.bytes(data.len()), data.to_vec());
        assert!(reader.is_end());
    }
}

#[test]
fn crop_end_leaves_cursor_alone() {
    let mut writer = FleaBitWriter::new();
    writer.u8_part(0b101, 3);
    writer.u8(0xc3);
    let mut reader = writer.into_reader();
    assert_eq!(reader.u8_part(3), 0b101);
    let mut rest = reader.crop_end();
    assert_eq!(reader.remaining_len(), 8);
    assert_eq!(rest.len(), 8);
    assert_eq!(rest.remaining_len(), 8);
    assert_eq!(rest.to_string(), "11000011");
    assert_eq!(rest.u8(), 0xc3);
    assert_eq!(reader.u8(), 0xc3);
    assert!(reader.crop_end().is_end());
}

#[test]
fn extend_all_ignores_position() {
    let mut reader = FleaBitReader::from_vec(vec![0x0f]);
    assert_eq!(reader.u8_part(4), 0x0f);
    let mut writer = FleaBitWriter::new();
    writer.bool(true);
    writer.extend_all(&reader);
    assert_eq!(writer.len(), 9);
    assert_eq!(writer.to_string(), "00011111_.......0");
}

#[test]
fn reader_to_string_shows_all_bits() {
    let mut writer = FleaBitWriter::new();
    writer.u8_part(0b10, 2);
    let mut reader = writer.into_reader();
    assert_eq!(reader.bool(), false);
    assert_eq!(reader.to_string(), "......10");
}

#[test]
fn reader_into_vec_keeps_all_bytes() {
    let mut reader = FleaBitReader::from_vec(vec![0x12, 0x34]);
    assert_eq!(reader.u8(), 0x12);
    assert_eq!(reader.into_vec(), vec![0x12, 0x34]);

    let mut writer = FleaBitWriter::new();
    writer.u8_part(0x1f, 5);
    assert_eq!(writer.into_reader().into_vec(), vec![0x1f]);
}

#[test]
fn clone_is_independent() {
    let mut writer = FleaBitWriter::new();
    writer.bool(true);
    let copy = writer.clone();
    writer.bool(true);
    assert_eq!(copy.len(), 1);
    assert_eq!(writer.len(), 2);
}
