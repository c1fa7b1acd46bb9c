use vm::allocator::RegionAllocator;
use vm::buffers::{encode_u32, encode_u64, ByteOrder, BytesReader, BytesWriter};

#[test]
fn u64_little_endian_encoding_is_exact() {
    let bytes = encode_u64(ByteOrder::LittleEndian, 0x0102_0304_0506_0708);
    assert_eq!(bytes, vec![8, 7, 6, 5, 4, 3, 2, 1]);
}

#[test]
fn u64_big_endian_encoding_is_exact() {
    let bytes = encode_u64(ByteOrder::BigEndian, 0x0102_0304_0506_0708);
    assert_eq!(bytes, vec![1, 2, 3, 4, 5, 6, 7, 8]);
}

#[test]
fn u32_encodings_are_exact() {
    assert_eq!(encode_u32(ByteOrder::LittleEndian, 0xAABB_CCDD), vec![0xDD, 0xCC, 0xBB, 0xAA]);
    assert_eq!(encode_u32(ByteOrder::BigEndian, 0xAABB_CCDD), vec![0xAA, 0xBB, 0xCC, 0xDD]);
}

#[test]
fn writer_appends_and_reader_round_trips_little_endian() {
    let mut allocator = RegionAllocator::new(128);
    let mut writer = BytesWriter::new(ByteOrder::LittleEndian, &allocator);
    writer.write_u64(&mut allocator, 77);
    writer.write_u32(&mut allocator, 4242);
    writer.write_byte(&mut allocator, 9);
    writer.write_string(&mut allocator, "ab");
    assert_eq!(writer.current_offset(), 8 + 4 + 1 + 8 + 2);

    let mut reader = BytesReader::new(ByteOrder::LittleEndian, &allocator);
    assert_eq!(reader.read_u64(&allocator), 77);
    assert_eq!(reader.read_u32(&allocator), 4242);
    assert_eq!(reader.read_byte(&allocator), 9);
    assert_eq!(reader.read_string(&allocator), b"ab".to_vec());
    assert_eq!(reader.current_offset(), writer.current_offset());
}

#[test]
fn writer_and_reader_round_trip_big_endian() {
    let mut allocator = RegionAllocator::new(64);
    let mut writer = BytesWriter::new(ByteOrder::BigEndian, &allocator);
    writer.write_u64(&mut allocator, 0x1122_3344_5566_7788);
    // The first written byte is the most significant one.
    assert_eq!(allocator.get_byte(0), 0x11);
    assert_eq!(allocator.get_byte(7), 0x88);

    let mut reader = BytesReader::new(ByteOrder::BigEndian, &allocator);
    assert_eq!(reader.read_u64(&allocator), 0x1122_3344_5566_7788);
}

#[test]
fn write_u64_at_patches_without_moving_the_cursor() {
    let mut allocator = RegionAllocator::new(64);
    let mut writer = BytesWriter::new(ByteOrder::LittleEndian, &allocator);
    writer.write_u64(&mut allocator, 0);
    writer.write_u64(&mut allocator, 55);
    writer.write_u64_at(&mut allocator, 0, 17);
    assert_eq!(writer.current_offset(), 16);

    let reader = BytesReader::new(ByteOrder::LittleEndian, &allocator);
    assert_eq!(reader.read_u64_at(&allocator, 0), 17);
    assert_eq!(reader.read_u64_at(&allocator, 8), 55);
}

#[test]
fn skip_and_reset_move_the_read_cursor() {
    let mut allocator = RegionAllocator::new(64);
    let mut writer = BytesWriter::new(ByteOrder::LittleEndian, &allocator);
    writer.write_u32(&mut allocator, 1);
    writer.write_u32(&mut allocator, 2);

    let mut reader = BytesReader::new(ByteOrder::LittleEndian, &allocator);
    reader.skip(4);
    assert_eq!(reader.read_u32(&allocator), 2);
    reader.reset();
    assert_eq!(reader.read_u32(&allocator), 1);
}
