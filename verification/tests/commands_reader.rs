use vm::allocator::RegionAllocator;
use vm::buffers::{ByteOrder, BytesReader, BytesWriter};
use vm::commands_reader::CommandsReader;
use vm::module::ModuleCommands;

fn write_demo(allocator: &mut RegionAllocator) {
    let mut bytes_writer = BytesWriter::new(ByteOrder::LittleEndian, allocator);
    bytes_writer.write_u64(allocator, 5); // Commands count
    bytes_writer.write_string(allocator, "tech.paws.tests");

    // Command 1
    bytes_writer.write_u64(allocator, 1); // Command id
    bytes_writer.write_u64(allocator, 8); // Command payload len
    bytes_writer.write_u32(allocator, 5); // Some payload
    bytes_writer.write_u32(allocator, 9); // Some payload

    // Command 2
    bytes_writer.write_u64(allocator, 2); // Command id
    bytes_writer.write_u64(allocator, 12); // Command payload len
    bytes_writer.write_u32(allocator, 2); // Some payload
    bytes_writer.write_u32(allocator, 4); // Some payload
    bytes_writer.write_u32(allocator, 91); // Some payload

    // Command 3
    bytes_writer.write_u64(allocator, 3); // Command id
    bytes_writer.write_u64(allocator, 4); // Command payload len
    bytes_writer.write_u32(allocator, 1); // Some payload

    // Command 4
    bytes_writer.write_u64(allocator, 4); // Command id
    bytes_writer.write_u64(allocator, 32); // Command payload len
    bytes_writer.write_u32(allocator, 2); // Some payload
    bytes_writer.write_u32(allocator, 4); // Some payload
    bytes_writer.write_u32(allocator, 5); // Some payload
    bytes_writer.write_u32(allocator, 92); // Some payload
    bytes_writer.write_u32(allocator, 2); // Some payload
    bytes_writer.write_u32(allocator, 4); // Some payload
    bytes_writer.write_u32(allocator, 5); // Some payload
    bytes_writer.write_u32(allocator, 92); // Some payload

    // Command 5
    bytes_writer.write_u64(allocator, 5); // Command id
    bytes_writer.write_u64(allocator, 8); // Command payload len
    bytes_writer.write_u32(allocator, 99); // Some payload
    bytes_writer.write_u32(allocator, 123); // Some payload
}

#[test]
fn skip_commands() {
    let mut allocator = RegionAllocator::new(1024);
    write_demo(&mut allocator);
    let mut bytes_reader = BytesReader::new(ByteOrder::LittleEndian, &allocator);
    let mut commands_reader = CommandsReader::new(&mut bytes_reader, &allocator);

    let command = commands_reader.next(&mut bytes_reader, &allocator).unwrap().unwrap();
    assert_eq!(command.id, 1);

    let command = commands_reader.next(&mut bytes_reader, &allocator).unwrap().unwrap();
    assert_eq!(command.id, 2);

    let command = commands_reader.next(&mut bytes_reader, &allocator).unwrap().unwrap();
    assert_eq!(command.id, 3);

    let command = commands_reader.next(&mut bytes_reader, &allocator).unwrap().unwrap();
    assert_eq!(command.id, 4);

    let command = commands_reader.next(&mut bytes_reader, &allocator).unwrap().unwrap();
    assert_eq!(command.id, 5);
}

#[test]
fn partially_read_commands_payloads() {
    let mut allocator = RegionAllocator::new(1024);
    write_demo(&mut allocator);
    let mut bytes_reader = BytesReader::new(ByteOrder::LittleEndian, &allocator);
    let mut commands_reader = CommandsReader::new(&mut bytes_reader, &allocator);

    // Command 1
    let command = commands_reader.next(&mut bytes_reader, &allocator).unwrap().unwrap();
    assert_eq!(command.id, 1);
    let data = bytes_reader.read_u32(&allocator);
    assert_eq!(data, 5);

    // Command 2
    let command = commands_reader.next(&mut bytes_reader, &allocator).unwrap().unwrap();
    assert_eq!(command.id, 2);
    let data = bytes_reader.read_u32(&allocator);
    assert_eq!(data, 2);
    let data = bytes_reader.read_u32(&allocator);
    assert_eq!(data, 4);
    let data = bytes_reader.read_u32(&allocator);
    assert_eq!(data, 91);

    // Command 3
    let command = commands_reader.next(&mut bytes_reader, &allocator).unwrap().unwrap();
    assert_eq!(command.id, 3);
    let data = bytes_reader.read_u32(&allocator);
    assert_eq!(data, 1);

    let command = commands_reader.next(&mut bytes_reader, &allocator).unwrap().unwrap();
    assert_eq!(command.id, 4);
    let data = bytes_reader.read_u32(&allocator);
    assert_eq!(data, 2);
    let data = bytes_reader.read_u32(&allocator);
    assert_eq!(data, 4);
    let data = bytes_reader.read_u32(&allocator);
    assert_eq!(data, 5);

    let command = commands_reader.next(&mut bytes_reader, &allocator).unwrap().unwrap();
    assert_eq!(command.id, 5);
    let data = bytes_reader.read_u32(&allocator);
    assert_eq!(data, 99);
    let data = bytes_reader.read_u32(&allocator);
    assert_eq!(data, 123);
}

#[test]
#[should_panic]
fn payload_overflow() {
    let mut allocator = RegionAllocator::new(1024);
    write_demo(&mut allocator);
    let mut bytes_reader = BytesReader::new(ByteOrder::LittleEndian, &allocator);
    let mut commands_reader = CommandsReader::new(&mut bytes_reader, &allocator);

    let command = commands_reader.next(&mut bytes_reader, &allocator).unwrap().unwrap();
    assert_eq!(command.id, 1);
    let data = bytes_reader.read_u32(&allocator);
    assert_eq!(data, 5);
    bytes_reader.read_u64(&allocator);
    commands_reader.next(&mut bytes_reader, &allocator).unwrap();
}

#[test]
fn read_all_commands() {
    let mut allocator = RegionAllocator::new(1024);
    write_demo(&mut allocator);
    let mut bytes_reader = BytesReader::new(ByteOrder::LittleEndian, &allocator);
    let mut commands_reader = CommandsReader::new(&mut bytes_reader, &allocator);

    for _ in 0..5 {
        let command = commands_reader.next(&mut bytes_reader, &allocator).unwrap();
        assert!(command.is_some());
    }

    let command = commands_reader.next(&mut bytes_reader, &allocator).unwrap();
    assert!(command.is_none());
}

#[test]
fn five_pushed_records_read_back_in_order() {
    let mut log = ModuleCommands::new("tech.paws.tests", 1024).unwrap();
    let payload_lens: [usize; 5] = [8, 12, 4, 32, 8];
    for (i, len) in payload_lens.iter().enumerate() {
        let payload = vec![i as u8; *len];
        log.push_command(i as u64 + 1, payload.as_slice()).unwrap();
    }

    let mut bytes_reader = BytesReader::new(ByteOrder::LittleEndian, &log.allocator);
    let mut commands_reader = CommandsReader::new(&mut bytes_reader, &log.allocator);
    assert_eq!(commands_reader.len(), 5);
    assert_eq!(commands_reader.address, b"tech.paws.tests".to_vec());
    for i in 0..5u64 {
        let command = commands_reader.next(&mut bytes_reader, &log.allocator).unwrap().unwrap();
        assert_eq!(command.id, i + 1);
        assert_eq!(commands_reader.current_command_len(), payload_lens[i as usize] as u64);
    }
    assert!(commands_reader.next(&mut bytes_reader, &log.allocator).unwrap().is_none());
}

#[test]
fn partial_read_auto_skip_recovers_payloads() {
    let mut log = ModuleCommands::new("tech.paws.tests", 1024).unwrap();
    log.push_command(7, &[10, 20, 30, 40]).unwrap();
    log.push_command(8, &[50, 60]).unwrap();

    let mut bytes_reader = BytesReader::new(ByteOrder::LittleEndian, &log.allocator);
    let mut commands_reader = CommandsReader::new(&mut bytes_reader, &log.allocator);

    let command = commands_reader.next(&mut bytes_reader, &log.allocator).unwrap().unwrap();
    assert_eq!(command.id, 7);
    // Read only one byte of the four-byte payload; the rest is skipped.
    assert_eq!(bytes_reader.read_byte(&log.allocator), 10);

    let command = commands_reader.next(&mut bytes_reader, &log.allocator).unwrap().unwrap();
    assert_eq!(command.id, 8);
    assert_eq!(bytes_reader.read_byte(&log.allocator), 50);
    assert_eq!(bytes_reader.read_byte(&log.allocator), 60);
    assert!(commands_reader.next(&mut bytes_reader, &log.allocator).unwrap().is_none());
}

#[test]
fn boundary_violation_is_reported_not_masked() {
    let mut log = ModuleCommands::new("tech.paws.tests", 1024).unwrap();
    log.push_command(1, &[1, 2, 3, 4]).unwrap();
    log.push_command(2, &[5, 6, 7, 8]).unwrap();

    let mut bytes_reader = BytesReader::new(ByteOrder::LittleEndian, &log.allocator);
    let mut commands_reader = CommandsReader::new(&mut bytes_reader, &log.allocator);

    let command = commands_reader.next(&mut bytes_reader, &log.allocator).unwrap().unwrap();
    assert_eq!(command.id, 1);
    // Read one byte past the declared payload length of the record.
    bytes_reader.read_u32(&log.allocator);
    bytes_reader.read_byte(&log.allocator);
    let violation = commands_reader.next(&mut bytes_reader, &log.allocator);
    assert_eq!(violation, Err(vm::VmError::ProtocolViolation));
}
