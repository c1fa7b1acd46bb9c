use vm::buffers::{ByteOrder, BytesReader};
use vm::commands::{
    Source, COMMAND_MOUSE_BUTTON_LEFT, COMMAND_TOUCH_MOVE, COMMAND_TOUCH_START,
    SET_TEXTURE_PIPELINE,
};
use vm::commands_bus::CommandsBus;
use vm::commands_reader::CommandsReader;
use vm::data::BytesBuffer;
use vm::gapi::{set_texture_pipeline, GApiContext};
use vm::module::{ClientEvent, ClientModule, ModuleCommands, MouseButton, CLIENT_ID};
use vm::state::VMState;
use vm::VmError;

fn new_vm() -> VMState<ClientModule> {
    let mut state: VMState<ClientModule> = VMState::new();
    state.register_module(ClientModule::new()).unwrap();
    state
}

fn touch_payload(button: u8, x: u32, y: u32) -> Vec<u8> {
    let mut payload = vec![button];
    payload.extend_from_slice(&x.to_le_bytes());
    payload.extend_from_slice(&y.to_le_bytes());
    payload
}

#[test]
fn push_command_frames_records_for_the_addressed_module() {
    let mut state = new_vm();
    let bus = CommandsBus::new();
    bus.push_command(&mut state, CLIENT_ID, 41, Source::GAPI, &[1, 2, 3]).unwrap();
    bus.push_command(&mut state, CLIENT_ID, 42, Source::GAPI, &[]).unwrap();

    let log = &state.module_states[0].gapi_commands;
    let mut bytes_reader = BytesReader::new(ByteOrder::LittleEndian, &log.allocator);
    let mut commands_reader = CommandsReader::new(&mut bytes_reader, &log.allocator);
    assert_eq!(commands_reader.len(), 2);
    assert_eq!(commands_reader.address, CLIENT_ID.as_bytes().to_vec());

    let command = commands_reader.next(&mut bytes_reader, &log.allocator).unwrap().unwrap();
    assert_eq!(command.id, 41);
    assert_eq!(commands_reader.current_command_len(), 3);
    assert_eq!(bytes_reader.read_byte(&log.allocator), 1);

    let command = commands_reader.next(&mut bytes_reader, &log.allocator).unwrap().unwrap();
    assert_eq!(command.id, 42);
    assert_eq!(commands_reader.current_command_len(), 0);
    assert!(commands_reader.next(&mut bytes_reader, &log.allocator).unwrap().is_none());
}

#[test]
fn two_phase_append_patches_the_exact_payload_length() {
    let mut log = ModuleCommands::new("tech.paws.tests", 1024).unwrap();
    log.begin_command(9).unwrap();
    log.write_payload_u64(500).unwrap();
    log.write_payload_u32(12).unwrap();
    log.write_payload_byte(3).unwrap();
    log.end_command();

    let mut bytes_reader = BytesReader::new(ByteOrder::LittleEndian, &log.allocator);
    let mut commands_reader = CommandsReader::new(&mut bytes_reader, &log.allocator);
    let command = commands_reader.next(&mut bytes_reader, &log.allocator).unwrap().unwrap();
    assert_eq!(command.id, 9);
    // The patched length field equals exactly the bytes written between
    // begin and end: 8 + 4 + 1.
    assert_eq!(commands_reader.current_command_len(), 13);
    assert_eq!(bytes_reader.read_u64(&log.allocator), 500);
    assert_eq!(bytes_reader.read_u32(&log.allocator), 12);
    assert_eq!(bytes_reader.read_byte(&log.allocator), 3);
    assert!(commands_reader.next(&mut bytes_reader, &log.allocator).unwrap().is_none());
}

#[test]
fn two_phase_append_through_the_bus() {
    let mut state = new_vm();
    let bus = CommandsBus::new();
    bus.begin_command(&mut state, CLIENT_ID, Source::GAPI, 77).unwrap();
    bus.write_payload_bytes(&mut state, CLIENT_ID, Source::GAPI, &[10, 11]).unwrap();
    bus.end_command(&mut state, CLIENT_ID, Source::GAPI);

    let log = &state.module_states[0].gapi_commands;
    let mut bytes_reader = BytesReader::new(ByteOrder::LittleEndian, &log.allocator);
    let mut commands_reader = CommandsReader::new(&mut bytes_reader, &log.allocator);
    let command = commands_reader.next(&mut bytes_reader, &log.allocator).unwrap().unwrap();
    assert_eq!(command.id, 77);
    assert_eq!(commands_reader.current_command_len(), 2);
    assert_eq!(bytes_reader.read_byte(&log.allocator), 10);
    assert_eq!(bytes_reader.read_byte(&log.allocator), 11);
}

#[test]
fn out_of_memory_push_leaves_the_log_unchanged() {
    let mut log = ModuleCommands::new("m", 64).unwrap();
    let too_big = vec![0u8; 64];
    assert_eq!(log.push_command(1, too_big.as_slice()), Err(VmError::OutOfMemory));

    let mut bytes_reader = BytesReader::new(ByteOrder::LittleEndian, &log.allocator);
    let mut commands_reader = CommandsReader::new(&mut bytes_reader, &log.allocator);
    assert_eq!(commands_reader.len(), 0);
    assert!(commands_reader.next(&mut bytes_reader, &log.allocator).unwrap().is_none());

    // A record that fits still goes through afterwards.
    log.push_command(2, &[5]).unwrap();
    let mut bytes_reader = BytesReader::new(ByteOrder::LittleEndian, &log.allocator);
    let mut commands_reader = CommandsReader::new(&mut bytes_reader, &log.allocator);
    assert_eq!(commands_reader.len(), 1);
}

#[test]
fn process_commands_collects_events_and_clears_the_logic_channel() {
    let mut state = new_vm();
    let bus = CommandsBus::new();
    bus.push_command(
        &mut state,
        CLIENT_ID,
        COMMAND_TOUCH_START,
        Source::Processor,
        touch_payload(COMMAND_MOUSE_BUTTON_LEFT, 100, 200).as_slice(),
    )
    .unwrap();
    bus.push_command(&mut state, CLIENT_ID, 0xdead, Source::Processor, &[1, 2, 3]).unwrap();
    let mut move_payload = Vec::new();
    move_payload.extend_from_slice(&7u32.to_le_bytes());
    move_payload.extend_from_slice(&8u32.to_le_bytes());
    bus.push_command(
        &mut state,
        CLIENT_ID,
        COMMAND_TOUCH_MOVE,
        Source::Processor,
        move_payload.as_slice(),
    )
    .unwrap();

    let render_update = state.process_commands(Source::Processor).unwrap();
    assert!(!render_update);

    let events = &state.module_states[0].events;
    assert_eq!(events.len(), 2);
    assert_eq!(
        events[0],
        ClientEvent::MouseDown { button: MouseButton::Left, x: 100, y: 200 },
    );
    assert_eq!(events[1], ClientEvent::MouseMove { x: 7, y: 8 });

    // The logic channel was cleared.
    let log = &state.module_states[0].processor_commands;
    let mut bytes_reader = BytesReader::new(ByteOrder::LittleEndian, &log.allocator);
    let commands_reader = CommandsReader::new(&mut bytes_reader, &log.allocator);
    assert_eq!(commands_reader.len(), 0);
}

#[test]
fn flush_clears_both_channels() {
    let mut state = new_vm();
    let bus = CommandsBus::new();
    bus.push_command(&mut state, CLIENT_ID, 1, Source::GAPI, &[1]).unwrap();
    bus.push_command(&mut state, CLIENT_ID, 2, Source::Processor, &[2]).unwrap();
    state.flush().unwrap();

    for source in [Source::GAPI, Source::Processor] {
        let st = &state.module_states[0];
        let log = match source {
            Source::GAPI => &st.gapi_commands,
            Source::Processor => &st.processor_commands,
        };
        let mut bytes_reader = BytesReader::new(ByteOrder::LittleEndian, &log.allocator);
        let commands_reader = CommandsReader::new(&mut bytes_reader, &log.allocator);
        assert_eq!(commands_reader.len(), 0);
    }
}

#[test]
fn get_commands_buffer_copies_the_whole_region() {
    let mut state = new_vm();
    let bus = CommandsBus::new();
    bus.push_command(&mut state, CLIENT_ID, 3, Source::GAPI, &[42]).unwrap();
    let buffer = state.get_commands_buffer(Source::GAPI);
    assert_eq!(buffer.size, 1024);
    assert_eq!(buffer.bytes.len(), 1024);
    // The header starts with the command count.
    assert_eq!(buffer.bytes[0], 1);
}

#[test]
fn set_texture_pipeline_frames_one_record() {
    let mut state = new_vm();
    let context = GApiContext {
        address: CLIENT_ID,
        from: "tech.paws.tests",
        commands_bus: CommandsBus::new(),
    };
    set_texture_pipeline(&context, &mut state, 7).unwrap();

    let log = &state.module_states[0].gapi_commands;
    let mut bytes_reader = BytesReader::new(ByteOrder::LittleEndian, &log.allocator);
    let mut commands_reader = CommandsReader::new(&mut bytes_reader, &log.allocator);
    let command = commands_reader.next(&mut bytes_reader, &log.allocator).unwrap().unwrap();
    assert_eq!(command.id, SET_TEXTURE_PIPELINE);
    assert_eq!(commands_reader.current_command_len(), 8);
    assert_eq!(bytes_reader.read_u64(&log.allocator), 7);
}

#[test]
fn bytes_buffer_copies_sources() {
    let from_slice = BytesBuffer::new(&[1, 2, 3]);
    assert_eq!(from_slice.size, 3);
    assert_eq!(from_slice.bytes, vec![1, 2, 3]);

    let from_str = BytesBuffer::from_str("hi");
    assert_eq!(from_str.size, 2);
    assert_eq!(from_str.bytes, b"hi".to_vec());

    let owned = String::from("paws");
    let from_string = BytesBuffer::from_string(&owned);
    assert_eq!(from_string.size, 4);
    assert_eq!(from_string.bytes, b"paws".to_vec());
}

#[test]
fn set_texture_pipeline_command_holds_its_id() {
    let command = vm::commands::SetTexturePipelineCommand::new(11);
    assert_eq!(command.id, 11);
}

#[test]
fn get_commands_new_iterates_a_channel() {
    let mut st = vm::module::ModuleState::new("tech.paws.tests").unwrap();
    st.processor_commands.push_command(31, &[9, 9]).unwrap();
    st.processor_commands.push_command(32, &[]).unwrap();

    let mut reader = st.get_commands_new(Source::Processor);
    assert_eq!(reader.len(), 2);
    let cmd = reader
        .next(&mut st.processor_commands.bytes_reader, &st.processor_commands.allocator)
        .unwrap()
        .unwrap();
    assert_eq!(cmd.id, 31);
    let cmd = reader
        .next(&mut st.processor_commands.bytes_reader, &st.processor_commands.allocator)
        .unwrap()
        .unwrap();
    assert_eq!(cmd.id, 32);
    assert!(reader
        .next(&mut st.processor_commands.bytes_reader, &st.processor_commands.allocator)
        .unwrap()
        .is_none());
}

#[test]
fn render_tick_reports_no_update_and_starts_the_clock() {
    let mut state = new_vm();
    assert!(!state.module_states[0].last_time_initialized);
    let render_update = state.process_commands(Source::GAPI).unwrap();
    // The render pass itself never asks for another render.
    assert!(!render_update);
    // The render clock is running after the first render tick.
    assert!(state.module_states[0].last_time_initialized);
}

#[test]
fn fresh_module_state_has_an_empty_scratch_arena() {
    let st = vm::module::ModuleState::new("tech.paws.tests").unwrap();
    assert_eq!(st.text_boundaries_allocator.get_buffer_size(), 1024 * 1024);
    assert_eq!(st.text_boundaries_allocator.current_offset(), 0);
}
