//! Module interface and per-module command logs.
//!
//! A [`ModuleCommands`] is one channel's command log: an arena, a writer
//! and a reader cursor over it, and the two-phase append protocol that
//! keeps the arena's written prefix a well-formed log at every commit
//! point. Appending a command reserves the 8-byte payload-length field,
//! lets the producer write an arbitrary payload, and then patches the
//! length in once it is known.

use crate::allocator::RegionAllocator;
use crate::buffers::{
    dec_u32, enc_u64, lemma_u64_round_trip, ByteOrder, BytesReader, BytesWriter,
};
use crate::commands::{
    Source, COMMAND_MOUSE_BUTTON_LEFT, COMMAND_MOUSE_BUTTON_MIDDLE, COMMAND_MOUSE_BUTTON_RIGHT,
    COMMAND_TOUCH_END, COMMAND_TOUCH_MOVE, COMMAND_TOUCH_START,
};
use crate::protocol::{
    header_bytes, header_len, lemma_records_bytes_len_ge, lemma_records_bytes_push, log_bytes,
    record_bytes, records_bytes, records_sized, CommandRecord,
};
use crate::VmError;
use vstd::prelude::*;
use vstd::string::StringSliceAdditionalSpecFns;

verus! {

/// Capacity of each command channel's arena, in bytes.
pub const COMMANDS_CAPACITY: usize = 1024;

/// Capacity of the per-module text-boundaries scratch arena, in bytes.
pub const TEXT_BOUNDARIES_CAPACITY: usize = 1024 * 1024;

/// Debug services module id.
pub const CLIENT_ID: &'static str = "tech.paws.client";

/// Bookkeeping of an append between `begin_command` and `end_command`.
#[derive(Clone, Copy)]
pub struct PendingCommand {
    /// The command id the record was begun with.
    pub id: u64,
    /// Where the reserved payload-length field sits, to be patched at the
    /// end of the append.
    pub payload_size_offset: u64,
    /// Where the payload starts; everything the producer writes from here
    /// on is the payload.
    pub start_offset: u64,
}

/// One channel's command log: an arena and the writer/reader cursor pair
/// over it.
pub struct ModuleCommands {
    /// The memory the log lives in.
    pub allocator: RegionAllocator,
    /// Appending cursor; always positioned at the arena's offset.
    pub bytes_writer: BytesWriter,
    /// Reading cursor; moved independently by consumers.
    pub bytes_reader: BytesReader,
    /// The in-progress append, if a command was begun and not yet ended.
    pub appending: Option<PendingCommand>,
    /// The records committed so far.
    pub records: Ghost<Seq<CommandRecord>>,
    /// The module id bytes written in the header.
    pub module_id: Ghost<Seq<u8>>,
}

impl ModuleCommands {
    /// The byte order the log's integers are encoded in.
    pub open spec fn byte_order(self) -> ByteOrder {
        self.bytes_reader.byte_order()
    }

    /// The records committed so far.
    pub open spec fn records(self) -> Seq<CommandRecord> {
        self.records@
    }

    /// The module id bytes written in the header.
    pub open spec fn module_id_bytes(self) -> Seq<u8> {
        self.module_id@
    }

    /// Total bytes the log's arena can hold.
    pub open spec fn capacity(self) -> nat {
        self.allocator.capacity()
    }

    /// Bytes of the arena used so far.
    pub open spec fn used_bytes(self) -> nat {
        self.allocator.offset()
    }

    /// Whether a command was begun and not yet ended.
    pub open spec fn is_appending(self) -> bool {
        self.appending is Some
    }

    /// The in-progress append's bookkeeping.
    pub open spec fn pending(self) -> PendingCommand
        recommends
            self.is_appending(),
    {
        self.appending->Some_0
    }

    /// The payload bytes written so far for the in-progress append.
    pub open spec fn pending_payload(self) -> Seq<u8>
        recommends
            self.is_appending(),
    {
        self.allocator.written().skip(self.pending().start_offset as int)
    }

    /// Well-formed at a commit point: the written prefix of the arena is
    /// exactly the log of the committed records.
    pub open spec fn committed_wf(self) -> bool {
        &&& self.allocator.wf()
        &&& self.bytes_writer.byte_order() == self.byte_order()
        &&& self.bytes_writer.paired(self.allocator)
        &&& self.module_id_bytes().len() <= u64::MAX
        &&& self.records().len() <= u64::MAX
        &&& records_sized(self.records())
        &&& self.allocator.written() == log_bytes(
            self.byte_order(),
            self.module_id_bytes(),
            self.records(),
        )
    }

    /// Well-formed mid-append: the written prefix is the log of the
    /// committed records with the count already incremented, the begun
    /// record's id, the reserved (still zero) length field, and then the
    /// payload written so far.
    pub open spec fn appending_wf(self, p: PendingCommand) -> bool {
        &&& self.allocator.wf()
        &&& self.bytes_writer.byte_order() == self.byte_order()
        &&& self.bytes_writer.paired(self.allocator)
        &&& self.module_id_bytes().len() <= u64::MAX
        &&& self.records().len() + 1 <= u64::MAX
        &&& records_sized(self.records())
        &&& p.payload_size_offset == header_len(self.module_id_bytes()) + records_bytes(
            self.byte_order(),
            self.records(),
        ).len() + 8
        &&& p.start_offset == p.payload_size_offset + 8
        &&& p.start_offset <= self.allocator.offset()
        &&& self.allocator.written().take(p.start_offset as int) == header_bytes(
            self.byte_order(),
            (self.records().len() + 1) as u64,
            self.module_id_bytes(),
        ) + records_bytes(self.byte_order(), self.records()) + enc_u64(self.byte_order(), p.id)
            + enc_u64(self.byte_order(), 0)
    }

    /// Well-formed in either state.
    pub open spec fn wf(self) -> bool {
        match self.appending {
            None => self.committed_wf(),
            Some(p) => self.appending_wf(p),
        }
    }

    /// Everything that stays fixed for the log's lifetime.
    pub open spec fn same_shape(self, other: ModuleCommands) -> bool {
        &&& self.byte_order() == other.byte_order()
        &&& self.capacity() == other.capacity()
        &&& self.module_id_bytes() == other.module_id_bytes()
    }

    /// Create a log over a fresh arena of `capacity` bytes and write the
    /// empty header: a zero command count, then `module_id` as a
    /// length-prefixed string. Little-endian, as all logs are.
    ///
    /// Fails with `OutOfMemory` exactly when the header itself does not
    /// fit.
    pub fn new(module_id: &str, capacity: usize) -> (r: Result<ModuleCommands, VmError>)
        ensures
            r is Ok <==> 16 + module_id.spec_bytes().len() <= capacity,
            r is Err ==> r == Err::<ModuleCommands, VmError>(VmError::OutOfMemory),
            r is Ok ==> {
                let log = r->Ok_0;
                &&& log.wf()
                &&& !log.is_appending()
                &&& log.records() == Seq::<CommandRecord>::empty()
                &&& log.module_id_bytes() == module_id.spec_bytes()
                &&& log.byte_order() == ByteOrder::LittleEndian
                &&& log.capacity() == capacity
                &&& log.bytes_reader.cursor() == 0
            },
    {
        let id_bytes = module_id.as_bytes();
        if capacity < 16 || id_bytes.len() > capacity - 16 {
            return Err(VmError::OutOfMemory);
        }
        let mut allocator = RegionAllocator::new(capacity);
        let mut bytes_writer = BytesWriter::new(ByteOrder::LittleEndian, &allocator);
        let bytes_reader = BytesReader::new(ByteOrder::LittleEndian, &allocator);
        bytes_writer.write_u64(&mut allocator, 0);
        bytes_writer.write_string(&mut allocator, module_id);
        let log = ModuleCommands {
            allocator,
            bytes_writer,
            bytes_reader,
            appending: None,
            records: Ghost(Seq::empty()),
            module_id: Ghost(module_id.spec_bytes()),
        };
        proof {
            lemma_u64_round_trip(ByteOrder::LittleEndian, 0);
            lemma_u64_round_trip(ByteOrder::LittleEndian, module_id.spec_bytes().len() as u64);
            assert(log.allocator.written() =~= log_bytes(
                ByteOrder::LittleEndian,
                module_id.spec_bytes(),
                Seq::<CommandRecord>::empty(),
            ));
        }
        Ok(log)
    }

    /// Reset the log to an empty header for `module_id`: clear the arena,
    /// rewind both cursors, and write a zero count and the id again. Any
    /// in-progress append is discarded.
    ///
    /// Fails with `OutOfMemory` exactly when the header does not fit the
    /// arena's capacity, leaving the log untouched.
    pub fn clear(&mut self, module_id: &str) -> (r: Result<(), VmError>)
        requires
            old(self).wf(),
        ensures
            r is Ok <==> 16 + module_id.spec_bytes().len() <= old(self).capacity(),
            r is Err ==> *final(self) == *old(self) && r == Err::<(), VmError>(
                VmError::OutOfMemory,
            ),
            r is Ok ==> {
                &&& final(self).wf()
                &&& !final(self).is_appending()
                &&& final(self).records() == Seq::<CommandRecord>::empty()
                &&& final(self).module_id_bytes() == module_id.spec_bytes()
                &&& final(self).byte_order() == old(self).byte_order()
                &&& final(self).capacity() == old(self).capacity()
                &&& final(self).bytes_reader.cursor() == 0
            },
    {
        let id_bytes = module_id.as_bytes();
        let capacity = self.allocator.get_buffer_size();
        if capacity < 16 || id_bytes.len() > capacity - 16 {
            return Err(VmError::OutOfMemory);
        }
        let clear_result = self.allocator.clear();
        match clear_result {
            Ok(()) => {},
            Err(_) => {
                proof {
                    assert(false);
                }
            },
        }
        self.bytes_writer.clear();
        self.bytes_reader.reset();
        self.bytes_writer.write_u64(&mut self.allocator, 0);
        self.bytes_writer.write_string(&mut self.allocator, module_id);
        self.appending = None;
        self.records = Ghost(Seq::empty());
        self.module_id = Ghost(module_id.spec_bytes());
        proof {
            lemma_u64_round_trip(self.byte_order(), 0);
            lemma_u64_round_trip(self.byte_order(), module_id.spec_bytes().len() as u64);
            assert(self.allocator.written() =~= log_bytes(
                self.byte_order(),
                module_id.spec_bytes(),
                Seq::<CommandRecord>::empty(),
            ));
        }
        Ok(())
    }

    /// Start appending a command: increment the header's count, write the
    /// command id, and reserve a zeroed 8-byte payload-length field.
    /// Returns the offset where the payload starts.
    ///
    /// Fails with `OutOfMemory` exactly when the two 8-byte fields do not
    /// fit, leaving the log untouched. Every begun command must be ended
    /// with exactly one [`ModuleCommands::end_command`].
    pub fn begin_command(&mut self, id: u64) -> (r: Result<u64, VmError>)
        requires
            old(self).wf(),
            !old(self).is_appending(),
        ensures
            r is Ok <==> old(self).used_bytes() + 16 <= old(self).capacity(),
            r is Err ==> *final(self) == *old(self) && r == Err::<u64, VmError>(
                VmError::OutOfMemory,
            ),
            r is Ok ==> {
                &&& final(self).wf()
                &&& final(self).is_appending()
                &&& final(self).pending().id == id
                &&& final(self).pending().start_offset == r->Ok_0
                &&& final(self).pending_payload() == Seq::<u8>::empty()
                &&& final(self).records() == old(self).records()
                &&& final(self).same_shape(*old(self))
                &&& final(self).used_bytes() == old(self).used_bytes() + 16
                &&& final(self).bytes_reader == old(self).bytes_reader
            },
    {
        let capacity = self.allocator.get_buffer_size();
        let off = self.allocator.current_offset();
        if capacity - off < 16 {
            return Err(VmError::OutOfMemory);
        }
        let ghost bo = self.byte_order();
        let ghost mid = self.module_id_bytes();
        let ghost rs = self.records();
        let ghost w0 = self.allocator.written();
        proof {
            lemma_u64_round_trip(bo, rs.len() as u64);
            lemma_u64_round_trip(bo, mid.len() as u64);
            assert(w0 == log_bytes(bo, mid, rs));
            assert(w0.len() == 16 + mid.len() + records_bytes(bo, rs).len());
            assert(w0.subrange(0, 8) =~= enc_u64(bo, rs.len() as u64));
            assert(w0.subrange(0, 8) =~= self.allocator.contents().subrange(0, 8));
            lemma_records_bytes_len_ge(bo, rs);
        }
        let count = self.bytes_reader.read_u64_at(&self.allocator, 0);
        proof {
            assert(count == rs.len() as u64);
            assert(16 * rs.len() <= w0.len());
        }
        self.bytes_writer.write_u64_at(&mut self.allocator, 0, count + 1);
        proof {
            lemma_u64_round_trip(bo, (rs.len() + 1) as u64);
            assert(self.allocator.written() =~= enc_u64(bo, (rs.len() + 1) as u64) + w0.skip(8));
        }
        let ghost w1 = self.allocator.written();
        self.bytes_writer.write_u64(&mut self.allocator, id);
        let payload_size_offset = self.bytes_writer.current_offset();
        self.bytes_writer.write_u64(&mut self.allocator, 0);
        let start_offset = self.bytes_writer.current_offset();
        self.appending = Some(
            PendingCommand { id, payload_size_offset, start_offset },
        );
        proof {
            lemma_u64_round_trip(bo, id);
            lemma_u64_round_trip(bo, 0);
            assert(w1.take(payload_size_offset - 8) =~= header_bytes(
                bo,
                (rs.len() + 1) as u64,
                mid,
            ) + records_bytes(bo, rs));
            assert(self.allocator.written().take(start_offset as int) =~= header_bytes(
                bo,
                (rs.len() + 1) as u64,
                mid,
            ) + records_bytes(bo, rs) + enc_u64(bo, id) + enc_u64(bo, 0));
            assert(self.pending_payload() =~= Seq::<u8>::empty());
        }
        Ok(start_offset)
    }

    /// Append raw bytes to the in-progress command's payload.
    ///
    /// Fails with `OutOfMemory` exactly when the bytes do not fit, leaving
    /// the log untouched; the append stays open either way.
    pub fn write_payload_bytes(&mut self, data: &[u8]) -> (r: Result<(), VmError>)
        requires
            old(self).wf(),
            old(self).is_appending(),
        ensures
            r is Ok <==> old(self).used_bytes() + data@.len() <= old(self).capacity(),
            r is Err ==> *final(self) == *old(self) && r == Err::<(), VmError>(
                VmError::OutOfMemory,
            ),
            r is Ok ==> {
                &&& final(self).wf()
                &&& final(self).is_appending()
                &&& final(self).pending() == old(self).pending()
                &&& final(self).pending_payload() == old(self).pending_payload() + data@
                &&& final(self).records() == old(self).records()
                &&& final(self).same_shape(*old(self))
                &&& final(self).used_bytes() == old(self).used_bytes() + data@.len()
                &&& final(self).bytes_reader == old(self).bytes_reader
            },
    {
        let capacity = self.allocator.get_buffer_size();
        let off = self.allocator.current_offset();
        if data.len() > capacity - off {
            return Err(VmError::OutOfMemory);
        }
        let ghost p = self.pending();
        let ghost w0 = self.allocator.written();
        self.bytes_writer.write_bytes(&mut self.allocator, data);
        proof {
            assert(self.allocator.written().take(p.start_offset as int) =~= w0.take(
                p.start_offset as int,
            ));
            assert(self.pending_payload() =~= w0.skip(p.start_offset as int) + data@);
        }
        Ok(())
    }

    /// Append a u64 to the in-progress command's payload, encoded in the
    /// log's byte order.
    pub fn write_payload_u64(&mut self, value: u64) -> (r: Result<(), VmError>)
        requires
            old(self).wf(),
            old(self).is_appending(),
        ensures
            r is Ok <==> old(self).used_bytes() + 8 <= old(self).capacity(),
            r is Err ==> *final(self) == *old(self) && r == Err::<(), VmError>(
                VmError::OutOfMemory,
            ),
            r is Ok ==> {
                &&& final(self).wf()
                &&& final(self).is_appending()
                &&& final(self).pending() == old(self).pending()
                &&& final(self).pending_payload() == old(self).pending_payload() + enc_u64(
                    old(self).byte_order(),
                    value,
                )
                &&& final(self).records() == old(self).records()
                &&& final(self).same_shape(*old(self))
                &&& final(self).used_bytes() == old(self).used_bytes() + 8
                &&& final(self).bytes_reader == old(self).bytes_reader
            },
    {
        proof {
            lemma_u64_round_trip(self.byte_order(), value);
        }
        let bytes = crate::buffers::encode_u64(self.bytes_writer_byte_order(), value);
        self.write_payload_bytes(bytes.as_slice())
    }

    /// Append a u32 to the in-progress command's payload, encoded in the
    /// log's byte order.
    pub fn write_payload_u32(&mut self, value: u32) -> (r: Result<(), VmError>)
        requires
            old(self).wf(),
            old(self).is_appending(),
        ensures
            r is Ok <==> old(self).used_bytes() + 4 <= old(self).capacity(),
            r is Err ==> *final(self) == *old(self) && r == Err::<(), VmError>(
                VmError::OutOfMemory,
            ),
            r is Ok ==> {
                &&& final(self).wf()
                &&& final(self).is_appending()
                &&& final(self).pending() == old(self).pending()
                &&& final(self).pending_payload() == old(self).pending_payload()
                    + crate::buffers::enc_u32(old(self).byte_order(), value)
                &&& final(self).records() == old(self).records()
                &&& final(self).same_shape(*old(self))
                &&& final(self).used_bytes() == old(self).used_bytes() + 4
                &&& final(self).bytes_reader == old(self).bytes_reader
            },
    {
        proof {
            crate::buffers::lemma_u32_round_trip(self.byte_order(), value);
        }
        let bytes = crate::buffers::encode_u32(self.bytes_writer_byte_order(), value);
        self.write_payload_bytes(bytes.as_slice())
    }

    /// Append one byte to the in-progress command's payload.
    pub fn write_payload_byte(&mut self, value: u8) -> (r: Result<(), VmError>)
        requires
            old(self).wf(),
            old(self).is_appending(),
        ensures
            r is Ok <==> old(self).used_bytes() + 1 <= old(self).capacity(),
            r is Err ==> *final(self) == *old(self) && r == Err::<(), VmError>(
                VmError::OutOfMemory,
            ),
            r is Ok ==> {
                &&& final(self).wf()
                &&& final(self).is_appending()
                &&& final(self).pending() == old(self).pending()
                &&& final(self).pending_payload() == old(self).pending_payload() + seq![value]
                &&& final(self).records() == old(self).records()
                &&& final(self).same_shape(*old(self))
                &&& final(self).used_bytes() == old(self).used_bytes() + 1
                &&& final(self).bytes_reader == old(self).bytes_reader
            },
    {
        let bytes: [u8; 1] = [value];
        proof {
            assert(bytes@ =~= seq![value]);
        }
        self.write_payload_bytes(bytes.as_slice())
    }

    /// The writer's byte order (equal to the log's byte order whenever the
    /// log is well-formed).
    fn bytes_writer_byte_order(&self) -> (r: ByteOrder)
        ensures
            r == self.bytes_writer.byte_order(),
    {
        self.bytes_writer.current_byte_order()
    }

    /// Finish the in-progress append: patch the number of payload bytes
    /// written since `begin_command` into the reserved length field. The
    /// log returns to a commit point with the new record appended.
    pub fn end_command(&mut self)
        requires
            old(self).wf(),
            old(self).is_appending(),
        ensures
            final(self).wf(),
            !final(self).is_appending(),
            final(self).records() == old(self).records().push(
                CommandRecord {
                    id: old(self).pending().id,
                    payload: old(self).pending_payload(),
                },
            ),
            final(self).same_shape(*old(self)),
            final(self).used_bytes() == old(self).used_bytes(),
            final(self).bytes_reader == old(self).bytes_reader,
    {
        let ghost bo = self.byte_order();
        let ghost mid = self.module_id_bytes();
        let ghost rs = self.records();
        let ghost w0 = self.allocator.written();
        let ghost payload = self.pending_payload();
        let p = match self.appending {
            Some(p) => p,
            None => {
                proof {
                    assert(false);
                }
                PendingCommand { id: 0, payload_size_offset: 0, start_offset: 0 }
            },
        };
        let end_offset = self.bytes_writer.current_offset();
        let payload_len = end_offset - p.start_offset;
        self.bytes_writer.write_u64_at(&mut self.allocator, p.payload_size_offset, payload_len);
        self.appending = None;
        let ghost record = CommandRecord { id: p.id, payload };
        self.records = Ghost(rs.push(record));
        proof {
            lemma_u64_round_trip(bo, payload_len);
            lemma_u64_round_trip(bo, (rs.len() + 1) as u64);
            lemma_u64_round_trip(bo, mid.len() as u64);
            lemma_u64_round_trip(bo, p.id);
            lemma_u64_round_trip(bo, 0);
            assert(payload.len() == payload_len);
            let prefix = header_bytes(bo, (rs.len() + 1) as u64, mid) + records_bytes(bo, rs)
                + enc_u64(bo, p.id);
            assert(w0.take(p.start_offset as int) == prefix + enc_u64(bo, 0));
            assert(prefix.len() == p.payload_size_offset);
            assert forall|i: int| 0 <= i < p.payload_size_offset implies w0[i] == prefix[i] by {
                assert(w0.take(p.start_offset as int)[i] == (prefix + enc_u64(bo, 0))[i]);
            }
            assert(w0.take(p.payload_size_offset as int) =~= header_bytes(
                bo,
                (rs.len() + 1) as u64,
                mid,
            ) + records_bytes(bo, rs) + enc_u64(bo, p.id));
            lemma_records_bytes_push(bo, rs, record);
            assert(record_bytes(bo, record) =~= enc_u64(bo, p.id) + enc_u64(bo, payload_len)
                + payload);
            assert(self.allocator.written() =~= w0.take(p.payload_size_offset as int) + enc_u64(
                bo,
                payload_len,
            ) + payload);
            assert(self.allocator.written() =~= log_bytes(bo, mid, rs.push(record)));
        }
    }

    /// Append one whole command: the id, the reserved length field, the
    /// payload bytes, and the patched-in payload length — all or nothing.
    ///
    /// Fails with `OutOfMemory` exactly when the record does not fit in
    /// the remaining capacity, leaving the log untouched.
    pub fn push_command(&mut self, id: u64, payload: &[u8]) -> (r: Result<(), VmError>)
        requires
            old(self).wf(),
            !old(self).is_appending(),
        ensures
            r is Ok <==> old(self).used_bytes() + 16 + payload@.len() <= old(self).capacity(),
            r is Err ==> *final(self) == *old(self) && r == Err::<(), VmError>(
                VmError::OutOfMemory,
            ),
            r is Ok ==> {
                &&& final(self).wf()
                &&& !final(self).is_appending()
                &&& final(self).records() == old(self).records().push(
                    CommandRecord { id, payload: payload@ },
                )
                &&& final(self).same_shape(*old(self))
                &&& final(self).used_bytes() == old(self).used_bytes() + 16 + payload@.len()
                &&& final(self).bytes_reader == old(self).bytes_reader
            },
    {
        let capacity = self.allocator.get_buffer_size();
        let off = self.allocator.current_offset();
        if capacity - off < 16 || payload.len() > capacity - off - 16 {
            return Err(VmError::OutOfMemory);
        }
        let begin_result = self.begin_command(id);
        match begin_result {
            Ok(_) => {},
            Err(_) => {
                proof {
                    assert(false);
                }
            },
        }
        let write_result = self.write_payload_bytes(payload);
        match write_result {
            Ok(_) => {},
            Err(_) => {
                proof {
                    assert(false);
                }
            },
        }
        self.end_command();
        proof {
            assert(Seq::<u8>::empty() + payload@ =~= payload@);
        }
        Ok(())
    }
}

/// An opaque reading of the process's monotonic clock.
#[verifier::external_type_specification]
#[verifier::external_body]
pub struct ExInstant(std::time::Instant);

/// Relies on `std::time::Instant::now`: an opaque reading of the monotonic
/// clock. Nothing is promised of the value; it depends on when the call
/// runs.
#[verifier::external_body]
pub(crate) fn instant_now() -> std::time::Instant {
    std::time::Instant::now()
}

/// Relies on `std::time::Instant::elapsed` and `Duration::as_micros`: the
/// whole microseconds since the reading, truncated to 64 bits. Nothing is
/// promised of the value; it depends on when the call runs.
#[verifier::external_body]
pub(crate) fn elapsed_micros(since: &std::time::Instant) -> u64 {
    since.elapsed().as_micros() as u64
}

/// The client module's id as header bytes.
pub open spec fn client_id_bytes() -> Seq<u8> {
    vstd::utf8::encode_utf8(CLIENT_ID@)
}

/// Which mouse button a touch event carries.
#[derive(Clone, Copy, Debug, PartialEq, Eq, Structural)]
pub enum MouseButton {
    /// None that this layer knows.
    Unknown,
    /// The left button.
    Left,
    /// The right button.
    Right,
    /// The middle button.
    Middle,
}

/// The button a touch payload's first byte stands for.
pub open spec fn button_of_byte(b: u8) -> MouseButton {
    if b == COMMAND_MOUSE_BUTTON_LEFT {
        MouseButton::Left
    } else if b == COMMAND_MOUSE_BUTTON_RIGHT {
        MouseButton::Right
    } else if b == COMMAND_MOUSE_BUTTON_MIDDLE {
        MouseButton::Middle
    } else {
        MouseButton::Unknown
    }
}

impl MouseButton {
    /// Read one button byte at the reader's cursor.
    pub fn read_from_buffers(bytes_reader: &mut BytesReader, a: &RegionAllocator) -> (r:
        MouseButton)
        requires
            a.wf(),
            old(bytes_reader).cursor() + 1 <= a.offset(),
        ensures
            final(bytes_reader).cursor() == old(bytes_reader).cursor() + 1,
            final(bytes_reader).byte_order() == old(bytes_reader).byte_order(),
            r == button_of_byte(a.contents()[old(bytes_reader).cursor() as int]),
    {
        let b = bytes_reader.read_byte(a);
        if b == COMMAND_MOUSE_BUTTON_LEFT {
            MouseButton::Left
        } else if b == COMMAND_MOUSE_BUTTON_RIGHT {
            MouseButton::Right
        } else if b == COMMAND_MOUSE_BUTTON_MIDDLE {
            MouseButton::Middle
        } else {
            MouseButton::Unknown
        }
    }
}

/// A structural input event decoded from the client's logic channel.
#[derive(Clone, Copy, Debug, PartialEq, Eq, Structural)]
pub enum ClientEvent {
    /// A pointer went down at `(x, y)`.
    MouseDown {
        /// Which button went down.
        button: MouseButton,
        /// Horizontal position.
        x: u32,
        /// Vertical position.
        y: u32,
    },
    /// A pointer went up at `(x, y)`.
    MouseUp {
        /// Which button went up.
        button: MouseButton,
        /// Horizontal position.
        x: u32,
        /// Vertical position.
        y: u32,
    },
    /// A pointer moved to `(x, y)`.
    MouseMove {
        /// Horizontal position.
        x: u32,
        /// Vertical position.
        y: u32,
    },
}

/// What a module's step reports back to the tick loop.
#[derive(Clone, Copy, Debug, PartialEq, Eq, Structural)]
pub enum StepState {
    /// Nothing to draw anew.
    Idle,
    /// A render pass is needed.
    RenderUpdate,
}

/// The event a record stands for, if it is a touch command with the
/// exact payload the event needs: a button byte and two u32 coordinates
/// for down/up, two u32 coordinates for move. Anything else — other ids,
/// or a touch record whose payload is the wrong size — carries no event.
pub open spec fn event_of_record(byte_order: ByteOrder, r: CommandRecord) -> Option<ClientEvent> {
    if r.id == COMMAND_TOUCH_START && r.payload.len() == 9 {
        Some(
            ClientEvent::MouseDown {
                button: button_of_byte(r.payload[0]),
                x: dec_u32(byte_order, r.payload.subrange(1, 5)),
                y: dec_u32(byte_order, r.payload.subrange(5, 9)),
            },
        )
    } else if r.id == COMMAND_TOUCH_END && r.payload.len() == 9 {
        Some(
            ClientEvent::MouseUp {
                button: button_of_byte(r.payload[0]),
                x: dec_u32(byte_order, r.payload.subrange(1, 5)),
                y: dec_u32(byte_order, r.payload.subrange(5, 9)),
            },
        )
    } else if r.id == COMMAND_TOUCH_MOVE && r.payload.len() == 8 {
        Some(
            ClientEvent::MouseMove {
                x: dec_u32(byte_order, r.payload.subrange(0, 4)),
                y: dec_u32(byte_order, r.payload.subrange(4, 8)),
            },
        )
    } else {
        None
    }
}

/// The events a record sequence carries, in record order.
pub open spec fn events_of_records(byte_order: ByteOrder, rs: Seq<CommandRecord>) -> Seq<
    ClientEvent,
>
    decreases rs.len(),
{
    if rs.len() == 0 {
        Seq::empty()
    } else {
        events_of_records(byte_order, rs.drop_last()) + match event_of_record(
            byte_order,
            rs.last(),
        ) {
            Some(e) => seq![e],
            None => Seq::empty(),
        }
    }
}

/// Where record `k`'s payload bytes lie in an arena whose written prefix
/// is the log.
#[verifier::rlimit(50)]
#[verifier::spinoff_prover]
proof fn lemma_touch_payload(
    byte_order: ByteOrder,
    mid: Seq<u8>,
    rs: Seq<CommandRecord>,
    k: int,
    contents: Seq<u8>,
    offset: int,
)
    requires
        0 <= k < rs.len(),
        records_sized(rs),
        0 <= offset <= contents.len(),
        contents.take(offset) == log_bytes(byte_order, mid, rs),
    ensures
        ({
            let breakpoint = crate::protocol::record_start(byte_order, mid, rs, k) + 16;
            let payload = rs[k].payload;
            &&& breakpoint + payload.len() <= offset
            &&& payload.len() >= 1 ==> payload[0] == contents[breakpoint]
            &&& payload.len() == 9 ==> payload.subrange(1, 5) == contents.subrange(
                breakpoint + 1,
                breakpoint + 5,
            )
            &&& payload.len() == 9 ==> payload.subrange(5, 9) == contents.subrange(
                breakpoint + 5,
                breakpoint + 9,
            )
            &&& payload.len() == 8 ==> payload.subrange(0, 4) == contents.subrange(
                breakpoint,
                breakpoint + 4,
            )
            &&& payload.len() == 8 ==> payload.subrange(4, 8) == contents.subrange(
                breakpoint + 4,
                breakpoint + 8,
            )
        }),
{
    let s = contents.take(offset);
    crate::protocol::lemma_record_at(byte_order, mid, rs, k);
    crate::protocol::lemma_log_len(byte_order, mid, rs);
    let breakpoint = crate::protocol::record_start(byte_order, mid, rs, k) + 16;
    let payload = rs[k].payload;
    assert(s.subrange(breakpoint, breakpoint + payload.len() as int) == payload);
    assert(breakpoint + payload.len() <= s.len());
    assert forall|i: int| 0 <= i < payload.len() implies payload[i] == contents[breakpoint
        + i] by {
        assert(payload[i] == s.subrange(breakpoint, breakpoint + payload.len() as int)[i]);
        assert(s[breakpoint + i] == contents[breakpoint + i]);
    }
    if payload.len() == 9 {
        assert(payload.subrange(1, 5) =~= contents.subrange(breakpoint + 1, breakpoint + 5));
        assert(payload.subrange(5, 9) =~= contents.subrange(breakpoint + 5, breakpoint + 9));
    }
    if payload.len() == 8 {
        assert(payload.subrange(0, 4) =~= contents.subrange(breakpoint, breakpoint + 4));
        assert(payload.subrange(4, 8) =~= contents.subrange(breakpoint + 4, breakpoint + 8));
    }
}

/// One more record contributes its event, if any.
pub proof fn lemma_events_take_succ(byte_order: ByteOrder, rs: Seq<CommandRecord>, k: int)
    requires
        0 <= k < rs.len(),
    ensures
        events_of_records(byte_order, rs.take(k + 1)) == events_of_records(byte_order, rs.take(k))
            + match event_of_record(byte_order, rs[k]) {
            Some(e) => seq![e],
            None => Seq::<ClientEvent>::empty(),
        },
{
    assert(rs.take(k + 1).drop_last() =~= rs.take(k));
    assert(rs.take(k + 1).last() == rs[k]);
}

/// Per-module state: the module's id, its two command channels, a scratch
/// arena for text boundaries, the structural events drained for it this
/// tick, and the render clock.
pub struct ModuleState {
    /// The module's unique id.
    pub id: String,
    /// Scratch arena for text boundaries, reset on every flush.
    pub text_boundaries_allocator: RegionAllocator,
    /// The render channel's command log.
    pub gapi_commands: ModuleCommands,
    /// The logic channel's command log.
    pub processor_commands: ModuleCommands,
    /// Structural input events for the module's step to consume.
    pub events: Vec<ClientEvent>,
    /// When the last render tick started.
    pub last_time: std::time::Instant,
    /// Whole microseconds between the two most recent render ticks.
    pub delta_time: u64,
    /// Whether the render clock was started yet.
    pub last_time_initialized: bool,
}

impl ModuleState {
    /// The module id as header bytes.
    pub open spec fn id_bytes(self) -> Seq<u8> {
        vstd::utf8::encode_utf8(self.id@)
    }

    /// Both channels and the scratch arena are well-formed and carry this
    /// module's id, and each channel can hold at least its own header.
    pub open spec fn wf(self) -> bool {
        &&& self.gapi_commands.wf()
        &&& self.processor_commands.wf()
        &&& self.text_boundaries_allocator.wf()
        &&& self.gapi_commands.module_id_bytes() == self.id_bytes()
        &&& self.processor_commands.module_id_bytes() == self.id_bytes()
        &&& 16 + self.id_bytes().len() <= self.gapi_commands.capacity()
        &&& 16 + self.id_bytes().len() <= self.processor_commands.capacity()
    }

    /// No append is in progress on either channel.
    pub open spec fn quiet(self) -> bool {
        &&& !self.gapi_commands.is_appending()
        &&& !self.processor_commands.is_appending()
    }

    /// Everything that stays fixed for the state's lifetime.
    pub open spec fn same_shape(self, other: ModuleState) -> bool {
        &&& self.id@ == other.id@
        &&& self.gapi_commands.same_shape(other.gapi_commands)
        &&& self.processor_commands.same_shape(other.processor_commands)
        &&& self.text_boundaries_allocator.capacity()
            == other.text_boundaries_allocator.capacity()
    }

    /// Nothing changed from `pre` but the log of the named channel.
    pub open spec fn unchanged_except(self, pre: ModuleState, source: Source) -> bool {
        &&& self.id == pre.id
        &&& self.text_boundaries_allocator == pre.text_boundaries_allocator
        &&& self.events == pre.events
        &&& self.last_time == pre.last_time
        &&& self.delta_time == pre.delta_time
        &&& self.last_time_initialized == pre.last_time_initialized
        &&& match source {
            Source::GAPI => self.processor_commands == pre.processor_commands,
            Source::Processor => self.gapi_commands == pre.gapi_commands,
        }
    }

    /// The command log of one channel.
    pub open spec fn commands(self, source: Source) -> ModuleCommands {
        match source {
            Source::GAPI => self.gapi_commands,
            Source::Processor => self.processor_commands,
        }
    }

    /// Create a new module state with empty logs for `module_id`.
    ///
    /// Fails with `OutOfMemory` exactly when the id does not fit a
    /// channel's header.
    pub fn new(module_id: &str) -> (r: Result<ModuleState, VmError>)
        ensures
            r is Ok <==> 16 + module_id.spec_bytes().len() <= COMMANDS_CAPACITY,
            r is Err ==> r == Err::<ModuleState, VmError>(VmError::OutOfMemory),
            r is Ok ==> {
                let st = r->Ok_0;
                &&& st.wf()
                &&& st.quiet()
                &&& st.id@ == module_id@
                &&& st.gapi_commands.records() == Seq::<CommandRecord>::empty()
                &&& st.processor_commands.records() == Seq::<CommandRecord>::empty()
                &&& st.gapi_commands.byte_order() == ByteOrder::LittleEndian
                &&& st.processor_commands.byte_order() == ByteOrder::LittleEndian
                &&& st.gapi_commands.capacity() == COMMANDS_CAPACITY
                &&& st.processor_commands.capacity() == COMMANDS_CAPACITY
                &&& st.gapi_commands.bytes_reader.cursor() == 0
                &&& st.processor_commands.bytes_reader.cursor() == 0
                &&& st.text_boundaries_allocator.capacity() == TEXT_BOUNDARIES_CAPACITY
                &&& st.text_boundaries_allocator.offset() == 0
                &&& st.events@ == Seq::<ClientEvent>::empty()
                &&& st.delta_time == 0
                &&& !st.last_time_initialized
            },
    {
        let gapi_commands = match ModuleCommands::new(module_id, COMMANDS_CAPACITY) {
            Ok(log) => log,
            Err(e) => {
                return Err(e);
            },
        };
        let processor_commands = match ModuleCommands::new(module_id, COMMANDS_CAPACITY) {
            Ok(log) => log,
            Err(e) => {
                return Err(e);
            },
        };
        Ok(
            ModuleState {
                id: module_id.to_owned(),
                text_boundaries_allocator: RegionAllocator::new(TEXT_BOUNDARIES_CAPACITY),
                gapi_commands,
                processor_commands,
                events: Vec::new(),
                last_time: instant_now(),
                delta_time: 0,
                last_time_initialized: false,
            },
        )
    }

    /// Clear one channel: reset its arena and cursors and rewrite the
    /// empty header with this module's id. All commands and their data are
    /// gone; any in-progress append is discarded.
    pub fn clear_commands(&mut self, source: Source) -> (r: Result<(), VmError>)
        requires
            old(self).wf(),
        ensures
            r is Ok,
            final(self).wf(),
            final(self).same_shape(*old(self)),
            final(self).commands(source).records() == Seq::<CommandRecord>::empty(),
            !final(self).commands(source).is_appending(),
            final(self).commands(source).bytes_reader.cursor() == 0,
            match source {
                Source::GAPI => final(self).processor_commands == old(self).processor_commands,
                Source::Processor => final(self).gapi_commands == old(self).gapi_commands,
            },
            final(self).events == old(self).events,
            final(self).text_boundaries_allocator == old(self).text_boundaries_allocator,
            final(self).last_time == old(self).last_time,
            final(self).delta_time == old(self).delta_time,
            final(self).last_time_initialized == old(self).last_time_initialized,
    {
        let clear_result = match source {
            Source::GAPI => self.gapi_commands.clear(self.id.as_str()),
            Source::Processor => self.processor_commands.clear(self.id.as_str()),
        };
        match clear_result {
            Ok(()) => Ok(()),
            Err(_) => {
                proof {
                    assert(false);
                }
                Err(VmError::OutOfMemory)
            },
        }
    }

    /// Reset the text-boundaries scratch arena.
    pub fn clear_text_boundaries(&mut self) -> (r: Result<(), VmError>)
        ensures
            r is Ok,
            final(self).text_boundaries_allocator.offset() == 0,
            final(self).text_boundaries_allocator.capacity() == old(
                self,
            ).text_boundaries_allocator.capacity(),
            final(self).text_boundaries_allocator.wf(),
            final(self).id == old(self).id,
            final(self).gapi_commands == old(self).gapi_commands,
            final(self).processor_commands == old(self).processor_commands,
            final(self).events == old(self).events,
            final(self).last_time == old(self).last_time,
            final(self).delta_time == old(self).delta_time,
            final(self).last_time_initialized == old(self).last_time_initialized,
    {
        self.text_boundaries_allocator.clear()
    }

    /// Open a fresh record iterator over one channel's log, rewinding the
    /// channel's read cursor to the start. The caller walks the records
    /// with [`crate::commands_reader::CommandsReader::next`], handing it
    /// the channel's byte reader and arena.
    pub fn get_commands_new(&mut self, source: Source) -> (r:
        crate::commands_reader::CommandsReader)
        requires
            old(self).wf(),
            !old(self).commands(source).is_appending(),
        ensures
            final(self).wf(),
            final(self).same_shape(*old(self)),
            final(self).commands(source).records() == old(self).commands(source).records(),
            final(self).quiet() == old(self).quiet(),
            final(self).events == old(self).events,
            final(self).text_boundaries_allocator == old(self).text_boundaries_allocator,
            final(self).last_time == old(self).last_time,
            final(self).delta_time == old(self).delta_time,
            final(self).last_time_initialized == old(self).last_time_initialized,
            match source {
                Source::GAPI => final(self).processor_commands == old(self).processor_commands,
                Source::Processor => final(self).gapi_commands == old(self).gapi_commands,
            },
            r.wf(final(self).commands(source).byte_order(), final(self).commands(source).allocator),
            r.count == old(self).commands(source).records().len(),
            r.address@ == old(self).commands(source).module_id_bytes(),
            r.read_commands == 0,
            final(self).commands(source).bytes_reader.cursor() == crate::protocol::header_len(
                old(self).commands(source).module_id_bytes(),
            ),
    {
        let ghost pre = self.commands(source);
        proof {
            crate::protocol::lemma_log_round_trip(
                pre.byte_order(),
                pre.module_id_bytes(),
                pre.records(),
            );
        }
        match source {
            Source::GAPI => {
                self.gapi_commands.bytes_reader.reset();
                crate::commands_reader::CommandsReader::new(
                    &mut self.gapi_commands.bytes_reader,
                    &self.gapi_commands.allocator,
                )
            },
            Source::Processor => {
                self.processor_commands.bytes_reader.reset();
                crate::commands_reader::CommandsReader::new(
                    &mut self.processor_commands.bytes_reader,
                    &self.processor_commands.allocator,
                )
            },
        }
    }

    /// Drain the logic channel into the event buffer: walk every record
    /// and collect the structural touch events it carries, replacing
    /// whatever events were buffered before. Records of other commands,
    /// and touch records of the wrong payload size, carry no event and are
    /// skipped.
    #[verifier::rlimit(100)]
    #[verifier::spinoff_prover]
    pub fn collect_events(&mut self)
        requires
            old(self).wf(),
            !old(self).processor_commands.is_appending(),
        ensures
            final(self).wf(),
            final(self).quiet() == old(self).quiet(),
            final(self).same_shape(*old(self)),
            final(self).events@ == events_of_records(
                old(self).processor_commands.byte_order(),
                old(self).processor_commands.records(),
            ),
            final(self).gapi_commands == old(self).gapi_commands,
            final(self).processor_commands.records() == old(self).processor_commands.records(),
            !final(self).processor_commands.is_appending(),
            final(self).processor_commands.same_shape(old(self).processor_commands),
            final(self).text_boundaries_allocator == old(self).text_boundaries_allocator,
            final(self).delta_time == old(self).delta_time,
            final(self).last_time_initialized == old(self).last_time_initialized,
    {
        let ghost bo = self.processor_commands.byte_order();
        let ghost rs = self.processor_commands.records();
        let ghost mid = self.processor_commands.module_id_bytes();
        let ghost s = self.processor_commands.allocator.written();
        proof {
            crate::protocol::lemma_log_round_trip(bo, mid, rs);
            assert(crate::protocol::parsed_records(bo, s) == rs);
            assert(crate::protocol::parsed_module_id(bo, s) == mid);
        }
        self.events.clear();
        self.processor_commands.bytes_reader.reset();
        let mut commands_reader = crate::commands_reader::CommandsReader::new(
            &mut self.processor_commands.bytes_reader,
            &self.processor_commands.allocator,
        );
        loop
            invariant
                self.processor_commands.allocator == old(self).processor_commands.allocator,
                self.processor_commands.bytes_writer == old(self).processor_commands.bytes_writer,
                self.processor_commands.appending == old(self).processor_commands.appending,
                self.processor_commands.records == old(self).processor_commands.records,
                self.processor_commands.module_id == old(self).processor_commands.module_id,
                self.gapi_commands == old(self).gapi_commands,
                self.text_boundaries_allocator == old(self).text_boundaries_allocator,
                self.id == old(self).id,
                self.delta_time == old(self).delta_time,
                self.last_time_initialized == old(self).last_time_initialized,
                bo == self.processor_commands.byte_order(),
                rs == self.processor_commands.records(),
                s == self.processor_commands.allocator.written(),
                self.processor_commands.bytes_reader.byte_order() == bo,
                commands_reader.wf(bo, self.processor_commands.allocator),
                commands_reader.count == rs.len(),
                commands_reader.read_commands <= rs.len(),
                mid == self.processor_commands.module_id_bytes(),
                s == log_bytes(bo, mid, rs),
                records_sized(rs),
                rs.len() <= u64::MAX,
                mid.len() <= u64::MAX,
                s.len() == self.processor_commands.allocator.offset(),
                crate::protocol::parsed_records(bo, s) == rs,
                crate::protocol::parsed_module_id(bo, s) == mid,
                self.processor_commands.bytes_reader.cursor()
                    <= commands_reader.command_breakpoint + commands_reader.command_len,
                self.events@ == events_of_records(
                    bo,
                    rs.take(commands_reader.read_commands as int),
                ),
            ensures
                self.events@ == events_of_records(bo, rs),
            decreases rs.len() - commands_reader.read_commands,
        {
            let ghost k = commands_reader.read_commands as int;
            let next_result = commands_reader.next(
                &mut self.processor_commands.bytes_reader,
                &self.processor_commands.allocator,
            );
            let command = match next_result {
                Ok(Some(command)) => command,
                Ok(None) => {
                    proof {
                        assert(rs.take(k) =~= rs);
                    }
                    break;
                },
                Err(_) => {
                    proof {
                        assert(false);
                    }
                    break;
                },
            };
            let len = commands_reader.current_command_len();
            let ghost breakpoint = commands_reader.command_breakpoint as int;
            proof {
                lemma_events_take_succ(bo, rs, k);
                lemma_touch_payload(
                    bo,
                    mid,
                    rs,
                    k,
                    self.processor_commands.allocator.contents(),
                    self.processor_commands.allocator.offset() as int,
                );
            }
            if command.id == COMMAND_TOUCH_START && len == 9 {
                let button = MouseButton::read_from_buffers(
                    &mut self.processor_commands.bytes_reader,
                    &self.processor_commands.allocator,
                );
                let x = self.processor_commands.bytes_reader.read_u32(
                    &self.processor_commands.allocator,
                );
                let y = self.processor_commands.bytes_reader.read_u32(
                    &self.processor_commands.allocator,
                );
                self.events.push(ClientEvent::MouseDown { button, x, y });
            } else if command.id == COMMAND_TOUCH_END && len == 9 {
                let button = MouseButton::read_from_buffers(
                    &mut self.processor_commands.bytes_reader,
                    &self.processor_commands.allocator,
                );
                let x = self.processor_commands.bytes_reader.read_u32(
                    &self.processor_commands.allocator,
                );
                let y = self.processor_commands.bytes_reader.read_u32(
                    &self.processor_commands.allocator,
                );
                self.events.push(ClientEvent::MouseUp { button, x, y });
            } else if command.id == COMMAND_TOUCH_MOVE && len == 8 {
                let x = self.processor_commands.bytes_reader.read_u32(
                    &self.processor_commands.allocator,
                );
                let y = self.processor_commands.bytes_reader.read_u32(
                    &self.processor_commands.allocator,
                );
                self.events.push(ClientEvent::MouseMove { x, y });
            } else {
                proof {
                    assert(event_of_record(bo, rs[k]) is None);
                }
            }
        }
    }
}

/// Module interface: what the virtual machine calls on a registered
/// module. Every call must leave the module's state well-formed, with no
/// append left open, and must not change the state's id or capacities;
/// the render clock is the tick loop's, so a module leaves its
/// initialization flag as it found it.
pub trait Module: Sized {
    /// The module's id, as a spec-level value; `Module::id` returns it.
    spec fn spec_id(&self) -> Seq<char>;

    /// Unique module id.
    fn id(&self) -> (r: &'static str)
        ensures
            r@ == self.spec_id(),
    ;

    /// Initialize the module, e.g. set up its resources.
    fn init(&mut self, state: &mut ModuleState)
        requires
            old(state).wf(),
            old(state).quiet(),
        ensures
            final(state).wf(),
            final(state).quiet(),
            final(state).same_shape(*old(state)),
            final(state).last_time_initialized == old(state).last_time_initialized,
    ;

    /// Shut the module down and free its resources.
    fn shutdown(&mut self, state: &mut ModuleState)
        requires
            old(state).wf(),
            old(state).quiet(),
        ensures
            final(state).wf(),
            final(state).quiet(),
            final(state).same_shape(*old(state)),
            final(state).last_time_initialized == old(state).last_time_initialized,
    ;

    /// Progress the module's logic by one tick; says whether a render
    /// pass is needed.
    fn step(&mut self, state: &mut ModuleState) -> (r: StepState)
        requires
            old(state).wf(),
            old(state).quiet(),
        ensures
            final(state).wf(),
            final(state).quiet(),
            final(state).same_shape(*old(state)),
            final(state).last_time_initialized == old(state).last_time_initialized,
    ;

    /// Produce render commands for the current frame.
    fn render(&mut self, state: &mut ModuleState)
        requires
            old(state).wf(),
            old(state).quiet(),
        ensures
            final(state).wf(),
            final(state).quiet(),
            final(state).same_shape(*old(state)),
            final(state).last_time_initialized == old(state).last_time_initialized,
    ;
}

/// The built-in client endpoint module.
pub struct ClientModule {}

impl ClientModule {
    /// Create a new client module.
    pub fn new() -> (r: ClientModule)
        ensures
            r.spec_id() == CLIENT_ID@,
    {
        ClientModule {  }
    }
}

impl Default for ClientModule {
    /// A fresh client module.
    fn default() -> (r: Self)
        ensures
            r.spec_id() == CLIENT_ID@,
    {
        ClientModule::new()
    }
}

impl Module for ClientModule {
    open spec fn spec_id(&self) -> Seq<char> {
        CLIENT_ID@
    }

    fn id(&self) -> (r: &'static str) {
        CLIENT_ID
    }

    fn init(&mut self, state: &mut ModuleState) {
        let _ = state;
    }

    fn shutdown(&mut self, state: &mut ModuleState) {
        let _ = state;
    }

    fn step(&mut self, state: &mut ModuleState) -> StepState {
        let _ = state;
        StepState::Idle
    }

    fn render(&mut self, state: &mut ModuleState) {
        let _ = state;
    }
}

} // verus!
