//! Forward-only record iterator over a command log, enforcing the
//! payload-boundary invariant.
//!
//! A consumer may read any prefix of the current record's payload through
//! the log's byte reader; unread payload bytes are skipped automatically
//! by the next call. Reading past the declared payload length is a fatal
//! protocol violation: it would desynchronize every later record boundary,
//! so [`CommandsReader::next`] reports it instead of yielding anything,
//! and the log can only be trusted again after it is cleared.

use crate::allocator::RegionAllocator;
use crate::buffers::{enc_u64, lemma_u64_round_trip, ByteOrder, BytesReader};
use crate::protocol::{
    header_len, lemma_parse_log_complete, lemma_record_at, lemma_record_start_bounds, parse_log,
    parsed_module_id, parsed_records, record_start,
};
use crate::VmError;
use vstd::prelude::*;

verus! {

/// One yielded record: its command id. The payload follows at the log
/// reader's cursor, `CommandsReader::current_command_len` bytes of it.
#[derive(Clone, Copy, Debug, PartialEq, Eq, Structural)]
pub struct Command {
    /// The command id read ahead of the payload.
    pub id: u64,
}

/// Sequential consumer over a parsed command log.
pub struct CommandsReader {
    /// Number of records the log's header declares.
    pub count: u64,
    /// The module id bytes read from the log's header.
    pub address: Vec<u8>,
    /// Where the current record's payload starts.
    pub command_breakpoint: u64,
    /// The current record's declared payload length.
    pub command_len: u64,
    /// How many records were yielded so far.
    pub read_commands: u64,
}

impl CommandsReader {
    /// Valid against the written region of `a` as decoded in `byte_order`:
    /// the log parses, the header was read correctly, and the breakpoint
    /// and payload length describe the last yielded record.
    pub open spec fn wf(self, byte_order: ByteOrder, a: RegionAllocator) -> bool {
        let s = a.written();
        let module_id = parsed_module_id(byte_order, s);
        let rs = parsed_records(byte_order, s);
        &&& a.wf()
        &&& parse_log(byte_order, s) is Some
        &&& self.count == rs.len()
        &&& self.address@ == module_id
        &&& self.read_commands <= self.count
        &&& self.command_breakpoint + self.command_len == record_start(
            byte_order,
            module_id,
            rs,
            self.read_commands as int,
        )
        &&& self.command_len == if self.read_commands == 0 {
            0
        } else {
            rs[self.read_commands - 1].payload.len()
        }
    }

    /// Read the header off a reader positioned at offset 0 of a log:
    /// the record count and the owning module's id.
    pub fn new(bytes_reader: &mut BytesReader, a: &RegionAllocator) -> (r: CommandsReader)
        requires
            a.wf(),
            old(bytes_reader).cursor() == 0,
            parse_log(old(bytes_reader).byte_order(), a.written()) is Some,
        ensures
            final(bytes_reader).byte_order() == old(bytes_reader).byte_order(),
            final(bytes_reader).cursor() == header_len(
                parsed_module_id(old(bytes_reader).byte_order(), a.written()),
            ),
            r.wf(old(bytes_reader).byte_order(), *a),
            r.count == parsed_records(old(bytes_reader).byte_order(), a.written()).len(),
            r.address@ == parsed_module_id(old(bytes_reader).byte_order(), a.written()),
            r.read_commands == 0,
            r.command_len == 0,
    {
        let ghost bo = bytes_reader.byte_order();
        let ghost s = a.written();
        let ghost module_id = parsed_module_id(bo, s);
        let ghost rs = parsed_records(bo, s);
        proof {
            lemma_parse_log_complete(bo, s);
            lemma_u64_round_trip(bo, rs.len() as u64);
            lemma_u64_round_trip(bo, module_id.len() as u64);
            assert(s.len() == a.offset());
            assert(s.subrange(0, 8) =~= enc_u64(bo, rs.len() as u64));
            assert(a.contents().subrange(0, 8) =~= s.subrange(0, 8));
            assert(a.contents().subrange(8, 16) =~= s.subrange(8, 16));
            assert(s.subrange(8, 16) =~= enc_u64(bo, module_id.len() as u64));
        }
        let count = bytes_reader.read_u64(a);
        proof {
            assert(count == rs.len() as u64);
            assert(a.contents().subrange(16, 16 + module_id.len() as int) =~= s.subrange(
                16,
                16 + module_id.len() as int,
            ));
            assert(s.subrange(16, 16 + module_id.len() as int) =~= module_id);
        }
        let address = bytes_reader.read_string(a);
        let command_breakpoint = bytes_reader.current_offset();
        let r = CommandsReader {
            count,
            address,
            command_breakpoint,
            command_len: 0,
            read_commands: 0,
        };
        proof {
            assert(rs.take(0) =~= Seq::<crate::protocol::CommandRecord>::empty());
            assert(record_start(bo, module_id, rs, 0) == header_len(module_id));
        }
        r
    }

    /// Number of records the log's header declares.
    pub fn len(&self) -> (r: usize)
        requires
            self.count <= usize::MAX,
        ensures
            r == self.count,
    {
        self.count as usize
    }

    /// The current record's declared payload length: how many bytes a
    /// consumer may read from the log reader before calling
    /// [`CommandsReader::next`] again.
    pub fn current_command_len(&self) -> (r: u64)
        ensures
            r == self.command_len,
    {
        self.command_len
    }

    /// Yield the next record, skipping whatever the consumer left unread
    /// of the previous payload.
    ///
    /// Fails with `ProtocolViolation` exactly when the consumer read past
    /// the previous record's declared payload boundary, leaving reader and
    /// iterator untouched; returns nothing once all declared records were
    /// yielded.
    #[verifier::rlimit(100)]
    #[verifier::spinoff_prover]
    pub fn next(&mut self, bytes_reader: &mut BytesReader, a: &RegionAllocator) -> (r: Result<
        Option<Command>,
        VmError,
    >)
        requires
            a.wf(),
            old(self).wf(old(bytes_reader).byte_order(), *a),
        ensures
            final(bytes_reader).byte_order() == old(bytes_reader).byte_order(),
            r is Err <==> old(bytes_reader).cursor() > old(self).command_breakpoint + old(
                self,
            ).command_len,
            r is Err ==> *final(self) == *old(self) && *final(bytes_reader) == *old(bytes_reader)
                && r == Err::<Option<Command>, VmError>(VmError::ProtocolViolation),
            r == Ok::<Option<Command>, VmError>(Option::<Command>::None) <==> (old(
                bytes_reader,
            ).cursor() <= old(self).command_breakpoint + old(self).command_len && old(
                self,
            ).read_commands == old(self).count),
            r == Ok::<Option<Command>, VmError>(Option::<Command>::None) ==> *final(self) == *old(
                self,
            ) && *final(bytes_reader) == *old(bytes_reader),
            (r matches Ok(Some(_))) <==> (old(bytes_reader).cursor() <= old(
                self,
            ).command_breakpoint + old(self).command_len && old(self).read_commands < old(
                self,
            ).count),
            r matches Ok(Some(cmd)) ==> {
                let byte_order = old(bytes_reader).byte_order();
                let s = a.written();
                let module_id = parsed_module_id(byte_order, s);
                let rs = parsed_records(byte_order, s);
                let k = old(self).read_commands as int;
                &&& cmd.id == rs[k].id
                &&& final(self).count == old(self).count
                &&& final(self).address == old(self).address
                &&& final(self).read_commands == old(self).read_commands + 1
                &&& final(self).command_len == rs[k].payload.len()
                &&& final(self).command_breakpoint == record_start(byte_order, module_id, rs, k)
                    + 16
                &&& final(bytes_reader).cursor() == record_start(byte_order, module_id, rs, k) + 16
                &&& final(self).wf(byte_order, *a)
                &&& s.subrange(
                    final(self).command_breakpoint as int,
                    final(self).command_breakpoint + final(self).command_len,
                ) == rs[k].payload
            },
    {
        let ghost bo = bytes_reader.byte_order();
        let ghost s = a.written();
        let ghost module_id = parsed_module_id(bo, s);
        let ghost rs = parsed_records(bo, s);
        proof {
            lemma_parse_log_complete(bo, s);
            lemma_record_start_bounds(bo, module_id, rs, self.read_commands as int);
            assert(s.len() == a.offset());
        }
        let current = bytes_reader.current_offset();
        let boundary = self.command_breakpoint + self.command_len;
        if current > boundary {
            return Err(VmError::ProtocolViolation);
        }
        if self.read_commands == self.count {
            return Ok(None);
        }
        let ghost k = self.read_commands as int;
        proof {
            lemma_record_at(bo, module_id, rs, k);
            lemma_u64_round_trip(bo, rs[k].id);
            lemma_u64_round_trip(bo, rs[k].payload.len() as u64);
        }
        let skip_bytes = boundary - current;
        bytes_reader.skip(skip_bytes);
        proof {
            let start = record_start(bo, module_id, rs, k);
            assert(a.contents().subrange(start, start + 8) =~= s.subrange(start, start + 8));
            assert(a.contents().subrange(start + 8, start + 16) =~= s.subrange(
                start + 8,
                start + 16,
            ));
        }
        let command_id = bytes_reader.read_u64(a);
        let len = bytes_reader.read_u64(a);
        proof {
            assert(command_id == rs[k].id);
            assert(len == rs[k].payload.len() as u64);
        }
        self.command_len = len;
        self.command_breakpoint = bytes_reader.current_offset();
        self.read_commands = self.read_commands + 1;
        Ok(Some(Command { id: command_id }))
    }
}

} // verus!
