//! Commands bus: the producer-facing append API.
//!
//! The bus resolves a module address and a channel to that module's
//! command log and performs the append protocol on it: either a whole
//! command at once with `push_command`, or split across calls with
//! `begin_command`, payload writes, and `end_command` — the variant for
//! producers that cannot hand the payload over in one piece. Every begun
//! command must be ended with exactly one `end_command` on the same module
//! and channel before anything else touches that log.

use crate::commands::Source;
use crate::module::Module;
use crate::protocol::CommandRecord;
use crate::state::VMState;
use crate::VmError;
use vstd::prelude::*;
use vstd::std_specs::vec::vec_index_mut;
use vstd::string::StringSliceAdditionalSpecFns;

verus! {

/// Commands bus. Used to communicate between modules.
pub struct CommandsBus {}

impl Default for CommandsBus {
    /// A fresh bus.
    fn default() -> (r: Self) {
        CommandsBus::new()
    }
}

/// The registry is unchanged but for the addressed module's state, which
/// changed only in the addressed channel's log.
pub open spec fn only_log_changed<M: Module>(
    pre: VMState<M>,
    post: VMState<M>,
    address_bytes: Seq<u8>,
    source: Source,
) -> bool {
    let fi = pre.first_module_index(address_bytes);
    &&& post.wf()
    &&& post.modules == pre.modules
    &&& post.module_states@.len() == pre.module_states@.len()
    &&& forall|j: int|
        0 <= j < pre.module_states@.len() && j != fi ==> post.module_states@[j]
            == pre.module_states@[j]
    &&& post.module_at(fi).unchanged_except(pre.module_at(fi), source)
    &&& post.module_at(fi).commands(source).same_shape(pre.module_at(fi).commands(source))
}

impl CommandsBus {
    /// Create a new `CommandsBus`.
    pub fn new() -> (r: CommandsBus) {
        CommandsBus {}
    }

    /// Append one whole command — id, length field, payload, patched
    /// length — to the addressed module's log for `source`.
    ///
    /// Fails with `OutOfMemory` exactly when the record does not fit the
    /// remaining capacity of that log, leaving everything unchanged.
    pub fn push_command<M: Module>(
        &self,
        state: &mut VMState<M>,
        address: &str,
        id: u64,
        source: Source,
        payload: &[u8],
    ) -> (r: Result<(), VmError>)
        requires
            old(state).wf(),
            old(state).has_module(address.spec_bytes()),
            !old(state).module_at(old(state).first_module_index(address.spec_bytes())).commands(
                source,
            ).is_appending(),
        ensures
            only_log_changed(*old(state), *final(state), address.spec_bytes(), source),
            ({
                let fi = old(state).first_module_index(address.spec_bytes());
                let pre = old(state).module_at(fi).commands(source);
                let post = final(state).module_at(fi).commands(source);
                &&& (r is Ok <==> pre.used_bytes() + 16 + payload@.len() <= pre.capacity())
                &&& (r is Err ==> post == pre && r == Err::<(), VmError>(VmError::OutOfMemory))
                &&& (r is Ok ==> post.records() == pre.records().push(
                    CommandRecord { id, payload: payload@ },
                ) && !post.is_appending() && post.bytes_reader == pre.bytes_reader)
            }),
    {
        let i = self.resolve(state, address);
        let module_state = vec_index_mut(&mut state.module_states, i);
        let r = match source {
            Source::GAPI => module_state.gapi_commands.push_command(id, payload),
            Source::Processor => module_state.processor_commands.push_command(id, payload),
        };
        proof {
            lemma_registry_restored(*old(state), *state, i as int, address.spec_bytes());
        }
        r
    }

    /// Start appending a command to the addressed module's log: increment
    /// the count, write the id, reserve the length field. Returns the
    /// offset where the payload starts.
    ///
    /// Fails with `OutOfMemory` exactly when the two 8-byte fields do not
    /// fit, leaving everything unchanged. Every begun command must be
    /// ended with exactly one [`CommandsBus::end_command`].
    pub fn begin_command<M: Module>(
        &self,
        state: &mut VMState<M>,
        address: &str,
        source: Source,
        id: u64,
    ) -> (r: Result<u64, VmError>)
        requires
            old(state).wf(),
            old(state).has_module(address.spec_bytes()),
            !old(state).module_at(old(state).first_module_index(address.spec_bytes())).commands(
                source,
            ).is_appending(),
        ensures
            only_log_changed(*old(state), *final(state), address.spec_bytes(), source),
            ({
                let fi = old(state).first_module_index(address.spec_bytes());
                let pre = old(state).module_at(fi).commands(source);
                let post = final(state).module_at(fi).commands(source);
                &&& (r is Ok <==> pre.used_bytes() + 16 <= pre.capacity())
                &&& (r is Err ==> post == pre && r == Err::<u64, VmError>(VmError::OutOfMemory))
                &&& (r is Ok ==> post.is_appending() && post.pending().id == id
                    && post.pending().start_offset == r->Ok_0 && post.pending_payload() == Seq::<
                    u8,
                >::empty() && post.records() == pre.records() && post.bytes_reader
                    == pre.bytes_reader)
            }),
    {
        let i = self.resolve(state, address);
        let module_state = vec_index_mut(&mut state.module_states, i);
        let r = match source {
            Source::GAPI => module_state.gapi_commands.begin_command(id),
            Source::Processor => module_state.processor_commands.begin_command(id),
        };
        proof {
            lemma_registry_restored(*old(state), *state, i as int, address.spec_bytes());
        }
        r
    }

    /// Append raw bytes to the payload of the in-progress command on the
    /// addressed module's log.
    ///
    /// Fails with `OutOfMemory` exactly when the bytes do not fit, leaving
    /// everything unchanged; the append stays open either way.
    pub fn write_payload_bytes<M: Module>(
        &self,
        state: &mut VMState<M>,
        address: &str,
        source: Source,
        data: &[u8],
    ) -> (r: Result<(), VmError>)
        requires
            old(state).wf(),
            old(state).has_module(address.spec_bytes()),
            old(state).module_at(old(state).first_module_index(address.spec_bytes())).commands(
                source,
            ).is_appending(),
        ensures
            only_log_changed(*old(state), *final(state), address.spec_bytes(), source),
            ({
                let fi = old(state).first_module_index(address.spec_bytes());
                let pre = old(state).module_at(fi).commands(source);
                let post = final(state).module_at(fi).commands(source);
                &&& (r is Ok <==> pre.used_bytes() + data@.len() <= pre.capacity())
                &&& (r is Err ==> post == pre && r == Err::<(), VmError>(VmError::OutOfMemory))
                &&& (r is Ok ==> post.is_appending() && post.pending() == pre.pending()
                    && post.pending_payload() == pre.pending_payload() + data@ && post.records()
                    == pre.records() && post.bytes_reader == pre.bytes_reader)
            }),
    {
        let i = self.resolve(state, address);
        let module_state = vec_index_mut(&mut state.module_states, i);
        let r = match source {
            Source::GAPI => module_state.gapi_commands.write_payload_bytes(data),
            Source::Processor => module_state.processor_commands.write_payload_bytes(data),
        };
        proof {
            lemma_registry_restored(*old(state), *state, i as int, address.spec_bytes());
        }
        r
    }

    /// Finish the in-progress command on the addressed module's log:
    /// patch the payload length written since `begin_command` into the
    /// reserved field.
    pub fn end_command<M: Module>(&self, state: &mut VMState<M>, address: &str, source: Source)
        requires
            old(state).wf(),
            old(state).has_module(address.spec_bytes()),
            old(state).module_at(old(state).first_module_index(address.spec_bytes())).commands(
                source,
            ).is_appending(),
        ensures
            only_log_changed(*old(state), *final(state), address.spec_bytes(), source),
            ({
                let fi = old(state).first_module_index(address.spec_bytes());
                let pre = old(state).module_at(fi).commands(source);
                let post = final(state).module_at(fi).commands(source);
                &&& !post.is_appending()
                &&& post.records() == pre.records().push(
                    CommandRecord { id: pre.pending().id, payload: pre.pending_payload() },
                )
                &&& post.bytes_reader == pre.bytes_reader
            }),
    {
        let i = self.resolve(state, address);
        let module_state = vec_index_mut(&mut state.module_states, i);
        match source {
            Source::GAPI => module_state.gapi_commands.end_command(),
            Source::Processor => module_state.processor_commands.end_command(),
        }
        proof {
            lemma_registry_restored(*old(state), *state, i as int, address.spec_bytes());
        }
    }

    /// The index the address resolves to.
    fn resolve<M: Module>(&self, state: &VMState<M>, address: &str) -> (r: usize)
        requires
            state.wf(),
            state.has_module(address.spec_bytes()),
        ensures
            r as int == state.first_module_index(address.spec_bytes()),
            0 <= r < state.module_states@.len(),
    {
        let found = state.find_module(address);
        match found {
            Some(i) => {
                proof {
                    state.lemma_first_module_unique(
                        i as int,
                        state.first_module_index(address.spec_bytes()),
                        address.spec_bytes(),
                    );
                }
                i
            },
            None => {
                proof {
                    assert(false);
                }
                0
            },
        }
    }
}

/// After one module's state changed only in one channel's log, with that
/// log's shape kept, the registry is still well-formed and the change is
/// summed up by [`only_log_changed`].
proof fn lemma_registry_restored<M: Module>(
    pre: VMState<M>,
    post: VMState<M>,
    i: int,
    address_bytes: Seq<u8>,
)
    requires
        pre.wf(),
        pre.is_first_module(i, address_bytes),
        post.modules == pre.modules,
        post.module_states@ == pre.module_states@.update(
            i,
            post.module_states@[i],
        ),
        post.module_at(i).unchanged_except(pre.module_at(i), Source::GAPI) || post.module_at(
            i,
        ).unchanged_except(pre.module_at(i), Source::Processor),
        post.module_at(i).gapi_commands.same_shape(pre.module_at(i).gapi_commands),
        post.module_at(i).processor_commands.same_shape(pre.module_at(i).processor_commands),
        post.module_at(i).gapi_commands.wf(),
        post.module_at(i).processor_commands.wf(),
    ensures
        post.wf(),
        post.module_states@.len() == pre.module_states@.len(),
        forall|j: int|
            0 <= j < pre.module_states@.len() && j != i ==> post.module_states@[j]
                == pre.module_states@[j],
        pre.first_module_index(address_bytes) == i,
        post.module_at(i).wf(),
{
    pre.lemma_first_module_unique(i, pre.first_module_index(address_bytes), address_bytes);
    assert(post.module_at(i).wf());
    assert forall|j: int| 0 <= j < post.module_states@.len() implies (#[trigger] post.module_states@[j]).wf() by {
        if j != i {
            assert(post.module_states@[j] == pre.module_states@[j]);
        }
    }
}

} // verus!
