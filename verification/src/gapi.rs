//! Graphical API: the abstracted interface for sending render commands.
//!
//! Each helper frames one render command into the addressed module's
//! render channel through the commands bus. Helpers whose payloads are
//! built from floating-point geometry live with the embedding around the
//! library; here stands what the exchange layer itself can state exactly.

use crate::buffers::{enc_u64, encode_u64, ByteOrder};
use crate::commands::{Source, SET_TEXTURE_PIPELINE};
use crate::commands_bus::{only_log_changed, CommandsBus};
use crate::module::Module;
use crate::protocol::CommandRecord;
use crate::state::VMState;
use crate::VmError;
use vstd::prelude::*;
use vstd::string::StringSliceAdditionalSpecFns;

verus! {

/// Graphical API context: where render commands are sent, and from whom.
pub struct GApiContext<'a> {
    /// The address the render commands are sent to.
    pub address: &'a str,
    /// The sender's address.
    pub from: &'a str,
    /// Commands bus used to send commands.
    pub commands_bus: CommandsBus,
}

/// Set the current pipeline to texture — a shader that applies the texture
/// with asset id `id` to objects. Frames one `SET_TEXTURE_PIPELINE` record
/// whose payload is the asset id as a little-endian u64.
///
/// Fails with `OutOfMemory` exactly when the record does not fit the
/// render channel's remaining capacity, leaving everything unchanged.
pub fn set_texture_pipeline<'a, M: Module>(
    context: &GApiContext<'a>,
    state: &mut VMState<M>,
    id: u64,
) -> (r: Result<(), VmError>)
    requires
        old(state).wf(),
        old(state).has_module(context.address.spec_bytes()),
        !old(state).module_at(
            old(state).first_module_index(context.address.spec_bytes()),
        ).commands(Source::GAPI).is_appending(),
    ensures
        only_log_changed(*old(state), *final(state), context.address.spec_bytes(), Source::GAPI),
        ({
            let fi = old(state).first_module_index(context.address.spec_bytes());
            let pre = old(state).module_at(fi).commands(Source::GAPI);
            let post = final(state).module_at(fi).commands(Source::GAPI);
            &&& (r is Ok <==> pre.used_bytes() + 24 <= pre.capacity())
            &&& (r is Err ==> post == pre && r == Err::<(), VmError>(VmError::OutOfMemory))
            &&& (r is Ok ==> post.records() == pre.records().push(
                CommandRecord {
                    id: SET_TEXTURE_PIPELINE,
                    payload: enc_u64(ByteOrder::LittleEndian, id),
                },
            ) && !post.is_appending())
        }),
{
    proof {
        crate::buffers::lemma_u64_round_trip(ByteOrder::LittleEndian, id);
    }
    let payload = encode_u64(ByteOrder::LittleEndian, id);
    context.commands_bus.push_command(
        state,
        context.address,
        SET_TEXTURE_PIPELINE,
        Source::GAPI,
        payload.as_slice(),
    )
}

} // verus!
