//! Virtual machine state: the module registry and the tick cycle.

use crate::commands::Source;
use crate::data::MutBytesBuffer;
use crate::module::{
    client_id_bytes, events_of_records, ClientEvent, Module, ModuleState, CLIENT_ID,
    COMMANDS_CAPACITY,
};
use crate::protocol::CommandRecord;
use crate::VmError;
use vstd::prelude::*;
use vstd::std_specs::vec::vec_index_mut;
use vstd::string::StringSliceAdditionalSpecFns;

verus! {

/// Two byte slices are equal exactly when their contents are.
fn bytes_eq(a: &[u8], b: &[u8]) -> (r: bool)
    ensures
        r == (a@ == b@),
{
    if a.len() != b.len() {
        proof {
            assert(a@.len() != b@.len());
        }
        return false;
    }
    let n = a.len();
    let mut i: usize = 0;
    while i < n
        invariant
            0 <= i <= n,
            n == a@.len(),
            n == b@.len(),
            forall|k: int| 0 <= k < i ==> a@[k] == b@[k],
        decreases n - i,
    {
        if a[i] != b[i] {
            return false;
        }
        i = i + 1;
    }
    proof {
        assert(a@ =~= b@);
    }
    true
}

/// Two strings are equal exactly when their bytes are.
fn str_eq(a: &str, b: &str) -> (r: bool)
    ensures
        r == (a.spec_bytes() == b.spec_bytes()),
{
    bytes_eq(a.as_bytes(), b.as_bytes())
}

/// Copy of an event buffer.
fn copy_events(src: &Vec<ClientEvent>) -> (r: Vec<ClientEvent>)
    ensures
        r@ == src@,
{
    let n = src.len();
    let mut r: Vec<ClientEvent> = Vec::new();
    let mut i: usize = 0;
    while i < n
        invariant
            0 <= i <= n,
            n == src@.len(),
            r@.len() == i,
            forall|k: int| 0 <= k < i ==> r@[k] == src@[k],
        decreases n - i,
    {
        r.push(src[i]);
        i = i + 1;
    }
    proof {
        assert(r@ =~= src@);
    }
    r
}

/// Registry of modules and their states, and the tick cycle over them.
///
/// Module `i` of `modules` owns `module_states[i]`; the pairing is by
/// registration order.
pub struct VMState<M: Module> {
    /// Connected modules, in registration order.
    pub modules: Vec<M>,
    /// Each module's state, in registration order.
    pub module_states: Vec<ModuleState>,
}

impl<M: Module> VMState<M> {
    /// Modules and states pair up and every state is well-formed.
    pub open spec fn wf(self) -> bool {
        &&& self.modules@.len() == self.module_states@.len()
        &&& forall|i: int|
            0 <= i < self.module_states@.len() ==> (#[trigger] self.module_states@[i]).wf()
    }

    /// No append is in progress on any channel of any module.
    pub open spec fn quiet(self) -> bool {
        forall|i: int|
            0 <= i < self.module_states@.len() ==> (#[trigger] self.module_states@[i]).quiet()
    }

    /// The state registered at index `i`.
    pub open spec fn module_at(self, i: int) -> ModuleState {
        self.module_states@[i]
    }

    /// Some registered module has this id.
    pub open spec fn has_module(self, id_bytes: Seq<u8>) -> bool {
        exists|i: int| self.is_first_module(i, id_bytes)
    }

    /// `i` is the first registered module with this id (the one every
    /// address lookup resolves to).
    pub open spec fn is_first_module(self, i: int, id_bytes: Seq<u8>) -> bool {
        &&& 0 <= i < self.module_states@.len()
        &&& self.module_at(i).id_bytes() == id_bytes
        &&& forall|j: int| 0 <= j < i ==> (#[trigger] self.module_at(j)).id_bytes() != id_bytes
    }

    /// The index every lookup of this id resolves to.
    pub open spec fn first_module_index(self, id_bytes: Seq<u8>) -> int {
        choose|i: int| self.is_first_module(i, id_bytes)
    }

    /// At most one index is the first with a given id.
    pub proof fn lemma_first_module_unique(self, i: int, j: int, id_bytes: Seq<u8>)
        requires
            self.is_first_module(i, id_bytes),
            self.is_first_module(j, id_bytes),
        ensures
            i == j,
    {
    }

    /// Create a new state with no modules.
    pub fn new() -> (r: Self)
        ensures
            r.wf(),
            r.quiet(),
            r.modules@.len() == 0,
            r.module_states@.len() == 0,
    {
        VMState { modules: Vec::new(), module_states: Vec::new() }
    }

    /// The first registered module with the given address, if any.
    pub(crate) fn find_module(&self, address: &str) -> (r: Option<usize>)
        ensures
            match r {
                Some(i) => self.is_first_module(i as int, address.spec_bytes()),
                None => !self.has_module(address.spec_bytes()),
            },
    {
        let n = self.module_states.len();
        let mut i: usize = 0;
        while i < n
            invariant
                0 <= i <= n,
                n == self.module_states@.len(),
                forall|j: int|
                    0 <= j < i ==> (#[trigger] self.module_states@[j]).id_bytes()
                        != address.spec_bytes(),
            decreases n - i,
        {
            if str_eq(self.module_states[i].id.as_str(), address) {
                return Some(i);
            }
            i = i + 1;
        }
        proof {
            assert forall|k: int| !self.is_first_module(k, address.spec_bytes()) by {}
        }
        None
    }

    /// Register a module: create its state, let it initialize, and append
    /// both to the registry.
    ///
    /// Fails with `OutOfMemory` exactly when the module's id does not fit
    /// a channel header, leaving the registry unchanged.
    pub fn register_module(&mut self, module: M) -> (r: Result<(), VmError>)
        requires
            old(self).wf(),
        ensures
            r is Ok <==> 16 + vstd::utf8::encode_utf8(module.spec_id()).len()
                <= COMMANDS_CAPACITY,
            r is Err ==> *final(self) == *old(self) && r == Err::<(), VmError>(
                VmError::OutOfMemory,
            ),
            r is Ok ==> {
                &&& final(self).wf()
                &&& final(self).modules@.len() == old(self).modules@.len() + 1
                &&& final(self).module_states@.len() == old(self).module_states@.len() + 1
                &&& forall|i: int|
                    0 <= i < old(self).module_states@.len() ==> final(self).module_states@[i]
                        == old(self).module_states@[i]
                &&& final(self).module_states@.last().id@ == module.spec_id()
                &&& final(self).module_states@.last().quiet()
                &&& (old(self).quiet() ==> final(self).quiet())
            },
    {
        let mut module = module;
        let id = module.id();
        let state_result = ModuleState::new(id);
        match state_result {
            Err(e) => Err(e),
            Ok(mut state) => {
                module.init(&mut state);
                self.module_states.push(state);
                self.modules.push(module);
                proof {
                    let n = old(self).module_states@.len() as int;
                    assert(self.module_states@.last() =~= self.module_states@[n]);
                    assert forall|i: int| 0 <= i < self.module_states@.len() implies (
                    #[trigger] self.module_states@[i]).wf() by {
                        if i < n {
                            assert(self.module_states@[i] == old(self).module_states@[i]);
                        }
                    }
                    if old(self).quiet() {
                        assert forall|i: int| 0 <= i < self.module_states@.len() implies (
                        #[trigger] self.module_states@[i]).quiet() by {
                            if i < n {
                                assert(self.module_states@[i] == old(self).module_states@[i]);
                                assert(old(self).module_states@[i].quiet());
                            }
                        }
                    }
                }
                Ok(())
            },
        }
    }

    /// An owned copy of the client module's whole command buffer for one
    /// channel, handed to the drawing layer; valid until the next clear.
    pub fn get_commands_buffer(&self, source: Source) -> (r: MutBytesBuffer)
        requires
            self.wf(),
            self.has_module(client_id_bytes()),
        ensures
            r.bytes@ == self.module_at(self.first_module_index(client_id_bytes())).commands(
                source,
            ).allocator.contents(),
            r.size == self.module_at(self.first_module_index(client_id_bytes())).commands(
                source,
            ).capacity(),
    {
        let found = self.find_module(CLIENT_ID);
        let i = match found {
            Some(i) => i,
            None => {
                proof {
                    assert(false);
                }
                0
            },
        };
        proof {
            self.lemma_first_module_unique(
                i as int,
                self.first_module_index(client_id_bytes()),
                client_id_bytes(),
            );
        }
        let state = &self.module_states[i];
        let log = match source {
            Source::GAPI => &state.gapi_commands,
            Source::Processor => &state.processor_commands,
        };
        MutBytesBuffer {
            size: log.allocator.get_buffer_size() as u64,
            bytes: log.allocator.copy_contents(),
        }
    }

    /// One tick over one channel of every module, in registration order.
    ///
    /// For the logic channel: drain the client module's log into
    /// structural events, hand every module the drained events, step it,
    /// and clear its logic log; reports whether any module asked for a
    /// render pass. For the render channel: update each module's render
    /// clock, let it render, and clear its render log.
    pub fn process_commands(&mut self, source: Source) -> (r: Result<bool, VmError>)
        requires
            old(self).wf(),
            old(self).quiet(),
            old(self).has_module(client_id_bytes()),
        ensures
            r is Ok,
            final(self).wf(),
            final(self).quiet(),
            final(self).modules@.len() == old(self).modules@.len(),
            final(self).module_states@.len() == old(self).module_states@.len(),
            forall|i: int|
                0 <= i < old(self).module_states@.len() ==> (#[trigger] final(self).module_states@[i]).same_shape(old(self).module_states@[i]),
            forall|i: int|
                0 <= i < final(self).module_states@.len() ==> (#[trigger] final(self).module_states@[i]).commands(source).records() == Seq::<CommandRecord>::empty(),
            source == Source::Processor ==> forall|i: int|
                0 <= i < final(self).module_states@.len() ==> (#[trigger] final(self).module_states@[i]).events@ == events_of_records(
                    old(self).module_at(
                        old(self).first_module_index(client_id_bytes()),
                    ).processor_commands.byte_order(),
                    old(self).module_at(
                        old(self).first_module_index(client_id_bytes()),
                    ).processor_commands.records(),
                ),
            source == Source::GAPI ==> r == Ok::<bool, VmError>(false),
            source == Source::GAPI ==> forall|i: int|
                0 <= i < final(self).module_states@.len() ==> (#[trigger] final(self).module_states@[i]).last_time_initialized,
    {
        let found = self.find_module(CLIENT_ID);
        let client_idx = match found {
            Some(i) => i,
            None => {
                proof {
                    assert(false);
                }
                return Err(VmError::ProtocolViolation);
            },
        };
        proof {
            self.lemma_first_module_unique(
                client_idx as int,
                self.first_module_index(client_id_bytes()),
                client_id_bytes(),
            );
        }
        let ghost orig = *self;
        let ghost client_bo = self.module_at(
            client_idx as int,
        ).processor_commands.byte_order();
        let ghost client_records = self.module_at(
            client_idx as int,
        ).processor_commands.records();
        let mut events: Vec<ClientEvent> = Vec::new();
        if source == Source::Processor {
            let client_state = vec_index_mut(&mut self.module_states, client_idx);
            client_state.collect_events();
            events = copy_events(&client_state.events);
            proof {
                assert forall|j: int|
                    0 <= j < self.module_states@.len() implies (#[trigger] self.module_states@[j]).wf() && self.module_states@[j].quiet() && self.module_states@[j].same_shape(
                    orig.module_states@[j],
                ) by {
                    if j != client_idx as int {
                        assert(self.module_states@[j] == orig.module_states@[j]);
                    }
                }
            }
        }
        let ghost drained = events@;
        let mut render_update = false;
        let n = self.modules.len();
        let mut i: usize = 0;
        while i < n
            invariant
                0 <= i <= n,
                n == self.modules@.len(),
                n == self.module_states@.len(),
                n == orig.module_states@.len(),
                forall|j: int|
                    0 <= j < n ==> (#[trigger] self.module_states@[j]).wf()
                        && self.module_states@[j].quiet() && self.module_states@[j].same_shape(
                        orig.module_states@[j],
                    ),
                forall|j: int|
                    0 <= j < i ==> (#[trigger] self.module_states@[j]).commands(source).records()
                        == Seq::<CommandRecord>::empty(),
                source == Source::Processor ==> forall|j: int|
                    0 <= j < i ==> (#[trigger] self.module_states@[j]).events@ == drained,
                events@ == drained,
                source == Source::Processor ==> drained == events_of_records(
                    client_bo,
                    client_records,
                ),
                source == Source::GAPI ==> !render_update,
                source == Source::GAPI ==> forall|j: int|
                    0 <= j < i ==> (#[trigger] self.module_states@[j]).last_time_initialized,
            decreases n - i,
        {
            let module = vec_index_mut(&mut self.modules, i);
            let state = vec_index_mut(&mut self.module_states, i);
            match source {
                Source::GAPI => {
                    if !state.last_time_initialized {
                        state.last_time = crate::module::instant_now();
                        state.last_time_initialized = true;
                    }
                    state.delta_time = crate::module::elapsed_micros(&state.last_time);
                    module.render(state);
                    state.last_time = crate::module::instant_now();
                    let cleared = state.clear_commands(Source::GAPI);
                    match cleared {
                        Ok(()) => {},
                        Err(_) => {
                            proof {
                                assert(false);
                            }
                        },
                    }
                },
                Source::Processor => {
                    let step_state = module.step(state);
                    state.events = copy_events(&events);
                    if step_state == crate::module::StepState::RenderUpdate {
                        render_update = true;
                    }
                    let cleared = state.clear_commands(Source::Processor);
                    match cleared {
                        Ok(()) => {},
                        Err(_) => {
                            proof {
                                assert(false);
                            }
                        },
                    }
                },
            }
            i = i + 1;
        }
        Ok(render_update)
    }

    /// Clear both command channels and the text-boundaries scratch arena
    /// of every registered module, so that no stale command leaks into the
    /// next tick even if a module produced nothing.
    pub fn flush(&mut self) -> (r: Result<(), VmError>)
        requires
            old(self).wf(),
        ensures
            r is Ok,
            final(self).wf(),
            final(self).quiet(),
            final(self).modules == old(self).modules,
            final(self).module_states@.len() == old(self).module_states@.len(),
            forall|i: int|
                0 <= i < old(self).module_states@.len() ==> (#[trigger] final(self).module_states@[i]).same_shape(old(self).module_states@[i]),
            forall|i: int|
                0 <= i < final(self).module_states@.len() ==> {
                    let st = #[trigger] final(self).module_states@[i];
                    &&& st.gapi_commands.records() == Seq::<CommandRecord>::empty()
                    &&& st.processor_commands.records() == Seq::<CommandRecord>::empty()
                    &&& st.text_boundaries_allocator.offset() == 0
                },
    {
        let ghost orig = *self;
        let n = self.module_states.len();
        let mut i: usize = 0;
        while i < n
            invariant
                0 <= i <= n,
                n == self.module_states@.len(),
                n == orig.module_states@.len(),
                self.modules == orig.modules,
                forall|j: int|
                    0 <= j < n ==> (#[trigger] self.module_states@[j]).wf()
                        && self.module_states@[j].same_shape(orig.module_states@[j]),
                forall|j: int|
                    0 <= j < i ==> {
                        let st = #[trigger] self.module_states@[j];
                        &&& st.quiet()
                        &&& st.gapi_commands.records() == Seq::<CommandRecord>::empty()
                        &&& st.processor_commands.records() == Seq::<CommandRecord>::empty()
                        &&& st.text_boundaries_allocator.offset() == 0
                    },
            decreases n - i,
        {
            let state = vec_index_mut(&mut self.module_states, i);
            let cleared_text = state.clear_text_boundaries();
            match cleared_text {
                Ok(()) => {},
                Err(_) => {
                    proof {
                        assert(false);
                    }
                },
            }
            let cleared_gapi = state.clear_commands(Source::GAPI);
            match cleared_gapi {
                Ok(()) => {},
                Err(_) => {
                    proof {
                        assert(false);
                    }
                },
            }
            let cleared_processor = state.clear_commands(Source::Processor);
            match cleared_processor {
                Ok(()) => {},
                Err(_) => {
                    proof {
                        assert(false);
                    }
                },
            }
            i = i + 1;
        }
        Ok(())
    }
}

} // verus!
