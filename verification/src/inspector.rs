//! The controller: it owns the model of the program and the values of the
//! last snapshot, and decides for every event what is read from the target
//! and whether the target is resumed.
use vstd::prelude::*;
use crate::cache::{
    cached, held_once, lemma_held_once, text_view, CacheEntryView, FormatCache,
};
use crate::model::{DebugData, DebugDataView};
use crate::task_pool::{pool_value, TaskPoolValue, TaskPoolValueView};
use crate::ty::{Type, TypeView};

verus! {

/// The mouse button that was used for a click.
#[derive(Debug, Clone, Copy, PartialEq, Eq)]
pub enum ClickButton {
    Left,
    Middle,
    Right,
}

/// A place on the screen, counted in characters from the upper left corner.
#[derive(Debug, Clone, Copy, PartialEq, Eq)]
pub struct Position {
    pub x: u16,
    pub y: u16,
}

/// A single mouse click.
#[derive(Debug, Clone, Copy, PartialEq, Eq)]
pub struct Click {
    pub pos: Position,
    pub button: ClickButton,
}

/// External event to be sent to an [`EmbassyInspector`].
#[derive(Debug, Clone, Copy, PartialEq, Eq)]
pub enum Event {
    /// Window was resized or made invalid for a different reason.
    Redraw,
    /// The user clicked.
    Click(Click),
    /// The user scrolled. A negative number indicates scrolling down, the
    /// magnitude is the amount of lines to scroll.
    Scroll(i32),
    /// The breakpoint with the given id was hit. The target has to be
    /// readable when this event is sent.
    Breakpoint(u64),
    /// The target was stopped for any other reason. The target has to be
    /// readable when this event is sent.
    Stopped,
}

/// Why an operation of the backend failed.
#[derive(Debug)]
pub struct CallbackError {
    pub message: String,
}

/// One operation that was asked of a backend, with what the backend
/// answered.
pub enum Call {
    GetObjectfiles,
    /// The address of the breakpoint, and its id where it could be set.
    SetBreakpoint { addr: u64, id: Option<u64> },
    /// Whether the backend could resume the target.
    Resume { done: bool },
    /// The address and the number of bytes that were asked for, and the
    /// bytes that were read where the memory could be read.
    ReadMemory { addr: u64, len: u64, read: Option<Seq<u8>> },
    /// The bytes and the type that were to be formatted, and the text
    /// where they could be formatted.
    FormatValue { bytes: Seq<u8>, ty: TypeView, text: Option<Seq<char>> },
}

/// The mathematical value of an answer that may have failed.
pub open spec fn answer_view(answer: Result<Vec<u8>, CallbackError>) -> Option<Seq<u8>> {
    match answer {
        Ok(bytes) => Some(bytes@),
        Err(_) => None,
    }
}

/// The id of a breakpoint that may not have been set.
pub open spec fn id_view(answer: Result<u64, CallbackError>) -> Option<u64> {
    match answer {
        Ok(id) => Some(id),
        Err(_) => None,
    }
}

/// The operations that an [`EmbassyInspector`] asks of a backend.
///
/// A backend has a single implementation of this trait and hands it to the
/// methods of the inspector. All methods may fail.
pub trait Callback {
    /// Get the paths to any known objectfiles.
    fn get_objectfiles(&mut self) -> Result<Vec<String>, CallbackError>;

    /// Sets a new breakpoint at the given address, returning a unique id
    /// used for events.
    fn set_breakpoint(&mut self, addr: u64) -> Result<u64, CallbackError>;

    /// Resume executing code on the target. Do nothing if already
    /// executing. This must not wait for the target to stop again.
    fn resume(&mut self) -> Result<(), CallbackError>;

    /// Read `len` bytes at `addr` from the target.
    fn read_memory(&mut self, addr: u64, len: u64) -> Result<Vec<u8>, CallbackError>;

    /// Try to format the given bytes as a value of the given type. The
    /// answer may be `None` if the bytes are invalid or if the backend does
    /// not format values.
    fn try_format_value(&mut self, bytes: &[u8], ty: &Type) -> Option<String>;
}

/// A backend together with the record of what was asked of it and of what
/// it answered.
///
/// The inspector asks a backend through this type only, so that its
/// contracts can say what it asks and what it makes of the answers.
/// Nothing is said of what a backend answers.
pub struct Traced<C> {
    pub backend: C,
    /// The operations that were asked of the backend so far, the first one
    /// first.
    pub calls: Ghost<Seq<Call>>,
}

impl<C: Callback> Traced<C> {
    /// The backend `backend`, of which nothing was asked yet.
    pub fn new(backend: C) -> (traced: Self)
        ensures
            traced.calls@ == Seq::<Call>::empty(),
            traced.backend == backend,
    {
        Traced { backend, calls: Ghost(Seq::empty()) }
    }

    /// Asks the backend for the paths to its objectfiles.
    pub fn get_objectfiles(&mut self) -> (files: Result<Vec<String>, CallbackError>)
        ensures
            final(self).calls@ == old(self).calls@.push(Call::GetObjectfiles),
    {
        proof {
            self.calls@ = self.calls@.push(Call::GetObjectfiles);
        }
        self.backend.get_objectfiles()
    }

    /// Asks the backend to set a breakpoint at the address `addr`.
    pub fn set_breakpoint(&mut self, addr: u64) -> (id: Result<u64, CallbackError>)
        ensures
            final(self).calls@ == old(self).calls@.push(
                Call::SetBreakpoint { addr, id: id_view(id) },
            ),
    {
        let id = self.backend.set_breakpoint(addr);
        proof {
            self.calls@ = self.calls@.push(Call::SetBreakpoint { addr, id: id_view(id) });
        }
        id
    }

    /// Asks the backend to resume the target.
    pub fn resume(&mut self) -> (done: Result<(), CallbackError>)
        ensures
            final(self).calls@ == old(self).calls@.push(Call::Resume { done: done is Ok }),
    {
        let done = self.backend.resume();
        proof {
            self.calls@ = self.calls@.push(Call::Resume { done: done is Ok });
        }
        done
    }

    /// Asks the backend for the `len` bytes at the address `addr`.
    pub fn read_memory(&mut self, addr: u64, len: u64) -> (bytes: Result<Vec<u8>, CallbackError>)
        ensures
            final(self).calls@ == old(self).calls@.push(
                Call::ReadMemory { addr, len, read: answer_view(bytes) },
            ),
    {
        let bytes = self.backend.read_memory(addr, len);
        proof {
            self.calls@ = self.calls@.push(
                Call::ReadMemory { addr, len, read: answer_view(bytes) },
            );
        }
        bytes
    }

    /// Asks the backend to format the bytes `bytes` as a value of the type
    /// `ty`.
    pub fn try_format_value(&mut self, bytes: &[u8], ty: &Type) -> (text: Option<String>)
        ensures
            final(self).calls@ == old(self).calls@.push(
                Call::FormatValue { bytes: bytes@, ty: ty@, text: text_view(text) },
            ),
    {
        let text = self.backend.try_format_value(bytes, ty);
        proof {
            self.calls@ = self.calls@.push(
                Call::FormatValue { bytes: bytes@, ty: ty@, text: text_view(text) },
            );
        }
        text
    }
}

/// What the inspector does for an event, before the screen is drawn again.
#[derive(Debug, Clone, Copy, PartialEq, Eq)]
pub struct Plan {
    /// Whether the memory of the task pools is read anew.
    pub snapshot: bool,
    /// Whether the target is resumed after the snapshot.
    pub resume: bool,
    /// The click that is handed on to the presenter.
    pub click: Option<Click>,
    /// The number of lines that the presenter scrolls.
    pub scroll: i32,
}

/// What came of an event.
#[derive(Debug)]
pub struct Handled {
    /// What was done for the event.
    pub plan: Plan,
    /// Why the target could not be resumed, if it was to be resumed and
    /// could not.
    pub resume_error: Option<CallbackError>,
}

/// What is done for the event `event`, given the ids of the breakpoints at
/// the safepoints. Every stop of the target gives a new snapshot; the
/// target is resumed only from a breakpoint of the inspector's own.
pub open spec fn plan_of(ids: Seq<u64>, event: Event) -> Plan {
    match event {
        Event::Redraw => Plan { snapshot: false, resume: false, click: None, scroll: 0 },
        Event::Click(click) => Plan {
            snapshot: false,
            resume: false,
            click: Some(click),
            scroll: 0,
        },
        Event::Scroll(lines) => Plan { snapshot: false, resume: false, click: None, scroll: lines },
        Event::Breakpoint(id) => Plan {
            snapshot: true,
            resume: ids.contains(id),
            click: None,
            scroll: 0,
        },
        Event::Stopped => Plan { snapshot: true, resume: false, click: None, scroll: 0 },
    }
}

/// Whether the memory of the pool `pool` is read for a snapshot: a pool
/// without slots is not read.
pub open spec fn is_read(pool: crate::task_pool::TaskPoolView) -> bool {
    pool.number_of_tasks > 0
}

/// What a snapshot holds of the pool at position `i`, given what was read
/// of it: nothing where the read failed or did not give the bytes of the
/// whole pool.
pub open spec fn snapshot_step(data: DebugDataView, i: int, read: Option<Seq<u8>>) -> Option<
    TaskPoolValueView,
> {
    let pool = data.task_pools[i];
    if !is_read(pool) {
        Some(pool_value(data.future_types, pool, Seq::empty()))
    } else {
        match read {
            Some(bytes) => if bytes.len() == pool.size {
                Some(pool_value(data.future_types, pool, bytes))
            } else {
                None
            },
            None => None,
        }
    }
}

/// The values of a snapshot, given what was read of the first pools: the
/// values of the pools that could be read, in the order of the pools.
pub open spec fn snapshot_of(data: DebugDataView, reads: Seq<Option<Seq<u8>>>) -> Seq<
    TaskPoolValueView,
>
    decreases reads.len(),
{
    if reads.len() == 0 {
        Seq::empty()
    } else {
        let before = snapshot_of(data, reads.drop_last());
        match snapshot_step(data, reads.len() - 1, reads.last()) {
            Some(value) => before.push(value),
            None => before,
        }
    }
}

/// What is asked of the backend for a snapshot of the first `n` pools, and
/// what it answered: the memory of every pool with slots, in one read each,
/// in the order of the pools.
pub open spec fn snapshot_calls(data: DebugDataView, reads: Seq<Option<Seq<u8>>>, n: int) -> Seq<
    Call,
>
    decreases n,
{
    if n <= 0 {
        Seq::empty()
    } else {
        let before = snapshot_calls(data, reads, n - 1);
        let pool = data.task_pools[n - 1];
        if is_read(pool) {
            before.push(
                Call::ReadMemory { addr: pool.address, len: pool.size, read: reads[n - 1] },
            )
        } else {
            before
        }
    }
}

/// Whether `after` is the record of a backend of which, after `before`, a
/// snapshot with the answers `reads` was asked, and `values` are the
/// values of that snapshot.
pub open spec fn is_snapshot(
    data: DebugDataView,
    reads: Seq<Option<Seq<u8>>>,
    values: Seq<TaskPoolValueView>,
    before: Seq<Call>,
    after: Seq<Call>,
) -> bool {
    &&& reads.len() == data.task_pools.len()
    &&& values == snapshot_of(data, reads)
    &&& after == before + snapshot_calls(data, reads, data.task_pools.len() as int)
}

/// Whether a snapshot was taken between the records `before` and `after`
/// of a backend, and `values` are the values decoded from what the backend
/// answered.
pub open spec fn snapshot_taken(
    data: DebugDataView,
    values: Seq<TaskPoolValueView>,
    before: Seq<Call>,
    after: Seq<Call>,
) -> bool {
    exists|reads: Seq<Option<Seq<u8>>>| is_snapshot(data, reads, values, before, after)
}

/// What is asked of the backend to set a breakpoint at each of the first
/// `n` addresses, where the backend answered with the ids `ids`.
pub open spec fn breakpoint_calls(addresses: Seq<u64>, ids: Seq<u64>, n: int) -> Seq<Call>
    decreases n,
{
    if n <= 0 {
        Seq::empty()
    } else {
        breakpoint_calls(addresses, ids, n - 1).push(
            Call::SetBreakpoint { addr: addresses[n - 1], id: Some(ids[n - 1]) },
        )
    }
}

/// What is asked of the backend when the target is to be resumed, with
/// whether the backend could resume it.
pub open spec fn resume_calls(plan: Plan, done: bool) -> Seq<Call> {
    if plan.resume {
        seq![Call::Resume { done }]
    } else {
        Seq::empty()
    }
}

/// What is asked for a snapshot of the first `n` pools depends on the
/// answers to the first `n` reads only.
pub proof fn lemma_snapshot_calls_prefix(
    data: DebugDataView,
    shorter: Seq<Option<Seq<u8>>>,
    longer: Seq<Option<Seq<u8>>>,
    n: int,
)
    requires
        0 <= n <= shorter.len() <= longer.len(),
        forall|i: int| 0 <= i < n ==> shorter[i] == longer[i],
    ensures
        snapshot_calls(data, shorter, n) == snapshot_calls(data, longer, n),
    decreases n,
{
    if n > 0 {
        lemma_snapshot_calls_prefix(data, shorter, longer, n - 1);
    }
}

/// What is asked to set the first `n` breakpoints depends on the first `n`
/// ids only.
pub proof fn lemma_breakpoint_calls_prefix(
    addresses: Seq<u64>,
    shorter: Seq<u64>,
    longer: Seq<u64>,
    n: int,
)
    requires
        0 <= n <= shorter.len() <= longer.len(),
        forall|i: int| 0 <= i < n ==> shorter[i] == longer[i],
    ensures
        breakpoint_calls(addresses, shorter, n) == breakpoint_calls(addresses, longer, n),
    decreases n,
{
    if n > 0 {
        lemma_breakpoint_calls_prefix(addresses, shorter, longer, n - 1);
    }
}

/// The mathematical value of what was read of a pool.
pub open spec fn read_view(read: Option<Vec<u8>>) -> Option<Seq<u8>> {
    match read {
        Some(bytes) => Some(bytes@),
        None => None,
    }
}

/// The mathematical values of a list of pool values.
pub open spec fn values_of(values: Seq<TaskPoolValue>) -> Seq<TaskPoolValueView> {
    values.map_values(|v: TaskPoolValue| v@)
}

/// Contains the full state of the debugger.
///
/// Create an instance on startup, before the event loop is started, and
/// send the relevant events to [`EmbassyInspector::handle_event`].
#[derive(Debug)]
pub struct EmbassyInspector {
    /// The ids of the breakpoints at the safepoints.
    pub poll_break_point_ids: Vec<u64>,
    pub debug_data: DebugData,
    /// The values of the last snapshot.
    pub last_values: Vec<TaskPoolValue>,
    /// Values can only be formatted while the target is stopped, so the
    /// formatted values of a snapshot are kept for when the screen is drawn
    /// again while the target runs.
    pub formatting_cache: FormatCache,
}

impl EmbassyInspector {
    /// What holds of every inspector: its model is well formed.
    pub open spec fn wf(&self) -> bool {
        self.debug_data@.wf()
    }

    /// What is done for the event `event`.
    pub fn plan(&self, event: Event) -> (plan: Plan)
        ensures
            plan == plan_of(self.poll_break_point_ids@, event),
    {
        match event {
            Event::Redraw => Plan { snapshot: false, resume: false, click: None, scroll: 0 },
            Event::Click(click) => Plan {
                snapshot: false,
                resume: false,
                click: Some(click),
                scroll: 0,
            },
            Event::Scroll(lines) => Plan {
                snapshot: false,
                resume: false,
                click: None,
                scroll: lines,
            },
            Event::Breakpoint(id) => {
                let mut resume = false;
                let mut i: usize = 0;
                while i < self.poll_break_point_ids.len()
                    invariant
                        i <= self.poll_break_point_ids.len(),
                        !resume,
                        event == Event::Breakpoint(id),
                        forall|k: int| 0 <= k < i ==> self.poll_break_point_ids@[k] != id,
                    decreases self.poll_break_point_ids.len() - i,
                {
                    if self.poll_break_point_ids[i] == id {
                        proof {
                            assert(self.poll_break_point_ids@[i as int] == id);
                        }
                        return Plan { snapshot: true, resume: true, click: None, scroll: 0 };
                    }
                    i += 1;
                }
                Plan { snapshot: true, resume, click: None, scroll: 0 }
            },
            Event::Stopped => Plan { snapshot: true, resume: false, click: None, scroll: 0 },
        }
    }

    /// Adds to `values` what a snapshot holds of the pool `task_pool`,
    /// given the outcome `read` of reading its memory.
    pub fn apply_read(
        values: &mut Vec<TaskPoolValue>,
        debug_data: &DebugData,
        pool: usize,
        read: Option<Vec<u8>>,
    )
        requires
            debug_data@.wf(),
            pool < debug_data.task_pools.len(),
        ensures
            values_of(final(values)@) == match snapshot_step(
                debug_data@,
                pool as int,
                read_view(read),
            ) {
                Some(value) => values_of(old(values)@).push(value),
                None => values_of(old(values)@),
            },
    {
        let ghost before = values_of(values@);
        let task_pool = &debug_data.task_pools[pool];
        proof {
            assert(debug_data@.task_pools[pool as int] == task_pool@);
            assert(task_pool@.wf());
        }
        if task_pool.number_of_tasks == 0 {
            let empty: Vec<u8> = Vec::new();
            let value = debug_data.get_taskpool_value(task_pool, empty.as_slice());
            values.push(value);
            proof {
                assert(empty@ =~= Seq::<u8>::empty());
                assert(values_of(values@) =~= before.push(value@));
            }
            return ;
        }
        match read {
            Some(bytes) => {
                if bytes.len() as u64 == task_pool.size {
                    let value = debug_data.get_taskpool_value(task_pool, bytes.as_slice());
                    values.push(value);
                    proof {
                        assert(values_of(values@) =~= before.push(value@));
                    }
                }
            },
            None => {},
        }
    }

    /// Takes a new snapshot: forgets the values and the formatted values
    /// of the last one and reads the memory of every pool with slots in one
    /// call each. A pool whose memory cannot be read is passed over.
    pub fn update_values<C: Callback>(&mut self, callback: &mut Traced<C>)
        requires
            old(self).wf(),
        ensures
            final(self).wf(),
            final(self).debug_data == old(self).debug_data,
            final(self).poll_break_point_ids == old(self).poll_break_point_ids,
            final(self).formatting_cache@ == Seq::<CacheEntryView>::empty(),
            snapshot_taken(
                old(self).debug_data@,
                values_of(final(self).last_values@),
                old(callback).calls@,
                final(callback).calls@,
            ),
    {
        self.last_values.clear();
        self.formatting_cache.clear();
        let ghost mut reads: Seq<Option<Seq<u8>>> = Seq::empty();
        let mut i: usize = 0;
        proof {
            assert(values_of(self.last_values@) =~= snapshot_of(self.debug_data@, reads));
            assert(callback.calls@ =~= old(callback).calls@ + snapshot_calls(
                self.debug_data@,
                reads,
                0,
            ));
        }
        while i < self.debug_data.task_pools.len()
            invariant
                i <= self.debug_data.task_pools.len(),
                callback.calls@ == old(callback).calls@ + snapshot_calls(
                    self.debug_data@,
                    reads,
                    i as int,
                ),
                self.wf(),
                self.debug_data == old(self).debug_data,
                self.poll_break_point_ids == old(self).poll_break_point_ids,
                self.formatting_cache@ == Seq::<CacheEntryView>::empty(),
                reads.len() == i,
                values_of(self.last_values@) == snapshot_of(self.debug_data@, reads),
            decreases self.debug_data.task_pools.len() - i,
        {
            let task_pool = &self.debug_data.task_pools[i];
            proof {
                assert(self.debug_data@.task_pools[i as int] == task_pool@);
            }
            let read = if task_pool.number_of_tasks == 0 {
                None
            } else {
                match callback.read_memory(task_pool.address, task_pool.size) {
                    Ok(bytes) => Some(bytes),
                    Err(_) => None,
                }
            };
            proof {
                let outcome = read_view(read);
                let longer = reads.push(outcome);
                assert(longer.drop_last() == reads);
                lemma_snapshot_calls_prefix(self.debug_data@, reads, longer, i as int);
                assert(callback.calls@ =~= old(callback).calls@ + snapshot_calls(
                    self.debug_data@,
                    longer,
                    i as int + 1,
                ));
                reads = longer;
            }
            EmbassyInspector::apply_read(&mut self.last_values, &self.debug_data, i, read);
            i += 1;
        }
        proof {
            assert(is_snapshot(
                self.debug_data@,
                reads,
                values_of(self.last_values@),
                old(callback).calls@,
                callback.calls@,
            ));
        }
    }

    /// Creates an inspector for the program with the model `debug_data`: a
    /// breakpoint is set at every safepoint, and a first snapshot is taken.
    /// A breakpoint that cannot be set is an error, and no further
    /// breakpoint is set after it.
    pub fn new<C: Callback>(debug_data: DebugData, callback: &mut Traced<C>) -> (made: Result<
        EmbassyInspector,
        CallbackError,
    >)
        requires
            debug_data@.wf(),
        ensures
            match made {
                Ok(inspector) => {
                    &&& inspector.wf()
                    &&& inspector.debug_data == debug_data
                    &&& inspector.poll_break_point_ids.len()
                        == debug_data.poll_done_addresses.len()
                    &&& inspector.formatting_cache@ == Seq::<CacheEntryView>::empty()
                    &&& snapshot_taken(
                        debug_data@,
                        values_of(inspector.last_values@),
                        old(callback).calls@ + breakpoint_calls(
                            debug_data.poll_done_addresses@,
                            inspector.poll_break_point_ids@,
                            debug_data.poll_done_addresses@.len() as int,
                        ),
                        final(callback).calls@,
                    )
                },
                Err(_) => exists|ids: Seq<u64>|
                    ids.len() < debug_data.poll_done_addresses@.len() && final(callback).calls@
                        == old(callback).calls@ + (#[trigger] breakpoint_calls(
                        debug_data.poll_done_addresses@,
                        ids,
                        ids.len() as int,
                    )).push(
                        Call::SetBreakpoint {
                            addr: debug_data.poll_done_addresses@[ids.len() as int],
                            id: None,
                        },
                    ),
            },
    {
        let mut poll_break_point_ids: Vec<u64> = Vec::new();
        let mut i: usize = 0;
        proof {
            assert(callback.calls@ =~= old(callback).calls@ + breakpoint_calls(
                debug_data.poll_done_addresses@,
                poll_break_point_ids@,
                0,
            ));
        }
        while i < debug_data.poll_done_addresses.len()
            invariant
                i <= debug_data.poll_done_addresses.len(),
                poll_break_point_ids.len() == i,
                callback.calls@ == old(callback).calls@ + breakpoint_calls(
                    debug_data.poll_done_addresses@,
                    poll_break_point_ids@,
                    i as int,
                ),
            decreases debug_data.poll_done_addresses.len() - i,
        {
            let ghost before = poll_break_point_ids@;
            let ghost asked = callback.calls@;
            match callback.set_breakpoint(debug_data.poll_done_addresses[i]) {
                Ok(id) => {
                    poll_break_point_ids.push(id);
                    proof {
                        lemma_breakpoint_calls_prefix(
                            debug_data.poll_done_addresses@,
                            before,
                            poll_break_point_ids@,
                            i as int,
                        );
                        assert(callback.calls@ =~= old(callback).calls@ + breakpoint_calls(
                            debug_data.poll_done_addresses@,
                            poll_break_point_ids@,
                            i as int + 1,
                        ));
                    }
                },
                Err(e) => {
                    proof {
                        assert(callback.calls@ =~= old(callback).calls@ + breakpoint_calls(
                            debug_data.poll_done_addresses@,
                            before,
                            before.len() as int,
                        ).push(
                            Call::SetBreakpoint {
                                addr: debug_data.poll_done_addresses@[before.len() as int],
                                id: None,
                            },
                        ));
                    }
                    return Err(e);
                },
            }
            i += 1;
        }
        let mut inspector = EmbassyInspector {
            poll_break_point_ids,
            debug_data,
            last_values: Vec::new(),
            formatting_cache: FormatCache::new(),
        };
        inspector.update_values(callback);
        Ok(inspector)
    }

    /// Process a new external [`Event`]. The answer says what the presenter
    /// is to be told before the screen is drawn again. That the target
    /// could not be resumed is reported, and nothing else comes of it.
    pub fn handle_event<C: Callback>(&mut self, event: Event, callback: &mut Traced<C>) -> (done:
        Handled)
        requires
            old(self).wf(),
        ensures
            final(self).wf(),
            final(self).debug_data == old(self).debug_data,
            final(self).poll_break_point_ids == old(self).poll_break_point_ids,
            done.plan == plan_of(old(self).poll_break_point_ids@, event),
            done.resume_error is Some ==> done.plan.resume,
            done.plan.snapshot ==> final(self).formatting_cache@ == Seq::<CacheEntryView>::empty()
                && exists|read: Seq<Call>|
                snapshot_taken(
                    old(self).debug_data@,
                    values_of(final(self).last_values@),
                    old(callback).calls@,
                    read,
                ) && final(callback).calls@ == #[trigger] (read + resume_calls(
                    done.plan,
                    done.resume_error is None,
                )),
            !done.plan.snapshot ==> final(self).last_values == old(self).last_values
                && final(self).formatting_cache == old(self).formatting_cache
                && final(callback).calls@ == old(callback).calls@,
    {
        let plan = self.plan(event);
        if plan.snapshot {
            self.update_values(callback);
        }
        let ghost read = callback.calls@;
        let mut resume_error: Option<CallbackError> = None;
        if plan.resume {
            match callback.resume() {
                Ok(_) => {},
                Err(e) => {
                    resume_error = Some(e);
                },
            }
        }
        proof {
            assert(callback.calls@ =~= read + resume_calls(plan, resume_error is None));
        }
        Handled { plan, resume_error }
    }

    /// The formatted value of the bytes `bytes` of the type `ty`: the one
    /// kept from this snapshot where there is one, else the one that the
    /// backend gives, which is kept from now on.
    pub fn try_format_value<C: Callback>(
        &mut self,
        bytes: &[u8],
        ty: &Type,
        callback: &mut Traced<C>,
    ) -> (text: Option<String>)
        ensures
            final(self).debug_data == old(self).debug_data,
            final(self).poll_break_point_ids == old(self).poll_break_point_ids,
            final(self).last_values == old(self).last_values,
            held_once(old(self).formatting_cache@) ==> held_once(final(self).formatting_cache@),
            match cached(old(self).formatting_cache@, bytes@, ty@) {
                Some(kept) => {
                    &&& text_view(text) == kept
                    &&& final(self).formatting_cache == old(self).formatting_cache
                    &&& final(callback).calls@ == old(callback).calls@
                },
                None => {
                    &&& final(self).formatting_cache@ == old(self).formatting_cache@.push(
                        CacheEntryView { bytes: bytes@, ty: ty@, text: text_view(text) },
                    )
                    &&& final(callback).calls@ == old(callback).calls@.push(
                        Call::FormatValue { bytes: bytes@, ty: ty@, text: text_view(text) },
                    )
                },
            },
    {
        match self.formatting_cache.get(bytes, ty) {
            Some(kept) => {
                return match kept {
                    Some(t) => Some(t.clone()),
                    None => None,
                };
            },
            None => {},
        }
        let text = callback.try_format_value(bytes, ty);
        let kept = match &text {
            Some(t) => Some(t.clone()),
            None => None,
        };
        proof {
            if held_once(self.formatting_cache@) {
                lemma_held_once(
                    self.formatting_cache@,
                    CacheEntryView { bytes: bytes@, ty: ty@, text: text_view(kept) },
                );
            }
        }
        self.formatting_cache.insert(bytes, ty, kept);
        text
    }
}

} // verus!
