//! The task pools of the executor: where they lie in memory, how their slots
//! are laid out, and the values of the tasks they hold.
use vstd::prelude::*;
use crate::async_fn::{Layout, LayoutView};
use crate::bytes::{in_window, le_at, read_le, window_of};
use crate::dwarf::{DebugInfo, Field, path_text, push_path, resolve, StructType, TypeKind, Variable};
use crate::error::ModelError;
use crate::future::{
    first_count, FutureTypeKind, FutureTypeKindView, FutureTypes, FutureTypesView, in_module,
    is_in_module,
};
use crate::seqs::{first_where, lemma_first_where_at, lemma_first_where_none};
use crate::text::{chars_of, chars_start_with, push_text, same_text, starts_with, string_of};
use crate::ty::{Type, TypeView};
use crate::value::{
    async_fn_value, AsyncFnValue, FutureValue, FutureValueKindView, FutureValueView, layouts_wf,
    MAX_FUTURE_DEPTH,
};

verus! {

/// The type of the state word in the header of a task.
#[derive(Debug, Clone, Copy, PartialEq, Eq)]
pub enum StateType {
    /// State is a single u8, using
    /// - 0b00 for uninit
    /// - 0b01 for spawned
    /// - 0b11 for queued
    U8,
    /// State is a single u32, using
    /// - 0b0 0000 0000 for uninit
    /// - 0b0 0000 0001 for spawned
    /// - 0b1 0000 0000 for queued
    U32,
}

impl StateType {
    /// The number of bytes of the state word.
    pub open spec fn width(self) -> u64 {
        match self {
            StateType::U8 => 1,
            StateType::U32 => 4,
        }
    }

    /// The number of bytes of the state word.
    pub fn size(&self) -> (n: u64)
        ensures
            n == self.width(),
    {
        match self {
            StateType::U8 => 1,
            StateType::U32 => 4,
        }
    }
}

/// Where the state word lies in the header that starts every slot of a task
/// pool.
#[derive(Debug, Clone, Copy, PartialEq, Eq)]
pub struct HeaderLayout {
    pub state_offset: u64,
    pub state_type: StateType,
}

impl HeaderLayout {
    /// The state word lies within the first `len` bytes.
    pub open spec fn fits(self, len: nat) -> bool {
        in_window(len, self.state_offset, self.state_type.width())
    }

    /// A slot holds a task if its state word is not zero.
    pub open spec fn init_in(self, slot: Seq<u8>) -> bool {
        le_at(slot, self.state_offset, self.state_type.width()) != 0
    }

    /// Whether the slot that starts with `bytes` holds a task.
    pub fn is_init(&self, bytes: &[u8]) -> (init: bool)
        requires
            self.fits(bytes@.len()),
        ensures
            init == self.init_in(bytes@),
    {
        read_le(bytes, self.state_offset, self.state_type.size()) != 0
    }
}

/// A pool of tasks of one `async` function.
#[derive(Debug, PartialEq, Eq)]
pub struct TaskPool {
    pub path: String,
    /// Address where the bytes are stored.
    pub address: u64,
    /// Amount of bytes for the whole pool
    pub size: u64,
    /// The offset of a future from the start of an element in the array
    pub future_offset: u64,
    /// Maximum number of tasks this pool can hold.
    pub number_of_tasks: usize,
    /// The async fn type this pool stores
    pub async_fn_type: Layout,
    pub async_fn_base_type: Type,
    pub header_layout: HeaderLayout,
}

/// The mathematical value of a [`TaskPool`].
pub struct TaskPoolView {
    pub path: Seq<char>,
    pub address: u64,
    pub size: u64,
    pub future_offset: u64,
    pub number_of_tasks: usize,
    pub async_fn_type: LayoutView,
    pub async_fn_base_type: TypeView,
    pub header_layout: HeaderLayout,
}

impl View for TaskPool {
    type V = TaskPoolView;

    open spec fn view(&self) -> TaskPoolView {
        TaskPoolView {
            path: self.path@,
            address: self.address,
            size: self.size,
            future_offset: self.future_offset,
            number_of_tasks: self.number_of_tasks,
            async_fn_type: self.async_fn_type@,
            async_fn_base_type: self.async_fn_base_type@,
            header_layout: self.header_layout,
        }
    }
}

impl Clone for TaskPool {
    fn clone(&self) -> (copy: TaskPool)
        ensures
            copy@ == self@,
    {
        TaskPool {
            path: self.path.clone(),
            address: self.address,
            size: self.size,
            future_offset: self.future_offset,
            number_of_tasks: self.number_of_tasks,
            async_fn_type: self.async_fn_type.clone(),
            async_fn_base_type: self.async_fn_base_type.clone(),
            header_layout: self.header_layout,
        }
    }
}

impl TaskPoolView {
    /// The number of bytes of one slot; zero for a pool without slots.
    pub open spec fn slot_size(self) -> u64 {
        if self.number_of_tasks == 0 {
            0
        } else {
            (self.size as int / self.number_of_tasks as int) as u64
        }
    }

    /// What holds of every task pool: the layout of its future is well
    /// formed and, where the pool has slots, the slots fill the pool exactly
    /// and each has room for the state word and for the future.
    pub open spec fn wf(self) -> bool {
        &&& self.async_fn_type.wf()
        &&& self.number_of_tasks > 0 ==> {
            &&& self.size == self.number_of_tasks * self.slot_size()
            &&& self.future_offset + self.async_fn_type.total_size <= self.slot_size()
            &&& self.header_layout.fits(self.slot_size() as nat)
        }
    }

    /// The bytes of the slot `i` within the bytes of the pool.
    pub open spec fn slot(self, bytes: Seq<u8>, i: int) -> Seq<u8> {
        bytes.subrange(i * self.slot_size(), (i + 1) * self.slot_size())
    }
}

impl TaskPool {
    /// The number of bytes of one slot; zero for a pool without slots.
    pub fn slot_size(&self) -> (n: u64)
        ensures
            n == self@.slot_size(),
    {
        if self.number_of_tasks == 0 {
            0
        } else {
            self.size / (self.number_of_tasks as u64)
        }
    }

    /// Whether the pool is well formed.
    pub fn is_wf(&self) -> (ok: bool)
        ensures
            ok == self@.wf(),
    {
        if !self.async_fn_type.is_wf() {
            return false;
        }
        if self.number_of_tasks == 0 {
            return true;
        }
        let slot = self.slot_size();
        let count = self.number_of_tasks as u64;
        let exact = self.size % count == 0;
        proof {
            assert(exact <==> self.size == count * slot) by (nonlinear_arith)
                requires
                    count > 0,
                    slot == self.size / count,
                    exact == (self.size % count == 0),
            ;
        }
        let total = self.async_fn_type.total_size;
        let width = self.header_layout.state_type.size();
        exact && self.future_offset <= slot && total <= slot - self.future_offset
            && self.header_layout.state_offset <= slot && width <= slot
            - self.header_layout.state_offset
    }
}

/// The value of one slot of a task pool.
#[derive(Debug, PartialEq, Eq)]
pub enum TaskValue {
    Uninit,
    Init(FutureValue),
}

/// The mathematical value of a [`TaskValue`].
pub enum TaskValueView {
    Uninit,
    Init(FutureValueView),
}

impl View for TaskValue {
    type V = TaskValueView;

    open spec fn view(&self) -> TaskValueView {
        match self {
            TaskValue::Uninit => TaskValueView::Uninit,
            TaskValue::Init(v) => TaskValueView::Init(v@),
        }
    }
}

/// The values of the tasks of a pool.
#[derive(Debug, PartialEq, Eq)]
pub struct TaskPoolValue {
    pub task_pool: TaskPool,
    pub task_values: Vec<TaskValue>,
}

/// The mathematical value of a [`TaskPoolValue`].
pub struct TaskPoolValueView {
    pub task_pool: TaskPoolView,
    pub task_values: Seq<TaskValueView>,
}

impl View for TaskPoolValue {
    type V = TaskPoolValueView;

    open spec fn view(&self) -> TaskPoolValueView {
        TaskPoolValueView {
            task_pool: self.task_pool@,
            task_values: self.task_values@.map_values(|t: TaskValue| t@),
        }
    }
}

/// The value of the task in a slot: nothing where the state word of the
/// header is zero, else the future that starts at the future offset.
pub open spec fn task_value(types: FutureTypesView, pool: TaskPoolView, slot: Seq<u8>) -> TaskValueView {
    if pool.header_layout.init_in(slot) {
        TaskValueView::Init(
            FutureValueView {
                ty: pool.async_fn_base_type,
                kind: FutureValueKindView::AsyncFn(
                    async_fn_value(
                        types,
                        pool.async_fn_type,
                        slot.skip(pool.future_offset as int),
                        MAX_FUTURE_DEPTH as nat,
                    ),
                ),
            },
        )
    } else {
        TaskValueView::Uninit
    }
}

/// The values of all tasks of a pool, one for each slot, in the order of the
/// slots.
pub open spec fn pool_value(
    types: FutureTypesView,
    pool: TaskPoolView,
    bytes: Seq<u8>,
) -> TaskPoolValueView {
    TaskPoolValueView {
        task_pool: pool,
        task_values: Seq::new(
            pool.number_of_tasks as nat,
            |i: int| task_value(types, pool, pool.slot(bytes, i)),
        ),
    }
}

proof fn lemma_slot_bounds(count: int, slot: int, i: int)
    requires
        0 <= i < count,
        0 <= slot,
    ensures
        0 <= i * slot,
        i * slot + slot == (i + 1) * slot,
        (i + 1) * slot <= count * slot,
{
    assert(0 <= i * slot) by (nonlinear_arith)
        requires
            0 <= i,
            0 <= slot,
    ;
    assert(i * slot + slot == (i + 1) * slot) by (nonlinear_arith);
    assert((i + 1) * slot <= count * slot) by (nonlinear_arith)
        requires
            i + 1 <= count,
            0 <= slot,
    ;
}

impl TaskPoolValue {
    /// Decodes the tasks of `task_pool` from the bytes of the whole pool.
    pub fn new(task_pool: &TaskPool, bytes: &[u8], future_types: &FutureTypes) -> (value:
        TaskPoolValue)
        requires
            task_pool@.wf(),
            task_pool.number_of_tasks > 0 ==> bytes@.len() == task_pool.size,
            layouts_wf(future_types@),
        ensures
            value@ == pool_value(future_types@, task_pool@, bytes@),
    {
        let mut task_values: Vec<TaskValue> = Vec::new();
        let len_single_task = task_pool.slot_size();
        let mut task: usize = 0;
        while task < task_pool.number_of_tasks
            invariant
                task <= task_pool.number_of_tasks,
                task_values.len() == task,
                task_pool@.wf(),
                task_pool.number_of_tasks > 0 ==> bytes@.len() == task_pool.size,
                layouts_wf(future_types@),
                len_single_task == task_pool@.slot_size(),
                forall|k: int|
                    0 <= k < task ==> (#[trigger] task_values@[k])@ == task_value(
                        future_types@,
                        task_pool@,
                        task_pool@.slot(bytes@, k),
                    ),
            decreases task_pool.number_of_tasks - task,
        {
            proof {
                lemma_slot_bounds(
                    task_pool.number_of_tasks as int,
                    len_single_task as int,
                    task as int,
                );
                assert(len_single_task * task == task * len_single_task) by (nonlinear_arith);
                assert(task_pool.size == task_pool.number_of_tasks * len_single_task);
            }
            let task_offset = len_single_task * (task as u64);
            let slot = window_of(bytes, task_offset, len_single_task);
            proof {
                assert(slot@ == task_pool@.slot(bytes@, task as int));
            }
            let task_value = if task_pool.header_layout.is_init(slot) {
                let future_bytes = window_of(
                    slot,
                    task_pool.future_offset,
                    len_single_task - task_pool.future_offset,
                );
                proof {
                    assert(future_bytes@ =~= slot@.skip(task_pool.future_offset as int));
                }
                TaskValue::Init(
                    FutureValue::async_fn(
                        &task_pool.async_fn_base_type,
                        AsyncFnValue::new(&task_pool.async_fn_type, future_bytes, future_types),
                    ),
                )
            } else {
                TaskValue::Uninit
            };
            task_values.push(task_value);
            task += 1;
        }
        let value = TaskPoolValue { task_pool: task_pool.clone(), task_values };
        proof {
            assert(value@.task_values =~= pool_value(
                future_types@,
                task_pool@,
                bytes@,
            ).task_values);
        }
        value
    }
}

/// The state word that the member `field` of the task header describes,
/// where it is the member named `state`.
pub open spec fn header_state_of(field: Field) -> Result<Option<HeaderLayout>, ModelError> {
    if field.name is Some && field.name->0@ == "state"@ {
        if field.bit_size == Some(8u64) {
            Ok(
                Some(
                    HeaderLayout {
                        state_offset: field.bit_offset / 8,
                        state_type: StateType::U8,
                    },
                ),
            )
        } else if field.bit_size == Some(32u64) {
            Ok(
                Some(
                    HeaderLayout {
                        state_offset: field.bit_offset / 8,
                        state_type: StateType::U32,
                    },
                ),
            )
        } else {
            Err(ModelError::HeaderStateSize)
        }
    } else {
        Ok(None)
    }
}

/// The state word among the members `fields` of the task header: the last
/// member named `state`.
pub open spec fn header_state_in(fields: Seq<Field>) -> Result<Option<HeaderLayout>, ModelError>
    decreases fields.len(),
{
    if fields.len() == 0 {
        Ok(None)
    } else {
        match header_state_in(fields.drop_last()) {
            Err(e) => Err(e),
            Ok(found) => match header_state_of(fields.last()) {
                Err(e) => Err(e),
                Ok(Some(h)) => Ok(Some(h)),
                Ok(None) => Ok(found),
            },
        }
    }
}

/// Whether the type record `kind` describes the header of a task:
/// `embassy_executor::raw::TaskHeader`.
pub open spec fn is_task_header(kind: TypeKind) -> bool {
    &&& kind is Struct
    &&& kind->Struct_0.name is Some
    &&& kind->Struct_0.name->0@ == "TaskHeader"@
    &&& in_module(kind->Struct_0.namespace@, "embassy_executor"@, "raw"@)
}

/// The layout of the task header that the type record `kind` describes;
/// none where the record does not describe the task header.
pub open spec fn header_of_type(kind: TypeKind) -> Result<Option<HeaderLayout>, ModelError> {
    if is_task_header(kind) {
        match header_state_in(kind->Struct_0.members@) {
            Err(e) => Err(e),
            Ok(Some(h)) => Ok(Some(h)),
            Ok(None) => Err(ModelError::HeaderWithoutState),
        }
    } else {
        Ok(None)
    }
}

/// What the first type record of `types` that describes the task header
/// gives; none where no record describes it.
pub open spec fn header_in(types: Seq<TypeKind>) -> Option<Result<HeaderLayout, ModelError>>
    decreases types.len(),
{
    if types.len() == 0 {
        None
    } else {
        match header_in(types.drop_last()) {
            Some(r) => Some(r),
            None => match header_of_type(types.last()) {
                Ok(None) => None,
                Ok(Some(h)) => Some(Ok(h)),
                Err(e) => Some(Err(e)),
            },
        }
    }
}

/// The layout of the task header of the program.
pub open spec fn header_of_info(info: &DebugInfo) -> Result<HeaderLayout, ModelError> {
    match header_in(info.types@) {
        Some(r) => r,
        None => Err(ModelError::HeaderNotFound),
    }
}

proof fn lemma_header_state_fails(fields: Seq<Field>, n: int)
    requires
        0 <= n <= fields.len(),
        header_state_in(fields.take(n)) is Err,
    ensures
        header_state_in(fields) == header_state_in(fields.take(n)),
    decreases fields.len() - n,
{
    if n < fields.len() {
        assert(fields.take(n + 1).drop_last() == fields.take(n));
        lemma_header_state_fails(fields, n + 1);
    } else {
        assert(fields.take(n) == fields);
    }
}

proof fn lemma_header_found(types: Seq<TypeKind>, n: int)
    requires
        0 <= n <= types.len(),
        header_in(types.take(n)) is Some,
    ensures
        header_in(types) == header_in(types.take(n)),
    decreases types.len() - n,
{
    if n < types.len() {
        assert(types.take(n + 1).drop_last() == types.take(n));
        lemma_header_found(types, n + 1);
    } else {
        assert(types.take(n) == types);
    }
}

impl HeaderLayout {
    /// The layout of the task header that the type record `kind`
    /// describes; none where the record does not describe the task header.
    pub fn from_type(kind: &TypeKind) -> (found: Result<Option<HeaderLayout>, ModelError>)
        ensures
            found == header_of_type(*kind),
    {
        let st = match kind {
            TypeKind::Struct(st) => st,
            _ => {
                return Ok(None);
            },
        };
        let named = match &st.name {
            Some(name) => same_text(name.as_str(), "TaskHeader"),
            None => false,
        };
        if !named || !is_in_module(&st.namespace, "embassy_executor", "raw") {
            return Ok(None);
        }
        let mut state: Option<HeaderLayout> = None;
        let mut i: usize = 0;
        while i < st.members.len()
            invariant
                i <= st.members.len(),
                is_task_header(*kind),
                kind->Struct_0 == *st,
                header_state_in(st.members@.take(i as int)) == Ok::<Option<HeaderLayout>, ModelError>(
                    state,
                ),
            decreases st.members.len() - i,
        {
            proof {
                assert(st.members@.take(i as int + 1).drop_last() == st.members@.take(i as int));
            }
            let member = &st.members[i];
            let is_state = match &member.name {
                Some(name) => same_text(name.as_str(), "state"),
                None => false,
            };
            if is_state {
                let state_offset = member.bit_offset / 8;
                let state_type = match member.bit_size {
                    Some(8) => StateType::U8,
                    Some(32) => StateType::U32,
                    _ => {
                        proof {
                            lemma_header_state_fails(st.members@, i as int + 1);
                        }
                        return Err(ModelError::HeaderStateSize);
                    },
                };
                state = Some(HeaderLayout { state_offset, state_type });
            }
            i += 1;
        }
        proof {
            assert(st.members@.take(st.members.len() as int) == st.members@);
        }
        match state {
            Some(h) => Ok(Some(h)),
            None => Err(ModelError::HeaderWithoutState),
        }
    }

    /// The layout of the task header of the program. Without it a slot
    /// that holds a task cannot be told from an empty one.
    pub fn from_data(info: &DebugInfo) -> (found: Result<HeaderLayout, ModelError>)
        ensures
            found == header_of_info(info),
    {
        let mut i: usize = 0;
        while i < info.types.len()
            invariant
                i <= info.types.len(),
                header_in(info.types@.take(i as int)) is None,
            decreases info.types.len() - i,
        {
            proof {
                assert(info.types@.take(i as int + 1).drop_last() == info.types@.take(i as int));
            }
            match HeaderLayout::from_type(&info.types[i]) {
                Ok(None) => {},
                Ok(Some(h)) => {
                    proof {
                        lemma_header_found(info.types@, i as int + 1);
                    }
                    return Ok(h);
                },
                Err(e) => {
                    proof {
                        lemma_header_found(info.types@, i as int + 1);
                    }
                    return Err(e);
                },
            }
            i += 1;
        }
        proof {
            assert(info.types@.take(info.types.len() as int) == info.types@);
        }
        Err(ModelError::HeaderNotFound)
    }
}

/// The name of the task that the pool in `namespace` belongs to, as it
/// begins the names of its types: the path of the enclosing namespace,
/// `::__`, the name of the namespace of the pool, and `_task`.
pub open spec fn task_name_of(namespace: Seq<Option<String>>) -> Seq<char> {
    path_text(namespace.drop_last()) + "::__"@ + namespace.last()->0@ + "_task"@
}

/// Whether the type record `kind` describes the pool type of the task
/// `task_name`.
pub open spec fn is_pool_type(kind: TypeKind, task_name: Seq<char>) -> bool {
    &&& kind is Struct
    &&& kind->Struct_0.name is Some
    &&& ("TaskPool<"@ + task_name).is_prefix_of(kind->Struct_0.name->0@)
}

/// The test for [`is_pool_type`].
pub open spec fn pool_type_test(task_name: Seq<char>) -> spec_fn(TypeKind) -> bool {
    |k: TypeKind| is_pool_type(k, task_name)
}

/// The test for [`is_future_field`].
pub open spec fn future_field_test() -> spec_fn(Field) -> bool {
    |f: Field| is_future_field(f)
}

/// The test for [`is_task_future`].
pub open spec fn task_future_test(task_name: Seq<char>) -> spec_fn(
    (TypeView, FutureTypeKindView),
) -> bool {
    |e: (TypeView, FutureTypeKindView)| is_task_future(e.0, task_name)
}

/// The first pool type of the task `task_name`.
pub open spec fn pool_type_of(info: &DebugInfo, task_name: Seq<char>) -> Option<StructType> {
    match first_where(info.types@, pool_type_test(task_name)) {
        Some(i) => Some(info.types@[i]->Struct_0),
        None => None,
    }
}

/// Whether `field` is the member that holds the future of a task.
pub open spec fn is_future_field(field: Field) -> bool {
    field.name is Some && field.name->0@ == "future"@
}

/// The offset of the future within a slot whose type the record `kind`
/// describes.
pub open spec fn future_offset_of(kind: TypeKind) -> Option<u64> {
    match kind {
        TypeKind::Struct(st) => match first_where(st.members@, future_field_test()) {
            Some(i) => Some((st.members@[i].bit_offset / 8) as u64),
            None => None,
        },
        _ => None,
    }
}

/// Whether the type `key` is named with the name of the task `task_name`.
pub open spec fn is_task_future(key: TypeView, task_name: Seq<char>) -> bool {
    key is Base && task_name.is_prefix_of(key->Base_0)
}

/// The number of slots of the pool type `pool_type` and the type of its
/// slots.
pub open spec fn slots_of(info: &DebugInfo, pool_type: StructType) -> Result<
    (u64, TypeKind),
    ModelError,
> {
    if pool_type.members@.len() != 1 {
        Err(ModelError::PoolMembers)
    } else {
        match resolve(info, pool_type.members@[0].ty) {
            None => Err(ModelError::PoolMemberType),
            Some(TypeKind::Array { element, counts, byte_size }) => match first_count(counts@) {
                None => Err(ModelError::PoolArrayCount),
                Some(count) => match resolve(info, element) {
                    None => Err(ModelError::PoolElementType),
                    Some(storage) => Ok((count, storage)),
                },
            },
            Some(_) => Err(ModelError::PoolArray),
        }
    }
}

/// The type and the layout of the future of the task `task_name`: the first
/// future type that is named with the name of the task.
pub open spec fn task_future_of(types: FutureTypesView, task_name: Seq<char>) -> Result<
    (TypeView, LayoutView),
    ModelError,
> {
    match first_where(types, task_future_test(task_name)) {
        None => Err(ModelError::PoolFutureType),
        Some(i) => match types[i].1 {
            FutureTypeKindView::AsyncFn(l) => Ok((types[i].0, l)),
            _ => Err(ModelError::PoolNotAsyncFn),
        },
    }
}

/// The task pool that the variable `var` holds, given that it is a pool
/// holder.
pub open spec fn pool_of_holder(
    info: &DebugInfo,
    var: Variable,
    types: FutureTypesView,
    header: HeaderLayout,
) -> Result<TaskPoolView, ModelError> {
    let namespace = var.namespace@;
    if namespace.len() == 0 {
        Err(ModelError::PoolWithoutNamespace)
    } else if namespace.len() == 1 {
        Err(ModelError::PoolNamespaceParent)
    } else if namespace.last() is None {
        Err(ModelError::PoolNamespaceName)
    } else if var.address is None {
        Err(ModelError::PoolWithoutAddress)
    } else if var.byte_size is None {
        Err(ModelError::PoolWithoutSize)
    } else {
        let task_name = task_name_of(namespace);
        match pool_type_of(info, task_name) {
            None => Err(ModelError::PoolTypeNotFound),
            Some(pool_type) => match slots_of(info, pool_type) {
                Err(e) => Err(e),
                Ok((count, storage)) => match future_offset_of(storage) {
                    None => Err(ModelError::PoolFutureOffset),
                    Some(future_offset) => match task_future_of(types, task_name) {
                        Err(e) => Err(e),
                        Ok((base, layout)) => {
                            let pool = TaskPoolView {
                                path: path_text(namespace),
                                address: var.address->0,
                                size: var.byte_size->0,
                                future_offset,
                                number_of_tasks: count as usize,
                                async_fn_type: layout,
                                async_fn_base_type: base,
                                header_layout: header,
                            };
                            if count <= usize::MAX && pool.wf() {
                                Ok(pool)
                            } else {
                                Err(ModelError::MalformedPool)
                            }
                        },
                    },
                },
            },
        }
    }
}

/// Whether the variable `var` holds a task pool: it is named `POOL` and the
/// name of its type begins with `TaskPoolHolder`.
pub open spec fn is_pool_holder(info: &DebugInfo, var: Variable) -> bool {
    &&& var.name is Some
    &&& var.name->0@ == "POOL"@
    &&& resolve(info, var.ty) is Some
    &&& resolve(info, var.ty)->0 is Struct
    &&& resolve(info, var.ty)->0->Struct_0.name is Some
    &&& "TaskPoolHolder"@.is_prefix_of(resolve(info, var.ty)->0->Struct_0.name->0@)
}

/// The task pool that the variable `var` holds; none where the variable
/// holds no task pool.
pub open spec fn pool_of_var(
    info: &DebugInfo,
    var: Variable,
    types: FutureTypesView,
    header: HeaderLayout,
) -> Result<Option<TaskPoolView>, ModelError> {
    if is_pool_holder(info, var) {
        match pool_of_holder(info, var, types, header) {
            Ok(pool) => Ok(Some(pool)),
            Err(e) => Err(e),
        }
    } else {
        Ok(None)
    }
}

impl TaskPool {
    /// The first pool type of the task `task_name`.
    pub fn find_task_pool<'a>(task_name: &str, info: &'a DebugInfo) -> (found: Option<
        &'a StructType,
    >)
        ensures
            match found {
                Some(st) => pool_type_of(info, task_name@) == Some(*st),
                None => pool_type_of(info, task_name@) is None,
            },
    {
        let mut prefix: Vec<char> = Vec::new();
        push_text(&mut prefix, "TaskPool<");
        push_text(&mut prefix, task_name);
        let mut i: usize = 0;
        while i < info.types.len()
            invariant
                i <= info.types.len(),
                prefix@ == "TaskPool<"@ + task_name@,
                forall|j: int| 0 <= j < i ==> !is_pool_type(info.types@[j], task_name@),
            decreases info.types.len() - i,
        {
            match &info.types[i] {
                TypeKind::Struct(st) => {
                    match &st.name {
                        Some(name) => {
                            let text = chars_of(name.as_str());
                            if chars_start_with(&text, 0, &prefix) {
                                proof {
                                    lemma_first_where_at(
                                        info.types@,
                                        pool_type_test(task_name@),
                                        i as int,
                                    );
                                }
                                return Some(st);
                            }
                        },
                        None => {},
                    }
                },
                _ => {},
            }
            i += 1;
        }
        proof {
            lemma_first_where_none(info.types@, pool_type_test(task_name@));
        }
        None
    }

    /// The offset of the future within a slot whose type the record
    /// `task_storage` describes.
    pub fn find_future_offset_task_storage(task_storage: &TypeKind) -> (found: Option<u64>)
        ensures
            found == future_offset_of(*task_storage),
    {
        let st = match task_storage {
            TypeKind::Struct(st) => st,
            _ => {
                return None;
            },
        };
        let mut i: usize = 0;
        while i < st.members.len()
            invariant
                i <= st.members.len(),
                *task_storage == TypeKind::Struct(*st),
                forall|j: int| 0 <= j < i ==> !is_future_field(st.members@[j]),
            decreases st.members.len() - i,
        {
            let member = &st.members[i];
            let named = match &member.name {
                Some(name) => same_text(name.as_str(), "future"),
                None => false,
            };
            if named {
                proof {
                    lemma_first_where_at(st.members@, future_field_test(), i as int);
                }
                return Some(member.bit_offset / 8);
            }
            i += 1;
        }
        proof {
            lemma_first_where_none(st.members@, future_field_test());
        }
        None
    }
}

fn find_slots<'a>(info: &'a DebugInfo, pool_type: &StructType) -> (found: Result<
    (u64, &'a TypeKind),
    ModelError,
>)
    ensures
        match found {
            Ok((count, storage)) => slots_of(info, *pool_type) == Ok::<(u64, TypeKind), ModelError>(
                (count, *storage),
            ),
            Err(e) => slots_of(info, *pool_type) == Err::<(u64, TypeKind), ModelError>(e),
        },
{
    if pool_type.members.len() != 1 {
        return Err(ModelError::PoolMembers);
    }
    let kind = match info.type_at(pool_type.members[0].ty) {
        None => {
            return Err(ModelError::PoolMemberType);
        },
        Some(kind) => kind,
    };
    match kind {
        TypeKind::Array { element, counts, byte_size } => {
            let count = if counts.len() == 0 {
                None
            } else {
                counts[0]
            };
            let count = match count {
                None => {
                    return Err(ModelError::PoolArrayCount);
                },
                Some(count) => count,
            };
            match info.type_at(*element) {
                None => Err(ModelError::PoolElementType),
                Some(storage) => Ok((count, storage)),
            }
        },
        _ => Err(ModelError::PoolArray),
    }
}

fn find_task_future<'a>(future_types: &'a FutureTypes, task_name: &str) -> (found: Result<
    (&'a Type, &'a Layout),
    ModelError,
>)
    ensures
        match found {
            Ok((base, layout)) => task_future_of(future_types@, task_name@) == Ok::<
                (TypeView, LayoutView),
                ModelError,
            >((base@, layout@)) && exists|i: int|
                0 <= i < future_types@.len() && (#[trigger] future_types@[i]).1
                    == FutureTypeKindView::AsyncFn(layout@),
            Err(e) => task_future_of(future_types@, task_name@) == Err::<
                (TypeView, LayoutView),
                ModelError,
            >(e),
        },
{
    let prefix = chars_of(task_name);
    let mut i: usize = 0;
    while i < future_types.entries.len()
        invariant
            i <= future_types.entries.len(),
            prefix@ == task_name@,
            forall|j: int| 0 <= j < i ==> !is_task_future(future_types@[j].0, task_name@),
        decreases future_types.entries.len() - i,
    {
        let named = match &future_types.entries[i].0 {
            Type::Base(name) => {
                let text = chars_of(name.as_str());
                chars_start_with(&text, 0, &prefix)
            },
            _ => false,
        };
        if named {
            proof {
                lemma_first_where_at(future_types@, task_future_test(task_name@), i as int);
            }
            return match &future_types.entries[i].1.kind {
                FutureTypeKind::AsyncFn(layout) => {
                    proof {
                        assert(future_types@[i as int].1 == FutureTypeKindView::AsyncFn(layout@));
                    }
                    Ok((&future_types.entries[i].0, layout))
                },
                _ => Err(ModelError::PoolNotAsyncFn),
            };
        }
        i += 1;
    }
    proof {
        lemma_first_where_none(future_types@, task_future_test(task_name@));
    }
    Err(ModelError::PoolFutureType)
}

fn is_holder(info: &DebugInfo, var: &Variable) -> (yes: bool)
    ensures
        yes == is_pool_holder(info, *var),
{
    let named = match &var.name {
        Some(name) => same_text(name.as_str(), "POOL"),
        None => false,
    };
    if !named {
        return false;
    }
    match info.type_at(var.ty) {
        Some(TypeKind::Struct(st)) => match &st.name {
            Some(name) => starts_with(name.as_str(), "TaskPoolHolder"),
            None => false,
        },
        _ => false,
    }
}

impl TaskPool {
    /// The task pool that the variable `var` holds; none where the
    /// variable holds no task pool.
    pub fn from_var(
        var: &Variable,
        future_types: &FutureTypes,
        header_layout: &HeaderLayout,
        info: &DebugInfo,
    ) -> (found: Result<Option<TaskPool>, ModelError>)
        requires
            layouts_wf(future_types@),
        ensures
            match found {
                Ok(Some(pool)) => pool_of_var(info, *var, future_types@, *header_layout) == Ok::<
                    Option<TaskPoolView>,
                    ModelError,
                >(Some(pool@)) && pool@.wf(),
                Ok(None) => pool_of_var(info, *var, future_types@, *header_layout) == Ok::<
                    Option<TaskPoolView>,
                    ModelError,
                >(None),
                Err(e) => pool_of_var(info, *var, future_types@, *header_layout) == Err::<
                    Option<TaskPoolView>,
                    ModelError,
                >(e),
            },
    {
        if !is_holder(info, var) {
            return Ok(None);
        }
        let namespace = &var.namespace;
        let n = namespace.len();
        if n == 0 {
            return Err(ModelError::PoolWithoutNamespace);
        }
        // The namespace of the pool is named like the task function, so the
        // path of the namespace is the path of the task.
        let mut path: Vec<char> = Vec::new();
        push_path(&mut path, namespace, n);
        if n == 1 {
            return Err(ModelError::PoolNamespaceParent);
        }
        let mut task_name: Vec<char> = Vec::new();
        push_path(&mut task_name, namespace, n - 1);
        push_text(&mut task_name, "::__");
        match &namespace[n - 1] {
            None => {
                return Err(ModelError::PoolNamespaceName);
            },
            Some(name) => push_text(&mut task_name, name.as_str()),
        }
        push_text(&mut task_name, "_task");
        proof {
            assert(namespace@.take(n as int) == namespace@);
            assert(namespace@.take(n - 1) == namespace@.drop_last());
            assert(path@ == path_text(namespace@));
            assert(task_name@ == task_name_of(namespace@));
        }
        let task_name = string_of(&task_name);
        let address = match var.address {
            None => {
                return Err(ModelError::PoolWithoutAddress);
            },
            Some(address) => address,
        };
        let size = match var.byte_size {
            None => {
                return Err(ModelError::PoolWithoutSize);
            },
            Some(size) => size,
        };
        let pool_type = match TaskPool::find_task_pool(task_name.as_str(), info) {
            None => {
                return Err(ModelError::PoolTypeNotFound);
            },
            Some(pool_type) => pool_type,
        };
        let (count, storage) = match find_slots(info, pool_type) {
            Err(e) => {
                return Err(e);
            },
            Ok(found) => found,
        };
        let future_offset = match TaskPool::find_future_offset_task_storage(storage) {
            None => {
                return Err(ModelError::PoolFutureOffset);
            },
            Some(offset) => offset,
        };
        let (base, layout) = match find_task_future(future_types, task_name.as_str()) {
            Err(e) => {
                return Err(e);
            },
            Ok(found) => found,
        };
        if count > usize::MAX as u64 {
            return Err(ModelError::MalformedPool);
        }
        let pool = TaskPool {
            path: string_of(&path),
            address,
            size,
            future_offset,
            number_of_tasks: count as usize,
            async_fn_type: layout.clone(),
            async_fn_base_type: base.clone(),
            header_layout: *header_layout,
        };
        if !pool.is_wf() {
            return Err(ModelError::MalformedPool);
        }
        Ok(Some(pool))
    }
}

} // verus!
