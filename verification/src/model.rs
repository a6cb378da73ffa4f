//! The full model of a program: the layouts of its futures, its task pools
//! and the addresses at which the tasks can be read.
use vstd::prelude::*;
use crate::dwarf::{DebugInfo, TypeKind, Variable};
use crate::error::ModelError;
use crate::future::{
    future_of_type, FutureType, FutureTypeKindView, FutureTypes, FutureTypesView, holds_type, inserted,
};
use crate::safepoint::{find_poll_function_addresses, safepoints_of};
use crate::seqs::{
    first_where, lemma_first_where_at, lemma_first_where_none, lemma_sort_pairs,
    lemma_sorted_pair_known, sort_pairs, sorted_pairs,
};
use crate::task_pool::{
    header_of_info, HeaderLayout, pool_of_var, pool_value, TaskPool, TaskPoolValue, TaskPoolView,
};
use crate::text::same_text;
use crate::ty::{describe_kind, MAX_TYPE_DEPTH, Type};
use crate::value::layouts_wf;

verus! {

/// The full model extracted from the debug data.
#[derive(Debug)]
pub struct DebugData {
    /// Address of the ends of the poll functions.
    ///
    /// Can be more than one because of the use of multiple executors or
    /// inlining.
    pub poll_done_addresses: Vec<u64>,
    pub future_types: FutureTypes,
    /// The task pools, the pool with the biggest future first.
    pub task_pools: Vec<TaskPool>,
}

/// The mathematical value of a [`DebugData`].
pub struct DebugDataView {
    pub poll_done_addresses: Seq<u64>,
    pub future_types: FutureTypesView,
    pub task_pools: Seq<TaskPoolView>,
}

/// The mathematical values of a list of task pools.
pub open spec fn pools_view(pools: Seq<TaskPool>) -> Seq<TaskPoolView> {
    pools.map_values(|p: TaskPool| p@)
}

impl View for DebugData {
    type V = DebugDataView;

    open spec fn view(&self) -> DebugDataView {
        DebugDataView {
            poll_done_addresses: self.poll_done_addresses@,
            future_types: self.future_types@,
            task_pools: pools_view(self.task_pools@),
        }
    }
}

/// The futures of the pools do not grow from one pool to the next.
pub open spec fn biggest_first(pools: Seq<TaskPoolView>) -> bool {
    forall|i: int, j: int|
        0 <= i <= j < pools.len() ==> pools[i].async_fn_type.total_size
            >= pools[j].async_fn_type.total_size
}

impl DebugDataView {
    /// What holds of every model: the layouts of its futures and its task
    /// pools are well formed, and the pool with the biggest future comes
    /// first.
    pub open spec fn wf(self) -> bool {
        &&& layouts_wf(self.future_types)
        &&& forall|i: int| 0 <= i < self.task_pools.len() ==> (#[trigger] self.task_pools[i]).wf()
        &&& biggest_first(self.task_pools)
    }
}

/// Whether a future that was refused for `e` is left out of the model, to
/// be shown as bytes: a select or join future of an unexpected shape.
pub open spec fn is_future_gap(e: ModelError) -> bool {
    e is ArrayField || e is ArrayType || e is ArrayCount || e is ArraySize || e is JoinAwaiteeType
        || e is JoinAwaiteeLayout
}

/// Whether a task pool that was refused for `e` is left out of the model:
/// a pool whose future has no known layout, or whose slots have no room for
/// it.
pub open spec fn is_pool_gap(e: ModelError) -> bool {
    e is PoolFutureType || e is MalformedPool
}

/// The future types after the type record `kind` was taken into account.
pub open spec fn add_future_type(info: &DebugInfo, types: FutureTypesView, kind: TypeKind) -> Result<
    FutureTypesView,
    ModelError,
> {
    match future_of_type(info, kind) {
        Ok(Some(f)) => Ok(inserted(types, describe_kind(info, kind, MAX_TYPE_DEPTH as nat), f)),
        Ok(None) => Ok(types),
        Err(e) => if is_future_gap(e) {
            Ok(types)
        } else {
            Err(e)
        },
    }
}

/// The future types that the type records `kinds` describe, taken one after
/// the other.
pub open spec fn future_types_of(info: &DebugInfo, kinds: Seq<TypeKind>) -> Result<
    FutureTypesView,
    ModelError,
>
    decreases kinds.len(),
{
    if kinds.len() == 0 {
        Ok(Seq::empty())
    } else {
        match future_types_of(info, kinds.drop_last()) {
            Err(e) => Err(e),
            Ok(types) => add_future_type(info, types, kinds.last()),
        }
    }
}

/// The test for a pool with the path `path`.
pub open spec fn has_path(path: Seq<char>) -> spec_fn(TaskPoolView) -> bool {
    |p: TaskPoolView| p.path == path
}

/// The pools `pools` with `pool` added. A pool with the same path gives
/// way to it.
pub open spec fn put_pool(pools: Seq<TaskPoolView>, pool: TaskPoolView) -> Seq<TaskPoolView> {
    match first_where(pools, has_path(pool.path)) {
        Some(i) => pools.update(i, pool),
        None => pools.push(pool),
    }
}

/// The pools after the variable `var` was taken into account.
pub open spec fn add_pool(
    info: &DebugInfo,
    pools: Seq<TaskPoolView>,
    var: Variable,
    types: FutureTypesView,
    header: HeaderLayout,
) -> Result<Seq<TaskPoolView>, ModelError> {
    match pool_of_var(info, var, types, header) {
        Ok(Some(pool)) => Ok(put_pool(pools, pool)),
        Ok(None) => Ok(pools),
        Err(e) => if is_pool_gap(e) {
            Ok(pools)
        } else {
            Err(e)
        },
    }
}

/// The task pools that the variables `vars` hold, taken one after the other.
pub open spec fn pools_of(
    info: &DebugInfo,
    vars: Seq<Variable>,
    types: FutureTypesView,
    header: HeaderLayout,
) -> Result<Seq<TaskPoolView>, ModelError>
    decreases vars.len(),
{
    if vars.len() == 0 {
        Ok(Seq::empty())
    } else {
        match pools_of(info, vars.drop_last(), types, header) {
            Err(e) => Err(e),
            Ok(pools) => add_pool(info, pools, vars.last(), types, header),
        }
    }
}

/// For each pool a key that falls as the size of its future grows,
/// together with its position.
pub open spec fn size_keys(pools: Seq<TaskPoolView>) -> Seq<(u64, usize)> {
    Seq::new(
        pools.len(),
        |i: int| ((u64::MAX - pools[i].async_fn_type.total_size) as u64, i as usize),
    )
}

/// The pools `pools`, the pool with the biggest future first. Pools with
/// futures of the same size keep their order.
pub open spec fn sorted_pools(pools: Seq<TaskPoolView>) -> Seq<TaskPoolView> {
    let order = sort_pairs(size_keys(pools));
    Seq::new(pools.len(), |p: int| pools[order[p].1 as int])
}

/// The model of the program that `info` describes. The layout of the task
/// header and well formed layouts of the futures are needed; futures and
/// pools that cannot be decoded are left out.
pub open spec fn model_of(info: &DebugInfo) -> Result<DebugDataView, ModelError> {
    match future_types_of(info, info.types@) {
        Err(e) => Err(e),
        Ok(future_types) => match header_of_info(info) {
            Err(e) => Err(e),
            Ok(header) => match pools_of(info, info.variables@, future_types, header) {
                Err(e) => Err(e),
                Ok(pools) => Ok(
                    DebugDataView {
                        poll_done_addresses: safepoints_of(info),
                        future_types,
                        task_pools: sorted_pools(pools),
                    },
                ),
            },
        },
    }
}

proof fn lemma_future_types_fails(info: &DebugInfo, kinds: Seq<TypeKind>, n: int)
    requires
        0 <= n <= kinds.len(),
        future_types_of(info, kinds.take(n)) is Err,
    ensures
        future_types_of(info, kinds) == future_types_of(info, kinds.take(n)),
    decreases kinds.len() - n,
{
    if n < kinds.len() {
        assert(kinds.take(n + 1).drop_last() == kinds.take(n));
        lemma_future_types_fails(info, kinds, n + 1);
    } else {
        assert(kinds.take(n) == kinds);
    }
}

proof fn lemma_pools_fails(
    info: &DebugInfo,
    vars: Seq<Variable>,
    types: FutureTypesView,
    header: HeaderLayout,
    n: int,
)
    requires
        0 <= n <= vars.len(),
        pools_of(info, vars.take(n), types, header) is Err,
    ensures
        pools_of(info, vars, types, header) == pools_of(info, vars.take(n), types, header),
    decreases vars.len() - n,
{
    if n < vars.len() {
        assert(vars.take(n + 1).drop_last() == vars.take(n));
        lemma_pools_fails(info, vars, types, header, n + 1);
    } else {
        assert(vars.take(n) == vars);
    }
}

/// Setting the layout of a type keeps the layouts well formed.
pub proof fn lemma_inserted_wf(
    types: FutureTypesView,
    ty: crate::ty::TypeView,
    f: FutureTypeKindView,
)
    requires
        layouts_wf(types),
        f is AsyncFn ==> f->AsyncFn_0.wf(),
    ensures
        layouts_wf(inserted(types, ty, f)),
{
    let after = inserted(types, ty, f);
    crate::seqs::lemma_first_where_holds(types, holds_type(ty));
    assert forall|i: int|
        0 <= i < after.len() && (#[trigger] after[i]).1 is AsyncFn implies after[i].1->AsyncFn_0.wf() by {
        if after[i] != (ty, f) {
            assert(after[i] == types[i]);
        }
    }
}

fn is_gap_of_future(e: ModelError) -> (yes: bool)
    ensures
        yes == is_future_gap(e),
{
    match e {
        ModelError::ArrayField => true,
        ModelError::ArrayType => true,
        ModelError::ArrayCount => true,
        ModelError::ArraySize => true,
        ModelError::JoinAwaiteeType => true,
        ModelError::JoinAwaiteeLayout => true,
        _ => false,
    }
}

fn is_gap_of_pool(e: ModelError) -> (yes: bool)
    ensures
        yes == is_pool_gap(e),
{
    match e {
        ModelError::PoolFutureType => true,
        ModelError::MalformedPool => true,
        _ => false,
    }
}

/// The future types that the type records of `info` describe. A select or
/// join future of an unexpected shape is left out.
pub fn gather_future_types(info: &DebugInfo) -> (found: Result<FutureTypes, ModelError>)
    ensures
        match found {
            Ok(types) => future_types_of(info, info.types@) == Ok::<FutureTypesView, ModelError>(
                types@,
            ) && layouts_wf(types@),
            Err(e) => future_types_of(info, info.types@) == Err::<FutureTypesView, ModelError>(e),
        },
{
    let mut types = FutureTypes::new();
    let mut i: usize = 0;
    while i < info.types.len()
        invariant
            i <= info.types.len(),
            layouts_wf(types@),
            future_types_of(info, info.types@.take(i as int)) == Ok::<FutureTypesView, ModelError>(
                types@,
            ),
        decreases info.types.len() - i,
    {
        proof {
            assert(info.types@.take(i as int + 1).drop_last() == info.types@.take(i as int));
        }
        let kind = &info.types[i];
        match FutureType::from_type(info, kind) {
            Ok(Some(future)) => {
                proof {
                    lemma_inserted_wf(
                        types@,
                        describe_kind(info, *kind, MAX_TYPE_DEPTH as nat),
                        future@,
                    );
                }
                types.insert(Type::from_kind(info, kind), future);
            },
            Ok(None) => {},
            Err(e) => {
                if !is_gap_of_future(e) {
                    proof {
                        lemma_future_types_fails(info, info.types@, i as int + 1);
                    }
                    return Err(e);
                }
            },
        }
        i += 1;
    }
    proof {
        assert(info.types@.take(info.types.len() as int) == info.types@);
    }
    Ok(types)
}

fn put(pools: &mut Vec<TaskPool>, pool: TaskPool)
    requires
        pool@.wf(),
        forall|i: int| 0 <= i < old(pools).len() ==> (#[trigger] old(pools)@[i]@).wf(),
    ensures
        pools_view(final(pools)@) == put_pool(pools_view(old(pools)@), pool@),
        forall|i: int| 0 <= i < final(pools).len() ==> (#[trigger] final(pools)@[i]@).wf(),
{
    let ghost before = pools_view(pools@);
    let mut i: usize = 0;
    while i < pools.len()
        invariant
            i <= pools.len(),
            pools@ == old(pools)@,
            pool@.wf(),
            forall|k: int| 0 <= k < pools.len() ==> (#[trigger] pools@[k]@).wf(),
            forall|j: int| 0 <= j < i ==> before[j].path != pool@.path,
            before == pools_view(pools@),
        decreases pools.len() - i,
    {
        if same_text(pools[i].path.as_str(), pool.path.as_str()) {
            proof {
                lemma_first_where_at(before, has_path(pool@.path), i as int);
            }
            pools.set(i, pool);
            proof {
                assert(pools_view(pools@) =~= before.update(i as int, pool@));
            }
            return ;
        }
        i += 1;
    }
    proof {
        lemma_first_where_none(before, has_path(pool@.path));
    }
    pools.push(pool);
    proof {
        assert(pools_view(pools@) =~= before.push(pool@));
    }
}

fn gather_pools(info: &DebugInfo, future_types: &FutureTypes, header: &HeaderLayout) -> (found:
    Result<Vec<TaskPool>, ModelError>)
    requires
        layouts_wf(future_types@),
    ensures
        match found {
            Ok(pools) => pools_of(info, info.variables@, future_types@, *header) == Ok::<
                Seq<TaskPoolView>,
                ModelError,
            >(pools_view(pools@)) && forall|i: int|
                0 <= i < pools.len() ==> (#[trigger] pools@[i]@).wf(),
            Err(e) => pools_of(info, info.variables@, future_types@, *header) == Err::<
                Seq<TaskPoolView>,
                ModelError,
            >(e),
        },
{
    let mut pools: Vec<TaskPool> = Vec::new();
    let mut i: usize = 0;
    proof {
        assert(pools_view(pools@) =~= Seq::<TaskPoolView>::empty());
    }
    while i < info.variables.len()
        invariant
            i <= info.variables.len(),
            layouts_wf(future_types@),
            forall|k: int| 0 <= k < pools.len() ==> (#[trigger] pools@[k]@).wf(),
            pools_of(info, info.variables@.take(i as int), future_types@, *header) == Ok::<
                Seq<TaskPoolView>,
                ModelError,
            >(pools_view(pools@)),
        decreases info.variables.len() - i,
    {
        proof {
            assert(info.variables@.take(i as int + 1).drop_last() == info.variables@.take(
                i as int,
            ));
        }
        match TaskPool::from_var(&info.variables[i], future_types, header, info) {
            Ok(Some(pool)) => {
                put(&mut pools, pool);
            },
            Ok(None) => {},
            Err(e) => {
                if !is_gap_of_pool(e) {
                    proof {
                        lemma_pools_fails(
                            info,
                            info.variables@,
                            future_types@,
                            *header,
                            i as int + 1,
                        );
                    }
                    return Err(e);
                }
            },
        }
        i += 1;
    }
    proof {
        assert(info.variables@.take(info.variables.len() as int) == info.variables@);
    }
    Ok(pools)
}

/// Sorting puts the pool with the biggest future first, and keeps every
/// pool.
pub proof fn lemma_sorted_pools(pools: Seq<TaskPoolView>)
    requires
        pools.len() <= usize::MAX,
    ensures
        biggest_first(sorted_pools(pools)),
        sorted_pools(pools).len() == pools.len(),
        forall|p: int|
            0 <= p < pools.len() ==> pools.contains(#[trigger] sorted_pools(pools)[p]),
{
    broadcast use vstd::seq_lib::group_to_multiset_ensures;

    let keys = size_keys(pools);
    let order = sort_pairs(keys);
    lemma_sort_pairs(keys);
    let sorted = sorted_pools(pools);
    assert forall|p: int| 0 <= p < pools.len() implies 0 <= (#[trigger] order[p]).1 < pools.len()
        && order[p].0 == u64::MAX - pools[order[p].1 as int].async_fn_type.total_size by {
        assert(order.contains(order[p]));
        assert(order.to_multiset().count(order[p]) > 0);
        assert(keys.contains(order[p]));
        let k = choose|k: int| 0 <= k < keys.len() && keys[k] == order[p];
        assert(order[p].1 == k);
    }
    assert forall|i: int, j: int| 0 <= i <= j < sorted.len() implies sorted[i].async_fn_type.total_size
        >= sorted[j].async_fn_type.total_size by {
        assert(order[i].0 <= order[j].0);
    }
    assert forall|p: int| 0 <= p < pools.len() implies pools.contains(
        #[trigger] sorted_pools(pools)[p],
    ) by {
        assert(sorted[p] == pools[order[p].1 as int]);
    }
}

fn sort_pools(pools: Vec<TaskPool>) -> (sorted: Vec<TaskPool>)
    ensures
        pools_view(sorted@) == sorted_pools(pools_view(pools@)),
{
    let ghost before = pools_view(pools@);
    let n = pools.len();
    let mut keys: Vec<(u64, usize)> = Vec::new();
    let mut i: usize = 0;
    while i < n
        invariant
            i <= n,
            n == pools.len(),
            keys.len() == i,
            forall|k: int|
                0 <= k < i ==> keys@[k] == (
                    (u64::MAX - pools@[k].async_fn_type.total_size) as u64,
                    k as usize,
                ),
        decreases n - i,
    {
        keys.push((u64::MAX - pools[i].async_fn_type.total_size, i));
        i += 1;
    }
    proof {
        assert(keys@ =~= size_keys(before));
        lemma_sort_pairs(keys@);
    }
    let order = sorted_pairs(&keys);
    let mut sorted: Vec<TaskPool> = Vec::new();
    let mut p: usize = 0;
    while p < n
        invariant
            p <= n,
            n == pools.len(),
            n == keys.len(),
            order@ == sort_pairs(keys@),
            order.len() == n,
            sorted.len() == p,
            before == pools_view(pools@),
            forall|k: int| 0 <= k < n ==> keys@[k].1 == k,
            forall|q: int| 0 <= q < p ==> (#[trigger] sorted@[q])@ == before[order@[q].1 as int],
        decreases n - p,
    {
        proof {
            lemma_sorted_pair_known(keys@, p as int);
            let k = choose|k: int| 0 <= k < keys@.len() && keys@[k] == order@[p as int];
            assert(order@[p as int].1 == k);
        }
        sorted.push(pools[order[p].1].clone());
        p += 1;
    }
    proof {
        assert(pools_view(sorted@) =~= sorted_pools(before));
    }
    sorted
}

proof fn lemma_future_types_wf(info: &DebugInfo, kinds: Seq<TypeKind>)
    requires
        future_types_of(info, kinds) is Ok,
    ensures
        layouts_wf(future_types_of(info, kinds)->Ok_0),
    decreases kinds.len(),
{
    if kinds.len() > 0 {
        lemma_future_types_wf(info, kinds.drop_last());
        let types = future_types_of(info, kinds.drop_last())->Ok_0;
        match future_of_type(info, kinds.last()) {
            Ok(Some(f)) => {
                lemma_inserted_wf(
                    types,
                    describe_kind(info, kinds.last(), MAX_TYPE_DEPTH as nat),
                    f,
                );
            },
            _ => {},
        }
    }
}

proof fn lemma_pools_wf(
    info: &DebugInfo,
    vars: Seq<Variable>,
    types: FutureTypesView,
    header: HeaderLayout,
)
    requires
        pools_of(info, vars, types, header) is Ok,
    ensures
        pools_of(info, vars, types, header)->Ok_0.len() <= vars.len(),
        forall|i: int|
            0 <= i < pools_of(info, vars, types, header)->Ok_0.len() ==> (#[trigger] pools_of(
                info,
                vars,
                types,
                header,
            )->Ok_0[i]).wf(),
    decreases vars.len(),
{
    if vars.len() > 0 {
        lemma_pools_wf(info, vars.drop_last(), types, header);
        let pools = pools_of(info, vars.drop_last(), types, header)->Ok_0;
        match pool_of_var(info, vars.last(), types, header) {
            Ok(Some(pool)) => {
                assert(pool.wf());
                match first_where(pools, has_path(pool.path)) {
                    Some(i) => {
                        assert(crate::seqs::is_first_where(pools, has_path(pool.path), i));
                    },
                    None => {},
                }
            },
            _ => {},
        }
    }
}

/// Every model that is built from debug information is well formed.
pub proof fn lemma_model_wf(info: &DebugInfo)
    requires
        model_of(info) is Ok,
    ensures
        model_of(info)->Ok_0.wf(),
{
    assert(info.variables.len() == info.variables@.len());
    lemma_future_types_wf(info, info.types@);
    let types = future_types_of(info, info.types@)->Ok_0;
    let header = header_of_info(info)->Ok_0;
    lemma_pools_wf(info, info.variables@, types, header);
    let pools = pools_of(info, info.variables@, types, header)->Ok_0;
    lemma_sorted_pools(pools);
    let sorted = sorted_pools(pools);
    assert forall|i: int| 0 <= i < sorted.len() implies (#[trigger] sorted[i]).wf() by {
        assert(pools.contains(sorted[i]));
    }
}

impl DebugData {
    /// Builds the model of the program that `info` describes.
    pub fn from_debug_info(info: &DebugInfo) -> (found: Result<DebugData, ModelError>)
        ensures
            match found {
                Ok(data) => model_of(info) == Ok::<DebugDataView, ModelError>(data@) && data@.wf(),
                Err(e) => model_of(info) == Err::<DebugDataView, ModelError>(e),
            },
    {
        let future_types = match gather_future_types(info) {
            Err(e) => {
                return Err(e);
            },
            Ok(types) => types,
        };
        let header_layout = match HeaderLayout::from_data(info) {
            Err(e) => {
                return Err(e);
            },
            Ok(header) => header,
        };
        let pools = match gather_pools(info, &future_types, &header_layout) {
            Err(e) => {
                return Err(e);
            },
            Ok(pools) => pools,
        };
        let ghost unsorted = pools_view(pools@);
        let ghost gathered = pools@;
        assert(unsorted.len() == pools.len());
        let task_pools = sort_pools(pools);
        let poll_done_addresses = find_poll_function_addresses(info);
        let data = DebugData { poll_done_addresses, task_pools, future_types };
        proof {
            lemma_sorted_pools(unsorted);
            assert forall|i: int| 0 <= i < data@.task_pools.len() implies (
            #[trigger] data@.task_pools[i]).wf() by {
                assert(unsorted.contains(data@.task_pools[i]));
                let k = choose|k: int| 0 <= k < unsorted.len() && unsorted[k] == data@.task_pools[i];
                assert(unsorted[k] == gathered[k]@);
            }
        }
        Ok(data)
    }

    /// Decodes the tasks of the pool `task_pool` from the bytes of the
    /// whole pool.
    pub fn get_taskpool_value(&self, task_pool: &TaskPool, bytes: &[u8]) -> (value: TaskPoolValue)
        requires
            self@.wf(),
            task_pool@.wf(),
            task_pool.number_of_tasks > 0 ==> bytes@.len() == task_pool.size,
        ensures
            value@ == pool_value(self@.future_types, task_pool@, bytes@),
    {
        TaskPoolValue::new(task_pool, bytes, &self.future_types)
    }
}

} // verus!
