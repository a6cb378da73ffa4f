//! What holds of the layouts, of the decoded values and of the cache,
//! whatever the program and whatever the bytes of the target.
use vstd::prelude::*;
use crate::async_fn::{
    ids_of, layout_of_struct, new_id, offsets_of, resorted, resorted_state, sorted_layout,
    unsorted_layout, LayoutView,
};
use crate::cache::{cached, CacheEntryView, has_key};
use crate::dwarf::{DebugInfo, StructType};
use crate::future::{FutureTypesView, layout_of};
use crate::inspector::{
    is_read, plan_of, resume_calls, snapshot_calls, snapshot_of, snapshot_step, Call, Event,
};
use crate::model::{DebugDataView, model_of};
use crate::seqs::{
    equals, is_first_where, lemma_first_where_at, lemma_sort_pairs, lemma_sort_rising,
    lemma_sorted_pair_known, sort_pairs,
};
use crate::task_pool::{pool_value, TaskPoolView};
use crate::ty::TypeView;
use crate::value::{future_value, FutureValueKindView, FutureValueView};

verus! {

/// The position in the members of `l` that the state `s` refers to in the
/// `k`-th place.
pub open spec fn active_member(l: LayoutView, s: int, k: int) -> int {
    l.states[s].active_members[k] as int
}

/// Every member that a state of `l` refers to exists and lies within the
/// future.
pub open spec fn active_members_fit(l: LayoutView) -> bool {
    forall|s: int, k: int|
        0 <= s < l.states.len() && 0 <= k < l.states[s].active_members.len() ==> {
            &&& 0 <= #[trigger] active_member(l, s, k) < l.members.len()
            &&& l.members[active_member(l, s, k)].offset + l.members[active_member(l, s, k)].size
                <= l.total_size
        }
}

/// In every well formed layout the members are sorted by offset, every
/// member that a state refers to exists and lies within the future, and no
/// two states have the same discriminant value.
pub proof fn law_well_formed_layout(l: LayoutView)
    requires
        l.wf(),
    ensures
        l.sorted(),
        active_members_fit(l),
        l.distinct_discriminants(),
{
    assert forall|s: int, k: int|
        0 <= s < l.states.len() && 0 <= k < l.states[s].active_members.len() implies {
        &&& 0 <= #[trigger] active_member(l, s, k) < l.members.len()
        &&& l.members[active_member(l, s, k)].offset + l.members[active_member(l, s, k)].size
            <= l.total_size
    } by {
        assert(l.states[s].fits(l.members.len(), l.total_size));
        assert(l.members[active_member(l, s, k)].within(l.total_size));
    }
}

/// Every layout that is built for a structure of the debug information is
/// well formed.
pub proof fn law_layouts_are_well_formed(info: &DebugInfo, st: StructType)
    requires
        layout_of_struct(info, st) is Ok,
    ensures
        layout_of_struct(info, st)->Ok_0.wf(),
{
}

/// Every model that is built from debug information is well formed: so
/// are the layouts of its futures and its task pools, and the pool with
/// the biggest future comes first.
pub proof fn law_models_are_well_formed(info: &DebugInfo)
    requires
        model_of(info) is Ok,
    ensures
        model_of(info)->Ok_0.wf(),
{
    crate::model::lemma_model_wf(info);
}

/// Sorting the members of a layout by offset gives members whose offsets do
/// not fall, keeps their number, and brings in no member that was not there.
pub proof fn law_sorting_sorts(l: LayoutView)
    requires
        l.members.len() <= usize::MAX,
    ensures
        sorted_layout(l).sorted(),
        sorted_layout(l).members.len() == l.members.len(),
        forall|p: int|
            0 <= p < l.members.len() ==> l.members.contains(#[trigger] sorted_layout(l).members[p]),
        sorted_layout(l).states.len() == l.states.len(),
        sorted_layout(l).total_size == l.total_size,
        sorted_layout(l).state_member == l.state_member,
{
    let keys = offsets_of(l.members);
    let order = sort_pairs(keys);
    lemma_sort_pairs(keys);
    let sorted = sorted_layout(l).members;
    assert forall|p: int| 0 <= p < l.members.len() implies 0 <= (#[trigger] order[p]).1
        < l.members.len() && order[p].0 == l.members[order[p].1 as int].offset by {
        lemma_sorted_pair_known(keys, p);
        let k = choose|k: int| 0 <= k < keys.len() && keys[k] == order[p];
        assert(order[p].1 == k);
    }
    assert forall|i: int, j: int| 0 <= i <= j < sorted.len() implies sorted[i].offset
        <= sorted[j].offset by {
        assert(order[i].0 <= order[j].0);
    }
    assert forall|p: int| 0 <= p < l.members.len() implies l.members.contains(
        #[trigger] sorted_layout(l).members[p],
    ) by {
        assert(sorted[p] == l.members[order[p].1 as int]);
    }
}

/// The layout that is gathered for the structure `st` and sorted, before
/// it is looked at whether it is well formed.
pub open spec fn gathered_layout(info: &DebugInfo, st: StructType) -> LayoutView {
    sorted_layout(unsorted_layout(info, st)->Ok_0)
}

/// Whatever the debug information says of a future, the states of its
/// layout refer to members that exist, by positions that rise: a layout is
/// refused only for where its members and its discriminant lie, or for
/// states that share a discriminant value.
pub proof fn law_states_refer_to_members(info: &DebugInfo, st: StructType, s: int)
    requires
        unsorted_layout(info, st) is Ok,
        unsorted_layout(info, st)->Ok_0.members.len() <= usize::MAX,
        0 <= s < gathered_layout(info, st).states.len(),
    ensures
        forall|i: int|
            0 <= i < gathered_layout(info, st).states[s].active_members.len() ==> (
            #[trigger] gathered_layout(info, st).states[s].active_members[i]) < gathered_layout(
                info,
                st,
            ).members.len(),
        forall|i: int, j: int|
            0 <= i < j < gathered_layout(info, st).states[s].active_members.len()
                ==> gathered_layout(info, st).states[s].active_members[i] < gathered_layout(
                info,
                st,
            ).states[s].active_members[j],
{
    let l = unsorted_layout(info, st)->Ok_0;
    crate::async_fn::lemma_gathered_states_refer_to_members(info, st, s);
    crate::async_fn::lemma_resorted_rises(l.members, l.states[s].active_members);
}

/// Sorting the members of a well formed layout changes nothing: what was
/// built once stays as it is, however often it is sorted again.
pub proof fn law_sorting_is_stable(l: LayoutView)
    requires
        l.wf(),
        l.members.len() <= usize::MAX,
    ensures
        sorted_layout(l) == l,
{
    let keys = offsets_of(l.members);
    assert(crate::seqs::keys_rise(keys)) by {
        assert forall|i: int, j: int| 0 <= i <= j < keys.len() implies keys[i].0 <= keys[j].0 by {
            assert(l.members[i].offset <= l.members[j].offset);
        }
    }
    lemma_sort_rising(keys);
    let order = sort_pairs(keys);
    let sorted = sorted_layout(l);
    assert(sorted.members =~= l.members);
    let ids = ids_of(order);
    assert forall|k: int| 0 <= k < l.states.len() implies resorted_state(l.states[k], order)
        == l.states[k] by {
        let active = l.states[k].active_members;
        assert(l.states[k].fits(l.members.len(), l.total_size));
        let mapped = active.map_values(|id: usize| (new_id(order, id) as u64, new_id(order, id)));
        assert forall|a: int| 0 <= a < active.len() implies new_id(order, active[a])
            == active[a] by {
            let id = active[a];
            assert(ids[id as int] == id);
            assert(is_first_where(ids, equals(id), id as int));
            lemma_first_where_at(ids, equals(id), id as int);
        }
        assert(crate::seqs::keys_rise(mapped)) by {
            assert forall|i: int, j: int| 0 <= i <= j < mapped.len() implies mapped[i].0
                <= mapped[j].0 by {
                if i < j {
                    assert(active[i] < active[j]);
                }
            }
        }
        lemma_sort_rising(mapped);
        assert(resorted(active, order) =~= active);
    }
    assert(sorted.states =~= l.states);
}

/// The same debug information gives the same model: the same members in the
/// same order, the same states, the same future types, the same task pools
/// and the same safepoints.
pub proof fn law_model_is_stable(first: &DebugInfo, second: &DebugInfo)
    requires
        *first == *second,
    ensures
        model_of(first) == model_of(second),
{
}

/// The same bytes decoded twice against the same layouts give the same
/// value.
pub proof fn law_decoding_is_repeatable(
    types: FutureTypesView,
    ty: TypeView,
    once: Seq<u8>,
    again: Seq<u8>,
    depth: nat,
)
    requires
        once =~= again,
    ensures
        future_value(types, ty, once, depth) == future_value(types, ty, again, depth),
{
}

/// Two snapshots of a target whose memory has not changed hold the same
/// values.
pub proof fn law_snapshot_is_repeatable(
    data: DebugDataView,
    once: Seq<Option<Seq<u8>>>,
    again: Seq<Option<Seq<u8>>>,
)
    requires
        once =~= again,
    ensures
        snapshot_of(data, once) == snapshot_of(data, again),
{
}

/// A task pool with slots is filled by its slots exactly, and every slot
/// has room for the future behind the future offset.
pub proof fn law_pool_slots(pool: TaskPoolView)
    requires
        pool.wf(),
        pool.number_of_tasks > 0,
    ensures
        pool.size == pool.number_of_tasks * pool.slot_size(),
        pool.future_offset + pool.async_fn_type.total_size <= pool.slot_size(),
{
}

/// A task pool without slots has no tasks, whatever its bytes, and its
/// memory is not read for a snapshot.
pub proof fn law_pool_without_slots(
    data: DebugDataView,
    i: int,
    bytes: Seq<u8>,
    read: Option<Seq<u8>>,
)
    requires
        0 <= i < data.task_pools.len(),
        data.task_pools[i].number_of_tasks == 0,
    ensures
        pool_value(data.future_types, data.task_pools[i], bytes).task_values
            == Seq::<crate::task_pool::TaskValueView>::empty(),
        !is_read(data.task_pools[i]),
        snapshot_step(data, i, read) == snapshot_step(data, i, None),
        snapshot_step(data, i, read) is Some,
{
    assert(pool_value(data.future_types, data.task_pools[i], bytes).task_values =~= Seq::<
        crate::task_pool::TaskValueView,
    >::empty());
    assert(pool_value(data.future_types, data.task_pools[i], bytes).task_values =~= pool_value(
        data.future_types,
        data.task_pools[i],
        Seq::empty(),
    ).task_values);
}

/// For a snapshot nothing but memory is asked of the backend, and only the
/// memory of pools with slots: each one whole, in a single read.
pub proof fn law_snapshot_reads_pools_with_slots(
    data: DebugDataView,
    reads: Seq<Option<Seq<u8>>>,
    n: int,
    k: int,
)
    requires
        0 <= n <= data.task_pools.len(),
        0 <= k < snapshot_calls(data, reads, n).len(),
    ensures
        exists|i: int|
            0 <= i < n && is_read(#[trigger] data.task_pools[i]) && snapshot_calls(
                data,
                reads,
                n,
            )[k] == (Call::ReadMemory {
                addr: data.task_pools[i].address,
                len: data.task_pools[i].size,
                read: reads[i],
            }),
    decreases n,
{
    if n > 0 {
        let before = snapshot_calls(data, reads, n - 1);
        if k < before.len() {
            law_snapshot_reads_pools_with_slots(data, reads, n - 1, k);
            let i = choose|i: int|
                0 <= i < n - 1 && is_read(#[trigger] data.task_pools[i]) && before[k] == (
                Call::ReadMemory {
                    addr: data.task_pools[i].address,
                    len: data.task_pools[i].size,
                    read: reads[i],
                });
            assert(is_read(data.task_pools[i]));
        } else {
            assert(is_read(data.task_pools[n - 1]));
        }
    }
}

/// Nothing is asked of the backend for a snapshot of pools without slots.
pub proof fn law_no_read_without_slots(data: DebugDataView, reads: Seq<Option<Seq<u8>>>, n: int)
    requires
        0 <= n <= data.task_pools.len(),
        forall|i: int| 0 <= i < n ==> (#[trigger] data.task_pools[i]).number_of_tasks == 0,
    ensures
        snapshot_calls(data, reads, n) == Seq::<Call>::empty(),
    decreases n,
{
    if n > 0 {
        law_no_read_without_slots(data, reads, n - 1);
        assert(!is_read(data.task_pools[n - 1]));
    }
}

/// When the screen is to be drawn again, or when the user clicks or
/// scrolls, no snapshot is taken and the target is not resumed: nothing is
/// asked of the backend.
pub proof fn law_quiet_events(ids: Seq<u64>, event: Event, done: bool)
    requires
        event is Redraw || event is Click || event is Scroll,
    ensures
        !plan_of(ids, event).snapshot,
        !plan_of(ids, event).resume,
        resume_calls(plan_of(ids, event), done) == Seq::<Call>::empty(),
{
}

/// A snapshot is taken whenever the target has stopped, and the target is
/// resumed if and only if it stopped at a breakpoint of the inspector.
pub proof fn law_resume_from_own_breakpoints(ids: Seq<u64>, event: Event)
    ensures
        plan_of(ids, event).snapshot <==> (event is Breakpoint || event is Stopped),
        plan_of(ids, event).resume <==> (event is Breakpoint && ids.contains(event->Breakpoint_0)),
{
}

/// A future whose type has no known layout is kept as bytes, at every
/// depth.
pub proof fn law_unknown_type_is_opaque(
    types: FutureTypesView,
    ty: TypeView,
    bytes: Seq<u8>,
    depth: nat,
)
    requires
        layout_of(types, ty) is None,
    ensures
        future_value(types, ty, bytes, depth) == (FutureValueView {
            ty,
            kind: FutureValueKindView::Unknown(bytes),
        }),
{
}

/// A member with the same name, type, offset and size is gathered once for
/// a future, in however many of its states the debug information names it.
pub proof fn law_members_are_found_once(info: &DebugInfo, st: StructType)
    requires
        unsorted_layout(info, st) is Ok,
    ensures
        unsorted_layout(info, st)->Ok_0.members.no_duplicates(),
{
    crate::async_fn::lemma_gathered_members_distinct(info, st);
}

/// Sorting members that are pairwise distinct gives members that are
/// pairwise distinct.
pub proof fn law_sorting_keeps_members_apart(l: LayoutView)
    requires
        l.members.no_duplicates(),
        l.members.len() <= usize::MAX,
    ensures
        sorted_layout(l).members.no_duplicates(),
{
    crate::async_fn::lemma_sorted_members_distinct(l);
}

/// What is done to a cache: it is emptied when a snapshot is taken, and a
/// formatted value is added when a value was formatted.
pub enum CacheOp {
    Clear,
    Insert(CacheEntryView),
}

/// The cache after the operations `ops`, starting from an empty cache.
pub open spec fn replay(ops: Seq<CacheOp>) -> Seq<CacheEntryView>
    decreases ops.len(),
{
    if ops.len() == 0 {
        Seq::empty()
    } else {
        match ops.last() {
            CacheOp::Clear => Seq::empty(),
            CacheOp::Insert(entry) => replay(ops.drop_last()).push(entry),
        }
    }
}

/// Whether the operation at position `i` added a value for the bytes
/// `bytes` of the type `ty`, and the cache was not emptied since.
pub open spec fn inserted_since_clear(ops: Seq<CacheOp>, bytes: Seq<u8>, ty: TypeView, i: int) -> bool {
    &&& 0 <= i < ops.len()
    &&& ops[i] is Insert
    &&& ops[i]->Insert_0.bytes == bytes
    &&& ops[i]->Insert_0.ty == ty
    &&& forall|j: int| i < j < ops.len() ==> !(#[trigger] ops[j] is Clear)
}

/// The cache answers for bytes and a type only if a value was added for
/// them since the last snapshot was taken.
pub proof fn law_cache_hit_was_inserted(ops: Seq<CacheOp>, bytes: Seq<u8>, ty: TypeView)
    requires
        cached(replay(ops), bytes, ty) is Some,
    ensures
        exists|i: int| inserted_since_clear(ops, bytes, ty, i),
    decreases ops.len(),
{
    let cache = replay(ops);
    let p = choose|p: int| is_first_where(cache, has_key(bytes, ty), p);
    assert(is_first_where(cache, has_key(bytes, ty), p));
    match ops.last() {
        CacheOp::Clear => {},
        CacheOp::Insert(entry) => {
            let before = replay(ops.drop_last());
            if p < before.len() {
                assert(before[p] == cache[p]);
                crate::seqs::lemma_has_first_where(before, has_key(bytes, ty), p);
                law_cache_hit_was_inserted(ops.drop_last(), bytes, ty);
                let i = choose|i: int| inserted_since_clear(ops.drop_last(), bytes, ty, i);
                assert(inserted_since_clear(ops, bytes, ty, i)) by {
                    assert forall|j: int| i < j < ops.len() implies !(#[trigger] ops[j] is Clear) by {
                        if j < ops.len() - 1 {
                            assert(ops.drop_last()[j] == ops[j]);
                        }
                    }
                }
            } else {
                assert(inserted_since_clear(ops, bytes, ty, ops.len() - 1));
            }
        },
    }
}

} // verus!
