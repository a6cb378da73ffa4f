//! Where the executor has polled every task that was ready: the addresses
//! at which the memory of the tasks can be read in a coherent state.
use vstd::prelude::*;
use crate::dwarf::{
    DebugInfo, Function, FunctionId, InlinedFunction, namespace_to_path, path_text, Range,
};
use crate::seqs::{first_where, lemma_first_where_at, lemma_first_where_none};
use crate::text::{contains, ends_with, has_infix, has_suffix, same_text, starts_with};

verus! {

/// The number of bytes that the instruction takes with which the poll
/// function of the executor returns, on the targets that are supported.
pub const RETURN_WINDOW: u64 = 4;

/// The mathematical value of a name that may be missing.
pub open spec fn name_view(name: Option<String>) -> Option<Seq<char>> {
    match name {
        Some(n) => Some(n@),
        None => None,
    }
}

/// The mathematical value of a namespace.
pub open spec fn namespace_view(namespace: Seq<Option<String>>) -> Seq<Option<Seq<char>>> {
    namespace.map_values(|n: Option<String>| name_view(n))
}

/// Two functions are the same if they have the same namespace and the same
/// name.
pub open spec fn same_function(a: FunctionId, b: FunctionId) -> bool {
    namespace_view(a.namespace@) == namespace_view(b.namespace@) && name_view(a.name) == name_view(
        b.name,
    )
}

/// Whether `function` is the closure of the poll function of the executor:
/// a closure of `SyncExecutor` in a namespace `embassy_executor::raw..poll`.
pub open spec fn is_poll_closure(function: Function) -> bool {
    &&& function.id.name is Some
    &&& has_infix(function.id.name->0@, "{closure"@)
    &&& function.linkage_name is Some
    &&& has_infix(function.linkage_name->0@, "SyncExecutor"@)
    &&& function.id.namespace@.len() > 0
    &&& "embassy_executor::raw"@.is_prefix_of(path_text(function.id.namespace@))
    &&& has_suffix(path_text(function.id.namespace@), "poll"@)
}

/// Whether the search for the poll function ends at `function`: it is the
/// poll closure and either has a single range of addresses or was inlined.
pub open spec fn ends_search(function: Function) -> bool {
    is_poll_closure(function) && (function.ranges@.len() == 1 || function.inline)
}

/// The test for [`ends_search`].
pub open spec fn ends_search_test() -> spec_fn(Function) -> bool {
    |f: Function| ends_search(f)
}

/// The ends of the ranges `ranges`, but for the ranges that begin at zero.
pub open spec fn range_ends(ranges: Seq<Range>) -> Seq<u64>
    decreases ranges.len(),
{
    if ranges.len() == 0 {
        Seq::empty()
    } else if ranges.last().begin == 0 {
        range_ends(ranges.drop_last())
    } else {
        range_ends(ranges.drop_last()).push(ranges.last().end)
    }
}

/// The sequences of `parts`, one behind the other.
pub open spec fn concat_all(parts: Seq<Seq<u64>>) -> Seq<u64>
    decreases parts.len(),
{
    if parts.len() == 0 {
        Seq::empty()
    } else {
        concat_all(parts.drop_last()) + parts.last()
    }
}

/// For each inlined function of `list` the addresses found in it.
pub open spec fn inlined_ends_each(list: Seq<InlinedFunction>, id: FunctionId) -> Seq<Seq<u64>>
    decreases list,
{
    Seq::new(
        list.len(),
        |i: int|
            if 0 <= i < list.len() {
                inlined_ends(list[i], id)
            } else {
                Seq::empty()
            },
    )
}

/// The addresses at which the function `id` ends where it was inlined into
/// `inlined`, or into a function inlined into it: the ends of the ranges of
/// every inlined instance of `id`, but for the ranges that begin at zero.
pub open spec fn inlined_ends(inlined: InlinedFunction, id: FunctionId) -> Seq<u64>
    decreases inlined,
{
    (if inlined.origin is Some && same_function(inlined.origin->0, id) {
        range_ends(inlined.ranges@)
    } else {
        Seq::empty()
    }) + concat_all(inlined_ends_each(inlined.inlined@, id))
}

/// For each function of `functions` the addresses found in its inlined
/// functions.
pub open spec fn function_ends_each(functions: Seq<Function>, id: FunctionId) -> Seq<Seq<u64>> {
    Seq::new(
        functions.len(),
        |i: int| concat_all(inlined_ends_each(functions[i].inlined@, id)),
    )
}

/// The addresses at which the tasks can be read. Where the poll closure of
/// the executor has a single range, the address of the instruction that
/// ends it; where it was inlined, the ends of all of its inlined instances;
/// none where it was not found.
pub open spec fn safepoints_of(info: &DebugInfo) -> Seq<u64> {
    match first_where(info.functions@, ends_search_test()) {
        None => Seq::empty(),
        Some(i) => {
            let function = info.functions@[i];
            if function.ranges@.len() == 1 {
                if function.ranges@[0].end >= RETURN_WINDOW {
                    seq![(function.ranges@[0].end - RETURN_WINDOW) as u64]
                } else {
                    Seq::empty()
                }
            } else {
                concat_all(function_ends_each(info.functions@, function.id))
            }
        },
    }
}

fn same_name(a: &Option<String>, b: &Option<String>) -> (eq: bool)
    ensures
        eq == (name_view(*a) == name_view(*b)),
{
    match (a, b) {
        (Some(x), Some(y)) => same_text(x.as_str(), y.as_str()),
        (None, None) => true,
        _ => false,
    }
}

/// Whether two functions have the same namespace and the same name.
pub fn is_same_function(a: &FunctionId, b: &FunctionId) -> (eq: bool)
    ensures
        eq == same_function(*a, *b),
{
    if !same_name(&a.name, &b.name) {
        return false;
    }
    if a.namespace.len() != b.namespace.len() {
        proof {
            assert(namespace_view(a.namespace@).len() != namespace_view(b.namespace@).len());
        }
        return false;
    }
    let mut i: usize = 0;
    while i < a.namespace.len()
        invariant
            i <= a.namespace.len(),
            a.namespace.len() == b.namespace.len(),
            forall|k: int|
                0 <= k < i ==> name_view(a.namespace@[k]) == name_view(b.namespace@[k]),
        decreases a.namespace.len() - i,
    {
        if !same_name(&a.namespace[i], &b.namespace[i]) {
            proof {
                assert(namespace_view(a.namespace@)[i as int] != namespace_view(b.namespace@)[i as int]);
            }
            return false;
        }
        i += 1;
    }
    proof {
        assert(namespace_view(a.namespace@) =~= namespace_view(b.namespace@));
    }
    true
}

fn is_poll(function: &Function) -> (yes: bool)
    ensures
        yes == is_poll_closure(*function),
{
    let named = match &function.id.name {
        Some(name) => contains(name.as_str(), "{closure"),
        None => false,
    };
    let linked = match &function.linkage_name {
        Some(name) => contains(name.as_str(), "SyncExecutor"),
        None => false,
    };
    if !named || !linked || function.id.namespace.len() == 0 {
        return false;
    }
    let namespace = namespace_to_path(&function.id.namespace);
    starts_with(namespace.as_str(), "embassy_executor::raw") && ends_with(
        namespace.as_str(),
        "poll",
    )
}

fn push_range_ends(ranges: &Vec<Range>, found_addresses: &mut Vec<u64>)
    ensures
        final(found_addresses)@ == old(found_addresses)@ + range_ends(ranges@),
{
    let mut i: usize = 0;
    proof {
        assert(old(found_addresses)@ + range_ends(ranges@.take(0)) =~= old(found_addresses)@);
    }
    while i < ranges.len()
        invariant
            i <= ranges.len(),
            found_addresses@ == old(found_addresses)@ + range_ends(ranges@.take(i as int)),
        decreases ranges.len() - i,
    {
        proof {
            assert(ranges@.take(i as int + 1).drop_last() == ranges@.take(i as int));
        }
        // Inlined functions may come with a range that starts at zero,
        // which does not belong to them.
        if ranges[i].begin != 0 {
            found_addresses.push(ranges[i].end);
            proof {
                assert(found_addresses@ =~= old(found_addresses)@ + range_ends(
                    ranges@.take(i as int + 1),
                ));
            }
        }
        i += 1;
    }
    proof {
        assert(ranges@.take(ranges.len() as int) == ranges@);
    }
}

fn find_function_in_list(
    function: &FunctionId,
    list: &Vec<InlinedFunction>,
    found_addresses: &mut Vec<u64>,
)
    ensures
        final(found_addresses)@ == old(found_addresses)@ + concat_all(
            inlined_ends_each(list@, *function),
        ),
    decreases list,
{
    let ghost each = inlined_ends_each(list@, *function);
    let mut i: usize = 0;
    proof {
        assert(old(found_addresses)@ + concat_all(each.take(0)) =~= old(found_addresses)@);
    }
    while i < list.len()
        invariant
            i <= list.len(),
            each == inlined_ends_each(list@, *function),
            found_addresses@ == old(found_addresses)@ + concat_all(each.take(i as int)),
        decreases list.len() - i,
    {
        proof {
            assert(each.take(i as int + 1).drop_last() == each.take(i as int));
            assert(each.take(i as int + 1).last() == inlined_ends(list@[i as int], *function));
        }
        find_function_in_inlined(function, &list[i], found_addresses);
        proof {
            assert(found_addresses@ =~= old(found_addresses)@ + concat_all(
                each.take(i as int + 1),
            ));
        }
        i += 1;
    }
    proof {
        assert(each.take(list.len() as int) == each);
    }
}

/// Looks for all places where `function` was inlined into `inlined_function`
/// or into the functions inlined into it, and adds the address at which each
/// of them ends to `found_addresses`.
pub fn find_function_in_inlined(
    function: &FunctionId,
    inlined_function: &InlinedFunction,
    found_addresses: &mut Vec<u64>,
)
    ensures
        final(found_addresses)@ == old(found_addresses)@ + inlined_ends(
            *inlined_function,
            *function,
        ),
    decreases inlined_function,
{
    let is_origin = match &inlined_function.origin {
        Some(origin) => is_same_function(origin, function),
        None => false,
    };
    if is_origin {
        push_range_ends(&inlined_function.ranges, found_addresses);
    }
    let ghost own = found_addresses@;
    find_function_in_list(function, &inlined_function.inlined, found_addresses);
    proof {
        assert(found_addresses@ =~= old(found_addresses)@ + inlined_ends(
            *inlined_function,
            *function,
        ));
    }
}

/// The addresses at which the tasks can be read in a coherent state.
pub fn find_poll_function_addresses(info: &DebugInfo) -> (addresses: Vec<u64>)
    ensures
        addresses@ == safepoints_of(info),
{
    let mut i: usize = 0;
    let mut poll_function: Option<usize> = None;
    while i < info.functions.len()
        invariant_except_break
            poll_function is None,
            i <= info.functions.len(),
            forall|j: int| 0 <= j < i ==> !ends_search(info.functions@[j]),
        ensures
            match poll_function {
                Some(p) => p < info.functions.len() && first_where(
                    info.functions@,
                    ends_search_test(),
                ) == Some(p as int),
                None => first_where(info.functions@, ends_search_test()) is None,
            },
        decreases info.functions.len() - i,
    {
        let function = &info.functions[i];
        if is_poll(function) && (function.ranges.len() == 1 || function.inline) {
            proof {
                lemma_first_where_at(info.functions@, ends_search_test(), i as int);
            }
            poll_function = Some(i);
            break ;
        }
        i += 1;
        proof {
            if i == info.functions.len() {
                lemma_first_where_none(info.functions@, ends_search_test());
            }
        }
    }
    let p = match poll_function {
        None => {
            proof {
                if info.functions.len() == 0 {
                    lemma_first_where_none(info.functions@, ends_search_test());
                }
            }
            return Vec::new();
        },
        Some(p) => p,
    };
    let function = &info.functions[p];
    let mut addresses: Vec<u64> = Vec::new();
    if function.ranges.len() == 1 {
        if function.ranges[0].end >= RETURN_WINDOW {
            addresses.push(function.ranges[0].end - RETURN_WINDOW);
        }
        proof {
            assert(addresses@ =~= safepoints_of(info));
        }
        return addresses;
    }
    // The poll function was inlined: look in all functions for the places
    // where it ended up.
    let ghost each = function_ends_each(info.functions@, function.id);
    let mut k: usize = 0;
    proof {
        assert(addresses@ =~= concat_all(each.take(0)));
    }
    while k < info.functions.len()
        invariant
            k <= info.functions.len(),
            p < info.functions.len(),
            *function == info.functions@[p as int],
            each == function_ends_each(info.functions@, function.id),
            addresses@ == concat_all(each.take(k as int)),
        decreases info.functions.len() - k,
    {
        proof {
            assert(each.take(k as int + 1).drop_last() == each.take(k as int));
        }
        find_function_in_list(&function.id, &info.functions[k].inlined, &mut addresses);
        k += 1;
    }
    proof {
        assert(each.take(info.functions.len() as int) == each);
    }
    addresses
}

} // verus!
