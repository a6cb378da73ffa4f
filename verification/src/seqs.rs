//! Searching and sorting of sequences.
use vstd::prelude::*;

verus! {

/// Whether `i` is the first position of `s` whose value meets `p`.
pub open spec fn is_first_where<T>(s: Seq<T>, p: spec_fn(T) -> bool, i: int) -> bool {
    &&& 0 <= i < s.len()
    &&& p(s[i])
    &&& forall|j: int| 0 <= j < i ==> !p(s[j])
}

/// The first position of `s` whose value meets `p`.
pub open spec fn first_where<T>(s: Seq<T>, p: spec_fn(T) -> bool) -> Option<int> {
    if exists|i: int| is_first_where(s, p, i) {
        Some(choose|i: int| is_first_where(s, p, i))
    } else {
        None
    }
}

/// The position `i` is the one that [`first_where`] answers with.
pub proof fn lemma_first_where_at<T>(s: Seq<T>, p: spec_fn(T) -> bool, i: int)
    requires
        is_first_where(s, p, i),
    ensures
        first_where(s, p) == Some(i),
{
    let q = choose|q: int| is_first_where(s, p, q);
    assert(is_first_where(s, p, q));
    assert(q == i);
}

/// Nothing is found in a sequence without a value that meets `p`.
pub proof fn lemma_first_where_none<T>(s: Seq<T>, p: spec_fn(T) -> bool)
    requires
        forall|j: int| 0 <= j < s.len() ==> !p(s[j]),
    ensures
        first_where(s, p) is None,
{
    if exists|i: int| is_first_where(s, p, i) {
        let q = choose|q: int| is_first_where(s, p, q);
        assert(p(s[q]));
    }
}

/// What [`first_where`] answers with is the first position whose value
/// meets `p`; it answers with none only if no value meets `p`.
pub proof fn lemma_first_where_holds<T>(s: Seq<T>, p: spec_fn(T) -> bool)
    ensures
        match first_where(s, p) {
            Some(i) => is_first_where(s, p, i),
            None => forall|j: int| 0 <= j < s.len() ==> !p(#[trigger] s[j]),
        },
{
    if exists|i: int| is_first_where(s, p, i) {
    } else {
        assert forall|j: int| 0 <= j < s.len() implies !p(#[trigger] s[j]) by {
            if p(s[j]) {
                lemma_has_first_where(s, p, j);
            }
        }
    }
}

/// Where a value at position `i` meets `p`, there is a first position
/// whose value meets it.
pub proof fn lemma_has_first_where<T>(s: Seq<T>, p: spec_fn(T) -> bool, i: int)
    requires
        0 <= i < s.len(),
        p(s[i]),
    ensures
        first_where(s, p) is Some,
    decreases i,
{
    if exists|j: int| 0 <= j < i && p(s[j]) {
        let j = choose|j: int| 0 <= j < i && p(s[j]);
        lemma_has_first_where(s, p, j);
    } else {
        assert(is_first_where(s, p, i));
    }
}

/// The test for a value that is `x`.
pub open spec fn equals<T>(x: T) -> spec_fn(T) -> bool {
    |y: T| y == x
}

/// The first position of `s` that holds `x`.
pub open spec fn first_index<T>(s: Seq<T>, x: T) -> Option<int> {
    first_where(s, equals(x))
}

/// The first position of `ids` that holds `id`.
pub fn position_of(ids: &Vec<usize>, id: usize) -> (found: Option<usize>)
    ensures
        match found {
            Some(i) => first_index(ids@, id) == Some(i as int),
            None => first_index(ids@, id) is None,
        },
{
    let mut i: usize = 0;
    while i < ids.len()
        invariant
            i <= ids.len(),
            forall|j: int| 0 <= j < i ==> ids@[j] != id,
        decreases ids.len() - i,
    {
        if ids[i] == id {
            proof {
                lemma_first_where_at(ids@, equals(id), i as int);
            }
            return Some(i);
        }
        i += 1;
    }
    proof {
        lemma_first_where_none(ids@, equals(id));
    }
    None
}

/// The sorted sequence `sorted` with the pair `x` put behind all pairs whose
/// key is not greater than the key of `x`.
pub open spec fn insert_pair(sorted: Seq<(u64, usize)>, x: (u64, usize)) -> Seq<(u64, usize)>
    decreases sorted.len(),
{
    if sorted.len() == 0 {
        seq![x]
    } else if sorted.last().0 <= x.0 {
        sorted.push(x)
    } else {
        insert_pair(sorted.drop_last(), x).push(sorted.last())
    }
}

/// The pairs of `s` sorted by their key, from the smallest to the biggest.
/// Pairs with the same key keep their order.
pub open spec fn sort_pairs(s: Seq<(u64, usize)>) -> Seq<(u64, usize)>
    decreases s.len(),
{
    if s.len() == 0 {
        Seq::empty()
    } else {
        insert_pair(sort_pairs(s.drop_last()), s.last())
    }
}

/// The keys of `s` do not fall.
pub open spec fn keys_rise(s: Seq<(u64, usize)>) -> bool {
    forall|i: int, j: int| 0 <= i <= j < s.len() ==> s[i].0 <= s[j].0
}

proof fn lemma_insert_at(s: Seq<(u64, usize)>, x: (u64, usize), p: int)
    requires
        0 <= p <= s.len(),
        forall|j: int| p <= j < s.len() ==> s[j].0 > x.0,
        p > 0 ==> s[p - 1].0 <= x.0,
    ensures
        insert_pair(s, x) == s.insert(p, x),
    decreases s.len() - p,
{
    if s.len() == 0 {
        assert(s.insert(p, x) =~= seq![x]);
    } else if p == s.len() {
        assert(s.insert(p, x) =~= s.push(x));
    } else {
        lemma_insert_at(s.drop_last(), x, p);
        assert(s.insert(p, x) =~= s.drop_last().insert(p, x).push(s.last()));
    }
}

/// Inserting into a sequence of rising keys keeps the keys rising, and keeps
/// every pair.
pub proof fn lemma_insert_pair(s: Seq<(u64, usize)>, x: (u64, usize))
    requires
        keys_rise(s),
    ensures
        keys_rise(insert_pair(s, x)),
        insert_pair(s, x).len() == s.len() + 1,
        insert_pair(s, x).to_multiset() == s.to_multiset().insert(x),
    decreases s.len(),
{
    broadcast use vstd::seq_lib::group_to_multiset_ensures;

    if s.len() == 0 {
        assert(seq![x] =~= Seq::<(u64, usize)>::empty().push(x));
        assert(s =~= Seq::<(u64, usize)>::empty());
    } else if s.last().0 <= x.0 {
    } else {
        let front = s.drop_last();
        lemma_insert_pair(front, x);
        let r = insert_pair(front, x);
        assert(s =~= front.push(s.last()));
        assert forall|i: int, j: int| 0 <= i <= j < r.push(s.last()).len() implies r.push(
            s.last(),
        )[i].0 <= r.push(s.last())[j].0 by {
            if j == r.len() && i < r.len() {
                // every pair of `r` is `x` or a pair of `front`
                assert(r.to_multiset().count(r[i]) > 0);
                if r[i] != x {
                    assert(front.to_multiset().count(r[i]) > 0);
                    let k = choose|k: int| 0 <= k < front.len() && front[k] == r[i];
                    assert(s[k] == r[i]);
                }
            }
        }
        assert(s.to_multiset() =~= front.to_multiset().insert(s.last()));
        assert(r.push(s.last()).to_multiset() =~= s.to_multiset().insert(x));
    }
}

/// Inserting a pair that is not yet there into pairs without duplicates
/// gives pairs without duplicates.
pub proof fn lemma_insert_pair_distinct(s: Seq<(u64, usize)>, x: (u64, usize))
    requires
        s.no_duplicates(),
        !s.contains(x),
    ensures
        insert_pair(s, x).no_duplicates(),
        forall|y: (u64, usize)| insert_pair(s, x).contains(y) <==> (y == x || s.contains(y)),
    decreases s.len(),
{
    if s.len() == 0 {
        assert forall|y: (u64, usize)| seq![x].contains(y) <==> (y == x || s.contains(y)) by {
            if y == x {
                assert(seq![x][0] == y);
            }
        }
    } else if s.last().0 <= x.0 {
        assert forall|y: (u64, usize)| s.push(x).contains(y) <==> (y == x || s.contains(y)) by {
            if y == x {
                assert(s.push(x)[s.len() as int] == y);
            }
            if s.contains(y) {
                let k = choose|k: int| 0 <= k < s.len() && s[k] == y;
                assert(s.push(x)[k] == y);
            }
        }
    } else {
        let front = s.drop_last();
        let last = s.last();
        assert(s =~= front.push(last));
        assert(!front.contains(x)) by {
            if front.contains(x) {
                let k = choose|k: int| 0 <= k < front.len() && front[k] == x;
                assert(s[k] == x);
            }
        }
        assert(!front.contains(last)) by {
            if front.contains(last) {
                let k = choose|k: int| 0 <= k < front.len() && front[k] == last;
                assert(s[k] == s[s.len() - 1]);
            }
        }
        lemma_insert_pair_distinct(front, x);
        let r = insert_pair(front, x);
        assert(!r.contains(last));
        assert forall|y: (u64, usize)| r.push(last).contains(y) <==> (y == x || s.contains(y)) by {
            if r.push(last).contains(y) {
                let k = choose|k: int| 0 <= k < r.push(last).len() && r.push(last)[k] == y;
                if k < r.len() {
                    assert(r[k] == y);
                    assert(r.contains(y));
                    assert(insert_pair(front, x).contains(y) <==> (y == x || front.contains(y)));
                    if y != x {
                        assert(front.contains(y));
                        let j = choose|j: int| 0 <= j < front.len() && front[j] == y;
                        assert(s[j] == y);
                    }
                } else {
                    assert(s[s.len() - 1] == y);
                }
            }
            if y == x {
                assert(insert_pair(front, x).contains(x) <==> (x == x || front.contains(x)));
                assert(r.contains(x));
                let k = choose|k: int| 0 <= k < r.len() && r[k] == x;
                assert(r.push(last)[k] == y);
            }
            if s.contains(y) {
                let k = choose|k: int| 0 <= k < s.len() && s[k] == y;
                if k < front.len() {
                    assert(front[k] == y);
                    assert(front.contains(y));
                    assert(insert_pair(front, x).contains(y) <==> (y == x || front.contains(y)));
                    assert(r.contains(y));
                    let j = choose|j: int| 0 <= j < r.len() && r[j] == y;
                    assert(r.push(last)[j] == y);
                } else {
                    assert(r.push(last)[r.len() as int] == y);
                }
            }
        }
    }
}

/// Sorting pairs without duplicates gives pairs without duplicates.
pub proof fn lemma_sort_pairs_distinct(s: Seq<(u64, usize)>)
    requires
        s.no_duplicates(),
    ensures
        sort_pairs(s).no_duplicates(),
        forall|y: (u64, usize)| sort_pairs(s).contains(y) <==> s.contains(y),
    decreases s.len(),
{
    if s.len() > 0 {
        let front = s.drop_last();
        lemma_sort_pairs_distinct(front);
        assert(!front.contains(s.last())) by {
            if front.contains(s.last()) {
                let k = choose|k: int| 0 <= k < front.len() && front[k] == s.last();
                assert(s[k] == s[s.len() - 1]);
            }
        }
        lemma_insert_pair_distinct(sort_pairs(front), s.last());
        assert forall|y: (u64, usize)| sort_pairs(s).contains(y) <==> s.contains(y) by {
            if s.contains(y) {
                let k = choose|k: int| 0 <= k < s.len() && s[k] == y;
                if k < front.len() {
                    assert(front[k] == y);
                }
            }
            if front.contains(y) {
                let k = choose|k: int| 0 <= k < front.len() && front[k] == y;
                assert(s[k] == y);
            }
            if y == s.last() {
                assert(s[s.len() - 1] == y);
            }
        }
    }
}

/// Sorting pairs whose keys do not fall changes nothing.
pub proof fn lemma_sort_rising(s: Seq<(u64, usize)>)
    requires
        keys_rise(s),
    ensures
        sort_pairs(s) == s,
    decreases s.len(),
{
    if s.len() > 0 {
        let front = s.drop_last();
        assert(keys_rise(front)) by {
            assert forall|i: int, j: int| 0 <= i <= j < front.len() implies front[i].0
                <= front[j].0 by {
                assert(s[i].0 <= s[j].0);
            }
        }
        lemma_sort_rising(front);
        if front.len() > 0 {
            assert(front.last().0 == s[s.len() - 2].0);
            assert(s[s.len() - 2].0 <= s[s.len() - 1].0);
            assert(front.push(s.last()) =~= s);
        } else {
            assert(seq![s.last()] =~= s);
        }
    } else {
        assert(sort_pairs(s) =~= s);
    }
}

/// Sorting gives rising keys and keeps every pair.
pub proof fn lemma_sort_pairs(s: Seq<(u64, usize)>)
    ensures
        keys_rise(sort_pairs(s)),
        sort_pairs(s).len() == s.len(),
        sort_pairs(s).to_multiset() == s.to_multiset(),
    decreases s.len(),
{
    broadcast use vstd::seq_lib::group_to_multiset_ensures;

    if s.len() == 0 {
    } else {
        lemma_sort_pairs(s.drop_last());
        lemma_insert_pair(sort_pairs(s.drop_last()), s.last());
        assert(s =~= s.drop_last().push(s.last()));
    }
}

/// Every pair of a sorted sequence is a pair of the sequence that was
/// sorted.
pub proof fn lemma_sorted_pair_known(pairs: Seq<(u64, usize)>, p: int)
    requires
        0 <= p < pairs.len(),
    ensures
        sort_pairs(pairs).len() == pairs.len(),
        pairs.contains(sort_pairs(pairs)[p]),
{
    broadcast use vstd::seq_lib::group_to_multiset_ensures;

    lemma_sort_pairs(pairs);
    let sorted = sort_pairs(pairs);
    assert(sorted.contains(sorted[p]));
    assert(sorted.to_multiset().count(sorted[p]) > 0);
}

/// Sorts pairs by their key, from the smallest to the biggest. Pairs with
/// the same key keep their order.
pub fn sorted_pairs(pairs: &Vec<(u64, usize)>) -> (out: Vec<(u64, usize)>)
    ensures
        out@ == sort_pairs(pairs@),
{
    let mut out: Vec<(u64, usize)> = Vec::new();
    let mut i: usize = 0;
    while i < pairs.len()
        invariant
            i <= pairs.len(),
            out@ == sort_pairs(pairs@.take(i as int)),
        decreases pairs.len() - i,
    {
        let x = pairs[i];
        let mut p: usize = out.len();
        while p > 0 && out[p - 1].0 > x.0
            invariant
                p <= out.len(),
                forall|j: int| p <= j < out.len() ==> out@[j].0 > x.0,
            decreases p,
        {
            p -= 1;
        }
        proof {
            lemma_insert_at(out@, x, p as int);
            assert(pairs@.take(i as int + 1).drop_last() == pairs@.take(i as int));
        }
        out.insert(p, x);
        i += 1;
    }
    proof {
        assert(pairs@.take(pairs.len() as int) == pairs@);
    }
    out
}

} // verus!
