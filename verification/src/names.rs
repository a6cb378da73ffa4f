//! Normalisation of the names of compiler generated future types.
//!
//! The compiler spells the name of a closure type differently in the debug
//! information (`{closure_env#0}`) and in `std::any::type_name`
//! (`{{closure}}`). Both spellings agree outside the braces, so a name is
//! normalised by replacing every outermost brace group with `_`.
use vstd::prelude::*;
use crate::future::{FutureType, FutureTypeKindView, FutureTypes, FutureTypesView};
use crate::seqs::{first_where, lemma_first_where_at, lemma_first_where_none};
use crate::text::{chars_of, same_text, string_of};
use crate::ty::{Type, TypeView};

verus! {

/// Whether `c` opens or closes a brace group.
pub open spec fn is_brace(c: char) -> bool {
    c == '{' || c == '}'
}

/// What is known after reading a prefix of a name from left to right.
pub struct Scan {
    /// The text kept so far.
    pub kept: Seq<char>,
    /// How many brace groups are open.
    pub level: nat,
    /// Whether a group was closed that had not been opened.
    pub stray: bool,
}

/// The effect of reading the character `c`: text outside of brace groups is
/// kept, text inside is dropped, and a group that closes back to the outermost
/// level leaves a `_`.
pub open spec fn scan_step(st: Scan, c: char) -> Scan {
    if c == '{' {
        Scan { level: st.level + 1, ..st }
    } else if c == '}' {
        if st.level == 0 {
            Scan { stray: true, ..st }
        } else if st.level == 1 {
            Scan { kept: st.kept.push('_'), level: 0, ..st }
        } else {
            Scan { level: (st.level - 1) as nat, ..st }
        }
    } else if st.level == 0 {
        Scan { kept: st.kept.push(c), ..st }
    } else {
        st
    }
}

/// The characters of `s` read one after the other by [`scan_step`].
pub open spec fn scan(s: Seq<char>) -> Scan
    decreases s.len(),
{
    if s.len() == 0 {
        Scan { kept: Seq::empty(), level: 0, stray: false }
    } else {
        scan_step(scan(s.drop_last()), s.last())
    }
}

/// A name can be normalised if no brace group is closed before it is opened.
pub open spec fn well_nested(s: Seq<char>) -> bool {
    !scan(s).stray
}

/// The number of characters of `s` up to and including its last brace.
pub open spec fn braced_len(s: Seq<char>) -> int
    decreases s.len(),
{
    if s.len() == 0 {
        0
    } else if is_brace(s.last()) {
        s.len() as int
    } else {
        braced_len(s.drop_last())
    }
}

/// The normal form of a name. Where a brace group is left open at the end of
/// the name, the text behind the last brace is kept as well.
pub open spec fn normalized(s: Seq<char>) -> Seq<char> {
    if scan(s).level == 0 {
        scan(s).kept
    } else {
        scan(s).kept + s.skip(braced_len(s))
    }
}

proof fn lemma_stray_stays(s: Seq<char>, n: int)
    requires
        0 <= n <= s.len(),
        scan(s.take(n)).stray,
    ensures
        scan(s).stray,
    decreases s.len() - n,
{
    if n < s.len() {
        assert(s.take(n + 1).drop_last() == s.take(n));
        lemma_stray_stays(s, n + 1);
    } else {
        assert(s.take(n) == s);
    }
}

/// Tells whether `name` can be normalised: no brace group closes before it
/// was opened.
pub fn is_well_nested(name: &str) -> (ok: bool)
    ensures
        ok == well_nested(name@),
{
    let chars = chars_of(name);
    let mut level: usize = 0;
    let mut i: usize = 0;
    while i < chars.len()
        invariant
            i <= chars.len(),
            level <= i,
            chars@ == name@,
            scan(chars@.take(i as int)).level == level,
            !scan(chars@.take(i as int)).stray,
        decreases chars.len() - i,
    {
        proof {
            assert(chars@.take(i as int + 1).drop_last() == chars@.take(i as int));
        }
        let c = chars[i];
        if c == '{' {
            level += 1;
        } else if c == '}' {
            if level == 0 {
                proof {
                    assert(chars@.take(i as int + 1).last() == '}');
                    assert(scan(chars@.take(i as int + 1)).stray);
                    lemma_stray_stays(chars@, i as int + 1);
                }
                return false;
            }
            level -= 1;
        }
        i += 1;
    }
    proof {
        assert(chars@.take(chars.len() as int) == chars@);
    }
    true
}

/// Normalises the name of a future type, so that the spelling of the debug
/// information and the spelling of `std::any::type_name` agree.
///
/// `simple::foo::{closure_env#0}<simple::foo_2::{closure_env#0}>` and
/// `simple::foo::{{closure}}<simple::foo_2::{{closure}}>` both become
/// `simple::foo::_<simple::foo_2::_>`.
pub fn normalize_name(name: &str) -> (nor: String)
    requires
        well_nested(name@),
    ensures
        nor@ == normalized(name@),
{
    let chars = chars_of(name);
    let n = chars.len();
    let mut out: Vec<char> = Vec::new();
    let mut last: usize = 0;
    let mut level: usize = 0;
    let mut i: usize = 0;
    while i < n
        invariant
            n == chars.len(),
            i <= n,
            level <= i,
            last <= i,
            well_nested(chars@),
            last == braced_len(chars@.take(i as int)),
            scan(chars@.take(i as int)) == (Scan { kept: out@, level: level as nat, stray: false }),
        decreases n - i,
    {
        proof {
            assert(chars@.take(i as int + 1).drop_last() == chars@.take(i as int));
            if scan(chars@.take(i as int + 1)).stray {
                lemma_stray_stays(chars@, i as int + 1);
            }
        }
        let c = chars[i];
        if c == '{' {
            level += 1;
            last = i + 1;
        } else if c == '}' {
            if level == 1 {
                out.push('_');
            }
            level -= 1;
            last = i + 1;
        } else if level == 0 {
            out.push(c);
        }
        i += 1;
    }
    proof {
        assert(chars@.take(n as int) == chars@);
    }
    if level > 0 {
        let mut k: usize = last;
        while k < n
            invariant
                n == chars.len(),
                last <= k <= n,
                out@ == scan(chars@).kept + chars@.subrange(last as int, k as int),
            decreases n - k,
        {
            out.push(chars[k]);
            proof {
                assert(chars@.subrange(last as int, k as int + 1) == chars@.subrange(
                    last as int,
                    k as int,
                ).push(chars@[k as int]));
            }
            k += 1;
        }
        proof {
            assert(chars@.subrange(last as int, n as int) == chars@.skip(last as int));
        }
    }
    string_of(&out)
}

/// Whether the type `key` is named like `name`, but for the spelling of
/// closure types.
pub open spec fn is_named_like(key: TypeView, name: Seq<char>) -> bool {
    &&& key is Base
    &&& well_nested(key->Base_0)
    &&& normalized(key->Base_0) == normalized(name)
}

/// The test for [`is_named_like`].
pub open spec fn named_like(name: Seq<char>) -> spec_fn((TypeView, FutureTypeKindView)) -> bool {
    |e: (TypeView, FutureTypeKindView)| is_named_like(e.0, name)
}

/// The layout that `types` holds for the future whose type has the name
/// `name`: that of the first type whose normal form is the one of `name`.
pub open spec fn inspected(types: FutureTypesView, name: Seq<char>) -> Option<FutureTypeKindView> {
    if well_nested(name) {
        match first_where(types, named_like(name)) {
            Some(i) => Some(types[i].1),
            None => None,
        }
    } else {
        None
    }
}

/// Looks up the layout of the future whose type has the name `name`, as
/// `std::any::type_name` gives it. With the layout the bytes of the future
/// can be decoded every time it is polled.
pub fn inspect<'a>(name: &str, future_types: &'a FutureTypes) -> (found: Option<&'a FutureType>)
    ensures
        match found {
            Some(f) => inspected(future_types@, name@) == Some(f@),
            None => inspected(future_types@, name@) is None,
        },
{
    if !is_well_nested(name) {
        return None;
    }
    let normalized_name = normalize_name(name);
    let mut i: usize = 0;
    while i < future_types.entries.len()
        invariant
            i <= future_types.entries.len(),
            well_nested(name@),
            normalized_name@ == normalized(name@),
            forall|j: int| 0 <= j < i ==> !is_named_like(future_types@[j].0, name@),
        decreases future_types.entries.len() - i,
    {
        let named = match &future_types.entries[i].0 {
            Type::Base(path) => is_well_nested(path.as_str()) && same_text(
                normalize_name(path.as_str()).as_str(),
                normalized_name.as_str(),
            ),
            _ => false,
        };
        if named {
            proof {
                lemma_first_where_at(future_types@, named_like(name@), i as int);
            }
            return Some(&future_types.entries[i].1);
        }
        i += 1;
    }
    proof {
        lemma_first_where_none(future_types@, named_like(name@));
    }
    None
}

} // verus!
