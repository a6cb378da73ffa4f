//! The formatted values of one snapshot, kept by the bytes and the type
//! that were formatted.
use vstd::prelude::*;
use vstd::slice::slice_to_vec;
use crate::seqs::{first_where, lemma_first_where_at, lemma_first_where_none};
use crate::text::string_of;
use crate::ty::{Type, TypeView};

verus! {

/// One formatted value. The text is missing where the value could not be
/// formatted.
#[derive(Debug)]
pub struct CacheEntry {
    pub bytes: Vec<u8>,
    pub ty: Type,
    pub text: Option<String>,
}

/// The mathematical value of a [`CacheEntry`].
pub struct CacheEntryView {
    pub bytes: Seq<u8>,
    pub ty: TypeView,
    pub text: Option<Seq<char>>,
}

/// The mathematical value of a text that may be missing.
pub open spec fn text_view(text: Option<String>) -> Option<Seq<char>> {
    match text {
        Some(t) => Some(t@),
        None => None,
    }
}

impl View for CacheEntry {
    type V = CacheEntryView;

    open spec fn view(&self) -> CacheEntryView {
        CacheEntryView { bytes: self.bytes@, ty: self.ty@, text: text_view(self.text) }
    }
}

/// The formatted values of one snapshot, in the order in which they were
/// formatted.
#[derive(Debug)]
pub struct FormatCache {
    pub entries: Vec<CacheEntry>,
}

impl View for FormatCache {
    type V = Seq<CacheEntryView>;

    open spec fn view(&self) -> Seq<CacheEntryView> {
        self.entries@.map_values(|e: CacheEntry| e@)
    }
}

/// The test for an entry with the given bytes and type.
pub open spec fn has_key(bytes: Seq<u8>, ty: TypeView) -> spec_fn(CacheEntryView) -> bool {
    |e: CacheEntryView| e.bytes == bytes && e.ty == ty
}

/// What the cache `cache` holds for the bytes `bytes` of the type `ty`.
pub open spec fn cached(cache: Seq<CacheEntryView>, bytes: Seq<u8>, ty: TypeView) -> Option<
    Option<Seq<char>>,
> {
    match first_where(cache, has_key(bytes, ty)) {
        Some(i) => Some(cache[i].text),
        None => None,
    }
}

/// No bytes of a type are held twice.
pub open spec fn held_once(cache: Seq<CacheEntryView>) -> bool {
    forall|i: int, j: int|
        0 <= i < j < cache.len() ==> !(cache[i].bytes == cache[j].bytes && cache[i].ty
            == cache[j].ty)
}

/// A value that is added for bytes and a type that the cache does not
/// answer for is not held twice.
pub proof fn lemma_held_once(cache: Seq<CacheEntryView>, entry: CacheEntryView)
    requires
        held_once(cache),
        cached(cache, entry.bytes, entry.ty) is None,
    ensures
        held_once(cache.push(entry)),
{
    crate::seqs::lemma_first_where_holds(cache, has_key(entry.bytes, entry.ty));
    assert forall|i: int, j: int| 0 <= i < j < cache.push(entry).len() implies !(cache.push(
        entry,
    )[i].bytes == cache.push(entry)[j].bytes && cache.push(entry)[i].ty == cache.push(
        entry,
    )[j].ty) by {
        if j == cache.len() {
            assert(!has_key(entry.bytes, entry.ty)(cache[i]));
        }
    }
}

fn same_bytes(a: &Vec<u8>, b: &[u8]) -> (eq: bool)
    ensures
        eq == (a@ == b@),
{
    if a.len() != b.len() {
        return false;
    }
    let mut i: usize = 0;
    while i < a.len()
        invariant
            i <= a.len(),
            a.len() == b.len(),
            forall|k: int| 0 <= k < i ==> a@[k] == b@[k],
        decreases a.len() - i,
    {
        if a[i] != b[i] {
            return false;
        }
        i += 1;
    }
    proof {
        assert(a@ =~= b@);
    }
    true
}

impl FormatCache {
    /// A cache that holds nothing.
    pub fn new() -> (cache: FormatCache)
        ensures
            cache@ == Seq::<CacheEntryView>::empty(),
    {
        let cache = FormatCache { entries: Vec::new() };
        proof {
            assert(cache@ =~= Seq::<CacheEntryView>::empty());
        }
        cache
    }

    /// Forgets all formatted values.
    pub fn clear(&mut self)
        ensures
            final(self)@ == Seq::<CacheEntryView>::empty(),
    {
        self.entries.clear();
        proof {
            assert(self@ =~= Seq::<CacheEntryView>::empty());
        }
    }

    /// The number of formatted values held.
    pub fn len(&self) -> (n: usize)
        ensures
            n == self@.len(),
    {
        self.entries.len()
    }

    /// What the cache holds for the bytes `bytes` of the type `ty`.
    pub fn get(&self, bytes: &[u8], ty: &Type) -> (found: Option<&Option<String>>)
        ensures
            match found {
                Some(text) => cached(self@, bytes@, ty@) == Some(text_view(*text)),
                None => cached(self@, bytes@, ty@) is None,
            },
    {
        let mut i: usize = 0;
        while i < self.entries.len()
            invariant
                i <= self.entries.len(),
                forall|j: int| 0 <= j < i ==> !has_key(bytes@, ty@)(self@[j]),
            decreases self.entries.len() - i,
        {
            if same_bytes(&self.entries[i].bytes, bytes) && self.entries[i].ty.same(ty) {
                proof {
                    lemma_first_where_at(self@, has_key(bytes@, ty@), i as int);
                }
                return Some(&self.entries[i].text);
            }
            i += 1;
        }
        proof {
            lemma_first_where_none(self@, has_key(bytes@, ty@));
        }
        None
    }

    /// Keeps `text` as the formatted value of the bytes `bytes` of the type
    /// `ty`.
    pub fn insert(&mut self, bytes: &[u8], ty: &Type, text: Option<String>)
        ensures
            final(self)@ == old(self)@.push(
                CacheEntryView { bytes: bytes@, ty: ty@, text: text_view(text) },
            ),
    {
        let ghost before = self@;
        self.entries.push(CacheEntry { bytes: slice_to_vec(bytes), ty: ty.clone(), text });
        proof {
            assert(self@ =~= before.push(
                CacheEntryView { bytes: bytes@, ty: ty@, text: text_view(text) },
            ));
        }
    }
}

/// The character that stands for the hexadecimal digit `d`.
pub open spec fn hex_char(d: nat) -> char {
    if d < 10 {
        crate::text::digit_char(d)
    } else if d == 10 {
        'a'
    } else if d == 11 {
        'b'
    } else if d == 12 {
        'c'
    } else if d == 13 {
        'd'
    } else if d == 14 {
        'e'
    } else {
        'f'
    }
}

/// The bytes `bytes`, each as a blank and two hexadecimal digits.
pub open spec fn hex_text(bytes: Seq<u8>) -> Seq<char>
    decreases bytes.len(),
{
    if bytes.len() == 0 {
        Seq::empty()
    } else {
        hex_text(bytes.drop_last()) + seq![
            ' ',
            hex_char((bytes.last() / 16) as nat),
            hex_char((bytes.last() % 16) as nat),
        ]
    }
}

fn hex_digit(d: u8) -> (c: char)
    requires
        d < 16,
    ensures
        c == hex_char(d as nat),
{
    if d == 0 {
        '0'
    } else if d == 1 {
        '1'
    } else if d == 2 {
        '2'
    } else if d == 3 {
        '3'
    } else if d == 4 {
        '4'
    } else if d == 5 {
        '5'
    } else if d == 6 {
        '6'
    } else if d == 7 {
        '7'
    } else if d == 8 {
        '8'
    } else if d == 9 {
        '9'
    } else if d == 10 {
        'a'
    } else if d == 11 {
        'b'
    } else if d == 12 {
        'c'
    } else if d == 13 {
        'd'
    } else if d == 14 {
        'e'
    } else {
        'f'
    }
}

/// The bytes `bytes`, each as a blank and two hexadecimal digits: what is
/// shown of a value that could not be formatted.
pub fn hex_bytes(bytes: &[u8]) -> (text: String)
    ensures
        text@ == hex_text(bytes@),
{
    let mut out: Vec<char> = Vec::new();
    let mut i: usize = 0;
    while i < bytes.len()
        invariant
            i <= bytes.len(),
            out@ == hex_text(bytes@.take(i as int)),
        decreases bytes.len() - i,
    {
        proof {
            assert(bytes@.take(i as int + 1).drop_last() == bytes@.take(i as int));
        }
        let b = bytes[i];
        let ghost before = out@;
        out.push(' ');
        out.push(hex_digit(b / 16));
        out.push(hex_digit(b % 16));
        proof {
            assert(out@ =~= before + seq![
                ' ',
                hex_char((b / 16) as nat),
                hex_char((b % 16) as nat),
            ]);
        }
        i += 1;
    }
    proof {
        assert(bytes@.take(bytes.len() as int) == bytes@);
    }
    string_of(&out)
}

} // verus!
