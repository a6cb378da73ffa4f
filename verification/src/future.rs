//! The layouts of the futures that can be decoded: `async` functions and the
//! `select` and `join` futures that wait for several futures at once.
use vstd::prelude::*;
use crate::async_fn::{Layout, layout_of_type, LayoutView};
use crate::dwarf::{DebugInfo, Field, resolve, StructType, TypeKind, Variant};
use crate::error::ModelError;
use crate::seqs::{first_where, lemma_first_where_at, lemma_first_where_holds, lemma_first_where_none};
use crate::text::{same_text, starts_with};
use crate::ty::{describe, MAX_TYPE_DEPTH};
use crate::ty::{Type, TypeView};

verus! {

/// A future that is done as soon as one of its awaitees is done.
#[derive(Debug, PartialEq, Eq)]
pub struct SelectFuture {
    /// The offset and the type of each awaitee.
    pub awaitees: Vec<(u64, Type)>,
}

/// The mathematical value of a [`SelectFuture`].
pub struct SelectFutureView {
    pub awaitees: Seq<(u64, TypeView)>,
}

impl View for SelectFuture {
    type V = SelectFutureView;

    open spec fn view(&self) -> SelectFutureView {
        SelectFutureView { awaitees: self.awaitees@.map_values(|a: (u64, Type)| (a.0, a.1@)) }
    }
}

impl Clone for SelectFuture {
    fn clone(&self) -> (copy: SelectFuture)
        ensures
            copy@ == self@,
    {
        let mut awaitees: Vec<(u64, Type)> = Vec::new();
        let mut i: usize = 0;
        while i < self.awaitees.len()
            invariant
                i <= self.awaitees.len(),
                awaitees.len() == i,
                forall|k: int|
                    0 <= k < i ==> awaitees@[k].0 == self.awaitees@[k].0 && awaitees@[k].1@
                        == self.awaitees@[k].1@,
            decreases self.awaitees.len() - i,
        {
            awaitees.push((self.awaitees[i].0, self.awaitees[i].1.clone()));
            i += 1;
        }
        let copy = SelectFuture { awaitees };
        proof {
            assert(copy@.awaitees =~= self@.awaitees);
        }
        copy
    }
}

/// One of the variants that hold data of the wrapper around an awaitee of a
/// join future.
#[derive(Debug, PartialEq, Eq)]
pub struct JoinAwaiteeTypeVariant {
    pub discriminant: u64,
    pub offset: u64,
    pub size: u64,
    pub ty: Type,
}

/// The mathematical value of a [`JoinAwaiteeTypeVariant`].
pub struct JoinAwaiteeTypeVariantView {
    pub discriminant: u64,
    pub offset: u64,
    pub size: u64,
    pub ty: TypeView,
}

impl View for JoinAwaiteeTypeVariant {
    type V = JoinAwaiteeTypeVariantView;

    open spec fn view(&self) -> JoinAwaiteeTypeVariantView {
        JoinAwaiteeTypeVariantView {
            discriminant: self.discriminant,
            offset: self.offset,
            size: self.size,
            ty: self.ty@,
        }
    }
}

impl Clone for JoinAwaiteeTypeVariant {
    fn clone(&self) -> (copy: JoinAwaiteeTypeVariant)
        ensures
            copy@ == self@,
    {
        JoinAwaiteeTypeVariant {
            discriminant: self.discriminant,
            offset: self.offset,
            size: self.size,
            ty: self.ty.clone(),
        }
    }
}

/// The wrapper around an awaitee of a join future: it holds either the
/// future that still runs, or the output of the future that is done.
#[derive(Debug, PartialEq, Eq)]
pub struct JoinAwaiteeType {
    pub discriminant_offset: u64,
    pub discriminant_size: u64,
    pub future_variant: JoinAwaiteeTypeVariant,
    pub done_variant: JoinAwaiteeTypeVariant,
}

/// The mathematical value of a [`JoinAwaiteeType`].
pub struct JoinAwaiteeTypeView {
    pub discriminant_offset: u64,
    pub discriminant_size: u64,
    pub future_variant: JoinAwaiteeTypeVariantView,
    pub done_variant: JoinAwaiteeTypeVariantView,
}

impl View for JoinAwaiteeType {
    type V = JoinAwaiteeTypeView;

    open spec fn view(&self) -> JoinAwaiteeTypeView {
        JoinAwaiteeTypeView {
            discriminant_offset: self.discriminant_offset,
            discriminant_size: self.discriminant_size,
            future_variant: self.future_variant@,
            done_variant: self.done_variant@,
        }
    }
}

impl Clone for JoinAwaiteeType {
    fn clone(&self) -> (copy: JoinAwaiteeType)
        ensures
            copy@ == self@,
    {
        JoinAwaiteeType {
            discriminant_offset: self.discriminant_offset,
            discriminant_size: self.discriminant_size,
            future_variant: self.future_variant.clone(),
            done_variant: self.done_variant.clone(),
        }
    }
}

/// A future that is done once all of its awaitees are done.
#[derive(Debug, PartialEq, Eq)]
pub struct JoinFuture {
    /// The offset and the layout of each awaitee.
    pub awaitees: Vec<(u64, JoinAwaiteeType)>,
}

/// The mathematical value of a [`JoinFuture`].
pub struct JoinFutureView {
    pub awaitees: Seq<(u64, JoinAwaiteeTypeView)>,
}

impl View for JoinFuture {
    type V = JoinFutureView;

    open spec fn view(&self) -> JoinFutureView {
        JoinFutureView {
            awaitees: self.awaitees@.map_values(|a: (u64, JoinAwaiteeType)| (a.0, a.1@)),
        }
    }
}

impl Clone for JoinFuture {
    fn clone(&self) -> (copy: JoinFuture)
        ensures
            copy@ == self@,
    {
        let mut awaitees: Vec<(u64, JoinAwaiteeType)> = Vec::new();
        let mut i: usize = 0;
        while i < self.awaitees.len()
            invariant
                i <= self.awaitees.len(),
                awaitees.len() == i,
                forall|k: int|
                    0 <= k < i ==> awaitees@[k].0 == self.awaitees@[k].0 && awaitees@[k].1@
                        == self.awaitees@[k].1@,
            decreases self.awaitees.len() - i,
        {
            awaitees.push((self.awaitees[i].0, self.awaitees[i].1.clone()));
            i += 1;
        }
        let copy = JoinFuture { awaitees };
        proof {
            assert(copy@.awaitees =~= self@.awaitees);
        }
        copy
    }
}

/// The kinds of futures that can be decoded.
#[derive(Debug, PartialEq, Eq)]
pub enum FutureTypeKind {
    AsyncFn(Layout),
    Select(SelectFuture),
    Join(JoinFuture),
}

/// The mathematical value of a [`FutureTypeKind`].
pub enum FutureTypeKindView {
    AsyncFn(LayoutView),
    Select(SelectFutureView),
    Join(JoinFutureView),
}

impl View for FutureTypeKind {
    type V = FutureTypeKindView;

    open spec fn view(&self) -> FutureTypeKindView {
        match self {
            FutureTypeKind::AsyncFn(l) => FutureTypeKindView::AsyncFn(l@),
            FutureTypeKind::Select(s) => FutureTypeKindView::Select(s@),
            FutureTypeKind::Join(j) => FutureTypeKindView::Join(j@),
        }
    }
}

/// The layout of a future type.
#[derive(Debug, PartialEq, Eq)]
pub struct FutureType {
    pub kind: FutureTypeKind,
}

impl View for FutureType {
    type V = FutureTypeKindView;

    open spec fn view(&self) -> FutureTypeKindView {
        self.kind@
    }
}

impl Clone for FutureType {
    fn clone(&self) -> (copy: FutureType)
        ensures
            copy@ == self@,
    {
        FutureType {
            kind: match &self.kind {
                FutureTypeKind::AsyncFn(l) => FutureTypeKind::AsyncFn(l.clone()),
                FutureTypeKind::Select(s) => FutureTypeKind::Select(s.clone()),
                FutureTypeKind::Join(j) => FutureTypeKind::Join(j.clone()),
            },
        }
    }
}

/// The mathematical value of the future types of a program: the described
/// types with their layouts, in the order in which they were found.
pub type FutureTypesView = Seq<(TypeView, FutureTypeKindView)>;

/// The test for an entry that holds the type `ty`.
pub open spec fn holds_type(ty: TypeView) -> spec_fn((TypeView, FutureTypeKindView)) -> bool {
    |e: (TypeView, FutureTypeKindView)| e.0 == ty
}

/// The layout that `types` holds for `ty`: that of the first entry with the
/// type.
pub open spec fn layout_of(types: FutureTypesView, ty: TypeView) -> Option<FutureTypeKindView> {
    match first_where(types, holds_type(ty)) {
        Some(i) => Some(types[i].1),
        None => None,
    }
}

/// The layouts of the future types of a program, found by the description
/// of the type.
#[derive(Debug)]
pub struct FutureTypes {
    /// The described types with their layouts, in the order in which they
    /// were found.
    pub entries: Vec<(Type, FutureType)>,
}

impl View for FutureTypes {
    type V = FutureTypesView;

    open spec fn view(&self) -> FutureTypesView {
        self.entries@.map_values(|e: (Type, FutureType)| (e.0@, e.1@))
    }
}

/// No type is held twice.
pub open spec fn distinct_keys(types: FutureTypesView) -> bool {
    forall|i: int, j: int|
        0 <= i < j < types.len() ==> (#[trigger] types[i]).0 != (#[trigger] types[j]).0
}

impl FutureTypes {
    /// No layouts.
    pub fn new() -> (types: FutureTypes)
        ensures
            types@ == FutureTypesView::empty(),
    {
        let types = FutureTypes { entries: Vec::new() };
        proof {
            assert(types@ =~= FutureTypesView::empty());
        }
        types
    }

    /// The number of types held.
    pub fn len(&self) -> (n: usize)
        ensures
            n == self@.len(),
    {
        self.entries.len()
    }

    /// The position at which `ty` is held.
    pub fn position(&self, ty: &Type) -> (found: Option<usize>)
        ensures
            match found {
                Some(i) => first_where(self@, holds_type(ty@)) == Some(i as int) && i < self@.len(),
                None => first_where(self@, holds_type(ty@)) is None,
            },
    {
        let mut i: usize = 0;
        while i < self.entries.len()
            invariant
                i <= self.entries.len(),
                forall|j: int| 0 <= j < i ==> (#[trigger] self@[j]).0 != ty@,
            decreases self.entries.len() - i,
        {
            if self.entries[i].0.same(ty) {
                proof {
                    lemma_first_where_at(self@, holds_type(ty@), i as int);
                }
                return Some(i);
            }
            i += 1;
        }
        proof {
            lemma_first_where_none(self@, holds_type(ty@));
        }
        None
    }

    /// The layout of the type `ty`.
    pub fn get(&self, ty: &Type) -> (found: Option<&FutureType>)
        ensures
            match found {
                Some(f) => layout_of(self@, ty@) == Some(f@),
                None => layout_of(self@, ty@) is None,
            },
    {
        match self.position(ty) {
            Some(i) => Some(&self.entries[i].1),
            None => None,
        }
    }

    /// Sets the layout of the type `ty`. Where the type has a layout
    /// already, the new one takes its place.
    pub fn insert(&mut self, ty: Type, future: FutureType)
        ensures
            final(self)@ == inserted(old(self)@, ty@, future@),
            distinct_keys(old(self)@) ==> distinct_keys(final(self)@),
    {
        let ghost before = self@;
        match self.position(&ty) {
            Some(i) => {
                self.entries.set(i, (ty, future));
                proof {
                    assert(self@ =~= before.update(i as int, (ty@, future@)));
                    if distinct_keys(before) {
                        assert forall|a: int, b: int| 0 <= a < b < self@.len() implies (
                        #[trigger] self@[a]).0 != (#[trigger] self@[b]).0 by {
                            assert(before[a].0 != before[b].0);
                        }
                    }
                }
            },
            None => {
                self.entries.push((ty, future));
                proof {
                    assert(self@ =~= before.push((ty@, future@)));
                    if distinct_keys(before) {
                        assert forall|a: int, b: int| 0 <= a < b < self@.len() implies (
                        #[trigger] self@[a]).0 != (#[trigger] self@[b]).0 by {
                            if b < before.len() {
                                assert(before[a].0 != before[b].0);
                            } else {
                                lemma_first_where_holds(before, holds_type(ty@));
                                assert(!holds_type(ty@)(before[a]));
                            }
                        }
                    }
                }
            },
        }
    }
}

/// The future types `types` after the layout of `ty` was set to `future`.
pub open spec fn inserted(
    types: FutureTypesView,
    ty: TypeView,
    future: FutureTypeKindView,
) -> FutureTypesView {
    match first_where(types, holds_type(ty)) {
        Some(i) => types.update(i, (ty, future)),
        None => types.push((ty, future)),
    }
}

/// Whether the innermost namespace of `namespace` is named `inner` and lies
/// directly in a namespace named `outer`.
pub open spec fn in_module(namespace: Seq<Option<String>>, outer: Seq<char>, inner: Seq<char>) -> bool {
    &&& namespace.len() >= 2
    &&& namespace[namespace.len() - 1] is Some
    &&& namespace[namespace.len() - 1]->0@ == inner
    &&& namespace[namespace.len() - 2] is Some
    &&& namespace[namespace.len() - 2]->0@ == outer
}

/// Whether the innermost namespace of `namespace` is named `inner` and lies
/// directly in a namespace named `outer`.
pub fn is_in_module(namespace: &Vec<Option<String>>, outer: &str, inner: &str) -> (yes: bool)
    ensures
        yes == in_module(namespace@, outer@, inner@),
{
    let n = namespace.len();
    if n < 2 {
        return false;
    }
    let last = match &namespace[n - 1] {
        Some(name) => same_text(name.as_str(), inner),
        None => false,
    };
    let parent = match &namespace[n - 2] {
        Some(name) => same_text(name.as_str(), outer),
        None => false,
    };
    last && parent
}

/// The first count of an array, where it is known.
pub open spec fn first_count(counts: Seq<Option<u64>>) -> Option<u64> {
    if counts.len() == 0 {
        None
    } else {
        counts[0]
    }
}

/// The offsets of the `count` elements of an array of `size` bytes.
pub open spec fn element_offset(size: u64, count: u64, i: int) -> u64 {
    ((size as int / count as int) * i) as u64
}

/// The awaitees of a select future over an array of futures: one for each
/// element of the array that is the only field of `st`.
pub open spec fn select_array_of(info: &DebugInfo, st: StructType) -> Result<
    SelectFutureView,
    ModelError,
> {
    if st.members@.len() != 1 {
        Err(ModelError::ArrayField)
    } else {
        match resolve(info, st.members@[0].ty) {
            Some(TypeKind::Array { element, counts, byte_size }) => match first_count(counts@) {
                None => Err(ModelError::ArrayCount),
                Some(count) => match byte_size {
                    None => Err(ModelError::ArraySize),
                    Some(size) => Ok(
                        SelectFutureView {
                            awaitees: Seq::new(
                                count as nat,
                                |i: int|
                                    (
                                        element_offset(size, count, i),
                                        describe(info, element, MAX_TYPE_DEPTH as nat),
                                    ),
                            ),
                        },
                    ),
                },
            },
            _ => Err(ModelError::ArrayType),
        }
    }
}

/// The awaitees of a select future over a fixed number of futures: one for
/// each member of `st`.
pub open spec fn select_fixed_of(info: &DebugInfo, st: StructType) -> SelectFutureView {
    SelectFutureView {
        awaitees: Seq::new(
            st.members@.len(),
            |i: int|
                (
                    (st.members@[i].bit_offset / 8) as u64,
                    describe(info, st.members@[i].ty, MAX_TYPE_DEPTH as nat),
                ),
        ),
    }
}

/// Whether `name` begins with one of three prefixes.
pub open spec fn has_one_prefix(name: Seq<char>, a: Seq<char>, b: Seq<char>, c: Seq<char>) -> bool {
    a.is_prefix_of(name) || b.is_prefix_of(name) || c.is_prefix_of(name)
}

/// The layout of the select future that the type record `kind` describes;
/// none where the record does not describe a select future.
pub open spec fn select_of_type(info: &DebugInfo, kind: TypeKind) -> Result<
    Option<SelectFutureView>,
    ModelError,
> {
    match kind {
        TypeKind::Struct(st) => if !in_module(st.namespace@, "embassy_futures"@, "select"@) {
            Ok(None)
        } else {
            match st.name {
                None => Ok(None),
                Some(name) => if "SelectArray"@.is_prefix_of(name@) {
                    match select_array_of(info, st) {
                        Ok(s) => Ok(Some(s)),
                        Err(e) => Err(e),
                    }
                } else if has_one_prefix(name@, "Select<"@, "Select3<"@, "Select4<"@) {
                    Ok(Some(select_fixed_of(info, st)))
                } else {
                    Ok(None)
                },
            }
        },
        _ => Ok(None),
    }
}

proof fn lemma_element_offset(size: u64, count: u64, i: int)
    requires
        0 <= i < count,
    ensures
        0 <= (size as int / count as int) * i <= size,
{
    let each = size as int / count as int;
    assert(each * count <= size) by (nonlinear_arith)
        requires
            each == size as int / count as int,
            count > 0,
    ;
    assert(0 <= each * i <= each * count) by (nonlinear_arith)
        requires
            0 <= i < count,
            0 <= each,
    ;
}

fn starts_with_one(name: &str, a: &str, b: &str, c: &str) -> (yes: bool)
    ensures
        yes == has_one_prefix(name@, a@, b@, c@),
{
    starts_with(name, a) || starts_with(name, b) || starts_with(name, c)
}

impl SelectFuture {
    /// The layout of a select future over an array of futures.
    pub fn from_select_array(info: &DebugInfo, st: &StructType) -> (found: Result<
        SelectFuture,
        ModelError,
    >)
        ensures
            match found {
                Ok(s) => select_array_of(info, *st) == Ok::<SelectFutureView, ModelError>(s@),
                Err(e) => select_array_of(info, *st) == Err::<SelectFutureView, ModelError>(e),
            },
    {
        if st.members.len() != 1 {
            return Err(ModelError::ArrayField);
        }
        let (element, counts, byte_size) = match info.type_at(st.members[0].ty) {
            Some(TypeKind::Array { element, counts, byte_size }) => (element, counts, byte_size),
            _ => {
                return Err(ModelError::ArrayType);
            },
        };
        let count = if counts.len() == 0 {
            None
        } else {
            counts[0]
        };
        let count = match count {
            None => {
                return Err(ModelError::ArrayCount);
            },
            Some(count) => count,
        };
        let size = match *byte_size {
            None => {
                return Err(ModelError::ArraySize);
            },
            Some(size) => size,
        };
        let ty = Type::from_ref(info, *element);
        let mut awaitees: Vec<(u64, Type)> = Vec::new();
        let mut i: u64 = 0;
        while i < count
            invariant
                i <= count,
                awaitees.len() == i,
                ty@ == describe(info, *element, MAX_TYPE_DEPTH as nat),
                forall|k: int|
                    0 <= k < i ==> (#[trigger] awaitees@[k]).0 == element_offset(size, count, k)
                        && awaitees@[k].1@ == ty@,
            decreases count - i,
        {
            proof {
                lemma_element_offset(size, count, i as int);
            }
            let size_of_element = size / count;
            awaitees.push((size_of_element * i, ty.clone()));
            i += 1;
        }
        let found = SelectFuture { awaitees };
        proof {
            assert(found@.awaitees =~= select_array_of(info, *st)->Ok_0.awaitees);
        }
        Ok(found)
    }

    /// The layout of a select future over a fixed number of futures.
    pub fn from_select_fixed_size(info: &DebugInfo, st: &StructType) -> (found: SelectFuture)
        ensures
            found@ == select_fixed_of(info, *st),
    {
        let mut awaitees: Vec<(u64, Type)> = Vec::new();
        let mut i: usize = 0;
        while i < st.members.len()
            invariant
                i <= st.members.len(),
                awaitees.len() == i,
                forall|k: int|
                    0 <= k < i ==> (#[trigger] awaitees@[k]).0 == (st.members@[k].bit_offset / 8) as u64
                        && awaitees@[k].1@ == describe(
                        info,
                        st.members@[k].ty,
                        MAX_TYPE_DEPTH as nat,
                    ),
            decreases st.members.len() - i,
        {
            let member = &st.members[i];
            awaitees.push((member.bit_offset / 8, Type::from_ref(info, member.ty)));
            i += 1;
        }
        let found = SelectFuture { awaitees };
        proof {
            assert(found@.awaitees =~= select_fixed_of(info, *st).awaitees);
        }
        found
    }

    /// The layout of the select future that the type record `kind`
    /// describes; none where the record does not describe a select future.
    pub fn from_type(info: &DebugInfo, kind: &TypeKind) -> (found: Result<
        Option<SelectFuture>,
        ModelError,
    >)
        ensures
            match found {
                Ok(Some(s)) => select_of_type(info, *kind) == Ok::<
                    Option<SelectFutureView>,
                    ModelError,
                >(Some(s@)),
                Ok(None) => select_of_type(info, *kind) == Ok::<Option<SelectFutureView>, ModelError>(
                    None,
                ),
                Err(e) => select_of_type(info, *kind) == Err::<Option<SelectFutureView>, ModelError>(
                    e,
                ),
            },
    {
        let st = match kind {
            TypeKind::Struct(st) => st,
            _ => {
                return Ok(None);
            },
        };
        if !is_in_module(&st.namespace, "embassy_futures", "select") {
            return Ok(None);
        }
        let name = match &st.name {
            Some(name) => name,
            None => {
                return Ok(None);
            },
        };
        if starts_with(name.as_str(), "SelectArray") {
            return match SelectFuture::from_select_array(info, st) {
                Ok(s) => Ok(Some(s)),
                Err(e) => Err(e),
            };
        }
        if starts_with_one(name.as_str(), "Select<", "Select3<", "Select4<") {
            return Ok(Some(SelectFuture::from_select_fixed_size(info, st)));
        }
        Ok(None)
    }
}

/// The variant of the wrapper around an awaitee that `variant` describes: a
/// variant with one member of known size and with a discriminant value.
pub open spec fn join_variant_of(info: &DebugInfo, variant: Variant) -> Option<
    JoinAwaiteeTypeVariantView,
> {
    if variant.members@.len() != 1 {
        None
    } else {
        match (variant.discriminant_value, variant.members@[0].bit_size) {
            (Some(discriminant), Some(bits)) => Some(
                JoinAwaiteeTypeVariantView {
                    discriminant,
                    offset: variant.members@[0].bit_offset / 8,
                    size: bits / 8,
                    ty: describe(info, variant.members@[0].ty, MAX_TYPE_DEPTH as nat),
                },
            ),
            _ => None,
        }
    }
}

/// The variants found so far of the wrapper around an awaitee.
pub struct JoinScan {
    pub future: Option<JoinAwaiteeTypeVariantView>,
    pub done: Option<JoinAwaiteeTypeVariantView>,
}

/// Takes one variant of the wrapper into account. The variant `Gone` holds
/// no data and is passed over; a variant with another name than `Future`
/// or `Done` is not expected.
pub open spec fn scan_join_variant(info: &DebugInfo, scan: JoinScan, variant: Variant) -> Option<
    JoinScan,
> {
    match variant.name {
        None => None,
        Some(name) => if name@ == "Gone"@ {
            Some(scan)
        } else {
            match join_variant_of(info, variant) {
                None => None,
                Some(v) => if name@ == "Future"@ {
                    Some(JoinScan { future: Some(v), ..scan })
                } else if name@ == "Done"@ {
                    Some(JoinScan { done: Some(v), ..scan })
                } else {
                    None
                },
            }
        },
    }
}

/// Takes the variants of the wrapper into account, one after the other.
pub open spec fn scan_join_variants(info: &DebugInfo, variants: Seq<Variant>) -> Option<JoinScan>
    decreases variants.len(),
{
    if variants.len() == 0 {
        Some(JoinScan { future: None, done: None })
    } else {
        match scan_join_variants(info, variants.drop_last()) {
            None => None,
            Some(scan) => scan_join_variant(info, scan, variants.last()),
        }
    }
}

/// The member of `st` that holds the discriminant of its variant part, with
/// a known size.
pub open spec fn discriminant_field(st: StructType) -> Option<Field> {
    if st.variant_parts@.len() != 1 {
        None
    } else {
        match st.variant_parts@[0].discriminant {
            Some(i) => if i < st.members@.len() && st.members@[i as int].bit_size is Some {
                Some(st.members@[i as int])
            } else {
                None
            },
            None => None,
        }
    }
}

/// The layout of the wrapper around an awaitee of a join future that the
/// type record `kind` describes.
pub open spec fn join_awaitee_of(info: &DebugInfo, kind: TypeKind) -> Option<JoinAwaiteeTypeView> {
    match kind {
        TypeKind::Struct(st) => match discriminant_field(st) {
            None => None,
            Some(field) => match scan_join_variants(info, st.variant_parts@[0].variants@) {
                Some(JoinScan { future: Some(future_variant), done: Some(done_variant) }) => Some(
                    JoinAwaiteeTypeView {
                        discriminant_offset: field.bit_offset / 8,
                        discriminant_size: field.bit_size->0 / 8,
                        future_variant,
                        done_variant,
                    },
                ),
                _ => None,
            },
        },
        _ => None,
    }
}

proof fn lemma_scan_join_fails(info: &DebugInfo, variants: Seq<Variant>, n: int)
    requires
        0 <= n <= variants.len(),
        scan_join_variants(info, variants.take(n)) is None,
    ensures
        scan_join_variants(info, variants) is None,
    decreases variants.len() - n,
{
    if n < variants.len() {
        assert(variants.take(n + 1).drop_last() == variants.take(n));
        lemma_scan_join_fails(info, variants, n + 1);
    } else {
        assert(variants.take(n) == variants);
    }
}

/// The mathematical value of a variant that may be missing.
pub open spec fn variant_view(v: Option<JoinAwaiteeTypeVariant>) -> Option<
    JoinAwaiteeTypeVariantView,
> {
    match v {
        Some(v) => Some(v@),
        None => None,
    }
}

impl JoinAwaiteeTypeVariant {
    /// The variant of the wrapper around an awaitee that `variant`
    /// describes.
    pub fn from_variant(info: &DebugInfo, variant: &Variant) -> (found: Option<
        JoinAwaiteeTypeVariant,
    >)
        ensures
            variant_view(found) == join_variant_of(info, *variant),
    {
        if variant.members.len() != 1 {
            return None;
        }
        let member = &variant.members[0];
        let discriminant = match variant.discriminant_value {
            Some(d) => d,
            None => {
                return None;
            },
        };
        let bits = match member.bit_size {
            Some(bits) => bits,
            None => {
                return None;
            },
        };
        Some(
            JoinAwaiteeTypeVariant {
                discriminant,
                offset: member.bit_offset / 8,
                size: bits / 8,
                ty: Type::from_ref(info, member.ty),
            },
        )
    }
}

impl JoinAwaiteeType {
    /// The layout of the wrapper around an awaitee of a join future that
    /// the type record `kind` describes.
    pub fn from_type(info: &DebugInfo, kind: &TypeKind) -> (found: Option<JoinAwaiteeType>)
        ensures
            match found {
                Some(t) => join_awaitee_of(info, *kind) == Some(t@),
                None => join_awaitee_of(info, *kind) is None,
            },
    {
        let st = match kind {
            TypeKind::Struct(st) => st,
            _ => {
                return None;
            },
        };
        if st.variant_parts.len() != 1 {
            return None;
        }
        let variant_part = &st.variant_parts[0];
        let field = match variant_part.discriminant {
            Some(i) => if i < st.members.len() {
                &st.members[i]
            } else {
                return None;
            },
            None => {
                return None;
            },
        };
        let discriminant_offset = field.bit_offset / 8;
        let discriminant_size = match field.bit_size {
            Some(bits) => bits / 8,
            None => {
                return None;
            },
        };
        let variants = &variant_part.variants;
        let mut future_variant: Option<JoinAwaiteeTypeVariant> = None;
        let mut done_variant: Option<JoinAwaiteeTypeVariant> = None;
        let mut i: usize = 0;
        while i < variants.len()
            invariant
                i <= variants.len(),
                *kind == TypeKind::Struct(*st),
                st.variant_parts@.len() == 1,
                *variants == st.variant_parts@[0].variants,
                scan_join_variants(info, variants@.take(i as int)) == Some(
                    JoinScan {
                        future: variant_view(future_variant),
                        done: variant_view(done_variant),
                    },
                ),
            decreases variants.len() - i,
        {
            proof {
                assert(variants@.take(i as int + 1).drop_last() == variants@.take(i as int));
            }
            let variant = &variants[i];
            let name = match &variant.name {
                Some(name) => name,
                None => {
                    proof {
                        lemma_scan_join_fails(info, variants@, i as int + 1);
                    }
                    return None;
                },
            };
            if !same_text(name.as_str(), "Gone") {
                let found = match JoinAwaiteeTypeVariant::from_variant(info, variant) {
                    Some(found) => found,
                    None => {
                        proof {
                            lemma_scan_join_fails(info, variants@, i as int + 1);
                        }
                        return None;
                    },
                };
                if same_text(name.as_str(), "Future") {
                    future_variant = Some(found);
                } else if same_text(name.as_str(), "Done") {
                    done_variant = Some(found);
                } else {
                    proof {
                        lemma_scan_join_fails(info, variants@, i as int + 1);
                    }
                    return None;
                }
            }
            i += 1;
        }
        proof {
            assert(variants@.take(variants.len() as int) == variants@);
        }
        match (future_variant, done_variant) {
            (Some(future_variant), Some(done_variant)) => Some(
                JoinAwaiteeType {
                    discriminant_offset,
                    discriminant_size,
                    future_variant,
                    done_variant,
                },
            ),
            _ => None,
        }
    }
}

/// The layout of the wrapper that the type `r` describes. An awaitee
/// without a type, or with a type that is no such wrapper, is refused.
pub open spec fn join_element_of(info: &DebugInfo, r: Option<usize>) -> Result<
    JoinAwaiteeTypeView,
    ModelError,
> {
    match resolve(info, r) {
        None => Err(ModelError::JoinAwaiteeType),
        Some(kind) => match join_awaitee_of(info, kind) {
            None => Err(ModelError::JoinAwaiteeLayout),
            Some(t) => Ok(t),
        },
    }
}

/// The awaitees of a join future over an array of futures.
pub open spec fn join_array_of(info: &DebugInfo, st: StructType) -> Result<
    JoinFutureView,
    ModelError,
> {
    if st.members@.len() != 1 {
        Err(ModelError::ArrayField)
    } else {
        match resolve(info, st.members@[0].ty) {
            Some(TypeKind::Array { element, counts, byte_size }) => match join_element_of(
                info,
                element,
            ) {
                Err(e) => Err(e),
                Ok(t) => match first_count(counts@) {
                    None => Err(ModelError::ArrayCount),
                    Some(count) => match byte_size {
                        None => Err(ModelError::ArraySize),
                        Some(size) => Ok(
                            JoinFutureView {
                                awaitees: Seq::new(
                                    count as nat,
                                    |i: int| (element_offset(size, count, i), t),
                                ),
                            },
                        ),
                    },
                },
            },
            _ => Err(ModelError::ArrayType),
        }
    }
}

/// The awaitees of a join future over the futures `fields`, one after the
/// other.
pub open spec fn join_fields_of(info: &DebugInfo, fields: Seq<Field>) -> Result<
    Seq<(u64, JoinAwaiteeTypeView)>,
    ModelError,
>
    decreases fields.len(),
{
    if fields.len() == 0 {
        Ok(Seq::empty())
    } else {
        match join_fields_of(info, fields.drop_last()) {
            Err(e) => Err(e),
            Ok(awaitees) => match join_element_of(info, fields.last().ty) {
                Err(e) => Err(e),
                Ok(t) => Ok(awaitees.push(((fields.last().bit_offset / 8) as u64, t))),
            },
        }
    }
}

/// The awaitees of a join future over a fixed number of futures.
pub open spec fn join_fixed_of(info: &DebugInfo, st: StructType) -> Result<
    JoinFutureView,
    ModelError,
> {
    match join_fields_of(info, st.members@) {
        Err(e) => Err(e),
        Ok(awaitees) => Ok(JoinFutureView { awaitees }),
    }
}

/// The layout of the join future that the type record `kind` describes;
/// none where the record does not describe a join future.
pub open spec fn join_of_type(info: &DebugInfo, kind: TypeKind) -> Result<
    Option<JoinFutureView>,
    ModelError,
> {
    match kind {
        TypeKind::Struct(st) => if !in_module(st.namespace@, "embassy_futures"@, "join"@) {
            Ok(None)
        } else {
            match st.name {
                None => Ok(None),
                Some(name) => if "JoinArray"@.is_prefix_of(name@) {
                    match join_array_of(info, st) {
                        Ok(j) => Ok(Some(j)),
                        Err(e) => Err(e),
                    }
                } else if has_one_prefix(name@, "Join<"@, "Join3<"@, "Join4<"@) {
                    match join_fixed_of(info, st) {
                        Ok(j) => Ok(Some(j)),
                        Err(e) => Err(e),
                    }
                } else {
                    Ok(None)
                },
            }
        },
        _ => Ok(None),
    }
}

proof fn lemma_join_fields_fails(info: &DebugInfo, fields: Seq<Field>, n: int)
    requires
        0 <= n <= fields.len(),
        join_fields_of(info, fields.take(n)) is Err,
    ensures
        join_fields_of(info, fields) == join_fields_of(info, fields.take(n)),
    decreases fields.len() - n,
{
    if n < fields.len() {
        assert(fields.take(n + 1).drop_last() == fields.take(n));
        lemma_join_fields_fails(info, fields, n + 1);
    } else {
        assert(fields.take(n) == fields);
    }
}

fn join_element(info: &DebugInfo, r: Option<usize>) -> (found: Result<JoinAwaiteeType, ModelError>)
    ensures
        match found {
            Ok(t) => join_element_of(info, r) == Ok::<JoinAwaiteeTypeView, ModelError>(t@),
            Err(e) => join_element_of(info, r) == Err::<JoinAwaiteeTypeView, ModelError>(e),
        },
{
    let kind = match info.type_at(r) {
        None => {
            return Err(ModelError::JoinAwaiteeType);
        },
        Some(kind) => kind,
    };
    match JoinAwaiteeType::from_type(info, kind) {
        None => Err(ModelError::JoinAwaiteeLayout),
        Some(t) => Ok(t),
    }
}

impl JoinFuture {
    /// The layout of a join future over an array of futures.
    pub fn from_join_array(info: &DebugInfo, st: &StructType) -> (found: Result<
        JoinFuture,
        ModelError,
    >)
        ensures
            match found {
                Ok(j) => join_array_of(info, *st) == Ok::<JoinFutureView, ModelError>(j@),
                Err(e) => join_array_of(info, *st) == Err::<JoinFutureView, ModelError>(e),
            },
    {
        if st.members.len() != 1 {
            return Err(ModelError::ArrayField);
        }
        let (element, counts, byte_size) = match info.type_at(st.members[0].ty) {
            Some(TypeKind::Array { element, counts, byte_size }) => (element, counts, byte_size),
            _ => {
                return Err(ModelError::ArrayType);
            },
        };
        let ty = match join_element(info, *element) {
            Err(e) => {
                return Err(e);
            },
            Ok(ty) => ty,
        };
        let count = if counts.len() == 0 {
            None
        } else {
            counts[0]
        };
        let count = match count {
            None => {
                return Err(ModelError::ArrayCount);
            },
            Some(count) => count,
        };
        let size = match *byte_size {
            None => {
                return Err(ModelError::ArraySize);
            },
            Some(size) => size,
        };
        let mut awaitees: Vec<(u64, JoinAwaiteeType)> = Vec::new();
        let mut i: u64 = 0;
        while i < count
            invariant
                i <= count,
                awaitees.len() == i,
                forall|k: int|
                    0 <= k < i ==> (#[trigger] awaitees@[k]).0 == element_offset(size, count, k)
                        && awaitees@[k].1@ == ty@,
            decreases count - i,
        {
            proof {
                lemma_element_offset(size, count, i as int);
            }
            let size_of_element = size / count;
            awaitees.push((size_of_element * i, ty.clone()));
            i += 1;
        }
        let found = JoinFuture { awaitees };
        proof {
            assert(found@.awaitees =~= join_array_of(info, *st)->Ok_0.awaitees);
        }
        Ok(found)
    }

    /// The layout of a join future over a fixed number of futures.
    pub fn from_join_fixed_size(info: &DebugInfo, st: &StructType) -> (found: Result<
        JoinFuture,
        ModelError,
    >)
        ensures
            match found {
                Ok(j) => join_fixed_of(info, *st) == Ok::<JoinFutureView, ModelError>(j@),
                Err(e) => join_fixed_of(info, *st) == Err::<JoinFutureView, ModelError>(e),
            },
    {
        let mut awaitees: Vec<(u64, JoinAwaiteeType)> = Vec::new();
        let mut i: usize = 0;
        proof {
            assert(awaitees@.map_values(|a: (u64, JoinAwaiteeType)| (a.0, a.1@)) =~= Seq::empty());
        }
        while i < st.members.len()
            invariant
                i <= st.members.len(),
                join_fields_of(info, st.members@.take(i as int)) == Ok::<
                    Seq<(u64, JoinAwaiteeTypeView)>,
                    ModelError,
                >(awaitees@.map_values(|a: (u64, JoinAwaiteeType)| (a.0, a.1@))),
            decreases st.members.len() - i,
        {
            let ghost before = awaitees@.map_values(|a: (u64, JoinAwaiteeType)| (a.0, a.1@));
            proof {
                assert(st.members@.take(i as int + 1).drop_last() == st.members@.take(i as int));
            }
            let member = &st.members[i];
            match join_element(info, member.ty) {
                Err(e) => {
                    proof {
                        lemma_join_fields_fails(info, st.members@, i as int + 1);
                    }
                    return Err(e);
                },
                Ok(ty) => {
                    awaitees.push((member.bit_offset / 8, ty));
                    proof {
                        assert(awaitees@.map_values(|a: (u64, JoinAwaiteeType)| (a.0, a.1@))
                            =~= before.push(((member.bit_offset / 8) as u64, ty@)));
                    }
                },
            }
            i += 1;
        }
        proof {
            assert(st.members@.take(st.members.len() as int) == st.members@);
        }
        Ok(JoinFuture { awaitees })
    }

    /// The layout of the join future that the type record `kind` describes;
    /// none where the record does not describe a join future.
    pub fn from_type(info: &DebugInfo, kind: &TypeKind) -> (found: Result<
        Option<JoinFuture>,
        ModelError,
    >)
        ensures
            match found {
                Ok(Some(j)) => join_of_type(info, *kind) == Ok::<Option<JoinFutureView>, ModelError>(
                    Some(j@),
                ),
                Ok(None) => join_of_type(info, *kind) == Ok::<Option<JoinFutureView>, ModelError>(
                    None,
                ),
                Err(e) => join_of_type(info, *kind) == Err::<Option<JoinFutureView>, ModelError>(e),
            },
    {
        let st = match kind {
            TypeKind::Struct(st) => st,
            _ => {
                return Ok(None);
            },
        };
        if !is_in_module(&st.namespace, "embassy_futures", "join") {
            return Ok(None);
        }
        let name = match &st.name {
            Some(name) => name,
            None => {
                return Ok(None);
            },
        };
        if starts_with(name.as_str(), "JoinArray") {
            return match JoinFuture::from_join_array(info, st) {
                Ok(j) => Ok(Some(j)),
                Err(e) => Err(e),
            };
        }
        if starts_with_one(name.as_str(), "Join<", "Join3<", "Join4<") {
            return match JoinFuture::from_join_fixed_size(info, st) {
                Ok(j) => Ok(Some(j)),
                Err(e) => Err(e),
            };
        }
        Ok(None)
    }
}

/// The layout of the future that the type record `kind` describes: that of
/// an `async` function, of a select future or of a join future; none where
/// the record describes no such future.
pub open spec fn future_of_type(info: &DebugInfo, kind: TypeKind) -> Result<
    Option<FutureTypeKindView>,
    ModelError,
> {
    match layout_of_type(info, kind) {
        Err(e) => Err(e),
        Ok(Some(l)) => Ok(Some(FutureTypeKindView::AsyncFn(l))),
        Ok(None) => match select_of_type(info, kind) {
            Err(e) => Err(e),
            Ok(Some(s)) => Ok(Some(FutureTypeKindView::Select(s))),
            Ok(None) => match join_of_type(info, kind) {
                Err(e) => Err(e),
                Ok(Some(j)) => Ok(Some(FutureTypeKindView::Join(j))),
                Ok(None) => Ok(None),
            },
        },
    }
}

impl FutureType {
    /// The layout of the future that the type record `kind` describes; none
    /// where the record describes no future.
    pub fn from_type(info: &DebugInfo, kind: &TypeKind) -> (found: Result<
        Option<FutureType>,
        ModelError,
    >)
        ensures
            match found {
                Ok(Some(f)) => future_of_type(info, *kind) == Ok::<
                    Option<FutureTypeKindView>,
                    ModelError,
                >(Some(f@)) && (f@ is AsyncFn ==> f@->AsyncFn_0.wf()),
                Ok(None) => future_of_type(info, *kind) == Ok::<
                    Option<FutureTypeKindView>,
                    ModelError,
                >(None),
                Err(e) => future_of_type(info, *kind) == Err::<
                    Option<FutureTypeKindView>,
                    ModelError,
                >(e),
            },
    {
        match Layout::from_type(info, kind) {
            Err(e) => {
                return Err(e);
            },
            Ok(Some(l)) => {
                return Ok(Some(FutureType { kind: FutureTypeKind::AsyncFn(l) }));
            },
            Ok(None) => {},
        }
        match SelectFuture::from_type(info, kind) {
            Err(e) => {
                return Err(e);
            },
            Ok(Some(s)) => {
                return Ok(Some(FutureType { kind: FutureTypeKind::Select(s) }));
            },
            Ok(None) => {},
        }
        match JoinFuture::from_type(info, kind) {
            Err(e) => Err(e),
            Ok(Some(j)) => Ok(Some(FutureType { kind: FutureTypeKind::Join(j) })),
            Ok(None) => Ok(None),
        }
    }
}

} // verus!
