//! The values of futures, decoded from the bytes of the target.
//!
//! Decoding is a function of the layouts and of the bytes alone. It follows
//! no pointer: the futures that a future waits for lie within its own bytes.
use vstd::prelude::*;
use vstd::slice::slice_to_vec;
use crate::async_fn::{Layout, LayoutView, Member, MemberView, State, StateView};
use crate::future::{
    FutureTypeKind, FutureTypeKindView, FutureTypes, FutureTypesView, JoinAwaiteeType,
    JoinAwaiteeTypeView, JoinFuture, JoinFutureView, holds_type, layout_of, SelectFuture,
    SelectFutureView,
};
use crate::bytes::{copy_window, fits, in_window, le_at, read_le, tail, tail_of, window, window_of};
use crate::async_fn::is_discriminant_size;
use crate::seqs::{first_where, lemma_first_where_at, lemma_first_where_holds, lemma_first_where_none};
use crate::ty::{Type, TypeView};

verus! {

/// The bytes of one member of a future.
#[derive(Debug, PartialEq, Eq)]
pub struct MemberValue {
    pub member: Member,
    pub bytes: Vec<u8>,
}

/// The mathematical value of a [`MemberValue`].
pub struct MemberValueView {
    pub member: MemberView,
    pub bytes: Seq<u8>,
}

impl View for MemberValue {
    type V = MemberValueView;

    open spec fn view(&self) -> MemberValueView {
        MemberValueView { member: self.member@, bytes: self.bytes@ }
    }
}

/// The value of a future that is in a known state.
#[derive(Debug, PartialEq, Eq)]
pub struct StateValue {
    pub state: State,
    /// The members that hold a value in this state.
    pub members: Vec<MemberValue>,
    /// The future that this state waits for.
    pub awaitee: Option<Box<FutureValue>>,
}

/// The value of the future of an `async` function.
#[derive(Debug, PartialEq, Eq)]
pub struct AsyncFnValue {
    pub ty: Layout,
    /// Err value is the found discriminant value that does not have a
    /// corresponding state.
    pub state_value: Result<StateValue, u64>,
}

/// The value of a select future.
#[derive(Debug, PartialEq, Eq)]
pub struct SelectValue {
    pub awaitees: Vec<FutureValue>,
}

/// The value of a join future.
#[derive(Debug, PartialEq, Eq)]
pub struct JoinValue {
    pub awaitees: Vec<FutureValue>,
}

/// What was decoded of a future.
#[derive(Debug, PartialEq, Eq)]
pub enum FutureValueKind {
    AsyncFn(AsyncFnValue),
    SelectValue(SelectValue),
    JoinValue(JoinValue),
    /// The bytes of a value whose layout is not known.
    Unknown(Vec<u8>),
}

/// The value of a future.
#[derive(Debug, PartialEq, Eq)]
pub struct FutureValue {
    pub ty: Type,
    pub kind: FutureValueKind,
}

/// The mathematical value of a [`StateValue`].
pub struct StateValueView {
    pub state: StateView,
    pub members: Seq<MemberValueView>,
    pub awaitee: Option<Box<FutureValueView>>,
}

/// The mathematical value of an [`AsyncFnValue`].
pub struct AsyncFnValueView {
    pub ty: LayoutView,
    pub state_value: Result<StateValueView, u64>,
}

/// The mathematical value of a [`FutureValueKind`].
pub enum FutureValueKindView {
    AsyncFn(AsyncFnValueView),
    SelectValue(Seq<FutureValueView>),
    JoinValue(Seq<FutureValueView>),
    Unknown(Seq<u8>),
}

/// The mathematical value of a [`FutureValue`].
pub struct FutureValueView {
    pub ty: TypeView,
    pub kind: FutureValueKindView,
}

/// The mathematical values of a list of future values.
pub open spec fn values_view(values: Seq<FutureValue>) -> Seq<FutureValueView>
    decreases values,
{
    Seq::new(
        values.len(),
        |i: int|
            if 0 <= i < values.len() {
                values[i].model()
            } else {
                arbitrary()
            },
    )
}

impl StateValue {
    /// The mathematical value of the state value.
    pub open spec fn model(&self) -> StateValueView
        decreases self,
    {
        StateValueView {
            state: self.state@,
            members: self.members@.map_values(|m: MemberValue| m@),
            awaitee: match self.awaitee {
                Some(a) => Some(Box::new(a.model())),
                None => None,
            },
        }
    }
}

impl AsyncFnValue {
    /// The mathematical value of the value.
    pub open spec fn model(&self) -> AsyncFnValueView
        decreases self,
    {
        AsyncFnValueView {
            ty: self.ty@,
            state_value: match self.state_value {
                Ok(s) => Ok(s.model()),
                Err(d) => Err(d),
            },
        }
    }
}

impl FutureValue {
    /// The mathematical value of the value.
    pub open spec fn model(&self) -> FutureValueView
        decreases self,
    {
        FutureValueView {
            ty: self.ty@,
            kind: match self.kind {
                FutureValueKind::AsyncFn(v) => FutureValueKindView::AsyncFn(v.model()),
                FutureValueKind::SelectValue(v) => FutureValueKindView::SelectValue(
                    values_view(v.awaitees@),
                ),
                FutureValueKind::JoinValue(v) => FutureValueKindView::JoinValue(
                    values_view(v.awaitees@),
                ),
                FutureValueKind::Unknown(bytes) => FutureValueKindView::Unknown(bytes@),
            },
        }
    }
}

impl View for StateValue {
    type V = StateValueView;

    open spec fn view(&self) -> StateValueView {
        self.model()
    }
}

impl View for AsyncFnValue {
    type V = AsyncFnValueView;

    open spec fn view(&self) -> AsyncFnValueView {
        self.model()
    }
}

impl View for FutureValue {
    type V = FutureValueView;

    open spec fn view(&self) -> FutureValueView {
        self.model()
    }
}

/// How deep futures are decoded into the futures they wait for. What lies
/// deeper is kept as bytes.
pub const MAX_FUTURE_DEPTH: usize = 64;

/// Every layout of an `async` function in `types` is well formed.
pub open spec fn layouts_wf(types: FutureTypesView) -> bool {
    forall|i: int|
        0 <= i < types.len() && (#[trigger] types[i]).1 is AsyncFn ==> types[i].1->AsyncFn_0.wf()
}

/// The test for a state with the discriminant value `d`.
pub open spec fn has_discriminant(d: u64) -> spec_fn(StateView) -> bool {
    |s: StateView| s.discriminant_value == d
}

/// The state of `states` that the discriminant `d` selects: the first state
/// with that discriminant value.
pub open spec fn state_of(states: Seq<StateView>, d: u64) -> Option<StateView> {
    match first_where(states, has_discriminant(d)) {
        Some(i) => Some(states[i]),
        None => None,
    }
}

/// The `size` bytes at `offset`, or no bytes where they do not lie within
/// `bytes`.
pub open spec fn window_or_empty(bytes: Seq<u8>, offset: u64, size: u64) -> Seq<u8> {
    if in_window(bytes.len(), offset, size) {
        window(bytes, offset, size)
    } else {
        Seq::empty()
    }
}

/// The discriminant of `size` bytes at `offset`, where it can be read.
pub open spec fn discriminant_at(bytes: Seq<u8>, offset: u64, size: u64) -> Option<u64> {
    if is_discriminant_size(size) && in_window(bytes.len(), offset, size) {
        Some(le_at(bytes, offset, size))
    } else {
        None
    }
}

/// What stands for an awaitee of a join future whose output was taken.
pub open spec fn gone_value() -> FutureValueView {
    FutureValueView { ty: TypeView::Void, kind: FutureValueKindView::Unknown(Seq::empty()) }
}

/// The value of the future of type `ty` that `bytes` holds. A type without
/// a known layout, a future that does not fit into `bytes`, and what lies
/// deeper than `depth` futures, is kept as bytes.
pub open spec fn future_value(
    types: FutureTypesView,
    ty: TypeView,
    bytes: Seq<u8>,
    depth: nat,
) -> FutureValueView
    decreases depth, 0nat,
{
    FutureValueView {
        ty,
        kind: if depth == 0 {
            FutureValueKindView::Unknown(bytes)
        } else {
            let below = (depth - 1) as nat;
            match layout_of(types, ty) {
                Some(FutureTypeKindView::AsyncFn(l)) => if l.total_size <= bytes.len() {
                    FutureValueKindView::AsyncFn(async_fn_value(types, l, bytes, below))
                } else {
                    FutureValueKindView::Unknown(bytes)
                },
                Some(FutureTypeKindView::Select(s)) => FutureValueKindView::SelectValue(
                    select_values(types, s, bytes, below),
                ),
                Some(FutureTypeKindView::Join(j)) => FutureValueKindView::JoinValue(
                    join_values(types, j, bytes, below),
                ),
                None => FutureValueKindView::Unknown(bytes),
            }
        },
    }
}

/// The value of the future with the layout `l` that `bytes` holds: the
/// state that the discriminant selects with its members, or the
/// discriminant where no state has it.
pub open spec fn async_fn_value(
    types: FutureTypesView,
    l: LayoutView,
    bytes: Seq<u8>,
    depth: nat,
) -> AsyncFnValueView
    decreases depth, 2nat,
{
    let d = le_at(bytes, l.state_member.offset, l.state_member.size);
    AsyncFnValueView {
        ty: l,
        state_value: match state_of(l.states, d) {
            Some(s) => Ok(state_value(types, l, s, bytes, depth)),
            None => Err(d),
        },
    }
}

/// The bytes of the `i`-th active member of the state `s`.
pub open spec fn member_value(l: LayoutView, s: StateView, bytes: Seq<u8>, i: int) -> MemberValueView {
    let m = l.members[s.active_members[i] as int];
    MemberValueView { member: m, bytes: window(bytes, m.offset, m.size) }
}

/// The value of a future in the state `s`: the bytes of its active members
/// as they are, and the value of the future it waits for.
pub open spec fn state_value(
    types: FutureTypesView,
    l: LayoutView,
    s: StateView,
    bytes: Seq<u8>,
    depth: nat,
) -> StateValueView
    decreases depth, 1nat,
{
    StateValueView {
        state: s,
        members: Seq::new(s.active_members.len(), |i: int| member_value(l, s, bytes, i)),
        awaitee: match s.awaitee {
            Some(a) => Some(
                Box::new(future_value(types, a.ty, window(bytes, a.offset, a.size), depth)),
            ),
            None => None,
        },
    }
}

/// The values of the awaitees of a select future, each decoded from the
/// bytes that start at its offset.
pub open spec fn select_values(
    types: FutureTypesView,
    s: SelectFutureView,
    bytes: Seq<u8>,
    depth: nat,
) -> Seq<FutureValueView>
    decreases depth, 1nat,
{
    Seq::new(
        s.awaitees.len(),
        |i: int| future_value(types, s.awaitees[i].1, tail(bytes, s.awaitees[i].0), depth),
    )
}

/// The value of one awaitee of a join future, whose wrapper starts at the
/// beginning of `bytes`: the future where the wrapper still holds it, its
/// output as bytes where it is done, and an empty value of type `void`
/// otherwise.
pub open spec fn join_child(
    types: FutureTypesView,
    a: JoinAwaiteeTypeView,
    bytes: Seq<u8>,
    depth: nat,
) -> FutureValueView
    decreases depth, 1nat,
{
    match discriminant_at(bytes, a.discriminant_offset, a.discriminant_size) {
        Some(d) => if d == a.future_variant.discriminant {
            future_value(
                types,
                a.future_variant.ty,
                window_or_empty(bytes, a.future_variant.offset, a.future_variant.size),
                depth,
            )
        } else if d == a.done_variant.discriminant {
            FutureValueView {
                ty: a.done_variant.ty,
                kind: FutureValueKindView::Unknown(
                    window_or_empty(bytes, a.done_variant.offset, a.done_variant.size),
                ),
            }
        } else {
            gone_value()
        },
        None => gone_value(),
    }
}

/// The values of the awaitees of a join future.
pub open spec fn join_values(
    types: FutureTypesView,
    j: JoinFutureView,
    bytes: Seq<u8>,
    depth: nat,
) -> Seq<FutureValueView>
    decreases depth, 2nat,
{
    Seq::new(
        j.awaitees.len(),
        |i: int| join_child(types, j.awaitees[i].1, tail(bytes, j.awaitees[i].0), depth),
    )
}

fn read_discriminant(bytes: &[u8], offset: u64, size: u64) -> (found: Option<u64>)
    ensures
        found == discriminant_at(bytes@, offset, size),
{
    if (size == 1 || size == 2 || size == 4 || size == 8) && fits(bytes, offset, size) {
        Some(read_le(bytes, offset, size))
    } else {
        None
    }
}

fn window_or_none<'a>(bytes: &'a [u8], offset: u64, size: u64) -> (out: &'a [u8])
    ensures
        out@ == window_or_empty(bytes@, offset, size),
{
    if fits(bytes, offset, size) {
        window_of(bytes, offset, size)
    } else {
        let out = vstd::slice::slice_subrange(bytes, 0, 0);
        proof {
            assert(out@ =~= Seq::<u8>::empty());
        }
        out
    }
}

impl StateValue {
    /// Decodes the members and the awaitee of a future that is in the state
    /// `state`.
    pub fn new(
        state: &State,
        bytes: &[u8],
        layout: &Layout,
        future_types: &FutureTypes,
        depth: usize,
    ) -> (value: StateValue)
        requires
            layout@.wf(),
            layout.total_size <= bytes@.len(),
            state@.fits(layout@.members.len(), layout.total_size),
            layouts_wf(future_types@),
        ensures
            value@ == state_value(future_types@, layout@, state@, bytes@, depth as nat),
        decreases depth, 1nat,
    {
        let mut members: Vec<MemberValue> = Vec::new();
        let mut k: usize = 0;
        while k < state.active_members.len()
            invariant
                k <= state.active_members.len(),
                members.len() == k,
                layout@.wf(),
                layout.total_size <= bytes@.len(),
                state@.fits(layout@.members.len(), layout.total_size),
                forall|j: int|
                    0 <= j < k ==> (#[trigger] members@[j])@ == member_value(
                        layout@,
                        state@,
                        bytes@,
                        j,
                    ),
            decreases state.active_members.len() - k,
        {
            let idx = state.active_members[k];
            proof {
                assert(state@.active_members[k as int] < layout@.members.len());
                assert(layout@.members[idx as int].within(layout.total_size));
            }
            let member = &layout.members[idx];
            let value = MemberValue {
                member: member.clone(),
                bytes: copy_window(bytes, member.offset, member.size),
            };
            members.push(value);
            k += 1;
        }
        let awaitee = match &state.awaitee {
            Some(a) => {
                let inner = FutureValue::new_within(
                    &a.ty,
                    window_of(bytes, a.offset, a.size),
                    future_types,
                    depth,
                );
                Some(Box::new(inner))
            },
            None => None,
        };
        let value = StateValue { state: state.clone(), members, awaitee };
        proof {
            let expected = state_value(future_types@, layout@, state@, bytes@, depth as nat);
            assert(value@.members =~= expected.members);
        }
        value
    }
}

impl AsyncFnValue {
    /// Decodes the future with the given layout from `bytes`.
    pub fn new(layout: &Layout, bytes: &[u8], future_types: &FutureTypes) -> (value: AsyncFnValue)
        requires
            layout@.wf(),
            layout.total_size <= bytes@.len(),
            layouts_wf(future_types@),
        ensures
            value@ == async_fn_value(future_types@, layout@, bytes@, MAX_FUTURE_DEPTH as nat),
    {
        AsyncFnValue::new_within(layout, bytes, future_types, MAX_FUTURE_DEPTH)
    }

    /// [`AsyncFnValue::new`] with a bound on the depth of the futures decoded.
    pub fn new_within(
        layout: &Layout,
        bytes: &[u8],
        future_types: &FutureTypes,
        depth: usize,
    ) -> (value: AsyncFnValue)
        requires
            layout@.wf(),
            layout.total_size <= bytes@.len(),
            layouts_wf(future_types@),
        ensures
            value@ == async_fn_value(future_types@, layout@, bytes@, depth as nat),
        decreases depth, 2nat,
    {
        let discriminant = read_le(bytes, layout.state_member.offset, layout.state_member.size);
        let mut i: usize = 0;
        let mut found: Option<usize> = None;
        while i < layout.states.len()
            invariant_except_break
                found is None,
                i <= layout.states.len(),
                forall|j: int|
                    0 <= j < i ==> (#[trigger] layout@.states[j]).discriminant_value
                        != discriminant,
            ensures
                match found {
                    Some(p) => p < layout.states.len() && first_where(
                        layout@.states,
                        has_discriminant(discriminant),
                    ) == Some(p as int),
                    None => first_where(layout@.states, has_discriminant(discriminant)) is None,
                },
            decreases layout.states.len() - i,
        {
            proof {
                assert(layout@.states[i as int] == layout.states@[i as int]@);
            }
            if layout.states[i].discriminant_value == discriminant {
                proof {
                    lemma_first_where_at(layout@.states, has_discriminant(discriminant), i as int);
                }
                found = Some(i);
                break ;
            }
            i += 1;
            proof {
                if i == layout.states.len() {
                    lemma_first_where_none(layout@.states, has_discriminant(discriminant));
                }
            }
        }
        let state_value = match found {
            Some(p) => {
                proof {
                    assert(layout@.states[p as int] == layout.states@[p as int]@);
                    assert(layout@.states[p as int].fits(
                        layout@.members.len(),
                        layout.total_size,
                    ));
                }
                Ok(StateValue::new(&layout.states[p], bytes, layout, future_types, depth))
            },
            None => {
                proof {
                    if layout.states.len() == 0 {
                        lemma_first_where_none(layout@.states, has_discriminant(discriminant));
                    }
                }
                Err(discriminant)
            },
        };
        AsyncFnValue { ty: layout.clone(), state_value }
    }
}

impl SelectValue {
    /// Decodes each awaitee of a select future from the bytes that start at
    /// its offset.
    pub fn new(
        select_type: &SelectFuture,
        bytes: &[u8],
        future_types: &FutureTypes,
        depth: usize,
    ) -> (value: SelectValue)
        requires
            layouts_wf(future_types@),
        ensures
            values_view(value.awaitees@) == select_values(
                future_types@,
                select_type@,
                bytes@,
                depth as nat,
            ),
        decreases depth, 1nat,
    {
        let mut awaitees: Vec<FutureValue> = Vec::new();
        let mut i: usize = 0;
        while i < select_type.awaitees.len()
            invariant
                i <= select_type.awaitees.len(),
                awaitees.len() == i,
                layouts_wf(future_types@),
                forall|k: int|
                    0 <= k < i ==> (#[trigger] awaitees@[k])@ == future_value(
                        future_types@,
                        select_type@.awaitees[k].1,
                        tail(bytes@, select_type@.awaitees[k].0),
                        depth as nat,
                    ),
            decreases select_type.awaitees.len() - i,
        {
            let child = FutureValue::new_within(
                &select_type.awaitees[i].1,
                tail_of(bytes, select_type.awaitees[i].0),
                future_types,
                depth,
            );
            awaitees.push(child);
            i += 1;
        }
        proof {
            assert(values_view(awaitees@) =~= select_values(
                future_types@,
                select_type@,
                bytes@,
                depth as nat,
            ));
        }
        SelectValue { awaitees }
    }
}

impl JoinValue {
    /// Decodes one awaitee of a join future, whose wrapper starts at the
    /// beginning of `bytes`.
    pub fn child(
        ty: &JoinAwaiteeType,
        bytes: &[u8],
        future_types: &FutureTypes,
        depth: usize,
    ) -> (value: FutureValue)
        requires
            layouts_wf(future_types@),
        ensures
            value@ == join_child(future_types@, ty@, bytes@, depth as nat),
        decreases depth, 1nat,
    {
        match read_discriminant(bytes, ty.discriminant_offset, ty.discriminant_size) {
            Some(discriminant) => {
                if discriminant == ty.future_variant.discriminant {
                    FutureValue::new_within(
                        &ty.future_variant.ty,
                        window_or_none(bytes, ty.future_variant.offset, ty.future_variant.size),
                        future_types,
                        depth,
                    )
                } else if discriminant == ty.done_variant.discriminant {
                    FutureValue {
                        ty: ty.done_variant.ty.clone(),
                        kind: FutureValueKind::Unknown(
                            slice_to_vec(
                                window_or_none(
                                    bytes,
                                    ty.done_variant.offset,
                                    ty.done_variant.size,
                                ),
                            ),
                        ),
                    }
                } else {
                    // The value has been taken out of the wrapper.
                    FutureValue { ty: Type::Void, kind: FutureValueKind::Unknown(Vec::new()) }
                }
            },
            None => FutureValue { ty: Type::Void, kind: FutureValueKind::Unknown(Vec::new()) },
        }
    }

    /// Decodes each awaitee of a join future.
    pub fn new(
        join_type: &JoinFuture,
        bytes: &[u8],
        future_types: &FutureTypes,
        depth: usize,
    ) -> (value: JoinValue)
        requires
            layouts_wf(future_types@),
        ensures
            values_view(value.awaitees@) == join_values(
                future_types@,
                join_type@,
                bytes@,
                depth as nat,
            ),
        decreases depth, 2nat,
    {
        let mut awaitees: Vec<FutureValue> = Vec::new();
        let mut i: usize = 0;
        while i < join_type.awaitees.len()
            invariant
                i <= join_type.awaitees.len(),
                awaitees.len() == i,
                layouts_wf(future_types@),
                forall|k: int|
                    0 <= k < i ==> (#[trigger] awaitees@[k])@ == join_child(
                        future_types@,
                        join_type@.awaitees[k].1,
                        tail(bytes@, join_type@.awaitees[k].0),
                        depth as nat,
                    ),
            decreases join_type.awaitees.len() - i,
        {
            let child = JoinValue::child(
                &join_type.awaitees[i].1,
                tail_of(bytes, join_type.awaitees[i].0),
                future_types,
                depth,
            );
            awaitees.push(child);
            i += 1;
        }
        proof {
            assert(values_view(awaitees@) =~= join_values(
                future_types@,
                join_type@,
                bytes@,
                depth as nat,
            ));
        }
        JoinValue { awaitees }
    }
}

impl FutureValue {
    /// Decodes the future of type `ty` from `bytes`. The bytes of a future
    /// whose type has no known layout are kept as they are.
    pub fn new(ty: &Type, bytes: &[u8], future_types: &FutureTypes) -> (value: FutureValue)
        requires
            layouts_wf(future_types@),
        ensures
            value@ == future_value(future_types@, ty@, bytes@, MAX_FUTURE_DEPTH as nat),
    {
        FutureValue::new_within(ty, bytes, future_types, MAX_FUTURE_DEPTH)
    }

    /// [`FutureValue::new`] with a bound on the depth of the futures decoded.
    pub fn new_within(
        ty: &Type,
        bytes: &[u8],
        future_types: &FutureTypes,
        depth: usize,
    ) -> (value: FutureValue)
        requires
            layouts_wf(future_types@),
        ensures
            value@ == future_value(future_types@, ty@, bytes@, depth as nat),
        decreases depth, 0nat,
    {
        if depth == 0 {
            return FutureValue { ty: ty.clone(), kind: FutureValueKind::Unknown(slice_to_vec(bytes)) };
        }
        let below = depth - 1;
        let kind = match future_types.get(ty) {
            Some(future_type) => {
                proof {
                    lemma_first_where_holds(future_types@, holds_type(ty@));
                }
                match &future_type.kind {
                    FutureTypeKind::AsyncFn(layout) => {
                        if layout.total_size <= bytes.len() as u64 {
                            FutureValueKind::AsyncFn(
                                AsyncFnValue::new_within(layout, bytes, future_types, below),
                            )
                        } else {
                            FutureValueKind::Unknown(slice_to_vec(bytes))
                        }
                    },
                    FutureTypeKind::Select(select_type) => FutureValueKind::SelectValue(
                        SelectValue::new(select_type, bytes, future_types, below),
                    ),
                    FutureTypeKind::Join(join_type) => FutureValueKind::JoinValue(
                        JoinValue::new(join_type, bytes, future_types, below),
                    ),
                }
            },
            None => FutureValueKind::Unknown(slice_to_vec(bytes)),
        };
        FutureValue { ty: ty.clone(), kind }
    }

    /// The value of the future of an `async` function of type `ty`.
    pub fn async_fn(ty: &Type, async_fn_value: AsyncFnValue) -> (value: FutureValue)
        ensures
            value@ == (FutureValueView {
                ty: ty@,
                kind: FutureValueKindView::AsyncFn(async_fn_value@),
            }),
    {
        FutureValue { ty: ty.clone(), kind: FutureValueKind::AsyncFn(async_fn_value) }
    }
}

} // verus!
