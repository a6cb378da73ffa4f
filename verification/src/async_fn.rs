//! The memory layout of the state machines that the compiler generates for
//! `async` functions and blocks.
use vstd::prelude::*;
use crate::dwarf::{DebugInfo, Field, name_text, SourceLocation, StructType, TypeKind, Variant};
use crate::error::ModelError;
use crate::seqs::{
    equals, first_index, lemma_first_where_at, lemma_first_where_holds, lemma_first_where_none,
    lemma_sort_pairs,
    lemma_sort_pairs_distinct, lemma_sorted_pair_known, position_of, sort_pairs, sorted_pairs,
};
use crate::text::{
    chars_of, chars_start_with, decimal, occurs_at, push_decimal, push_text, same_text, string_of,
};
use crate::ty::{describe, MAX_TYPE_DEPTH, Type, TypeView};

verus! {

/// A location in the source code.
#[derive(Debug, Default, PartialEq, Eq, Hash)]
pub struct Source {
    pub path: String,
    pub line: u32,
    pub column: u32,
}

/// The mathematical value of a [`Source`].
pub struct SourceView {
    pub path: Seq<char>,
    pub line: u32,
    pub column: u32,
}

impl View for Source {
    type V = SourceView;

    open spec fn view(&self) -> SourceView {
        SourceView { path: self.path@, line: self.line, column: self.column }
    }
}

impl Clone for Source {
    fn clone(&self) -> (copy: Source)
        ensures
            copy@ == self@,
    {
        Source { path: self.path.clone(), line: self.line, column: self.column }
    }
}

/// A field of a future, found at a fixed place in its memory.
#[derive(Debug, Default, PartialEq, Eq, Hash)]
pub struct Member {
    pub name: String,
    pub ty: Type,
    /// Offset from the start of the future struct
    pub offset: u64,
    pub size: u64,
}

/// The mathematical value of a [`Member`].
pub struct MemberView {
    pub name: Seq<char>,
    pub ty: TypeView,
    pub offset: u64,
    pub size: u64,
}

impl View for Member {
    type V = MemberView;

    open spec fn view(&self) -> MemberView {
        MemberView { name: self.name@, ty: self.ty@, offset: self.offset, size: self.size }
    }
}

impl Clone for Member {
    fn clone(&self) -> (copy: Member)
        ensures
            copy@ == self@,
    {
        Member {
            name: self.name.clone(),
            ty: self.ty.clone(),
            offset: self.offset,
            size: self.size,
        }
    }
}

impl MemberView {
    /// The member lies within the first `total` bytes.
    pub open spec fn within(self, total: u64) -> bool {
        self.offset + self.size <= total
    }
}

impl Member {
    /// Whether two members have the same name, type, offset and size.
    pub fn same(&self, other: &Member) -> (eq: bool)
        ensures
            eq == (self@ == other@),
    {
        self.offset == other.offset && self.size == other.size && crate::text::same_text(
            self.name.as_str(),
            other.name.as_str(),
        ) && self.ty.same(&other.ty)
    }

    /// Whether the member lies within the first `total` bytes.
    pub fn is_within(&self, total: u64) -> (yes: bool)
        ensures
            yes == self@.within(total),
    {
        self.offset <= total && self.size <= total - self.offset
    }
}

/// One state of the state machine of a future.
#[derive(Debug, PartialEq, Eq)]
pub struct State {
    pub discriminant_value: u64,
    /// The members that hold a value in this state, as positions in
    /// [`Layout::members`].
    pub active_members: Vec<usize>,
    /// The future that this state waits for, if it waits for one.
    pub awaitee: Option<Member>,
    pub name: String,
    pub source: Option<Source>,
}

/// The mathematical value of a [`State`].
pub struct StateView {
    pub discriminant_value: u64,
    pub active_members: Seq<usize>,
    pub awaitee: Option<MemberView>,
    pub name: Seq<char>,
    pub source: Option<SourceView>,
}

impl View for State {
    type V = StateView;

    open spec fn view(&self) -> StateView {
        StateView {
            discriminant_value: self.discriminant_value,
            active_members: self.active_members@,
            awaitee: match self.awaitee {
                Some(m) => Some(m@),
                None => None,
            },
            name: self.name@,
            source: match self.source {
                Some(s) => Some(s@),
                None => None,
            },
        }
    }
}

impl Clone for State {
    fn clone(&self) -> (copy: State)
        ensures
            copy@ == self@,
    {
        let active_members = self.active_members.clone();
        let copy = State {
            discriminant_value: self.discriminant_value,
            active_members,
            awaitee: match &self.awaitee {
                Some(m) => Some(m.clone()),
                None => None,
            },
            name: self.name.clone(),
            source: match &self.source {
                Some(s) => Some(s.clone()),
                None => None,
            },
        };
        proof {
            assert(copy.active_members@ =~= self.active_members@);
        }
        copy
    }
}

/// The layout of a future type
#[derive(Debug, PartialEq, Eq)]
pub struct Layout {
    /// The members of all states, each once, from the smallest offset to the
    /// biggest.
    pub members: Vec<Member>,
    /// The member that holds the discriminant of the current state.
    pub state_member: Member,
    pub total_size: u64,
    pub states: Vec<State>,
}

/// The mathematical value of a [`Layout`].
pub struct LayoutView {
    pub members: Seq<MemberView>,
    pub state_member: MemberView,
    pub total_size: u64,
    pub states: Seq<StateView>,
}

impl View for Layout {
    type V = LayoutView;

    open spec fn view(&self) -> LayoutView {
        LayoutView {
            members: self.members@.map_values(|m: Member| m@),
            state_member: self.state_member@,
            total_size: self.total_size,
            states: self.states@.map_values(|s: State| s@),
        }
    }
}

/// Copies a list of members.
pub fn clone_members(members: &Vec<Member>) -> (copy: Vec<Member>)
    ensures
        copy@.map_values(|m: Member| m@) == members@.map_values(|m: Member| m@),
{
    let mut copy: Vec<Member> = Vec::new();
    let mut i: usize = 0;
    while i < members.len()
        invariant
            i <= members.len(),
            copy.len() == i,
            forall|k: int| 0 <= k < i ==> copy@[k]@ == members@[k]@,
        decreases members.len() - i,
    {
        copy.push(members[i].clone());
        i += 1;
    }
    proof {
        assert(copy@.map_values(|m: Member| m@) =~= members@.map_values(|m: Member| m@));
    }
    copy
}

/// Copies a list of states.
pub fn clone_states(states: &Vec<State>) -> (copy: Vec<State>)
    ensures
        copy@.map_values(|s: State| s@) == states@.map_values(|s: State| s@),
{
    let mut copy: Vec<State> = Vec::new();
    let mut i: usize = 0;
    while i < states.len()
        invariant
            i <= states.len(),
            copy.len() == i,
            forall|k: int| 0 <= k < i ==> copy@[k]@ == states@[k]@,
        decreases states.len() - i,
    {
        copy.push(states[i].clone());
        i += 1;
    }
    proof {
        assert(copy@.map_values(|s: State| s@) =~= states@.map_values(|s: State| s@));
    }
    copy
}

impl Clone for Layout {
    fn clone(&self) -> (copy: Layout)
        ensures
            copy@ == self@,
    {
        Layout {
            members: clone_members(&self.members),
            state_member: self.state_member.clone(),
            total_size: self.total_size,
            states: clone_states(&self.states),
        }
    }
}

/// The sizes that a discriminant can have.
pub open spec fn is_discriminant_size(size: u64) -> bool {
    size == 1 || size == 2 || size == 4 || size == 8
}

impl StateView {
    /// The state refers to members of a layout with `count` members, in
    /// rising order and each once, and its awaitee lies within `total` bytes.
    pub open spec fn fits(self, count: nat, total: u64) -> bool {
        &&& forall|i: int| 0 <= i < self.active_members.len() ==> self.active_members[i] < count
        &&& forall|i: int, j: int|
            0 <= i < j < self.active_members.len() ==> self.active_members[i]
                < self.active_members[j]
        &&& self.awaitee is Some ==> self.awaitee->0.within(total)
    }
}

impl LayoutView {
    /// The members are sorted by offset.
    pub open spec fn sorted(self) -> bool {
        forall|i: int, j: int|
            0 <= i <= j < self.members.len() ==> self.members[i].offset <= self.members[j].offset
    }

    /// No two states have the same discriminant value.
    pub open spec fn distinct_discriminants(self) -> bool {
        forall|i: int, j: int|
            0 <= i < j < self.states.len() ==> self.states[i].discriminant_value
                != self.states[j].discriminant_value
    }

    /// What holds of every layout: its members are sorted by offset and lie
    /// within the future, its states refer to existing members and have
    /// discriminant values of their own, and the discriminant has a size
    /// that can be read.
    pub open spec fn wf(self) -> bool {
        &&& self.sorted()
        &&& forall|i: int| 0 <= i < self.members.len() ==> (#[trigger] self.members[i]).within(
            self.total_size,
        )
        &&& self.state_member.within(self.total_size)
        &&& is_discriminant_size(self.state_member.size)
        &&& forall|i: int|
            0 <= i < self.states.len() ==> (#[trigger] self.states[i]).fits(
                self.members.len(),
                self.total_size,
            )
        &&& self.distinct_discriminants()
    }
}

/// The member that the debug information describes by `field`. Its offset
/// and size are counted in bytes.
pub open spec fn member_of(info: &DebugInfo, field: Field) -> Result<MemberView, ModelError> {
    match field.name {
        None => Err(ModelError::MemberWithoutName),
        Some(name) => match field.bit_size {
            None => Err(ModelError::MemberWithoutSize),
            Some(bits) => if bits % 8 != 0 {
                Err(ModelError::MemberNotInBytes)
            } else {
                Ok(
                    MemberView {
                        name: name@,
                        ty: describe(info, field.ty, MAX_TYPE_DEPTH as nat),
                        offset: field.bit_offset / 8,
                        size: bits / 8,
                    },
                )
            },
        },
    }
}

/// The source location that the debug information gives, where it names a
/// file: the file, behind its directory where it has one.
pub open spec fn source_of(source: SourceLocation) -> Option<SourceView> {
    match source.file {
        None => None,
        Some(file) => if file@.len() == 0 {
            None
        } else {
            Some(
                SourceView {
                    path: match source.directory {
                        None => file@,
                        Some(dir) => if dir@.len() == 0 {
                            file@
                        } else {
                            dir@ + "/"@ + file@
                        },
                    },
                    line: source.line,
                    column: source.column,
                },
            )
        },
    }
}

/// What was gathered from the members of one variant.
pub struct Gathered {
    /// The members of the future found so far, each once.
    pub members: Seq<MemberView>,
    /// The positions in `members` of the members of this variant.
    pub active: Seq<usize>,
    /// The awaitee of this variant.
    pub awaitee: Option<MemberView>,
}

/// Takes one member of a variant into account. The member named
/// `__awaitee` is set aside, members without size are dropped, and a member
/// that was seen before, in this or in an earlier variant, is not added a
/// second time.
pub open spec fn gather_field(info: &DebugInfo, g: Gathered, field: Field) -> Result<
    Gathered,
    ModelError,
> {
    match member_of(info, field) {
        Err(e) => Err(e),
        Ok(m) => if m.name == "__awaitee"@ {
            if g.awaitee is Some {
                Err(ModelError::MultipleAwaitees)
            } else {
                Ok(Gathered { awaitee: Some(m), ..g })
            }
        } else if m.size == 0 {
            Ok(g)
        } else {
            let members = if first_index(g.members, m) is Some {
                g.members
            } else {
                g.members.push(m)
            };
            let id = match first_index(g.members, m) {
                Some(i) => i as usize,
                None => g.members.len() as usize,
            };
            Ok(
                Gathered {
                    members,
                    active: if g.active.contains(id) {
                        g.active
                    } else {
                        g.active.push(id)
                    },
                    awaitee: g.awaitee,
                },
            )
        },
    }
}

/// Takes the members `fields` of a variant into account, one after the other.
pub open spec fn gather_fields(info: &DebugInfo, start: Gathered, fields: Seq<Field>) -> Result<
    Gathered,
    ModelError,
>
    decreases fields.len(),
{
    if fields.len() == 0 {
        Ok(start)
    } else {
        match gather_fields(info, start, fields.drop_last()) {
            Err(e) => Err(e),
            Ok(g) => gather_field(info, g, fields.last()),
        }
    }
}

/// The state that a variant describes, with what was gathered from its
/// members.
pub open spec fn state_of_variant(variant: Variant, g: Gathered) -> Result<StateView, ModelError> {
    match variant.discriminant_value {
        None => Err(ModelError::VariantWithoutDiscriminant),
        Some(d) => Ok(
            StateView {
                discriminant_value: d,
                active_members: g.active,
                awaitee: g.awaitee,
                name: name_text(variant.name),
                source: source_of(variant.source),
            },
        ),
    }
}

/// What was gathered from the variants of a future.
pub struct GatheredStates {
    pub members: Seq<MemberView>,
    pub states: Seq<StateView>,
}

/// Takes one variant into account.
pub open spec fn gather_variant(info: &DebugInfo, acc: GatheredStates, variant: Variant) -> Result<
    GatheredStates,
    ModelError,
> {
    match gather_fields(
        info,
        Gathered { members: acc.members, active: Seq::empty(), awaitee: None },
        variant.members@,
    ) {
        Err(e) => Err(e),
        Ok(g) => match state_of_variant(variant, g) {
            Err(e) => Err(e),
            Ok(state) => Ok(GatheredStates { members: g.members, states: acc.states.push(state) }),
        },
    }
}

/// Takes the variants of a future into account, one after the other.
pub open spec fn gather_variants(info: &DebugInfo, variants: Seq<Variant>) -> Result<
    GatheredStates,
    ModelError,
>
    decreases variants.len(),
{
    if variants.len() == 0 {
        Ok(GatheredStates { members: Seq::empty(), states: Seq::empty() })
    } else {
        match gather_variants(info, variants.drop_last()) {
            Err(e) => Err(e),
            Ok(acc) => gather_variant(info, acc, variants.last()),
        }
    }
}

/// The layout of the future that the structure `st` describes, with its
/// members in the order in which they were found.
pub open spec fn unsorted_layout(info: &DebugInfo, st: StructType) -> Result<
    LayoutView,
    ModelError,
> {
    if st.variant_parts@.len() != 1 {
        Err(ModelError::VariantParts)
    } else {
        match gather_variants(info, st.variant_parts@[0].variants@) {
            Err(e) => Err(e),
            Ok(g) => if st.members@.len() != 1 {
                Err(ModelError::StateMember)
            } else {
                match member_of(info, st.members@[0]) {
                    Err(e) => Err(e),
                    Ok(state_member) => if state_member.name != "__state"@ {
                        Err(ModelError::StateMemberName)
                    } else {
                        match st.byte_size {
                            None => Err(ModelError::FutureWithoutSize),
                            Some(total_size) => Ok(
                                LayoutView {
                                    members: g.members,
                                    state_member,
                                    total_size,
                                    states: g.states,
                                },
                            ),
                        }
                    },
                }
            },
        }
    }
}

impl SourceView {
    /// How the location is written: the path, followed by the line and the
    /// column where they are known.
    pub open spec fn text(self) -> Seq<char> {
        if self.line == 0 {
            self.path
        } else if self.column == 0 {
            self.path + ":"@ + decimal(self.line as nat)
        } else {
            self.path + ":"@ + decimal(self.line as nat) + ":"@ + decimal(self.column as nat)
        }
    }
}

impl Source {
    /// The written form of the location: `path`, `path:line` or
    /// `path:line:column`.
    pub fn to_string(&self) -> (text: String)
        ensures
            text@ == self@.text(),
    {
        let mut out: Vec<char> = Vec::new();
        push_text(&mut out, self.path.as_str());
        if self.line != 0 {
            push_text(&mut out, ":");
            push_decimal(&mut out, self.line as u64);
            if self.column != 0 {
                push_text(&mut out, ":");
                push_decimal(&mut out, self.column as u64);
            }
        }
        string_of(&out)
    }

    /// The source location that the debug information gives.
    pub fn from_location(source: &SourceLocation) -> (found: Option<Source>)
        ensures
            match found {
                Some(s) => source_of(*source) == Some(s@),
                None => source_of(*source) is None,
            },
    {
        let file = match &source.file {
            None => {
                return None;
            },
            Some(file) => file,
        };
        let mut path: Vec<char> = Vec::new();
        push_text(&mut path, file.as_str());
        if path.len() == 0 {
            return None;
        }
        match &source.directory {
            None => {},
            Some(dir) => {
                let mut full: Vec<char> = Vec::new();
                push_text(&mut full, dir.as_str());
                if full.len() > 0 {
                    push_text(&mut full, "/");
                    push_text(&mut full, file.as_str());
                    path = full;
                }
            },
        }
        Some(Source { path: string_of(&path), line: source.line, column: source.column })
    }
}

impl Member {
    /// The member that the debug information describes by `field`.
    pub fn from_field(info: &DebugInfo, field: &Field) -> (found: Result<Member, ModelError>)
        ensures
            match found {
                Ok(m) => member_of(info, *field) == Ok::<MemberView, ModelError>(m@),
                Err(e) => member_of(info, *field) == Err::<MemberView, ModelError>(e),
            },
    {
        let name = match &field.name {
            None => {
                return Err(ModelError::MemberWithoutName);
            },
            Some(name) => name.clone(),
        };
        let ty = Type::from_ref(info, field.ty);
        let bits = match field.bit_size {
            None => {
                return Err(ModelError::MemberWithoutSize);
            },
            Some(bits) => bits,
        };
        if bits % 8 != 0 {
            return Err(ModelError::MemberNotInBytes);
        }
        Ok(Member { name, ty, offset: field.bit_offset / 8, size: bits / 8 })
    }
}

/// The mathematical values of a list of members.
pub open spec fn members_view(members: Seq<Member>) -> Seq<MemberView> {
    members.map_values(|m: Member| m@)
}

/// The mathematical values of a list of states.
pub open spec fn states_view(states: Seq<State>) -> Seq<StateView> {
    states.map_values(|s: State| s@)
}

/// The mathematical value of what was gathered from a variant.
pub open spec fn gathered(members: Seq<Member>, active: Seq<usize>, awaitee: Option<Member>) -> Gathered {
    Gathered {
        members: members_view(members),
        active,
        awaitee: match awaitee {
            Some(m) => Some(m@),
            None => None,
        },
    }
}

/// The position of the member `m` in `members`.
fn member_position(members: &Vec<Member>, m: &Member) -> (found: Option<usize>)
    ensures
        match found {
            Some(i) => first_index(members_view(members@), m@) == Some(i as int),
            None => first_index(members_view(members@), m@) is None,
        },
{
    let mut i: usize = 0;
    while i < members.len()
        invariant
            i <= members.len(),
            forall|j: int| 0 <= j < i ==> members_view(members@)[j] != m@,
        decreases members.len() - i,
    {
        if members[i].same(m) {
            proof {
                lemma_first_where_at(members_view(members@), equals(m@), i as int);
            }
            return Some(i);
        }
        i += 1;
    }
    proof {
        lemma_first_where_none(members_view(members@), equals(m@));
    }
    None
}

fn gather_one(
    info: &DebugInfo,
    members: &mut Vec<Member>,
    active: &mut Vec<usize>,
    awaitee: &mut Option<Member>,
    field: &Field,
) -> (done: Result<(), ModelError>)
    ensures
        match done {
            Ok(_) => gather_field(info, gathered(old(members)@, old(active)@, *old(awaitee)), *field)
                == Ok::<Gathered, ModelError>(
                gathered(final(members)@, final(active)@, *final(awaitee)),
            ),
            Err(e) => gather_field(
                info,
                gathered(old(members)@, old(active)@, *old(awaitee)),
                *field,
            ) == Err::<Gathered, ModelError>(e),
        },
{
    let ghost g = gathered(members@, active@, *awaitee);
    let member = match Member::from_field(info, field) {
        Err(e) => {
            return Err(e);
        },
        Ok(member) => member,
    };
    if same_text(member.name.as_str(), "__awaitee") {
        if awaitee.is_some() {
            return Err(ModelError::MultipleAwaitees);
        }
        *awaitee = Some(member);
        return Ok(());
    }
    if member.size == 0 {
        return Ok(());
    }
    let id = match member_position(members, &member) {
        Some(other_id) => other_id,
        None => {
            let member_id = members.len();
            members.push(member);
            proof {
                assert(members_view(members@) =~= g.members.push(member@));
            }
            member_id
        },
    };
    // The debug information sometimes holds the same field several times.
    proof {
        lemma_first_where_holds(active@, equals(id));
    }
    if position_of(active, id).is_none() {
        active.push(id);
    }
    Ok(())
}

fn gather_all(
    info: &DebugInfo,
    members: &mut Vec<Member>,
    active: &mut Vec<usize>,
    awaitee: &mut Option<Member>,
    fields: &Vec<Field>,
) -> (done: Result<(), ModelError>)
    ensures
        match done {
            Ok(_) => gather_fields(
                info,
                gathered(old(members)@, old(active)@, *old(awaitee)),
                fields@,
            ) == Ok::<Gathered, ModelError>(
                gathered(final(members)@, final(active)@, *final(awaitee)),
            ),
            Err(e) => gather_fields(
                info,
                gathered(old(members)@, old(active)@, *old(awaitee)),
                fields@,
            ) == Err::<Gathered, ModelError>(e),
        },
{
    let ghost start = gathered(members@, active@, *awaitee);
    let mut i: usize = 0;
    while i < fields.len()
        invariant
            i <= fields.len(),
            start == gathered(old(members)@, old(active)@, *old(awaitee)),
            gather_fields(info, start, fields@.take(i as int)) == Ok::<Gathered, ModelError>(
                gathered(members@, active@, *awaitee),
            ),
        decreases fields.len() - i,
    {
        proof {
            assert(fields@.take(i as int + 1).drop_last() == fields@.take(i as int));
        }
        match gather_one(info, members, active, awaitee, &fields[i]) {
            Err(e) => {
                proof {
                    lemma_gather_fields_fails(info, start, fields@, i as int + 1);
                }
                return Err(e);
            },
            Ok(_) => {},
        }
        i += 1;
    }
    proof {
        assert(fields@.take(fields.len() as int) == fields@);
    }
    Ok(())
}

/// Once a member was refused, the whole variant is refused for it.
proof fn lemma_gather_fields_fails(info: &DebugInfo, start: Gathered, fields: Seq<Field>, n: int)
    requires
        0 <= n <= fields.len(),
        gather_fields(info, start, fields.take(n)) is Err,
    ensures
        gather_fields(info, start, fields) == gather_fields(info, start, fields.take(n)),
    decreases fields.len() - n,
{
    if n < fields.len() {
        assert(fields.take(n + 1).drop_last() == fields.take(n));
        lemma_gather_fields_fails(info, start, fields, n + 1);
    } else {
        assert(fields.take(n) == fields);
    }
}

/// Once a variant was refused, the whole future is refused for it.
proof fn lemma_gather_variants_fails(info: &DebugInfo, variants: Seq<Variant>, n: int)
    requires
        0 <= n <= variants.len(),
        gather_variants(info, variants.take(n)) is Err,
    ensures
        gather_variants(info, variants) == gather_variants(info, variants.take(n)),
    decreases variants.len() - n,
{
    if n < variants.len() {
        assert(variants.take(n + 1).drop_last() == variants.take(n));
        lemma_gather_variants_fails(info, variants, n + 1);
    } else {
        assert(variants.take(n) == variants);
    }
}

impl State {
    /// The state that a variant describes, with the members gathered for it.
    pub fn from_variant(variant: &Variant, active_members: Vec<usize>, awaitee: Option<Member>) -> (found:
        Result<State, ModelError>)
        ensures
            match found {
                Ok(s) => state_of_variant(*variant, gathered(Seq::empty(), active_members@, awaitee))
                    == Ok::<StateView, ModelError>(s@),
                Err(e) => state_of_variant(
                    *variant,
                    gathered(Seq::empty(), active_members@, awaitee),
                ) == Err::<StateView, ModelError>(e),
            },
    {
        let mut name: Vec<char> = Vec::new();
        match &variant.name {
            Some(n) => push_text(&mut name, n.as_str()),
            None => push_text(&mut name, "<unknown>"),
        }
        let discriminant_value = match variant.discriminant_value {
            None => {
                return Err(ModelError::VariantWithoutDiscriminant);
            },
            Some(d) => d,
        };
        Ok(
            State {
                name: string_of(&name),
                discriminant_value,
                active_members,
                awaitee,
                source: Source::from_location(&variant.source),
            },
        )
    }
}

impl Layout {
    /// Gathers the layout of the future that the structure `st` describes,
    /// with its members in the order in which they were found.
    pub fn gather(info: &DebugInfo, st: &StructType) -> (found: Result<Layout, ModelError>)
        ensures
            match found {
                Ok(l) => unsorted_layout(info, *st) == Ok::<LayoutView, ModelError>(l@),
                Err(e) => unsorted_layout(info, *st) == Err::<LayoutView, ModelError>(e),
            },
    {
        if st.variant_parts.len() != 1 {
            return Err(ModelError::VariantParts);
        }
        let variants = &st.variant_parts[0].variants;
        let mut members: Vec<Member> = Vec::new();
        let mut states: Vec<State> = Vec::new();
        let mut i: usize = 0;
        proof {
            assert(members_view(members@) =~= Seq::<MemberView>::empty());
            assert(states_view(states@) =~= Seq::<StateView>::empty());
        }
        while i < variants.len()
            invariant
                i <= variants.len(),
                st.variant_parts@.len() == 1,
                variants == st.variant_parts@[0].variants,
                gather_variants(info, variants@.take(i as int)) == Ok::<GatheredStates, ModelError>(
                    GatheredStates {
                        members: members_view(members@),
                        states: states_view(states@),
                    },
                ),
            decreases variants.len() - i,
        {
            let ghost acc = GatheredStates {
                members: members_view(members@),
                states: states_view(states@),
            };
            proof {
                assert(variants@.take(i as int + 1).drop_last() == variants@.take(i as int));
            }
            let variant = &variants[i];
            let mut active_members: Vec<usize> = Vec::new();
            let mut awaitee: Option<Member> = None;
            proof {
                assert(gathered(members@, active_members@, awaitee) == Gathered {
                    members: acc.members,
                    active: Seq::empty(),
                    awaitee: None,
                });
            }
            match gather_all(info, &mut members, &mut active_members, &mut awaitee, &variant.members) {
                Err(e) => {
                    proof {
                        lemma_gather_variants_fails(info, variants@, i as int + 1);
                    }
                    return Err(e);
                },
                Ok(_) => {},
            }
            match State::from_variant(variant, active_members, awaitee) {
                Err(e) => {
                    proof {
                        lemma_gather_variants_fails(info, variants@, i as int + 1);
                    }
                    return Err(e);
                },
                Ok(state) => {
                    states.push(state);
                    proof {
                        assert(states_view(states@) =~= acc.states.push(state@));
                    }
                },
            }
            i += 1;
        }
        proof {
            assert(variants@.take(variants.len() as int) == variants@);
        }
        if st.members.len() != 1 {
            return Err(ModelError::StateMember);
        }
        let state_member = match Member::from_field(info, &st.members[0]) {
            Err(e) => {
                return Err(e);
            },
            Ok(m) => m,
        };
        if !same_text(state_member.name.as_str(), "__state") {
            return Err(ModelError::StateMemberName);
        }
        let total_size = match st.byte_size {
            None => {
                return Err(ModelError::FutureWithoutSize);
            },
            Some(total_size) => total_size,
        };
        Ok(Layout { members, state_member, total_size, states })
    }
}

fn members_sorted(members: &Vec<Member>) -> (ok: bool)
    ensures
        ok == forall|i: int, j: int|
            0 <= i <= j < members.len() ==> members@[i].offset <= members@[j].offset,
{
    let mut k: usize = 1;
    while k < members.len()
        invariant
            1 <= k,
            forall|i: int, j: int|
                0 <= i <= j < k && j < members.len() ==> members@[i].offset <= members@[j].offset,
        decreases members.len() - k,
    {
        if members[k - 1].offset > members[k].offset {
            return false;
        }
        k += 1;
    }
    true
}

fn members_within(members: &Vec<Member>, total: u64) -> (ok: bool)
    ensures
        ok == forall|i: int| 0 <= i < members.len() ==> (#[trigger] members@[i]@).within(total),
{
    let mut k: usize = 0;
    while k < members.len()
        invariant
            k <= members.len(),
            forall|i: int| 0 <= i < k ==> (#[trigger] members@[i]@).within(total),
        decreases members.len() - k,
    {
        if !members[k].is_within(total) {
            return false;
        }
        k += 1;
    }
    true
}

impl State {
    /// Whether the state refers to members of a layout with `count`
    /// members, in rising order and each once, and its awaitee lies within
    /// `total` bytes.
    pub fn fits(&self, count: usize, total: u64) -> (ok: bool)
        ensures
            ok == self@.fits(count as nat, total),
    {
        let mut k: usize = 0;
        while k < self.active_members.len()
            invariant
                k <= self.active_members.len(),
                forall|i: int| 0 <= i < k ==> self.active_members@[i] < count,
                forall|i: int, j: int|
                    0 <= i < j < k ==> self.active_members@[i] < self.active_members@[j],
            decreases self.active_members.len() - k,
        {
            if self.active_members[k] >= count {
                proof {
                    assert(self@.active_members[k as int] >= count);
                }
                return false;
            }
            if k > 0 && self.active_members[k - 1] >= self.active_members[k] {
                proof {
                    assert(self@.active_members[k - 1] >= self@.active_members[k as int]);
                }
                return false;
            }
            k += 1;
        }
        match &self.awaitee {
            Some(a) => a.is_within(total),
            None => true,
        }
    }
}

fn states_fit(states: &Vec<State>, count: usize, total: u64) -> (ok: bool)
    ensures
        ok == forall|i: int|
            0 <= i < states.len() ==> (#[trigger] states@[i]@).fits(count as nat, total),
{
    let mut k: usize = 0;
    while k < states.len()
        invariant
            k <= states.len(),
            forall|i: int| 0 <= i < k ==> (#[trigger] states@[i]@).fits(count as nat, total),
        decreases states.len() - k,
    {
        if !states[k].fits(count, total) {
            return false;
        }
        k += 1;
    }
    true
}

fn states_distinct(states: &Vec<State>) -> (ok: bool)
    ensures
        ok == forall|i: int, j: int|
            0 <= i < j < states.len() ==> states@[i].discriminant_value
                != states@[j].discriminant_value,
{
    let mut b: usize = 0;
    while b < states.len()
        invariant
            b <= states.len(),
            forall|i: int, j: int|
                0 <= i < j < b ==> states@[i].discriminant_value != states@[j].discriminant_value,
        decreases states.len() - b,
    {
        let mut a: usize = 0;
        while a < b
            invariant
                a <= b < states.len(),
                forall|i: int|
                    0 <= i < a ==> states@[i].discriminant_value != states@[b as int].discriminant_value,
            decreases b - a,
        {
            if states[a].discriminant_value == states[b].discriminant_value {
                return false;
            }
            a += 1;
        }
        b += 1;
    }
    true
}

impl Layout {
    /// Whether the layout is well formed.
    pub fn is_wf(&self) -> (ok: bool)
        ensures
            ok == self@.wf(),
    {
        let sorted = members_sorted(&self.members);
        let within = members_within(&self.members, self.total_size);
        let state_member = self.state_member.is_within(self.total_size) && (self.state_member.size
            == 1 || self.state_member.size == 2 || self.state_member.size == 4
            || self.state_member.size == 8);
        let fit = states_fit(&self.states, self.members.len(), self.total_size);
        let distinct = states_distinct(&self.states);
        proof {
            let v = self@;
            assert(v.members.len() == self.members@.len());
            assert(v.states.len() == self.states@.len());
            assert(forall|i: int| 0 <= i < v.members.len() ==> v.members[i] == self.members@[i]@);
            assert(forall|i: int| 0 <= i < v.states.len() ==> v.states[i] == self.states@[i]@);
            if sorted {
                assert forall|i: int, j: int| 0 <= i <= j < v.members.len() implies v.members[i].offset
                    <= v.members[j].offset by {
                    assert(self.members@[i].offset <= self.members@[j].offset);
                }
            }
            if v.sorted() {
                assert forall|i: int, j: int| 0 <= i <= j < self.members.len() implies self.members@[i].offset
                    <= self.members@[j].offset by {
                    assert(v.members[i].offset <= v.members[j].offset);
                }
            }
            assert(sorted == v.sorted());
            if within {
                assert forall|i: int| 0 <= i < v.members.len() implies (#[trigger] v.members[i]).within(
                    v.total_size,
                ) by {
                    assert(self.members@[i]@.within(v.total_size));
                }
            }
            if forall|i: int|
                0 <= i < v.members.len() ==> (#[trigger] v.members[i]).within(v.total_size) {
                assert forall|i: int| 0 <= i < self.members.len() implies (
                #[trigger] self.members@[i]@).within(v.total_size) by {
                    assert(v.members[i].within(v.total_size));
                }
            }
            if fit {
                assert forall|i: int| 0 <= i < v.states.len() implies (#[trigger] v.states[i]).fits(
                    v.members.len(),
                    v.total_size,
                ) by {
                    assert(self.states@[i]@.fits(v.members.len(), v.total_size));
                }
            }
            if forall|i: int|
                0 <= i < v.states.len() ==> (#[trigger] v.states[i]).fits(
                    v.members.len(),
                    v.total_size,
                ) {
                assert forall|i: int| 0 <= i < self.states.len() implies (
                #[trigger] self.states@[i]@).fits(v.members.len(), v.total_size) by {
                    assert(v.states[i].fits(v.members.len(), v.total_size));
                }
            }
            if distinct {
                assert forall|i: int, j: int| 0 <= i < j < v.states.len() implies v.states[i].discriminant_value
                    != v.states[j].discriminant_value by {
                    assert(self.states@[i].discriminant_value != self.states@[j].discriminant_value);
                }
            }
            if v.distinct_discriminants() {
                assert forall|i: int, j: int| 0 <= i < j < self.states.len() implies self.states@[i].discriminant_value
                    != self.states@[j].discriminant_value by {
                    assert(v.states[i].discriminant_value != v.states[j].discriminant_value);
                }
            }
            assert(fit == forall|i: int|
                0 <= i < v.states.len() ==> (#[trigger] v.states[i]).fits(
                    v.members.len(),
                    v.total_size,
                ));
            assert(distinct == v.distinct_discriminants());
        }
        sorted && within && state_member && fit && distinct
    }
}

/// For each member its offset, together with its position.
pub open spec fn offsets_of(members: Seq<MemberView>) -> Seq<(u64, usize)> {
    Seq::new(members.len(), |i: int| (members[i].offset, i as usize))
}

/// The second parts of the pairs of `pairs`.
pub open spec fn ids_of(pairs: Seq<(u64, usize)>) -> Seq<usize> {
    pairs.map_values(|p: (u64, usize)| p.1)
}

/// The position that the member at the old position `id` has in `order`.
pub open spec fn new_id(order: Seq<(u64, usize)>, id: usize) -> usize {
    match first_index(ids_of(order), id) {
        Some(p) => p as usize,
        None => order.len() as usize,
    }
}

/// The old positions `active` as new positions, from the smallest to the
/// biggest.
pub open spec fn resorted(active: Seq<usize>, order: Seq<(u64, usize)>) -> Seq<usize> {
    ids_of(sort_pairs(active.map_values(|id: usize| (new_id(order, id) as u64, new_id(order, id)))))
}

/// The state `s` with its members referred to by their new positions.
pub open spec fn resorted_state(s: StateView, order: Seq<(u64, usize)>) -> StateView {
    StateView { active_members: resorted(s.active_members, order), ..s }
}

/// The layout `l` with its members sorted from the smallest to the biggest
/// offset. Members with the same offset keep their order, and the states
/// refer to the same members as before.
pub open spec fn sorted_layout(l: LayoutView) -> LayoutView {
    let order = sort_pairs(offsets_of(l.members));
    LayoutView {
        members: Seq::new(l.members.len(), |p: int| l.members[order[p].1 as int]),
        states: Seq::new(l.states.len(), |k: int| resorted_state(l.states[k], order)),
        ..l
    }
}

fn remap(active: &Vec<usize>, order: &Vec<(u64, usize)>) -> (out: Vec<usize>)
    ensures
        out@ == resorted(active@, order@),
{
    let mut ids: Vec<usize> = Vec::new();
    let mut i: usize = 0;
    while i < order.len()
        invariant
            i <= order.len(),
            ids.len() == i,
            forall|k: int| 0 <= k < i ==> ids@[k] == order@[k].1,
        decreases order.len() - i,
    {
        ids.push(order[i].1);
        i += 1;
    }
    proof {
        assert(ids@ =~= ids_of(order@));
    }
    let mut pairs: Vec<(u64, usize)> = Vec::new();
    let mut k: usize = 0;
    while k < active.len()
        invariant
            k <= active.len(),
            pairs.len() == k,
            ids@ == ids_of(order@),
            forall|j: int|
                0 <= j < k ==> pairs@[j] == (
                    new_id(order@, active@[j]) as u64,
                    new_id(order@, active@[j]),
                ),
        decreases active.len() - k,
    {
        let id = match position_of(&ids, active[k]) {
            Some(p) => p,
            None => order.len(),
        };
        pairs.push((id as u64, id));
        k += 1;
    }
    proof {
        assert(pairs@ =~= active@.map_values(
            |id: usize| (new_id(order@, id) as u64, new_id(order@, id)),
        ));
    }
    let sorted = sorted_pairs(&pairs);
    let mut out: Vec<usize> = Vec::new();
    let mut j: usize = 0;
    while j < sorted.len()
        invariant
            j <= sorted.len(),
            out.len() == j,
            forall|q: int| 0 <= q < j ==> out@[q] == sorted@[q].1,
        decreases sorted.len() - j,
    {
        out.push(sorted[j].1);
        j += 1;
    }
    proof {
        assert(out@ =~= ids_of(sorted@));
    }
    out
}

impl Layout {
    /// Sort the members from smallest to biggest offset while keeping all
    /// references of the states to them intact.
    pub fn sort_members_by_offset(&mut self)
        ensures
            final(self)@ == sorted_layout(old(self)@),
    {
        let ghost before = self@;
        let n = self.members.len();
        let mut pairs: Vec<(u64, usize)> = Vec::new();
        let mut i: usize = 0;
        while i < n
            invariant
                i <= n,
                n == self.members.len(),
                pairs.len() == i,
                forall|k: int| 0 <= k < i ==> pairs@[k] == (self.members@[k].offset, k as usize),
            decreases n - i,
        {
            pairs.push((self.members[i].offset, i));
            i += 1;
        }
        proof {
            assert(pairs@ =~= offsets_of(before.members));
        }
        let order = sorted_pairs(&pairs);
        proof {
            lemma_sort_pairs(pairs@);
        }
        let mut new_members: Vec<Member> = Vec::new();
        let mut p: usize = 0;
        while p < n
            invariant
                p <= n,
                n == self.members.len(),
                n == pairs.len(),
                order@ == sort_pairs(pairs@),
                order.len() == n,
                new_members.len() == p,
                before == self@,
                forall|k: int| 0 <= k < n ==> pairs@[k].1 == k,
                forall|q: int|
                    0 <= q < p ==> (#[trigger] new_members@[q])@ == before.members[order@[q].1 as int],
            decreases n - p,
        {
            proof {
                lemma_sorted_pair_known(pairs@, p as int);
                let k = choose|k: int| 0 <= k < pairs@.len() && pairs@[k] == order@[p as int];
                assert(order@[p as int].1 == k);
            }
            new_members.push(self.members[order[p].1].clone());
            p += 1;
        }
        let mut new_states: Vec<State> = Vec::new();
        let mut k: usize = 0;
        while k < self.states.len()
            invariant
                k <= self.states.len(),
                new_states.len() == k,
                before == self@,
                forall|q: int|
                    0 <= q < k ==> (#[trigger] new_states@[q])@ == resorted_state(
                        before.states[q],
                        order@,
                    ),
            decreases self.states.len() - k,
        {
            let state = &self.states[k];
            let kept = state.clone();
            new_states.push(
                State {
                    discriminant_value: kept.discriminant_value,
                    active_members: remap(&state.active_members, &order),
                    awaitee: kept.awaitee,
                    name: kept.name,
                    source: kept.source,
                },
            );
            k += 1;
        }
        self.members = new_members;
        self.states = new_states;
        proof {
            assert(self@.members =~= sorted_layout(before).members);
            assert(self@.states =~= sorted_layout(before).states);
        }
    }
}

/// The layout of the future that the structure `st` describes: its states
/// and members as gathered, the members sorted by offset. A layout that is
/// not well formed is refused.
pub open spec fn layout_of_struct(info: &DebugInfo, st: StructType) -> Result<
    LayoutView,
    ModelError,
> {
    match unsorted_layout(info, st) {
        Err(e) => Err(e),
        Ok(l) => if sorted_layout(l).wf() {
            Ok(sorted_layout(l))
        } else {
            Err(ModelError::MalformedLayout)
        },
    }
}

/// Whether `name` is the name that the compiler gives to the type of a
/// future: one of the known names, behind at most one other character.
pub open spec fn is_future_name(name: Seq<char>) -> bool {
    exists|k: int|
        0 <= k < future_type_names().len() && (occurs_at(name, 0, #[trigger] future_type_names()[k])
            || occurs_at(name, 1, future_type_names()[k]))
}

/// The names that the compiler gives to the types of futures.
pub open spec fn future_type_names() -> Seq<Seq<char>> {
    seq![
        "gen_block"@,
        "gen_closure"@,
        "gen_fn"@,
        "async_block"@,
        "async_closure"@,
        "async_fn"@,
        "async_gen_block"@,
        "async_gen_closure"@,
        "async_gen_fn"@,
    ]
}

/// The layout of the future that the type record `kind` describes; none
/// where the record does not describe a future.
pub open spec fn layout_of_type(info: &DebugInfo, kind: TypeKind) -> Result<
    Option<LayoutView>,
    ModelError,
> {
    match kind {
        TypeKind::Struct(st) => match st.name {
            Some(name) => if is_future_name(name@) {
                match layout_of_struct(info, st) {
                    Ok(l) => Ok(Some(l)),
                    Err(e) => Err(e),
                }
            } else {
                Ok(None)
            },
            None => Ok(None),
        },
        _ => Ok(None),
    }
}

fn names_future(name: &str) -> (yes: bool)
    ensures
        yes == is_future_name(name@),
{
    let text = chars_of(name);
    let names = [
        "gen_block",
        "gen_closure",
        "gen_fn",
        "async_block",
        "async_closure",
        "async_fn",
        "async_gen_block",
        "async_gen_closure",
        "async_gen_fn",
    ];
    proof {
        assert(names@.len() == 9);
        assert(future_type_names().len() == 9);
    }
    let mut k: usize = 0;
    while k < 9
        invariant
            k <= 9,
            text@ == name@,
            names@.len() == 9,
            forall|j: int| 0 <= j < 9 ==> (#[trigger] names@[j])@ == future_type_names()[j],
            forall|j: int|
                0 <= j < k ==> !occurs_at(text@, 0, #[trigger] future_type_names()[j])
                    && !occurs_at(text@, 1, future_type_names()[j]),
        decreases 9 - k,
    {
        let pattern = chars_of(names[k]);
        if chars_start_with(&text, 0, &pattern) || chars_start_with(&text, 1, &pattern) {
            proof {
                assert(occurs_at(name@, 0, future_type_names()[k as int]) || occurs_at(
                    name@,
                    1,
                    future_type_names()[k as int],
                ));
            }
            return true;
        }
        k += 1;
    }
    false
}

impl Layout {
    /// The layout of the future that the structure `st` describes.
    pub fn from_struct(info: &DebugInfo, st: &StructType) -> (found: Result<Layout, ModelError>)
        ensures
            match found {
                Ok(l) => layout_of_struct(info, *st) == Ok::<LayoutView, ModelError>(l@) && l@.wf(),
                Err(e) => layout_of_struct(info, *st) == Err::<LayoutView, ModelError>(e),
            },
    {
        let mut layout = match Layout::gather(info, st) {
            Err(e) => {
                return Err(e);
            },
            Ok(layout) => layout,
        };
        layout.sort_members_by_offset();
        if !layout.is_wf() {
            return Err(ModelError::MalformedLayout);
        }
        Ok(layout)
    }

    /// The layout of the future that the type record `kind` describes; none
    /// where the record does not describe a future.
    pub fn from_type(info: &DebugInfo, kind: &TypeKind) -> (found: Result<Option<Layout>, ModelError>)
        ensures
            match found {
                Ok(Some(l)) => layout_of_type(info, *kind) == Ok::<Option<LayoutView>, ModelError>(
                    Some(l@),
                ) && l@.wf(),
                Ok(None) => layout_of_type(info, *kind) == Ok::<Option<LayoutView>, ModelError>(None),
                Err(e) => layout_of_type(info, *kind) == Err::<Option<LayoutView>, ModelError>(e),
            },
    {
        let st = match kind {
            TypeKind::Struct(st) => st,
            _ => {
                return Ok(None);
            },
        };
        let name = match &st.name {
            Some(name) => name,
            None => {
                return Ok(None);
            },
        };
        // The compiler names the types of futures `{async_fn#0}<T, K>`, or
        // `async_fn$0<T, K>` on some platforms.
        if !names_future(name.as_str()) {
            return Ok(None);
        }
        match Layout::from_struct(info, st) {
            Ok(l) => Ok(Some(l)),
            Err(e) => Err(e),
        }
    }
}

proof fn lemma_gather_field_distinct(info: &DebugInfo, g: Gathered, field: Field)
    requires
        g.members.no_duplicates(),
        gather_field(info, g, field) is Ok,
    ensures
        gather_field(info, g, field)->Ok_0.members.no_duplicates(),
{
    let m = member_of(info, field)->Ok_0;
    lemma_first_where_holds(g.members, equals(m));
}

proof fn lemma_gather_fields_distinct(info: &DebugInfo, start: Gathered, fields: Seq<Field>)
    requires
        start.members.no_duplicates(),
        gather_fields(info, start, fields) is Ok,
    ensures
        gather_fields(info, start, fields)->Ok_0.members.no_duplicates(),
    decreases fields.len(),
{
    if fields.len() > 0 {
        lemma_gather_fields_distinct(info, start, fields.drop_last());
        lemma_gather_field_distinct(
            info,
            gather_fields(info, start, fields.drop_last())->Ok_0,
            fields.last(),
        );
    }
}

proof fn lemma_gather_variants_distinct(info: &DebugInfo, variants: Seq<Variant>)
    requires
        gather_variants(info, variants) is Ok,
    ensures
        gather_variants(info, variants)->Ok_0.members.no_duplicates(),
    decreases variants.len(),
{
    if variants.len() > 0 {
        lemma_gather_variants_distinct(info, variants.drop_last());
        let acc = gather_variants(info, variants.drop_last())->Ok_0;
        lemma_gather_fields_distinct(
            info,
            Gathered { members: acc.members, active: Seq::empty(), awaitee: None },
            variants.last().members@,
        );
    }
}

/// Sorting members that are pairwise distinct gives members that are
/// pairwise distinct.
pub proof fn lemma_sorted_members_distinct(l: LayoutView)
    requires
        l.members.no_duplicates(),
        l.members.len() <= usize::MAX,
    ensures
        sorted_layout(l).members.no_duplicates(),
{
    let keys = offsets_of(l.members);
    let order = sort_pairs(keys);
    lemma_sort_pairs(keys);
    lemma_sort_pairs_distinct(keys);
    let sorted = sorted_layout(l).members;
    assert forall|p: int, q: int| 0 <= p < sorted.len() && 0 <= q < sorted.len() && p != q implies sorted[p]
        != sorted[q] by {
        lemma_sorted_pair_known(keys, p);
        lemma_sorted_pair_known(keys, q);
        let a = choose|a: int| 0 <= a < keys.len() && keys[a] == order[p];
        let b = choose|b: int| 0 <= b < keys.len() && keys[b] == order[q];
        assert(order[p] != order[q]);
        assert(a != b);
        assert(order[p].1 == a && order[q].1 == b);
        assert(l.members[a] != l.members[b]);
    }
}

/// No member is gathered twice for a structure, however often the debug
/// information names it.
pub proof fn lemma_gathered_members_distinct(info: &DebugInfo, st: StructType)
    requires
        unsorted_layout(info, st) is Ok,
    ensures
        unsorted_layout(info, st)->Ok_0.members.no_duplicates(),
{
    lemma_gather_variants_distinct(info, st.variant_parts@[0].variants@);
}

/// The positions `active` refer to members among the first `count`, each at
/// most once.
pub open spec fn ids_within(active: Seq<usize>, count: nat) -> bool {
    active.no_duplicates() && forall|i: int| 0 <= i < active.len() ==> active[i] < count
}

proof fn lemma_gather_field_ids(info: &DebugInfo, g: Gathered, field: Field)
    requires
        gather_field(info, g, field) is Ok,
        ids_within(g.active, g.members.len()),
        gather_field(info, g, field)->Ok_0.members.len() <= usize::MAX,
    ensures
        ids_within(
            gather_field(info, g, field)->Ok_0.active,
            gather_field(info, g, field)->Ok_0.members.len(),
        ),
        g.members.len() <= gather_field(info, g, field)->Ok_0.members.len(),
{
    let m = member_of(info, field)->Ok_0;
    let after = gather_field(info, g, field)->Ok_0;
    lemma_first_where_holds(g.members, equals(m));
    if after.active != g.active {
        let id = after.active.last();
        assert(after.active =~= g.active.push(id));
        assert(!g.active.contains(id));
        assert forall|i: int, j: int|
            0 <= i < after.active.len() && 0 <= j < after.active.len() && i != j implies after.active[i]
            != after.active[j] by {
            if i == g.active.len() {
                assert(g.active[j] != id);
            }
            if j == g.active.len() {
                assert(g.active[i] != id);
            }
        }
    }
}

proof fn lemma_gather_fields_grow(info: &DebugInfo, start: Gathered, fields: Seq<Field>)
    requires
        gather_fields(info, start, fields) is Ok,
    ensures
        start.members.len() <= gather_fields(info, start, fields)->Ok_0.members.len(),
    decreases fields.len(),
{
    if fields.len() > 0 {
        lemma_gather_fields_grow(info, start, fields.drop_last());
    }
}

proof fn lemma_gather_fields_ids(info: &DebugInfo, start: Gathered, fields: Seq<Field>)
    requires
        gather_fields(info, start, fields) is Ok,
        ids_within(start.active, start.members.len()),
        gather_fields(info, start, fields)->Ok_0.members.len() <= usize::MAX,
    ensures
        ids_within(
            gather_fields(info, start, fields)->Ok_0.active,
            gather_fields(info, start, fields)->Ok_0.members.len(),
        ),
    decreases fields.len(),
{
    if fields.len() > 0 {
        let before = gather_fields(info, start, fields.drop_last())->Ok_0;
        let m = member_of(info, fields.last())->Ok_0;
        lemma_gather_fields_ids(info, start, fields.drop_last());
        lemma_gather_field_ids(info, before, fields.last());
    }
}

proof fn lemma_gather_variants_grow(info: &DebugInfo, variants: Seq<Variant>, n: int)
    requires
        gather_variants(info, variants) is Ok,
        0 <= n <= variants.len(),
    ensures
        gather_variants(info, variants.take(n)) is Ok,
        gather_variants(info, variants.take(n))->Ok_0.members.len() <= gather_variants(
            info,
            variants,
        )->Ok_0.members.len(),
        gather_variants(info, variants.take(n))->Ok_0.states =~= gather_variants(
            info,
            variants,
        )->Ok_0.states.take(n),
    decreases variants.len() - n,
{
    lemma_states_count(info, variants);
    if n < variants.len() {
        lemma_gather_variants_grow(info, variants, n + 1);
        assert(variants.take(n + 1).drop_last() == variants.take(n));
        let acc = gather_variants(info, variants.take(n))->Ok_0;
        lemma_gather_fields_grow(
            info,
            Gathered { members: acc.members, active: Seq::empty(), awaitee: None },
            variants[n].members@,
        );
        lemma_states_count(info, variants.take(n + 1));
        lemma_states_count(info, variants.take(n));
        let longer = gather_variants(info, variants.take(n + 1))->Ok_0.states;
        assert(acc.states =~= longer.drop_last());
    } else {
        assert(variants.take(n) == variants);
    }
}

/// Every state that is gathered for a structure refers to members that
/// were gathered, each at most once.
pub proof fn lemma_gathered_states_refer_to_members(info: &DebugInfo, st: StructType, s: int)
    requires
        unsorted_layout(info, st) is Ok,
        unsorted_layout(info, st)->Ok_0.members.len() <= usize::MAX,
        0 <= s < unsorted_layout(info, st)->Ok_0.states.len(),
    ensures
        ids_within(
            unsorted_layout(info, st)->Ok_0.states[s].active_members,
            unsorted_layout(info, st)->Ok_0.members.len(),
        ),
{
    let variants = st.variant_parts@[0].variants@;
    let l = unsorted_layout(info, st)->Ok_0;
    lemma_gather_variants_grow(info, variants, 0);
    assert(s < variants.len()) by {
        lemma_gather_variants_grow(info, variants, variants.len() as int);
        lemma_states_count(info, variants);
    }
    lemma_gather_variants_grow(info, variants, s);
    lemma_gather_variants_grow(info, variants, s + 1);
    assert(variants.take(s + 1).drop_last() == variants.take(s));
    let acc = gather_variants(info, variants.take(s))->Ok_0;
    let start = Gathered { members: acc.members, active: Seq::empty(), awaitee: None };
    let g = gather_fields(info, start, variants[s].members@)->Ok_0;
    lemma_gather_fields_ids(info, start, variants[s].members@);
    let after = gather_variants(info, variants.take(s + 1))->Ok_0;
    assert(after.states.last().active_members == g.active);
    assert(after.states[s] == l.states.take(s + 1)[s]);
}

proof fn lemma_states_count(info: &DebugInfo, variants: Seq<Variant>)
    requires
        gather_variants(info, variants) is Ok,
    ensures
        gather_variants(info, variants)->Ok_0.states.len() == variants.len(),
    decreases variants.len(),
{
    if variants.len() > 0 {
        lemma_states_count(info, variants.drop_last());
    }
}

/// Where the positions `active` refer to members of `members`, each at most
/// once, the same members are referred to after sorting, by positions that
/// rise.
pub proof fn lemma_resorted_rises(members: Seq<MemberView>, active: Seq<usize>)
    requires
        members.len() <= usize::MAX,
        ids_within(active, members.len()),
    ensures
        resorted(active, sort_pairs(offsets_of(members))).len() == active.len(),
        forall|i: int|
            0 <= i < active.len() ==> (#[trigger] resorted(
                active,
                sort_pairs(offsets_of(members)),
            )[i]) < members.len(),
        forall|i: int, j: int|
            0 <= i < j < active.len() ==> resorted(active, sort_pairs(offsets_of(members)))[i]
                < resorted(active, sort_pairs(offsets_of(members)))[j],
{
    let keys = offsets_of(members);
    let order = sort_pairs(keys);
    let ids = ids_of(order);
    lemma_sort_pairs(keys);
    assert(keys.no_duplicates());
    lemma_sort_pairs_distinct(keys);
    // Every old position has a new position of its own.
    assert forall|id: usize| id < members.len() implies new_id(order, id) < members.len()
        && ids[new_id(order, id) as int] == id by {
        assert(keys[id as int] == (members[id as int].offset, id));
        assert(keys.contains(keys[id as int]));
        assert(order.contains(keys[id as int]));
        let p = choose|p: int| 0 <= p < order.len() && order[p] == keys[id as int];
        assert(ids[p] == id);
        crate::seqs::lemma_has_first_where(ids, equals(id), p);
        lemma_first_where_holds(ids, equals(id));
    }
    let mapped = active.map_values(|id: usize| (new_id(order, id) as u64, new_id(order, id)));
    assert(mapped.no_duplicates()) by {
        assert forall|i: int, j: int|
            0 <= i < mapped.len() && 0 <= j < mapped.len() && i != j implies mapped[i]
            != mapped[j] by {
            assert(active[i] != active[j]);
            assert(ids[new_id(order, active[i]) as int] == active[i]);
            assert(ids[new_id(order, active[j]) as int] == active[j]);
        }
    }
    lemma_sort_pairs(mapped);
    lemma_sort_pairs_distinct(mapped);
    let sorted = sort_pairs(mapped);
    let out = resorted(active, order);
    assert forall|i: int| 0 <= i < sorted.len() implies (#[trigger] sorted[i]).1 < members.len()
        && sorted[i].0 == sorted[i].1 by {
        assert(sorted.contains(sorted[i]));
        assert(mapped.contains(sorted[i]));
        let k = choose|k: int| 0 <= k < mapped.len() && mapped[k] == sorted[i];
        assert(active[k] < members.len());
    }
    assert forall|i: int| 0 <= i < active.len() implies (#[trigger] out[i]) < members.len() by {
        assert(out[i] == sorted[i].1);
    }
    assert forall|i: int, j: int| 0 <= i < j < active.len() implies out[i] < out[j] by {
        assert(sorted[i].0 <= sorted[j].0);
        assert(sorted[i] != sorted[j]);
        assert(out[i] == sorted[i].1 && out[j] == sorted[j].1);
    }
}

} // verus!
