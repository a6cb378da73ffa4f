use embassy_inspect::async_fn::{Layout, Member, Source, State};
use embassy_inspect::dwarf::{
    DebugInfo, Field, SourceLocation, StructType, TypeKind, Variant, VariantPart,
};
use embassy_inspect::error::ModelError;
use embassy_inspect::future::{
    FutureType, FutureTypeKind, JoinAwaiteeType, JoinAwaiteeTypeVariant, JoinFuture, SelectFuture,
};
use embassy_inspect::ty::Type;

fn no_source() -> SourceLocation {
    SourceLocation { directory: None, file: None, line: 0, column: 0 }
}

fn field(name: &str, ty: Option<usize>, byte_offset: u64, byte_size: u64) -> Field {
    Field {
        name: Some(name.to_string()),
        ty,
        bit_offset: byte_offset * 8,
        bit_size: Some(byte_size * 8),
    }
}

fn variant(name: &str, discriminant: u64, members: Vec<Field>) -> Variant {
    Variant {
        name: Some(name.to_string()),
        discriminant_value: Some(discriminant),
        members,
        source: no_source(),
    }
}

fn namespace(names: &[&str]) -> Vec<Option<String>> {
    names.iter().map(|n| Some(n.to_string())).collect()
}

fn future_struct(name: &str, size: u64, variants: Vec<Variant>) -> StructType {
    StructType {
        namespace: namespace(&["demo", "task"]),
        name: Some(name.to_string()),
        byte_size: Some(size),
        members: vec![field("__state", Some(0), size - 1, 1)],
        variant_parts: vec![VariantPart { discriminant: Some(0), variants }],
    }
}

/// The types `u8` at position 0 and `u32` at position 1.
fn base_types() -> Vec<TypeKind> {
    vec![
        TypeKind::Base { name: Some("u8".to_string()) },
        TypeKind::Base { name: Some("u32".to_string()) },
    ]
}

fn info(mut more: Vec<TypeKind>) -> DebugInfo {
    let mut types = base_types();
    types.append(&mut more);
    DebugInfo { types, variables: vec![], functions: vec![] }
}

fn member(name: &str, ty: &str, offset: u64, size: u64) -> Member {
    Member { name: name.to_string(), ty: Type::named(ty), offset, size }
}

#[test]
fn members_are_found_once_and_sorted_by_offset() {
    let st = future_struct(
        "{async_fn_env#0}",
        16,
        vec![
            variant("Unresumed", 0, vec![field("b", Some(1), 8, 4)]),
            variant("Suspend0", 3, vec![field("b", Some(1), 8, 4), field("a", Some(0), 2, 1)]),
            variant("Returned", 1, vec![field("a", Some(0), 2, 1), field("b", Some(1), 8, 4)]),
        ],
    );
    let layout = Layout::from_struct(&info(vec![]), &st).unwrap();
    assert_eq!(layout.members, vec![member("a", "u8", 2, 1), member("b", "u32", 8, 4)]);
    assert_eq!(layout.state_member, member("__state", "u8", 15, 1));
    assert_eq!(layout.total_size, 16);
    let active: Vec<Vec<usize>> = layout.states.iter().map(|s| s.active_members.clone()).collect();
    assert_eq!(active, vec![vec![1], vec![0, 1], vec![0, 1]]);
    let names: Vec<&str> = layout.states.iter().map(|s| s.name.as_str()).collect();
    assert_eq!(names, vec!["Unresumed", "Suspend0", "Returned"]);
    assert!(layout.is_wf());
}

#[test]
fn member_reported_in_three_variants_appears_once() {
    let same = || field("x", Some(1), 4, 4);
    let st = future_struct(
        "{async_fn_env#0}",
        16,
        vec![
            variant("A", 0, vec![same()]),
            variant("B", 1, vec![same(), same()]),
            variant("C", 2, vec![same()]),
        ],
    );
    let layout = Layout::from_struct(&info(vec![]), &st).unwrap();
    assert_eq!(layout.members, vec![member("x", "u32", 4, 4)]);
    for state in &layout.states {
        assert_eq!(state.active_members, vec![0]);
    }
}

#[test]
fn members_that_differ_in_one_part_are_kept_apart() {
    let st = future_struct(
        "{async_fn_env#0}",
        16,
        vec![
            variant("A", 0, vec![field("x", Some(1), 4, 4)]),
            variant("B", 1, vec![field("x", Some(0), 4, 4)]),
            variant("C", 2, vec![field("y", Some(1), 4, 4)]),
            variant("D", 3, vec![field("x", Some(1), 0, 4)]),
        ],
    );
    let layout = Layout::from_struct(&info(vec![]), &st).unwrap();
    assert_eq!(
        layout.members,
        vec![
            member("x", "u32", 0, 4),
            member("x", "u32", 4, 4),
            member("x", "u8", 4, 4),
            member("y", "u32", 4, 4),
        ]
    );
    let active: Vec<Vec<usize>> = layout.states.iter().map(|s| s.active_members.clone()).collect();
    assert_eq!(active, vec![vec![1], vec![2], vec![3], vec![0]]);
}

#[test]
fn sorting_keeps_the_references_of_the_states() {
    let mut layout = Layout {
        members: vec![member("c", "u8", 9, 1), member("a", "u8", 1, 1), member("b", "u8", 5, 1)],
        state_member: member("__state", "u8", 0, 1),
        total_size: 10,
        states: vec![
            State {
                discriminant_value: 0,
                active_members: vec![0, 2],
                awaitee: None,
                name: "A".to_string(),
                source: None,
            },
            State {
                discriminant_value: 1,
                active_members: vec![1, 0],
                awaitee: None,
                name: "B".to_string(),
                source: None,
            },
        ],
    };
    layout.sort_members_by_offset();
    assert_eq!(
        layout.members,
        vec![member("a", "u8", 1, 1), member("b", "u8", 5, 1), member("c", "u8", 9, 1)]
    );
    assert_eq!(layout.states[0].active_members, vec![1, 2]);
    assert_eq!(layout.states[1].active_members, vec![0, 2]);
    assert!(layout.is_wf());
}

#[test]
fn awaitee_and_empty_members_are_set_aside() {
    let st = future_struct(
        "{async_fn_env#0}",
        16,
        vec![variant(
            "Suspend0",
            3,
            vec![
                field("unit", Some(0), 3, 0),
                field("__awaitee", Some(1), 4, 8),
                field("a", Some(0), 1, 1),
            ],
        )],
    );
    let layout = Layout::from_struct(&info(vec![]), &st).unwrap();
    assert_eq!(layout.members, vec![member("a", "u8", 1, 1)]);
    assert_eq!(layout.states[0].awaitee, Some(member("__awaitee", "u32", 4, 8)));
    assert_eq!(layout.states[0].active_members, vec![0]);
}

fn layout_error(st: StructType) -> ModelError {
    Layout::from_struct(&info(vec![]), &st).unwrap_err()
}

#[test]
fn malformed_futures_are_refused() {
    let good = || future_struct("{async_fn_env#0}", 16, vec![variant("A", 0, vec![])]);

    let mut st = good();
    st.variant_parts.clear();
    assert_eq!(layout_error(st), ModelError::VariantParts);

    let mut st = good();
    st.variant_parts.push(VariantPart { discriminant: None, variants: vec![] });
    assert_eq!(layout_error(st), ModelError::VariantParts);

    let mut st = good();
    st.variant_parts[0].variants[0].members.push(Field {
        name: None,
        ty: Some(0),
        bit_offset: 0,
        bit_size: Some(8),
    });
    assert_eq!(layout_error(st), ModelError::MemberWithoutName);

    let mut st = good();
    st.variant_parts[0].variants[0].members.push(Field {
        name: Some("a".to_string()),
        ty: Some(0),
        bit_offset: 0,
        bit_size: None,
    });
    assert_eq!(layout_error(st), ModelError::MemberWithoutSize);

    let mut st = good();
    st.variant_parts[0].variants[0].members.push(Field {
        name: Some("a".to_string()),
        ty: Some(0),
        bit_offset: 0,
        bit_size: Some(12),
    });
    assert_eq!(layout_error(st), ModelError::MemberNotInBytes);

    let mut st = good();
    st.variant_parts[0].variants[0].discriminant_value = None;
    assert_eq!(layout_error(st), ModelError::VariantWithoutDiscriminant);

    let mut st = good();
    st.variant_parts[0].variants[0].members =
        vec![field("__awaitee", Some(0), 0, 1), field("__awaitee", Some(0), 1, 1)];
    assert_eq!(layout_error(st), ModelError::MultipleAwaitees);

    let mut st = good();
    st.members.clear();
    assert_eq!(layout_error(st), ModelError::StateMember);

    let mut st = good();
    st.members[0].name = Some("state".to_string());
    assert_eq!(layout_error(st), ModelError::StateMemberName);

    let mut st = good();
    st.byte_size = None;
    assert_eq!(layout_error(st), ModelError::FutureWithoutSize);

    let mut st = good();
    st.variant_parts[0].variants.push(variant("B", 0, vec![]));
    assert_eq!(layout_error(st), ModelError::MalformedLayout);

    let mut st = good();
    st.variant_parts[0].variants[0].members.push(field("a", Some(1), 14, 4));
    assert_eq!(layout_error(st), ModelError::MalformedLayout);

    let mut st = good();
    st.members[0].bit_size = Some(24);
    assert_eq!(layout_error(st), ModelError::MalformedLayout);
}

#[test]
fn futures_are_known_by_their_name() {
    let info = info(vec![]);
    for name in [
        "{async_fn_env#0}",
        "async_fn$0<T, K>",
        "{async_block_env#1}",
        "{gen_closure_env#0}",
        "{async_gen_fn_env#0}",
        "gen_block",
    ] {
        let kind = TypeKind::Struct(future_struct(name, 4, vec![variant("A", 0, vec![])]));
        assert!(Layout::from_type(&info, &kind).unwrap().is_some(), "{}", name);
    }
    for name in ["", "{", "Option<u8>", "{{async_fn_env#0}", "my_async_fn", "{closure_env#0}"] {
        let kind = TypeKind::Struct(future_struct(name, 4, vec![variant("A", 0, vec![])]));
        assert_eq!(Layout::from_type(&info, &kind), Ok(None), "{}", name);
    }
    let mut unnamed = future_struct("{async_fn_env#0}", 4, vec![]);
    unnamed.name = None;
    assert_eq!(Layout::from_type(&info, &TypeKind::Struct(unnamed)), Ok(None));
    assert_eq!(Layout::from_type(&info, &TypeKind::Void), Ok(None));
    let mut broken = future_struct("{async_fn_env#0}", 4, vec![]);
    broken.byte_size = None;
    assert_eq!(
        Layout::from_type(&info, &TypeKind::Struct(broken)),
        Err(ModelError::FutureWithoutSize)
    );
}

#[test]
fn source_of_a_state() {
    let at = |directory: Option<&str>, file: Option<&str>| {
        Source::from_location(&SourceLocation {
            directory: directory.map(str::to_string),
            file: file.map(str::to_string),
            line: 12,
            column: 5,
        })
    };
    assert_eq!(at(Some("src"), None), None);
    assert_eq!(at(Some("src"), Some("")), None);
    assert_eq!(
        at(None, Some("main.rs")),
        Some(Source { path: "main.rs".to_string(), line: 12, column: 5 })
    );
    assert_eq!(
        at(Some(""), Some("main.rs")),
        Some(Source { path: "main.rs".to_string(), line: 12, column: 5 })
    );
    assert_eq!(
        at(Some("/work/src"), Some("main.rs")),
        Some(Source { path: "/work/src/main.rs".to_string(), line: 12, column: 5 })
    );
}

fn combinator(module: &str, name: &str, members: Vec<Field>) -> TypeKind {
    TypeKind::Struct(StructType {
        namespace: namespace(&["embassy_futures", module]),
        name: Some(name.to_string()),
        byte_size: None,
        members,
        variant_parts: vec![],
    })
}

#[test]
fn select_over_a_fixed_number_of_futures() {
    let info = info(vec![]);
    let kind = combinator(
        "select",
        "Select3<A, B, C>",
        vec![field("a", Some(0), 0, 1), field("b", Some(1), 4, 4), field("c", None, 8, 2)],
    );
    let select = SelectFuture::from_type(&info, &kind).unwrap().unwrap();
    assert_eq!(
        select.awaitees,
        vec![(0, Type::named("u8")), (4, Type::named("u32")), (8, Type::Unknown)]
    );
    let found = FutureType::from_type(&info, &kind).unwrap().unwrap();
    assert_eq!(found.kind, FutureTypeKind::Select(select));
}

#[test]
fn select_over_an_array_of_futures() {
    let array = |counts: Vec<Option<u64>>, byte_size: Option<u64>| {
        info(vec![TypeKind::Array { element: Some(1), counts, byte_size }])
    };
    let kind = combinator("select", "SelectArray<A, 3>", vec![field("inner", Some(2), 0, 12)]);
    let select = SelectFuture::from_type(&array(vec![Some(3)], Some(12)), &kind).unwrap().unwrap();
    assert_eq!(
        select.awaitees,
        vec![(0, Type::named("u32")), (4, Type::named("u32")), (8, Type::named("u32"))]
    );
    let none = SelectFuture::from_type(&array(vec![Some(0)], Some(0)), &kind).unwrap().unwrap();
    assert!(none.awaitees.is_empty());
    assert_eq!(
        SelectFuture::from_type(&array(vec![], Some(12)), &kind),
        Err(ModelError::ArrayCount)
    );
    assert_eq!(
        SelectFuture::from_type(&array(vec![None], Some(12)), &kind),
        Err(ModelError::ArrayCount)
    );
    assert_eq!(
        SelectFuture::from_type(&array(vec![Some(3)], None), &kind),
        Err(ModelError::ArraySize)
    );
    let not_array = combinator("select", "SelectArray<A, 3>", vec![field("inner", Some(1), 0, 4)]);
    assert_eq!(
        SelectFuture::from_type(&info(vec![]), &not_array),
        Err(ModelError::ArrayType)
    );
    let two_fields = combinator(
        "select",
        "SelectArray<A, 3>",
        vec![field("a", Some(2), 0, 4), field("b", Some(2), 4, 4)],
    );
    assert_eq!(
        SelectFuture::from_type(&info(vec![]), &two_fields),
        Err(ModelError::ArrayField)
    );
}

#[test]
fn select_is_known_by_module_and_name() {
    let info = info(vec![]);
    assert_eq!(
        SelectFuture::from_type(&info, &combinator("join", "Select<A, B>", vec![])),
        Ok(None)
    );
    assert_eq!(
        SelectFuture::from_type(&info, &combinator("select", "Either<A, B>", vec![])),
        Ok(None)
    );
    assert_eq!(
        SelectFuture::from_type(&info, &combinator("select", "Select5<A>", vec![])),
        Ok(None)
    );
    let mut elsewhere = StructType {
        namespace: namespace(&["select"]),
        name: Some("Select<A, B>".to_string()),
        byte_size: None,
        members: vec![],
        variant_parts: vec![],
    };
    assert_eq!(SelectFuture::from_type(&info, &TypeKind::Struct(elsewhere)), Ok(None));
    elsewhere = StructType {
        namespace: namespace(&["my", "embassy_futures", "select"]),
        name: Some("Select4<A, B, C, D>".to_string()),
        byte_size: None,
        members: vec![],
        variant_parts: vec![],
    };
    assert!(SelectFuture::from_type(&info, &TypeKind::Struct(elsewhere)).unwrap().is_some());
}

/// A wrapper around an awaitee: the discriminant at offset 0, the future of
/// type `u32` or the output of type `u8` behind it.
fn maybe_done(variants: Vec<Variant>) -> TypeKind {
    TypeKind::Struct(StructType {
        namespace: namespace(&["embassy_futures", "join"]),
        name: Some("MaybeDone<A>".to_string()),
        byte_size: Some(8),
        members: vec![field("tag", Some(0), 0, 1)],
        variant_parts: vec![VariantPart { discriminant: Some(0), variants }],
    })
}

fn usual_variants() -> Vec<Variant> {
    vec![
        variant("Future", 0, vec![field("__0", Some(1), 4, 4)]),
        variant("Done", 1, vec![field("__0", Some(0), 1, 1)]),
        variant("Gone", 2, vec![]),
    ]
}

fn usual_wrapper() -> JoinAwaiteeType {
    JoinAwaiteeType {
        discriminant_offset: 0,
        discriminant_size: 1,
        future_variant: JoinAwaiteeTypeVariant {
            discriminant: 0,
            offset: 4,
            size: 4,
            ty: Type::named("u32"),
        },
        done_variant: JoinAwaiteeTypeVariant {
            discriminant: 1,
            offset: 1,
            size: 1,
            ty: Type::named("u8"),
        },
    }
}

#[test]
fn wrapper_around_a_join_awaitee() {
    let info = info(vec![]);
    assert_eq!(JoinAwaiteeType::from_type(&info, &maybe_done(usual_variants())), Some(usual_wrapper()));

    let mut without_done = usual_variants();
    without_done.remove(1);
    assert_eq!(JoinAwaiteeType::from_type(&info, &maybe_done(without_done)), None);

    let mut other = usual_variants();
    other.push(variant("Other", 3, vec![field("__0", Some(0), 1, 1)]));
    assert_eq!(JoinAwaiteeType::from_type(&info, &maybe_done(other)), None);

    let mut unnamed = usual_variants();
    unnamed[2].name = None;
    assert_eq!(JoinAwaiteeType::from_type(&info, &maybe_done(unnamed)), None);

    let mut two_members = usual_variants();
    two_members[0].members.push(field("__1", Some(0), 2, 1));
    assert_eq!(JoinAwaiteeType::from_type(&info, &maybe_done(two_members)), None);

    let mut no_value = usual_variants();
    no_value[1].discriminant_value = None;
    assert_eq!(JoinAwaiteeType::from_type(&info, &maybe_done(no_value)), None);

    let TypeKind::Struct(mut st) = maybe_done(usual_variants()) else {
        unreachable!();
    };
    st.variant_parts[0].discriminant = None;
    assert_eq!(JoinAwaiteeType::from_type(&info, &TypeKind::Struct(st)), None);
    assert_eq!(JoinAwaiteeType::from_type(&info, &TypeKind::Void), None);
}

#[test]
fn join_over_a_fixed_number_of_futures() {
    let info = info(vec![maybe_done(usual_variants())]);
    let kind = combinator(
        "join",
        "Join<A, B>",
        vec![field("a", Some(2), 0, 8), field("b", Some(2), 8, 8)],
    );
    let join = JoinFuture::from_type(&info, &kind).unwrap().unwrap();
    assert_eq!(join.awaitees, vec![(0, usual_wrapper()), (8, usual_wrapper())]);
    let found = FutureType::from_type(&info, &kind).unwrap().unwrap();
    assert_eq!(found.kind, FutureTypeKind::Join(join));

    let untyped = combinator("join", "Join<A, B>", vec![field("a", None, 0, 8)]);
    assert_eq!(JoinFuture::from_type(&info, &untyped), Err(ModelError::JoinAwaiteeType));
    let plain = combinator("join", "Join<A, B>", vec![field("a", Some(1), 0, 8)]);
    assert_eq!(JoinFuture::from_type(&info, &plain), Err(ModelError::JoinAwaiteeLayout));
    assert_eq!(JoinFuture::from_type(&info, &combinator("select", "Join<A, B>", vec![])), Ok(None));
}

#[test]
fn join_over_an_array_of_futures() {
    let info = info(vec![
        maybe_done(usual_variants()),
        TypeKind::Array { element: Some(2), counts: vec![Some(2)], byte_size: Some(16) },
        TypeKind::Array { element: Some(1), counts: vec![Some(2)], byte_size: Some(16) },
        TypeKind::Array { element: None, counts: vec![Some(2)], byte_size: Some(16) },
        TypeKind::Array { element: Some(2), counts: vec![None], byte_size: Some(16) },
        TypeKind::Array { element: Some(2), counts: vec![Some(2)], byte_size: None },
    ]);
    let over = |array: usize| combinator("join", "JoinArray<A, 2>", vec![field("f", Some(array), 0, 16)]);
    let join = JoinFuture::from_type(&info, &over(3)).unwrap().unwrap();
    assert_eq!(join.awaitees, vec![(0, usual_wrapper()), (8, usual_wrapper())]);
    assert_eq!(JoinFuture::from_type(&info, &over(4)), Err(ModelError::JoinAwaiteeLayout));
    assert_eq!(JoinFuture::from_type(&info, &over(5)), Err(ModelError::JoinAwaiteeType));
    assert_eq!(JoinFuture::from_type(&info, &over(6)), Err(ModelError::ArrayCount));
    assert_eq!(JoinFuture::from_type(&info, &over(7)), Err(ModelError::ArraySize));
    assert_eq!(JoinFuture::from_type(&info, &over(0)), Err(ModelError::ArrayType));
    assert_eq!(
        JoinFuture::from_type(&info, &combinator("join", "JoinArray<A, 2>", vec![])),
        Err(ModelError::ArrayField)
    );
}
