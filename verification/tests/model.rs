use embassy_inspect::dwarf::{
    DebugInfo, Field, Function, FunctionId, InlinedFunction, ModifierKind, Range, SourceLocation,
    StructType, TypeKind, Variable, Variant, VariantPart,
};
use embassy_inspect::error::ModelError;
use embassy_inspect::future::{FutureType, FutureTypeKind, FutureTypes, SelectFuture};
use embassy_inspect::model::DebugData;
use embassy_inspect::safepoint::{
    find_function_in_inlined, find_poll_function_addresses, is_same_function,
};
use embassy_inspect::task_pool::{HeaderLayout, StateType, TaskPool, TaskValue};
use embassy_inspect::ty::Type;

fn names(names: &[&str]) -> Vec<Option<String>> {
    names.iter().map(|n| Some(n.to_string())).collect()
}

fn m_field(name: &str, ty: Option<usize>, byte_offset: u64, byte_size: u64) -> Field {
    Field {
        name: Some(name.to_string()),
        ty,
        bit_offset: byte_offset * 8,
        bit_size: Some(byte_size * 8),
    }
}

fn plain_struct(namespace: &[&str], name: &str, members: Vec<Field>) -> TypeKind {
    TypeKind::Struct(StructType {
        namespace: names(namespace),
        name: Some(name.to_string()),
        byte_size: None,
        members,
        variant_parts: vec![],
    })
}

fn task_header(state_bits: Option<u64>) -> TypeKind {
    let mut members = vec![m_field("run_queue_item", Some(0), 0, 4)];
    if let Some(bits) = state_bits {
        members.push(Field {
            name: Some("state".to_string()),
            ty: Some(0),
            bit_offset: 32,
            bit_size: Some(bits),
        });
    }
    plain_struct(&["embassy_executor", "raw"], "TaskHeader", members)
}

#[test]
fn task_header_with_state_of_one_or_four_bytes() {
    assert_eq!(
        HeaderLayout::from_type(&task_header(Some(8))),
        Ok(Some(HeaderLayout { state_offset: 4, state_type: StateType::U8 }))
    );
    assert_eq!(
        HeaderLayout::from_type(&task_header(Some(32))),
        Ok(Some(HeaderLayout { state_offset: 4, state_type: StateType::U32 }))
    );
    assert_eq!(HeaderLayout::from_type(&task_header(Some(16))), Err(ModelError::HeaderStateSize));
    assert_eq!(HeaderLayout::from_type(&task_header(None)), Err(ModelError::HeaderWithoutState));
    assert_eq!(
        HeaderLayout::from_type(&plain_struct(&["embassy_executor"], "TaskHeader", vec![])),
        Ok(None)
    );
    assert_eq!(
        HeaderLayout::from_type(&plain_struct(&["embassy_executor", "raw"], "TaskRef", vec![])),
        Ok(None)
    );
    assert_eq!(HeaderLayout::from_type(&TypeKind::Void), Ok(None));
}

#[test]
fn task_header_is_looked_for_in_all_types() {
    let with = |types: Vec<TypeKind>| {
        HeaderLayout::from_data(&DebugInfo { types, variables: vec![], functions: vec![] })
    };
    assert_eq!(with(vec![]), Err(ModelError::HeaderNotFound));
    assert_eq!(with(vec![TypeKind::Void]), Err(ModelError::HeaderNotFound));
    assert_eq!(
        with(vec![TypeKind::Void, task_header(Some(32)), task_header(Some(16))]),
        Ok(HeaderLayout { state_offset: 4, state_type: StateType::U32 })
    );
    assert_eq!(
        with(vec![task_header(Some(16)), task_header(Some(8))]),
        Err(ModelError::HeaderStateSize)
    );
}

/// The types of a program with one task `demo::blink`, whose future has
/// `future_size` bytes and whose pool has `slots` slots of 24 bytes.
fn task_types(task: &str, future_size: u64, slots: u64) -> Vec<TypeKind> {
    let state = |name: &str, discriminant: u64| Variant {
        name: Some(name.to_string()),
        discriminant_value: Some(discriminant),
        members: vec![],
        source: SourceLocation {
            directory: Some("src".to_string()),
            file: Some("main.rs".to_string()),
            line: 7,
            column: 1,
        },
    };
    vec![
        // 0
        TypeKind::Base { name: Some("u8".to_string()) },
        // 1
        task_header(Some(8)),
        // 2: the future of the task
        TypeKind::Struct(StructType {
            namespace: names(&["demo", &format!("__{task}_task")]),
            name: Some("{async_fn_env#0}".to_string()),
            byte_size: Some(future_size),
            members: vec![m_field("__state", Some(0), 0, 1)],
            variant_parts: vec![VariantPart {
                discriminant: Some(0),
                variants: vec![state("Unresumed", 0), state("Suspend0", 3)],
            }],
        }),
        // 3: the storage of one task
        plain_struct(
            &["embassy_executor", "raw"],
            "TaskStorage<F>",
            vec![m_field("raw", Some(1), 0, 8), m_field("future", Some(2), 8, 16)],
        ),
        // 4: the array of the slots
        TypeKind::Array { element: Some(3), counts: vec![Some(slots)], byte_size: Some(slots * 24) },
        // 5: the pool
        plain_struct(
            &["embassy_executor", "raw"],
            &format!("TaskPool<demo::__{task}_task::{{async_fn_env#0}}, {slots}>"),
            vec![m_field("pool", Some(4), 0, slots * 24)],
        ),
        // 6: the holder of the pool
        plain_struct(&["embassy_executor"], "TaskPoolHolder<48, 4>", vec![]),
    ]
}

fn pool_variable(task: &str, slots: u64, holder: usize) -> Variable {
    Variable {
        name: Some("POOL".to_string()),
        namespace: names(&["demo", task]),
        ty: Some(holder),
        address: Some(0x2000_0100),
        byte_size: Some(slots * 24),
    }
}

fn program() -> DebugInfo {
    DebugInfo {
        types: task_types("blink", 16, 2),
        variables: vec![pool_variable("blink", 2, 6)],
        functions: vec![],
    }
}

#[test]
fn model_of_a_program_with_one_task() {
    let data = DebugData::from_debug_info(&program()).unwrap();
    assert!(data.poll_done_addresses.is_empty());
    assert_eq!(data.future_types.len(), 1);
    let task_type = Type::named("demo::__blink_task::{async_fn_env#0}");
    let FutureTypeKind::AsyncFn(layout) = &data.future_types.get(&task_type).unwrap().kind else {
        panic!("the future of the task is an async fn");
    };
    assert_eq!(layout.states[1].source.as_ref().unwrap().path, "src/main.rs");
    assert_eq!(data.task_pools.len(), 1);
    let pool = &data.task_pools[0];
    assert_eq!(pool.path, "demo::blink");
    assert_eq!(pool.address, 0x2000_0100);
    assert_eq!(pool.size, 48);
    assert_eq!(pool.number_of_tasks, 2);
    assert_eq!(pool.future_offset, 8);
    assert_eq!(pool.slot_size(), 24);
    assert_eq!(pool.async_fn_base_type, task_type);
    assert_eq!(&pool.async_fn_type, layout);
    assert_eq!(pool.header_layout, HeaderLayout { state_offset: 4, state_type: StateType::U8 });
    assert!(pool.is_wf());

    let mut bytes = vec![0u8; 48];
    bytes[24 + 4] = 1;
    bytes[24 + 8] = 3;
    let value = data.get_taskpool_value(pool, &bytes);
    assert_eq!(value.task_values[0], TaskValue::Uninit);
    let TaskValue::Init(future) = &value.task_values[1] else {
        panic!("the second task is spawned");
    };
    assert_eq!(future.ty, task_type);
}

#[test]
fn model_is_the_same_every_time() {
    let first = DebugData::from_debug_info(&program()).unwrap();
    let second = DebugData::from_debug_info(&program()).unwrap();
    assert_eq!(first.poll_done_addresses, second.poll_done_addresses);
    assert_eq!(first.task_pools, second.task_pools);
    assert_eq!(first.future_types.entries, second.future_types.entries);
}

fn pool_error(change: impl FnOnce(&mut DebugInfo)) -> Result<Option<TaskPool>, ModelError> {
    let mut info = program();
    let data = DebugData::from_debug_info(&info).unwrap();
    change(&mut info);
    TaskPool::from_var(
        &info.variables[0],
        &data.future_types,
        &HeaderLayout { state_offset: 4, state_type: StateType::U8 },
        &info,
    )
}

#[test]
fn what_is_no_task_pool() {
    assert!(pool_error(|_| {}).unwrap().is_some());
    assert_eq!(pool_error(|i| i.variables[0].name = Some("POOLS".to_string())), Ok(None));
    assert_eq!(pool_error(|i| i.variables[0].name = None), Ok(None));
    assert_eq!(pool_error(|i| i.variables[0].ty = None), Ok(None));
    assert_eq!(pool_error(|i| i.variables[0].ty = Some(0)), Ok(None));
    assert_eq!(pool_error(|i| i.variables[0].ty = Some(5)), Ok(None));
}

fn pool_members(info: &mut DebugInfo) -> &mut Vec<Field> {
    match &mut info.types[5] {
        TypeKind::Struct(st) => &mut st.members,
        _ => unreachable!(),
    }
}

#[test]
fn task_pools_that_are_refused() {
    assert_eq!(pool_error(|i| i.variables[0].namespace.clear()), Err(ModelError::PoolWithoutNamespace));
    assert_eq!(pool_error(|i| i.variables[0].namespace = names(&["blink"])), Err(ModelError::PoolNamespaceParent));
    assert_eq!(pool_error(|i| i.variables[0].namespace[1] = None), Err(ModelError::PoolNamespaceName));
    assert_eq!(pool_error(|i| i.variables[0].address = None), Err(ModelError::PoolWithoutAddress));
    assert_eq!(pool_error(|i| i.variables[0].byte_size = None), Err(ModelError::PoolWithoutSize));
    assert_eq!(pool_error(|i| i.variables[0].namespace = names(&["demo", "other"])), Err(ModelError::PoolTypeNotFound));
    assert_eq!(pool_error(|i| pool_members(i).clear()), Err(ModelError::PoolMembers));
    assert_eq!(pool_error(|i| pool_members(i)[0].ty = None), Err(ModelError::PoolMemberType));
    assert_eq!(pool_error(|i| pool_members(i)[0].ty = Some(0)), Err(ModelError::PoolArray));
    assert_eq!(
        pool_error(|i| {
            i.types[4] =
                TypeKind::Array { element: Some(3), counts: vec![None], byte_size: Some(48) }
        }),
        Err(ModelError::PoolArrayCount)
    );
    assert_eq!(
        pool_error(|i| {
            i.types[4] = TypeKind::Array { element: None, counts: vec![Some(2)], byte_size: Some(48) }
        }),
        Err(ModelError::PoolElementType)
    );
    assert_eq!(
        pool_error(|i| {
            i.types[3] = plain_struct(&["embassy_executor", "raw"], "TaskStorage<F>", vec![])
        }),
        Err(ModelError::PoolFutureOffset)
    );
    assert_eq!(pool_error(|i| i.variables[0].byte_size = Some(49)), Err(ModelError::MalformedPool));
    assert_eq!(pool_error(|i| i.variables[0].byte_size = Some(24)), Err(ModelError::MalformedPool));
}

#[test]
fn pools_that_cannot_be_decoded_are_left_out() {
    // The future of the task has another name than the task.
    let mut info = program();
    info.variables[0].namespace = names(&["demo", "blink2"]);
    info.types[5] = plain_struct(
        &["embassy_executor", "raw"],
        "TaskPool<demo::__blink2_task::{async_fn_env#0}, 2>",
        vec![m_field("pool", Some(4), 0, 48)],
    );
    let data = DebugData::from_debug_info(&info).unwrap();
    assert!(data.task_pools.is_empty());
    assert_eq!(data.future_types.len(), 1);
    // The slots have no room for the future.
    let mut info = program();
    info.variables[0].byte_size = Some(40);
    assert!(DebugData::from_debug_info(&info).unwrap().task_pools.is_empty());
    // Other faults are errors.
    let mut info = program();
    info.variables[0].address = None;
    assert_eq!(DebugData::from_debug_info(&info).unwrap_err(), ModelError::PoolWithoutAddress);
}

#[test]
fn model_needs_header_and_well_formed_futures() {
    let mut info = program();
    info.types[1] = TypeKind::Void;
    assert_eq!(DebugData::from_debug_info(&info).unwrap_err(), ModelError::HeaderNotFound);
    let mut info = program();
    if let TypeKind::Struct(st) = &mut info.types[2] {
        st.members[0].name = None;
    }
    assert_eq!(DebugData::from_debug_info(&info).unwrap_err(), ModelError::MemberWithoutName);
}

#[test]
fn select_of_unexpected_shape_is_left_out() {
    let mut info = program();
    info.types.push(plain_struct(&["embassy_futures", "select"], "SelectArray<A, 2>", vec![]));
    info.types.push(plain_struct(
        &["embassy_futures", "select"],
        "Select<A, B>",
        vec![m_field("a", Some(2), 0, 16), m_field("b", Some(0), 16, 1)],
    ));
    let data = DebugData::from_debug_info(&info).unwrap();
    assert_eq!(data.future_types.len(), 2);
    assert!(data
        .future_types
        .get(&Type::named("embassy_futures::select::SelectArray<A, 2>"))
        .is_none());
    assert!(data.future_types.get(&Type::named("embassy_futures::select::Select<A, B>")).is_some());
}

#[test]
fn pools_are_ordered_by_the_size_of_their_future() {
    let mut types = task_types("small", 8, 1);
    let mut middle = task_types("middle", 12, 1);
    let mut big = task_types("big", 16, 1);
    let mut twin = task_types("twin", 12, 1);
    // Move the references of the later programs behind the earlier ones.
    let shift = |kinds: &mut Vec<TypeKind>, by: usize| {
        for kind in kinds.iter_mut() {
            match kind {
                TypeKind::Struct(st) => {
                    for f in st.members.iter_mut() {
                        f.ty = f.ty.map(|t| t + by);
                    }
                }
                TypeKind::Array { element, .. } => *element = element.map(|t| t + by),
                _ => {}
            }
        }
    };
    shift(&mut middle, 7);
    shift(&mut big, 14);
    shift(&mut twin, 21);
    types.append(&mut middle);
    types.append(&mut big);
    types.append(&mut twin);
    let info = DebugInfo {
        types,
        variables: vec![
            pool_variable("small", 1, 6),
            pool_variable("middle", 1, 13),
            pool_variable("big", 1, 20),
            pool_variable("twin", 1, 27),
        ],
        functions: vec![],
    };
    let data = DebugData::from_debug_info(&info).unwrap();
    let paths: Vec<&str> = data.task_pools.iter().map(|p| p.path.as_str()).collect();
    assert_eq!(paths, vec!["demo::big", "demo::middle", "demo::twin", "demo::small"]);
    assert_eq!(data.future_types.len(), 4);
}

#[test]
fn later_pool_with_the_same_path_takes_the_place_of_the_earlier() {
    let mut info = program();
    let mut second = pool_variable("blink", 2, 6);
    second.address = Some(0x2000_0200);
    info.variables.push(second);
    let data = DebugData::from_debug_info(&info).unwrap();
    assert_eq!(data.task_pools.len(), 1);
    assert_eq!(data.task_pools[0].address, 0x2000_0200);
}

fn poll_closure(ranges: Vec<Range>, inline: bool) -> Function {
    Function {
        id: FunctionId {
            namespace: names(&["embassy_executor", "raw", "{impl#9}", "poll"]),
            name: Some("{closure#0}".to_string()),
        },
        linkage_name: Some("_ZN16embassy_executor3raw12SyncExecutor4poll7closure".to_string()),
        ranges,
        inline,
        inlined: vec![],
    }
}

fn other_function(name: &str, inlined: Vec<InlinedFunction>) -> Function {
    Function {
        id: FunctionId { namespace: names(&["demo"]), name: Some(name.to_string()) },
        linkage_name: None,
        ranges: vec![Range { begin: 0x100, end: 0x200 }],
        inline: false,
        inlined,
    }
}

fn inlined_poll(ranges: Vec<Range>, inlined: Vec<InlinedFunction>) -> InlinedFunction {
    InlinedFunction { origin: Some(poll_closure(vec![], true).id), ranges, inlined }
}

fn safepoints(functions: Vec<Function>) -> Vec<u64> {
    find_poll_function_addresses(&DebugInfo { types: vec![], variables: vec![], functions })
}

#[test]
fn safepoint_before_the_end_of_the_poll_function() {
    let found = safepoints(vec![
        other_function("main", vec![]),
        poll_closure(vec![Range { begin: 0x1000, end: 0x1040 }], false),
        poll_closure(vec![Range { begin: 0x2000, end: 0x2040 }], false),
    ]);
    assert_eq!(found, vec![0x103c]);
}

#[test]
fn poll_function_that_ends_below_the_return_window_gives_no_safepoint() {
    assert_eq!(safepoints(vec![poll_closure(vec![Range { begin: 0, end: 3 }], false)]), vec![]);
    assert_eq!(safepoints(vec![poll_closure(vec![Range { begin: 0, end: 4 }], false)]), vec![0]);
}

#[test]
fn inlined_safepoints() {
    let found = safepoints(vec![
        poll_closure(vec![], true),
        other_function(
            "main",
            vec![inlined_poll(
                vec![Range { begin: 0, end: 0x30 }, Range { begin: 0x400, end: 0x440 }],
                vec![],
            )],
        ),
        other_function(
            "second_executor",
            vec![InlinedFunction {
                origin: Some(FunctionId { namespace: names(&["demo"]), name: Some("run".to_string()) }),
                ranges: vec![Range { begin: 0x500, end: 0x600 }],
                inlined: vec![inlined_poll(vec![Range { begin: 0x520, end: 0x560 }], vec![])],
            }],
        ),
    ]);
    assert_eq!(found, vec![0x440, 0x560]);
}

#[test]
fn poll_function_that_is_not_found() {
    assert_eq!(safepoints(vec![]), vec![]);
    assert_eq!(safepoints(vec![other_function("main", vec![])]), vec![]);
    // Neither a single range nor inlined.
    assert_eq!(safepoints(vec![poll_closure(vec![], false)]), vec![]);
    let two = vec![Range { begin: 1, end: 9 }, Range { begin: 20, end: 29 }];
    assert_eq!(safepoints(vec![poll_closure(two.clone(), false)]), vec![]);
    // The search goes on to a later candidate.
    assert_eq!(
        safepoints(vec![
            poll_closure(two, false),
            poll_closure(vec![Range { begin: 0x10, end: 0x20 }], false)
        ]),
        vec![0x1c]
    );
    let mut wrong_name = poll_closure(vec![Range { begin: 0x10, end: 0x20 }], false);
    wrong_name.id.name = Some("poll".to_string());
    assert_eq!(safepoints(vec![wrong_name]), vec![]);
    let mut wrong_linkage = poll_closure(vec![Range { begin: 0x10, end: 0x20 }], false);
    wrong_linkage.linkage_name = Some("_ZN4main".to_string());
    assert_eq!(safepoints(vec![wrong_linkage]), vec![]);
    let mut wrong_namespace = poll_closure(vec![Range { begin: 0x10, end: 0x20 }], false);
    wrong_namespace.id.namespace = names(&["embassy_executor", "raw", "poll", "inner"]);
    assert_eq!(safepoints(vec![wrong_namespace]), vec![]);
    let mut elsewhere = poll_closure(vec![Range { begin: 0x10, end: 0x20 }], false);
    elsewhere.id.namespace = names(&["my", "embassy_executor", "raw", "poll"]);
    assert_eq!(safepoints(vec![elsewhere]), vec![]);
}

#[test]
fn functions_are_the_same_by_namespace_and_name() {
    let id = |namespace: &[&str], name: Option<&str>| FunctionId {
        namespace: names(namespace),
        name: name.map(str::to_string),
    };
    assert!(is_same_function(&id(&["a", "b"], Some("f")), &id(&["a", "b"], Some("f"))));
    assert!(is_same_function(&id(&[], None), &id(&[], None)));
    assert!(!is_same_function(&id(&["a", "b"], Some("f")), &id(&["a", "b"], Some("g"))));
    assert!(!is_same_function(&id(&["a", "b"], Some("f")), &id(&["a"], Some("f"))));
    assert!(!is_same_function(&id(&["a", "b"], Some("f")), &id(&["a", "c"], Some("f"))));
    assert!(!is_same_function(&id(&["a"], Some("f")), &id(&["a"], None)));
    let mut unnamed = id(&["a", "b"], Some("f"));
    unnamed.namespace[0] = None;
    assert!(!is_same_function(&unnamed, &id(&["a", "b"], Some("f"))));
}

#[test]
fn nested_inlined_functions_are_searched() {
    let poll = poll_closure(vec![], true).id;
    let tree = inlined_poll(
        vec![Range { begin: 8, end: 16 }],
        vec![
            inlined_poll(vec![Range { begin: 0, end: 1 }], vec![]),
            InlinedFunction {
                origin: None,
                ranges: vec![Range { begin: 40, end: 50 }],
                inlined: vec![inlined_poll(
                    vec![Range { begin: 41, end: 42 }, Range { begin: 43, end: 44 }],
                    vec![],
                )],
            },
        ],
    );
    let mut found = vec![7];
    find_function_in_inlined(&poll, &tree, &mut found);
    assert_eq!(found, vec![7, 16, 42, 44]);
}

#[test]
fn model_holds_the_safepoints() {
    let mut info = program();
    info.functions = vec![poll_closure(vec![Range { begin: 0x1000, end: 0x1040 }], false)];
    assert_eq!(DebugData::from_debug_info(&info).unwrap().poll_done_addresses, vec![0x103c]);
}

#[test]
fn modifier_kinds_are_told_apart() {
    assert_ne!(ModifierKind::Pointer, ModifierKind::Reference);
}

#[test]
fn pool_whose_future_is_not_known_or_no_async_fn() {
    use_pool_futures(FutureTypes::new(), ModelError::PoolFutureType);
    let mut other = FutureTypes::new();
    other.insert(
        Type::named("demo::__other_task::{async_fn_env#0}"),
        FutureType { kind: FutureTypeKind::Select(SelectFuture { awaitees: vec![] }) },
    );
    use_pool_futures(other, ModelError::PoolFutureType);
    let mut select = FutureTypes::new();
    select.insert(
        Type::named("demo::__blink_task::{async_fn_env#0}"),
        FutureType { kind: FutureTypeKind::Select(SelectFuture { awaitees: vec![] }) },
    );
    use_pool_futures(select, ModelError::PoolNotAsyncFn);
}

fn use_pool_futures(future_types: FutureTypes, expected: ModelError) {
    let info = program();
    let found = TaskPool::from_var(
        &info.variables[0],
        &future_types,
        &HeaderLayout { state_offset: 4, state_type: StateType::U8 },
        &info,
    );
    assert_eq!(found, Err(expected));
}
