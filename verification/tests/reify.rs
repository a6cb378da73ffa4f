use embassy_inspect::async_fn::{Layout, Member, State};
use embassy_inspect::future::{
    FutureType, FutureTypeKind, FutureTypes, JoinAwaiteeType, JoinAwaiteeTypeVariant, JoinFuture,
    SelectFuture,
};
use embassy_inspect::task_pool::{HeaderLayout, StateType, TaskPool, TaskPoolValue, TaskValue};
use embassy_inspect::ty::Type;
use embassy_inspect::value::{
    AsyncFnValue, FutureValue, FutureValueKind, MemberValue, StateValue, MAX_FUTURE_DEPTH,
};

fn member(name: &str, ty: &str, offset: u64, size: u64) -> Member {
    Member { name: name.to_string(), ty: Type::named(ty), offset, size }
}

fn state(name: &str, discriminant: u64, active: Vec<usize>, awaitee: Option<Member>) -> State {
    State {
        discriminant_value: discriminant,
        active_members: active,
        awaitee,
        name: name.to_string(),
        source: None,
    }
}

/// A future of 16 bytes: the member `a` at offset 8, the state at offset 12.
fn simple_layout() -> Layout {
    Layout {
        members: vec![member("a", "i32", 8, 4)],
        state_member: member("__state", "u8", 12, 1),
        total_size: 16,
        states: vec![
            state("Unresumed", 0, vec![], None),
            state("Suspend0", 3, vec![0], None),
            state("Returned", 1, vec![], None),
        ],
    }
}

fn simple_pool(number_of_tasks: usize) -> TaskPool {
    TaskPool {
        path: "demo::task".to_string(),
        address: 0x2000_0000,
        size: 20 * number_of_tasks as u64,
        future_offset: 4,
        number_of_tasks,
        async_fn_type: simple_layout(),
        async_fn_base_type: Type::named("demo::__task_task::{async_fn_env#0}"),
        header_layout: HeaderLayout { state_offset: 0, state_type: StateType::U8 },
    }
}

fn slot(header: u8, discriminant: u8) -> Vec<u8> {
    let mut bytes = vec![0u8; 20];
    bytes[0] = header;
    bytes[4 + 8..4 + 12].copy_from_slice(&[0, 0, 0, 0x2A]);
    bytes[4 + 12] = discriminant;
    bytes
}

#[test]
fn single_coroutine_in_suspended_state() {
    let pool = simple_pool(1);
    assert!(pool.is_wf());
    let value = TaskPoolValue::new(&pool, &slot(1, 3), &FutureTypes::new());
    assert_eq!(value.task_pool, pool);
    assert_eq!(value.task_values.len(), 1);
    let TaskValue::Init(future) = &value.task_values[0] else {
        panic!("the task is spawned");
    };
    assert_eq!(future.ty, pool.async_fn_base_type);
    let FutureValueKind::AsyncFn(async_fn) = &future.kind else {
        panic!("the task is an async fn");
    };
    assert_eq!(async_fn.ty, simple_layout());
    let state_value = async_fn.state_value.as_ref().unwrap();
    assert_eq!(state_value.state.name, "Suspend0");
    assert_eq!(
        state_value.members,
        vec![MemberValue { member: member("a", "i32", 8, 4), bytes: vec![0, 0, 0, 0x2A] }]
    );
    assert!(state_value.awaitee.is_none());
}

#[test]
fn uninitialized_slot() {
    let value = TaskPoolValue::new(&simple_pool(1), &slot(0, 3), &FutureTypes::new());
    assert_eq!(value.task_values, vec![TaskValue::Uninit]);
}

#[test]
fn unknown_discriminant() {
    let value = TaskPoolValue::new(&simple_pool(1), &slot(1, 0xFF), &FutureTypes::new());
    let TaskValue::Init(future) = &value.task_values[0] else {
        panic!("the task is spawned");
    };
    let FutureValueKind::AsyncFn(async_fn) = &future.kind else {
        panic!("the task is an async fn");
    };
    assert_eq!(async_fn.state_value, Err(255));
}

#[test]
fn pool_without_slots_has_no_tasks() {
    let pool = simple_pool(0);
    assert!(pool.is_wf());
    assert_eq!(pool.slot_size(), 0);
    let value = TaskPoolValue::new(&pool, &[], &FutureTypes::new());
    assert!(value.task_values.is_empty());
}

#[test]
fn every_slot_is_decoded_from_its_own_bytes() {
    let pool = simple_pool(3);
    assert_eq!(pool.slot_size(), 20);
    let mut bytes = slot(1, 0);
    bytes.extend(slot(0, 0));
    bytes.extend(slot(7, 1));
    let value = TaskPoolValue::new(&pool, &bytes, &FutureTypes::new());
    assert_eq!(value.task_values.len(), 3);
    let names: Vec<Option<String>> = value
        .task_values
        .iter()
        .map(|task| match task {
            TaskValue::Uninit => None,
            TaskValue::Init(FutureValue { kind: FutureValueKind::AsyncFn(v), .. }) => {
                Some(v.state_value.as_ref().unwrap().state.name.clone())
            }
            TaskValue::Init(_) => panic!("the task is an async fn"),
        })
        .collect();
    assert_eq!(names, vec![Some("Unresumed".to_string()), None, Some("Returned".to_string())]);
}

#[test]
fn header_state_of_four_bytes() {
    let header = HeaderLayout { state_offset: 4, state_type: StateType::U32 };
    assert!(!header.is_init(&[9, 9, 9, 9, 0, 0, 0, 0]));
    assert!(header.is_init(&[0, 0, 0, 0, 0, 0, 1, 0]));
    assert!(header.is_init(&[0, 0, 0, 0, 1, 0, 0, 0, 5]));
    let narrow = HeaderLayout { state_offset: 1, state_type: StateType::U8 };
    assert!(!narrow.is_init(&[1, 0, 1]));
    assert!(narrow.is_init(&[0, 3, 0]));
}

#[test]
fn malformed_pools_are_told_apart() {
    let mut pool = simple_pool(2);
    assert!(pool.is_wf());
    pool.size = 41;
    assert!(!pool.is_wf());
    pool.size = 40;
    pool.future_offset = 5;
    assert!(!pool.is_wf());
    pool.future_offset = 4;
    pool.header_layout = HeaderLayout { state_offset: 17, state_type: StateType::U32 };
    assert!(!pool.is_wf());
    pool.header_layout = HeaderLayout { state_offset: 16, state_type: StateType::U32 };
    assert!(pool.is_wf());
}

fn wide_layout(discriminant_size: u64) -> Layout {
    Layout {
        members: vec![],
        state_member: member("__state", "u64", 0, discriminant_size),
        total_size: 8,
        states: vec![state("At", 0x0102, vec![], None)],
    }
}

#[test]
fn discriminants_are_little_endian() {
    let types = FutureTypes::new();
    let bytes = [0x02, 0x01, 0, 0, 0, 0, 0, 0x80];
    let two = AsyncFnValue::new(&wide_layout(2), &bytes, &types);
    assert_eq!(two.state_value.unwrap().state.name, "At");
    let one = AsyncFnValue::new(&wide_layout(1), &bytes, &types);
    assert_eq!(one.state_value, Err(2));
    let four = AsyncFnValue::new(&wide_layout(4), &bytes, &types);
    assert!(four.state_value.is_ok());
    let eight = AsyncFnValue::new(&wide_layout(8), &bytes, &types);
    assert_eq!(eight.state_value, Err(0x8000_0000_0000_0102));
}

/// A future that waits for a child future of `size` bytes at offset 4.
fn parent_layout(child: &str, size: u64) -> Layout {
    Layout {
        members: vec![],
        state_member: member("__state", "u8", 0, 1),
        total_size: 4 + size,
        states: vec![state("Suspend0", 3, vec![], Some(member("__awaitee", child, 4, size)))],
    }
}

fn leaf_layout() -> Layout {
    Layout {
        members: vec![member("x", "u8", 1, 1)],
        state_member: member("__state", "u8", 0, 1),
        total_size: 2,
        states: vec![state("Unresumed", 0, vec![], None), state("Suspend0", 3, vec![0], None)],
    }
}

fn async_fn_type(layout: Layout) -> FutureType {
    FutureType { kind: FutureTypeKind::AsyncFn(layout) }
}

fn leaf_value(ty: &str, x: u8) -> FutureValue {
    FutureValue {
        ty: Type::named(ty),
        kind: FutureValueKind::AsyncFn(AsyncFnValue {
            ty: leaf_layout(),
            state_value: Ok(StateValue {
                state: state("Suspend0", 3, vec![0], None),
                members: vec![MemberValue { member: member("x", "u8", 1, 1), bytes: vec![x] }],
                awaitee: None,
            }),
        }),
    }
}

fn opaque(ty: &str, bytes: &[u8]) -> FutureValue {
    FutureValue { ty: Type::named(ty), kind: FutureValueKind::Unknown(bytes.to_vec()) }
}

#[test]
fn awaitee_is_decoded_from_the_bytes_of_its_parent() {
    let mut types = FutureTypes::new();
    types.insert(Type::named("leaf"), async_fn_type(leaf_layout()));
    let value = AsyncFnValue::new(&parent_layout("leaf", 2), &[3, 0, 0, 0, 3, 0x55], &types);
    let state_value = value.state_value.unwrap();
    assert_eq!(*state_value.awaitee.unwrap(), leaf_value("leaf", 0x55));
}

#[test]
fn future_of_unknown_type_is_kept_as_bytes() {
    let mut types = FutureTypes::new();
    types.insert(Type::named("leaf"), async_fn_type(leaf_layout()));
    assert_eq!(
        FutureValue::new(&Type::named("other"), &[1, 2, 3], &types),
        opaque("other", &[1, 2, 3])
    );
    let value = AsyncFnValue::new(&parent_layout("other", 2), &[3, 0, 0, 0, 7, 8], &types);
    assert_eq!(*value.state_value.unwrap().awaitee.unwrap(), opaque("other", &[7, 8]));
}

#[test]
fn future_that_does_not_fit_is_kept_as_bytes() {
    let mut types = FutureTypes::new();
    types.insert(Type::named("leaf"), async_fn_type(leaf_layout()));
    assert_eq!(FutureValue::new(&Type::named("leaf"), &[3], &types), opaque("leaf", &[3]));
    assert_eq!(FutureValue::new(&Type::named("leaf"), &[3, 9], &types), leaf_value("leaf", 9));
}

#[test]
fn select_of_three() {
    let mut types = FutureTypes::new();
    types.insert(Type::named("A"), async_fn_type(leaf_layout()));
    types.insert(Type::named("C"), async_fn_type(leaf_layout()));
    types.insert(
        Type::named("Select3<A,B,C>"),
        FutureType {
            kind: FutureTypeKind::Select(SelectFuture {
                awaitees: vec![(0, Type::named("A")), (2, Type::named("B")), (5, Type::named("C"))],
            }),
        },
    );
    let bytes = [3, 1, 9, 9, 9, 3, 2];
    let value = FutureValue::new(&Type::named("Select3<A,B,C>"), &bytes, &types);
    assert_eq!(value.ty, Type::named("Select3<A,B,C>"));
    let FutureValueKind::SelectValue(select) = value.kind else {
        panic!("a select future");
    };
    assert_eq!(
        select.awaitees,
        vec![leaf_value("A", 1), opaque("B", &[9, 9, 9, 3, 2]), leaf_value("C", 2)]
    );
}

#[test]
fn select_awaitee_behind_the_end_has_no_bytes() {
    let mut types = FutureTypes::new();
    types.insert(
        Type::named("Select<A,B>"),
        FutureType {
            kind: FutureTypeKind::Select(SelectFuture {
                awaitees: vec![(0, Type::named("A")), (9, Type::named("B"))],
            }),
        },
    );
    let value = FutureValue::new(&Type::named("Select<A,B>"), &[1, 2], &types);
    let FutureValueKind::SelectValue(select) = value.kind else {
        panic!("a select future");
    };
    assert_eq!(select.awaitees, vec![opaque("A", &[1, 2]), opaque("B", &[])]);
}

fn maybe_done(future: &str, done: &str) -> JoinAwaiteeType {
    JoinAwaiteeType {
        discriminant_offset: 0,
        discriminant_size: 1,
        future_variant: JoinAwaiteeTypeVariant {
            discriminant: 0,
            offset: 1,
            size: 2,
            ty: Type::named(future),
        },
        done_variant: JoinAwaiteeTypeVariant {
            discriminant: 1,
            offset: 1,
            size: 1,
            ty: Type::named(done),
        },
    }
}

fn join_types() -> FutureTypes {
    let mut types = FutureTypes::new();
    types.insert(Type::named("A"), async_fn_type(leaf_layout()));
    types.insert(Type::named("B"), async_fn_type(leaf_layout()));
    types.insert(
        Type::named("Join<A,B>"),
        FutureType {
            kind: FutureTypeKind::Join(JoinFuture {
                awaitees: vec![(0, maybe_done("A", "u8")), (3, maybe_done("B", "bool"))],
            }),
        },
    );
    types
}

#[test]
fn join_with_done_child() {
    let bytes = [1, 0x77, 0, 0, 3, 0x42];
    let value = FutureValue::new(&Type::named("Join<A,B>"), &bytes, &join_types());
    let FutureValueKind::JoinValue(join) = value.kind else {
        panic!("a join future");
    };
    assert_eq!(join.awaitees, vec![opaque("u8", &[0x77]), leaf_value("B", 0x42)]);
}

#[test]
fn join_child_whose_output_was_taken() {
    let bytes = [2, 0x77, 0, 1, 1, 0];
    let value = FutureValue::new(&Type::named("Join<A,B>"), &bytes, &join_types());
    let FutureValueKind::JoinValue(join) = value.kind else {
        panic!("a join future");
    };
    let gone = FutureValue { ty: Type::Void, kind: FutureValueKind::Unknown(vec![]) };
    assert_eq!(join.awaitees, vec![gone, opaque("bool", &[1])]);
}

#[test]
fn join_child_without_readable_discriminant() {
    let value = FutureValue::new(&Type::named("Join<A,B>"), &[0, 3, 5], &join_types());
    let FutureValueKind::JoinValue(join) = value.kind else {
        panic!("a join future");
    };
    let gone = FutureValue { ty: Type::Void, kind: FutureValueKind::Unknown(vec![]) };
    assert_eq!(join.awaitees, vec![leaf_value("A", 5), gone]);
}

#[test]
fn decoding_twice_gives_equal_values() {
    let bytes = [1, 0x77, 0, 0, 3, 0x42];
    let first = FutureValue::new(&Type::named("Join<A,B>"), &bytes, &join_types());
    let second = FutureValue::new(&Type::named("Join<A,B>"), &bytes, &join_types());
    assert_eq!(first, second);
}

#[test]
fn futures_are_decoded_to_a_bounded_depth() {
    // A future that waits for a future of its own type, in its own bytes.
    let mut types = FutureTypes::new();
    let looped = Layout {
        members: vec![],
        state_member: member("__state", "u8", 0, 1),
        total_size: 1,
        states: vec![state("Suspend0", 3, vec![], Some(member("__awaitee", "loop", 0, 1)))],
    };
    assert!(looped.is_wf());
    types.insert(Type::named("loop"), async_fn_type(looped));
    let mut value = FutureValue::new(&Type::named("loop"), &[3], &types);
    let mut depth = 0;
    loop {
        match value.kind {
            FutureValueKind::AsyncFn(inner) => {
                depth += 1;
                value = *inner.state_value.unwrap().awaitee.unwrap();
            }
            FutureValueKind::Unknown(bytes) => {
                assert_eq!(bytes, vec![3]);
                break;
            }
            _ => panic!("only async fns"),
        }
    }
    assert_eq!(depth, MAX_FUTURE_DEPTH);
}

#[test]
fn layout_checks() {
    assert!(simple_layout().is_wf());
    let mut unsorted = simple_layout();
    unsorted.members.push(member("b", "u8", 0, 1));
    assert!(!unsorted.is_wf());
    let mut outside = simple_layout();
    outside.members[0].size = 9;
    assert!(!outside.is_wf());
    let mut dangling = simple_layout();
    dangling.states[1].active_members = vec![1];
    assert!(!dangling.is_wf());
    let mut twice = simple_layout();
    twice.states[2].discriminant_value = 3;
    assert!(!twice.is_wf());
    let mut odd = simple_layout();
    odd.state_member.size = 3;
    assert!(!odd.is_wf());
    let mut repeated = simple_layout();
    repeated.states[1].active_members = vec![0, 0];
    assert!(!repeated.is_wf());
    let mut far = simple_layout();
    far.states[1].awaitee = Some(member("__awaitee", "x", 15, 2));
    assert!(!far.is_wf());
}
