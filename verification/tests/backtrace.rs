use embassy_inspect::async_fn::{Layout, Member, Source, State};
use embassy_inspect::ty::Type;
use embassy_inspect::value::{
    AsyncFnValue, FutureValue, FutureValueKind, JoinValue, SelectValue, StateValue,
};

fn bt_layout() -> Layout {
    Layout {
        members: vec![],
        state_member: Member { name: "__state".to_string(), ty: Type::named("u8"), offset: 0, size: 1 },
        total_size: 1,
        states: vec![],
    }
}

fn bt_opaque(ty: &str) -> FutureValue {
    FutureValue { ty: Type::named(ty), kind: FutureValueKind::Unknown(vec![1, 2]) }
}

fn bt_async_fn(
    ty: &str,
    state: &str,
    discriminant: u64,
    source: Option<Source>,
    awaitee: Option<FutureValue>,
) -> FutureValue {
    FutureValue {
        ty: Type::named(ty),
        kind: FutureValueKind::AsyncFn(AsyncFnValue {
            ty: bt_layout(),
            state_value: Ok(StateValue {
                state: State {
                    discriminant_value: discriminant,
                    active_members: vec![],
                    awaitee: None,
                    name: state.to_string(),
                    source,
                },
                members: vec![],
                awaitee: awaitee.map(Box::new),
            }),
        }),
    }
}

fn words(value: &FutureValue) -> String {
    value.headline().into_iter().map(|(text, _)| text).collect()
}

fn marked(value: &FutureValue) -> Vec<String> {
    value.headline().into_iter().filter(|(_, stands_out)| *stands_out).map(|(text, _)| text).collect()
}

#[test]
fn async_fn_says_where_it_waits() {
    let plain = bt_async_fn("demo::blink", "Suspend0", 3, None, None);
    assert_eq!(words(&plain), "Function demo::blink is waiting at Suspend0");
    assert_eq!(marked(&plain), vec!["demo::blink", "Suspend0"]);
    assert!(plain.awaitees().is_empty());

    let source = Source { path: "src/main.rs".to_string(), line: 12, column: 5 };
    let located = bt_async_fn("demo::blink", "Suspend0", 3, Some(source), Some(bt_opaque("Timer")));
    assert_eq!(
        words(&located),
        "Function demo::blink is waiting at Suspend0 (src/main.rs:12:5) on:"
    );
    assert_eq!(marked(&located), vec!["demo::blink", "Suspend0", "src/main.rs:12:5"]);
    let awaitees = located.awaitees();
    assert_eq!(awaitees.len(), 1);
    assert_eq!(awaitees[0].1, 3);
    assert_eq!(awaitees[0].0, &bt_opaque("Timer"));
}

#[test]
fn async_fn_with_unknown_discriminant() {
    let value = FutureValue {
        ty: Type::named("demo::blink"),
        kind: FutureValueKind::AsyncFn(AsyncFnValue { ty: bt_layout(), state_value: Err(255) }),
    };
    assert_eq!(words(&value), "Function demo::blink is waiting at <invalid discriminant 255>");
    assert!(value.awaitees().is_empty());
}

#[test]
fn select_and_join_count_their_awaitees() {
    let children = || vec![bt_opaque("A"), bt_async_fn("B", "Unresumed", 0, None, None), bt_opaque("C")];
    let select = FutureValue {
        ty: Type::named("Select3<A, B, C>"),
        kind: FutureValueKind::SelectValue(SelectValue { awaitees: children() }),
    };
    assert_eq!(words(&select), "Select waiting on one of 3 futures:");
    assert_eq!(marked(&select), vec!["3"]);
    let found = select.awaitees();
    assert_eq!(found.iter().map(|a| a.1).collect::<Vec<_>>(), vec![0, 1, 2]);
    assert_eq!(found[1].0, &children()[1]);

    let join = FutureValue {
        ty: Type::named("Join<A, B>"),
        kind: FutureValueKind::JoinValue(JoinValue { awaitees: children() }),
    };
    assert_eq!(words(&join), "Join waiting on 3 futures:");
    assert_eq!(join.awaitees().len(), 3);

    let none = FutureValue {
        ty: Type::named("Join<>"),
        kind: FutureValueKind::JoinValue(JoinValue { awaitees: vec![] }),
    };
    assert_eq!(words(&none), "Join waiting on 0 futures:");
    assert!(none.awaitees().is_empty());
}

#[test]
fn value_without_layout_is_named_by_its_type() {
    let value = bt_opaque("embassy_time::Timer");
    assert_eq!(words(&value), "embassy_time::Timer");
    assert!(marked(&value).is_empty());
    assert!(value.awaitees().is_empty());
}

#[test]
fn source_is_written_with_line_and_column() {
    let at = |line: u32, column: u32| Source { path: "main.rs".to_string(), line, column };
    assert_eq!(at(0, 7).to_string(), "main.rs");
    assert_eq!(at(12, 0).to_string(), "main.rs:12");
    assert_eq!(at(12, 7).to_string(), "main.rs:12:7");
}
