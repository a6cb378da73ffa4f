use embassy_inspect::dwarf::{
    from_namespace_and_name, namespace_to_path, DebugInfo, ModifierKind, StructType, TypeKind,
};
use embassy_inspect::ty::{Type, MAX_TYPE_DEPTH};

fn t_names(names: &[&str]) -> Vec<Option<String>> {
    names.iter().map(|n| Some(n.to_string())).collect()
}

fn t_info(types: Vec<TypeKind>) -> DebugInfo {
    DebugInfo { types, variables: vec![], functions: vec![] }
}

fn base(name: &str) -> TypeKind {
    TypeKind::Base { name: Some(name.to_string()) }
}

#[test]
fn types_are_written_like_in_the_source() {
    assert_eq!(Type::Unknown.to_string(), "<unknown>");
    assert_eq!(Type::Void.to_string(), "void");
    assert_eq!(Type::named("core::option::Option<u8>").to_string(), "core::option::Option<u8>");
    assert_eq!(Type::Pointer(Box::new(Type::named("u8"))).to_string(), "*u8");
    assert_eq!(Type::Reference(Box::new(Type::Void)).to_string(), "&void");
    let array = Type::Array { inner: Box::new(Type::named("u32")), count: 1024 };
    assert_eq!(array.to_string(), "[u32; 1024]");
    let nested = Type::Array {
        inner: Box::new(Type::Pointer(Box::new(Type::Array {
            inner: Box::new(Type::Unknown),
            count: 0,
        }))),
        count: u64::MAX,
    };
    assert_eq!(nested.to_string(), "[*[<unknown>; 0]; 18446744073709551615]");
}

#[test]
fn types_are_equal_by_shape() {
    let a = Type::Array { inner: Box::new(Type::named("u8")), count: 4 };
    assert!(a.same(&a.clone()));
    assert_eq!(a, a.duplicate());
    assert!(!a.same(&Type::Array { inner: Box::new(Type::named("u8")), count: 5 }));
    assert!(!a.same(&Type::Array { inner: Box::new(Type::named("i8")), count: 4 }));
    assert!(!Type::Pointer(Box::new(Type::Void)).same(&Type::Reference(Box::new(Type::Void))));
    assert!(!Type::Unknown.same(&Type::Void));
    assert!(Type::default().same(&Type::Unknown));
    assert!(!Type::named("a").same(&Type::named("ab")));
}

#[test]
fn paths_of_namespaces() {
    assert_eq!(namespace_to_path(&t_names(&["a"])), "a");
    assert_eq!(namespace_to_path(&t_names(&["a", "b", "c"])), "a::b::c");
    assert_eq!(namespace_to_path(&vec![Some("a".to_string()), None]), "a::<unknown>");
    assert_eq!(namespace_to_path(&vec![]), "");
    assert_eq!(from_namespace_and_name(&t_names(&["a", "b"]), &Some("T".to_string())), "a::b::T");
    assert_eq!(from_namespace_and_name(&vec![], &Some("T".to_string())), "T");
    assert_eq!(from_namespace_and_name(&t_names(&["a"]), &None), "a::<unknown>");
    assert_eq!(from_namespace_and_name(&vec![], &None), "<unknown>");
}

#[test]
fn named_types_are_described_by_their_path() {
    let info = t_info(vec![
        TypeKind::Void,
        base("u8"),
        TypeKind::Base { name: None },
        TypeKind::Def { namespace: t_names(&["lib"]), name: Some("Word".to_string()) },
        TypeKind::Struct(StructType {
            namespace: t_names(&["lib", "inner"]),
            name: Some("Pair<u8>".to_string()),
            byte_size: Some(2),
            members: vec![],
            variant_parts: vec![],
        }),
        TypeKind::Union { namespace: vec![], name: Some("Bits".to_string()) },
        TypeKind::Enumeration { namespace: t_names(&["lib"]), name: None },
        TypeKind::Unspecified { namespace: t_names(&["lib"]), name: Some("Never".to_string()) },
    ]);
    let described: Vec<String> = (0..8).map(|i| Type::from_ref(&info, Some(i)).to_string()).collect();
    assert_eq!(
        described,
        vec![
            "void",
            "u8",
            "<unknown>",
            "lib::Word",
            "lib::inner::Pair<u8>",
            "Bits",
            "lib::<unknown>",
            "lib::Never"
        ]
    );
    assert_eq!(Type::from_ref(&info, Some(0)), Type::Void);
    assert_eq!(Type::from_ref(&info, Some(2)), Type::named("<unknown>"));
    assert_eq!(Type::from_ref(&info, None), Type::Unknown);
    assert_eq!(Type::from_ref(&info, Some(8)), Type::Unknown);
    assert_eq!(Type::from_kind(&info, &info.types[3]), Type::named("lib::Word"));
}

#[test]
fn modifiers_pointers_and_arrays() {
    let modifier = |kind: ModifierKind, target: Option<usize>| TypeKind::Modifier { kind, target };
    let info = t_info(vec![
        base("u8"),
        modifier(ModifierKind::Pointer, Some(0)),
        modifier(ModifierKind::Reference, Some(1)),
        modifier(ModifierKind::Const, Some(2)),
        modifier(ModifierKind::Volatile, Some(3)),
        modifier(ModifierKind::Restrict, Some(4)),
        modifier(ModifierKind::Packed, Some(5)),
        modifier(ModifierKind::Atomic, Some(6)),
        modifier(ModifierKind::Shared, Some(7)),
        modifier(ModifierKind::RvalueReference, Some(8)),
        modifier(ModifierKind::Other, Some(9)),
        modifier(ModifierKind::Pointer, None),
        TypeKind::Array { element: Some(10), counts: vec![Some(3)], byte_size: None },
        TypeKind::Array { element: Some(0), counts: vec![], byte_size: None },
        TypeKind::Array { element: Some(0), counts: vec![None], byte_size: None },
        TypeKind::Array { element: Some(0), counts: vec![Some(2), Some(3)], byte_size: None },
        TypeKind::PointerToMember { member_type: Some(0) },
        TypeKind::Subrange { target: Some(1) },
        TypeKind::Subrange { target: None },
    ]);
    let pointer = Type::Pointer(Box::new(Type::named("u8")));
    let reference = Type::Reference(Box::new(pointer.clone()));
    assert_eq!(Type::from_ref(&info, Some(1)), pointer);
    assert_eq!(Type::from_ref(&info, Some(2)), reference);
    assert_eq!(Type::from_ref(&info, Some(10)), reference);
    assert_eq!(Type::from_ref(&info, Some(11)), Type::Pointer(Box::new(Type::Unknown)));
    assert_eq!(
        Type::from_ref(&info, Some(12)),
        Type::Array { inner: Box::new(reference), count: 3 }
    );
    assert_eq!(Type::from_ref(&info, Some(13)), Type::Unknown);
    assert_eq!(Type::from_ref(&info, Some(14)), Type::Unknown);
    assert_eq!(Type::from_ref(&info, Some(15)), Type::Unknown);
    assert_eq!(Type::from_ref(&info, Some(16)), Type::Pointer(Box::new(Type::named("u8"))));
    assert_eq!(Type::from_ref(&info, Some(17)), pointer);
    assert_eq!(Type::from_ref(&info, Some(18)), Type::Unknown);
}

#[test]
fn function_types_are_named_by_their_signature() {
    let info = t_info(vec![
        base("u8"),
        TypeKind::Void,
        TypeKind::Modifier { kind: ModifierKind::Pointer, target: Some(0) },
        TypeKind::Function { parameters: vec![], return_type: None },
        TypeKind::Function { parameters: vec![Some(0)], return_type: Some(1) },
        TypeKind::Function { parameters: vec![Some(0), Some(2), None], return_type: Some(2) },
        TypeKind::Function { parameters: vec![Some(4)], return_type: Some(3) },
    ]);
    assert_eq!(Type::from_ref(&info, Some(3)), Type::named("fn()"));
    assert_eq!(Type::from_ref(&info, Some(4)), Type::named("fn(u8) -> void"));
    assert_eq!(Type::from_ref(&info, Some(5)), Type::named("fn(u8,*u8,<unknown>) -> *u8"));
    assert_eq!(Type::from_ref(&info, Some(6)), Type::named("fn(fn(u8) -> void) -> fn()"));
}

#[test]
fn types_are_followed_to_a_bounded_depth() {
    // A pointer to itself.
    let info = t_info(vec![TypeKind::Modifier { kind: ModifierKind::Pointer, target: Some(0) }]);
    let mut described = Type::from_ref(&info, Some(0));
    let mut depth = 0;
    while let Type::Pointer(inner) = described {
        depth += 1;
        described = *inner;
    }
    assert_eq!(described, Type::Unknown);
    assert_eq!(depth, MAX_TYPE_DEPTH);
    assert_eq!(Type::from_ref_within(&info, Some(0), 0), Type::Unknown);
    assert_eq!(
        Type::from_ref_within(&info, Some(0), 1),
        Type::Pointer(Box::new(Type::Unknown))
    );
}
