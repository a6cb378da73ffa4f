//! A compact description of the shape of a type of the target program.
use vstd::prelude::*;
use crate::dwarf::{
    DebugInfo, from_namespace_and_name, ModifierKind, name_text, qualified_text, resolve, TypeKind,
    TypeRef,
};
use crate::text::{decimal, push_decimal, push_text, same_text, string_of};

verus! {

/// The shape of a type of the target program.
///
/// Debuggers do not always recognise types such as `[T; 4]` or `*u8` by
/// name, so their shape is kept instead, from which the type can be built
/// again on the side of the debugger.
#[derive(Debug, Default, PartialEq, Eq, Hash)]
pub enum Type {
    #[default]
    Unknown,
    Void,
    /// Fixed size array: `[inner; count]`
    Array { inner: Box<Type>, count: u64 },
    Pointer(Box<Type>),
    Reference(Box<Type>),
    /// Any type that has a clear name
    Base(String),
}

/// The mathematical value of a [`Type`].
pub enum TypeView {
    Unknown,
    Void,
    Array { inner: Box<TypeView>, count: u64 },
    Pointer(Box<TypeView>),
    Reference(Box<TypeView>),
    Base(Seq<char>),
}

impl View for Type {
    type V = TypeView;

    open spec fn view(&self) -> TypeView {
        self.shape()
    }
}

impl Clone for Type {
    fn clone(&self) -> (copy: Type)
        ensures
            copy@ == self@,
    {
        self.duplicate()
    }
}

impl TypeView {
    /// How the type is written: `<unknown>`, `void`, `[inner; count]`,
    /// `*inner`, `&inner`, or the name of the type.
    pub open spec fn text(self) -> Seq<char>
        decreases self,
    {
        match self {
            TypeView::Unknown => "<unknown>"@,
            TypeView::Void => "void"@,
            TypeView::Array { inner, count } => "["@ + inner.text() + "; "@ + decimal(count as nat)
                + "]"@,
            TypeView::Pointer(inner) => "*"@ + inner.text(),
            TypeView::Reference(inner) => "&"@ + inner.text(),
            TypeView::Base(name) => name,
        }
    }
}

impl Type {
    /// The mathematical value of the type.
    pub open spec fn shape(&self) -> TypeView
        decreases self,
    {
        match self {
            Type::Unknown => TypeView::Unknown,
            Type::Void => TypeView::Void,
            Type::Array { inner, count } => TypeView::Array {
                inner: Box::new(inner.shape()),
                count: *count,
            },
            Type::Pointer(inner) => TypeView::Pointer(Box::new(inner.shape())),
            Type::Reference(inner) => TypeView::Reference(Box::new(inner.shape())),
            Type::Base(name) => TypeView::Base(name@),
        }
    }

    /// The type with the given name.
    pub fn named(name: &str) -> (ty: Type)
        ensures
            ty@ == TypeView::Base(name@),
    {
        Type::Base(name.to_owned())
    }

    /// Whether two types have the same shape.
    pub fn same(&self, other: &Type) -> (eq: bool)
        ensures
            eq == (self@ == other@),
        decreases self,
    {
        match (self, other) {
            (Type::Unknown, Type::Unknown) => true,
            (Type::Void, Type::Void) => true,
            (Type::Array { inner: a, count: n }, Type::Array { inner: b, count: m }) => {
                *n == *m && a.same(b)
            },
            (Type::Pointer(a), Type::Pointer(b)) => a.same(b),
            (Type::Reference(a), Type::Reference(b)) => a.same(b),
            (Type::Base(a), Type::Base(b)) => same_text(a.as_str(), b.as_str()),
            _ => false,
        }
    }

    /// A copy of the type.
    pub fn duplicate(&self) -> (copy: Type)
        ensures
            copy@ == self@,
        decreases self,
    {
        match self {
            Type::Unknown => Type::Unknown,
            Type::Void => Type::Void,
            Type::Array { inner, count } => Type::Array {
                inner: Box::new(inner.duplicate()),
                count: *count,
            },
            Type::Pointer(inner) => Type::Pointer(Box::new(inner.duplicate())),
            Type::Reference(inner) => Type::Reference(Box::new(inner.duplicate())),
            Type::Base(name) => Type::Base(name.clone()),
        }
    }

    /// Appends the written form of the type to `out`.
    pub fn write_to(&self, out: &mut Vec<char>)
        ensures
            final(out)@ == old(out)@ + self@.text(),
        decreases self,
    {
        match self {
            Type::Unknown => push_text(out, "<unknown>"),
            Type::Void => push_text(out, "void"),
            Type::Array { inner, count } => {
                push_text(out, "[");
                inner.write_to(out);
                push_text(out, "; ");
                push_decimal(out, *count);
                push_text(out, "]");
                proof {
                    assert(out@ == old(out)@ + self@.text());
                }
            },
            Type::Pointer(inner) => {
                push_text(out, "*");
                inner.write_to(out);
                proof {
                    assert(out@ == old(out)@ + self@.text());
                }
            },
            Type::Reference(inner) => {
                push_text(out, "&");
                inner.write_to(out);
                proof {
                    assert(out@ == old(out)@ + self@.text());
                }
            },
            Type::Base(name) => push_text(out, name.as_str()),
        }
    }

    /// The written form of the type.
    pub fn to_string(&self) -> (text: String)
        ensures
            text@ == self@.text(),
    {
        let mut out: Vec<char> = Vec::new();
        self.write_to(&mut out);
        proof {
            assert(Seq::<char>::empty() + self@.text() == self@.text());
        }
        string_of(&out)
    }
}

/// How many type records are followed from one type to the types it is made
/// of. What lies deeper is described as [`Type::Unknown`].
pub const MAX_TYPE_DEPTH: usize = 64;

/// The written forms of the types `params`, separated by commas.
pub open spec fn parameters_text(info: &DebugInfo, params: Seq<TypeRef>, depth: nat) -> Seq<char>
    decreases depth, 2 + params.len(),
{
    if params.len() == 0 {
        Seq::empty()
    } else if params.len() == 1 {
        describe(info, params[0], depth).text()
    } else {
        parameters_text(info, params.drop_last(), depth) + ","@ + describe(
            info,
            params.last(),
            depth,
        ).text()
    }
}

/// The description of the type that `r` refers to; [`TypeView::Unknown`]
/// where it refers to none.
pub open spec fn describe(info: &DebugInfo, r: TypeRef, depth: nat) -> TypeView
    decreases depth, 1nat,
{
    match resolve(info, r) {
        Some(kind) => describe_kind(info, kind, depth),
        None => TypeView::Unknown,
    }
}

/// The description of a type record. Modifiers other than pointers and
/// references are transparent, named types are described by their full path,
/// and a function type by the text `fn(T1,T2) -> R`.
pub open spec fn describe_kind(info: &DebugInfo, kind: TypeKind, depth: nat) -> TypeView
    decreases depth, 0nat,
{
    if depth == 0 {
        TypeView::Unknown
    } else {
        let below = (depth - 1) as nat;
        match kind {
            TypeKind::Void => TypeView::Void,
            TypeKind::Base { name } => TypeView::Base(name_text(name)),
            TypeKind::Def { namespace, name } => TypeView::Base(qualified_text(namespace@, name)),
            TypeKind::Struct(st) => TypeView::Base(qualified_text(st.namespace@, st.name)),
            TypeKind::Union { namespace, name } => TypeView::Base(qualified_text(namespace@, name)),
            TypeKind::Enumeration { namespace, name } => TypeView::Base(
                qualified_text(namespace@, name),
            ),
            TypeKind::Array { element, counts, byte_size } => {
                if counts@.len() == 1 && counts@[0] is Some {
                    TypeView::Array {
                        inner: Box::new(describe(info, element, below)),
                        count: counts@[0]->0,
                    }
                } else {
                    TypeView::Unknown
                }
            },
            TypeKind::Function { parameters, return_type } => TypeView::Base(
                "fn("@ + parameters_text(info, parameters@, below) + ")"@ + (if resolve(
                    info,
                    return_type,
                ) is Some {
                    " -> "@ + describe(info, return_type, below).text()
                } else {
                    Seq::empty()
                }),
            ),
            TypeKind::Unspecified { namespace, name } => TypeView::Base(
                qualified_text(namespace@, name),
            ),
            TypeKind::PointerToMember { member_type } => TypeView::Pointer(
                Box::new(describe(info, member_type, below)),
            ),
            TypeKind::Modifier { kind, target } => match kind {
                ModifierKind::Pointer => TypeView::Pointer(Box::new(describe(info, target, below))),
                ModifierKind::Reference => TypeView::Reference(
                    Box::new(describe(info, target, below)),
                ),
                _ => describe(info, target, below),
            },
            TypeKind::Subrange { target } => describe(info, target, below),
        }
    }
}

impl Type {
    /// Describes the type that `r` refers to. A reference to no type gives
    /// [`Type::Unknown`].
    pub fn from_ref(info: &DebugInfo, r: TypeRef) -> (ty: Type)
        ensures
            ty@ == describe(info, r, MAX_TYPE_DEPTH as nat),
    {
        Type::from_ref_within(info, r, MAX_TYPE_DEPTH)
    }

    /// Describes the type record `kind` of `info`.
    pub fn from_kind(info: &DebugInfo, kind: &TypeKind) -> (ty: Type)
        ensures
            ty@ == describe_kind(info, *kind, MAX_TYPE_DEPTH as nat),
    {
        Type::from_kind_within(info, kind, MAX_TYPE_DEPTH)
    }

    /// [`Type::from_ref`] with a bound on the number of records followed.
    pub fn from_ref_within(info: &DebugInfo, r: TypeRef, depth: usize) -> (ty: Type)
        ensures
            ty@ == describe(info, r, depth as nat),
        decreases depth, 1nat,
    {
        match info.type_at(r) {
            Some(kind) => Type::from_kind_within(info, kind, depth),
            None => Type::Unknown,
        }
    }

    /// [`Type::from_kind`] with a bound on the number of records followed.
    pub fn from_kind_within(info: &DebugInfo, kind: &TypeKind, depth: usize) -> (ty: Type)
        ensures
            ty@ == describe_kind(info, *kind, depth as nat),
        decreases depth, 0nat,
    {
        if depth == 0 {
            return Type::Unknown;
        }
        let below = depth - 1;
        match kind {
            TypeKind::Void => Type::Void,
            TypeKind::Base { name } => {
                let mut out: Vec<char> = Vec::new();
                match name {
                    Some(n) => push_text(&mut out, n.as_str()),
                    None => push_text(&mut out, "<unknown>"),
                }
                proof {
                    assert(out@ == name_text(*name));
                }
                Type::Base(string_of(&out))
            },
            TypeKind::Def { namespace, name } => Type::Base(
                from_namespace_and_name(namespace, name),
            ),
            TypeKind::Struct(st) => Type::Base(from_namespace_and_name(&st.namespace, &st.name)),
            TypeKind::Union { namespace, name } => Type::Base(
                from_namespace_and_name(namespace, name),
            ),
            TypeKind::Enumeration { namespace, name } => Type::Base(
                from_namespace_and_name(namespace, name),
            ),
            TypeKind::Array { element, counts, byte_size } => {
                if counts.len() == 1 {
                    match counts[0] {
                        Some(count) => Type::Array {
                            inner: Box::new(Type::from_ref_within(info, *element, below)),
                            count,
                        },
                        None => Type::Unknown,
                    }
                } else {
                    Type::Unknown
                }
            },
            TypeKind::Function { parameters, return_type } => {
                let mut out: Vec<char> = Vec::new();
                push_text(&mut out, "fn(");
                let mut i: usize = 0;
                proof {
                    assert(parameters@.take(0).len() == 0);
                    assert(out@ == "fn("@ + parameters_text(info, parameters@.take(0), below as nat));
                }
                while i < parameters.len()
                    invariant
                        i <= parameters.len(),
                        below < depth,
                        out@ == "fn("@ + parameters_text(
                            info,
                            parameters@.take(i as int),
                            below as nat,
                        ),
                    decreases parameters.len() - i,
                {
                    let ghost before = parameters@.take(i as int);
                    let ghost after = parameters@.take(i as int + 1);
                    if i > 0 {
                        push_text(&mut out, ",");
                    }
                    let param = Type::from_ref_within(info, parameters[i], below);
                    param.write_to(&mut out);
                    proof {
                        assert(after.drop_last() == before);
                        assert(after.last() == parameters@[i as int]);
                        if i == 0 {
                            assert(parameters_text(info, before, below as nat) == Seq::<
                                char,
                            >::empty());
                        }
                        assert(out@ == "fn("@ + parameters_text(info, after, below as nat));
                    }
                    i += 1;
                }
                proof {
                    assert(parameters@.take(parameters.len() as int) == parameters@);
                }
                push_text(&mut out, ")");
                if info.type_at(*return_type).is_some() {
                    push_text(&mut out, " -> ");
                    let ret = Type::from_ref_within(info, *return_type, below);
                    ret.write_to(&mut out);
                }
                proof {
                    let head = "fn("@ + parameters_text(info, parameters@, below as nat) + ")"@;
                    let tail = if resolve(info, *return_type) is Some {
                        " -> "@ + describe(info, *return_type, below as nat).text()
                    } else {
                        Seq::<char>::empty()
                    };
                    assert(out@ =~= head + tail);
                }
                Type::Base(string_of(&out))
            },
            TypeKind::Unspecified { namespace, name } => Type::Base(
                from_namespace_and_name(namespace, name),
            ),
            TypeKind::PointerToMember { member_type } => Type::Pointer(
                Box::new(Type::from_ref_within(info, *member_type, below)),
            ),
            TypeKind::Modifier { kind, target } => {
                let inner = Type::from_ref_within(info, *target, below);
                match kind {
                    ModifierKind::Pointer => Type::Pointer(Box::new(inner)),
                    ModifierKind::Reference => Type::Reference(Box::new(inner)),
                    _ => inner,
                }
            },
            TypeKind::Subrange { target } => Type::from_ref_within(info, *target, below),
        }
    }
}

} // verus!
