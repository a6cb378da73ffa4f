//! A plain model of the debug records of one object file.
//!
//! The model holds what the layout extraction reads from the debug
//! information: types, global variables and functions. Types refer to each
//! other by their position in [`DebugInfo::types`].
use vstd::prelude::*;
use crate::text::push_text;

verus! {

/// A reference to a type: its position in [`DebugInfo::types`], or `None`
/// where the debug information names no type.
pub type TypeRef = Option<usize>;

/// The names of the enclosing namespaces of an item, outermost first. An item
/// outside of any namespace has none.
pub type Namespace = Vec<Option<String>>;

/// What a type modifier does to the type it is applied to.
#[derive(Debug, Clone, Copy, PartialEq, Eq)]
pub enum ModifierKind {
    Pointer,
    Reference,
    Const,
    Packed,
    Volatile,
    Restrict,
    Shared,
    RvalueReference,
    Atomic,
    Other,
}

/// A data member of a structure or of one of its variants.
#[derive(Debug)]
pub struct Field {
    pub name: Option<String>,
    pub ty: TypeRef,
    /// Offset from the start of the enclosing structure, in bits.
    pub bit_offset: u64,
    /// Size in bits, where it is known.
    pub bit_size: Option<u64>,
}

/// A location in the source code, as the debug information records it.
#[derive(Debug)]
pub struct SourceLocation {
    pub directory: Option<String>,
    pub file: Option<String>,
    pub line: u32,
    pub column: u32,
}

/// One alternative of a variant part.
#[derive(Debug)]
pub struct Variant {
    pub name: Option<String>,
    pub discriminant_value: Option<u64>,
    pub members: Vec<Field>,
    pub source: SourceLocation,
}

/// The part of a structure whose content depends on a discriminant.
#[derive(Debug)]
pub struct VariantPart {
    /// The position, among the members of the structure, of the member that
    /// holds the discriminant.
    pub discriminant: Option<usize>,
    pub variants: Vec<Variant>,
}

/// A structure type.
#[derive(Debug)]
pub struct StructType {
    pub namespace: Namespace,
    pub name: Option<String>,
    pub byte_size: Option<u64>,
    pub members: Vec<Field>,
    pub variant_parts: Vec<VariantPart>,
}

/// The kinds of types found in the debug information.
#[derive(Debug)]
pub enum TypeKind {
    Void,
    Base { name: Option<String> },
    Def { namespace: Namespace, name: Option<String> },
    Struct(StructType),
    Union { namespace: Namespace, name: Option<String> },
    Enumeration { namespace: Namespace, name: Option<String> },
    Array { element: TypeRef, counts: Vec<Option<u64>>, byte_size: Option<u64> },
    Function { parameters: Vec<TypeRef>, return_type: TypeRef },
    Unspecified { namespace: Namespace, name: Option<String> },
    PointerToMember { member_type: TypeRef },
    Modifier { kind: ModifierKind, target: TypeRef },
    Subrange { target: TypeRef },
}

/// A global variable.
#[derive(Debug)]
pub struct Variable {
    pub name: Option<String>,
    pub namespace: Namespace,
    pub ty: TypeRef,
    pub address: Option<u64>,
    pub byte_size: Option<u64>,
}

/// A range of instruction addresses, `begin` included and `end` excluded.
#[derive(Debug, Clone, Copy, PartialEq, Eq)]
pub struct Range {
    pub begin: u64,
    pub end: u64,
}

/// What identifies a function: its namespace and its name.
#[derive(Debug)]
pub struct FunctionId {
    pub namespace: Namespace,
    pub name: Option<String>,
}

/// One place where a function was inlined into another.
#[derive(Debug)]
pub struct InlinedFunction {
    /// The function that was inlined here, where it is known.
    pub origin: Option<FunctionId>,
    pub ranges: Vec<Range>,
    /// The functions inlined into this inlined instance.
    pub inlined: Vec<InlinedFunction>,
}

/// A function of the program.
#[derive(Debug)]
pub struct Function {
    pub id: FunctionId,
    pub linkage_name: Option<String>,
    pub ranges: Vec<Range>,
    pub inline: bool,
    pub inlined: Vec<InlinedFunction>,
}

/// The debug records of one object file.
#[derive(Debug)]
pub struct DebugInfo {
    pub types: Vec<TypeKind>,
    pub variables: Vec<Variable>,
    pub functions: Vec<Function>,
}

/// The text that stands for a name that may be missing.
pub open spec fn name_text(name: Option<String>) -> Seq<char> {
    match name {
        Some(n) => n@,
        None => "<unknown>"@,
    }
}

/// The names of a namespace joined by `::`.
pub open spec fn path_text(namespace: Seq<Option<String>>) -> Seq<char>
    decreases namespace.len(),
{
    if namespace.len() == 0 {
        Seq::empty()
    } else if namespace.len() == 1 {
        name_text(namespace[0])
    } else {
        path_text(namespace.drop_last()) + "::"@ + name_text(namespace.last())
    }
}

/// The path of an item: its namespace, `::`, and its name.
pub open spec fn qualified_text(namespace: Seq<Option<String>>, name: Option<String>) -> Seq<char> {
    if namespace.len() == 0 {
        name_text(name)
    } else {
        path_text(namespace) + "::"@ + name_text(name)
    }
}

/// The type that `r` refers to.
pub open spec fn resolve(info: &DebugInfo, r: TypeRef) -> Option<TypeKind> {
    match r {
        Some(i) => if i < info.types.len() {
            Some(info.types[i as int])
        } else {
            None
        },
        None => None,
    }
}

fn push_name(out: &mut Vec<char>, name: &Option<String>)
    ensures
        final(out)@ == old(out)@ + name_text(*name),
{
    match name {
        Some(n) => push_text(out, n.as_str()),
        None => push_text(out, "<unknown>"),
    }
}

/// Appends the first `len` names of `namespace`, joined by `::`, to `out`.
pub fn push_path(out: &mut Vec<char>, namespace: &Namespace, len: usize)
    requires
        len <= namespace.len(),
    ensures
        final(out)@ == old(out)@ + path_text(namespace@.take(len as int)),
{
    let mut i: usize = 0;
    proof {
        assert(old(out)@ + path_text(namespace@.take(0)) == old(out)@);
    }
    while i < len
        invariant
            i <= len <= namespace.len(),
            out@ == old(out)@ + path_text(namespace@.take(i as int)),
        decreases len - i,
    {
        let ghost before = namespace@.take(i as int);
        let ghost after = namespace@.take(i as int + 1);
        if i > 0 {
            push_text(out, "::");
        }
        push_name(out, &namespace[i]);
        proof {
            assert(after.drop_last() == before);
            assert(after.last() == namespace@[i as int]);
            if i == 0 {
                assert(path_text(before) == Seq::<char>::empty());
                assert(out@ == old(out)@ + path_text(after));
            } else {
                assert(out@ == old(out)@ + path_text(after));
            }
        }
        i += 1;
    }
}

/// Converts a namespace into a path separated by `::`.
pub fn namespace_to_path(namespace: &Namespace) -> (path: String)
    ensures
        path@ == path_text(namespace@),
{
    let mut out: Vec<char> = Vec::new();
    push_path(&mut out, namespace, namespace.len());
    proof {
        assert(namespace@.take(namespace.len() as int) == namespace@);
        assert(Seq::<char>::empty() + path_text(namespace@) == path_text(namespace@));
    }
    crate::text::string_of(&out)
}

/// Converts a namespace and a name into a path separated by `::`.
pub fn from_namespace_and_name(namespace: &Namespace, name: &Option<String>) -> (path: String)
    ensures
        path@ == qualified_text(namespace@, *name),
{
    let mut out: Vec<char> = Vec::new();
    if namespace.len() > 0 {
        push_path(&mut out, namespace, namespace.len());
        push_text(&mut out, "::");
    }
    push_name(&mut out, name);
    proof {
        assert(namespace@.take(namespace.len() as int) == namespace@);
        assert(out@ == qualified_text(namespace@, *name));
    }
    crate::text::string_of(&out)
}

impl DebugInfo {
    /// The type that `r` refers to, if there is one.
    pub fn type_at(&self, r: TypeRef) -> (found: Option<&TypeKind>)
        ensures
            match found {
                Some(t) => resolve(self, r) == Some(*t),
                None => resolve(self, r) is None,
            },
    {
        match r {
            Some(i) => if i < self.types.len() {
                Some(&self.types[i])
            } else {
                None
            },
            None => None,
        }
    }
}

} // verus!
