//! Declared types of fields, as far as the schema rules read them.

use vstd::prelude::*;

verus! {

/// The declared type of a field.
#[derive(Debug, PartialEq, Eq)]
pub enum TypeRef {
    /// A type named by a path, such as `std::path::PathBuf` or `Option<u16>`:
    /// the identifiers of the path's segments, and the generic type
    /// arguments of its last segment.
    Path { segments: Vec<String>, arguments: Vec<TypeRef> },
    /// A type of any other shape: a reference, a tuple, an array, ...
    Other,
}

/// Mathematical value of a [`TypeRef`].
pub ghost enum TypeRefView {
    Path { segments: Seq<Seq<char>>, arguments: Seq<TypeRefView> },
    Other,
}

impl View for TypeRef {
    type V = TypeRefView;

    open spec fn view(&self) -> TypeRefView
        decreases self,
    {
        match self {
            TypeRef::Path { segments, arguments } => TypeRefView::Path {
                segments: Seq::new(segments@.len(), |i: int| segments@[i]@),
                arguments: Seq::new(
                    arguments@.len(),
                    |i: int|
                        if 0 <= i < arguments@.len() {
                            arguments@[i].view()
                        } else {
                            TypeRefView::Other
                        },
                ),
            },
            TypeRef::Other => TypeRefView::Other,
        }
    }
}

impl DeepView for TypeRef {
    type V = TypeRefView;

    open spec fn deep_view(&self) -> TypeRefView {
        self@
    }
}

/// How a declared type takes part in a command line.
#[derive(Clone, Copy, Debug, PartialEq, Eq, Structural)]
pub enum StructOptTy {
    /// `bool`: a flag.
    Bool,
    /// `Vec<T>`: any number of values.
    Vec,
    /// `Option<T>`: at most one value.
    Option,
    /// `Option<Option<T>>`: an option that may come without a value.
    OptionOption,
    /// `Option<Vec<T>>`: an option with any number of values.
    OptionVec,
    /// Every other type: exactly one value.
    Other,
}

/// Whether `ty` is the plain one-segment path `name`, without arguments.
pub open spec fn is_simple(ty: TypeRefView, name: Seq<char>) -> bool {
    ty matches TypeRefView::Path { segments, arguments } && segments.len() == 1 && segments[0]
        == name && arguments.len() == 0
}

/// The argument of `ty` where `ty` is the one-segment path `name` applied
/// to exactly one type.
pub open spec fn wrapped_by(ty: TypeRefView, name: Seq<char>) -> Option<TypeRefView> {
    match ty {
        TypeRefView::Path { segments, arguments } => if segments.len() == 1 && segments[0] == name
            && arguments.len() == 1 {
            Some(arguments[0])
        } else {
            None
        },
        TypeRefView::Other => None,
    }
}

/// The command-line classification of a declared type.
pub open spec fn classified(ty: TypeRefView) -> StructOptTy {
    if is_simple(ty, "bool"@) {
        StructOptTy::Bool
    } else if wrapped_by(ty, "Vec"@) is Some {
        StructOptTy::Vec
    } else {
        match wrapped_by(ty, "Option"@) {
            Some(inner) => if wrapped_by(inner, "Option"@) is Some {
                StructOptTy::OptionOption
            } else if wrapped_by(inner, "Vec"@) is Some {
                StructOptTy::OptionVec
            } else {
                StructOptTy::Option
            },
            None => StructOptTy::Other,
        }
    }
}

/// The identifier that names the inner type of `ty`. A path applied to
/// exactly one type argument wraps that argument, and the inner type is
/// looked for there; any other path is named by its last segment.
/// A type that is no path, or a path without segments, has none.
pub open spec fn inner_name(ty: TypeRefView) -> Option<Seq<char>>
    decreases ty,
{
    match ty {
        TypeRefView::Path { segments, arguments } => if arguments.len() == 1 {
            inner_name(arguments[0])
        } else if segments.len() > 0 {
            Some(segments.last())
        } else {
            None
        },
        TypeRefView::Other => None,
    }
}

fn copy_names(names: &Vec<String>) -> (r: Vec<String>)
    ensures
        r@.len() == names@.len(),
        forall|i: int| 0 <= i < names@.len() ==> r@[i]@ == names@[i]@,
{
    let mut out: Vec<String> = Vec::new();
    let mut i: usize = 0;
    while i < names.len()
        invariant
            i <= names@.len(),
            out@.len() == i,
            forall|j: int| 0 <= j < i ==> out@[j]@ == names@[j]@,
        decreases names@.len() - i,
    {
        out.push(names[i].clone());
        i += 1;
    }
    out
}

impl Clone for TypeRef {
    fn clone(&self) -> (r: Self)
        ensures
            r@ == self@,
        decreases self,
    {
        match self {
            TypeRef::Path { segments, arguments } => {
                let mut args: Vec<TypeRef> = Vec::new();
                let mut i: usize = 0;
                while i < arguments.len()
                    invariant
                        i <= arguments@.len(),
                        args@.len() == i,
                        forall|j: int| 0 <= j < i ==> args@[j]@ == arguments@[j]@,
                        forall|j: int|
                            0 <= j < arguments@.len() ==> decreases_to!(self => arguments@[j]),
                    decreases arguments@.len() - i,
                {
                    args.push(arguments[i].clone());
                    i += 1;
                }
                let r = TypeRef::Path { segments: copy_names(segments), arguments: args };
                assert(r@->segments =~= self@->segments);
                assert(r@->arguments =~= self@->arguments);
                r
            },
            TypeRef::Other => TypeRef::Other,
        }
    }
}

/// The type `ty` with the identifier of its inner type replaced by
/// `name`: in the wrapped type where `ty` applies a path to exactly one
/// type argument, in the path's last segment otherwise. A type without an
/// inner type stays as it is.
pub open spec fn inner_replaced(ty: TypeRefView, name: Seq<char>) -> TypeRefView
    decreases ty,
{
    match ty {
        TypeRefView::Path { segments, arguments } => if arguments.len() == 1 {
            TypeRefView::Path { segments, arguments: seq![inner_replaced(arguments[0], name)] }
        } else if segments.len() > 0 {
            TypeRefView::Path { segments: segments.drop_last().push(name), arguments }
        } else {
            ty
        },
        TypeRefView::Other => ty,
    }
}

fn copy_types(types: &Vec<TypeRef>) -> (r: Vec<TypeRef>)
    ensures
        r@.len() == types@.len(),
        forall|i: int| 0 <= i < types@.len() ==> r@[i]@ == types@[i]@,
{
    let mut out: Vec<TypeRef> = Vec::new();
    let mut i: usize = 0;
    while i < types.len()
        invariant
            i <= types@.len(),
            out@.len() == i,
            forall|j: int| 0 <= j < i ==> out@[j]@ == types@[j]@,
        decreases types@.len() - i,
    {
        out.push(types[i].clone());
        i += 1;
    }
    out
}

impl TypeRef {
    /// Builds this type with the identifier of its inner type replaced by
    /// `name`; the wrappers around the inner type are kept.
    pub fn with_inner(&self, name: &String) -> (r: TypeRef)
        ensures
            r@ == inner_replaced(self@, name@),
        decreases self,
    {
        match self {
            TypeRef::Path { segments, arguments } => {
                if arguments.len() == 1 {
                    let inner = arguments[0].with_inner(name);
                    let mut wrapped: Vec<TypeRef> = Vec::new();
                    wrapped.push(inner);
                    let r = TypeRef::Path { segments: copy_names(segments), arguments: wrapped };
                    assert(r@->segments =~= self@->segments);
                    assert(r@->arguments =~= seq![inner_replaced(self@->arguments[0], name@)]);
                    r
                } else if segments.len() > 0 {
                    let mut names = copy_names(segments);
                    names.pop();
                    names.push(name.clone());
                    let r = TypeRef::Path { segments: names, arguments: copy_types(arguments) };
                    assert(r@->segments =~= self@->segments.drop_last().push(name@));
                    assert(r@->arguments =~= self@->arguments);
                    r
                } else {
                    self.clone()
                }
            },
            TypeRef::Other => TypeRef::Other,
        }
    }
}

fn is_named(ty: &TypeRef, name: &str) -> (r: bool)
    ensures
        r == (ty@ matches TypeRefView::Path { segments, arguments } && segments.len() == 1
            && segments[0] == name@),
{
    match ty {
        TypeRef::Path { segments, arguments } => segments.len() == 1 && segments[0]
            == name.to_owned(),
        TypeRef::Other => false,
    }
}

fn argument_count(ty: &TypeRef) -> (r: usize)
    ensures
        ty@ matches TypeRefView::Path { segments, arguments } ==> r == arguments.len(),
        ty@ is Other ==> r == 0,
{
    match ty {
        TypeRef::Path { segments, arguments } => arguments.len(),
        TypeRef::Other => 0,
    }
}

fn is_wrapped_by(ty: &TypeRef, name: &str) -> (r: bool)
    ensures
        r == (wrapped_by(ty@, name@) is Some),
{
    is_named(ty, name) && argument_count(ty) == 1
}

impl StructOptTy {
    /// Classifies a declared type.
    pub fn from_ty(ty: &TypeRef) -> (r: StructOptTy)
        ensures
            r == classified(ty@),
    {
        if is_named(ty, "bool") && argument_count(ty) == 0 {
            StructOptTy::Bool
        } else if is_wrapped_by(ty, "Vec") {
            StructOptTy::Vec
        } else if is_wrapped_by(ty, "Option") {
            match ty {
                TypeRef::Path { segments, arguments } => {
                    let inner = &arguments[0];
                    if is_wrapped_by(inner, "Option") {
                        StructOptTy::OptionOption
                    } else if is_wrapped_by(inner, "Vec") {
                        StructOptTy::OptionVec
                    } else {
                        StructOptTy::Option
                    }
                },
                TypeRef::Other => StructOptTy::Other,
            }
        } else {
            StructOptTy::Other
        }
    }
}

/// Finds the identifier of the inner type of a declared type: of the
/// wrapped type where `ty` applies a path to exactly one type argument,
/// of the path's last segment otherwise. `None` where `ty` cannot be named:
/// it is no path, or its path is empty.
pub fn inner_ty(ty: &TypeRef) -> (r: Option<&String>)
    ensures
        match inner_name(ty@) {
            Some(name) => r matches Some(s) && s@ == name,
            None => r is None,
        },
    decreases ty,
{
    match ty {
        TypeRef::Path { segments, arguments } => {
            if arguments.len() == 1 {
                inner_ty(&arguments[0])
            } else if segments.len() > 0 {
                Some(&segments[segments.len() - 1])
            } else {
                None
            }
        },
        TypeRef::Other => None,
    }
}

} // verus!
