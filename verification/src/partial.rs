//! Partial schemas: the counterpart of a schema in which every field is
//! optional, flattened fields are inlined, and a subcommand field selects
//! at most one variant.

use crate::error::SchemaError;
use crate::error::SchemaErrorView;
use crate::field::FieldView;
use crate::types::TypeRef;
use crate::types::inner_replaced;
use crate::types::TypeRefView;
use crate::field::ParsedField;
use crate::schema::Schema;
use crate::schema::SchemaKind;
use crate::schema::SchemaKindView;
use crate::schema::SchemaView;
use crate::schema::VariantEntry;
use crate::schema::VariantEntryView;
use crate::variant::ParsedVariant;
use crate::variant::VariantView;
use vstd::prelude::*;
use vstd::set_lib::lemma_int_range;
use vstd::set_lib::set_int_range;
use vstd::string::StringExecFns;

verus! {

/// One field of a partial schema: a field model.
///
/// Its type is optional-of-`partial_ty` where the field's inner type has a
/// registered partial counterpart, and optional-of-the-declared-type
/// otherwise.
#[derive(Debug, PartialEq, Eq)]
pub struct PartialField {
    /// The descriptor of the field that this one mirrors.
    pub descriptor: ParsedField,
    /// The identifier of the registered partial counterpart of the
    /// field's inner type, if there is one.
    pub partial_ty: Option<String>,
    /// For a subcommand field: the position, among the registered schemas,
    /// of the enum whose variants the field chooses from.
    pub choice: Option<usize>,
    /// Where the field comes from, seen from its level: its identifier,
    /// preceded by the identifiers of the flattened fields that it was
    /// inlined through, joined by dots.
    pub path: String,
}

/// Mathematical value of a [`PartialField`].
pub ghost struct PartialFieldView {
    pub descriptor: FieldView,
    pub partial_ty: Option<Seq<char>>,
    pub choice: Option<int>,
    pub path: Seq<char>,
}

impl DeepView for PartialField {
    type V = PartialFieldView;

    open spec fn deep_view(&self) -> PartialFieldView {
        PartialFieldView {
            descriptor: self.descriptor@,
            partial_ty: match self.partial_ty {
                Some(name) => Some(name@),
                None => None,
            },
            choice: match self.choice {
                Some(j) => Some(j as int),
                None => None,
            },
            path: self.path@,
        }
    }
}

impl View for PartialField {
    type V = PartialFieldView;

    open spec fn view(&self) -> PartialFieldView {
        self.deep_view()
    }
}

/// The type of a field of a partial schema: optional-of the declared
/// type, in which the identifier of the inner type is replaced by the
/// registered partial counterpart where there is one. The wrappers of the
/// declared type are kept: `Vec<Server>` becomes `Option<Vec<P>>` where `P`
/// is the partial counterpart of `Server`, and `Option<u8>` becomes
/// `Option<Option<u8>>`.
pub open spec fn optional_type(field: PartialFieldView) -> TypeRefView {
    TypeRefView::Path {
        segments: seq!["Option"@],
        arguments: seq![
            match field.partial_ty {
                Some(name) => inner_replaced(field.descriptor.ty, name),
                None => field.descriptor.ty,
            },
        ],
    }
}

impl PartialField {
    /// Builds the type of this field in the partial schema.
    pub fn optional_ty(&self) -> (r: TypeRef)
        ensures
            r@ == optional_type(self@),
    {
        let inner = match &self.partial_ty {
            Some(name) => self.descriptor.ty().with_inner(name),
            None => self.descriptor.ty().clone(),
        };
        let mut segments: Vec<String> = Vec::new();
        segments.push("Option".to_owned());
        let mut arguments: Vec<TypeRef> = Vec::new();
        arguments.push(inner);
        let r = TypeRef::Path { segments, arguments };
        assert(r@->segments =~= seq!["Option"@]);
        assert(r@->arguments =~= seq![inner@]);
        r
    }
}

/// One variant of a partial enum.
#[derive(Debug, PartialEq, Eq)]
pub struct PartialVariant {
    pub descriptor: ParsedVariant,
    pub fields: Vec<PartialField>,
}

/// Mathematical value of a [`PartialVariant`].
pub ghost struct PartialVariantView {
    pub descriptor: VariantView,
    pub fields: Seq<PartialFieldView>,
}

impl DeepView for PartialVariant {
    type V = PartialVariantView;

    open spec fn deep_view(&self) -> PartialVariantView {
        PartialVariantView { descriptor: self.descriptor@, fields: self.fields.deep_view() }
    }
}

/// The members of a partial schema.
#[derive(Debug, PartialEq, Eq)]
pub enum PartialBody {
    Struct(Vec<PartialField>),
    Enum(Vec<PartialVariant>),
}

/// Mathematical value of a [`PartialBody`].
pub ghost enum PartialBodyView {
    Struct(Seq<PartialFieldView>),
    Enum(Seq<PartialVariantView>),
}

impl DeepView for PartialBody {
    type V = PartialBodyView;

    open spec fn deep_view(&self) -> PartialBodyView {
        match self {
            PartialBody::Struct(fields) => PartialBodyView::Struct(fields.deep_view()),
            PartialBody::Enum(variants) => PartialBodyView::Enum(variants.deep_view()),
        }
    }
}

/// The partial counterpart of a schema.
#[derive(Debug, PartialEq, Eq)]
pub struct PartialSchema {
    /// The identifier of the partial type.
    pub name: String,
    /// The identifier of the type that this one mirrors.
    pub full_name: String,
    /// The partial type's fields or variants.
    pub body: PartialBody,
}

/// Mathematical value of a [`PartialSchema`].
pub ghost struct PartialSchemaView {
    pub name: Seq<char>,
    pub full_name: Seq<char>,
    pub body: PartialBodyView,
}

impl DeepView for PartialSchema {
    type V = PartialSchemaView;

    open spec fn deep_view(&self) -> PartialSchemaView {
        PartialSchemaView {
            name: self.name@,
            full_name: self.full_name@,
            body: self.body.deep_view(),
        }
    }
}

impl View for PartialSchema {
    type V = PartialSchemaView;

    open spec fn view(&self) -> PartialSchemaView {
        self.deep_view()
    }
}

/// The position of the first schema named `name`, if there is one.
pub open spec fn index_of(schemas: Seq<SchemaView>, name: Seq<char>) -> Option<int>
    decreases schemas.len(),
{
    if schemas.len() == 0 {
        None
    } else {
        match index_of(schemas.drop_last(), name) {
            Some(i) => Some(i),
            None => if schemas.last().name == name {
                Some(schemas.len() - 1)
            } else {
                None
            },
        }
    }
}

/// [`index_of`] finds the first schema of the name, and only that.
pub proof fn lemma_index_of(schemas: Seq<SchemaView>, name: Seq<char>)
    ensures
        match index_of(schemas, name) {
            Some(i) => 0 <= i < schemas.len() && schemas[i].name == name && forall|j: int|
                0 <= j < i ==> (#[trigger] schemas[j]).name != name,
            None => forall|j: int| 0 <= j < schemas.len() ==> (#[trigger] schemas[j]).name != name,
        },
    decreases schemas.len(),
{
    if schemas.len() > 0 {
        lemma_index_of(schemas.drop_last(), name);
        assert forall|j: int| 0 <= j < schemas.len() - 1 implies schemas.drop_last()[j]
            == schemas[j] by {}
        match index_of(schemas.drop_last(), name) {
            Some(i) => {
                assert forall|j: int| 0 <= j < i implies (#[trigger] schemas[j]).name != name by {
                    assert(schemas.drop_last()[j] == schemas[j]);
                }
            },
            None => {
                assert forall|j: int| 0 <= j < schemas.len() - 1 implies (#[trigger] schemas[j]).name
                    != name by {
                    assert(schemas.drop_last()[j] == schemas[j]);
                }
            },
        }
    }
}

/// The struct-shaped schema whose fields the field `f` inlines: `f` is
/// flattened and its inner type is registered as a struct.
pub open spec fn flatten_target(schemas: Seq<SchemaView>, f: FieldView) -> Option<int> {
    match index_of(schemas, f.inner_ty) {
        Some(j) => if f.flatten() && schemas[j].kind is Struct {
            Some(j)
        } else {
            None
        },
        None => None,
    }
}

/// The enum-shaped schema whose variants the field `f` chooses from: `f`
/// is a subcommand and its inner type is registered as an enum.
pub open spec fn choice_target(schemas: Seq<SchemaView>, f: FieldView) -> Option<int> {
    match index_of(schemas, f.inner_ty) {
        Some(j) => if f.subcommand && schemas[j].kind is Enum {
            Some(j)
        } else {
            None
        },
        None => None,
    }
}

/// The identifier of the registered partial counterpart of the inner type
/// of `f`, if there is one.
pub open spec fn partial_type(schemas: Seq<SchemaView>, f: FieldView) -> Option<Seq<char>> {
    match index_of(schemas, f.inner_ty) {
        Some(j) => Some(schemas[j].partial_name),
        None => None,
    }
}

/// The field model of a field that is not inlined.
pub open spec fn field_model(schemas: Seq<SchemaView>, f: FieldView) -> PartialFieldView {
    PartialFieldView {
        descriptor: f,
        partial_ty: partial_type(schemas, f),
        choice: choice_target(schemas, f),
        path: f.ident,
    }
}

/// The path of a field that is inlined through the flattened field
/// `through`.
pub open spec fn joined(through: Seq<char>, path: Seq<char>) -> Seq<char> {
    through + "."@ + path
}

/// The fields `fields` as they are seen after inlining through the
/// flattened field `through`: the same fields, with longer paths.
pub open spec fn prefixed(through: Seq<char>, fields: Seq<PartialFieldView>) -> Seq<
    PartialFieldView,
> {
    Seq::new(
        fields.len(),
        |i: int|
            PartialFieldView {
                descriptor: fields[i].descriptor,
                partial_ty: fields[i].partial_ty,
                choice: fields[i].choice,
                path: joined(through, fields[i].path),
            },
    )
}

/// How many of the first `n` positions do not occur in `path`.
pub open spec fn unvisited(n: int, path: Seq<int>) -> nat {
    Set::new(|i: int| 0 <= i < n && !path.contains(i)).len()
}

/// Entering a position that the path does not hold yet leaves fewer
/// positions unvisited.
pub proof fn lemma_unvisited_decreases(n: int, path: Seq<int>, j: int)
    requires
        0 <= j < n,
        !path.contains(j),
    ensures
        unvisited(n, path.push(j)) < unvisited(n, path),
{
    let before = Set::new(|i: int| 0 <= i < n && !path.contains(i));
    let after = Set::new(|i: int| 0 <= i < n && !path.push(j).contains(i));
    lemma_int_range(0, n);
    assert(before.subset_of(set_int_range(0, n)));
    vstd::set_lib::lemma_set_subset_finite(set_int_range(0, n), before);
    assert(before.contains(j));
    assert forall|i: int| after.contains(i) <==> before.remove(j).contains(i) by {
        if path.contains(i) {
            let k = choose|k: int| 0 <= k < path.len() && path[k] == i;
            assert(path.push(j)[k] == i);
        }
        if path.push(j).contains(i) && i != j {
            let k = choose|k: int| 0 <= k < path.push(j).len() && path.push(j)[k] == i;
            assert(path[k] == i);
        }
        if i == j {
            assert(path.push(j)[path.len() as int] == j);
        }
    }
    assert(after =~= before.remove(j));
}

/// The fields of one level after inlining: each field of `fields`, in
/// order, gives its own field model, or, where it inlines a struct, the
/// fields of that struct after inlining. `path` holds the schemas that are
/// being inlined; a flatten reference to one of them is a cycle.
pub open spec fn expanded(schemas: Seq<SchemaView>, fields: Seq<FieldView>, path: Seq<int>)
    -> Result<Seq<PartialFieldView>, SchemaErrorView>
    decreases unvisited(schemas.len() as int, path), fields.len(),
{
    if fields.len() == 0 {
        Ok(Seq::empty())
    } else {
        match expanded(schemas, fields.drop_last(), path) {
            Err(e) => Err(e),
            Ok(before) => match flatten_target(schemas, fields.last()) {
                None => Ok(before.push(field_model(schemas, fields.last()))),
                Some(j) => if path.contains(j) {
                    Err(SchemaErrorView::CyclicFlatten { schema: schemas[j].name })
                } else {
                    proof {
                        lemma_index_of(schemas, fields.last().inner_ty);
                        lemma_unvisited_decreases(schemas.len() as int, path, j);
                    }
                    match expanded(schemas, schemas[j].kind->Struct_0, path.push(j)) {
                        Err(e) => Err(e),
                        Ok(inner) => Ok(before + prefixed(fields.last().ident, inner)),
                    }
                },
            },
        }
    }
}

/// Whether two fields of one level cannot stand together: they share an
/// identifier, a command-line name or a serialized name.
pub open spec fn clashes(a: PartialFieldView, b: PartialFieldView) -> bool {
    a.descriptor.shares_name_with(b.descriptor)
}

/// The first of the first `upto` fields that clashes with the field at
/// `k`.
pub open spec fn earlier_clash(fields: Seq<PartialFieldView>, k: int, upto: int) -> Option<int>
    decreases upto,
{
    if upto <= 0 {
        None
    } else {
        match earlier_clash(fields, k, upto - 1) {
            Some(i) => Some(i),
            None => if clashes(fields[upto - 1], fields[k]) {
                Some(upto - 1)
            } else {
                None
            },
        }
    }
}

/// The first clash among the first `upto` fields: the earliest field that
/// clashes with one before it, and the first field that it clashes with.
pub open spec fn first_clash(fields: Seq<PartialFieldView>, upto: int) -> Option<(int, int)>
    decreases upto,
{
    if upto <= 0 {
        None
    } else {
        match first_clash(fields, upto - 1) {
            Some(pair) => Some(pair),
            None => match earlier_clash(fields, upto - 1, upto - 1) {
                Some(i) => Some((i, upto - 1)),
                None => None,
            },
        }
    }
}

/// The fields of the level that `fields` opens in the schema at `root`:
/// the fields after inlining, unless two of them clash.
pub open spec fn level(schemas: Seq<SchemaView>, fields: Seq<FieldView>, root: int) -> Result<
    Seq<PartialFieldView>,
    SchemaErrorView,
> {
    match expanded(schemas, fields, seq![root]) {
        Err(e) => Err(e),
        Ok(list) => match first_clash(list, list.len() as int) {
            Some((i, k)) => Err(
                SchemaErrorView::FieldCollision {
                    first: list[i].path,
                    second: list[k].path,
                },
            ),
            None => Ok(list),
        },
    }
}

/// The variants of a partial enum: each variant of `variants`, in order,
/// with the fields of its own level.
pub open spec fn variant_levels(schemas: Seq<SchemaView>, variants: Seq<VariantEntryView>, root: int)
    -> Result<Seq<PartialVariantView>, SchemaErrorView>
    decreases variants.len(),
{
    if variants.len() == 0 {
        Ok(Seq::empty())
    } else {
        match variant_levels(schemas, variants.drop_last(), root) {
            Err(e) => Err(e),
            Ok(before) => match level(schemas, variants.last().fields, root) {
                Err(e) => Err(e),
                Ok(fields) => Ok(
                    before.push(
                        PartialVariantView { descriptor: variants.last().descriptor, fields },
                    ),
                ),
            },
        }
    }
}

/// The partial counterpart of the schema at `root`.
pub open spec fn partial_described(schemas: Seq<SchemaView>, root: int) -> Result<
    PartialSchemaView,
    SchemaErrorView,
> {
    let schema = schemas[root];
    match schema.kind {
        SchemaKindView::Struct(fields) => match level(schemas, fields, root) {
            Err(e) => Err(e),
            Ok(list) => Ok(
                PartialSchemaView {
                    name: schema.partial_name,
                    full_name: schema.name,
                    body: PartialBodyView::Struct(list),
                },
            ),
        },
        SchemaKindView::Enum(variants) => match variant_levels(schemas, variants, root) {
            Err(e) => Err(e),
            Ok(list) => Ok(
                PartialSchemaView {
                    name: schema.partial_name,
                    full_name: schema.name,
                    body: PartialBodyView::Enum(list),
                },
            ),
        },
    }
}

/// The positions that a path of schemas holds.
pub open spec fn path_view(path: Vec<usize>) -> Seq<int> {
    Seq::new(path@.len(), |i: int| path@[i] as int)
}

/// Finds the first schema named `name`.
pub fn find_schema(schemas: &Vec<Schema>, name: &String) -> (r: Option<usize>)
    ensures
        match r {
            Some(i) => i < schemas@.len() && index_of(schemas.deep_view(), name@) == Some(i as int),
            None => index_of(schemas.deep_view(), name@) is None,
        },
{
    let mut i: usize = 0;
    while i < schemas.len()
        invariant
            i <= schemas@.len(),
            forall|j: int| 0 <= j < i ==> (#[trigger] schemas.deep_view()[j]).name != name@,
        decreases schemas@.len() - i,
    {
        if schemas[i].name == *name {
            proof {
                lemma_index_of(schemas.deep_view(), name@);
                assert(schemas.deep_view()[i as int].name == name@);
            }
            return Some(i);
        }
        i += 1;
    }
    proof {
        lemma_index_of(schemas.deep_view(), name@);
    }
    None
}

fn on_path(path: &Vec<usize>, j: usize) -> (r: bool)
    ensures
        r == path_view(*path).contains(j as int),
{
    let mut i: usize = 0;
    while i < path.len()
        invariant
            i <= path@.len(),
            forall|k: int| 0 <= k < i ==> path_view(*path)[k] != j as int,
        decreases path@.len() - i,
    {
        if path[i] == j {
            assert(path_view(*path)[i as int] == j as int);
            return true;
        }
        i += 1;
    }
    false
}

fn extend_path(path: &Vec<usize>, j: usize) -> (r: Vec<usize>)
    ensures
        path_view(r) == path_view(*path).push(j as int),
{
    let mut out: Vec<usize> = Vec::new();
    let mut i: usize = 0;
    while i < path.len()
        invariant
            i <= path@.len(),
            out@.len() == i,
            forall|k: int| 0 <= k < i ==> out@[k] == path@[k],
        decreases path@.len() - i,
    {
        out.push(path[i]);
        i += 1;
    }
    out.push(j);
    assert(path_view(out) =~= path_view(*path).push(j as int));
    out
}

/// Builds the field model of a field that is not inlined.
fn model_field(schemas: &Vec<Schema>, f: &ParsedField) -> (r: PartialField)
    ensures
        r.deep_view() == field_model(schemas.deep_view(), f@),
{
    match find_schema(schemas, f.inner_ty()) {
        Some(j) => {
            assert(schemas.deep_view()[j as int] == schemas@[j as int].deep_view());
            let is_enum = match &schemas[j].kind {
                SchemaKind::Enum(_) => true,
                SchemaKind::Struct(_) => false,
            };
            PartialField {
                descriptor: f.clone(),
                partial_ty: Some(schemas[j].partial_name.clone()),
                choice: if f.subcommand() && is_enum {
                    Some(j)
                } else {
                    None
                },
                path: f.ident().clone(),
            }
        },
        None => PartialField {
            descriptor: f.clone(),
            partial_ty: None,
            choice: None,
            path: f.ident().clone(),
        },
    }
}

/// Finds the struct whose fields the field `f` inlines.
fn find_flatten_target(schemas: &Vec<Schema>, f: &ParsedField) -> (r: Option<usize>)
    ensures
        match r {
            Some(j) => j < schemas@.len() && schemas@[j as int].kind is Struct && flatten_target(
                schemas.deep_view(),
                f@,
            ) == Some(j as int),
            None => flatten_target(schemas.deep_view(), f@) is None,
        },
{
    if !f.flatten() {
        return None;
    }
    match find_schema(schemas, f.inner_ty()) {
        Some(j) => {
            assert(schemas.deep_view()[j as int] == schemas@[j as int].deep_view());
            match &schemas[j].kind {
                SchemaKind::Struct(_) => Some(j),
                SchemaKind::Enum(_) => None,
            }
        },
        None => None,
    }
}

/// Lengthens the paths of fields that are inlined through the flattened
/// field `through`.
fn prefix_paths(list: &Vec<PartialField>, through: &String) -> (r: Vec<PartialField>)
    ensures
        r.deep_view() == prefixed(through@, list.deep_view()),
{
    let mut out: Vec<PartialField> = Vec::new();
    let mut i: usize = 0;
    while i < list.len()
        invariant
            i <= list@.len(),
            out@.len() == i,
            forall|k: int|
                0 <= k < i ==> (#[trigger] out@[k]).deep_view() == prefixed(
                    through@,
                    list.deep_view(),
                )[k],
        decreases list@.len() - i,
    {
        assert(list.deep_view()[i as int] == list@[i as int].deep_view());
        let field = &list[i];
        out.push(
            PartialField {
                descriptor: field.descriptor.clone(),
                partial_ty: match &field.partial_ty {
                    Some(name) => Some(name.clone()),
                    None => None,
                },
                choice: field.choice,
                path: through.clone().concat(".").concat(field.path.as_str()),
            },
        );
        i += 1;
    }
    assert(out.deep_view() =~= prefixed(through@, list.deep_view()));
    out
}

/// A failure among the first `upto` fields is the failure of the whole
/// level.
proof fn lemma_expanded_fails(
    schemas: Seq<SchemaView>,
    fields: Seq<FieldView>,
    upto: int,
    path: Seq<int>,
)
    requires
        0 <= upto <= fields.len(),
        expanded(schemas, fields.take(upto), path) is Err,
    ensures
        expanded(schemas, fields, path) == expanded(schemas, fields.take(upto), path),
    decreases fields.len() - upto,
{
    if upto == fields.len() {
        assert(fields.take(upto) =~= fields);
    } else {
        let next = fields.take(upto + 1);
        assert(next.drop_last() =~= fields.take(upto));
        lemma_expanded_fails(schemas, fields, upto + 1, path);
    }
}

/// Inlines the flattened fields of one level.
fn expand(schemas: &Vec<Schema>, fields: &Vec<ParsedField>, path: &Vec<usize>) -> (r: Result<
    Vec<PartialField>,
    SchemaError,
>)
    ensures
        match expanded(schemas.deep_view(), fields.deep_view(), path_view(*path)) {
            Ok(list) => r matches Ok(v) && v.deep_view() == list,
            Err(e) => r matches Err(x) && x@ == e,
        },
    decreases unvisited(schemas@.len() as int, path_view(*path)),
{
    let ghost all = schemas.deep_view();
    let ghost given = fields.deep_view();
    let ghost here = path_view(*path);
    let mut out: Vec<PartialField> = Vec::new();
    let mut i: usize = 0;
    assert(out.deep_view() =~= Seq::<PartialFieldView>::empty());
    while i < fields.len()
        invariant
            i <= fields@.len(),
            all == schemas.deep_view(),
            given == fields.deep_view(),
            here == path_view(*path),
            expanded(all, given.take(i as int), here) == Ok::<
                Seq<PartialFieldView>,
                SchemaErrorView,
            >(out.deep_view()),
        decreases fields@.len() - i,
    {
        proof {
            let next = given.take(i + 1);
            assert(next.drop_last() =~= given.take(i as int));
            assert(next.last() == fields@[i as int]@);
        }
        let f = &fields[i];
        let ghost before = out.deep_view();
        match find_flatten_target(schemas, f) {
            None => {
                let model = model_field(schemas, f);
                out.push(model);
                assert(out.deep_view() =~= before.push(model.deep_view()));
            },
            Some(j) => {
                assert(all[j as int] == schemas@[j as int].deep_view());
                if on_path(path, j) {
                    proof {
                        lemma_expanded_fails(all, given, i + 1, here);
                    }
                    return Err(SchemaError::CyclicFlatten { schema: schemas[j].name.clone() });
                }
                let deeper = extend_path(path, j);
                proof {
                    lemma_unvisited_decreases(schemas@.len() as int, here, j as int);
                }
                match &schemas[j].kind {
                    SchemaKind::Struct(inner) => {
                        assert(all[j as int].kind->Struct_0 == inner.deep_view());
                        match expand(schemas, inner, &deeper) {
                            Ok(list) => {
                                let mut list = prefix_paths(&list, f.ident());
                                let ghost added = list.deep_view();
                                out.append(&mut list);
                                assert(out.deep_view() =~= before + added);
                            },
                            Err(e) => {
                                proof {
                                    lemma_expanded_fails(all, given, i + 1, here);
                                }
                                return Err(e);
                            },
                        }
                    },
                    SchemaKind::Enum(_) => {
                        assert(false);
                    },
                }
            },
        }
        i += 1;
    }
    assert(given.take(i as int) =~= given);
    Ok(out)
}

/// A clash found among the first fields stays the first clash when more
/// fields are looked at.
proof fn lemma_earlier_clash_stays(fields: Seq<PartialFieldView>, k: int, upto: int, more: int)
    requires
        upto <= more,
        earlier_clash(fields, k, upto) is Some,
    ensures
        earlier_clash(fields, k, more) == earlier_clash(fields, k, upto),
    decreases more - upto,
{
    if upto < more {
        lemma_earlier_clash_stays(fields, k, upto, more - 1);
    }
}

/// A clash found among the first fields stays the first clash when more
/// fields are looked at.
proof fn lemma_first_clash_stays(fields: Seq<PartialFieldView>, upto: int, more: int)
    requires
        upto <= more,
        first_clash(fields, upto) is Some,
    ensures
        first_clash(fields, more) == first_clash(fields, upto),
    decreases more - upto,
{
    if upto < more {
        lemma_first_clash_stays(fields, upto, more - 1);
    }
}

/// Finds the first clash of a level.
fn find_clash(list: &Vec<PartialField>) -> (r: Option<(usize, usize)>)
    ensures
        match r {
            Some((i, k)) => i < k < list@.len() && first_clash(
                list.deep_view(),
                list@.len() as int,
            ) == Some((i as int, k as int)),
            None => first_clash(list.deep_view(), list@.len() as int) is None,
        },
{
    let ghost all = list.deep_view();
    let mut k: usize = 0;
    while k < list.len()
        invariant
            k <= list@.len(),
            all == list.deep_view(),
            first_clash(all, k as int) is None,
        decreases list@.len() - k,
    {
        let mut i: usize = 0;
        while i < k
            invariant
                i <= k < list@.len(),
                all == list.deep_view(),
                first_clash(all, k as int) is None,
                earlier_clash(all, k as int, i as int) is None,
            decreases k - i,
        {
            if list[i].descriptor.shares_name_with(&list[k].descriptor) {
                proof {
                    assert(all[i as int] == list@[i as int].deep_view());
                    assert(all[k as int] == list@[k as int].deep_view());
                    assert(earlier_clash(all, k as int, i + 1) == Some(i as int));
                    lemma_earlier_clash_stays(all, k as int, i + 1, k as int);
                    assert(earlier_clash(all, k as int, k as int) == Some(i as int));
                    assert(first_clash(all, k + 1) == Some((i as int, k as int)));
                    lemma_first_clash_stays(all, k + 1, list@.len() as int);
                }
                return Some((i, k));
            }
            proof {
                assert(all[i as int] == list@[i as int].deep_view());
                assert(all[k as int] == list@[k as int].deep_view());
            }
            i += 1;
        }
        k += 1;
    }
    None
}

/// The mathematical value of the outcome of deriving one level.
pub open spec fn level_outcome(r: Result<Vec<PartialField>, SchemaError>) -> Result<
    Seq<PartialFieldView>,
    SchemaErrorView,
> {
    match r {
        Ok(list) => Ok(list.deep_view()),
        Err(e) => Err(e@),
    }
}

/// Derives the fields of the level that `fields` opens in the schema at
/// `root`.
fn derive_level(schemas: &Vec<Schema>, fields: &Vec<ParsedField>, root: usize) -> (r: Result<
    Vec<PartialField>,
    SchemaError,
>)
    ensures
        level_outcome(r) == level(schemas.deep_view(), fields.deep_view(), root as int),
{
    let mut path: Vec<usize> = Vec::new();
    path.push(root);
    assert(path_view(path) =~= seq![root as int]);
    let list = match expand(schemas, fields, &path) {
        Ok(list) => list,
        Err(e) => {
            return Err(e);
        },
    };
    match find_clash(&list) {
        Some((i, k)) => {
            proof {
                assert(list.deep_view()[i as int] == list@[i as int].deep_view());
                assert(list.deep_view()[k as int] == list@[k as int].deep_view());
            }
            Err(
                SchemaError::FieldCollision {
                    first: list[i].path.clone(),
                    second: list[k].path.clone(),
                },
            )
        },
        None => Ok(list),
    }
}

/// A failure among the first `upto` variants is the failure of the whole
/// enum.
proof fn lemma_variant_levels_fails(
    schemas: Seq<SchemaView>,
    variants: Seq<VariantEntryView>,
    upto: int,
    root: int,
)
    requires
        0 <= upto <= variants.len(),
        variant_levels(schemas, variants.take(upto), root) is Err,
    ensures
        variant_levels(schemas, variants, root) == variant_levels(
            schemas,
            variants.take(upto),
            root,
        ),
    decreases variants.len() - upto,
{
    if upto == variants.len() {
        assert(variants.take(upto) =~= variants);
    } else {
        let next = variants.take(upto + 1);
        assert(next.drop_last() =~= variants.take(upto));
        lemma_variant_levels_fails(schemas, variants, upto + 1, root);
    }
}

fn derive_variants(schemas: &Vec<Schema>, variants: &Vec<VariantEntry>, root: usize) -> (r: Result<
    Vec<PartialVariant>,
    SchemaError,
>)
    ensures
        match variant_levels(schemas.deep_view(), variants.deep_view(), root as int) {
            Ok(list) => r matches Ok(v) && v.deep_view() == list,
            Err(e) => r matches Err(x) && x@ == e,
        },
{
    let ghost all = schemas.deep_view();
    let ghost given = variants.deep_view();
    let mut out: Vec<PartialVariant> = Vec::new();
    let mut i: usize = 0;
    assert(out.deep_view() =~= Seq::<PartialVariantView>::empty());
    while i < variants.len()
        invariant
            i <= variants@.len(),
            all == schemas.deep_view(),
            given == variants.deep_view(),
            variant_levels(all, given.take(i as int), root as int) == Ok::<
                Seq<PartialVariantView>,
                SchemaErrorView,
            >(out.deep_view()),
        decreases variants@.len() - i,
    {
        proof {
            let next = given.take(i + 1);
            assert(next.drop_last() =~= given.take(i as int));
            assert(next.last() == variants@[i as int].deep_view());
        }
        match derive_level(schemas, &variants[i].fields, root) {
            Ok(fields) => {
                let ghost before = out.deep_view();
                let entry = PartialVariant { descriptor: variants[i].descriptor.clone(), fields };
                out.push(entry);
                assert(out.deep_view() =~= before.push(entry.deep_view()));
            },
            Err(e) => {
                proof {
                    lemma_variant_levels_fails(all, given, i + 1, root as int);
                }
                return Err(e);
            },
        }
        i += 1;
    }
    assert(given.take(i as int) =~= given);
    Ok(out)
}

/// The mathematical value of the outcome of deriving a partial schema.
pub open spec fn partial_outcome(r: Result<PartialSchema, SchemaError>) -> Result<
    PartialSchemaView,
    SchemaErrorView,
> {
    match r {
        Ok(p) => Ok(p@),
        Err(e) => Err(e@),
    }
}

impl PartialSchema {
    /// Derives the partial counterpart of the schema at `root` among the
    /// schemas `schemas`.
    ///
    /// Fails with `CyclicFlatten` where a chain of flatten references that
    /// starts at this schema comes back to a schema of the chain, and with
    /// `FieldCollision` where two fields of one level, after inlining, share
    /// an identifier or a name. A cycle is reported before a collision.
    pub fn derive(schemas: &Vec<Schema>, root: usize) -> (r: Result<PartialSchema, SchemaError>)
        requires
            root < schemas@.len(),
        ensures
            partial_outcome(r) == partial_described(schemas.deep_view(), root as int),
    {
        let schema = &schemas[root];
        assert(schemas.deep_view()[root as int] == schema.deep_view());
        let body = match &schema.kind {
            SchemaKind::Struct(fields) => match derive_level(schemas, fields, root) {
                Ok(list) => PartialBody::Struct(list),
                Err(e) => {
                    return Err(e);
                },
            },
            SchemaKind::Enum(variants) => match derive_variants(schemas, variants, root) {
                Ok(list) => PartialBody::Enum(list),
                Err(e) => {
                    return Err(e);
                },
            },
        };
        Ok(
            PartialSchema {
                name: schema.partial_name.clone(),
                full_name: schema.name.clone(),
                body,
            },
        )
    }
}

} // verus!
