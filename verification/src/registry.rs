//! The registry: the schemas that were registered together, each with its
//! partial counterpart. It is filled once and read afterwards.

use crate::error::SchemaError;
use crate::error::SchemaErrorView;
use crate::field::partial_ident;
use crate::field::FieldView;
use crate::field::ParsedField;
use crate::partial::clashes;
use crate::partial::earlier_clash;
use crate::partial::expanded;
use crate::partial::field_model;
use crate::partial::find_schema;
use crate::partial::first_clash;
use crate::partial::flatten_target;
use crate::partial::index_of;
use crate::partial::lemma_index_of;
use crate::partial::lemma_unvisited_decreases;
use crate::partial::level;
use crate::partial::partial_described;
use crate::partial::prefixed;
use crate::partial::unvisited;
use crate::partial::variant_levels;
use crate::schema::VariantEntryView;
use crate::partial::PartialBodyView;
use crate::partial::PartialFieldView;
use crate::partial::PartialSchema;
use crate::partial::PartialSchemaView;
use crate::schema::lemma_schema_described_names;
use crate::schema::records_variant_of;
use crate::schema::schema_described;
use crate::schema::variants_recorded;
use crate::schema::Schema;
use crate::schema::SchemaSource;
use crate::schema::SchemaView;
use vstd::prelude::*;

verus! {

/// The schemas that `sources` describe, in order, or the failure of the
/// first source that describes none.
pub open spec fn schemas_described(sources: Seq<SchemaSource>) -> Result<
    Seq<SchemaView>,
    SchemaErrorView,
>
    decreases sources.len(),
{
    if sources.len() == 0 {
        Ok(Seq::empty())
    } else {
        match schemas_described(sources.drop_last()) {
            Err(e) => Err(e),
            Ok(before) => match schema_described(sources.last()) {
                Err(e) => Err(e),
                Ok(schema) => Ok(before.push(schema)),
            },
        }
    }
}

/// The partial counterparts of the first `upto` schemas, in order, or the
/// failure of the first schema that has none.
pub open spec fn partials_described(schemas: Seq<SchemaView>, upto: int) -> Result<
    Seq<PartialSchemaView>,
    SchemaErrorView,
>
    decreases upto,
{
    if upto <= 0 {
        Ok(Seq::empty())
    } else {
        match partials_described(schemas, upto - 1) {
            Err(e) => Err(e),
            Ok(before) => match partial_described(schemas, upto - 1) {
                Err(e) => Err(e),
                Ok(partial) => Ok(before.push(partial)),
            },
        }
    }
}

/// Mathematical value of a [`Registry`].
pub ghost struct RegistryView {
    /// The registered schemas, in the order of registration.
    pub schemas: Seq<SchemaView>,
    /// The partial counterpart of each schema, at the schema's position.
    pub partials: Seq<PartialSchemaView>,
}

impl RegistryView {
    /// The invariant of a registry: every schema has its partial
    /// counterpart, derived among all the registered schemas; the partial
    /// counterpart carries the identifier that the naming rule gives; and
    /// the variant descriptors of an enum record the variants of that enum
    /// and of its partial counterpart.
    pub open spec fn wf(self) -> bool {
        &&& partials_described(self.schemas, self.schemas.len() as int) == Ok::<
            Seq<PartialSchemaView>,
            SchemaErrorView,
        >(self.partials)
        &&& forall|i: int|
            0 <= i < self.schemas.len() ==> (#[trigger] self.schemas[i]).partial_name
                == partial_ident(self.schemas[i].name)
        &&& forall|i: int|
            0 <= i < self.schemas.len() ==> variants_recorded(#[trigger] self.schemas[i])
    }
}

/// The registry that the sources `sources` fill, or the first failure met:
/// all descriptors are built first, schema by schema; then the partial
/// counterparts are derived, schema by schema.
pub open spec fn registered(sources: Seq<SchemaSource>) -> Result<RegistryView, SchemaErrorView> {
    match schemas_described(sources) {
        Err(e) => Err(e),
        Ok(schemas) => match partials_described(schemas, schemas.len() as int) {
            Err(e) => Err(e),
            Ok(partials) => Ok(RegistryView { schemas, partials }),
        },
    }
}

/// The position of the first schema whose partial counterpart is named
/// `name`, if there is one.
pub open spec fn index_of_partial(schemas: Seq<SchemaView>, name: Seq<char>) -> Option<int>
    decreases schemas.len(),
{
    if schemas.len() == 0 {
        None
    } else {
        match index_of_partial(schemas.drop_last(), name) {
            Some(i) => Some(i),
            None => if schemas.last().partial_name == name {
                Some(schemas.len() - 1)
            } else {
                None
            },
        }
    }
}

/// [`index_of_partial`] finds the first schema whose partial counterpart
/// has the name, and only that.
pub proof fn lemma_index_of_partial(schemas: Seq<SchemaView>, name: Seq<char>)
    ensures
        match index_of_partial(schemas, name) {
            Some(i) => 0 <= i < schemas.len() && schemas[i].partial_name == name && forall|j: int|
                0 <= j < i ==> (#[trigger] schemas[j]).partial_name != name,
            None => forall|j: int|
                0 <= j < schemas.len() ==> (#[trigger] schemas[j]).partial_name != name,
        },
    decreases schemas.len(),
{
    if schemas.len() > 0 {
        lemma_index_of_partial(schemas.drop_last(), name);
        match index_of_partial(schemas.drop_last(), name) {
            Some(i) => {
                assert forall|j: int| 0 <= j < i implies (#[trigger] schemas[j]).partial_name
                    != name by {
                    assert(schemas.drop_last()[j] == schemas[j]);
                }
                assert(schemas.drop_last()[i] == schemas[i]);
            },
            None => {
                assert forall|j: int| 0 <= j < schemas.len() - 1 implies (
                #[trigger] schemas[j]).partial_name != name by {
                    assert(schemas.drop_last()[j] == schemas[j]);
                }
            },
        }
    }
}

/// The registered schemas with their partial counterparts.
#[derive(Debug, PartialEq, Eq)]
pub struct Registry {
    schemas: Vec<Schema>,
    partials: Vec<PartialSchema>,
}

impl View for Registry {
    type V = RegistryView;

    closed spec fn view(&self) -> RegistryView {
        RegistryView { schemas: self.schemas.deep_view(), partials: self.partials.deep_view() }
    }
}

/// The mathematical value of the outcome of a registration.
pub open spec fn registry_outcome(r: Result<Registry, SchemaError>) -> Result<
    RegistryView,
    SchemaErrorView,
> {
    match r {
        Ok(registry) => Ok(registry@),
        Err(e) => Err(e@),
    }
}

/// A failure among the first `upto` sources is the failure of the whole
/// list.
proof fn lemma_schemas_described_fails(sources: Seq<SchemaSource>, upto: int)
    requires
        0 <= upto <= sources.len(),
        schemas_described(sources.take(upto)) is Err,
    ensures
        schemas_described(sources) == schemas_described(sources.take(upto)),
    decreases sources.len() - upto,
{
    if upto == sources.len() {
        assert(sources.take(upto) =~= sources);
    } else {
        let next = sources.take(upto + 1);
        assert(next.drop_last() =~= sources.take(upto));
        lemma_schemas_described_fails(sources, upto + 1);
    }
}

/// A failure among the first `upto` schemas is the failure of all of
/// them.
proof fn lemma_partials_described_fails(schemas: Seq<SchemaView>, upto: int, more: int)
    requires
        upto <= more,
        partials_described(schemas, upto) is Err,
    ensures
        partials_described(schemas, more) == partials_described(schemas, upto),
    decreases more - upto,
{
    if upto < more {
        lemma_partials_described_fails(schemas, upto, more - 1);
    }
}

/// The schemas described so far carry the partial identifier that the
/// naming rule gives.
proof fn lemma_described_names(sources: Seq<SchemaSource>)
    requires
        schemas_described(sources) is Ok,
    ensures
        schemas_described(sources)->Ok_0.len() == sources.len(),
        forall|i: int|
            0 <= i < sources.len() ==> (#[trigger] schemas_described(sources)->Ok_0[i]).partial_name
                == partial_ident(schemas_described(sources)->Ok_0[i].name),
        forall|i: int|
            0 <= i < sources.len() ==> variants_recorded(
                #[trigger] schemas_described(sources)->Ok_0[i],
            ),
    decreases sources.len(),
{
    if sources.len() > 0 {
        lemma_described_names(sources.drop_last());
        lemma_schema_described_names(sources.last());
    }
}

fn describe_schemas(sources: &Vec<SchemaSource>) -> (r: Result<Vec<Schema>, SchemaError>)
    ensures
        match schemas_described(sources@) {
            Ok(list) => r matches Ok(v) && v.deep_view() == list,
            Err(e) => r matches Err(x) && x@ == e,
        },
{
    let mut out: Vec<Schema> = Vec::new();
    let mut i: usize = 0;
    assert(out.deep_view() =~= Seq::<SchemaView>::empty());
    while i < sources.len()
        invariant
            i <= sources@.len(),
            schemas_described(sources@.take(i as int)) == Ok::<Seq<SchemaView>, SchemaErrorView>(
                out.deep_view(),
            ),
        decreases sources@.len() - i,
    {
        proof {
            let next = sources@.take(i + 1);
            assert(next.drop_last() =~= sources@.take(i as int));
            assert(next.last() == sources@[i as int]);
        }
        match Schema::new(&sources[i]) {
            Ok(schema) => {
                let ghost before = out.deep_view();
                out.push(schema);
                assert(out.deep_view() =~= before.push(schema.deep_view()));
            },
            Err(e) => {
                proof {
                    lemma_schemas_described_fails(sources@, i + 1);
                }
                return Err(e);
            },
        }
        i += 1;
    }
    assert(sources@.take(i as int) =~= sources@);
    Ok(out)
}

fn derive_partials(schemas: &Vec<Schema>) -> (r: Result<Vec<PartialSchema>, SchemaError>)
    ensures
        match partials_described(schemas.deep_view(), schemas@.len() as int) {
            Ok(list) => r matches Ok(v) && v.deep_view() == list,
            Err(e) => r matches Err(x) && x@ == e,
        },
{
    let ghost all = schemas.deep_view();
    let mut out: Vec<PartialSchema> = Vec::new();
    let mut i: usize = 0;
    assert(out.deep_view() =~= Seq::<PartialSchemaView>::empty());
    while i < schemas.len()
        invariant
            i <= schemas@.len(),
            all == schemas.deep_view(),
            partials_described(all, i as int) == Ok::<Seq<PartialSchemaView>, SchemaErrorView>(
                out.deep_view(),
            ),
        decreases schemas@.len() - i,
    {
        match PartialSchema::derive(schemas, i) {
            Ok(partial) => {
                let ghost before = out.deep_view();
                out.push(partial);
                assert(out.deep_view() =~= before.push(partial.deep_view()));
            },
            Err(e) => {
                proof {
                    assert(partials_described(all, i + 1) is Err);
                    lemma_partials_described_fails(all, i + 1, schemas@.len() as int);
                }
                return Err(e);
            },
        }
        i += 1;
    }
    Ok(out)
}

impl Registry {
    #[verifier::type_invariant]
    spec fn consistent(self) -> bool {
        self@.wf()
    }

    /// Registers the schemas `sources` together.
    ///
    /// Fails with the first failure met and registers nothing then. The
    /// descriptors of all schemas are built first, in order; then the
    /// partial counterpart of each schema is derived, in order.
    pub fn register(sources: &Vec<SchemaSource>) -> (r: Result<Registry, SchemaError>)
        ensures
            registry_outcome(r) == registered(sources@),
            r matches Ok(registry) ==> registry@.wf(),
    {
        let schemas = match describe_schemas(sources) {
            Ok(list) => list,
            Err(e) => {
                return Err(e);
            },
        };
        let partials = match derive_partials(&schemas) {
            Ok(list) => list,
            Err(e) => {
                return Err(e);
            },
        };
        proof {
            lemma_described_names(sources@);
        }
        Ok(Registry { schemas, partials })
    }
}

/// Each of the first `upto` partial counterparts is the one derived for
/// the schema at its position.
pub proof fn lemma_partials_at(schemas: Seq<SchemaView>, upto: int, i: int)
    requires
        partials_described(schemas, upto) is Ok,
        0 <= i < upto,
    ensures
        partials_described(schemas, upto)->Ok_0.len() == upto,
        partial_described(schemas, i) == Ok::<PartialSchemaView, SchemaErrorView>(
            partials_described(schemas, upto)->Ok_0[i],
        ),
    decreases upto,
{
    lemma_partials_len(schemas, upto);
    lemma_partials_len(schemas, upto - 1);
    if i < upto - 1 {
        lemma_partials_at(schemas, upto - 1, i);
    }
}

/// There are as many partial counterparts as schemas.
pub proof fn lemma_partials_len(schemas: Seq<SchemaView>, upto: int)
    requires
        partials_described(schemas, upto) is Ok,
    ensures
        partials_described(schemas, upto)->Ok_0.len() == (if upto <= 0 {
            0
        } else {
            upto
        }),
    decreases upto,
{
    if upto > 0 {
        lemma_partials_len(schemas, upto - 1);
    }
}

/// Inlining does not depend on the schemas that are being inlined, as long
/// as it meets no cycle: a path that holds fewer schemas gives the same
/// fields.
pub proof fn lemma_expanded_shorter_path(
    schemas: Seq<SchemaView>,
    fields: Seq<FieldView>,
    longer: Seq<int>,
    shorter: Seq<int>,
)
    requires
        expanded(schemas, fields, longer) is Ok,
        forall|x: int| shorter.contains(x) ==> longer.contains(x),
    ensures
        expanded(schemas, fields, shorter) == expanded(schemas, fields, longer),
    decreases unvisited(schemas.len() as int, longer), fields.len(),
{
    if fields.len() > 0 {
        lemma_expanded_shorter_path(schemas, fields.drop_last(), longer, shorter);
        match flatten_target(schemas, fields.last()) {
            None => {},
            Some(j) => {
                lemma_index_of(schemas, fields.last().inner_ty);
                lemma_unvisited_decreases(schemas.len() as int, longer, j);
                assert forall|x: int| shorter.push(j).contains(x) implies longer.push(j).contains(
                    x,
                ) by {
                    let k = choose|k: int| 0 <= k < shorter.push(j).len() && shorter.push(j)[k] == x;
                    if k < shorter.len() {
                        assert(shorter[k] == x);
                        assert(shorter.contains(x));
                        let m = choose|m: int| 0 <= m < longer.len() && longer[m] == x;
                        assert(longer.push(j)[m] == x);
                    } else {
                        assert(longer.push(j)[longer.len() as int] == x);
                    }
                }
                lemma_expanded_shorter_path(
                    schemas,
                    schemas[j].kind->Struct_0,
                    longer.push(j),
                    shorter.push(j),
                );
            },
        }
    }
}

/// The fields of one level with each flattened field replaced by the
/// fields of the partial counterpart of its type, as the registry holds
/// them, their paths lengthened by the flattened field; every other field
/// gives its own field model.
pub open spec fn inlined(registry: RegistryView, fields: Seq<FieldView>) -> Seq<PartialFieldView>
    decreases fields.len(),
{
    if fields.len() == 0 {
        Seq::empty()
    } else {
        inlined(registry, fields.drop_last()) + (match flatten_target(
            registry.schemas,
            fields.last(),
        ) {
            Some(j) => prefixed(fields.last().ident, registry.partials[j].body->Struct_0),
            None => seq![field_model(registry.schemas, fields.last())],
        })
    }
}

/// In a registry, the fields that a level expands to are the fields of
/// the level with the registered partial counterparts inlined.
pub proof fn lemma_expanded_is_inlined(registry: RegistryView, fields: Seq<FieldView>, path: Seq<int>)
    requires
        registry.wf(),
        expanded(registry.schemas, fields, path) is Ok,
    ensures
        expanded(registry.schemas, fields, path)->Ok_0 == inlined(registry, fields),
    decreases fields.len(),
{
    let schemas = registry.schemas;
    if fields.len() > 0 {
        lemma_expanded_is_inlined(registry, fields.drop_last(), path);
        match flatten_target(schemas, fields.last()) {
            None => {
                let before = expanded(schemas, fields.drop_last(), path)->Ok_0;
                assert(before.push(field_model(schemas, fields.last())) =~= before
                    + seq![field_model(schemas, fields.last())]);
            },
            Some(j) => {
                lemma_index_of(schemas, fields.last().inner_ty);
                lemma_partials_at(schemas, schemas.len() as int, j);
                let inner = schemas[j].kind->Struct_0;
                assert(expanded(schemas, inner, path.push(j)) is Ok);
                assert(expanded(schemas, inner, seq![j]) is Ok);
                assert forall|x: int| seq![j].contains(x) implies path.push(j).contains(x) by {
                    assert(path.push(j)[path.len() as int] == j);
                }
                lemma_expanded_shorter_path(schemas, inner, path.push(j), seq![j]);
            },
        }
    }
}

/// Where no clash is found among the first `upto` fields, no two of them
/// clash.
pub proof fn lemma_no_clash(fields: Seq<PartialFieldView>, upto: int, i: int, k: int)
    requires
        first_clash(fields, upto) is None,
        0 <= i < k < upto,
    ensures
        !clashes(fields[i], fields[k]),
    decreases upto,
{
    if k < upto - 1 {
        lemma_no_clash(fields, upto - 1, i, k);
    } else {
        lemma_no_earlier_clash(fields, k, k, i);
    }
}

/// Where none of the first `upto` fields clashes with the field at `k`,
/// the field at `i` does not.
pub proof fn lemma_no_earlier_clash(fields: Seq<PartialFieldView>, k: int, upto: int, i: int)
    requires
        earlier_clash(fields, k, upto) is None,
        0 <= i < upto,
    ensures
        !clashes(fields[i], fields[k]),
    decreases upto,
{
    if i < upto - 1 {
        lemma_no_earlier_clash(fields, k, upto - 1, i);
    }
}

/// Where two of the first `upto` fields clash, a clash is found.
pub proof fn lemma_clash_found(fields: Seq<PartialFieldView>, upto: int, i: int, k: int)
    requires
        0 <= i < k < upto,
        clashes(fields[i], fields[k]),
    ensures
        first_clash(fields, upto) is Some,
    decreases upto,
{
    if k < upto - 1 {
        lemma_clash_found(fields, upto - 1, i, k);
    } else {
        lemma_earlier_clash_found(fields, k, k, i);
    }
}

/// Where one of the first `upto` fields clashes with the field at `k`, a
/// clash with it is found.
pub proof fn lemma_earlier_clash_found(fields: Seq<PartialFieldView>, k: int, upto: int, i: int)
    requires
        0 <= i < upto,
        clashes(fields[i], fields[k]),
    ensures
        earlier_clash(fields, k, upto) is Some,
    decreases upto,
{
    if i < upto - 1 {
        lemma_earlier_clash_found(fields, k, upto - 1, i);
    }
}

/// The fields of a registered partial struct are exactly the fields of
/// the struct with each flattened field replaced by the fields of its
/// type's partial counterpart, in declaration order; and no two of them
/// share an identifier, a command-line name or a serialized name.
pub proof fn lemma_flatten_inlines(registry: RegistryView, s: int)
    requires
        registry.wf(),
        0 <= s < registry.schemas.len(),
        registry.schemas[s].kind is Struct,
    ensures
        registry.partials.len() == registry.schemas.len(),
        registry.partials[s].body == PartialBodyView::Struct(
            inlined(registry, registry.schemas[s].kind->Struct_0),
        ),
        forall|i: int, k: int|
            0 <= i < k < registry.partials[s].body->Struct_0.len() ==> !clashes(
                #[trigger] registry.partials[s].body->Struct_0[i],
                #[trigger] registry.partials[s].body->Struct_0[k],
            ),
{
    let schemas = registry.schemas;
    lemma_partials_at(schemas, schemas.len() as int, s);
    let fields = schemas[s].kind->Struct_0;
    lemma_expanded_is_inlined(registry, fields, seq![s]);
    let list = expanded(schemas, fields, seq![s])->Ok_0;
    assert forall|i: int, k: int| 0 <= i < k < list.len() implies !clashes(
        #[trigger] list[i],
        #[trigger] list[k],
    ) by {
        lemma_no_clash(list, list.len() as int, i, k);
    }
}

/// Where two fields of a level share an identifier or a name after
/// inlining, the level is refused with `FieldCollision`.
pub proof fn lemma_collision_is_refused(
    schemas: Seq<SchemaView>,
    fields: Seq<FieldView>,
    root: int,
    i: int,
    k: int,
)
    requires
        expanded(schemas, fields, seq![root]) is Ok,
        0 <= i < k < expanded(schemas, fields, seq![root])->Ok_0.len(),
        clashes(
            expanded(schemas, fields, seq![root])->Ok_0[i],
            expanded(schemas, fields, seq![root])->Ok_0[k],
        ),
    ensures
        level(schemas, fields, root) matches Err(e) && e is FieldCollision,
{
    let list = expanded(schemas, fields, seq![root])->Ok_0;
    lemma_clash_found(list, list.len() as int, i, k);
}

impl Registry {
    /// How many schemas are registered.
    pub fn len(&self) -> (r: usize)
        ensures
            r == self@.schemas.len(),
            self@.partials.len() == self@.schemas.len(),
            self@.wf(),
    {
        proof {
            use_type_invariant(self);
            lemma_partials_len(self@.schemas, self@.schemas.len() as int);
        }
        self.schemas.len()
    }

    /// The position of the schema registered under the type identifier
    /// `name`: the first of them, where several carry the name.
    pub fn index_of(&self, name: &str) -> (r: Option<usize>)
        ensures
            match r {
                Some(i) => i < self@.schemas.len() && index_of(self@.schemas, name@) == Some(
                    i as int,
                ),
                None => index_of(self@.schemas, name@) is None,
            },
    {
        let wanted = name.to_owned();
        find_schema(&self.schemas, &wanted)
    }

    /// The schema at position `i`.
    pub fn schema(&self, i: usize) -> (r: &Schema)
        requires
            i < self@.schemas.len(),
        ensures
            r@ == self@.schemas[i as int],
    {
        assert(self.schemas.deep_view()[i as int] == self.schemas@[i as int].deep_view());
        &self.schemas[i]
    }

    /// The partial counterpart of the schema at position `i`.
    pub fn partial(&self, i: usize) -> (r: &PartialSchema)
        requires
            i < self@.schemas.len(),
        ensures
            i < self@.partials.len(),
            r@ == self@.partials[i as int],
    {
        proof {
            use_type_invariant(self);
            lemma_partials_len(self@.schemas, self@.schemas.len() as int);
            assert(self.partials.deep_view()[i as int] == self.partials@[i as int].deep_view());
        }
        &self.partials[i]
    }

    /// Whether the type `full` has a registered partial counterpart, and
    /// under which identifier.
    pub fn partial_of(&self, full: &str) -> (r: Option<&String>)
        ensures
            match index_of(self@.schemas, full@) {
                Some(i) => r matches Some(name) && name@ == self@.schemas[i].partial_name,
                None => r is None,
            },
    {
        match self.index_of(full) {
            Some(i) => {
                assert(self.schemas.deep_view()[i as int] == self.schemas@[i as int].deep_view());
                Some(&self.schemas[i].partial_name)
            },
            None => None,
        }
    }

    /// Whether the inner type of `field` has a registered partial
    /// counterpart, and under which identifier. A type that is not
    /// registered has none, however it is spelled.
    pub fn partial_ty_of(&self, field: &ParsedField) -> (r: Option<&String>)
        ensures
            match index_of(self@.schemas, field@.inner_ty) {
                Some(i) => r matches Some(name) && name@ == self@.schemas[i].partial_name,
                None => r is None,
            },
    {
        self.partial_of(field.inner_ty().as_str())
    }

    /// Whether the identifier `partial` names a registered partial
    /// counterpart, and of which type.
    pub fn full_of(&self, partial: &str) -> (r: Option<&String>)
        ensures
            match index_of_partial(self@.schemas, partial@) {
                Some(i) => r matches Some(name) && name@ == self@.schemas[i].name,
                None => r is None,
            },
    {
        let wanted = partial.to_owned();
        let mut i: usize = 0;
        while i < self.schemas.len()
            invariant
                i <= self.schemas@.len(),
                wanted@ == partial@,
                forall|j: int|
                    0 <= j < i ==> (#[trigger] self.schemas.deep_view()[j]).partial_name
                        != partial@,
            decreases self.schemas@.len() - i,
        {
            if self.schemas[i].partial_name == wanted {
                proof {
                    lemma_index_of_partial(self.schemas.deep_view(), partial@);
                    assert(self.schemas.deep_view()[i as int].partial_name == partial@);
                }
                return Some(&self.schemas[i].name);
            }
            i += 1;
        }
        proof {
            lemma_index_of_partial(self.schemas.deep_view(), partial@);
        }
        None
    }
}

/// The two directions of a registry agree: the partial counterpart that
/// is found for a type leads back to that type.
pub proof fn lemma_lookup_round_trip(registry: RegistryView, full: Seq<char>)
    requires
        registry.wf(),
        index_of(registry.schemas, full) is Some,
    ensures
        ({
            let i = index_of(registry.schemas, full)->0;
            let partial = registry.schemas[i].partial_name;
            &&& partial == partial_ident(full)
            &&& index_of_partial(registry.schemas, partial) == Some(i)
        }),
{
    let schemas = registry.schemas;
    lemma_index_of(schemas, full);
    let i = index_of(schemas, full)->0;
    let partial = schemas[i].partial_name;
    lemma_index_of_partial(schemas, partial);
    let k = index_of_partial(schemas, partial)->0;
    assert(schemas[k].partial_name == partial_ident(schemas[k].name));
    assert(partial_ident(schemas[k].name).subrange(9, partial_ident(schemas[k].name).len() as int)
        =~= schemas[k].name) by {
        reveal_strlit("ConfigOpt");
    }
    assert(partial_ident(full).subrange(9, partial_ident(full).len() as int) =~= full) by {
        reveal_strlit("ConfigOpt");
    }
    if k < i {
        assert(schemas[k].name != full);
    }
}

/// What a registration gives is a registry: its invariant holds.
pub proof fn lemma_registered_is_wf(sources: Seq<SchemaSource>)
    requires
        registered(sources) is Ok,
    ensures
        registered(sources)->Ok_0.wf(),
        registered(sources)->Ok_0.schemas.len() == sources.len(),
        registered(sources)->Ok_0.partials.len() == sources.len(),
{
    lemma_described_names(sources);
    let schemas = schemas_described(sources)->Ok_0;
    lemma_partials_len(schemas, schemas.len() as int);
}

/// Each partial variant is derived from the variant at its position.
pub proof fn lemma_variant_levels_at(
    schemas: Seq<SchemaView>,
    variants: Seq<VariantEntryView>,
    root: int,
    v: int,
)
    requires
        variant_levels(schemas, variants, root) is Ok,
        0 <= v < variants.len(),
    ensures
        variant_levels(schemas, variants, root)->Ok_0.len() == variants.len(),
        level(schemas, variants[v].fields, root) == Ok::<Seq<PartialFieldView>, SchemaErrorView>(
            variant_levels(schemas, variants, root)->Ok_0[v].fields,
        ),
        variant_levels(schemas, variants, root)->Ok_0[v].descriptor == variants[v].descriptor,
    decreases variants.len(),
{
    lemma_variant_levels_len(schemas, variants, root);
    lemma_variant_levels_len(schemas, variants.drop_last(), root);
    if v < variants.len() - 1 {
        lemma_variant_levels_at(schemas, variants.drop_last(), root, v);
        assert(variants.drop_last()[v] == variants[v]);
    }
}

/// A partial enum has as many variants as the enum.
pub proof fn lemma_variant_levels_len(
    schemas: Seq<SchemaView>,
    variants: Seq<VariantEntryView>,
    root: int,
)
    requires
        variant_levels(schemas, variants, root) is Ok,
    ensures
        variant_levels(schemas, variants, root)->Ok_0.len() == variants.len(),
    decreases variants.len(),
{
    if variants.len() > 0 {
        lemma_variant_levels_len(schemas, variants.drop_last(), root);
    }
}

/// A registered partial enum has exactly the variants of the enum, in
/// order, each with its descriptor; the fields of each partial variant are
/// the fields of the variant with each flattened field replaced by the
/// fields of its type's partial counterpart; and no two fields of one
/// variant share an identifier, a command-line name or a serialized name.
pub proof fn lemma_variants_are_kept(registry: RegistryView, e: int, v: int)
    requires
        registry.wf(),
        0 <= e < registry.schemas.len(),
        registry.schemas[e].kind is Enum,
        0 <= v < registry.schemas[e].kind->Enum_0.len(),
    ensures
        registry.partials.len() == registry.schemas.len(),
        registry.partials[e].body is Enum,
        registry.partials[e].body->Enum_0.len() == registry.schemas[e].kind->Enum_0.len(),
        registry.partials[e].body->Enum_0[v].descriptor
            == registry.schemas[e].kind->Enum_0[v].descriptor,
        registry.partials[e].body->Enum_0[v].fields == inlined(
            registry,
            registry.schemas[e].kind->Enum_0[v].fields,
        ),
        forall|i: int, k: int|
            0 <= i < k < registry.partials[e].body->Enum_0[v].fields.len() ==> !clashes(
                #[trigger] registry.partials[e].body->Enum_0[v].fields[i],
                #[trigger] registry.partials[e].body->Enum_0[v].fields[k],
            ),
{
    let schemas = registry.schemas;
    lemma_partials_at(schemas, schemas.len() as int, e);
    let variants = schemas[e].kind->Enum_0;
    lemma_variant_levels_at(schemas, variants, e, v);
    let fields = variants[v].fields;
    lemma_expanded_is_inlined(registry, fields, seq![e]);
    let list = expanded(schemas, fields, seq![e])->Ok_0;
    assert forall|i: int, k: int| 0 <= i < k < list.len() implies !clashes(
        #[trigger] list[i],
        #[trigger] list[k],
    ) by {
        lemma_no_clash(list, list.len() as int, i, k);
    }
}

/// Whether the struct at `a` inlines the struct at `b`: one of its
/// fields is flattened and has `b` for its type.
pub open spec fn inlines(schemas: Seq<SchemaView>, a: int, b: int) -> bool {
    &&& 0 <= a < schemas.len()
    &&& schemas[a].kind is Struct
    &&& exists|k: int|
        0 <= k < schemas[a].kind->Struct_0.len() && flatten_target(
            schemas,
            #[trigger] schemas[a].kind->Struct_0[k],
        ) == Some(b)
}

/// Whether the step from position `i` of `chain` to the next position is
/// a flatten reference.
pub open spec fn chain_step(schemas: Seq<SchemaView>, chain: Seq<int>, i: int) -> bool {
    inlines(schemas, chain[i], chain[i + 1])
}

/// Whether `chain` is a chain of flatten references: each of its schemas
/// inlines the next.
pub open spec fn flatten_chain(schemas: Seq<SchemaView>, chain: Seq<int>) -> bool {
    forall|i: int| 0 <= i < chain.len() - 1 ==> #[trigger] chain_step(schemas, chain, i)
}

/// Inlining fails with `CyclicFlatten` or not at all.
pub proof fn lemma_expanded_fails_with_cycle(
    schemas: Seq<SchemaView>,
    fields: Seq<FieldView>,
    path: Seq<int>,
)
    ensures
        expanded(schemas, fields, path) matches Err(e) ==> e is CyclicFlatten,
    decreases unvisited(schemas.len() as int, path), fields.len(),
{
    if fields.len() > 0 {
        lemma_expanded_fails_with_cycle(schemas, fields.drop_last(), path);
        match flatten_target(schemas, fields.last()) {
            None => {},
            Some(j) => {
                if !path.contains(j) {
                    lemma_index_of(schemas, fields.last().inner_ty);
                    lemma_unvisited_decreases(schemas.len() as int, path, j);
                    lemma_expanded_fails_with_cycle(
                        schemas,
                        schemas[j].kind->Struct_0,
                        path.push(j),
                    );
                }
            },
        }
    }
}

/// Where a level is inlined without failure, the struct that one of its
/// fields inlines is not among the schemas that are being inlined, and is
/// itself inlined without failure below them.
pub proof fn lemma_expanded_enters_target(
    schemas: Seq<SchemaView>,
    fields: Seq<FieldView>,
    path: Seq<int>,
    k: int,
)
    requires
        expanded(schemas, fields, path) is Ok,
        0 <= k < fields.len(),
        flatten_target(schemas, fields[k]) is Some,
    ensures
        !path.contains(flatten_target(schemas, fields[k])->0),
        expanded(
            schemas,
            schemas[flatten_target(schemas, fields[k])->0].kind->Struct_0,
            path.push(flatten_target(schemas, fields[k])->0),
        ) is Ok,
    decreases fields.len(),
{
    if k < fields.len() - 1 {
        assert(fields.drop_last()[k] == fields[k]);
        lemma_expanded_enters_target(schemas, fields.drop_last(), path, k);
    }
}

/// A chain of flatten references that comes back to one of its schemas
/// cannot be inlined: the level of each of its schemas fails below the
/// schemas before it.
proof fn lemma_chain_cannot_be_inlined(
    schemas: Seq<SchemaView>,
    chain: Seq<int>,
    back: int,
    path: Seq<int>,
    i: int,
)
    requires
        flatten_chain(schemas, chain),
        0 <= back < chain.len(),
        inlines(schemas, chain.last(), chain[back]),
        0 <= i < chain.len(),
        0 <= chain[i] < schemas.len(),
        schemas[chain[i]].kind is Struct,
        forall|m: int| 0 <= m <= i ==> path.contains(#[trigger] chain[m]),
    ensures
        expanded(schemas, schemas[chain[i]].kind->Struct_0, path) is Err,
    decreases chain.len() - i,
{
    let fields = schemas[chain[i]].kind->Struct_0;
    if expanded(schemas, fields, path) is Ok {
        if i == chain.len() - 1 {
            let k = choose|k: int|
                0 <= k < fields.len() && flatten_target(schemas, #[trigger] fields[k]) == Some(
                    chain[back],
                );
            lemma_expanded_enters_target(schemas, fields, path, k);
            assert(path.contains(chain[back]));
        } else {
            assert(chain_step(schemas, chain, i));
            let next = chain[i + 1];
            let k = choose|k: int|
                0 <= k < fields.len() && flatten_target(schemas, #[trigger] fields[k]) == Some(
                    next,
                );
            lemma_expanded_enters_target(schemas, fields, path, k);
            lemma_index_of(schemas, fields[k].inner_ty);
            let deeper = path.push(next);
            assert forall|m: int| 0 <= m <= i + 1 implies deeper.contains(#[trigger] chain[m]) by {
                if m <= i {
                    let at = choose|at: int| 0 <= at < path.len() && path[at] == chain[m];
                    assert(deeper[at] == chain[m]);
                } else {
                    assert(deeper[path.len() as int] == next);
                }
            }
            lemma_chain_cannot_be_inlined(schemas, chain, back, deeper, i + 1);
        }
    }
}

/// A cycle of flatten references is refused: where a chain of flatten
/// references starts at the struct `chain[0]` and its last schema inlines a
/// schema of the chain, the partial counterpart of that struct is refused
/// with `CyclicFlatten`.
pub proof fn lemma_cycle_is_refused(schemas: Seq<SchemaView>, chain: Seq<int>, back: int)
    requires
        chain.len() >= 1,
        0 <= chain[0] < schemas.len(),
        schemas[chain[0]].kind is Struct,
        flatten_chain(schemas, chain),
        0 <= back < chain.len(),
        inlines(schemas, chain.last(), chain[back]),
    ensures
        partial_described(schemas, chain[0]) matches Err(e) && e is CyclicFlatten,
{
    let root = chain[0];
    let fields = schemas[root].kind->Struct_0;
    let path = seq![root];
    lemma_expanded_fails_with_cycle(schemas, fields, path);
    assert forall|m: int| 0 <= m <= 0 implies path.contains(#[trigger] chain[m]) by {
        assert(path[0] == chain[0]);
    }
    lemma_chain_cannot_be_inlined(schemas, chain, back, path, 0);
}

/// A schema with a cycle of flatten references below it cannot be
/// registered: the registration of a list of schemas, one of which is
/// such a struct, fails.
pub proof fn lemma_cycle_fails_registration(
    sources: Seq<SchemaSource>,
    chain: Seq<int>,
    back: int,
)
    requires
        schemas_described(sources) is Ok,
        chain.len() >= 1,
        0 <= chain[0] < schemas_described(sources)->Ok_0.len(),
        schemas_described(sources)->Ok_0[chain[0]].kind is Struct,
        flatten_chain(schemas_described(sources)->Ok_0, chain),
        0 <= back < chain.len(),
        inlines(schemas_described(sources)->Ok_0, chain.last(), chain[back]),
    ensures
        registered(sources) is Err,
{
    let schemas = schemas_described(sources)->Ok_0;
    lemma_cycle_is_refused(schemas, chain, back);
    if partials_described(schemas, schemas.len() as int) is Ok {
        lemma_partials_at(schemas, schemas.len() as int, chain[0]);
    }
}

/// The paths that a registered partial variant records agree with the
/// registry: they name one member, of the enum as it is registered and of
/// the partial counterpart that the registry holds for it.
pub proof fn lemma_variant_paths_follow_registry(registry: RegistryView, e: int, v: int)
    requires
        registry.wf(),
        0 <= e < registry.schemas.len(),
        registry.schemas[e].kind is Enum,
        0 <= v < registry.schemas[e].kind->Enum_0.len(),
    ensures
        registry.partials[e].name == registry.schemas[e].partial_name,
        registry.partials[e].full_name == registry.schemas[e].name,
        records_variant_of(registry.schemas[e], registry.partials[e].body->Enum_0[v].descriptor),
{
    lemma_variants_are_kept(registry, e, v);
    lemma_partials_at(registry.schemas, registry.schemas.len() as int, e);
    assert(variants_recorded(registry.schemas[e]));
    assert(records_variant_of(
        registry.schemas[e],
        registry.schemas[e].kind->Enum_0[v].descriptor,
    ));
}

} // verus!
