//! Schemas: a type's name, its casing styles, and the descriptors of its
//! fields or variants.

use crate::casing::style_of_token;
use crate::casing::CasingStyle;
use crate::error::SchemaError;
use crate::error::SchemaErrorView;
use crate::field::configopt_ident;
use crate::field::described;
use crate::field::partial_ident;
use crate::field::FieldSource;
use crate::field::FieldView;
use crate::field::ParsedField;
use crate::variant::member_path;
use crate::variant::variant_described;
use crate::variant::ParsedVariant;
use crate::variant::VariantFields;
use crate::variant::VariantSource;
use crate::variant::VariantView;
use vstd::prelude::*;

verus! {

/// The members of a schema as its author wrote them.
#[derive(Debug, PartialEq, Eq)]
pub enum SchemaBody {
    /// A struct: its fields, in declaration order.
    Struct(Vec<FieldSource>),
    /// An enum: its variants, in declaration order.
    Enum(Vec<VariantSource>),
}

/// A schema as its author wrote it.
#[derive(Debug, PartialEq, Eq)]
pub struct SchemaSource {
    /// The identifier of the type.
    pub name: String,
    /// The token of the casing style for command-line names.
    pub structopt_rename_all: String,
    /// The token of the casing style for serialized names.
    pub serde_rename_all: String,
    /// The type's fields or variants.
    pub body: SchemaBody,
}

/// One variant of an enum-shaped schema, with the descriptors of its
/// fields.
#[derive(Debug, PartialEq, Eq)]
pub struct VariantEntry {
    pub descriptor: ParsedVariant,
    pub fields: Vec<ParsedField>,
}

/// Mathematical value of a [`VariantEntry`].
pub ghost struct VariantEntryView {
    pub descriptor: VariantView,
    pub fields: Seq<FieldView>,
}

impl DeepView for VariantEntry {
    type V = VariantEntryView;

    open spec fn deep_view(&self) -> VariantEntryView {
        VariantEntryView { descriptor: self.descriptor@, fields: self.fields.deep_view() }
    }
}

/// The descriptors of a schema's members.
#[derive(Debug, PartialEq, Eq)]
pub enum SchemaKind {
    Struct(Vec<ParsedField>),
    Enum(Vec<VariantEntry>),
}

/// Mathematical value of a [`SchemaKind`].
pub ghost enum SchemaKindView {
    Struct(Seq<FieldView>),
    Enum(Seq<VariantEntryView>),
}

impl DeepView for SchemaKind {
    type V = SchemaKindView;

    open spec fn deep_view(&self) -> SchemaKindView {
        match self {
            SchemaKind::Struct(fields) => SchemaKindView::Struct(fields.deep_view()),
            SchemaKind::Enum(variants) => SchemaKindView::Enum(variants.deep_view()),
        }
    }
}

/// A schema whose descriptors are built.
#[derive(Debug, PartialEq, Eq)]
pub struct Schema {
    /// The identifier of the type.
    pub name: String,
    /// The identifier of the type's partial counterpart.
    pub partial_name: String,
    /// The descriptors of the type's fields or variants.
    pub kind: SchemaKind,
}

/// Mathematical value of a [`Schema`].
pub ghost struct SchemaView {
    pub name: Seq<char>,
    pub partial_name: Seq<char>,
    pub kind: SchemaKindView,
}

impl DeepView for Schema {
    type V = SchemaView;

    open spec fn deep_view(&self) -> SchemaView {
        SchemaView {
            name: self.name@,
            partial_name: self.partial_name@,
            kind: self.kind.deep_view(),
        }
    }
}

impl View for Schema {
    type V = SchemaView;

    open spec fn view(&self) -> SchemaView {
        self.deep_view()
    }
}

/// The style that a schema's token names.
pub open spec fn schema_style(token: Seq<char>) -> Result<CasingStyle, SchemaErrorView> {
    match style_of_token(token) {
        Some(style) => Ok(style),
        None => Err(SchemaErrorView::InvalidCasingStyle { token }),
    }
}

/// The descriptors of the fields `fields`, in order, or the failure of the
/// first field that has none.
pub open spec fn fields_described(
    fields: Seq<FieldSource>,
    structopt_rename: CasingStyle,
    serde_rename: CasingStyle,
) -> Result<Seq<FieldView>, SchemaErrorView>
    decreases fields.len(),
{
    if fields.len() == 0 {
        Ok(Seq::empty())
    } else {
        match fields_described(fields.drop_last(), structopt_rename, serde_rename) {
            Err(e) => Err(e),
            Ok(before) => match described(fields.last(), structopt_rename, serde_rename) {
                Err(e) => Err(e),
                Ok(d) => Ok(before.push(d)),
            },
        }
    }
}

/// The fields that a variant holds.
pub open spec fn fields_of_variant(fields: VariantFields) -> Seq<FieldSource> {
    match fields {
        VariantFields::Named(list) => list@,
        VariantFields::Unnamed(list) => list@,
        VariantFields::Unit => Seq::empty(),
    }
}

/// The descriptors of the variants `variants` of the type `name`, in
/// order, or the failure of the first field that has no descriptor.
pub open spec fn variants_described(
    name: Seq<char>,
    variants: Seq<VariantSource>,
    structopt_rename: CasingStyle,
    serde_rename: CasingStyle,
) -> Result<Seq<VariantEntryView>, SchemaErrorView>
    decreases variants.len(),
{
    if variants.len() == 0 {
        Ok(Seq::empty())
    } else {
        match variants_described(name, variants.drop_last(), structopt_rename, serde_rename) {
            Err(e) => Err(e),
            Ok(before) => match fields_described(
                fields_of_variant(variants.last().fields),
                structopt_rename,
                serde_rename,
            ) {
                Err(e) => Err(e),
                Ok(fields) => Ok(
                    before.push(
                        VariantEntryView {
                            descriptor: variant_described(name, variants.last()),
                            fields,
                        },
                    ),
                ),
            },
        }
    }
}

/// The schema that `source` describes, or the first failure met: the
/// command-line style token is read first, then the serialization style
/// token, then the members in declaration order.
pub open spec fn schema_described(source: SchemaSource) -> Result<SchemaView, SchemaErrorView> {
    match schema_style(source.structopt_rename_all@) {
        Err(e) => Err(e),
        Ok(cli) => match schema_style(source.serde_rename_all@) {
            Err(e) => Err(e),
            Ok(serde) => match source.body {
                SchemaBody::Struct(fields) => match fields_described(fields@, cli, serde) {
                    Err(e) => Err(e),
                    Ok(list) => Ok(
                        SchemaView {
                            name: source.name@,
                            partial_name: partial_ident(source.name@),
                            kind: SchemaKindView::Struct(list),
                        },
                    ),
                },
                SchemaBody::Enum(variants) => match variants_described(
                    source.name@,
                    variants@,
                    cli,
                    serde,
                ) {
                    Err(e) => Err(e),
                    Ok(list) => Ok(
                        SchemaView {
                            name: source.name@,
                            partial_name: partial_ident(source.name@),
                            kind: SchemaKindView::Enum(list),
                        },
                    ),
                },
            },
        },
    }
}

/// The mathematical value of the outcome of building a schema.
pub open spec fn schema_outcome(r: Result<Schema, SchemaError>) -> Result<
    SchemaView,
    SchemaErrorView,
> {
    match r {
        Ok(s) => Ok(s@),
        Err(e) => Err(e@),
    }
}

fn describe_fields(fields: &Vec<FieldSource>, structopt_rename: CasingStyle, serde_rename: CasingStyle)
    -> (r: Result<Vec<ParsedField>, SchemaError>)
    ensures
        match fields_described(fields@, structopt_rename, serde_rename) {
            Ok(list) => r matches Ok(v) && v.deep_view() == list,
            Err(e) => r matches Err(x) && x@ == e,
        },
{
    let mut out: Vec<ParsedField> = Vec::new();
    let mut i: usize = 0;
    assert(out.deep_view() =~= Seq::<FieldView>::empty());
    while i < fields.len()
        invariant
            i <= fields@.len(),
            fields_described(fields@.take(i as int), structopt_rename, serde_rename) == Ok::<
                Seq<FieldView>,
                SchemaErrorView,
            >(out.deep_view()),
        decreases fields@.len() - i,
    {
        proof {
            let next = fields@.take(i + 1);
            assert(next.drop_last() =~= fields@.take(i as int));
            assert(next.last() == fields@[i as int]);
        }
        match ParsedField::new(&fields[i], structopt_rename, serde_rename) {
            Ok(d) => {
                let ghost before = out.deep_view();
                out.push(d);
                assert(out.deep_view() =~= before.push(d@));
            },
            Err(e) => {
                proof {
                    lemma_fields_described_fails(
                        fields@,
                        i + 1,
                        structopt_rename,
                        serde_rename,
                    );
                }
                return Err(e);
            },
        }
        i += 1;
    }
    assert(fields@.take(i as int) =~= fields@);
    Ok(out)
}

/// A failure among the first `upto` fields is the failure of the whole
/// list.
proof fn lemma_fields_described_fails(
    fields: Seq<FieldSource>,
    upto: int,
    structopt_rename: CasingStyle,
    serde_rename: CasingStyle,
)
    requires
        0 <= upto <= fields.len(),
        fields_described(fields.take(upto), structopt_rename, serde_rename) is Err,
    ensures
        fields_described(fields, structopt_rename, serde_rename) == fields_described(
            fields.take(upto),
            structopt_rename,
            serde_rename,
        ),
    decreases fields.len() - upto,
{
    if upto == fields.len() {
        assert(fields.take(upto) =~= fields);
    } else {
        let next = fields.take(upto + 1);
        assert(next.drop_last() =~= fields.take(upto));
        lemma_fields_described_fails(fields, upto + 1, structopt_rename, serde_rename);
    }
}

/// A failure among the first `upto` variants is the failure of the whole
/// list.
proof fn lemma_variants_described_fails(
    name: Seq<char>,
    variants: Seq<VariantSource>,
    upto: int,
    structopt_rename: CasingStyle,
    serde_rename: CasingStyle,
)
    requires
        0 <= upto <= variants.len(),
        variants_described(name, variants.take(upto), structopt_rename, serde_rename) is Err,
    ensures
        variants_described(name, variants, structopt_rename, serde_rename) == variants_described(
            name,
            variants.take(upto),
            structopt_rename,
            serde_rename,
        ),
    decreases variants.len() - upto,
{
    if upto == variants.len() {
        assert(variants.take(upto) =~= variants);
    } else {
        let next = variants.take(upto + 1);
        assert(next.drop_last() =~= variants.take(upto));
        lemma_variants_described_fails(name, variants, upto + 1, structopt_rename, serde_rename);
    }
}

fn describe_variant_fields(
    fields: &VariantFields,
    structopt_rename: CasingStyle,
    serde_rename: CasingStyle,
) -> (r: Result<Vec<ParsedField>, SchemaError>)
    ensures
        match fields_described(fields_of_variant(*fields), structopt_rename, serde_rename) {
            Ok(list) => r matches Ok(v) && v.deep_view() == list,
            Err(e) => r matches Err(x) && x@ == e,
        },
{
    match fields {
        VariantFields::Named(list) => describe_fields(list, structopt_rename, serde_rename),
        VariantFields::Unnamed(list) => describe_fields(list, structopt_rename, serde_rename),
        VariantFields::Unit => {
            let out: Vec<ParsedField> = Vec::new();
            assert(out.deep_view() =~= Seq::<FieldView>::empty());
            Ok(out)
        },
    }
}

fn describe_variants(
    name: &str,
    variants: &Vec<VariantSource>,
    structopt_rename: CasingStyle,
    serde_rename: CasingStyle,
) -> (r: Result<Vec<VariantEntry>, SchemaError>)
    ensures
        match variants_described(name@, variants@, structopt_rename, serde_rename) {
            Ok(list) => r matches Ok(v) && v.deep_view() == list,
            Err(e) => r matches Err(x) && x@ == e,
        },
{
    let mut out: Vec<VariantEntry> = Vec::new();
    let mut i: usize = 0;
    assert(out.deep_view() =~= Seq::<VariantEntryView>::empty());
    while i < variants.len()
        invariant
            i <= variants@.len(),
            variants_described(name@, variants@.take(i as int), structopt_rename, serde_rename)
                == Ok::<Seq<VariantEntryView>, SchemaErrorView>(out.deep_view()),
        decreases variants@.len() - i,
    {
        proof {
            let next = variants@.take(i + 1);
            assert(next.drop_last() =~= variants@.take(i as int));
            assert(next.last() == variants@[i as int]);
        }
        match describe_variant_fields(&variants[i].fields, structopt_rename, serde_rename) {
            Ok(fields) => {
                let ghost before = out.deep_view();
                let entry = VariantEntry {
                    descriptor: ParsedVariant::new(name, &variants[i]),
                    fields,
                };
                out.push(entry);
                assert(out.deep_view() =~= before.push(entry.deep_view()));
            },
            Err(e) => {
                proof {
                    lemma_variants_described_fails(
                        name@,
                        variants@,
                        i + 1,
                        structopt_rename,
                        serde_rename,
                    );
                }
                return Err(e);
            },
        }
        i += 1;
    }
    assert(variants@.take(i as int) =~= variants@);
    Ok(out)
}

fn read_style(token: &String) -> (r: Result<CasingStyle, SchemaError>)
    ensures
        match schema_style(token@) {
            Ok(style) => r == Ok::<CasingStyle, SchemaError>(style),
            Err(e) => r matches Err(x) && x@ == e,
        },
{
    CasingStyle::from_str(token.as_str())
}

impl Schema {
    /// Builds the descriptors of a schema. The partial counterpart is
    /// named here, once, by [`configopt_ident`].
    ///
    /// Fails with the first failure met: an unknown casing-style token of
    /// the schema, or the failure of the first field that has no descriptor.
    pub fn new(source: &SchemaSource) -> (r: Result<Schema, SchemaError>)
        ensures
            schema_outcome(r) == schema_described(*source),
    {
        let cli = match read_style(&source.structopt_rename_all) {
            Ok(style) => style,
            Err(e) => {
                return Err(e);
            },
        };
        let serde = match read_style(&source.serde_rename_all) {
            Ok(style) => style,
            Err(e) => {
                return Err(e);
            },
        };
        let kind = match &source.body {
            SchemaBody::Struct(fields) => match describe_fields(fields, cli, serde) {
                Ok(list) => SchemaKind::Struct(list),
                Err(e) => {
                    return Err(e);
                },
            },
            SchemaBody::Enum(variants) => match describe_variants(
                source.name.as_str(),
                variants,
                cli,
                serde,
            ) {
                Ok(list) => SchemaKind::Enum(list),
                Err(e) => {
                    return Err(e);
                },
            },
        };
        Ok(
            Schema {
                name: source.name.clone(),
                partial_name: configopt_ident(source.name.as_str()),
                kind,
            },
        )
    }
}

/// Whether the descriptor `descriptor` records a variant of the schema
/// `schema`: its two paths name one member, of the type and of the type's
/// partial counterpart.
pub open spec fn records_variant_of(schema: SchemaView, descriptor: VariantView) -> bool {
    exists|member: Seq<char>|
        descriptor.full_ident == #[trigger] member_path(schema.name, member)
            && descriptor.full_configopt_ident == member_path(schema.partial_name, member)
}

/// Whether every variant descriptor of the schema `schema` records a
/// variant of it.
pub open spec fn variants_recorded(schema: SchemaView) -> bool {
    schema.kind matches SchemaKindView::Enum(variants) ==> forall|v: int|
        0 <= v < variants.len() ==> records_variant_of(schema, (#[trigger] variants[v]).descriptor)
}

/// The variant descriptors that are built for a type carry the paths of
/// its members, in the type and in its partial counterpart.
pub proof fn lemma_variants_described_paths(
    name: Seq<char>,
    variants: Seq<VariantSource>,
    structopt_rename: CasingStyle,
    serde_rename: CasingStyle,
    v: int,
)
    requires
        variants_described(name, variants, structopt_rename, serde_rename) is Ok,
        0 <= v < variants.len(),
    ensures
        variants_described(name, variants, structopt_rename, serde_rename)->Ok_0.len()
            == variants.len(),
        variants_described(name, variants, structopt_rename, serde_rename)->Ok_0[v].descriptor
            == variant_described(name, variants[v]),
    decreases variants.len(),
{
    lemma_variants_described_len(name, variants, structopt_rename, serde_rename);
    lemma_variants_described_len(name, variants.drop_last(), structopt_rename, serde_rename);
    if v < variants.len() - 1 {
        lemma_variants_described_paths(
            name,
            variants.drop_last(),
            structopt_rename,
            serde_rename,
            v,
        );
        assert(variants.drop_last()[v] == variants[v]);
    }
}

/// There are as many variant descriptors as variants.
pub proof fn lemma_variants_described_len(
    name: Seq<char>,
    variants: Seq<VariantSource>,
    structopt_rename: CasingStyle,
    serde_rename: CasingStyle,
)
    requires
        variants_described(name, variants, structopt_rename, serde_rename) is Ok,
    ensures
        variants_described(name, variants, structopt_rename, serde_rename)->Ok_0.len()
            == variants.len(),
    decreases variants.len(),
{
    if variants.len() > 0 {
        lemma_variants_described_len(name, variants.drop_last(), structopt_rename, serde_rename);
    }
}

/// A schema that is built from its source carries the partial identifier
/// that the naming rule gives, and its variant descriptors record its
/// variants.
pub proof fn lemma_schema_described_names(source: SchemaSource)
    requires
        schema_described(source) is Ok,
    ensures
        schema_described(source)->Ok_0.name == source.name@,
        schema_described(source)->Ok_0.partial_name == partial_ident(source.name@),
        variants_recorded(schema_described(source)->Ok_0),
{
    let schema = schema_described(source)->Ok_0;
    match source.body {
        SchemaBody::Enum(list) => {
            let cli = schema_style(source.structopt_rename_all@)->Ok_0;
            let serde = schema_style(source.serde_rename_all@)->Ok_0;
            let variants = schema.kind->Enum_0;
            lemma_variants_described_len(source.name@, list@, cli, serde);
            assert forall|v: int| 0 <= v < variants.len() implies records_variant_of(
                schema,
                (#[trigger] variants[v]).descriptor,
            ) by {
                lemma_variants_described_paths(source.name@, list@, cli, serde, v);
                let member = list@[v].ident@;
                assert(variants[v].descriptor.full_ident == member_path(schema.name, member));
            }
        },
        SchemaBody::Struct(_) => {},
    }
}

} // verus!
