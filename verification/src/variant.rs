//! Variant descriptors: what the schema rules know of one member of an
//! enum-shaped schema.

use crate::casing::kebab_case;
use crate::casing::CasingStyle;
use crate::field::configopt_ident;
use crate::field::partial_ident;
use crate::field::FieldSource;
use vstd::prelude::*;
use vstd::std_specs::convert::FromSpecImpl;
use vstd::string::StringExecFns;

verus! {

/// The fields of a variant as the schema's author wrote them.
#[derive(Debug, PartialEq, Eq)]
pub enum VariantFields {
    /// `Variant { a: A, b: B }`
    Named(Vec<FieldSource>),
    /// `Variant(A, B)`; each field is identified by its position.
    Unnamed(Vec<FieldSource>),
    /// `Variant`
    Unit,
}

/// The shape of a variant's fields.
#[derive(Clone, Copy, Debug, PartialEq, Eq, Structural)]
pub enum FieldType {
    Named,
    Unnamed,
    Unit,
}

/// The shape of the fields `fields`.
pub open spec fn shape_of(fields: VariantFields) -> FieldType {
    match fields {
        VariantFields::Named(_) => FieldType::Named,
        VariantFields::Unnamed(_) => FieldType::Unnamed,
        VariantFields::Unit => FieldType::Unit,
    }
}

impl<'a> From<&'a VariantFields> for FieldType {
    fn from(fields: &'a VariantFields) -> (r: FieldType) {
        match fields {
            VariantFields::Named(_) => FieldType::Named,
            VariantFields::Unnamed(_) => FieldType::Unnamed,
            VariantFields::Unit => FieldType::Unit,
        }
    }
}

impl<'a> FromSpecImpl<&'a VariantFields> for FieldType {
    open spec fn obeys_from_spec() -> bool {
        true
    }

    open spec fn from_spec(fields: &'a VariantFields) -> FieldType {
        shape_of(*fields)
    }
}

/// A variant as the schema's author wrote it.
#[derive(Debug, PartialEq, Eq)]
pub struct VariantSource {
    /// The variant's identifier.
    pub ident: String,
    /// The variant's fields.
    pub fields: VariantFields,
}

/// A variant descriptor.
#[derive(Debug, PartialEq, Eq)]
pub struct ParsedVariant {
    full_ident: String,
    full_configopt_ident: String,
    field_type: FieldType,
    structopt_name: String,
}

/// Mathematical value of a [`ParsedVariant`].
pub ghost struct VariantView {
    pub full_ident: Seq<char>,
    pub full_configopt_ident: Seq<char>,
    pub field_type: FieldType,
    pub structopt_name: Seq<char>,
}

/// The path of the member `member` of the type `owner`.
pub open spec fn member_path(owner: Seq<char>, member: Seq<char>) -> Seq<char> {
    owner + "::"@ + member
}

/// The descriptor of the variant `variant` of the type `type_ident` whose
/// command-line name is `structopt_name`.
pub open spec fn variant_named(
    type_ident: Seq<char>,
    variant: VariantSource,
    structopt_name: Seq<char>,
) -> VariantView {
    VariantView {
        full_ident: member_path(type_ident, variant.ident@),
        full_configopt_ident: member_path(partial_ident(type_ident), variant.ident@),
        field_type: shape_of(variant.fields),
        structopt_name,
    }
}

/// The descriptor of the variant `variant` of the type `type_ident`.
///
/// The command-line name of a variant is its identifier in kebab case,
/// whatever casing style the schema names for its fields.
pub open spec fn variant_described(type_ident: Seq<char>, variant: VariantSource) -> VariantView {
    variant_named(type_ident, variant, kebab_case(variant.ident@))
}

impl View for ParsedVariant {
    type V = VariantView;

    closed spec fn view(&self) -> VariantView {
        VariantView {
            full_ident: self.full_ident@,
            full_configopt_ident: self.full_configopt_ident@,
            field_type: self.field_type,
            structopt_name: self.structopt_name@,
        }
    }
}

impl DeepView for ParsedVariant {
    type V = VariantView;

    open spec fn deep_view(&self) -> VariantView {
        self@
    }
}

fn path_of(owner: String, member: &str) -> (r: String)
    ensures
        r@ == member_path(owner@, member@),
{
    owner.concat("::").concat(member)
}

impl ParsedVariant {
    /// Builds the descriptor of a variant of the type `type_ident`.
    pub fn new(type_ident: &str, variant: &VariantSource) -> (r: ParsedVariant)
        ensures
            r@ == variant_described(type_ident@, *variant),
    {
        let structopt_name = CasingStyle::Kebab.rename(variant.ident.as_str());
        ParsedVariant::with_name(type_ident, variant, structopt_name)
    }

    /// Builds the descriptor of a variant of the type `type_ident` from
    /// its source and its command-line name: the two paths of the variant,
    /// in the type and in the type's partial counterpart, and the shape of
    /// its fields.
    pub fn with_name(type_ident: &str, variant: &VariantSource, structopt_name: String) -> (r:
        ParsedVariant)
        ensures
            r@ == variant_named(type_ident@, *variant, structopt_name@),
    {
        let full_ident = path_of(type_ident.to_owned(), variant.ident.as_str());
        let full_configopt_ident = path_of(configopt_ident(type_ident), variant.ident.as_str());
        ParsedVariant {
            full_ident,
            full_configopt_ident,
            field_type: FieldType::from(&variant.fields),
            structopt_name,
        }
    }
}

impl ParsedVariant {
    /// The path of the variant in the full type.
    pub fn full_ident(&self) -> (r: &String)
        ensures
            r@ == self@.full_ident,
    {
        &self.full_ident
    }

    /// The path of the variant in the partial type.
    pub fn full_configopt_ident(&self) -> (r: &String)
        ensures
            r@ == self@.full_configopt_ident,
    {
        &self.full_configopt_ident
    }

    /// The shape of the variant's fields.
    pub fn field_type(&self) -> (r: FieldType)
        ensures
            r == self@.field_type,
    {
        self.field_type
    }

    /// The variant's command-line name.
    pub fn structopt_name(&self) -> (r: &str)
        ensures
            r@ == self@.structopt_name,
    {
        self.structopt_name.as_str()
    }
}

impl Clone for ParsedVariant {
    fn clone(&self) -> (r: Self)
        ensures
            r@ == self@,
    {
        ParsedVariant {
            full_ident: self.full_ident.clone(),
            full_configopt_ident: self.full_configopt_ident.clone(),
            field_type: self.field_type,
            structopt_name: self.structopt_name.clone(),
        }
    }
}

} // verus!
