//! Field descriptors: what the schema rules know of one field.

use crate::attrs::normalize;
use crate::attrs::normalized;
use crate::attrs::text_of;
use crate::attrs::RawEntry;
use crate::casing::renamed;
use crate::casing::style_of_token;
use crate::casing::CasingStyle;
use crate::error::SchemaError;
use crate::error::SchemaErrorView;
use crate::partial::index_of;
use crate::registry::Registry;
use crate::types::classified;
use crate::types::inner_name;
use crate::types::inner_ty;
use crate::types::StructOptTy;
use crate::types::TypeRef;
use crate::types::TypeRefView;
use vstd::prelude::*;
use vstd::string::StringExecFns;

verus! {

/// The identifier that the partial counterpart of the type `ident` is
/// registered under.
pub open spec fn partial_ident(ident: Seq<char>) -> Seq<char> {
    "ConfigOpt"@ + ident
}

/// Names the partial counterpart of a type: the marker `ConfigOpt` followed
/// by the type's identifier. The rule is applied once, when a schema is
/// registered; afterwards the registry is asked.
pub fn configopt_ident(ident: &str) -> (r: String)
    ensures
        r@ == partial_ident(ident@),
{
    "ConfigOpt".to_owned().concat(ident)
}

/// A field as the schema's author wrote it.
#[derive(Debug, PartialEq, Eq)]
pub struct FieldSource {
    /// The field's identifier.
    pub ident: String,
    /// The field's declared type.
    pub ty: TypeRef,
    /// The field's raw metadata, in declaration order.
    pub attrs: Vec<RawEntry>,
    /// The token of a casing style that replaces, for this field, the
    /// schema's style for command-line names.
    pub structopt_rename_all: Option<String>,
    /// The token of a casing style that replaces, for this field, the
    /// schema's style for serialized names.
    pub serde_rename_all: Option<String>,
}

/// A field descriptor. Its command-line name and its serialized name are
/// never empty.
#[derive(Debug, PartialEq, Eq)]
pub struct ParsedField {
    ident: String,
    ty: TypeRef,
    inner_ty: String,
    structopt_ty: StructOptTy,
    structopt_flatten: bool,
    serde_flatten: bool,
    subcommand: bool,
    structopt_rename: CasingStyle,
    serde_rename: CasingStyle,
    structopt_name: String,
    serde_name: String,
    to_os_string: Option<String>,
}

/// Mathematical value of a [`ParsedField`].
pub ghost struct FieldView {
    pub ident: Seq<char>,
    pub ty: TypeRefView,
    pub inner_ty: Seq<char>,
    pub structopt_ty: StructOptTy,
    pub structopt_flatten: bool,
    pub serde_flatten: bool,
    pub subcommand: bool,
    pub structopt_rename: CasingStyle,
    pub serde_rename: CasingStyle,
    pub structopt_name: Seq<char>,
    pub serde_name: Seq<char>,
    pub to_os_string: Option<Seq<char>>,
}

impl FieldView {
    /// The invariant of a descriptor: both names are given.
    pub open spec fn wf(self) -> bool {
        self.structopt_name.len() > 0 && self.serde_name.len() > 0
    }

    /// Whether the field's contents are inlined into the level that holds
    /// the field: it is flattened on the command line or in the file.
    pub open spec fn flatten(self) -> bool {
        self.structopt_flatten || self.serde_flatten
    }

    /// Whether a full instance must hold a value for the field: its
    /// declared type admits neither absence nor a default.
    pub open spec fn required(self) -> bool {
        self.structopt_ty == StructOptTy::Other
    }

    /// Whether this field and `other` cannot stand in one level: they
    /// share an identifier, a command-line name or a serialized name.
    pub open spec fn shares_name_with(self, other: FieldView) -> bool {
        self.ident == other.ident || self.structopt_name == other.structopt_name
            || self.serde_name == other.serde_name
    }
}

/// The casing style of one namespace for one field: the field's own
/// style where it names one, else the schema's.
pub open spec fn chosen_style(own: Option<String>, schema: CasingStyle) -> Result<
    CasingStyle,
    SchemaErrorView,
> {
    match own {
        None => Ok(schema),
        Some(token) => match style_of_token(token@) {
            Some(style) => Ok(style),
            None => Err(SchemaErrorView::InvalidCasingStyle { token: token@ }),
        },
    }
}

/// The name of a field in one namespace: the explicit rename where the
/// metadata gives one, else the identifier as the namespace's style cases
/// it.
pub open spec fn resolved_name(explicit: Option<Seq<char>>, cased: Seq<char>) -> Seq<char> {
    match explicit {
        Some(name) => name,
        None => cased,
    }
}

/// The descriptor of a field whose casing styles are chosen and whose
/// identifier is cased already: `structopt_cased` for the command line,
/// `serde_cased` for the file.
///
/// A declared type without a nameable inner type is refused with
/// `UnsupportedTypeShape`, and a name that would be empty with `EmptyName`.
pub open spec fn assembled(
    field: FieldSource,
    structopt_rename: CasingStyle,
    serde_rename: CasingStyle,
    structopt_cased: Seq<char>,
    serde_cased: Seq<char>,
) -> Result<FieldView, SchemaErrorView> {
    match inner_name(field.ty@) {
        None => Err(SchemaErrorView::UnsupportedTypeShape { field: field.ident@ }),
        Some(inner) => {
            let attrs = normalized(field.attrs@);
            let structopt_name = resolved_name(attrs.structopt_name, structopt_cased);
            let serde_name = resolved_name(attrs.serde_name, serde_cased);
            if structopt_name.len() == 0 || serde_name.len() == 0 {
                Err(SchemaErrorView::EmptyName { field: field.ident@ })
            } else {
                Ok(
                    FieldView {
                        ident: field.ident@,
                        ty: field.ty@,
                        inner_ty: inner,
                        structopt_ty: classified(field.ty@),
                        structopt_flatten: attrs.structopt_flatten,
                        serde_flatten: attrs.serde_flatten,
                        subcommand: attrs.subcommand,
                        structopt_rename,
                        serde_rename,
                        structopt_name,
                        serde_name,
                        to_os_string: attrs.to_os_string,
                    },
                )
            }
        },
    }
}

/// The descriptor of a field, or the reason why it has none.
///
/// The declared type is looked at first, then the command-line style, then
/// the serialization style, then the two names.
pub open spec fn described(field: FieldSource, structopt_rename: CasingStyle, serde_rename: CasingStyle)
    -> Result<FieldView, SchemaErrorView> {
    match inner_name(field.ty@) {
        None => Err(SchemaErrorView::UnsupportedTypeShape { field: field.ident@ }),
        Some(_) => match chosen_style(field.structopt_rename_all, structopt_rename) {
            Err(e) => Err(e),
            Ok(cli_style) => match chosen_style(field.serde_rename_all, serde_rename) {
                Err(e) => Err(e),
                Ok(serde_style) => assembled(
                    field,
                    cli_style,
                    serde_style,
                    renamed(cli_style, field.ident@),
                    renamed(serde_style, field.ident@),
                ),
            },
        },
    }
}

/// The mathematical value of the outcome of building a descriptor.
pub open spec fn outcome_view(r: Result<ParsedField, SchemaError>) -> Result<
    FieldView,
    SchemaErrorView,
> {
    match r {
        Ok(d) => Ok(d@),
        Err(e) => Err(e@),
    }
}

fn choose_style(own: &Option<String>, schema: CasingStyle) -> (r: Result<CasingStyle, SchemaError>)
    ensures
        match chosen_style(*own, schema) {
            Ok(style) => r == Ok::<CasingStyle, SchemaError>(style),
            Err(e) => r matches Err(x) && x@ == e,
        },
{
    match own {
        None => Ok(schema),
        Some(token) => CasingStyle::from_str(token.as_str()),
    }
}

fn resolve_name(explicit: Option<String>, cased: String) -> (r: String)
    ensures
        r@ == resolved_name(text_of(explicit), cased@),
{
    match explicit {
        Some(name) => name,
        None => cased,
    }
}

impl View for ParsedField {
    type V = FieldView;

    closed spec fn view(&self) -> FieldView {
        FieldView {
            ident: self.ident@,
            ty: self.ty@,
            inner_ty: self.inner_ty@,
            structopt_ty: self.structopt_ty,
            structopt_flatten: self.structopt_flatten,
            serde_flatten: self.serde_flatten,
            subcommand: self.subcommand,
            structopt_rename: self.structopt_rename,
            serde_rename: self.serde_rename,
            structopt_name: self.structopt_name@,
            serde_name: self.serde_name@,
            to_os_string: text_of(self.to_os_string),
        }
    }
}

impl DeepView for ParsedField {
    type V = FieldView;

    open spec fn deep_view(&self) -> FieldView {
        self@
    }
}

impl ParsedField {
    #[verifier::type_invariant]
    spec fn names_given(self) -> bool {
        self.structopt_name@.len() > 0 && self.serde_name@.len() > 0
    }

    /// Builds the descriptor of a field under the schema's casing styles.
    ///
    /// Fails with `UnsupportedTypeShape` where the declared type has no
    /// nameable inner type, with `InvalidCasingStyle` where a style token of
    /// the field names no style, and with `EmptyName` where a name of the
    /// field would be empty.
    pub fn new(field: &FieldSource, structopt_rename: CasingStyle, serde_rename: CasingStyle) -> (r:
        Result<ParsedField, SchemaError>)
        ensures
            outcome_view(r) == described(*field, structopt_rename, serde_rename),
    {
        if inner_ty(&field.ty).is_none() {
            return Err(SchemaError::UnsupportedTypeShape { field: field.ident.clone() });
        }
        let cli_style = match choose_style(&field.structopt_rename_all, structopt_rename) {
            Ok(style) => style,
            Err(e) => {
                return Err(e);
            },
        };
        let serde_style = match choose_style(&field.serde_rename_all, serde_rename) {
            Ok(style) => style,
            Err(e) => {
                return Err(e);
            },
        };
        let structopt_cased = cli_style.rename(field.ident.as_str());
        let serde_cased = serde_style.rename(field.ident.as_str());
        ParsedField::with_names(field, cli_style, serde_style, structopt_cased, serde_cased)
    }

    /// Builds the descriptor of a field from its source, the casing styles
    /// chosen for it, and its identifier as each style cases it.
    ///
    /// An explicit rename of the metadata comes before the cased
    /// identifier. Fails with `UnsupportedTypeShape` where the declared type
    /// has no nameable inner type, and with `EmptyName` where a name of the
    /// field would be empty.
    pub fn with_names(
        field: &FieldSource,
        structopt_rename: CasingStyle,
        serde_rename: CasingStyle,
        structopt_cased: String,
        serde_cased: String,
    ) -> (r: Result<ParsedField, SchemaError>)
        ensures
            outcome_view(r) == assembled(
                *field,
                structopt_rename,
                serde_rename,
                structopt_cased@,
                serde_cased@,
            ),
    {
        let inner = match inner_ty(&field.ty) {
            Some(name) => name.clone(),
            None => {
                return Err(SchemaError::UnsupportedTypeShape { field: field.ident.clone() });
            },
        };
        let attrs = normalize(&field.attrs);
        let structopt_name = resolve_name(attrs.structopt_name, structopt_cased);
        let serde_name = resolve_name(attrs.serde_name, serde_cased);
        if structopt_name.as_str().is_empty() || serde_name.as_str().is_empty() {
            return Err(SchemaError::EmptyName { field: field.ident.clone() });
        }
        Ok(
            ParsedField {
                ident: field.ident.clone(),
                ty: field.ty.clone(),
                inner_ty: inner,
                structopt_ty: StructOptTy::from_ty(&field.ty),
                structopt_flatten: attrs.structopt_flatten,
                serde_flatten: attrs.serde_flatten,
                subcommand: attrs.subcommand,
                structopt_rename,
                serde_rename,
                structopt_name,
                serde_name,
                to_os_string: attrs.to_os_string,
            },
        )
    }
}

impl ParsedField {
    /// The field's identifier.
    pub fn ident(&self) -> (r: &String)
        ensures
            r@ == self@.ident,
    {
        &self.ident
    }

    /// The field's declared type.
    pub fn ty(&self) -> (r: &TypeRef)
        ensures
            r@ == self@.ty,
    {
        &self.ty
    }

    /// The identifier of the field's inner type.
    pub fn inner_ty(&self) -> (r: &String)
        ensures
            r@ == self@.inner_ty,
    {
        &self.inner_ty
    }

    /// The command-line classification of the declared type.
    pub fn structopt_ty(&self) -> (r: &StructOptTy)
        ensures
            *r == self@.structopt_ty,
    {
        &self.structopt_ty
    }

    /// The identifier of the partial counterpart of the field's inner
    /// type, as `registry` holds it: `None` where the inner type has no
    /// registered partial counterpart.
    pub fn configopt_inner_ty<'a>(&self, registry: &'a Registry) -> (r: Option<&'a String>)
        ensures
            match index_of(registry@.schemas, self@.inner_ty) {
                Some(i) => r matches Some(name) && name@ == registry@.schemas[i].partial_name,
                None => r is None,
            },
    {
        registry.partial_of(self.inner_ty.as_str())
    }

    /// Whether the field is flattened on the command line.
    pub fn structopt_flatten(&self) -> (r: bool)
        ensures
            r == self@.structopt_flatten,
    {
        self.structopt_flatten
    }

    /// Whether the field is flattened in the configuration file.
    pub fn serde_flatten(&self) -> (r: bool)
        ensures
            r == self@.serde_flatten,
    {
        self.serde_flatten
    }

    /// Whether the field is a subcommand.
    pub fn subcommand(&self) -> (r: bool)
        ensures
            r == self@.subcommand,
    {
        self.subcommand
    }

    /// The casing style of the field's command-line name.
    pub fn structopt_rename(&self) -> (r: CasingStyle)
        ensures
            r == self@.structopt_rename,
    {
        self.structopt_rename
    }

    /// The casing style of the field's serialized name.
    pub fn serde_rename(&self) -> (r: CasingStyle)
        ensures
            r == self@.serde_rename,
    {
        self.serde_rename
    }

    /// The field's command-line name. It is not empty.
    pub fn structopt_name(&self) -> (r: &str)
        ensures
            r@ == self@.structopt_name,
            self@.wf(),
    {
        proof {
            use_type_invariant(self);
        }
        self.structopt_name.as_str()
    }

    /// The field's serialized name. It is not empty.
    pub fn serde_name(&self) -> (r: &str)
        ensures
            r@ == self@.serde_name,
            self@.wf(),
    {
        proof {
            use_type_invariant(self);
        }
        self.serde_name.as_str()
    }

    /// The field's custom-conversion expression, if it has one.
    pub fn to_os_string(&self) -> (r: Option<&String>)
        ensures
            match self@.to_os_string {
                Some(expr) => r matches Some(s) && s@ == expr,
                None => r is None,
            },
    {
        self.to_os_string.as_ref()
    }

    /// Whether the field's contents are inlined into the level that holds
    /// the field.
    pub fn flatten(&self) -> (r: bool)
        ensures
            r == self@.flatten(),
    {
        self.structopt_flatten || self.serde_flatten
    }

    /// Whether a full instance must hold a value for the field.
    pub fn required(&self) -> (r: bool)
        ensures
            r == self@.required(),
    {
        match self.structopt_ty {
            StructOptTy::Other => true,
            _ => false,
        }
    }
}

impl ParsedField {
    /// Whether this field and `other` share an identifier, a command-line
    /// name or a serialized name.
    pub fn shares_name_with(&self, other: &ParsedField) -> (r: bool)
        ensures
            r == self@.shares_name_with(other@),
    {
        self.ident == other.ident || self.structopt_name == other.structopt_name
            || self.serde_name == other.serde_name
    }
}

impl Clone for ParsedField {
    fn clone(&self) -> (r: Self)
        ensures
            r@ == self@,
    {
        proof {
            use_type_invariant(self);
        }
        ParsedField {
            ident: self.ident.clone(),
            ty: self.ty.clone(),
            inner_ty: self.inner_ty.clone(),
            structopt_ty: self.structopt_ty,
            structopt_flatten: self.structopt_flatten,
            serde_flatten: self.serde_flatten,
            subcommand: self.subcommand,
            structopt_rename: self.structopt_rename,
            serde_rename: self.serde_rename,
            structopt_name: self.structopt_name.clone(),
            serde_name: self.serde_name.clone(),
            to_os_string: match &self.to_os_string {
                Some(expr) => Some(expr.clone()),
                None => None,
            },
        }
    }
}

/// Whether one of the fields is the one that asks for a configuration
/// file to be generated: the field named `generate_config`.
pub fn has_configopt_fields(parsed: &[ParsedField]) -> (r: bool)
    ensures
        r == exists|i: int| 0 <= i < parsed@.len() && (#[trigger] parsed@[i])@.ident
            == "generate_config"@,
{
    let wanted = "generate_config".to_owned();
    let mut i: usize = 0;
    while i < parsed.len()
        invariant
            i <= parsed@.len(),
            wanted@ == "generate_config"@,
            forall|j: int| 0 <= j < i ==> (#[trigger] parsed@[j])@.ident != "generate_config"@,
        decreases parsed@.len() - i,
    {
        if parsed[i].ident == wanted {
            return true;
        }
        i += 1;
    }
    false
}

/// A field without an explicit rename is named by its casing styles: on
/// the command line by the command-line style applied to its identifier,
/// in the file by the serialization style applied to its identifier.
pub proof fn lemma_names_follow_casing(
    field: FieldSource,
    structopt_rename: CasingStyle,
    serde_rename: CasingStyle,
)
    requires
        described(field, structopt_rename, serde_rename) is Ok,
    ensures
        ({
            let d = described(field, structopt_rename, serde_rename)->Ok_0;
            let attrs = normalized(field.attrs@);
            &&& attrs.structopt_name is None ==> d.structopt_name == renamed(
                d.structopt_rename,
                field.ident@,
            )
            &&& attrs.serde_name is None ==> d.serde_name == renamed(d.serde_rename, field.ident@)
            &&& field.structopt_rename_all is None ==> d.structopt_rename == structopt_rename
            &&& field.serde_rename_all is None ==> d.serde_rename == serde_rename
            &&& d.wf()
        }),
{
}

} // verus!
