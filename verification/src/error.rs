//! Typed failures of schema registration and of merging.

use vstd::prelude::*;

verus! {

/// A failure found while a schema is registered. No partial schema is
/// produced for a schema that fails.
#[derive(Debug, PartialEq, Eq)]
pub enum SchemaError {
    /// A casing-style token is not one of the recognized styles.
    InvalidCasingStyle { token: String },
    /// The declared type of a field cannot be named by a type reference.
    UnsupportedTypeShape { field: String },
    /// The command-line name or the serialized name of a field is empty.
    EmptyName { field: String },
    /// Two fields of one schema level share an identifier, a
    /// command-line name or a serialized name. Each is named by its path
    /// from the level: its identifier, after the identifiers of the
    /// flattened fields that it is inlined through. `first` precedes
    /// `second` in declaration order.
    FieldCollision { first: String, second: String },
    /// A chain of flatten references leads back to the named schema.
    CyclicFlatten { schema: String },
}

/// Mathematical value of a [`SchemaError`].
pub ghost enum SchemaErrorView {
    InvalidCasingStyle { token: Seq<char> },
    UnsupportedTypeShape { field: Seq<char> },
    EmptyName { field: Seq<char> },
    FieldCollision { first: Seq<char>, second: Seq<char> },
    CyclicFlatten { schema: Seq<char> },
}

impl View for SchemaError {
    type V = SchemaErrorView;

    open spec fn view(&self) -> SchemaErrorView {
        match *self {
            SchemaError::InvalidCasingStyle { token } => SchemaErrorView::InvalidCasingStyle {
                token: token@,
            },
            SchemaError::UnsupportedTypeShape { field } => SchemaErrorView::UnsupportedTypeShape {
                field: field@,
            },
            SchemaError::EmptyName { field } => SchemaErrorView::EmptyName { field: field@ },
            SchemaError::FieldCollision { first, second } => SchemaErrorView::FieldCollision {
                first: first@,
                second: second@,
            },
            SchemaError::CyclicFlatten { schema } => SchemaErrorView::CyclicFlatten {
                schema: schema@,
            },
        }
    }
}

/// A failure of one merge or materialization. The caller may retry.
#[derive(Debug, PartialEq, Eq)]
pub enum MergeError {
    /// A required field is unset in the merged instance.
    MissingRequiredField { field: String },
    /// Two instances select different variants of the named subcommand
    /// field, and the caller asked for the same variant throughout.
    AmbiguousSubcommandSelection { field: String },
}

/// Mathematical value of a [`MergeError`].
pub ghost enum MergeErrorView {
    MissingRequiredField { field: Seq<char> },
    AmbiguousSubcommandSelection { field: Seq<char> },
}

impl View for MergeError {
    type V = MergeErrorView;

    open spec fn view(&self) -> MergeErrorView {
        match *self {
            MergeError::MissingRequiredField { field } => MergeErrorView::MissingRequiredField {
                field: field@,
            },
            MergeError::AmbiguousSubcommandSelection { field } =>
                MergeErrorView::AmbiguousSubcommandSelection { field: field@ },
        }
    }
}

} // verus!
