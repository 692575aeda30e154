//! Name tables: for each field of a level, the flag that names it on the
//! command line, and the key that names it in a configuration file.

use crate::partial::PartialField;
use crate::partial::PartialFieldView;
use vstd::prelude::*;
use vstd::string::StringExecFns;

verus! {

/// One line of a name table.
#[derive(Debug, PartialEq, Eq)]
pub struct NameEntry {
    /// The field's identifier.
    pub field: String,
    /// The name that the table gives to the field.
    pub name: String,
}

/// Mathematical value of a [`NameEntry`].
pub ghost struct NameEntryView {
    pub field: Seq<char>,
    pub name: Seq<char>,
}

impl DeepView for NameEntry {
    type V = NameEntryView;

    open spec fn deep_view(&self) -> NameEntryView {
        NameEntryView { field: self.field@, name: self.name@ }
    }
}

/// The long flag of a command-line name: the name after two hyphens.
pub open spec fn flag_of(name: Seq<char>) -> Seq<char> {
    "--"@ + name
}

/// The command-line name table of the level `fields`.
pub open spec fn cli_names(fields: Seq<PartialFieldView>) -> Seq<NameEntryView> {
    Seq::new(
        fields.len(),
        |i: int|
            NameEntryView {
                field: fields[i].descriptor.ident,
                name: flag_of(fields[i].descriptor.structopt_name),
            },
    )
}

/// The serialized name table of the level `fields`.
pub open spec fn serialized_names(fields: Seq<PartialFieldView>) -> Seq<NameEntryView> {
    Seq::new(
        fields.len(),
        |i: int|
            NameEntryView {
                field: fields[i].descriptor.ident,
                name: fields[i].descriptor.serde_name,
            },
    )
}

/// Builds the command-line name table of a level: each field, in order,
/// with its long flag.
pub fn cli_name_table(fields: &Vec<PartialField>) -> (r: Vec<NameEntry>)
    ensures
        r.deep_view() == cli_names(fields.deep_view()),
{
    let mut out: Vec<NameEntry> = Vec::new();
    let mut i: usize = 0;
    while i < fields.len()
        invariant
            i <= fields@.len(),
            out@.len() == i,
            forall|k: int|
                0 <= k < i ==> (#[trigger] out@[k]).deep_view() == cli_names(
                    fields.deep_view(),
                )[k],
        decreases fields@.len() - i,
    {
        assert(fields.deep_view()[i as int] == fields@[i as int].deep_view());
        let descriptor = &fields[i].descriptor;
        let entry = NameEntry {
            field: descriptor.ident().clone(),
            name: "--".to_owned().concat(descriptor.structopt_name()),
        };
        out.push(entry);
        i += 1;
    }
    assert(out.deep_view() =~= cli_names(fields.deep_view()));
    out
}

/// Builds the serialized name table of a level: each field, in order,
/// with its key.
pub fn serialized_name_table(fields: &Vec<PartialField>) -> (r: Vec<NameEntry>)
    ensures
        r.deep_view() == serialized_names(fields.deep_view()),
{
    let mut out: Vec<NameEntry> = Vec::new();
    let mut i: usize = 0;
    while i < fields.len()
        invariant
            i <= fields@.len(),
            out@.len() == i,
            forall|k: int|
                0 <= k < i ==> (#[trigger] out@[k]).deep_view() == serialized_names(
                    fields.deep_view(),
                )[k],
        decreases fields@.len() - i,
    {
        assert(fields.deep_view()[i as int] == fields@[i as int].deep_view());
        let descriptor = &fields[i].descriptor;
        let entry = NameEntry {
            field: descriptor.ident().clone(),
            name: descriptor.serde_name().to_owned(),
        };
        out.push(entry);
        i += 1;
    }
    assert(out.deep_view() =~= serialized_names(fields.deep_view()));
    out
}

} // verus!
