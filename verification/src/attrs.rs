//! Normalization of the raw metadata that a field carries.
//!
//! Each entry belongs to one of three namespaces. A namespace is scanned
//! on its own, and only the directives listed here are read; every other
//! entry is passed over. A directive that takes a value is read from the
//! first entry that gives it, in declaration order. A flag holds as soon as
//! one entry sets it, wherever that entry stands.

use vstd::prelude::*;

verus! {

/// The domain that a metadata entry speaks to.
#[derive(Clone, Copy, Debug, PartialEq, Eq, Structural)]
pub enum Namespace {
    /// How the field appears on the command line.
    Cli,
    /// How the field is named in a configuration file.
    Serialization,
    /// Directives of this library.
    Internal,
}

/// One raw metadata entry of a field: `key`, or `key = value`.
#[derive(Debug, PartialEq, Eq)]
pub struct RawEntry {
    pub namespace: Namespace,
    pub key: String,
    pub value: Option<String>,
}

/// What the recognized directives of a field say.
#[derive(Debug, PartialEq, Eq)]
pub struct FieldAttrs {
    /// `name = "..."` in the command-line namespace.
    pub structopt_name: Option<String>,
    /// `flatten` in the command-line namespace.
    pub structopt_flatten: bool,
    /// `subcommand` in the command-line namespace.
    pub subcommand: bool,
    /// `rename = "..."` in the serialization namespace.
    pub serde_name: Option<String>,
    /// `flatten` in the serialization namespace.
    pub serde_flatten: bool,
    /// `to_os_string = "..."` in the internal namespace.
    pub to_os_string: Option<String>,
}

/// Mathematical value of a [`FieldAttrs`].
pub ghost struct FieldAttrsView {
    pub structopt_name: Option<Seq<char>>,
    pub structopt_flatten: bool,
    pub subcommand: bool,
    pub serde_name: Option<Seq<char>>,
    pub serde_flatten: bool,
    pub to_os_string: Option<Seq<char>>,
}

/// The text of an optional string.
pub open spec fn text_of(s: Option<String>) -> Option<Seq<char>> {
    match s {
        Some(t) => Some(t@),
        None => None,
    }
}

impl View for FieldAttrs {
    type V = FieldAttrsView;

    open spec fn view(&self) -> FieldAttrsView {
        FieldAttrsView {
            structopt_name: text_of(self.structopt_name),
            structopt_flatten: self.structopt_flatten,
            subcommand: self.subcommand,
            serde_name: text_of(self.serde_name),
            serde_flatten: self.serde_flatten,
            to_os_string: text_of(self.to_os_string),
        }
    }
}

/// Whether `entry` gives a value to the directive `key` of `namespace`.
pub open spec fn gives_value(entry: RawEntry, namespace: Namespace, key: Seq<char>) -> bool {
    entry.namespace == namespace && entry.key@ == key && entry.value is Some
}

/// Whether `entry` sets the flag `key` of `namespace`.
pub open spec fn sets_flag(entry: RawEntry, namespace: Namespace, key: Seq<char>) -> bool {
    entry.namespace == namespace && entry.key@ == key && entry.value is None
}

/// The value of the first entry that gives one to the directive `key` of
/// `namespace`.
pub open spec fn first_value(entries: Seq<RawEntry>, namespace: Namespace, key: Seq<char>)
    -> Option<Seq<char>>
    decreases entries.len(),
{
    if entries.len() == 0 {
        None
    } else if gives_value(entries[0], namespace, key) {
        Some(entries[0].value->0@)
    } else {
        first_value(entries.drop_first(), namespace, key)
    }
}

/// Whether some entry sets the flag `key` of `namespace`.
pub open spec fn has_flag(entries: Seq<RawEntry>, namespace: Namespace, key: Seq<char>) -> bool {
    exists|i: int| 0 <= i < entries.len() && sets_flag(#[trigger] entries[i], namespace, key)
}

/// The normalized directives of a list of raw entries.
pub open spec fn normalized(entries: Seq<RawEntry>) -> FieldAttrsView {
    FieldAttrsView {
        structopt_name: first_value(entries, Namespace::Cli, "name"@),
        structopt_flatten: has_flag(entries, Namespace::Cli, "flatten"@),
        subcommand: has_flag(entries, Namespace::Cli, "subcommand"@),
        serde_name: first_value(entries, Namespace::Serialization, "rename"@),
        serde_flatten: has_flag(entries, Namespace::Serialization, "flatten"@),
        to_os_string: first_value(entries, Namespace::Internal, "to_os_string"@),
    }
}

fn same_namespace(a: Namespace, b: Namespace) -> (r: bool)
    ensures
        r == (a == b),
{
    a == b
}

fn find_value(entries: &Vec<RawEntry>, namespace: Namespace, key: &str) -> (r: Option<String>)
    ensures
        text_of(r) == first_value(entries@, namespace, key@),
{
    let wanted = key.to_owned();
    let mut i: usize = 0;
    assert(entries@.skip(0) =~= entries@);
    while i < entries.len()
        invariant
            i <= entries@.len(),
            wanted@ == key@,
            first_value(entries@, namespace, key@) == first_value(
                entries@.skip(i as int),
                namespace,
                key@,
            ),
        decreases entries@.len() - i,
    {
        let entry = &entries[i];
        proof {
            assert(entries@.skip(i as int)[0] == entries@[i as int]);
            assert(entries@.skip(i as int).drop_first() =~= entries@.skip(i + 1));
        }
        if same_namespace(entry.namespace, namespace) && entry.key == wanted {
            match &entry.value {
                Some(v) => {
                    return Some(v.clone());
                },
                None => {},
            }
        }
        i += 1;
    }
    None
}

fn find_flag(entries: &Vec<RawEntry>, namespace: Namespace, key: &str) -> (r: bool)
    ensures
        r == has_flag(entries@, namespace, key@),
{
    let wanted = key.to_owned();
    let mut i: usize = 0;
    while i < entries.len()
        invariant
            i <= entries@.len(),
            wanted@ == key@,
            forall|j: int| 0 <= j < i ==> !sets_flag(#[trigger] entries@[j], namespace, key@),
        decreases entries@.len() - i,
    {
        let entry = &entries[i];
        if same_namespace(entry.namespace, namespace) && entry.key == wanted
            && entry.value.is_none() {
            return true;
        }
        i += 1;
    }
    false
}

/// Reads the recognized directives out of the raw entries of one field.
pub fn normalize(entries: &Vec<RawEntry>) -> (r: FieldAttrs)
    ensures
        r@ == normalized(entries@),
{
    FieldAttrs {
        structopt_name: find_value(entries, Namespace::Cli, "name"),
        structopt_flatten: find_flag(entries, Namespace::Cli, "flatten"),
        subcommand: find_flag(entries, Namespace::Cli, "subcommand"),
        serde_name: find_value(entries, Namespace::Serialization, "rename"),
        serde_flatten: find_flag(entries, Namespace::Serialization, "flatten"),
        to_os_string: find_value(entries, Namespace::Internal, "to_os_string"),
    }
}

/// The token of the casing style that the entries name for `namespace`
/// with `rename_all = "..."`, if they name one.
pub open spec fn casing_token(entries: Seq<RawEntry>, namespace: Namespace) -> Option<Seq<char>> {
    first_value(entries, namespace, "rename_all"@)
}

/// The token of the casing style of a namespace where a schema names
/// none: kebab case on the command line, the identifier as it is
/// elsewhere.
pub open spec fn default_token(namespace: Namespace) -> Seq<char> {
    match namespace {
        Namespace::Cli => "kebab"@,
        Namespace::Serialization => "verbatim"@,
        Namespace::Internal => "verbatim"@,
    }
}

/// The token of the casing style that the metadata of a schema gives to
/// `namespace`.
pub open spec fn schema_token(entries: Seq<RawEntry>, namespace: Namespace) -> Seq<char> {
    match casing_token(entries, namespace) {
        Some(token) => token,
        None => default_token(namespace),
    }
}

/// Reads the casing-style token that the entries of a field name for
/// `namespace`: the value of the first `rename_all = "..."` there.
pub fn casing_override(entries: &Vec<RawEntry>, namespace: Namespace) -> (r: Option<String>)
    ensures
        text_of(r) == casing_token(entries@, namespace),
{
    find_value(entries, namespace, "rename_all")
}

/// Reads the casing-style token that the entries of a schema give to
/// `namespace`: the value of the first `rename_all = "..."` there, or the
/// namespace's default.
pub fn schema_casing(entries: &Vec<RawEntry>, namespace: Namespace) -> (r: String)
    ensures
        r@ == schema_token(entries@, namespace),
{
    match find_value(entries, namespace, "rename_all") {
        Some(token) => token,
        None => match namespace {
            Namespace::Cli => "kebab".to_owned(),
            Namespace::Serialization => "verbatim".to_owned(),
            Namespace::Internal => "verbatim".to_owned(),
        },
    }
}

/// Entries that no directive reads change nothing: the normalized
/// directives of a list with an entry appended are those of the list alone,
/// unless that entry gives a value or sets a flag that is recognized.
pub proof fn lemma_unrecognized_entry_is_ignored(entries: Seq<RawEntry>, extra: RawEntry)
    requires
        !gives_value(extra, Namespace::Cli, "name"@),
        !gives_value(extra, Namespace::Serialization, "rename"@),
        !gives_value(extra, Namespace::Internal, "to_os_string"@),
        !sets_flag(extra, Namespace::Cli, "flatten"@),
        !sets_flag(extra, Namespace::Cli, "subcommand"@),
        !sets_flag(extra, Namespace::Serialization, "flatten"@),
    ensures
        normalized(entries.push(extra)) == normalized(entries),
{
    lemma_first_value_push(entries, extra, Namespace::Cli, "name"@);
    lemma_first_value_push(entries, extra, Namespace::Serialization, "rename"@);
    lemma_first_value_push(entries, extra, Namespace::Internal, "to_os_string"@);
    lemma_has_flag_push(entries, extra, Namespace::Cli, "flatten"@);
    lemma_has_flag_push(entries, extra, Namespace::Cli, "subcommand"@);
    lemma_has_flag_push(entries, extra, Namespace::Serialization, "flatten"@);
}

/// The first occurrence wins: an entry appended after one that already
/// gives the directive a value does not change the value read.
pub proof fn lemma_first_value_push(
    entries: Seq<RawEntry>,
    extra: RawEntry,
    namespace: Namespace,
    key: Seq<char>,
)
    ensures
        first_value(entries, namespace, key) is Some ==> first_value(
            entries.push(extra),
            namespace,
            key,
        ) == first_value(entries, namespace, key),
        first_value(entries, namespace, key) is None ==> first_value(
            entries.push(extra),
            namespace,
            key,
        ) == (if gives_value(extra, namespace, key) {
            Some(extra.value->0@)
        } else {
            None
        }),
    decreases entries.len(),
{
    if entries.len() == 0 {
        assert(entries.push(extra).drop_first() =~= entries);
    } else {
        assert(entries.push(extra)[0] == entries[0]);
        assert(entries.push(extra).drop_first() =~= entries.drop_first().push(extra));
        if !gives_value(entries[0], namespace, key) {
            lemma_first_value_push(entries.drop_first(), extra, namespace, key);
        }
    }
}

/// A flag holds of a list with an entry appended exactly when it holds of
/// the list or the entry sets it.
pub proof fn lemma_has_flag_push(
    entries: Seq<RawEntry>,
    extra: RawEntry,
    namespace: Namespace,
    key: Seq<char>,
)
    ensures
        has_flag(entries.push(extra), namespace, key) == (has_flag(entries, namespace, key)
            || sets_flag(extra, namespace, key)),
{
    let longer = entries.push(extra);
    if has_flag(entries, namespace, key) {
        let i = choose|i: int|
            0 <= i < entries.len() && sets_flag(#[trigger] entries[i], namespace, key);
        assert(longer[i] == entries[i]);
    }
    if sets_flag(extra, namespace, key) {
        assert(longer[entries.len() as int] == extra);
    }
    if has_flag(longer, namespace, key) {
        let i = choose|i: int|
            0 <= i < longer.len() && sets_flag(#[trigger] longer[i], namespace, key);
        if i < entries.len() {
            assert(longer[i] == entries[i]);
        } else {
            assert(longer[i] == extra);
        }
    }
}

/// [`first_value`] reads the first entry that gives the directive a
/// value, and only that.
pub proof fn lemma_first_value(entries: Seq<RawEntry>, namespace: Namespace, key: Seq<char>)
    ensures
        match first_value(entries, namespace, key) {
            Some(value) => exists|i: int|
                0 <= i < entries.len() && gives_value(#[trigger] entries[i], namespace, key)
                    && entries[i].value->0@ == value && forall|j: int|
                    0 <= j < i ==> !gives_value(#[trigger] entries[j], namespace, key),
            None => forall|i: int|
                0 <= i < entries.len() ==> !gives_value(#[trigger] entries[i], namespace, key),
        },
    decreases entries.len(),
{
    if entries.len() > 0 {
        let rest = entries.drop_first();
        lemma_first_value(rest, namespace, key);
        if gives_value(entries[0], namespace, key) {
            assert(forall|j: int| 0 <= j < 0 ==> !gives_value(
                #[trigger] entries[j],
                namespace,
                key,
            ));
        } else {
            match first_value(rest, namespace, key) {
                Some(value) => {
                    let i = choose|i: int|
                        0 <= i < rest.len() && gives_value(#[trigger] rest[i], namespace, key)
                            && rest[i].value->0@ == value && forall|j: int|
                            0 <= j < i ==> !gives_value(#[trigger] rest[j], namespace, key);
                    assert(entries[i + 1] == rest[i]);
                    assert forall|j: int| 0 <= j < i + 1 implies !gives_value(
                        #[trigger] entries[j],
                        namespace,
                        key,
                    ) by {
                        if j > 0 {
                            assert(entries[j] == rest[j - 1]);
                        }
                    }
                },
                None => {
                    assert forall|i: int| 0 <= i < entries.len() implies !gives_value(
                        #[trigger] entries[i],
                        namespace,
                        key,
                    ) by {
                        if i > 0 {
                            assert(entries[i] == rest[i - 1]);
                        }
                    }
                },
            }
        }
    }
}

/// Whether at most one entry gives a value to the directive `key` of
/// `namespace`.
pub open spec fn given_once(entries: Seq<RawEntry>, namespace: Namespace, key: Seq<char>) -> bool {
    forall|i: int, j: int|
        0 <= i < entries.len() && 0 <= j < entries.len() && gives_value(
            #[trigger] entries[i],
            namespace,
            key,
        ) && gives_value(#[trigger] entries[j], namespace, key) ==> i == j
}

/// Lists that hold the same entries, each as often, have the same
/// members.
proof fn lemma_same_members(a: Seq<RawEntry>, b: Seq<RawEntry>, entry: RawEntry)
    requires
        a.to_multiset() == b.to_multiset(),
        a.contains(entry),
    ensures
        b.contains(entry),
{
    a.to_multiset_ensures();
    b.to_multiset_ensures();
    assert(a.to_multiset().count(entry) > 0);
    assert(b.to_multiset().count(entry) > 0);
}

/// The value of a directive that is given once does not depend on the
/// order of the entries.
pub proof fn lemma_value_given_once(
    a: Seq<RawEntry>,
    b: Seq<RawEntry>,
    namespace: Namespace,
    key: Seq<char>,
)
    requires
        a.to_multiset() == b.to_multiset(),
        given_once(a, namespace, key),
    ensures
        first_value(a, namespace, key) == first_value(b, namespace, key),
{
    lemma_first_value(a, namespace, key);
    lemma_first_value(b, namespace, key);
    match first_value(b, namespace, key) {
        Some(value) => {
            let j = choose|j: int|
                0 <= j < b.len() && gives_value(#[trigger] b[j], namespace, key) && b[j].value->0@
                    == value;
            assert(b.contains(b[j]));
            lemma_same_members(b, a, b[j]);
            let i = choose|i: int| 0 <= i < a.len() && a[i] == b[j];
            assert(gives_value(a[i], namespace, key));
            match first_value(a, namespace, key) {
                Some(other) => {
                    let k = choose|k: int|
                        0 <= k < a.len() && gives_value(#[trigger] a[k], namespace, key)
                            && a[k].value->0@ == other;
                    assert(k == i);
                },
                None => {},
            }
        },
        None => {
            match first_value(a, namespace, key) {
                Some(other) => {
                    let k = choose|k: int|
                        0 <= k < a.len() && gives_value(#[trigger] a[k], namespace, key)
                            && a[k].value->0@ == other;
                    assert(a.contains(a[k]));
                    lemma_same_members(a, b, a[k]);
                    let m = choose|m: int| 0 <= m < b.len() && b[m] == a[k];
                    assert(gives_value(b[m], namespace, key));
                },
                None => {},
            }
        },
    }
}

/// A flag does not depend on the order of the entries.
pub proof fn lemma_flag_in_any_order(
    a: Seq<RawEntry>,
    b: Seq<RawEntry>,
    namespace: Namespace,
    key: Seq<char>,
)
    requires
        a.to_multiset() == b.to_multiset(),
    ensures
        has_flag(a, namespace, key) == has_flag(b, namespace, key),
{
    if has_flag(a, namespace, key) {
        let i = choose|i: int| 0 <= i < a.len() && sets_flag(#[trigger] a[i], namespace, key);
        assert(a.contains(a[i]));
        lemma_same_members(a, b, a[i]);
        let j = choose|j: int| 0 <= j < b.len() && b[j] == a[i];
        assert(sets_flag(b[j], namespace, key));
    }
    if has_flag(b, namespace, key) {
        let i = choose|i: int| 0 <= i < b.len() && sets_flag(#[trigger] b[i], namespace, key);
        assert(b.contains(b[i]));
        lemma_same_members(b, a, b[i]);
        let j = choose|j: int| 0 <= j < a.len() && a[j] == b[i];
        assert(sets_flag(a[j], namespace, key));
    }
}

/// The normalized directives do not depend on the order of the entries,
/// as long as no directive is given a value twice: two lists that hold the
/// same entries, each as often, normalize to the same.
pub proof fn lemma_order_does_not_matter(a: Seq<RawEntry>, b: Seq<RawEntry>)
    requires
        a.to_multiset() == b.to_multiset(),
        given_once(a, Namespace::Cli, "name"@),
        given_once(a, Namespace::Serialization, "rename"@),
        given_once(a, Namespace::Internal, "to_os_string"@),
    ensures
        normalized(a) == normalized(b),
{
    lemma_value_given_once(a, b, Namespace::Cli, "name"@);
    lemma_value_given_once(a, b, Namespace::Serialization, "rename"@);
    lemma_value_given_once(a, b, Namespace::Internal, "to_os_string"@);
    lemma_flag_in_any_order(a, b, Namespace::Cli, "flatten"@);
    lemma_flag_in_any_order(a, b, Namespace::Cli, "subcommand"@);
    lemma_flag_in_any_order(a, b, Namespace::Serialization, "flatten"@);
}

} // verus!
