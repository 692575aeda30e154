//! Instances of an enum-shaped partial schema: at most one variant is
//! selected, with the partial instance of that variant's fields. They are
//! merged and materialized as the instances of a struct are.

use crate::error::MergeError;
use crate::error::MergeErrorView;
use crate::instance::conforms;
use crate::instance::Selection;
use crate::instance::SelectionView;
use crate::materialize::convert_slots;
use crate::materialize::converted;
use crate::materialize::find_missing;
use crate::materialize::missing;
use crate::merge::check_slots;
use crate::merge::conflict;
use crate::merge::lemma_merged_conforms;
use crate::merge::merge_slots;
use crate::merge::merged;
use crate::merge::reversed;
use crate::merge::SelectionPolicy;
use crate::partial::PartialBody;
use crate::partial::PartialVariantView;
use crate::registry::Registry;
use crate::registry::RegistryView;
use vstd::prelude::*;

verus! {

/// Whether the schema at `root` is registered with an enum-shaped
/// partial counterpart.
pub open spec fn is_enum_at(registry: RegistryView, root: int) -> bool {
    0 <= root < registry.schemas.len() && root < registry.partials.len()
        && registry.partials[root].body is Enum
}

/// The variants of the partial enum at `root`.
pub open spec fn variants_of(registry: RegistryView, root: int) -> Seq<PartialVariantView> {
    registry.partials[root].body->Enum_0
}

/// The mathematical value of an instance of a partial enum.
pub open spec fn selection_view<V>(selection: Option<Selection<V>>) -> Option<SelectionView<V>> {
    match selection {
        None => None,
        Some(chosen) => Some(
            SelectionView { variant: chosen.variant as int, fields: chosen.fields.deep_view() },
        ),
    }
}

/// The mathematical value of a list of instances of a partial enum.
pub open spec fn selections_view<V>(list: Vec<Option<Selection<V>>>) -> Seq<
    Option<SelectionView<V>>,
> {
    Seq::new(list@.len(), |i: int| selection_view(list@[i]))
}

/// Whether `selection` is an instance of the partial enum at `root`:
/// nothing is selected, or a variant of the enum is, with an instance of
/// that variant's fields.
pub open spec fn selection_conforms<V>(
    registry: RegistryView,
    root: int,
    selection: Option<SelectionView<V>>,
) -> bool {
    match selection {
        None => true,
        Some(chosen) => 0 <= chosen.variant < variants_of(registry, root).len() && conforms(
            registry.partials,
            variants_of(registry, root)[chosen.variant].fields,
            chosen.fields,
        ),
    }
}

/// What the later instance `b` leaves of the earlier instance `a`: a
/// later selection replaces a different earlier one; where both select the
/// same variant, the variant's fields are merged one by one; where `b`
/// selects nothing, `a` stays.
pub open spec fn merged_selection<V>(
    a: Option<SelectionView<V>>,
    b: Option<SelectionView<V>>,
) -> Option<SelectionView<V>> {
    match b {
        None => a,
        Some(later) => match a {
            None => b,
            Some(earlier) => if earlier.variant == later.variant {
                Some(
                    SelectionView {
                        variant: later.variant,
                        fields: merged(earlier.fields, later.fields),
                    },
                )
            } else {
                b
            },
        },
    }
}

/// Where `a` and `b` select different variants: the enum itself, named by
/// its type, or the first field below the common variant for which they do.
pub open spec fn selection_conflict<V>(
    registry: RegistryView,
    root: int,
    a: Option<SelectionView<V>>,
    b: Option<SelectionView<V>>,
) -> Option<Seq<char>> {
    match a {
        Some(earlier) => match b {
            Some(later) => if earlier.variant != later.variant {
                Some(registry.partials[root].full_name)
            } else {
                conflict(
                    registry.partials,
                    variants_of(registry, root)[earlier.variant].fields,
                    earlier.fields,
                    later.fields,
                    earlier.fields.len() as int,
                )
            },
            None => None,
        },
        None => None,
    }
}

/// The merge of an earlier and a later instance of the partial enum at
/// `root`.
pub open spec fn merge_selection_pair<V>(
    registry: RegistryView,
    root: int,
    a: Option<SelectionView<V>>,
    b: Option<SelectionView<V>>,
    policy: SelectionPolicy,
) -> Result<Option<SelectionView<V>>, MergeErrorView> {
    match selection_conflict(registry, root, a, b) {
        Some(name) => if policy == SelectionPolicy::SameVariantRequired {
            Err(MergeErrorView::AmbiguousSubcommandSelection { field: name })
        } else {
            Ok(merged_selection(a, b))
        },
        None => Ok(merged_selection(a, b)),
    }
}

/// The merge of the instances `list` of the partial enum at `root`,
/// lowest precedence first: the instance that selects nothing, merged with
/// each instance of the list in turn. The first failure ends the merge.
pub open spec fn merge_selections_all<V>(
    registry: RegistryView,
    root: int,
    list: Seq<Option<SelectionView<V>>>,
    policy: SelectionPolicy,
) -> Result<Option<SelectionView<V>>, MergeErrorView>
    decreases list.len(),
{
    if list.len() == 0 {
        Ok(None)
    } else {
        match merge_selections_all(registry, root, list.drop_last(), policy) {
            Err(e) => Err(e),
            Ok(so_far) => merge_selection_pair(registry, root, so_far, list.last(), policy),
        }
    }
}

/// What a full instance of the enum at `root` lacks in `selection`: the
/// enum itself, named by its type, where no variant is selected; else the
/// first required field of the selected variant that is unset.
pub open spec fn selection_missing<V>(
    registry: RegistryView,
    root: int,
    selection: Option<SelectionView<V>>,
) -> Option<Seq<char>> {
    match selection {
        None => Some(registry.partials[root].full_name),
        Some(chosen) => missing(
            registry.partials,
            variants_of(registry, root)[chosen.variant].fields,
            chosen.fields,
            chosen.fields.len() as int,
        ),
    }
}

/// Whether the selection `output` is the selection `input` after
/// conversion: the same variant, with the values of its fields converted.
pub open spec fn selection_converted<V, F: Fn(&String, V) -> V>(
    registry: RegistryView,
    root: int,
    input: SelectionView<V>,
    output: SelectionView<V>,
    convert: F,
) -> bool {
    output.variant == input.variant && converted(
        registry.partials,
        variants_of(registry, root)[input.variant].fields,
        input.fields,
        output.fields,
        convert,
    )
}

/// The merge of two instances of a partial enum is an instance of it.
pub proof fn lemma_merged_selection_conforms<V>(
    registry: RegistryView,
    root: int,
    a: Option<SelectionView<V>>,
    b: Option<SelectionView<V>>,
)
    requires
        selection_conforms(registry, root, a),
        selection_conforms(registry, root, b),
    ensures
        selection_conforms(registry, root, merged_selection(a, b)),
{
    match a {
        Some(earlier) => match b {
            Some(later) => {
                if earlier.variant == later.variant {
                    lemma_merged_conforms(
                        registry.partials,
                        variants_of(registry, root)[earlier.variant].fields,
                        earlier.fields,
                        later.fields,
                    );
                }
            },
            None => {},
        },
        None => {},
    }
}

/// Merging one instance of a partial enum gives that instance.
pub proof fn lemma_merge_of_one_selection<V>(
    registry: RegistryView,
    root: int,
    a: Option<SelectionView<V>>,
    policy: SelectionPolicy,
)
    ensures
        merge_selections_all(registry, root, seq![a], policy) == Ok::<
            Option<SelectionView<V>>,
            MergeErrorView,
        >(a),
{
    let list = seq![a];
    assert(list.drop_last() =~= Seq::<Option<SelectionView<V>>>::empty());
    assert(merge_selections_all(registry, root, list.drop_last(), policy) == Ok::<
        Option<SelectionView<V>>,
        MergeErrorView,
    >(None));
}

/// Merging a second instance that selects nothing gives the first
/// instance.
pub proof fn lemma_merge_with_no_selection<V>(
    registry: RegistryView,
    root: int,
    a: Option<SelectionView<V>>,
    policy: SelectionPolicy,
)
    ensures
        merge_selections_all(registry, root, seq![a, None], policy) == Ok::<
            Option<SelectionView<V>>,
            MergeErrorView,
        >(a),
{
    let list = seq![a, None::<SelectionView<V>>];
    assert(list.drop_last() =~= seq![a]);
    lemma_merge_of_one_selection(registry, root, a, policy);
}

/// Merging three instances of a partial enum is merging the third into
/// the merge of the first two; where the first two cannot be merged,
/// neither can the three.
pub proof fn lemma_merge_selections_in_steps<V>(
    registry: RegistryView,
    root: int,
    a: Option<SelectionView<V>>,
    b: Option<SelectionView<V>>,
    c: Option<SelectionView<V>>,
    policy: SelectionPolicy,
)
    ensures
        match merge_selections_all(registry, root, seq![a, b], policy) {
            Ok(ab) => merge_selections_all(registry, root, seq![a, b, c], policy)
                == merge_selections_all(registry, root, seq![ab, c], policy),
            Err(e) => merge_selections_all(registry, root, seq![a, b, c], policy) == Err::<
                Option<SelectionView<V>>,
                MergeErrorView,
            >(e),
        },
{
    let three = seq![a, b, c];
    assert(three.drop_last() =~= seq![a, b]);
    match merge_selections_all(registry, root, seq![a, b], policy) {
        Ok(ab) => {
            let two = seq![ab, c];
            assert(two.drop_last() =~= seq![ab]);
            lemma_merge_of_one_selection(registry, root, ab, policy);
        },
        Err(_) => {},
    }
}

/// A failure among the first `upto` instances is the failure of the whole
/// merge.
proof fn lemma_merge_selections_fails<V>(
    registry: RegistryView,
    root: int,
    list: Seq<Option<SelectionView<V>>>,
    upto: int,
    policy: SelectionPolicy,
)
    requires
        0 <= upto <= list.len(),
        merge_selections_all(registry, root, list.take(upto), policy) is Err,
    ensures
        merge_selections_all(registry, root, list, policy) == merge_selections_all(
            registry,
            root,
            list.take(upto),
            policy,
        ),
    decreases list.len() - upto,
{
    if upto == list.len() {
        assert(list.take(upto) =~= list);
    } else {
        let next = list.take(upto + 1);
        assert(next.drop_last() =~= list.take(upto));
        lemma_merge_selections_fails(registry, root, list, upto + 1, policy);
    }
}

/// Tests whether `selection` is an instance of the partial enum at
/// `root`.
pub fn is_selection<V>(registry: &Registry, root: usize, selection: &Option<Selection<V>>) -> (r:
    bool)
    ensures
        r == (is_enum_at(registry@, root as int) && selection_conforms(
            registry@,
            root as int,
            selection_view(*selection),
        )),
{
    if root >= registry.len() {
        return false;
    }
    match &registry.partial(root).body {
        PartialBody::Enum(variants) => match selection {
            None => true,
            Some(chosen) => {
                if chosen.variant >= variants.len() {
                    return false;
                }
                assert(variants.deep_view()[chosen.variant as int]
                    == variants@[chosen.variant as int].deep_view());
                check_slots(registry, &variants[chosen.variant].fields, &chosen.fields)
            },
        },
        PartialBody::Struct(_) => false,
    }
}

/// Merges the later instance `b` into the earlier instance `a` of the
/// partial enum at `root`.
fn merge_selection<V>(
    registry: &Registry,
    root: usize,
    a: Option<Selection<V>>,
    b: Option<Selection<V>>,
    policy: SelectionPolicy,
) -> (r: Result<Option<Selection<V>>, MergeError>)
    requires
        is_enum_at(registry@, root as int),
        selection_conforms(registry@, root as int, selection_view(a)),
        selection_conforms(registry@, root as int, selection_view(b)),
    ensures
        match merge_selection_pair(
            registry@,
            root as int,
            selection_view(a),
            selection_view(b),
            policy,
        ) {
            Ok(m) => r matches Ok(selection) && selection_view(selection) == m,
            Err(e) => r matches Err(x) && x@ == e,
        },
{
    match b {
        None => Ok(a),
        Some(later) => match a {
            None => Ok(Some(later)),
            Some(earlier) => {
                let partial = registry.partial(root);
                if earlier.variant != later.variant {
                    match policy {
                        SelectionPolicy::SameVariantRequired => Err(
                            MergeError::AmbiguousSubcommandSelection {
                                field: partial.full_name.clone(),
                            },
                        ),
                        SelectionPolicy::LaterReplaces => Ok(Some(later)),
                    }
                } else {
                    match &partial.body {
                        PartialBody::Enum(variants) => {
                            let variant = later.variant;
                            assert(variants.deep_view()[variant as int]
                                == variants@[variant as int].deep_view());
                            match merge_slots(
                                registry,
                                &variants[variant].fields,
                                earlier.fields,
                                later.fields,
                                policy,
                            ) {
                                Ok(fields) => Ok(Some(Selection { variant, fields })),
                                Err(e) => Err(e),
                            }
                        },
                        PartialBody::Struct(_) => Ok(Some(later)),
                    }
                }
            },
        },
    }
}

/// Merges instances of the partial enum at `root`, lowest precedence
/// first.
///
/// Each instance in turn is merged into what the instances before it
/// gave, starting from the instance that selects nothing. Where two
/// instances select different variants, at the top or below a common
/// variant, the later selection replaces the earlier one under
/// `LaterReplaces`, and the merge fails with `AmbiguousSubcommandSelection`
/// under `SameVariantRequired`; a conflict at the top names the enum's type.
pub fn merge_selections<V>(
    registry: &Registry,
    root: usize,
    selections: Vec<Option<Selection<V>>>,
    policy: SelectionPolicy,
) -> (r: Result<Option<Selection<V>>, MergeError>)
    requires
        is_enum_at(registry@, root as int),
        forall|i: int|
            0 <= i < selections@.len() ==> selection_conforms(
                registry@,
                root as int,
                selection_view(#[trigger] selections@[i]),
            ),
    ensures
        match merge_selections_all(registry@, root as int, selections_view(selections), policy) {
            Ok(m) => r matches Ok(selection) && selection_view(selection) == m,
            Err(e) => r matches Err(x) && x@ == e,
        },
{
    let ghost list = selections_view(selections);
    let ghost raw = selections@;
    let n = selections.len();
    let mut so_far: Option<Selection<V>> = None;
    let mut rest = reversed(selections);
    let mut i: usize = 0;
    assert(list.take(0) =~= Seq::<Option<SelectionView<V>>>::empty());
    while rest.len() > 0
        invariant
            is_enum_at(registry@, root as int),
            list == selections_view(selections),
            raw.len() == n,
            list.len() == n,
            forall|k: int| 0 <= k < n ==> list[k] == selection_view(#[trigger] raw[k]),
            forall|k: int|
                0 <= k < n ==> selection_conforms(registry@, root as int, #[trigger] list[k]),
            rest@.len() + i == n,
            forall|k: int| 0 <= k < rest@.len() ==> rest@[k] == raw[n - 1 - k],
            selection_conforms(registry@, root as int, selection_view(so_far)),
            merge_selections_all(registry@, root as int, list.take(i as int), policy) == Ok::<
                Option<SelectionView<V>>,
                MergeErrorView,
            >(selection_view(so_far)),
        decreases rest@.len(),
    {
        let next = match rest.pop() {
            Some(selection) => selection,
            None => {
                return Ok(so_far);
            },
        };
        let ghost before = selection_view(so_far);
        proof {
            assert(next == raw[i as int]);
            assert(selection_view(next) == list[i as int]);
            let longer = list.take(i + 1);
            assert(longer.drop_last() =~= list.take(i as int));
            assert(longer.last() == list[i as int]);
            assert(merge_selections_all(registry@, root as int, longer, policy)
                == merge_selection_pair(registry@, root as int, before, list[i as int], policy));
            lemma_merged_selection_conforms(registry@, root as int, before, list[i as int]);
        }
        match merge_selection(registry, root, so_far, next, policy) {
            Ok(selection) => {
                so_far = selection;
            },
            Err(e) => {
                proof {
                    lemma_merge_selections_fails(registry@, root as int, list, i + 1, policy);
                }
                return Err(e);
            },
        }
        i += 1;
    }
    assert(list.take(i as int) =~= list);
    Ok(so_far)
}

/// Materializes a merged instance of the partial enum at `root`.
///
/// Fails with `MissingRequiredField`: naming the enum's type where no
/// variant is selected, else naming the first required field of the
/// selected variant that is unset. Where nothing is missing, `convert` is
/// called once for each value whose field has a conversion expression;
/// before that it is not called.
pub fn materialize_selection<V, F: Fn(&String, V) -> V>(
    registry: &Registry,
    root: usize,
    selection: Option<Selection<V>>,
    convert: F,
) -> (r: Result<Selection<V>, MergeError>)
    requires
        is_enum_at(registry@, root as int),
        selection_conforms(registry@, root as int, selection_view(selection)),
        forall|expr: String, raw: V| call_requires(convert, (&expr, raw)),
    ensures
        match selection_missing(registry@, root as int, selection_view(selection)) {
            Some(name) => r matches Err(e) && e@ == (MergeErrorView::MissingRequiredField {
                field: name,
            }),
            None => r matches Ok(full) && selection_converted(
                registry@,
                root as int,
                selection_view(selection)->0,
                selection_view(Some(full))->0,
                convert,
            ),
        },
{
    let partial = registry.partial(root);
    match selection {
        None => Err(MergeError::MissingRequiredField { field: partial.full_name.clone() }),
        Some(chosen) => match &partial.body {
            PartialBody::Enum(variants) => {
                let variant = chosen.variant;
                assert(variants.deep_view()[variant as int]
                    == variants@[variant as int].deep_view());
                match find_missing(registry, &variants[variant].fields, &chosen.fields) {
                    Some(name) => Err(MergeError::MissingRequiredField { field: name }),
                    None => {
                        let fields = convert_slots(
                            registry,
                            &variants[variant].fields,
                            chosen.fields,
                            &convert,
                        );
                        Ok(Selection { variant, fields })
                    },
                }
            },
            PartialBody::Struct(_) => Ok(chosen),
        },
    }
}

/// Resolves instances of the partial enum at `root`, lowest precedence
/// first: merges them and materializes the merged instance. A failure of
/// the merge comes before a missing field.
pub fn resolve_selection<V, F: Fn(&String, V) -> V>(
    registry: &Registry,
    root: usize,
    selections: Vec<Option<Selection<V>>>,
    policy: SelectionPolicy,
    convert: F,
) -> (r: Result<Selection<V>, MergeError>)
    requires
        is_enum_at(registry@, root as int),
        forall|i: int|
            0 <= i < selections@.len() ==> selection_conforms(
                registry@,
                root as int,
                selection_view(#[trigger] selections@[i]),
            ),
        forall|expr: String, raw: V| call_requires(convert, (&expr, raw)),
    ensures
        match merge_selections_all(registry@, root as int, selections_view(selections), policy) {
            Err(e) => r matches Err(x) && x@ == e,
            Ok(m) => match selection_missing(registry@, root as int, m) {
                Some(name) => r matches Err(x) && x@ == (MergeErrorView::MissingRequiredField {
                    field: name,
                }),
                None => r matches Ok(full) && selection_converted(
                    registry@,
                    root as int,
                    m->0,
                    selection_view(Some(full))->0,
                    convert,
                ),
            },
        },
{
    proof {
        assert forall|i: int| 0 <= i < selections@.len() implies selection_conforms(
            registry@,
            root as int,
            #[trigger] selections_view(selections)[i],
        ) by {}
        lemma_merge_selections_conform(
            registry@,
            root as int,
            selections_view(selections),
            policy,
        );
    }
    let merged = match merge_selections(registry, root, selections, policy) {
        Ok(merged) => merged,
        Err(e) => {
            return Err(e);
        },
    };
    materialize_selection(registry, root, merged, convert)
}

/// The merge of instances of a partial enum, where it succeeds, is an
/// instance of it; and it succeeds where the later selection replaces.
pub proof fn lemma_merge_selections_conform<V>(
    registry: RegistryView,
    root: int,
    list: Seq<Option<SelectionView<V>>>,
    policy: SelectionPolicy,
)
    requires
        forall|i: int| 0 <= i < list.len() ==> selection_conforms(registry, root, #[trigger] list[i]),
    ensures
        merge_selections_all(registry, root, list, policy) matches Ok(m) ==> selection_conforms(
            registry,
            root,
            m,
        ),
        policy == SelectionPolicy::LaterReplaces ==> merge_selections_all(
            registry,
            root,
            list,
            policy,
        ) is Ok,
    decreases list.len(),
{
    if list.len() > 0 {
        assert forall|i: int| 0 <= i < list.drop_last().len() implies selection_conforms(
            registry,
            root,
            #[trigger] list.drop_last()[i],
        ) by {
            assert(list.drop_last()[i] == list[i]);
        }
        lemma_merge_selections_conform(registry, root, list.drop_last(), policy);
        match merge_selections_all(registry, root, list.drop_last(), policy) {
            Ok(so_far) => {
                lemma_merged_selection_conforms(registry, root, so_far, list.last());
            },
            Err(_) => {},
        }
    }
}

} // verus!
