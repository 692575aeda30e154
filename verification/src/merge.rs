//! Precedence merge: an ordered list of partial instances, lowest
//! precedence first, becomes one instance. A value that is set replaces
//! what was there; a value that is unset replaces nothing.

use crate::error::MergeError;
use crate::error::MergeErrorView;
use crate::instance::all_set;
use crate::instance::all_unset;
use crate::instance::conforms;
use crate::instance::slot_conforms;
use crate::instance::slot_set;
use crate::instance::unset;
use crate::instance::unset_slot;
use crate::instance::SelectionView;
use crate::instance::SlotView;
use crate::instance::lemma_selection_view;
use crate::instance::PartialInstance;
use crate::instance::Selection;
use crate::instance::Slot;
use crate::partial::PartialBody;
use crate::partial::PartialField;
use crate::partial::PartialFieldView;
use crate::partial::PartialSchemaView;
use crate::registry::Registry;
use crate::registry::RegistryView;
use vstd::prelude::*;

verus! {

/// What two instances do where they select different variants of one
/// subcommand field.
#[derive(Clone, Copy, Debug, PartialEq, Eq, Structural)]
pub enum SelectionPolicy {
    /// The later selection replaces the earlier one with all its fields.
    LaterReplaces,
    /// The merge fails with `AmbiguousSubcommandSelection`.
    SameVariantRequired,
}

/// The slot that the later slot `b` leaves of the earlier slot `a`.
///
/// A leaf of `b` that is set replaces the leaf of `a`. A selection of `b`
/// replaces a different selection of `a`; where both select the same
/// variant, the variant's fields are merged one by one.
pub open spec fn merged_slot<V>(a: SlotView<V>, b: SlotView<V>) -> SlotView<V>
    decreases a, 0int,
{
    match a {
        SlotView::Leaf(x) => match b {
            SlotView::Leaf(y) => if y is Some {
                b
            } else {
                a
            },
            SlotView::Choice(_) => b,
        },
        SlotView::Choice(x) => match b {
            SlotView::Leaf(_) => b,
            SlotView::Choice(y) => match y {
                None => a,
                Some(later) => match x {
                    None => b,
                    Some(earlier) => if earlier.variant == later.variant {
                        SlotView::Choice(
                            Some(
                                SelectionView {
                                    variant: later.variant,
                                    fields: merged(earlier.fields, later.fields),
                                },
                            ),
                        )
                    } else {
                        b
                    },
                },
            },
        },
    }
}

/// The instance that the later instance `b` leaves of the earlier
/// instance `a`: slot by slot.
pub open spec fn merged<V>(a: Seq<SlotView<V>>, b: Seq<SlotView<V>>) -> Seq<SlotView<V>>
    decreases a, 1int,
{
    Seq::new(
        a.len(),
        |i: int|
            if 0 <= i < a.len() && i < b.len() {
                merged_slot(a[i], b[i])
            } else {
                a[i]
            },
    )
}

/// The first field, among the first `upto` fields of the level and
/// the fields below them, for which `a` and `b` select different
/// variants.
pub open spec fn conflict<V>(
    partials: Seq<PartialSchemaView>,
    fields: Seq<PartialFieldView>,
    a: Seq<SlotView<V>>,
    b: Seq<SlotView<V>>,
    upto: int,
) -> Option<Seq<char>>
    decreases a, 1int, upto,
{
    if upto <= 0 || upto > a.len() {
        None
    } else {
        match conflict(partials, fields, a, b, upto - 1) {
            Some(name) => Some(name),
            None => slot_conflict(partials, fields[upto - 1], a[upto - 1], b[upto - 1]),
        }
    }
}

/// The field for which the slots `a` and `b` select different variants:
/// `field` itself, or the first such field below it.
pub open spec fn slot_conflict<V>(
    partials: Seq<PartialSchemaView>,
    field: PartialFieldView,
    a: SlotView<V>,
    b: SlotView<V>,
) -> Option<Seq<char>>
    decreases a, 0int, 0int,
{
    match a {
        SlotView::Choice(Some(earlier)) => match b {
            SlotView::Choice(Some(later)) => if earlier.variant != later.variant {
                Some(field.descriptor.ident)
            } else {
                match field.choice {
                    Some(j) => conflict(
                        partials,
                        partials[j].body->Enum_0[earlier.variant].fields,
                        earlier.fields,
                        later.fields,
                        earlier.fields.len() as int,
                    ),
                    None => None,
                }
            },
            _ => None,
        },
        _ => None,
    }
}

/// The merge of an earlier and a later instance of the level `fields`.
pub open spec fn merge_pair<V>(
    partials: Seq<PartialSchemaView>,
    fields: Seq<PartialFieldView>,
    a: Seq<SlotView<V>>,
    b: Seq<SlotView<V>>,
    policy: SelectionPolicy,
) -> Result<Seq<SlotView<V>>, MergeErrorView> {
    match conflict(partials, fields, a, b, a.len() as int) {
        Some(name) => if policy == SelectionPolicy::SameVariantRequired {
            Err(MergeErrorView::AmbiguousSubcommandSelection { field: name })
        } else {
            Ok(merged(a, b))
        },
        None => Ok(merged(a, b)),
    }
}

/// The merge of the instances `list` of the level `fields`, lowest
/// precedence first: the instance in which nothing is set, merged with
/// each instance of the list in turn. The first failure ends the merge.
pub open spec fn merge_all<V>(
    partials: Seq<PartialSchemaView>,
    fields: Seq<PartialFieldView>,
    list: Seq<Seq<SlotView<V>>>,
    policy: SelectionPolicy,
) -> Result<Seq<SlotView<V>>, MergeErrorView>
    decreases list.len(),
{
    if list.len() == 0 {
        Ok(unset(fields))
    } else {
        match merge_all(partials, fields, list.drop_last(), policy) {
            Err(e) => Err(e),
            Ok(so_far) => merge_pair(partials, fields, so_far, list.last(), policy),
        }
    }
}

/// Merging an instance into one in which nothing is set gives the
/// instance, and meets no conflict.
pub proof fn lemma_unset_is_left_identity<V>(
    partials: Seq<PartialSchemaView>,
    fields: Seq<PartialFieldView>,
    a: Seq<SlotView<V>>,
    policy: SelectionPolicy,
)
    requires
        conforms(partials, fields, a),
    ensures
        merge_pair(partials, fields, unset(fields), a, policy) == Ok::<
            Seq<SlotView<V>>,
            MergeErrorView,
        >(a),
{
    let e = unset::<V>(fields);
    assert(merged(e, a) =~= a);
    lemma_no_conflict_after_unset(partials, fields, e, a, e.len() as int);
}

/// An instance in which nothing is set conflicts with no instance.
pub proof fn lemma_no_conflict_after_unset<V>(
    partials: Seq<PartialSchemaView>,
    fields: Seq<PartialFieldView>,
    a: Seq<SlotView<V>>,
    b: Seq<SlotView<V>>,
    upto: int,
)
    requires
        all_unset(a),
    ensures
        conflict(partials, fields, a, b, upto) is None,
    decreases upto,
{
    if 0 < upto <= a.len() {
        lemma_no_conflict_after_unset(partials, fields, a, b, upto - 1);
        assert(a[upto - 1] == SlotView::<V>::Leaf(None) || a[upto - 1] == SlotView::<V>::Choice(
            None,
        ));
        assert(slot_conflict(partials, fields[upto - 1], a[upto - 1], b[upto - 1]) is None);
    }
}

/// No instance conflicts with a later one in which nothing is set.
pub proof fn lemma_no_conflict_before_unset<V>(
    partials: Seq<PartialSchemaView>,
    fields: Seq<PartialFieldView>,
    a: Seq<SlotView<V>>,
    b: Seq<SlotView<V>>,
    upto: int,
)
    requires
        all_unset(b),
        a.len() == b.len(),
    ensures
        conflict(partials, fields, a, b, upto) is None,
    decreases upto,
{
    if 0 < upto <= a.len() {
        lemma_no_conflict_before_unset(partials, fields, a, b, upto - 1);
        assert(b[upto - 1] == SlotView::<V>::Leaf(None) || b[upto - 1] == SlotView::<V>::Choice(
            None,
        ));
        assert(slot_conflict(partials, fields[upto - 1], a[upto - 1], b[upto - 1]) is None);
    }
}

/// Whether two instances have the same shape: as many slots, leaf for
/// leaf and choice for choice, and the same shape below wherever both
/// select the same variant.
pub open spec fn same_shape<V>(a: Seq<SlotView<V>>, b: Seq<SlotView<V>>) -> bool
    decreases a, 1int,
{
    &&& a.len() == b.len()
    &&& forall|i: int| 0 <= i < a.len() ==> slot_same_shape(#[trigger] a[i], b[i])
}

/// Whether two slots have the same shape.
pub open spec fn slot_same_shape<V>(a: SlotView<V>, b: SlotView<V>) -> bool
    decreases a, 0int,
{
    match a {
        SlotView::Leaf(_) => b is Leaf,
        SlotView::Choice(x) => match b {
            SlotView::Leaf(_) => false,
            SlotView::Choice(y) => match x {
                Some(earlier) => match y {
                    Some(later) => earlier.variant == later.variant ==> same_shape(
                        earlier.fields,
                        later.fields,
                    ),
                    None => true,
                },
                None => true,
            },
        },
    }
}

/// Two instances of one level have the same shape.
pub proof fn lemma_conforming_same_shape<V>(
    partials: Seq<PartialSchemaView>,
    fields: Seq<PartialFieldView>,
    a: Seq<SlotView<V>>,
    b: Seq<SlotView<V>>,
)
    requires
        conforms(partials, fields, a),
        conforms(partials, fields, b),
    ensures
        same_shape(a, b),
    decreases a,
{
    assert forall|i: int| 0 <= i < a.len() implies slot_same_shape(#[trigger] a[i], b[i]) by {
        assert(slot_conforms(partials, fields[i], a[i]));
        assert(slot_conforms(partials, fields[i], b[i]));
        match a[i] {
            SlotView::Choice(Some(earlier)) => match b[i] {
                SlotView::Choice(Some(later)) => {
                    if earlier.variant == later.variant {
                        let j = fields[i].choice->0;
                        lemma_conforming_same_shape(
                            partials,
                            partials[j].body->Enum_0[earlier.variant].fields,
                            earlier.fields,
                            later.fields,
                        );
                    }
                },
                _ => {},
            },
            _ => {},
        }
    }
}

/// Merging a later instance in which everything is set gives that
/// instance.
pub proof fn lemma_merged_with_all_set<V>(a: Seq<SlotView<V>>, b: Seq<SlotView<V>>)
    requires
        same_shape(a, b),
        all_set(b),
    ensures
        merged(a, b) == b,
    decreases a,
{
    assert forall|i: int| 0 <= i < a.len() implies merged_slot(a[i], b[i]) == b[i] by {
        assert(slot_set(b[i]));
        match a[i] {
            SlotView::Choice(Some(earlier)) => match b[i] {
                SlotView::Choice(Some(later)) => {
                    assert(all_set(later.fields));
                    if earlier.variant == later.variant {
                        lemma_merged_with_all_set(earlier.fields, later.fields);
                    }
                },
                _ => {},
            },
            _ => {},
        }
    }
    assert(merged(a, b) =~= b);
}

/// Merging a later instance in which nothing is set gives the earlier
/// instance.
pub proof fn lemma_merged_with_unset<V>(a: Seq<SlotView<V>>, b: Seq<SlotView<V>>)
    requires
        same_shape(a, b),
        all_unset(b),
    ensures
        merged(a, b) == a,
{
    assert forall|i: int| 0 <= i < a.len() implies merged_slot(a[i], b[i]) == a[i] by {
        assert(slot_same_shape(a[i], b[i]));
        assert(b[i] == SlotView::<V>::Leaf(None) || b[i] == SlotView::<V>::Choice(None));
    }
    assert(merged(a, b) =~= a);
}

/// The merge of two instances of a level is an instance of the level.
pub proof fn lemma_merged_conforms<V>(
    partials: Seq<PartialSchemaView>,
    fields: Seq<PartialFieldView>,
    a: Seq<SlotView<V>>,
    b: Seq<SlotView<V>>,
)
    requires
        conforms(partials, fields, a),
        conforms(partials, fields, b),
    ensures
        conforms(partials, fields, merged(a, b)),
    decreases a,
{
    let m = merged(a, b);
    assert forall|i: int| 0 <= i < m.len() implies slot_conforms(
        partials,
        fields[i],
        #[trigger] m[i],
    ) by {
        assert(slot_conforms(partials, fields[i], a[i]));
        assert(slot_conforms(partials, fields[i], b[i]));
        assert(m[i] == merged_slot(a[i], b[i]));
        match a[i] {
            SlotView::Choice(Some(earlier)) => match b[i] {
                SlotView::Choice(Some(later)) => {
                    if earlier.variant == later.variant {
                        let j = fields[i].choice->0;
                        lemma_merged_conforms(
                            partials,
                            partials[j].body->Enum_0[earlier.variant].fields,
                            earlier.fields,
                            later.fields,
                        );
                    }
                },
                _ => {},
            },
            _ => {},
        }
    }
}

/// The instance in which nothing is set is an instance of its level.
pub proof fn lemma_unset_conforms<V>(
    partials: Seq<PartialSchemaView>,
    fields: Seq<PartialFieldView>,
)
    ensures
        conforms(partials, fields, unset::<V>(fields)),
        all_unset(unset::<V>(fields)),
{
    let e = unset::<V>(fields);
    assert forall|i: int| 0 <= i < e.len() implies slot_conforms(
        partials,
        fields[i],
        #[trigger] e[i],
    ) by {}
}

/// Merging one instance gives that instance.
pub proof fn lemma_merge_of_one<V>(
    partials: Seq<PartialSchemaView>,
    fields: Seq<PartialFieldView>,
    a: Seq<SlotView<V>>,
    policy: SelectionPolicy,
)
    requires
        conforms(partials, fields, a),
    ensures
        merge_all(partials, fields, seq![a], policy) == Ok::<Seq<SlotView<V>>, MergeErrorView>(a),
{
    let list = seq![a];
    assert(list.drop_last() =~= Seq::<Seq<SlotView<V>>>::empty());
    assert(merge_all(partials, fields, list.drop_last(), policy) == Ok::<
        Seq<SlotView<V>>,
        MergeErrorView,
    >(unset(fields)));
    lemma_unset_is_left_identity(partials, fields, a, policy);
}

/// Merging two instances is merging the second into the first.
pub proof fn lemma_merge_of_two<V>(
    partials: Seq<PartialSchemaView>,
    fields: Seq<PartialFieldView>,
    a: Seq<SlotView<V>>,
    b: Seq<SlotView<V>>,
    policy: SelectionPolicy,
)
    requires
        conforms(partials, fields, a),
    ensures
        merge_all(partials, fields, seq![a, b], policy) == merge_pair(
            partials,
            fields,
            a,
            b,
            policy,
        ),
{
    let list = seq![a, b];
    assert(list.drop_last() =~= seq![a]);
    lemma_merge_of_one(partials, fields, a, policy);
}

/// Merging a second instance in which nothing is set gives the first
/// instance.
pub proof fn lemma_merge_with_unset<V>(
    partials: Seq<PartialSchemaView>,
    fields: Seq<PartialFieldView>,
    a: Seq<SlotView<V>>,
    b: Seq<SlotView<V>>,
    policy: SelectionPolicy,
)
    requires
        conforms(partials, fields, a),
        conforms(partials, fields, b),
        all_unset(b),
    ensures
        merge_all(partials, fields, seq![a, b], policy) == Ok::<Seq<SlotView<V>>, MergeErrorView>(
            a,
        ),
{
    lemma_merge_of_two(partials, fields, a, b, policy);
    lemma_conforming_same_shape(partials, fields, a, b);
    lemma_merged_with_unset(a, b);
    lemma_no_conflict_before_unset(partials, fields, a, b, a.len() as int);
}

/// Merging a second instance in which everything is set gives that
/// second instance, unless the two conflict where the same variant is
/// required.
pub proof fn lemma_merge_with_all_set<V>(
    partials: Seq<PartialSchemaView>,
    fields: Seq<PartialFieldView>,
    a: Seq<SlotView<V>>,
    b: Seq<SlotView<V>>,
    policy: SelectionPolicy,
)
    requires
        conforms(partials, fields, a),
        conforms(partials, fields, b),
        all_set(b),
        policy == SelectionPolicy::LaterReplaces || conflict(
            partials,
            fields,
            a,
            b,
            a.len() as int,
        ) is None,
    ensures
        merge_all(partials, fields, seq![a, b], policy) == Ok::<Seq<SlotView<V>>, MergeErrorView>(
            b,
        ),
{
    lemma_merge_of_two(partials, fields, a, b, policy);
    lemma_conforming_same_shape(partials, fields, a, b);
    lemma_merged_with_all_set(a, b);
}

/// Merging three instances is merging the third into the merge of the
/// first two; where the first two cannot be merged, neither can the three.
pub proof fn lemma_merge_in_steps<V>(
    partials: Seq<PartialSchemaView>,
    fields: Seq<PartialFieldView>,
    a: Seq<SlotView<V>>,
    b: Seq<SlotView<V>>,
    c: Seq<SlotView<V>>,
    policy: SelectionPolicy,
)
    requires
        conforms(partials, fields, a),
        conforms(partials, fields, b),
        conforms(partials, fields, c),
    ensures
        match merge_all(partials, fields, seq![a, b], policy) {
            Ok(ab) => merge_all(partials, fields, seq![a, b, c], policy) == merge_all(
                partials,
                fields,
                seq![ab, c],
                policy,
            ),
            Err(e) => merge_all(partials, fields, seq![a, b, c], policy) == Err::<
                Seq<SlotView<V>>,
                MergeErrorView,
            >(e),
        },
{
    let three = seq![a, b, c];
    assert(three.drop_last() =~= seq![a, b]);
    lemma_merge_of_two(partials, fields, a, b, policy);
    match merge_all(partials, fields, seq![a, b], policy) {
        Ok(ab) => {
            lemma_merged_conforms(partials, fields, a, b);
            lemma_merge_of_two(partials, fields, ab, c, policy);
        },
        Err(_) => {},
    }
}

/// The merge of instances of a level, where it succeeds, is an instance
/// of the level.
pub proof fn lemma_merge_all_conforms<V>(
    partials: Seq<PartialSchemaView>,
    fields: Seq<PartialFieldView>,
    list: Seq<Seq<SlotView<V>>>,
    policy: SelectionPolicy,
)
    requires
        forall|i: int| 0 <= i < list.len() ==> conforms(partials, fields, #[trigger] list[i]),
    ensures
        merge_all(partials, fields, list, policy) matches Ok(m) ==> conforms(partials, fields, m),
        policy == SelectionPolicy::LaterReplaces ==> merge_all(partials, fields, list, policy) is Ok,
    decreases list.len(),
{
    if list.len() == 0 {
        lemma_unset_conforms::<V>(partials, fields);
    } else {
        assert forall|i: int| 0 <= i < list.drop_last().len() implies conforms(
            partials,
            fields,
            #[trigger] list.drop_last()[i],
        ) by {
            assert(list.drop_last()[i] == list[i]);
        }
        lemma_merge_all_conforms(partials, fields, list.drop_last(), policy);
        match merge_all(partials, fields, list.drop_last(), policy) {
            Ok(so_far) => {
                lemma_merged_conforms(partials, fields, so_far, list.last());
            },
            Err(_) => {},
        }
    }
}

/// The merge of an earlier and a later slot of the field `field`.
pub open spec fn merge_slot_pair<V>(
    partials: Seq<PartialSchemaView>,
    field: PartialFieldView,
    a: SlotView<V>,
    b: SlotView<V>,
    policy: SelectionPolicy,
) -> Result<SlotView<V>, MergeErrorView> {
    match slot_conflict(partials, field, a, b) {
        Some(name) => if policy == SelectionPolicy::SameVariantRequired {
            Err(MergeErrorView::AmbiguousSubcommandSelection { field: name })
        } else {
            Ok(merged_slot(a, b))
        },
        None => Ok(merged_slot(a, b)),
    }
}

/// A conflict found among the first fields stays the first conflict when
/// more fields are looked at.
proof fn lemma_conflict_stays<V>(
    partials: Seq<PartialSchemaView>,
    fields: Seq<PartialFieldView>,
    a: Seq<SlotView<V>>,
    b: Seq<SlotView<V>>,
    upto: int,
    more: int,
)
    requires
        upto <= more <= a.len(),
        conflict(partials, fields, a, b, upto) is Some,
    ensures
        conflict(partials, fields, a, b, more) == conflict(partials, fields, a, b, upto),
    decreases more - upto,
{
    if upto < more {
        lemma_conflict_stays(partials, fields, a, b, upto, more - 1);
    }
}

/// Turns a list around.
pub(crate) fn reversed<T>(list: Vec<T>) -> (r: Vec<T>)
    ensures
        r@.len() == list@.len(),
        forall|i: int| 0 <= i < r@.len() ==> r@[i] == list@[list@.len() - 1 - i],
{
    let ghost given = list@;
    let mut rest = list;
    let mut out: Vec<T> = Vec::new();
    while rest.len() > 0
        invariant
            rest@.len() + out@.len() == given.len(),
            forall|i: int| 0 <= i < rest@.len() ==> rest@[i] == given[i],
            forall|i: int| 0 <= i < out@.len() ==> out@[i] == given[given.len() - 1 - i],
        decreases rest@.len(),
    {
        match rest.pop() {
            Some(item) => {
                out.push(item);
            },
            None => {},
        }
    }
    out
}

/// Merges the later slot `b` into the earlier slot `a` of the field
/// `field`.
fn merge_slot<V>(
    registry: &Registry,
    field: &PartialField,
    a: Slot<V>,
    b: Slot<V>,
    policy: SelectionPolicy,
) -> (r: Result<Slot<V>, MergeError>)
    requires
        slot_conforms(registry@.partials, field.deep_view(), a.deep_view()),
        slot_conforms(registry@.partials, field.deep_view(), b.deep_view()),
    ensures
        match merge_slot_pair(
            registry@.partials,
            field.deep_view(),
            a.deep_view(),
            b.deep_view(),
            policy,
        ) {
            Ok(m) => r matches Ok(slot) && slot.deep_view() == m,
            Err(e) => r matches Err(x) && x@ == e,
        },
    decreases a.deep_view(), 0int,
{
    match a {
        Slot::Leaf(x) => match b {
            Slot::Leaf(y) => if y.is_some() {
                Ok(Slot::Leaf(y))
            } else {
                Ok(Slot::Leaf(x))
            },
            Slot::Choice(y) => Ok(Slot::Choice(y)),
        },
        Slot::Choice(x) => match b {
            Slot::Leaf(y) => Ok(Slot::Leaf(y)),
            Slot::Choice(y) => match y {
                None => Ok(Slot::Choice(x)),
                Some(later) => match x {
                    None => Ok(Slot::Choice(Some(later))),
                    Some(earlier) => {
                        proof {
                            lemma_selection_view(earlier);
                            lemma_selection_view(later);
                        }
                        if earlier.variant != later.variant {
                            match policy {
                                SelectionPolicy::SameVariantRequired => Err(
                                    MergeError::AmbiguousSubcommandSelection {
                                        field: field.descriptor.ident().clone(),
                                    },
                                ),
                                SelectionPolicy::LaterReplaces => Ok(Slot::Choice(Some(later))),
                            }
                        } else {
                            let n = registry.len();
                            match field.choice {
                                Some(j) => match &registry.partial(j).body {
                                    PartialBody::Enum(variants) => {
                                        let variant = later.variant;
                                        assert(variants.deep_view()[variant as int]
                                            == variants@[variant as int].deep_view());
                                        match merge_slots(
                                            registry,
                                            &variants[variant].fields,
                                            earlier.fields,
                                            later.fields,
                                            policy,
                                        ) {
                                            Ok(fields) => {
                                                let selection = Selection { variant, fields };
                                                proof {
                                                    lemma_selection_view(selection);
                                                }
                                                Ok(Slot::Choice(Some(selection)))
                                            },
                                            Err(e) => Err(e),
                                        }
                                    },
                                    PartialBody::Struct(_) => Ok(Slot::Choice(Some(later))),
                                },
                                None => Ok(Slot::Choice(Some(later))),
                            }
                        }
                    },
                },
            },
        },
    }
}

/// Merges the later slots `b` into the earlier slots `a` of the level
/// `fields`.
pub(crate) fn merge_slots<V>(
    registry: &Registry,
    fields: &Vec<PartialField>,
    a: Vec<Slot<V>>,
    b: Vec<Slot<V>>,
    policy: SelectionPolicy,
) -> (r: Result<Vec<Slot<V>>, MergeError>)
    requires
        conforms(registry@.partials, fields.deep_view(), a.deep_view()),
        conforms(registry@.partials, fields.deep_view(), b.deep_view()),
    ensures
        match merge_pair(
            registry@.partials,
            fields.deep_view(),
            a.deep_view(),
            b.deep_view(),
            policy,
        ) {
            Ok(m) => r matches Ok(slots) && slots.deep_view() == m,
            Err(e) => r matches Err(x) && x@ == e,
        },
    decreases a.deep_view(), 1int,
{
    let ghost partials = registry@.partials;
    let ghost level = fields.deep_view();
    let ghost a0 = a.deep_view();
    let ghost b0 = b.deep_view();
    let ghost a_raw = a@;
    let ghost b_raw = b@;
    let n = a.len();
    let mut ra = reversed(a);
    let mut rb = reversed(b);
    let mut out: Vec<Slot<V>> = Vec::new();
    while ra.len() > 0
        invariant
            partials == registry@.partials,
            level == fields.deep_view(),
            a0 == a.deep_view(),
            b0 == b.deep_view(),
            a0.len() == n,
            b0.len() == n,
            level.len() == n,
            a_raw.len() == n,
            b_raw.len() == n,
            forall|k: int| 0 <= k < n ==> a0[k] == (#[trigger] a_raw[k]).deep_view(),
            forall|k: int| 0 <= k < n ==> b0[k] == (#[trigger] b_raw[k]).deep_view(),
            conforms(partials, level, a0),
            conforms(partials, level, b0),
            ra@.len() == rb@.len(),
            ra@.len() + out@.len() == n,
            forall|k: int| 0 <= k < ra@.len() ==> ra@[k] == a_raw[n - 1 - k],
            forall|k: int| 0 <= k < rb@.len() ==> rb@[k] == b_raw[n - 1 - k],
            forall|k: int|
                0 <= k < out@.len() ==> (#[trigger] out@[k]).deep_view() == merged_slot(
                    a0[k],
                    b0[k],
                ),
            policy == SelectionPolicy::SameVariantRequired ==> conflict(
                partials,
                level,
                a0,
                b0,
                out@.len() as int,
            ) is None,
        decreases ra@.len(),
    {
        let i = out.len();
        let x = match ra.pop() {
            Some(slot) => slot,
            None => {
                return Ok(out);
            },
        };
        let y = match rb.pop() {
            Some(slot) => slot,
            None => {
                return Ok(out);
            },
        };
        proof {
            assert(x == a_raw[i as int]);
            assert(y == b_raw[i as int]);
            assert(slot_conforms(partials, level[i as int], a0[i as int]));
            assert(slot_conforms(partials, level[i as int], b0[i as int]));
            assert(level[i as int] == fields@[i as int].deep_view());
            assert(decreases_to!(a0 => a0[i as int]));
        }
        match merge_slot(registry, &fields[i], x, y, policy) {
            Ok(slot) => {
                out.push(slot);
            },
            Err(e) => {
                proof {
                    let found = slot_conflict(
                        partials,
                        level[i as int],
                        a0[i as int],
                        b0[i as int],
                    );
                    assert(conflict(partials, level, a0, b0, i + 1) == found);
                    lemma_conflict_stays(partials, level, a0, b0, i + 1, n as int);
                }
                return Err(e);
            },
        }
    }
    assert(out.deep_view() =~= merged(a0, b0));
    Ok(out)
}

/// Whether the schema at `root` is registered with a struct-shaped
/// partial counterpart.
pub open spec fn is_struct_at(registry: RegistryView, root: int) -> bool {
    0 <= root < registry.schemas.len() && root < registry.partials.len()
        && registry.partials[root].body is Struct
}

/// The fields of the partial struct at `root`.
pub open spec fn level_of(registry: RegistryView, root: int) -> Seq<PartialFieldView> {
    registry.partials[root].body->Struct_0
}

/// Builds the instance of the level `fields` in which nothing is set.
pub fn unset_instance<V>(fields: &Vec<PartialField>) -> (r: PartialInstance<V>)
    ensures
        r@ == unset::<V>(fields.deep_view()),
{
    let mut slots: Vec<Slot<V>> = Vec::new();
    let mut i: usize = 0;
    while i < fields.len()
        invariant
            i <= fields@.len(),
            slots@.len() == i,
            forall|k: int|
                0 <= k < i ==> (#[trigger] slots@[k]).deep_view() == unset_slot::<V>(
                    fields.deep_view()[k],
                ),
        decreases fields@.len() - i,
    {
        assert(fields.deep_view()[i as int] == fields@[i as int].deep_view());
        if fields[i].choice.is_some() {
            slots.push(Slot::Choice(None));
        } else {
            slots.push(Slot::Leaf(None));
        }
        i += 1;
    }
    assert(slots.deep_view() =~= unset::<V>(fields.deep_view()));
    PartialInstance { slots }
}

/// Tests whether a slot holds a value of the field `field`.
fn check_slot<V>(registry: &Registry, field: &PartialField, slot: &Slot<V>) -> (r: bool)
    ensures
        r == slot_conforms(registry@.partials, field.deep_view(), slot.deep_view()),
    decreases slot.deep_view(), 0int,
{
    match slot {
        Slot::Leaf(_) => field.choice.is_none(),
        Slot::Choice(None) => field.choice.is_some(),
        Slot::Choice(Some(selection)) => {
            proof {
                lemma_selection_view(*selection);
                assert(slot.deep_view()->Choice_0->0.fields == selection.fields.deep_view());
                assert(decreases_to!(slot.deep_view() => selection.fields.deep_view()));
            }
            match field.choice {
                None => false,
                Some(j) => {
                    if j >= registry.len() {
                        return false;
                    }
                    match &registry.partial(j).body {
                        PartialBody::Enum(variants) => {
                            if selection.variant >= variants.len() {
                                return false;
                            }
                            assert(variants.deep_view()[selection.variant as int]
                                == variants@[selection.variant as int].deep_view());
                            check_slots(
                                registry,
                                &variants[selection.variant].fields,
                                &selection.fields,
                            )
                        },
                        PartialBody::Struct(_) => false,
                    }
                },
            }
        },
    }
}

/// Tests whether slots are an instance of the level `fields`.
pub(crate) fn check_slots<V>(registry: &Registry, fields: &Vec<PartialField>, slots: &Vec<Slot<V>>) -> (r:
    bool)
    ensures
        r == conforms(registry@.partials, fields.deep_view(), slots.deep_view()),
    decreases slots.deep_view(), 1int,
{
    if slots.len() != fields.len() {
        return false;
    }
    let ghost partials = registry@.partials;
    let ghost level = fields.deep_view();
    let ghost given = slots.deep_view();
    let mut i: usize = 0;
    while i < slots.len()
        invariant
            i <= slots@.len(),
            slots@.len() == fields@.len(),
            partials == registry@.partials,
            level == fields.deep_view(),
            given == slots.deep_view(),
            forall|k: int| 0 <= k < i ==> slot_conforms(partials, level[k], #[trigger] given[k]),
        decreases slots@.len() - i,
    {
        proof {
            assert(level[i as int] == fields@[i as int].deep_view());
            assert(given[i as int] == slots@[i as int].deep_view());
            assert(decreases_to!(given => given[i as int]));
        }
        if !check_slot(registry, &fields[i], &slots[i]) {
            assert(!slot_conforms(partials, level[i as int], given[i as int]));
            return false;
        }
        i += 1;
    }
    true
}

/// Tests whether `instance` is an instance of the partial struct at
/// `root`.
pub fn is_instance<V>(registry: &Registry, root: usize, instance: &PartialInstance<V>) -> (r: bool)
    ensures
        r == (is_struct_at(registry@, root as int) && conforms(
            registry@.partials,
            level_of(registry@, root as int),
            instance@,
        )),
{
    if root >= registry.len() {
        return false;
    }
    match &registry.partial(root).body {
        PartialBody::Struct(fields) => check_slots(registry, fields, &instance.slots),
        PartialBody::Enum(_) => false,
    }
}

/// A failure among the first `upto` instances is the failure of the whole
/// merge.
proof fn lemma_merge_all_fails<V>(
    partials: Seq<PartialSchemaView>,
    fields: Seq<PartialFieldView>,
    list: Seq<Seq<SlotView<V>>>,
    upto: int,
    policy: SelectionPolicy,
)
    requires
        0 <= upto <= list.len(),
        merge_all(partials, fields, list.take(upto), policy) is Err,
    ensures
        merge_all(partials, fields, list, policy) == merge_all(
            partials,
            fields,
            list.take(upto),
            policy,
        ),
    decreases list.len() - upto,
{
    if upto == list.len() {
        assert(list.take(upto) =~= list);
    } else {
        let next = list.take(upto + 1);
        assert(next.drop_last() =~= list.take(upto));
        lemma_merge_all_fails(partials, fields, list, upto + 1, policy);
    }
}

/// Merges instances of the partial struct at `root`, lowest precedence
/// first.
///
/// Each instance in turn is merged into what the instances before it
/// gave, starting from the instance in which nothing is set. Where two
/// instances select different variants of one subcommand field, the later
/// selection replaces the earlier one under `LaterReplaces`, and the merge
/// fails with `AmbiguousSubcommandSelection`, naming the first such field,
/// under `SameVariantRequired`.
pub fn merge<V>(
    registry: &Registry,
    root: usize,
    instances: Vec<PartialInstance<V>>,
    policy: SelectionPolicy,
) -> (r: Result<PartialInstance<V>, MergeError>)
    requires
        is_struct_at(registry@, root as int),
        forall|i: int|
            0 <= i < instances@.len() ==> conforms(
                registry@.partials,
                level_of(registry@, root as int),
                (#[trigger] instances@[i])@,
            ),
    ensures
        match merge_all(
            registry@.partials,
            level_of(registry@, root as int),
            instances.deep_view(),
            policy,
        ) {
            Ok(m) => r matches Ok(instance) && instance@ == m,
            Err(e) => r matches Err(x) && x@ == e,
        },
{
    let ghost partials = registry@.partials;
    let ghost level = level_of(registry@, root as int);
    let ghost list = instances.deep_view();
    let ghost raw = instances@;
    let n = instances.len();
    match &registry.partial(root).body {
        PartialBody::Struct(fields) => {
            let first: PartialInstance<V> = unset_instance(fields);
            let mut so_far = first.slots;
            let mut rest = reversed(instances);
            let mut i: usize = 0;
            proof {
                lemma_unset_conforms::<V>(partials, level);
                assert(list.take(0) =~= Seq::<Seq<SlotView<V>>>::empty());
            }
            while rest.len() > 0
                invariant
                    partials == registry@.partials,
                    level == fields.deep_view(),
                    level == level_of(registry@, root as int),
                    list == instances.deep_view(),
                    raw.len() == n,
                    list.len() == n,
                    forall|k: int| 0 <= k < n ==> list[k] == (#[trigger] raw[k])@,
                    forall|k: int| 0 <= k < n ==> conforms(partials, level, #[trigger] list[k]),
                    rest@.len() + i == n,
                    forall|k: int| 0 <= k < rest@.len() ==> rest@[k] == raw[n - 1 - k],
                    conforms(partials, level, so_far.deep_view()),
                    merge_all(partials, level, list.take(i as int), policy) == Ok::<
                        Seq<SlotView<V>>,
                        MergeErrorView,
                    >(so_far.deep_view()),
                decreases rest@.len(),
            {
                let next = match rest.pop() {
                    Some(instance) => instance,
                    None => {
                        return Ok(PartialInstance { slots: so_far });
                    },
                };
                let ghost before = so_far.deep_view();
                proof {
                    assert(next == raw[i as int]);
                    assert(next@ == list[i as int]);
                    let longer = list.take(i + 1);
                    assert(longer.drop_last() =~= list.take(i as int));
                    assert(longer.last() == list[i as int]);
                    assert(merge_all(partials, level, longer, policy) == merge_pair(
                        partials,
                        level,
                        before,
                        list[i as int],
                        policy,
                    ));
                    lemma_merged_conforms(partials, level, before, list[i as int]);
                }
                match merge_slots(registry, fields, so_far, next.slots, policy) {
                    Ok(slots) => {
                        so_far = slots;
                    },
                    Err(e) => {
                        proof {
                            lemma_merge_all_fails(partials, level, list, i + 1, policy);
                        }
                        return Err(e);
                    },
                }
                i += 1;
            }
            assert(list.take(i as int) =~= list);
            Ok(PartialInstance { slots: so_far })
        },
        PartialBody::Enum(_) => Ok(unset_instance(&Vec::new())),
    }
}

/// Whether every instance of `list` is an instance of the partial struct
/// at `root`.
pub open spec fn all_instances<V>(
    registry: RegistryView,
    root: int,
    list: Seq<Seq<SlotView<V>>>,
) -> bool {
    is_struct_at(registry, root) && forall|i: int|
        0 <= i < list.len() ==> conforms(
            registry.partials,
            level_of(registry, root),
            #[trigger] list[i],
        )
}

/// Merges instances after testing them: `None` where the schema at `root`
/// is not registered as a struct or one of the instances is not an
/// instance of it, and what [`merge`] gives otherwise.
pub fn try_merge<V>(
    registry: &Registry,
    root: usize,
    instances: Vec<PartialInstance<V>>,
    policy: SelectionPolicy,
) -> (r: Option<Result<PartialInstance<V>, MergeError>>)
    ensures
        r is Some == all_instances(registry@, root as int, instances.deep_view()),
        r matches Some(outcome) ==> match merge_all(
            registry@.partials,
            level_of(registry@, root as int),
            instances.deep_view(),
            policy,
        ) {
            Ok(m) => outcome matches Ok(instance) && instance@ == m,
            Err(e) => outcome matches Err(x) && x@ == e,
        },
{
    let ghost list = instances.deep_view();
    let mut i: usize = 0;
    if instances.len() == 0 {
        if root >= registry.len() {
            return None;
        }
        match &registry.partial(root).body {
            PartialBody::Struct(_) => {},
            PartialBody::Enum(_) => {
                return None;
            },
        }
    }
    while i < instances.len()
        invariant
            i <= instances@.len(),
            list == instances.deep_view(),
            i > 0 || instances@.len() == 0 ==> is_struct_at(registry@, root as int),
            forall|k: int|
                0 <= k < i ==> conforms(
                    registry@.partials,
                    level_of(registry@, root as int),
                    #[trigger] list[k],
                ),
        decreases instances@.len() - i,
    {
        assert(list[i as int] == instances@[i as int]@);
        if !is_instance(registry, root, &instances[i]) {
            return None;
        }
        i += 1;
    }
    proof {
        assert forall|k: int| 0 <= k < instances@.len() implies conforms(
            registry@.partials,
            level_of(registry@, root as int),
            (#[trigger] instances@[k])@,
        ) by {
            assert(list[k] == instances@[k]@);
        }
    }
    Some(merge(registry, root, instances, policy))
}

} // verus!
