//! Materialization: a merged partial instance becomes a full instance.
//! The first required field that is unset, in declaration order, fails
//! the materialization. Custom conversions are applied last, and only
//! here.

use crate::error::MergeError;
use crate::error::MergeErrorView;
use crate::instance::conforms;
use crate::instance::lemma_selection_view;
use crate::instance::slot_conforms;
use crate::instance::PartialInstance;
use crate::instance::Selection;
use crate::instance::Slot;
use crate::instance::SlotView;
use crate::instance::unset;
use crate::merge::is_struct_at;
use crate::merge::level_of;
use crate::merge::merge;
use crate::merge::lemma_merge_all_conforms;
use crate::merge::merge_all;
use crate::merge::reversed;
use crate::merge::SelectionPolicy;
use crate::partial::PartialBody;
use crate::partial::PartialField;
use crate::partial::PartialFieldView;
use crate::partial::PartialSchemaView;
use crate::registry::Registry;
use vstd::prelude::*;

verus! {

/// A full instance: the slots of a partial instance in which every
/// required field is set, after conversion.
#[derive(Debug, PartialEq, Eq)]
pub struct FullInstance<V> {
    pub slots: Vec<Slot<V>>,
}

impl<V> View for FullInstance<V> {
    type V = Seq<SlotView<V>>;

    open spec fn view(&self) -> Seq<SlotView<V>> {
        self.slots.deep_view()
    }
}

/// The first required field that is unset, among the first `upto` fields
/// of the level and the fields below them, in declaration order.
pub open spec fn missing<V>(
    partials: Seq<PartialSchemaView>,
    fields: Seq<PartialFieldView>,
    slots: Seq<SlotView<V>>,
    upto: int,
) -> Option<Seq<char>>
    decreases slots, 1int, upto,
{
    if upto <= 0 || upto > slots.len() {
        None
    } else {
        match missing(partials, fields, slots, upto - 1) {
            Some(name) => Some(name),
            None => slot_missing(partials, fields[upto - 1], slots[upto - 1]),
        }
    }
}

/// The required field that is unset in the slot `slot` of the field
/// `field`: the field itself, or the first such field of the selected
/// variant.
pub open spec fn slot_missing<V>(
    partials: Seq<PartialSchemaView>,
    field: PartialFieldView,
    slot: SlotView<V>,
) -> Option<Seq<char>>
    decreases slot, 0int, 0int,
{
    match slot {
        SlotView::Leaf(value) => if value is None && field.descriptor.required() {
            Some(field.descriptor.ident)
        } else {
            None
        },
        SlotView::Choice(None) => if field.descriptor.required() {
            Some(field.descriptor.ident)
        } else {
            None
        },
        SlotView::Choice(Some(selection)) => match field.choice {
            Some(j) => missing(
                partials,
                partials[j].body->Enum_0[selection.variant].fields,
                selection.fields,
                selection.fields.len() as int,
            ),
            None => None,
        },
    }
}

/// Whether `value` is what `convert` may give for the expression `text`
/// and the raw value `raw`.
pub open spec fn applied<V, F: Fn(&String, V) -> V>(
    convert: F,
    text: Seq<char>,
    raw: V,
    value: V,
) -> bool {
    exists|expr: &String| expr@ == text && #[trigger] call_ensures(convert, (expr, raw), value)
}

/// Whether `output` is `input` after conversion: a value of a field with
/// a conversion expression is what `convert` gives for the expression and
/// the raw value; every other value is the raw value; what is unset stays
/// unset.
pub open spec fn converted<V, F: Fn(&String, V) -> V>(
    partials: Seq<PartialSchemaView>,
    fields: Seq<PartialFieldView>,
    input: Seq<SlotView<V>>,
    output: Seq<SlotView<V>>,
    convert: F,
) -> bool
    decreases input, 1int,
{
    &&& output.len() == input.len()
    &&& forall|i: int|
        0 <= i < input.len() ==> slot_converted(
            partials,
            fields[i],
            #[trigger] input[i],
            output[i],
            convert,
        )
}

/// Whether the slot `output` is the slot `input` after conversion.
pub open spec fn slot_converted<V, F: Fn(&String, V) -> V>(
    partials: Seq<PartialSchemaView>,
    field: PartialFieldView,
    input: SlotView<V>,
    output: SlotView<V>,
    convert: F,
) -> bool
    decreases input, 0int,
{
    match input {
        SlotView::Leaf(None) => output == input,
        SlotView::Leaf(Some(raw)) => match field.descriptor.to_os_string {
            None => output == input,
            Some(text) => output matches SlotView::Leaf(Some(value)) && applied(
                convert,
                text,
                raw,
                value,
            ),
        },
        SlotView::Choice(None) => output == input,
        SlotView::Choice(Some(selection)) => {
            &&& output matches SlotView::Choice(Some(result))
            &&& result.variant == selection.variant
            &&& match field.choice {
                Some(j) => converted(
                    partials,
                    partials[j].body->Enum_0[selection.variant].fields,
                    selection.fields,
                    result.fields,
                    convert,
                ),
                None => result.fields == selection.fields,
            }
        },
    }
}

/// Whether no value of the slots `slots` is subject to a conversion.
pub open spec fn conversion_free<V>(
    partials: Seq<PartialSchemaView>,
    fields: Seq<PartialFieldView>,
    slots: Seq<SlotView<V>>,
) -> bool
    decreases slots, 1int,
{
    forall|i: int|
        0 <= i < slots.len() ==> slot_conversion_free(partials, fields[i], #[trigger] slots[i])
}

/// Whether no value of the slot `slot` is subject to a conversion.
pub open spec fn slot_conversion_free<V>(
    partials: Seq<PartialSchemaView>,
    field: PartialFieldView,
    slot: SlotView<V>,
) -> bool
    decreases slot, 0int,
{
    match slot {
        SlotView::Leaf(None) => true,
        SlotView::Leaf(Some(_)) => field.descriptor.to_os_string is None,
        SlotView::Choice(None) => true,
        SlotView::Choice(Some(selection)) => match field.choice {
            Some(j) => conversion_free(
                partials,
                partials[j].body->Enum_0[selection.variant].fields,
                selection.fields,
            ),
            None => true,
        },
    }
}

/// Where no value is subject to a conversion, the values after conversion
/// are the raw values.
pub proof fn lemma_converted_keeps_raw_values<V, F: Fn(&String, V) -> V>(
    partials: Seq<PartialSchemaView>,
    fields: Seq<PartialFieldView>,
    input: Seq<SlotView<V>>,
    output: Seq<SlotView<V>>,
    convert: F,
)
    requires
        converted(partials, fields, input, output, convert),
        conversion_free(partials, fields, input),
    ensures
        output == input,
    decreases input,
{
    assert forall|i: int| 0 <= i < input.len() implies output[i] == input[i] by {
        assert(slot_converted(partials, fields[i], input[i], output[i], convert));
        assert(slot_conversion_free(partials, fields[i], input[i]));
        match input[i] {
            SlotView::Choice(Some(selection)) => {
                let result = output[i]->Choice_0->0;
                match fields[i].choice {
                    Some(j) => {
                        lemma_converted_keeps_raw_values(
                            partials,
                            partials[j].body->Enum_0[selection.variant].fields,
                            selection.fields,
                            result.fields,
                            convert,
                        );
                    },
                    None => {},
                }
            },
            _ => {},
        }
    }
    assert(output =~= input);
}

/// A required field found unset among the first fields stays the first
/// one when more fields are looked at.
pub proof fn lemma_missing_stays<V>(
    partials: Seq<PartialSchemaView>,
    fields: Seq<PartialFieldView>,
    slots: Seq<SlotView<V>>,
    upto: int,
    more: int,
)
    requires
        upto <= more <= slots.len(),
        missing(partials, fields, slots, upto) is Some,
    ensures
        missing(partials, fields, slots, more) == missing(partials, fields, slots, upto),
    decreases more - upto,
{
    if upto < more {
        lemma_missing_stays(partials, fields, slots, upto, more - 1);
    }
}

/// Where no required field is unset in any of the first `upto` slots,
/// none is found missing among them.
pub proof fn lemma_nothing_missing<V>(
    partials: Seq<PartialSchemaView>,
    fields: Seq<PartialFieldView>,
    slots: Seq<SlotView<V>>,
    upto: int,
)
    requires
        upto <= slots.len(),
        forall|i: int|
            0 <= i < upto ==> slot_missing(partials, fields[i], #[trigger] slots[i]) is None,
    ensures
        missing(partials, fields, slots, upto) is None,
    decreases upto,
{
    if upto > 0 {
        lemma_nothing_missing(partials, fields, slots, upto - 1);
    }
}

/// The required field that is unset is the one that is named: where the
/// field at `k` is required and unset, and no other slot lacks a required
/// field, the field at `k` is found missing, whatever else is unset.
pub proof fn lemma_missing_names_the_unset_field<V>(
    partials: Seq<PartialSchemaView>,
    fields: Seq<PartialFieldView>,
    slots: Seq<SlotView<V>>,
    k: int,
)
    requires
        0 <= k < slots.len(),
        fields[k].descriptor.required(),
        slots[k] == SlotView::<V>::Leaf(None) || slots[k] == SlotView::<V>::Choice(None),
        forall|i: int|
            0 <= i < slots.len() && i != k ==> slot_missing(
                partials,
                fields[i],
                #[trigger] slots[i],
            ) is None,
    ensures
        missing(partials, fields, slots, slots.len() as int) == Some(fields[k].descriptor.ident),
{
    lemma_nothing_missing(partials, fields, slots, k);
    assert(slot_missing(partials, fields[k], slots[k]) == Some(fields[k].descriptor.ident));
    assert(missing(partials, fields, slots, k + 1) == Some(fields[k].descriptor.ident));
    lemma_missing_stays(partials, fields, slots, k + 1, slots.len() as int);
}

/// The text of the name that a search found.
pub open spec fn found_name(r: Option<String>) -> Option<Seq<char>> {
    match r {
        Some(name) => Some(name@),
        None => None,
    }
}

/// Looks for the required field that is unset in one slot.
fn find_slot_missing<V>(registry: &Registry, field: &PartialField, slot: &Slot<V>) -> (r: Option<
    String,
>)
    requires
        slot_conforms(registry@.partials, field.deep_view(), slot.deep_view()),
    ensures
        found_name(r) == slot_missing(registry@.partials, field.deep_view(), slot.deep_view()),
    decreases slot.deep_view(), 0int,
{
    match slot {
        Slot::Leaf(value) => if value.is_none() && field.descriptor.required() {
            Some(field.descriptor.ident().clone())
        } else {
            None
        },
        Slot::Choice(None) => if field.descriptor.required() {
            Some(field.descriptor.ident().clone())
        } else {
            None
        },
        Slot::Choice(Some(selection)) => {
            proof {
                lemma_selection_view(*selection);
                assert(slot.deep_view()->Choice_0->0.fields == selection.fields.deep_view());
                assert(decreases_to!(slot.deep_view() => selection.fields.deep_view()));
            }
            let n = registry.len();
            match field.choice {
                Some(j) => match &registry.partial(j).body {
                    PartialBody::Enum(variants) => {
                        assert(variants.deep_view()[selection.variant as int]
                            == variants@[selection.variant as int].deep_view());
                        find_missing(
                            registry,
                            &variants[selection.variant].fields,
                            &selection.fields,
                        )
                    },
                    PartialBody::Struct(_) => None,
                },
                None => None,
            }
        },
    }
}

/// Looks for the first required field that is unset in the slots of a
/// level.
pub(crate) fn find_missing<V>(registry: &Registry, fields: &Vec<PartialField>, slots: &Vec<Slot<V>>) -> (r:
    Option<String>)
    requires
        conforms(registry@.partials, fields.deep_view(), slots.deep_view()),
    ensures
        found_name(r) == missing(
            registry@.partials,
            fields.deep_view(),
            slots.deep_view(),
            slots@.len() as int,
        ),
    decreases slots.deep_view(), 1int,
{
    let ghost partials = registry@.partials;
    let ghost level = fields.deep_view();
    let ghost given = slots.deep_view();
    let mut i: usize = 0;
    while i < slots.len()
        invariant
            i <= slots@.len(),
            slots@.len() == fields@.len(),
            partials == registry@.partials,
            level == fields.deep_view(),
            given == slots.deep_view(),
            conforms(partials, level, given),
            missing(partials, level, given, i as int) is None,
        decreases slots@.len() - i,
    {
        proof {
            assert(level[i as int] == fields@[i as int].deep_view());
            assert(given[i as int] == slots@[i as int].deep_view());
            assert(slot_conforms(partials, level[i as int], given[i as int]));
            assert(decreases_to!(given => given[i as int]));
        }
        match find_slot_missing(registry, &fields[i], &slots[i]) {
            Some(name) => {
                proof {
                    assert(missing(partials, level, given, i + 1) == Some(name@));
                    lemma_missing_stays(partials, level, given, i + 1, slots@.len() as int);
                }
                return Some(name);
            },
            None => {},
        }
        i += 1;
    }
    None
}

/// Converts the value of one slot.
fn convert_slot<V, F: Fn(&String, V) -> V>(
    registry: &Registry,
    field: &PartialField,
    slot: Slot<V>,
    convert: &F,
) -> (r: Slot<V>)
    requires
        slot_conforms(registry@.partials, field.deep_view(), slot.deep_view()),
        forall|expr: String, raw: V| call_requires(*convert, (&expr, raw)),
    ensures
        slot_converted(
            registry@.partials,
            field.deep_view(),
            slot.deep_view(),
            r.deep_view(),
            *convert,
        ),
    decreases slot.deep_view(), 0int,
{
    match slot {
        Slot::Leaf(held) => match held {
            None => Slot::Leaf(None),
            Some(raw) => match field.descriptor.to_os_string() {
                None => Slot::Leaf(Some(raw)),
                Some(expr) => {
                    let value = convert(expr, raw);
                    assert(call_ensures(*convert, (expr, raw), value));
                    Slot::Leaf(Some(value))
                },
            },
        },
        Slot::Choice(chosen) => match chosen {
            None => Slot::Choice(None),
            Some(selection) => {
                proof {
                    lemma_selection_view(selection);
                }
                let n = registry.len();
                let variant = selection.variant;
                match field.choice {
                    Some(j) => match &registry.partial(j).body {
                        PartialBody::Enum(variants) => {
                            assert(variants.deep_view()[variant as int]
                                == variants@[variant as int].deep_view());
                            let fields = convert_slots(
                                registry,
                                &variants[variant].fields,
                                selection.fields,
                                convert,
                            );
                            let result = Selection { variant, fields };
                            proof {
                                lemma_selection_view(result);
                            }
                            Slot::Choice(Some(result))
                        },
                        PartialBody::Struct(_) => Slot::Choice(Some(selection)),
                    },
                    None => Slot::Choice(Some(selection)),
                }
            },
        },
    }
}

/// Converts the values of the slots of a level.
pub(crate) fn convert_slots<V, F: Fn(&String, V) -> V>(
    registry: &Registry,
    fields: &Vec<PartialField>,
    slots: Vec<Slot<V>>,
    convert: &F,
) -> (r: Vec<Slot<V>>)
    requires
        conforms(registry@.partials, fields.deep_view(), slots.deep_view()),
        forall|expr: String, raw: V| call_requires(*convert, (&expr, raw)),
    ensures
        converted(
            registry@.partials,
            fields.deep_view(),
            slots.deep_view(),
            r.deep_view(),
            *convert,
        ),
    decreases slots.deep_view(), 1int,
{
    let ghost partials = registry@.partials;
    let ghost level = fields.deep_view();
    let ghost given = slots.deep_view();
    let ghost raw = slots@;
    let n = slots.len();
    let mut rest = reversed(slots);
    let mut out: Vec<Slot<V>> = Vec::new();
    while rest.len() > 0
        invariant
            partials == registry@.partials,
            level == fields.deep_view(),
            given == slots.deep_view(),
            given.len() == n,
            level.len() == n,
            raw.len() == n,
            forall|k: int| 0 <= k < n ==> given[k] == (#[trigger] raw[k]).deep_view(),
            conforms(partials, level, given),
            forall|expr: String, value: V| call_requires(*convert, (&expr, value)),
            rest@.len() + out@.len() == n,
            forall|k: int| 0 <= k < rest@.len() ==> rest@[k] == raw[n - 1 - k],
            forall|k: int|
                0 <= k < out@.len() ==> slot_converted(
                    partials,
                    level[k],
                    given[k],
                    (#[trigger] out@[k]).deep_view(),
                    *convert,
                ),
        decreases rest@.len(),
    {
        let i = out.len();
        let slot = match rest.pop() {
            Some(slot) => slot,
            None => {
                return out;
            },
        };
        proof {
            assert(slot == raw[i as int]);
            assert(slot_conforms(partials, level[i as int], given[i as int]));
            assert(level[i as int] == fields@[i as int].deep_view());
            assert(decreases_to!(given => given[i as int]));
        }
        let done = convert_slot(registry, &fields[i], slot, convert);
        out.push(done);
    }
    proof {
        assert forall|k: int| 0 <= k < given.len() implies slot_converted(
            partials,
            level[k],
            #[trigger] given[k],
            out.deep_view()[k],
            *convert,
        ) by {
            assert(out.deep_view()[k] == out@[k].deep_view());
        }
    }
    out
}

/// Materializes a merged instance of the partial struct at `root`.
///
/// Fails with `MissingRequiredField`, naming the first required field
/// that is unset, in declaration order; a field of a selected variant
/// counts at the place of the subcommand field. Where nothing is missing,
/// `convert` is called once for each value whose field has a conversion
/// expression, with the expression and the raw value; before that it is not
/// called.
pub fn materialize<V, F: Fn(&String, V) -> V>(
    registry: &Registry,
    root: usize,
    instance: PartialInstance<V>,
    convert: F,
) -> (r: Result<FullInstance<V>, MergeError>)
    requires
        is_struct_at(registry@, root as int),
        conforms(registry@.partials, level_of(registry@, root as int), instance@),
        forall|expr: String, raw: V| call_requires(convert, (&expr, raw)),
    ensures
        match missing(
            registry@.partials,
            level_of(registry@, root as int),
            instance@,
            instance@.len() as int,
        ) {
            Some(name) => r matches Err(e) && e@ == (MergeErrorView::MissingRequiredField {
                field: name,
            }),
            None => r matches Ok(full) && converted(
                registry@.partials,
                level_of(registry@, root as int),
                instance@,
                full@,
                convert,
            ),
        },
{
    match &registry.partial(root).body {
        PartialBody::Struct(fields) => {
            match find_missing(registry, fields, &instance.slots) {
                Some(name) => Err(MergeError::MissingRequiredField { field: name }),
                None => {
                    let slots = convert_slots(registry, fields, instance.slots, &convert);
                    Ok(FullInstance { slots })
                },
            }
        },
        PartialBody::Enum(_) => Ok(FullInstance { slots: instance.slots }),
    }
}

/// What a resolution ends with.
#[derive(Clone, Copy, Debug, PartialEq, Eq, Structural)]
pub enum ResolutionMode {
    /// The merged partial instance.
    MergeOnly,
    /// The full instance that the merged partial instance materializes to.
    MergeAndMaterialize,
}

/// The result of a resolution.
#[derive(Debug, PartialEq, Eq)]
pub enum Resolved<V> {
    Merged(PartialInstance<V>),
    Materialized(FullInstance<V>),
}

/// Resolves instances of the partial struct at `root`, lowest precedence
/// first: merges them, and under `MergeAndMaterialize` materializes the
/// merged instance.
///
/// A failure of the merge comes before a missing field. `convert` is not
/// called unless the merge succeeds and nothing is missing.
pub fn resolve<V, F: Fn(&String, V) -> V>(
    registry: &Registry,
    root: usize,
    instances: Vec<PartialInstance<V>>,
    policy: SelectionPolicy,
    mode: ResolutionMode,
    convert: F,
) -> (r: Result<Resolved<V>, MergeError>)
    requires
        is_struct_at(registry@, root as int),
        forall|i: int|
            0 <= i < instances@.len() ==> conforms(
                registry@.partials,
                level_of(registry@, root as int),
                (#[trigger] instances@[i])@,
            ),
        forall|expr: String, raw: V| call_requires(convert, (&expr, raw)),
    ensures
        match merge_all(
            registry@.partials,
            level_of(registry@, root as int),
            instances.deep_view(),
            policy,
        ) {
            Err(e) => r matches Err(x) && x@ == e,
            Ok(m) => match mode {
                ResolutionMode::MergeOnly => r matches Ok(Resolved::Merged(merged)) && merged@ == m,
                ResolutionMode::MergeAndMaterialize => match missing(
                    registry@.partials,
                    level_of(registry@, root as int),
                    m,
                    m.len() as int,
                ) {
                    Some(name) => r matches Err(x) && x@ == (MergeErrorView::MissingRequiredField {
                        field: name,
                    }),
                    None => r matches Ok(Resolved::Materialized(full)) && converted(
                        registry@.partials,
                        level_of(registry@, root as int),
                        m,
                        full@,
                        convert,
                    ),
                },
            },
        },
{
    proof {
        assert forall|i: int| 0 <= i < instances.deep_view().len() implies conforms(
            registry@.partials,
            level_of(registry@, root as int),
            #[trigger] instances.deep_view()[i],
        ) by {
            assert(instances.deep_view()[i] == instances@[i]@);
        }
        lemma_merge_all_conforms(
            registry@.partials,
            level_of(registry@, root as int),
            instances.deep_view(),
            policy,
        );
    }
    let merged = match merge(registry, root, instances, policy) {
        Ok(merged) => merged,
        Err(e) => {
            return Err(e);
        },
    };
    match mode {
        ResolutionMode::MergeOnly => Ok(Resolved::Merged(merged)),
        ResolutionMode::MergeAndMaterialize => match materialize(registry, root, merged, convert) {
            Ok(full) => Ok(Resolved::Materialized(full)),
            Err(e) => Err(e),
        },
    }
}

} // verus!
