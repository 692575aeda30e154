//! Partial instances: the data of a partial schema. Every field may be
//! unset, and a subcommand field selects at most one variant.

use crate::partial::PartialFieldView;
use crate::partial::PartialSchemaView;
use vstd::prelude::*;

verus! {

/// The value of one field of a partial instance.
#[derive(Debug, PartialEq, Eq)]
pub enum Slot<V> {
    /// A plain field: its raw value, if it is set.
    Leaf(Option<V>),
    /// A subcommand field: the selected variant, if one is selected.
    Choice(Option<Selection<V>>),
}

/// The variant that a subcommand field selects, with the partial instance
/// of that variant's fields.
#[derive(Debug, PartialEq, Eq)]
pub struct Selection<V> {
    /// The position of the variant in the enum.
    pub variant: usize,
    /// The values of the variant's fields, in the order of the partial
    /// variant's fields.
    pub fields: Vec<Slot<V>>,
}

/// An instance of a partial struct: one slot for each field of the
/// partial schema, in order.
#[derive(Debug, PartialEq, Eq)]
pub struct PartialInstance<V> {
    pub slots: Vec<Slot<V>>,
}

/// Mathematical value of a [`Slot`].
pub ghost enum SlotView<V> {
    Leaf(Option<V>),
    Choice(Option<SelectionView<V>>),
}

/// Mathematical value of a [`Selection`].
pub ghost struct SelectionView<V> {
    pub variant: int,
    pub fields: Seq<SlotView<V>>,
}

/// The mathematical value of a slot.
pub open spec fn slot_view<V>(slot: Slot<V>) -> SlotView<V>
    decreases slot,
{
    match slot {
        Slot::Leaf(value) => SlotView::Leaf(value),
        Slot::Choice(choice) => match choice {
            None => SlotView::Choice(None),
            Some(selection) => SlotView::Choice(
                Some(
                    SelectionView {
                        variant: selection.variant as int,
                        fields: Seq::new(
                            selection.fields@.len(),
                            |i: int|
                                if 0 <= i < selection.fields@.len() {
                                    slot_view(selection.fields@[i])
                                } else {
                                    SlotView::Leaf(None)
                                },
                        ),
                    },
                ),
            ),
        },
    }
}

impl<V> DeepView for Slot<V> {
    type V = SlotView<V>;

    open spec fn deep_view(&self) -> SlotView<V> {
        slot_view(*self)
    }
}

impl<V> DeepView for PartialInstance<V> {
    type V = Seq<SlotView<V>>;

    open spec fn deep_view(&self) -> Seq<SlotView<V>> {
        self.slots.deep_view()
    }
}

impl<V> View for PartialInstance<V> {
    type V = Seq<SlotView<V>>;

    open spec fn view(&self) -> Seq<SlotView<V>> {
        self.slots.deep_view()
    }
}

/// The fields of a selection are seen as the slots of a list are.
pub proof fn lemma_selection_view<V>(selection: Selection<V>)
    ensures
        Slot::Choice(Some(selection)).deep_view() == SlotView::Choice(
            Some(
                SelectionView {
                    variant: selection.variant as int,
                    fields: selection.fields.deep_view(),
                },
            ),
        ),
{
    let direct = Slot::Choice(Some(selection)).deep_view();
    assert(direct->Choice_0->0.fields =~= selection.fields.deep_view());
}

/// Whether the slots `slots` are an instance of the level `fields`: there
/// is one slot for each field; a plain field has a leaf; a subcommand field
/// has a choice, and where a variant is selected, it is a variant of the
/// field's enum and its slots are an instance of that variant's fields.
pub open spec fn conforms<V>(
    partials: Seq<PartialSchemaView>,
    fields: Seq<PartialFieldView>,
    slots: Seq<SlotView<V>>,
) -> bool
    decreases slots, 1int,
{
    &&& slots.len() == fields.len()
    &&& forall|i: int|
        0 <= i < slots.len() ==> slot_conforms(partials, fields[i], #[trigger] slots[i])
}

/// Whether the slot `slot` holds a value of the field `field`.
pub open spec fn slot_conforms<V>(
    partials: Seq<PartialSchemaView>,
    field: PartialFieldView,
    slot: SlotView<V>,
) -> bool
    decreases slot, 0int,
{
    match slot {
        SlotView::Leaf(_) => field.choice is None,
        SlotView::Choice(None) => field.choice is Some,
        SlotView::Choice(Some(selection)) => match field.choice {
            None => false,
            Some(j) => {
                &&& 0 <= j < partials.len()
                &&& partials[j].body is Enum
                &&& 0 <= selection.variant < partials[j].body->Enum_0.len()
                &&& conforms(
                    partials,
                    partials[j].body->Enum_0[selection.variant].fields,
                    selection.fields,
                )
            },
        },
    }
}

/// The slot of the field `field` in which nothing is set.
pub open spec fn unset_slot<V>(field: PartialFieldView) -> SlotView<V> {
    if field.choice is Some {
        SlotView::Choice(None)
    } else {
        SlotView::Leaf(None)
    }
}

/// The instance of the level `fields` in which nothing is set.
pub open spec fn unset<V>(fields: Seq<PartialFieldView>) -> Seq<SlotView<V>> {
    Seq::new(fields.len(), |i: int| unset_slot(fields[i]))
}

/// Whether nothing is set in the slots `slots`.
pub open spec fn all_unset<V>(slots: Seq<SlotView<V>>) -> bool {
    forall|i: int|
        0 <= i < slots.len() ==> (#[trigger] slots[i] == SlotView::<V>::Leaf(None) || slots[i]
            == SlotView::<V>::Choice(None))
}

/// Whether everything is set in the slots `slots`: every leaf holds a
/// value, and every choice selects a variant in which everything is set.
pub open spec fn all_set<V>(slots: Seq<SlotView<V>>) -> bool
    decreases slots, 1int,
{
    forall|i: int| 0 <= i < slots.len() ==> slot_set(#[trigger] slots[i])
}

/// Whether everything is set in the slot `slot`.
pub open spec fn slot_set<V>(slot: SlotView<V>) -> bool
    decreases slot, 0int,
{
    match slot {
        SlotView::Leaf(value) => value is Some,
        SlotView::Choice(None) => false,
        SlotView::Choice(Some(selection)) => all_set(selection.fields),
    }
}

} // verus!
