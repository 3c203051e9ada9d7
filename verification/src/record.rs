use vstd::prelude::*;

use crate::schema::Schema;
use crate::schema::SpecField;
use crate::schema::ValueKind;

verus! {

/// The value held by one slot of a parsed record. The variant is fixed by
/// the field's [`ValueKind`]: a mandatory string slot holds a string, an
/// optional one an `Option`, a flag a boolean, and a repeatable field (or
/// the catch-all) a list.
#[derive(Debug, Clone, PartialEq)]
pub enum SlotValue {
    Str(String),
    OptStr(Option<String>),
    Flag(bool),
    List(Vec<String>),
}

/// The mathematical image of a [`SlotValue`], over character sequences.
#[verifier::ext_equal]
pub enum SpecSlot {
    Str(Seq<char>),
    OptStr(Option<Seq<char>>),
    Flag(bool),
    List(Seq<Seq<char>>),
}

impl View for SlotValue {
    type V = SpecSlot;

    open spec fn view(&self) -> SpecSlot {
        match self {
            SlotValue::Str(s) => SpecSlot::Str(s@),
            SlotValue::OptStr(o) => SpecSlot::OptStr(
                match o {
                    Option::Some(s) => Option::Some(s@),
                    Option::None => Option::None,
                },
            ),
            SlotValue::Flag(b) => SpecSlot::Flag(*b),
            SlotValue::List(l) => SpecSlot::List(l.deep_view()),
        }
    }
}

/// The record a parse assembles: one slot per schema field, in schema
/// order.
#[derive(Debug, Clone, PartialEq)]
pub struct Record {
    pub slots: Vec<SlotValue>,
}

/// The slots of a record, as their mathematical images.
pub open spec fn slots_view(slots: Seq<SlotValue>) -> Seq<SpecSlot> {
    slots.map_values(|s: SlotValue| s@)
}

impl View for Record {
    type V = Seq<SpecSlot>;

    open spec fn view(&self) -> Seq<SpecSlot> {
        slots_view(self.slots@)
    }
}

/// The default value of a slot of the given kind: the empty string, no
/// value, false, or the empty list.
pub open spec fn spec_default_slot(kind: ValueKind) -> SpecSlot {
    match kind {
        ValueKind::MandatoryString => SpecSlot::Str(Seq::empty()),
        ValueKind::OptionalString => SpecSlot::OptStr(Option::None),
        ValueKind::Flag => SpecSlot::Flag(false),
        ValueKind::Multi => SpecSlot::List(Seq::empty()),
    }
}

/// The default record for a schema: every slot holds its kind's default.
pub open spec fn spec_defaults(fields: Seq<SpecField>) -> Seq<SpecSlot> {
    Seq::new(fields.len(), |i: int| spec_default_slot(fields[i].kind))
}

impl Record {
    /// Builds the record every parse starts from, one default slot per
    /// field of the schema.
    pub fn defaults(schema: &Schema) -> (r: Record)
        ensures
            r@ == spec_defaults(schema@),
    {
        let n = schema.fields.len();
        let mut slots: Vec<SlotValue> = Vec::new();
        let mut i: usize = 0;
        while i < n
            invariant
                n == schema.fields.len(),
                n == schema@.len(),
                i <= n,
                slots@.len() == i,
                forall|j: int|
                    0 <= j < i ==> (#[trigger] slots@[j])@ == spec_default_slot(
                        schema@[j].kind,
                    ),
            decreases n - i,
        {
            proof {
                assert(schema@[i as int] == schema.fields@[i as int]@);
            }
            let slot = match schema.fields[i].kind {
                ValueKind::MandatoryString => SlotValue::Str(String::new()),
                ValueKind::OptionalString => SlotValue::OptStr(Option::None),
                ValueKind::Flag => SlotValue::Flag(false),
                ValueKind::Multi => SlotValue::List(Vec::new()),
            };
            proof {
                assert(slot@ =~= spec_default_slot(schema@[i as int].kind));
            }
            slots.push(slot);
            i += 1;
        }
        let r = Record { slots };
        proof {
            assert(r@ =~= spec_defaults(schema@));
        }
        r
    }
}

} // verus!
