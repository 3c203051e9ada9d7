use vstd::prelude::*;

use crate::parsable::FieldOutcome;
use crate::parsable::FieldTry;
use crate::parsable::HitKind;
use crate::parsable::try_field;
use crate::record::Record;
use crate::record::SlotValue;
use crate::record::slots_view;
use crate::result::Error;
use crate::schema::Binding;
use crate::schema::Schema;
use crate::parsable::SpecHit;
use crate::parsable::spec_hit_value;
use crate::parsable::spec_step_pos;
use crate::parsable::spec_try_field;
use crate::record::SpecSlot;
use crate::record::spec_defaults;
use crate::result::SpecError;
use crate::schema::SpecField;
use crate::schema::ValueKind;

verus! {

// ---------------------------------------------------------------------------
// The driver, as a mathematical function.
// ---------------------------------------------------------------------------

/// The outcome of scanning all fields, in schema order, for one that
/// matches the stream at a position.
#[verifier::ext_equal]
pub enum ScanResult {
    /// No field matched; the token goes to the catch-all or is unknown.
    NoField,
    /// The first matching field, with what it consumed.
    Found { field: int, opt: Option<Seq<char>>, hit: SpecHit },
    /// A field recognized its option as the final token with no value; the
    /// parse fails.
    Fail,
}

/// Scans fields `i`, `i + 1`, ... in order; the first that matches wins.
pub open spec fn spec_scan(
    fields: Seq<SpecField>,
    i: int,
    toks: Seq<Seq<char>>,
    pos: int,
) -> ScanResult
    decreases fields.len() - i,
{
    if i >= fields.len() {
        ScanResult::NoField
    } else {
        match spec_try_field(fields[i], toks, pos) {
            FieldTry::NoMatch => spec_scan(fields, i + 1, toks, pos),
            FieldTry::Fail => ScanResult::Fail,
            FieldTry::Hit { opt, hit } => ScanResult::Found { field: i, opt, hit },
        }
    }
}

/// The index of the first catch-all field at or after `i`, if any.
pub open spec fn spec_catch_all(fields: Seq<SpecField>, i: int) -> Option<int>
    decreases fields.len() - i,
{
    if i >= fields.len() {
        Option::None
    } else if fields[i].binding is CatchAll {
        Option::Some(i)
    } else {
        spec_catch_all(fields, i + 1)
    }
}

/// The name of the first mandatory field at or after `i` that was never
/// matched, if any.
pub open spec fn spec_missing(fields: Seq<SpecField>, seen: Set<int>, i: int) -> Option<Seq<char>>
    decreases fields.len() - i,
{
    if i >= fields.len() {
        Option::None
    } else if fields[i].kind is MandatoryString && !seen.contains(i) {
        Option::Some(fields[i].name)
    } else {
        spec_missing(fields, seen, i + 1)
    }
}

/// Stores a matched string value into a slot of the given kind: scalar
/// kinds replace the old value, a repeatable kind appends to it.
pub open spec fn spec_value_assign(slot: SpecSlot, kind: ValueKind, v: Seq<char>) -> SpecSlot {
    match kind {
        ValueKind::MandatoryString => SpecSlot::Str(v),
        ValueKind::OptionalString => SpecSlot::OptStr(Option::Some(v)),
        ValueKind::Flag => SpecSlot::Flag(true),
        ValueKind::Multi => match slot {
            SpecSlot::List(l) => SpecSlot::List(l.push(v)),
            _ => slot,
        },
    }
}

/// Stores a hit into a slot: a flag hit sets the slot to true, a value
/// hit stores the value per the slot's kind.
pub open spec fn spec_assign(slot: SpecSlot, kind: ValueKind, hit: SpecHit) -> SpecSlot {
    if hit is FlagSet {
        SpecSlot::Flag(true)
    } else {
        spec_value_assign(slot, kind, spec_hit_value(hit))
    }
}

/// Adds a consumed option string, if one was registered, to the blacklist.
pub open spec fn spec_blacklist_add(bl: Set<Seq<char>>, opt: Option<Seq<char>>) -> Set<
    Seq<char>,
> {
    match opt {
        Option::Some(o) => bl.insert(o),
        Option::None => bl,
    }
}

/// How many tokens are still unconsumed; the driver's termination measure.
pub open spec fn spec_remaining(toks: Seq<Seq<char>>, pos: int) -> int {
    if toks.len() - pos >= 0 {
        toks.len() - pos
    } else {
        0
    }
}

/// One parse, from the stream position `pos` on, with the blacklist, the
/// slots and the set of already-matched mandatory fields accumulated so
/// far. Each round: a blacklisted token fails at once; otherwise the first
/// matching field consumes what it matched; otherwise the token goes to
/// the catch-all field, or the parse fails naming the unknown token. When
/// the stream is exhausted, the first mandatory field never matched, in
/// schema order, fails the parse; otherwise the slots are the result.
pub open spec fn spec_drive(
    fields: Seq<SpecField>,
    toks: Seq<Seq<char>>,
    pos: int,
    bl: Set<Seq<char>>,
    slots: Seq<SpecSlot>,
    seen: Set<int>,
) -> Result<Seq<SpecSlot>, SpecError>
    decreases spec_remaining(toks, pos),
{
    if pos >= toks.len() {
        match spec_missing(fields, seen, 0) {
            Option::Some(name) => Result::Err(SpecError::MissingOption(name)),
            Option::None => Result::Ok(slots),
        }
    } else if bl.contains(toks[pos]) {
        Result::Err(SpecError::DuplicateOption(toks[pos]))
    } else {
        match spec_scan(fields, 0, toks, pos) {
            ScanResult::Fail => Result::Err(SpecError::UnexpectedEnd),
            ScanResult::Found { field, opt, hit } => spec_drive(
                fields,
                toks,
                spec_step_pos(pos, hit),
                spec_blacklist_add(bl, opt),
                slots.update(field, spec_assign(slots[field], fields[field].kind, hit)),
                if fields[field].kind is MandatoryString {
                    seen.insert(field)
                } else {
                    seen
                },
            ),
            ScanResult::NoField => match spec_catch_all(fields, 0) {
                Option::Some(c) => spec_drive(
                    fields,
                    toks,
                    pos + 1,
                    bl,
                    slots.update(c, spec_value_assign(slots[c], ValueKind::Multi, toks[pos])),
                    seen,
                ),
                Option::None => Result::Err(SpecError::UnknownOption(toks[pos])),
            },
        }
    }
}

/// What parsing a whole argument vector yields: the first token is the
/// program path and is never matched, every slot starts from its default,
/// and the blacklist starts empty.
pub open spec fn spec_parse(fields: Seq<SpecField>, toks: Seq<Seq<char>>) -> Result<
    Seq<SpecSlot>,
    SpecError,
> {
    spec_drive(fields, toks, 1, Set::empty(), spec_defaults(fields), Set::empty())
}

// ---------------------------------------------------------------------------
// The driver, executable.
// ---------------------------------------------------------------------------

/// The set of option strings a list of blacklist entries stands for.
pub open spec fn bl_set(entries: Seq<String>) -> Set<Seq<char>> {
    Set::new(|s: Seq<char>| exists|i: int| 0 <= i < entries.len() && entries[i]@ == s)
}

/// The set of field indices a list of per-field markers stands for.
pub open spec fn seen_set(markers: Seq<bool>) -> Set<int> {
    Set::new(|i: int| 0 <= i < markers.len() && markers[i])
}

/// Whether the token is one of the blacklisted option strings.
fn blacklist_contains(entries: &Vec<String>, token: &String) -> (r: bool)
    ensures
        r == bl_set(entries@).contains(token@),
{
    let n = entries.len();
    let mut i: usize = 0;
    while i < n
        invariant
            n == entries@.len(),
            i <= n,
            forall|j: int| 0 <= j < i ==> entries@[j]@ != token@,
        decreases n - i,
    {
        if entries[i] == *token {
            return true;
        }
        i += 1;
    }
    false
}

/// The executable image of a [`ScanResult`].
pub enum ScanStep {
    NoField,
    Found { field: usize, opt: Option<String>, hit: HitKind },
    Fail,
}

impl View for ScanStep {
    type V = ScanResult;

    open spec fn view(&self) -> ScanResult {
        match self {
            ScanStep::NoField => ScanResult::NoField,
            ScanStep::Found { field, opt, hit } => ScanResult::Found {
                field: *field as int,
                opt: match opt {
                    Option::Some(o) => Option::Some(o@),
                    Option::None => Option::None,
                },
                hit: hit@,
            },
            ScanStep::Fail => ScanResult::Fail,
        }
    }
}

/// Tries every field in schema order against the stream at `pos` and
/// reports the first match, a hard failure, or that none matched.
fn scan_fields(schema: &Schema, args: &Vec<String>, pos: usize) -> (r: ScanStep)
    ensures
        r@ == spec_scan(schema@, 0, args.deep_view(), pos as int),
        r@ matches ScanResult::Found { field, .. } ==> 0 <= field < schema@.len(),
{
    let ghost fields = schema@;
    let ghost toks = args.deep_view();
    let n = schema.fields.len();
    let mut i: usize = 0;
    while i < n
        invariant
            n == schema.fields.len(),
            n == fields.len(),
            fields == schema@,
            toks == args.deep_view(),
            i <= n,
            spec_scan(fields, 0, toks, pos as int) == spec_scan(fields, i as int, toks, pos as int),
        decreases n - i,
    {
        proof {
            assert(fields[i as int] == schema.fields@[i as int]@);
        }
        let outcome = try_field(&schema.fields[i], args, pos);
        match outcome {
            FieldOutcome::NoMatch => {
                i += 1;
            },
            FieldOutcome::Fail => {
                return ScanStep::Fail;
            },
            FieldOutcome::Hit { opt, hit } => {
                let r = ScanStep::Found { field: i, opt, hit };
                proof {
                    assert(r@ =~= spec_scan(fields, i as int, toks, pos as int));
                }
                return r;
            },
        }
    }
    ScanStep::NoField
}

/// The index of the first catch-all field, if the schema has one.
fn find_catch_all(schema: &Schema) -> (r: Option<usize>)
    ensures
        match r {
            Option::Some(c) => spec_catch_all(schema@, 0) == Option::Some(c as int) && c
                < schema@.len(),
            Option::None => spec_catch_all(schema@, 0) is None,
        },
{
    let n = schema.fields.len();
    let mut i: usize = 0;
    while i < n
        invariant
            n == schema.fields.len(),
            n == schema@.len(),
            i <= n,
            spec_catch_all(schema@, 0) == spec_catch_all(schema@, i as int),
        decreases n - i,
    {
        proof {
            assert(schema@[i as int] == schema.fields@[i as int]@);
        }
        if matches!(&schema.fields[i].binding, Binding::CatchAll) {
            return Some(i);
        }
        i += 1;
    }
    None
}

/// Stores a matched string value into slot `field`: scalar kinds replace
/// the old value, a repeatable kind appends to it.
fn apply_value(slots: &mut Vec<SlotValue>, field: usize, kind: ValueKind, value: String)
    requires
        field < old(slots).len(),
    ensures
        final(slots)@.len() == old(slots)@.len(),
        slots_view(final(slots)@) == slots_view(old(slots)@).update(
            field as int,
            spec_value_assign(slots_view(old(slots)@)[field as int], kind, value@),
        ),
{
    let ghost before = slots@;
    match kind {
        ValueKind::MandatoryString => {
            slots[field] = SlotValue::Str(value);
        },
        ValueKind::OptionalString => {
            slots[field] = SlotValue::OptStr(Some(value));
        },
        ValueKind::Flag => {
            slots[field] = SlotValue::Flag(true);
        },
        ValueKind::Multi => {
            let old_slot = slots.remove(field);
            match old_slot {
                SlotValue::List(mut list) => {
                    list.push(value);
                    slots.insert(field, SlotValue::List(list));
                },
                other => {
                    slots.insert(field, other);
                },
            }
            proof {
                assert(slots@ =~= before.update(
                    field as int,
                    slots@[field as int],
                ));
            }
        },
    }
    proof {
        assert(slots_view(slots@) =~~= slots_view(before).update(
            field as int,
            spec_value_assign(slots_view(before)[field as int], kind, value@),
        ));
    }
}

/// The mathematical image of a whole parse's outcome.
pub open spec fn spec_outcome(r: Result<Record, Error>) -> Result<Seq<SpecSlot>, SpecError> {
    match r {
        Result::Ok(rec) => Result::Ok(rec@),
        Result::Err(e) => Result::Err(e@),
    }
}

/// Parses a raw argument vector against a schema.
///
/// `args` is the argument list as the process received it; its first
/// element is the program path and is skipped. On success every slot of
/// the returned record holds what the stream supplied for its field, or
/// the field's default. The outcome — including which error is raised on
/// which input — is exactly [`spec_parse`] of the schema and the tokens.
pub fn parse_args(schema: &Schema, args: &Vec<String>) -> (r: Result<Record, Error>)
    ensures
        spec_outcome(r) == spec_parse(schema@, args.deep_view()),
{
    let ghost fields = schema@;
    let ghost toks = args.deep_view();
    let nfields = schema.fields.len();
    let ntoks = args.len();
    proof {
        assert(toks.len() == ntoks);
        assert(fields.len() == nfields);
    }
    let mut record = Record::defaults(schema);
    let mut blacklist: Vec<String> = Vec::new();
    let mut seen: Vec<bool> = Vec::new();
    let mut k: usize = 0;
    while k < nfields
        invariant
            k <= nfields,
            seen@.len() == k,
            forall|j: int| 0 <= j < k ==> !seen@[j],
        decreases nfields - k,
    {
        seen.push(false);
        k += 1;
    }
    proof {
        assert(bl_set(blacklist@) =~= Set::<Seq<char>>::empty());
        assert(seen_set(seen@) =~= Set::<int>::empty());
        assert(record.slots@.len() == nfields) by {
            assert(record@.len() == spec_defaults(fields).len());
        }
    }
    let mut pos: usize = 1;
    while pos < ntoks
        invariant
            fields == schema@,
            toks == args.deep_view(),
            nfields == schema.fields.len(),
            nfields == fields.len(),
            ntoks == args.len(),
            ntoks == toks.len(),
            record.slots@.len() == nfields,
            seen@.len() == nfields,
            1 <= pos,
            spec_drive(
                fields,
                toks,
                pos as int,
                bl_set(blacklist@),
                record@,
                seen_set(seen@),
            ) == spec_parse(fields, toks),
        decreases ntoks - pos,
    {
        proof {
            assert(toks[pos as int] == args@[pos as int]@);
        }
        if blacklist_contains(&blacklist, &args[pos]) {
            return Err(Error::DuplicateOption(args[pos].clone()));
        }
        let step = scan_fields(schema, args, pos);
        let ghost gstep = step@;
        match step {
            ScanStep::Fail => {
                return Err(Error::UnexpectedEnd);
            },
            ScanStep::Found { field, opt, hit } => {
                proof {
                    lemma_scan_bounds(fields, 0, toks, pos as int);
                    assert(fields[field as int] == schema.fields@[field as int]@);
                }
                let ghost old_bl = bl_set(blacklist@);
                let ghost old_slots = record@;
                let ghost gopt: Option<Seq<char>> = gstep->opt;
                let ghost ghit: SpecHit = gstep->hit;
                let kind = schema.fields[field].kind;
                let is_spaced = matches!(hit, HitKind::Spaced(_));
                if matches!(kind, ValueKind::MandatoryString) {
                    let ghost before = seen@;
                    seen[field] = true;
                    proof {
                        assert(seen_set(seen@) =~= seen_set(before).insert(field as int));
                    }
                }
                if let Some(entry) = opt {
                    let ghost ev: Seq<char> = entry@;
                    let ghost before = blacklist@;
                    blacklist.push(entry);
                    proof {
                        assert(gopt == Option::Some(ev));
                        assert forall|s: Seq<char>| bl_set(blacklist@).contains(s) implies
                            old_bl.insert(ev).contains(s) by {
                            let w = choose|w: int|
                                0 <= w < blacklist@.len() && blacklist@[w]@ == s;
                            if w < before.len() {
                                assert(before[w]@ == s);
                            }
                        }
                        assert forall|s: Seq<char>| old_bl.insert(ev).contains(s) implies
                            bl_set(blacklist@).contains(s) by {
                            if old_bl.contains(s) {
                                let w = choose|w: int|
                                    0 <= w < before.len() && before[w]@ == s;
                                assert(blacklist@[w]@ == s);
                            } else {
                                assert(blacklist@[before.len() as int]@ == s);
                            }
                        }
                        assert(bl_set(blacklist@) =~= old_bl.insert(ev));
                    }
                }
                match hit {
                    HitKind::FlagSet => {
                        record.slots[field] = SlotValue::Flag(true);
                        proof {
                            assert(record@ =~~= old_slots.update(
                                field as int,
                                spec_assign(old_slots[field as int], kind, ghit),
                            ));
                        }
                    },
                    HitKind::Inline(value) => {
                        apply_value(&mut record.slots, field, kind, value);
                    },
                    HitKind::Spaced(value) => {
                        apply_value(&mut record.slots, field, kind, value);
                    },
                    HitKind::Positioned(value) => {
                        apply_value(&mut record.slots, field, kind, value);
                    },
                }
                proof {
                    assert(record@ == old_slots.update(
                        field as int,
                        spec_assign(old_slots[field as int], fields[field as int].kind, ghit),
                    ));
                }
                pos = if is_spaced {
                    pos + 2
                } else {
                    pos + 1
                };
                proof {
                    assert(pos as int == spec_step_pos(
                        pos as int - if is_spaced { 2int } else { 1int },
                        ghit,
                    ));
                }
            },
            ScanStep::NoField => {
                match find_catch_all(schema) {
                    Some(c) => {
                        let ghost old_slots = record@;
                        apply_value(&mut record.slots, c, ValueKind::Multi, args[pos].clone());
                        proof {
                            assert(record@ == old_slots.update(
                                c as int,
                                spec_value_assign(old_slots[c as int], ValueKind::Multi,
                                toks[pos as int]),
                            ));
                        }
                        pos += 1;
                    },
                    None => {
                        return Err(Error::UnknownOption(args[pos].clone()));
                    },
                }
            },
        }
    }
    let ghost final_seen = seen_set(seen@);
    proof {
        assert(spec_parse(fields, toks) == match spec_missing(fields, final_seen, 0) {
            Option::Some(name) => Result::<Seq<SpecSlot>, SpecError>::Err(
                SpecError::MissingOption(name),
            ),
            Option::None => Result::<Seq<SpecSlot>, SpecError>::Ok(record@),
        });
    }
    let mut i: usize = 0;
    while i < nfields
        invariant
            fields == schema@,
            nfields == schema.fields.len(),
            nfields == fields.len(),
            seen@.len() == nfields,
            final_seen == seen_set(seen@),
            i <= nfields,
            spec_missing(fields, final_seen, 0) == spec_missing(fields, final_seen, i as int),
            spec_parse(fields, toks) == match spec_missing(fields, final_seen, 0) {
                Option::Some(name) => Result::<Seq<SpecSlot>, SpecError>::Err(
                    SpecError::MissingOption(name),
                ),
                Option::None => Result::<Seq<SpecSlot>, SpecError>::Ok(record@),
            },
            toks == args.deep_view(),
        decreases nfields - i,
    {
        proof {
            assert(fields[i as int] == schema.fields@[i as int]@);
        }
        if matches!(schema.fields[i].kind, ValueKind::MandatoryString) {
            if !seen[i] {
                proof {
                    assert(!final_seen.contains(i as int));
                }
                return Err(Error::MissingOption(schema.fields[i].name.clone()));
            }
            proof {
                assert(final_seen.contains(i as int));
            }
        }
        i += 1;
    }
    proof {
        assert(spec_missing(fields, final_seen, 0) is None);
    }
    Ok(record)
}

/// A scan hit stays within bounds: the matched field is a real field, the
/// hit was made at a real token, and a spaced hit had a real value token.
pub proof fn lemma_scan_bounds(fields: Seq<SpecField>, i: int, toks: Seq<Seq<char>>, pos: int)
    requires
        0 <= i,
        spec_scan(fields, i, toks, pos) is Found,
    ensures
        ({
            let found = spec_scan(fields, i, toks, pos);
            &&& i <= found->field < fields.len()
            &&& 0 <= pos < toks.len()
            &&& found->hit is Spaced ==> pos + 1 < toks.len()
        }),
    decreases fields.len() - i,
{
    if i >= fields.len() {
    } else {
        match spec_try_field(fields[i], toks, pos) {
            FieldTry::NoMatch => {
                lemma_scan_bounds(fields, i + 1, toks, pos);
            },
            FieldTry::Fail => {},
            FieldTry::Hit { opt, hit } => {},
        }
    }
}

} // verus!
