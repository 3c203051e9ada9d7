use vstd::prelude::*;

use crate::arguments::ScanResult;
use crate::arguments::spec_catch_all;
use crate::arguments::spec_drive;
use crate::arguments::spec_missing;
use crate::arguments::spec_parse;
use crate::arguments::spec_scan;
use crate::arguments::spec_assign;
use crate::arguments::spec_blacklist_add;
use crate::arguments::spec_remaining;
use crate::arguments::spec_value_assign;
use crate::parsable::spec_step_pos;
use crate::parsable::FieldTry;
use crate::parsable::SpecHit;
use crate::parsable::first_eq;
use crate::parsable::has_eq;
use crate::parsable::head_of;
use crate::parsable::lemma_first_eq_at;
use crate::parsable::spec_try_field;
use crate::parsable::tail_of;
use crate::record::SpecSlot;
use crate::record::spec_default_slot;
use crate::record::spec_defaults;
use crate::result::SpecError;
use crate::schema::SpecBinding;
use crate::schema::SpecField;
use crate::schema::ValueKind;

verus! {

// ---------------------------------------------------------------------------
// Schemas the laws speak of.
// ---------------------------------------------------------------------------

/// A field holding a string value under one long option string.
pub open spec fn string_field(name: Seq<char>, kind: ValueKind, o: Seq<char>) -> SpecField {
    SpecField { name, kind, binding: SpecBinding::Long(o) }
}

/// A field holding a string value under a long and a short option string.
pub open spec fn both_field(
    name: Seq<char>,
    kind: ValueKind,
    l: Seq<char>,
    s: Seq<char>,
) -> SpecField {
    SpecField { name, kind, binding: SpecBinding::Both(l, s) }
}

/// A boolean flag under one long option string.
pub open spec fn flag_field(name: Seq<char>, o: Seq<char>) -> SpecField {
    SpecField { name, kind: ValueKind::Flag, binding: SpecBinding::Long(o) }
}

/// The catch-all field: a sequence absorbing every unmatched token.
pub open spec fn catch_all_field(name: Seq<char>) -> SpecField {
    SpecField { name, kind: ValueKind::Multi, binding: SpecBinding::CatchAll }
}

/// A token without any `=`.
pub open spec fn eq_free(o: Seq<char>) -> bool {
    forall|j: int| 0 <= j < o.len() ==> o[j] != '='
}

// ---------------------------------------------------------------------------
// Facts about token splitting.
// ---------------------------------------------------------------------------

/// A token without `=` splits into itself and no value part.
pub proof fn lemma_split_plain(o: Seq<char>)
    requires
        eq_free(o),
    ensures
        !has_eq(o),
        head_of(o) == o,
{
    lemma_first_eq_at(o, o.len() as int);
    assert(head_of(o) =~= o);
}

/// A token `o=v`, with `o` free of `=`, splits into `o` and `v`.
pub proof fn lemma_split_joined(o: Seq<char>, v: Seq<char>)
    requires
        eq_free(o),
    ensures
        has_eq(o + seq!['='] + v),
        head_of(o + seq!['='] + v) == o,
        tail_of(o + seq!['='] + v) == v,
{
    let t = o + seq!['='] + v;
    assert forall|j: int| 0 <= j < o.len() implies t[j] != '=' by {
        assert(t[j] == o[j]);
    }
    assert(t[o.len() as int] == '=');
    lemma_first_eq_at(t, o.len() as int);
    assert(head_of(t) =~= o);
    assert(tail_of(t) =~= v);
}

// ---------------------------------------------------------------------------
// Facts about the scan.
// ---------------------------------------------------------------------------

/// When every field reports a non-match at `pos`, the scan finds no field.
pub proof fn lemma_scan_no_field(fields: Seq<SpecField>, i: int, toks: Seq<Seq<char>>, pos: int)
    requires
        0 <= i,
        forall|f: int|
            i <= f < fields.len() ==> (#[trigger] spec_try_field(fields[f], toks, pos))
                is NoMatch,
    ensures
        spec_scan(fields, i, toks, pos) is NoField,
    decreases fields.len() - i,
{
    if i < fields.len() {
        lemma_scan_no_field(fields, i + 1, toks, pos);
    }
}

/// What a found scan means: the matched field really produced that hit,
/// and every field before it reported a non-match.
pub proof fn lemma_scan_found(fields: Seq<SpecField>, i: int, toks: Seq<Seq<char>>, pos: int)
    requires
        0 <= i,
        spec_scan(fields, i, toks, pos) is Found,
    ensures
        ({
            let found = spec_scan(fields, i, toks, pos);
            &&& i <= found->field < fields.len()
            &&& spec_try_field(fields[found->field], toks, pos) == FieldTry::Hit {
                opt: found->opt,
                hit: found->hit,
            }
            &&& forall|f: int|
                i <= f < found->field ==> (#[trigger] spec_try_field(fields[f], toks, pos))
                    is NoMatch
        }),
    decreases fields.len() - i,
{
    if i >= fields.len() {
    } else {
        match spec_try_field(fields[i], toks, pos) {
            FieldTry::NoMatch => {
                lemma_scan_found(fields, i + 1, toks, pos);
            },
            FieldTry::Fail => {},
            FieldTry::Hit { opt, hit } => {},
        }
    }
}

/// What a found catch-all index means: it names a real catch-all field.
pub proof fn lemma_catch_all_found(fields: Seq<SpecField>, i: int)
    requires
        0 <= i,
        spec_catch_all(fields, i) is Some,
    ensures
        ({
            let c = spec_catch_all(fields, i)->0;
            &&& i <= c < fields.len()
            &&& fields[c].binding is CatchAll
        }),
    decreases fields.len() - i,
{
    if i >= fields.len() {
    } else if fields[i].binding is CatchAll {
    } else {
        lemma_catch_all_found(fields, i + 1);
    }
}

// ---------------------------------------------------------------------------
// The catch-all absorbs a run of tokens that no field matches.
// ---------------------------------------------------------------------------

/// Driving over a stretch of tokens that no field matches and that the
/// blacklist does not hold sends each of them, in order, into the
/// catch-all slot.
pub proof fn lemma_catch_all_run(
    fields: Seq<SpecField>,
    toks: Seq<Seq<char>>,
    pos: int,
    end: int,
    bl: Set<Seq<char>>,
    slots: Seq<SpecSlot>,
    seen: Set<int>,
    acc: Seq<Seq<char>>,
)
    requires
        0 <= pos <= end <= toks.len(),
        spec_catch_all(fields, 0) is Some,
        ({
            let c = spec_catch_all(fields, 0)->0;
            0 <= c < slots.len() && slots[c] == SpecSlot::List(acc)
        }),
        forall|p: int, f: int|
            pos <= p < end && 0 <= f < fields.len() ==> (#[trigger] spec_try_field(
                fields[f],
                toks,
                p,
            )) is NoMatch,
        forall|p: int| pos <= p < end ==> !bl.contains(#[trigger] toks[p]),
    ensures
        ({
            let c = spec_catch_all(fields, 0)->0;
            spec_drive(fields, toks, pos, bl, slots, seen) == spec_drive(
                fields,
                toks,
                end,
                bl,
                slots.update(c, SpecSlot::List(acc + toks.subrange(pos, end))),
                seen,
            )
        }),
    decreases end - pos,
{
    let c = spec_catch_all(fields, 0)->0;
    lemma_catch_all_found(fields, 0);
    if pos == end {
        assert(slots.update(c, SpecSlot::List(acc + toks.subrange(pos, end))) =~~= slots);
    } else {
        lemma_scan_no_field(fields, 0, toks, pos);
        let pushed = acc.push(toks[pos]);
        let slots1 = slots.update(c, spec_value_assign(slots[c], ValueKind::Multi, toks[pos]));
        assert(slots1[c] == SpecSlot::List(pushed));
        lemma_catch_all_run(fields, toks, pos + 1, end, bl, slots1, seen, pushed);
        assert(slots1.update(c, SpecSlot::List(pushed + toks.subrange(pos + 1, end))) =~~=
            slots.update(c, SpecSlot::List(acc + toks.subrange(pos, end)))) by {
            assert(pushed + toks.subrange(pos + 1, end) =~= acc + toks.subrange(pos, end));
        }
    }
}

// ---------------------------------------------------------------------------
// The laws.
// ---------------------------------------------------------------------------

/// A flag tracks its presence in the stream. With a flag field and a
/// catch-all: a stream whose tail holds the flag's option string exactly
/// once parses successfully with the flag set and every other token in the
/// catch-all, in order; a stream that never holds it parses with the flag
/// clear.
pub proof fn lemma_flag_presence(
    fname: Seq<char>,
    cname: Seq<char>,
    o: Seq<char>,
    prog: Seq<char>,
    xs: Seq<Seq<char>>,
    ys: Seq<Seq<char>>,
)
    requires
        forall|j: int| 0 <= j < xs.len() ==> xs[j] != o,
        forall|j: int| 0 <= j < ys.len() ==> ys[j] != o,
    ensures
        spec_parse(
            seq![flag_field(fname, o), catch_all_field(cname)],
            seq![prog] + xs + seq![o] + ys,
        ) == Result::<Seq<SpecSlot>, SpecError>::Ok(
            seq![SpecSlot::Flag(true), SpecSlot::List(xs + ys)],
        ),
        spec_parse(seq![flag_field(fname, o), catch_all_field(cname)], seq![prog] + xs)
            == Result::<Seq<SpecSlot>, SpecError>::Ok(
            seq![SpecSlot::Flag(false), SpecSlot::List(xs)],
        ),
{
    let fields = seq![flag_field(fname, o), catch_all_field(cname)];
    let nil = Seq::<Seq<char>>::empty();
    let blank = Set::<Seq<char>>::empty();
    let unseen = Set::<int>::empty();
    let slots0 = spec_defaults(fields);
    assert(spec_catch_all(fields, 1) == Option::Some(1int));
    assert(spec_catch_all(fields, 0) == Option::Some(1int));
    assert(spec_missing(fields, unseen, 2) is None);
    assert(spec_missing(fields, unseen, 1) is None);
    assert(spec_missing(fields, unseen, 0) is None);
    assert(slots0[1] == SpecSlot::List(nil)) by {
        assert(slots0[1] == spec_default_slot(fields[1].kind));
    }

    // The stream with the flag present.
    let toks = seq![prog] + xs + seq![o] + ys;
    let m = 1 + xs.len() as int;
    let len = toks.len() as int;
    assert(toks[m] == o);
    assert forall|p: int, f: int| 1 <= p < m && 0 <= f < fields.len() implies (
        #[trigger] spec_try_field(fields[f], toks, p)) is NoMatch by {
        assert(toks[p] == xs[p - 1]);
        assert(toks[p] != o);
    }
    lemma_catch_all_run(fields, toks, 1, m, blank, slots0, unseen, nil);
    let slots1 = slots0.update(1, SpecSlot::List(nil + toks.subrange(1, m)));
    assert(nil + toks.subrange(1, m) =~= xs) by {
        assert(toks.subrange(1, m) =~= xs);
    }
    assert(spec_try_field(fields[0], toks, m) == FieldTry::Hit {
        opt: Option::Some(o),
        hit: SpecHit::FlagSet,
    });
    assert(spec_scan(fields, 0, toks, m) == ScanResult::Found {
        field: 0,
        opt: Option::Some(o),
        hit: SpecHit::FlagSet,
    });
    let slots2 = slots1.update(0, SpecSlot::Flag(true));
    let bl2 = blank.insert(o);
    assert(spec_drive(fields, toks, m, blank, slots1, unseen) == spec_drive(
        fields,
        toks,
        m + 1,
        bl2,
        slots2,
        unseen,
    ));
    assert(slots2[1] == SpecSlot::List(xs));
    assert forall|p: int, f: int| m + 1 <= p < len && 0 <= f < fields.len() implies (
        #[trigger] spec_try_field(fields[f], toks, p)) is NoMatch by {
        assert(toks[p] == ys[p - (m + 1)]);
        assert(toks[p] != o);
    }
    assert forall|p: int| m + 1 <= p < len implies !bl2.contains(#[trigger] toks[p]) by {
        assert(toks[p] == ys[p - (m + 1)]);
        assert(toks[p] != o);
    }
    lemma_catch_all_run(fields, toks, m + 1, len, bl2, slots2, unseen, xs);
    let slots3 = slots2.update(1, SpecSlot::List(xs + toks.subrange(m + 1, len)));
    assert(spec_drive(fields, toks, len, bl2, slots3, unseen) == Result::<
        Seq<SpecSlot>,
        SpecError,
    >::Ok(slots3));
    assert(slots3 =~~= seq![SpecSlot::Flag(true), SpecSlot::List(xs + ys)]) by {
        assert(toks.subrange(m + 1, len) =~= ys);
    }

    // The stream with the flag absent.
    let toks_a = seq![prog] + xs;
    let len_a = toks_a.len() as int;
    assert forall|p: int, f: int| 1 <= p < len_a && 0 <= f < fields.len() implies (
        #[trigger] spec_try_field(fields[f], toks_a, p)) is NoMatch by {
        assert(toks_a[p] == xs[p - 1]);
        assert(toks_a[p] != o);
    }
    lemma_catch_all_run(fields, toks_a, 1, len_a, blank, slots0, unseen, nil);
    let slots_a = slots0.update(1, SpecSlot::List(nil + toks_a.subrange(1, len_a)));
    assert(spec_drive(fields, toks_a, len_a, blank, slots_a, unseen) == Result::<
        Seq<SpecSlot>,
        SpecError,
    >::Ok(slots_a));
    assert(slots_a =~~= seq![SpecSlot::Flag(false), SpecSlot::List(xs)]) by {
        assert(nil + toks_a.subrange(1, len_a) =~= xs);
        assert(slots0[0] == spec_default_slot(fields[0].kind));
        assert(slots0.len() == 2);
    }
}

/// The `=`-joined and the space-separated forms agree: for an option
/// string free of `=` and any value whatever, `opt=value` in one token and
/// `opt` then `value` in two parse to the same record, holding the value.
pub proof fn lemma_joined_and_spaced_agree(
    name: Seq<char>,
    o: Seq<char>,
    prog: Seq<char>,
    v: Seq<char>,
)
    requires
        eq_free(o),
    ensures
        spec_parse(
            seq![string_field(name, ValueKind::OptionalString, o)],
            seq![prog, o + seq!['='] + v],
        ) == spec_parse(
            seq![string_field(name, ValueKind::OptionalString, o)],
            seq![prog, o, v],
        ),
        spec_parse(
            seq![string_field(name, ValueKind::OptionalString, o)],
            seq![prog, o, v],
        ) == Result::<Seq<SpecSlot>, SpecError>::Ok(
            seq![SpecSlot::OptStr(Option::Some(v))],
        ),
{
    let fields = seq![string_field(name, ValueKind::OptionalString, o)];
    let blank = Set::<Seq<char>>::empty();
    let unseen = Set::<int>::empty();
    let slots0 = spec_defaults(fields);
    lemma_split_plain(o);
    lemma_split_joined(o, v);
    assert(spec_missing(fields, unseen, 1) is None);
    assert(spec_missing(fields, unseen, 0) is None);
    let done = slots0.update(0, SpecSlot::OptStr(Option::Some(v)));
    assert(done =~~= seq![SpecSlot::OptStr(Option::Some(v))]) by {
        assert(slots0.len() == 1);
    }

    let joined = seq![prog, o + seq!['='] + v];
    assert(spec_try_field(fields[0], joined, 1) == FieldTry::Hit {
        opt: Option::Some(o),
        hit: SpecHit::Inline(v),
    });
    assert(spec_scan(fields, 0, joined, 1) == ScanResult::Found {
        field: 0,
        opt: Option::Some(o),
        hit: SpecHit::Inline(v),
    });
    assert(spec_drive(fields, joined, 1, blank, slots0, unseen) == spec_drive(
        fields,
        joined,
        2,
        blank.insert(o),
        done,
        unseen,
    ));

    let spaced = seq![prog, o, v];
    assert(spec_try_field(fields[0], spaced, 1) == FieldTry::Hit {
        opt: Option::Some(o),
        hit: SpecHit::Spaced(v),
    });
    assert(spec_scan(fields, 0, spaced, 1) == ScanResult::Found {
        field: 0,
        opt: Option::Some(o),
        hit: SpecHit::Spaced(v),
    });
    assert(spec_drive(fields, spaced, 1, blank, slots0, unseen) == spec_drive(
        fields,
        spaced,
        3,
        blank.insert(o),
        done,
        unseen,
    ));
}

/// Re-supplying a single-valued option twice, under the same form, is a
/// duplicate: with a field bound to a long and a short form, a stream that
/// carries either form with a value and then the same form again fails
/// with a duplicate-option error naming it, whatever the values were.
pub proof fn lemma_duplicate_option(
    name: Seq<char>,
    l: Seq<char>,
    s: Seq<char>,
    x: Seq<char>,
    prog: Seq<char>,
    a: Seq<char>,
    b: Seq<char>,
)
    requires
        x == l || x == s,
        eq_free(x),
    ensures
        spec_parse(
            seq![both_field(name, ValueKind::MandatoryString, l, s)],
            seq![prog, x, a, x, b],
        ) == Result::<Seq<SpecSlot>, SpecError>::Err(SpecError::DuplicateOption(x)),
{
    let fields = seq![both_field(name, ValueKind::MandatoryString, l, s)];
    let blank = Set::<Seq<char>>::empty();
    let unseen = Set::<int>::empty();
    let slots0 = spec_defaults(fields);
    let toks = seq![prog, x, a, x, b];
    lemma_split_plain(x);
    assert(toks[1] == x && toks[2] == a && toks[3] == x);
    let used: Seq<char> = if x == l {
        l
    } else {
        s
    };
    assert(spec_try_field(fields[0], toks, 1) == FieldTry::Hit {
        opt: Option::Some(used),
        hit: SpecHit::Spaced(a),
    });
    assert(spec_scan(fields, 0, toks, 1) == ScanResult::Found {
        field: 0,
        opt: Option::Some(used),
        hit: SpecHit::Spaced(a),
    });
    let slots1 = slots0.update(0, SpecSlot::Str(a));
    let bl1 = blank.insert(used);
    assert(spec_drive(fields, toks, 1, blank, slots0, unseen) == spec_drive(
        fields,
        toks,
        3,
        bl1,
        slots1,
        unseen.insert(0),
    ));
    assert(bl1.contains(toks[3]));
}

/// The boundary of duplicate detection: the blacklist holds the option
/// strings as they were consumed, so re-supplying the same field under its
/// other alias is matched afresh rather than rejected, and the later value
/// wins.
pub proof fn lemma_other_alias_reassigns(
    name: Seq<char>,
    l: Seq<char>,
    s: Seq<char>,
    prog: Seq<char>,
    a: Seq<char>,
    b: Seq<char>,
)
    requires
        l != s,
        eq_free(l),
        eq_free(s),
    ensures
        spec_parse(
            seq![both_field(name, ValueKind::MandatoryString, l, s)],
            seq![prog, s, a, l, b],
        ) == Result::<Seq<SpecSlot>, SpecError>::Ok(seq![SpecSlot::Str(b)]),
{
    let fields = seq![both_field(name, ValueKind::MandatoryString, l, s)];
    let blank = Set::<Seq<char>>::empty();
    let unseen = Set::<int>::empty();
    let slots0 = spec_defaults(fields);
    let toks = seq![prog, s, a, l, b];
    lemma_split_plain(l);
    lemma_split_plain(s);
    assert(toks[1] == s && toks[2] == a && toks[3] == l && toks[4] == b);
    assert(spec_try_field(fields[0], toks, 1) == FieldTry::Hit {
        opt: Option::Some(s),
        hit: SpecHit::Spaced(a),
    });
    assert(spec_scan(fields, 0, toks, 1) == ScanResult::Found {
        field: 0,
        opt: Option::Some(s),
        hit: SpecHit::Spaced(a),
    });
    let slots1 = slots0.update(0, SpecSlot::Str(a));
    let bl1 = blank.insert(s);
    let seen1 = unseen.insert(0);
    assert(spec_drive(fields, toks, 1, blank, slots0, unseen) == spec_drive(
        fields,
        toks,
        3,
        bl1,
        slots1,
        seen1,
    ));
    assert(!bl1.contains(toks[3]));
    assert(spec_try_field(fields[0], toks, 3) == FieldTry::Hit {
        opt: Option::Some(l),
        hit: SpecHit::Spaced(b),
    });
    assert(spec_scan(fields, 0, toks, 3) == ScanResult::Found {
        field: 0,
        opt: Option::Some(l),
        hit: SpecHit::Spaced(b),
    });
    let slots2 = slots1.update(0, SpecSlot::Str(b));
    assert(spec_drive(fields, toks, 3, bl1, slots1, seen1) == spec_drive(
        fields,
        toks,
        5,
        bl1.insert(l),
        slots2,
        seen1.insert(0),
    ));
    assert(seen1.insert(0).contains(0));
    assert(spec_missing(fields, seen1.insert(0), 1) is None);
    assert(spec_missing(fields, seen1.insert(0), 0) is None);
    assert(slots2 =~~= seq![SpecSlot::Str(b)]) by {
        assert(slots0.len() == 1);
    }
}

/// A value-bearing option as the final token, with no value after it,
/// fails the whole parse with an unexpected-end error. This holds for
/// every value-bearing kind.
pub proof fn lemma_unexpected_end(name: Seq<char>, kind: ValueKind, o: Seq<char>, prog: Seq<char>)
    requires
        eq_free(o),
        !(kind is Flag),
    ensures
        spec_parse(seq![string_field(name, kind, o)], seq![prog, o]) == Result::<
            Seq<SpecSlot>,
            SpecError,
        >::Err(SpecError::UnexpectedEnd),
{
    let fields = seq![string_field(name, kind, o)];
    let toks = seq![prog, o];
    lemma_split_plain(o);
    assert(toks[1] == o);
    assert(spec_try_field(fields[0], toks, 1) == FieldTry::Fail);
    assert(spec_scan(fields, 0, toks, 1) == ScanResult::Fail);
}

/// A token matching no declared option, in a schema without a catch-all,
/// fails the parse with an unknown-option error naming the token.
pub proof fn lemma_unknown_option(fname: Seq<char>, o: Seq<char>, prog: Seq<char>, t: Seq<char>)
    requires
        t != o,
    ensures
        spec_parse(seq![flag_field(fname, o)], seq![prog, t]) == Result::<
            Seq<SpecSlot>,
            SpecError,
        >::Err(SpecError::UnknownOption(t)),
{
    let fields = seq![flag_field(fname, o)];
    let toks = seq![prog, t];
    assert(toks[1] == t);
    assert(spec_try_field(fields[0], toks, 1) is NoMatch);
    assert(spec_scan(fields, 1, toks, 1) is NoField);
    assert(spec_scan(fields, 0, toks, 1) is NoField);
    assert(spec_catch_all(fields, 1) is None);
    assert(spec_catch_all(fields, 0) is None);
}

/// The same unmatched token, in a schema with a catch-all, is instead
/// appended to the catch-all sequence and the parse succeeds.
pub proof fn lemma_catch_all_collects(
    fname: Seq<char>,
    cname: Seq<char>,
    o: Seq<char>,
    prog: Seq<char>,
    t: Seq<char>,
)
    requires
        t != o,
    ensures
        spec_parse(seq![flag_field(fname, o), catch_all_field(cname)], seq![prog, t])
            == Result::<Seq<SpecSlot>, SpecError>::Ok(
            seq![SpecSlot::Flag(false), SpecSlot::List(seq![t])],
        ),
{
    lemma_flag_presence(fname, cname, o, prog, seq![t], Seq::<Seq<char>>::empty());
    assert(seq![prog] + seq![t] =~= seq![prog, t]);
}

/// A stream that repeats an option string before each of the given values.
pub open spec fn interleave(o: Seq<char>, vs: Seq<Seq<char>>) -> Seq<Seq<char>>
    decreases vs.len(),
{
    if vs.len() == 0 {
        Seq::empty()
    } else {
        seq![o, vs[0]] + interleave(o, vs.drop_first())
    }
}

proof fn lemma_multi_steps(
    name: Seq<char>,
    o: Seq<char>,
    toks: Seq<Seq<char>>,
    pos: int,
    vs: Seq<Seq<char>>,
    acc: Seq<Seq<char>>,
)
    requires
        eq_free(o),
        0 <= pos <= toks.len(),
        toks.subrange(pos, toks.len() as int) == interleave(o, vs),
    ensures
        spec_drive(
            seq![string_field(name, ValueKind::Multi, o)],
            toks,
            pos,
            Set::empty(),
            seq![SpecSlot::List(acc)],
            Set::empty(),
        ) == Result::<Seq<SpecSlot>, SpecError>::Ok(seq![SpecSlot::List(acc + vs)]),
    decreases vs.len(),
{
    let fields = seq![string_field(name, ValueKind::Multi, o)];
    let blank = Set::<Seq<char>>::empty();
    let unseen = Set::<int>::empty();
    let len = toks.len() as int;
    if vs.len() == 0 {
        assert(interleave(o, vs) =~= Seq::<Seq<char>>::empty());
        assert(len - pos == 0) by {
            assert(toks.subrange(pos, len).len() == interleave(o, vs).len());
        }
        assert(spec_missing(fields, unseen, 1) is None);
        assert(spec_missing(fields, unseen, 0) is None);
        assert(seq![SpecSlot::List(acc)] =~~= seq![SpecSlot::List(acc + vs)]) by {
            assert(acc + vs =~= acc);
        }
    } else {
        let rest = vs.drop_first();
        assert(interleave(o, vs) == seq![o, vs[0]] + interleave(o, rest));
        assert(toks.subrange(pos, len)[0] == o);
        assert(toks.subrange(pos, len)[1] == vs[0]);
        assert(toks[pos] == o && toks[pos + 1] == vs[0]);
        assert(len - pos >= 2) by {
            assert(toks.subrange(pos, len).len() >= 2);
        }
        lemma_split_plain(o);
        assert(spec_try_field(fields[0], toks, pos) == FieldTry::Hit {
            opt: Option::None,
            hit: SpecHit::Spaced(vs[0]),
        });
        assert(spec_scan(fields, 0, toks, pos) == ScanResult::Found {
            field: 0,
            opt: Option::None,
            hit: SpecHit::Spaced(vs[0]),
        });
        let grown = acc.push(vs[0]);
        let slots1 = seq![SpecSlot::List(acc)].update(0, SpecSlot::List(grown));
        assert(spec_drive(fields, toks, pos, blank, seq![SpecSlot::List(acc)], unseen)
            == spec_drive(fields, toks, pos + 2, blank, slots1, unseen));
        assert(slots1 =~~= seq![SpecSlot::List(grown)]);
        assert(toks.subrange(pos + 2, len) =~= interleave(o, rest)) by {
            assert forall|j: int| 0 <= j < len - pos - 2 implies toks.subrange(pos + 2, len)[j]
                == interleave(o, rest)[j] by {
                assert(toks.subrange(pos, len)[j + 2] == interleave(o, vs)[j + 2]);
            }
        }
        lemma_multi_steps(name, o, toks, pos + 2, rest, grown);
        assert(seq![SpecSlot::List(grown + rest)] =~~= seq![SpecSlot::List(acc + vs)]) by {
            assert(grown + rest =~= acc + vs);
        }
    }
}

/// A repeatable field accepts unbounded repetition without tripping
/// duplicate detection: a stream that repeats its option string before
/// each of any number of values parses successfully, with the values in
/// the slot in stream order.
pub proof fn lemma_multi_repetition(
    name: Seq<char>,
    o: Seq<char>,
    prog: Seq<char>,
    vs: Seq<Seq<char>>,
)
    requires
        eq_free(o),
    ensures
        spec_parse(
            seq![string_field(name, ValueKind::Multi, o)],
            seq![prog] + interleave(o, vs),
        ) == Result::<Seq<SpecSlot>, SpecError>::Ok(seq![SpecSlot::List(vs)]),
{
    let fields = seq![string_field(name, ValueKind::Multi, o)];
    let toks = seq![prog] + interleave(o, vs);
    let nil = Seq::<Seq<char>>::empty();
    assert(spec_defaults(fields) =~~= seq![SpecSlot::List(nil)]) by {
        assert(spec_defaults(fields)[0] == spec_default_slot(fields[0].kind));
    }
    assert(toks.subrange(1, toks.len() as int) =~= interleave(o, vs));
    lemma_multi_steps(name, o, toks, 1, vs, nil);
    assert(nil + vs =~= vs);
}

/// Omitting a mandatory field fails the parse with a missing-option error
/// naming the field: with a mandatory field and a catch-all, a stream none
/// of whose tokens carries the mandatory option ends with that error,
/// however many other tokens it carries.
pub proof fn lemma_missing_mandatory(
    name: Seq<char>,
    cname: Seq<char>,
    o: Seq<char>,
    prog: Seq<char>,
    xs: Seq<Seq<char>>,
)
    requires
        eq_free(o),
        forall|j: int| 0 <= j < xs.len() ==> head_of(#[trigger] xs[j]) != o,
    ensures
        spec_parse(
            seq![string_field(name, ValueKind::MandatoryString, o), catch_all_field(cname)],
            seq![prog] + xs,
        ) == Result::<Seq<SpecSlot>, SpecError>::Err(SpecError::MissingOption(name)),
{
    let fields = seq![
        string_field(name, ValueKind::MandatoryString, o),
        catch_all_field(cname),
    ];
    let blank = Set::<Seq<char>>::empty();
    let unseen = Set::<int>::empty();
    let nil = Seq::<Seq<char>>::empty();
    let slots0 = spec_defaults(fields);
    let toks = seq![prog] + xs;
    let len = toks.len() as int;
    assert(spec_catch_all(fields, 1) == Option::Some(1int));
    assert(spec_catch_all(fields, 0) == Option::Some(1int));
    assert(slots0[1] == SpecSlot::List(nil)) by {
        assert(slots0[1] == spec_default_slot(fields[1].kind));
    }
    assert forall|p: int, f: int| 1 <= p < len && 0 <= f < fields.len() implies (
        #[trigger] spec_try_field(fields[f], toks, p)) is NoMatch by {
        assert(toks[p] == xs[p - 1]);
        assert(head_of(toks[p]) != o);
    }
    lemma_catch_all_run(fields, toks, 1, len, blank, slots0, unseen, nil);
    assert(!unseen.contains(0));
    assert(spec_missing(fields, unseen, 0) == Option::Some(name));
}

/// Supplying the mandatory field anywhere in the stream clears the
/// missing-option condition: with a mandatory field and a catch-all, a
/// stream that carries the option and its value at any point, among any
/// tokens that do not carry it, parses successfully with the value in the
/// mandatory slot and everything else in the catch-all, in order.
pub proof fn lemma_mandatory_anywhere(
    name: Seq<char>,
    cname: Seq<char>,
    o: Seq<char>,
    prog: Seq<char>,
    xs: Seq<Seq<char>>,
    v: Seq<char>,
    ys: Seq<Seq<char>>,
)
    requires
        eq_free(o),
        forall|j: int| 0 <= j < xs.len() ==> head_of(#[trigger] xs[j]) != o,
        forall|j: int| 0 <= j < ys.len() ==> head_of(#[trigger] ys[j]) != o,
    ensures
        spec_parse(
            seq![string_field(name, ValueKind::MandatoryString, o), catch_all_field(cname)],
            seq![prog] + xs + seq![o, v] + ys,
        ) == Result::<Seq<SpecSlot>, SpecError>::Ok(
            seq![SpecSlot::Str(v), SpecSlot::List(xs + ys)],
        ),
{
    let fields = seq![
        string_field(name, ValueKind::MandatoryString, o),
        catch_all_field(cname),
    ];
    let blank = Set::<Seq<char>>::empty();
    let unseen = Set::<int>::empty();
    let nil = Seq::<Seq<char>>::empty();
    let slots0 = spec_defaults(fields);
    let toks = seq![prog] + xs + seq![o, v] + ys;
    let m = 1 + xs.len() as int;
    let len = toks.len() as int;
    lemma_split_plain(o);
    assert(toks[m] == o && toks[m + 1] == v);
    assert(spec_catch_all(fields, 1) == Option::Some(1int));
    assert(spec_catch_all(fields, 0) == Option::Some(1int));
    assert(slots0[1] == SpecSlot::List(nil)) by {
        assert(slots0[1] == spec_default_slot(fields[1].kind));
    }
    assert forall|p: int, f: int| 1 <= p < m && 0 <= f < fields.len() implies (
        #[trigger] spec_try_field(fields[f], toks, p)) is NoMatch by {
        assert(toks[p] == xs[p - 1]);
        assert(head_of(toks[p]) != o);
    }
    lemma_catch_all_run(fields, toks, 1, m, blank, slots0, unseen, nil);
    let slots1 = slots0.update(1, SpecSlot::List(nil + toks.subrange(1, m)));
    assert(nil + toks.subrange(1, m) =~= xs) by {
        assert(toks.subrange(1, m) =~= xs);
    }
    assert(spec_try_field(fields[0], toks, m) == FieldTry::Hit {
        opt: Option::Some(o),
        hit: SpecHit::Spaced(v),
    });
    assert(spec_scan(fields, 0, toks, m) == ScanResult::Found {
        field: 0,
        opt: Option::Some(o),
        hit: SpecHit::Spaced(v),
    });
    let slots2 = slots1.update(0, SpecSlot::Str(v));
    let bl2 = blank.insert(o);
    let seen2 = unseen.insert(0);
    assert(spec_drive(fields, toks, m, blank, slots1, unseen) == spec_drive(
        fields,
        toks,
        m + 2,
        bl2,
        slots2,
        seen2,
    ));
    assert(slots2[1] == SpecSlot::List(xs));
    assert forall|p: int, f: int| m + 2 <= p < len && 0 <= f < fields.len() implies (
        #[trigger] spec_try_field(fields[f], toks, p)) is NoMatch by {
        assert(toks[p] == ys[p - (m + 2)]);
        assert(head_of(toks[p]) != o);
    }
    assert forall|p: int| m + 2 <= p < len implies !bl2.contains(#[trigger] toks[p]) by {
        assert(toks[p] == ys[p - (m + 2)]);
        if toks[p] == o {
            assert(head_of(toks[p]) == o);
        }
    }
    lemma_catch_all_run(fields, toks, m + 2, len, bl2, slots2, seen2, xs);
    let slots3 = slots2.update(1, SpecSlot::List(xs + toks.subrange(m + 2, len)));
    assert(seen2.contains(0));
    assert(spec_missing(fields, seen2, 2) is None);
    assert(spec_missing(fields, seen2, 1) is None);
    assert(spec_missing(fields, seen2, 0) is None);
    assert(spec_drive(fields, toks, len, bl2, slots3, seen2) == Result::<
        Seq<SpecSlot>,
        SpecError,
    >::Ok(slots3));
    assert(slots3 =~~= seq![SpecSlot::Str(v), SpecSlot::List(xs + ys)]) by {
        assert(toks.subrange(m + 2, len) =~= ys);
    }
}

proof fn lemma_positional_drive(
    fields: Seq<SpecField>,
    toks: Seq<Seq<char>>,
    pos: int,
    bl: Set<Seq<char>>,
    slots: Seq<SpecSlot>,
    seen: Set<int>,
    i: int,
    k: int,
)
    requires
        0 <= i < fields.len(),
        fields[i].binding == SpecBinding::Positional(k),
        fields[i].kind == ValueKind::OptionalString,
        slots.len() == fields.len(),
        slots[i] == SpecSlot::OptStr(Option::None) || slots[i] == SpecSlot::OptStr(
            Option::Some(toks[k]),
        ),
    ensures
        spec_drive(fields, toks, pos, bl, slots, seen) matches Ok(res) ==> i < res.len() && (
        res[i] == SpecSlot::OptStr(Option::None) || res[i] == SpecSlot::OptStr(
            Option::Some(toks[k]),
        )),
    decreases spec_remaining(toks, pos),
{
    if pos >= toks.len() {
    } else if bl.contains(toks[pos]) {
    } else {
        match spec_scan(fields, 0, toks, pos) {
            ScanResult::Fail => {},
            ScanResult::Found { field, opt, hit } => {
                lemma_scan_found(fields, 0, toks, pos);
                let slots1 = slots.update(
                    field,
                    spec_assign(slots[field], fields[field].kind, hit),
                );
                if field == i {
                    assert(pos == k && hit == SpecHit::Positioned(toks[k]));
                    assert(slots1[i] == SpecSlot::OptStr(Option::Some(toks[k])));
                }
                assert(slots1.len() == slots.len());
                let seen1 = if fields[field].kind is MandatoryString {
                    seen.insert(field)
                } else {
                    seen
                };
                lemma_positional_drive(
                    fields,
                    toks,
                    spec_step_pos(pos, hit),
                    spec_blacklist_add(bl, opt),
                    slots1,
                    seen1,
                    i,
                    k,
                );
            },
            ScanResult::NoField => {
                match spec_catch_all(fields, 0) {
                    Option::Some(c) => {
                        lemma_catch_all_found(fields, 0);
                        assert(c != i);
                        let slots1 = slots.update(
                            c,
                            spec_value_assign(slots[c], ValueKind::Multi, toks[pos]),
                        );
                        assert(slots1.len() == slots.len());
                        lemma_positional_drive(fields, toks, pos + 1, bl, slots1, seen, i, k);
                    },
                    Option::None => {},
                }
            },
        }
    }
}

/// A positional field only ever takes the token whose original index in
/// the argument vector equals its declared index, however many earlier
/// tokens other fields consumed: in any successful parse, its slot is
/// either still empty or holds exactly that token.
pub proof fn lemma_positional_original_index(
    fields: Seq<SpecField>,
    toks: Seq<Seq<char>>,
    i: int,
    k: int,
)
    requires
        0 <= i < fields.len(),
        fields[i].binding == SpecBinding::Positional(k),
        fields[i].kind == ValueKind::OptionalString,
    ensures
        spec_parse(fields, toks) matches Ok(res) ==> i < res.len() && (res[i]
            == SpecSlot::OptStr(Option::None) || res[i] == SpecSlot::OptStr(
            Option::Some(toks[k]),
        )),
{
    assert(spec_defaults(fields)[i] == SpecSlot::OptStr(Option::None)) by {
        assert(spec_defaults(fields)[i] == spec_default_slot(fields[i].kind));
    }
    lemma_positional_drive(
        fields,
        toks,
        1,
        Set::empty(),
        spec_defaults(fields),
        Set::empty(),
        i,
        k,
    );
}

} // verus!
