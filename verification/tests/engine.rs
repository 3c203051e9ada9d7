use jockey::Binding;
use jockey::Error;
use jockey::FieldDescriptor;
use jockey::Record;
use jockey::Schema;
use jockey::SlotValue;
use jockey::ValueKind;
use jockey::parse_args;

fn field(name: &str, kind: ValueKind, binding: Binding) -> FieldDescriptor {
    FieldDescriptor { name: name.to_string(), kind, binding }
}

fn long(o: &str) -> Binding {
    Binding::Long(o.to_string())
}

fn tokens(args: &[&str]) -> Vec<String> {
    args.iter().map(|x| x.to_string()).collect()
}

fn opt_str(v: &str) -> SlotValue {
    SlotValue::OptStr(Some(v.to_string()))
}

fn string_list(items: &[&str]) -> SlotValue {
    SlotValue::List(items.iter().map(|x| x.to_string()).collect())
}

/// A flag with a catch-all: the flag's single occurrence sets it, every
/// other token lands in the catch-all in stream order.
#[test]
fn flag_present_once_sets_it() {
    let schema = Schema {
        fields: vec![
            field("flag", ValueKind::Flag, long("--flag")),
            field("rest", ValueKind::Multi, Binding::CatchAll),
        ],
    };
    let actual = parse_args(&schema, &tokens(&["prog", "a", "--flag", "b"])).unwrap();
    let mut expected = Record::defaults(&schema);
    expected.slots[0] = SlotValue::Flag(true);
    expected.slots[1] = string_list(&["a", "b"]);
    assert_eq!(actual, expected);

    let absent = parse_args(&schema, &tokens(&["prog", "a", "b"])).unwrap();
    let mut expected = Record::defaults(&schema);
    expected.slots[1] = string_list(&["a", "b"]);
    assert_eq!(absent, expected);
}

/// The `=`-joined and the space-separated forms yield the same value.
#[test]
fn joined_and_spaced_forms_agree() {
    let schema = Schema {
        fields: vec![field("opt", ValueKind::OptionalString, long("--opt"))],
    };
    let joined = parse_args(&schema, &tokens(&["prog", "--opt=v"])).unwrap();
    let spaced = parse_args(&schema, &tokens(&["prog", "--opt", "v"])).unwrap();
    assert_eq!(joined, spaced);
    assert_eq!(joined.slots[0], opt_str("v"));
}

/// A joined form keeps everything after the first `=`, even empty.
#[test]
fn joined_form_splits_on_first_equals_only() {
    let schema = Schema {
        fields: vec![field("opt", ValueKind::OptionalString, long("--opt"))],
    };
    let nested = parse_args(&schema, &tokens(&["prog", "--opt=a=b"])).unwrap();
    assert_eq!(nested.slots[0], opt_str("a=b"));
    let empty = parse_args(&schema, &tokens(&["prog", "--opt="])).unwrap();
    assert_eq!(empty.slots[0], opt_str(""));
}

/// A flag matches only the bare option token; a joined form is unknown.
#[test]
fn flag_takes_no_value() {
    let schema = Schema {
        fields: vec![field("flag", ValueKind::Flag, long("--flag"))],
    };
    let err = parse_args(&schema, &tokens(&["prog", "--flag=x"])).unwrap_err();
    assert_eq!(err, Error::UnknownOption("--flag=x".into()));
}

/// Repeating the same single-valued option under the short form is a
/// duplicate, exactly as under the long form.
#[test]
fn duplicate_short_form_rejected() {
    let schema = Schema {
        fields: vec![
            field("string", ValueKind::OptionalString,
                Binding::Both("--string".to_string(), "-s".to_string())),
        ],
    };
    let err = parse_args(&schema, &tokens(&["prog", "-s", "a", "-s", "b"])).unwrap_err();
    assert_eq!(err, Error::DuplicateOption("-s".into()));
}

/// The blacklist holds the consumed token itself: re-supplying the field
/// under its other alias is not caught and the later value wins.
#[test]
fn duplicate_under_other_alias_reassigns() {
    let schema = Schema {
        fields: vec![
            field("string", ValueKind::OptionalString,
                Binding::Both("--string".to_string(), "-s".to_string())),
        ],
    };
    let actual = parse_args(&schema, &tokens(&["prog", "-s", "a", "--string", "b"])).unwrap();
    assert_eq!(actual.slots[0], opt_str("b"));
}

/// A repeatable field accepts repetition in either form, in order.
#[test]
fn multi_repeats_in_both_forms() {
    let schema = Schema {
        fields: vec![field("multi", ValueKind::Multi, long("--multi"))],
    };
    let actual = parse_args(
        &schema,
        &tokens(&["prog", "--multi=a", "--multi", "b", "--multi", "c"]),
    ).unwrap();
    assert_eq!(actual.slots[0], string_list(&["a", "b", "c"]));
}

/// An omitted mandatory field is reported by name; supplying it anywhere,
/// even after unmatched tokens, clears the condition.
#[test]
fn mandatory_field_must_appear() {
    let schema = Schema {
        fields: vec![
            field("name", ValueKind::MandatoryString, long("--name")),
            field("rest", ValueKind::Multi, Binding::CatchAll),
        ],
    };
    let err = parse_args(&schema, &tokens(&["prog", "x", "y"])).unwrap_err();
    assert_eq!(err, Error::MissingOption("name".into()));

    let actual = parse_args(&schema, &tokens(&["prog", "x", "--name", "v", "y"])).unwrap();
    let mut expected = Record::defaults(&schema);
    expected.slots[0] = SlotValue::Str("v".to_string());
    expected.slots[1] = string_list(&["x", "y"]);
    assert_eq!(actual, expected);
}

/// A mandatory field missing from an empty stream is reported; the first
/// missing one, in schema order, gives the name.
#[test]
fn first_missing_mandatory_named() {
    let schema = Schema {
        fields: vec![
            field("first", ValueKind::MandatoryString, long("--first")),
            field("second", ValueKind::MandatoryString, long("--second")),
        ],
    };
    let err = parse_args(&schema, &tokens(&["prog"])).unwrap_err();
    assert_eq!(err, Error::MissingOption("first".into()));

    let err = parse_args(&schema, &tokens(&["prog", "--first", "a"])).unwrap_err();
    assert_eq!(err, Error::MissingOption("second".into()));
}

/// A value-bearing option as the last token has no value to take.
#[test]
fn value_option_at_end_fails() {
    let schema = Schema {
        fields: vec![field("multi", ValueKind::Multi, long("--multi"))],
    };
    let err = parse_args(&schema, &tokens(&["prog", "--multi", "a", "--multi"])).unwrap_err();
    assert_eq!(err, Error::UnexpectedEnd);
}

/// A positional field takes only the token at its original index: once an
/// option consumed that position's predecessors, a later token does not
/// slide into it.
#[test]
fn positional_goes_by_original_index() {
    let schema = Schema {
        fields: vec![
            field("subcommand", ValueKind::OptionalString, Binding::Positional(1)),
            field("flag", ValueKind::Flag, long("--flag")),
        ],
    };
    let err = parse_args(&schema, &tokens(&["prog", "--flag", "subcommand"])).unwrap_err();
    assert_eq!(err, Error::UnknownOption("subcommand".into()));

    let actual = parse_args(&schema, &tokens(&["prog", "subcommand", "--flag"])).unwrap();
    let mut expected = Record::defaults(&schema);
    expected.slots[0] = opt_str("subcommand");
    expected.slots[1] = SlotValue::Flag(true);
    assert_eq!(actual, expected);
}

/// An empty argument vector parses to the default record.
#[test]
fn empty_arguments_give_defaults() {
    let schema = Schema {
        fields: vec![
            field("opt", ValueKind::OptionalString, long("--opt")),
            field("flag", ValueKind::Flag, long("--flag")),
            field("multi", ValueKind::Multi, long("--multi")),
        ],
    };
    let actual = parse_args(&schema, &Vec::new()).unwrap();
    assert_eq!(actual, Record::defaults(&schema));
    assert_eq!(actual.slots[0], SlotValue::OptStr(None));
    assert_eq!(actual.slots[1], SlotValue::Flag(false));
    assert_eq!(actual.slots[2], SlotValue::List(Vec::new()));
}

/// The default slot of a mandatory field is the empty string.
#[test]
fn mandatory_default_is_empty_string() {
    let schema = Schema {
        fields: vec![field("name", ValueKind::MandatoryString, long("--name"))],
    };
    let defaults = Record::defaults(&schema);
    assert_eq!(defaults.slots[0], SlotValue::Str(String::new()));
}

/// The declaration-order tie-break: the first field matching a token wins.
#[test]
fn first_declared_field_wins() {
    let schema = Schema {
        fields: vec![
            field("a", ValueKind::OptionalString, long("--same")),
            field("b", ValueKind::OptionalString, long("--same")),
        ],
    };
    let actual = parse_args(&schema, &tokens(&["prog", "--same", "v"])).unwrap();
    let mut expected = Record::defaults(&schema);
    expected.slots[0] = opt_str("v");
    assert_eq!(actual, expected);
}

/// The schema invariant check: one catch-all, unique positions, and a
/// sequence-valued catch-all pass; violations of each are caught.
#[test]
fn well_formedness_check() {
    let good = Schema {
        fields: vec![
            field("a", ValueKind::OptionalString, long("--a")),
            field("p", ValueKind::OptionalString, Binding::Positional(1)),
            field("q", ValueKind::OptionalString, Binding::Positional(2)),
            field("rest", ValueKind::Multi, Binding::CatchAll),
        ],
    };
    assert!(good.is_well_formed());

    let two_catch_alls = Schema {
        fields: vec![
            field("rest", ValueKind::Multi, Binding::CatchAll),
            field("more", ValueKind::Multi, Binding::CatchAll),
        ],
    };
    assert!(!two_catch_alls.is_well_formed());

    let repeated_position = Schema {
        fields: vec![
            field("p", ValueKind::OptionalString, Binding::Positional(1)),
            field("q", ValueKind::OptionalString, Binding::Positional(1)),
        ],
    };
    assert!(!repeated_position.is_well_formed());

    let scalar_catch_all = Schema {
        fields: vec![field("rest", ValueKind::OptionalString, Binding::CatchAll)],
    };
    assert!(!scalar_catch_all.is_well_formed());
}

/// Error descriptions and messages name the offending token or field.
#[test]
fn error_messages() {
    assert_eq!(Error::UnknownOption("--x".into()).message(), "Unknown option: --x");
    assert_eq!(Error::UnexpectedEnd.message(), "Unexpected end of arguments vector");
    assert_eq!(Error::MissingOption("name".into()).message(),
        "Missing mandatory argument: name");
    assert_eq!(Error::DuplicateOption("--x".into()).message(), "Duplicate option: --x");
    assert_eq!(Error::UnexpectedEnd.description(), "Unexpected end of arguments vector");
}

/// A later single-valued match replaces the earlier value only through the
/// stream's own forms; the blacklist compares whole tokens, so a joined
/// form after a spaced one is matched again rather than rejected.
#[test]
fn blacklist_compares_whole_tokens() {
    let schema = Schema {
        fields: vec![field("opt", ValueKind::OptionalString, long("--opt"))],
    };
    let actual = parse_args(&schema, &tokens(&["prog", "--opt", "a", "--opt=b"])).unwrap();
    assert_eq!(actual.slots[0], opt_str("b"));
}

/// A flag is blacklisted once consumed: repeating it is a duplicate.
#[test]
fn duplicate_flag_rejected() {
    let schema = Schema {
        fields: vec![field("flag", ValueKind::Flag, long("--flag"))],
    };
    let err = parse_args(&schema, &tokens(&["prog", "--flag", "--flag"])).unwrap_err();
    assert_eq!(err, Error::DuplicateOption("--flag".into()));
}

/// The positional matcher takes the token at its declared index and no
/// other, and registers nothing for blacklisting.
#[test]
fn positional_matcher_by_index() {
    let stream = tokens(&["a", "b"]);
    let (hit, next) = jockey::parse_arg_positional(&stream, 1, 1);
    assert_eq!(hit.parsed, Some(Ok("b".to_string())));
    assert_eq!(hit.blacklist, None);
    assert_eq!(next, 2);

    let (miss, next) = jockey::parse_arg_positional(&stream, 0, 1);
    assert_eq!(miss.parsed, None);
    assert_eq!(next, 0);
}
