use jockey::Binding;
use jockey::Error;
use jockey::FieldDescriptor;
use jockey::Record;
use jockey::Schema;
use jockey::SlotValue;
use jockey::ValueKind;
use jockey::parse_args;

fn field(name: &str, kind: ValueKind, binding: Binding) -> FieldDescriptor {
    FieldDescriptor { name: name.to_string(), kind, binding }
}

fn both(long: &str, short: &str) -> Binding {
    Binding::Both(long.to_string(), short.to_string())
}

/// A schema with one field per option form under test: string-valued
/// fields, a flag, a two-word long option, and a renamed one, most with a
/// short alias.
fn test_schema() -> Schema {
    Schema {
        fields: vec![
            field("string", ValueKind::OptionalString, both("--string", "-s")),
            field("option", ValueKind::OptionalString, both("--option", "-o")),
            field("flag", ValueKind::Flag, both("--flag", "-f")),
            field("two_words", ValueKind::OptionalString, both("--two-words", "-t")),
            field("renamed", ValueKind::OptionalString, Binding::Long("--re-named".to_string())),
        ],
    }
}

fn parse(args: &Vec<&str>) -> Result<Record, Error> {
    let tokens: Vec<String> = args.iter().map(|x| x.to_string()).collect();
    parse_args(&test_schema(), &tokens)
}

fn opt_str(v: &str) -> SlotValue {
    SlotValue::OptStr(Some(v.to_string()))
}

#[test]
pub fn parse_single_long_option() {
    {
        let actual = parse(&vec!["dummy", "--string", "foo"]).unwrap();
        let mut expected = Record::defaults(&test_schema());
        expected.slots[0] = opt_str("foo");
        assert_eq!(actual, expected);
    }
    {
        let actual = parse(&vec!["dummy", "--option", "foo"]).unwrap();
        let mut expected = Record::defaults(&test_schema());
        expected.slots[1] = opt_str("foo");
        assert_eq!(actual, expected);
    }
    {
        let actual = parse(&vec!["dummy", "--flag"]).unwrap();
        let mut expected = Record::defaults(&test_schema());
        expected.slots[2] = SlotValue::Flag(true);
        assert_eq!(actual, expected);
    }
    {
        let actual = parse(&vec!["dummy", "--two-words", "foo"]).unwrap();
        let mut expected = Record::defaults(&test_schema());
        expected.slots[3] = opt_str("foo");
        assert_eq!(actual, expected);
    }
}

#[test]
pub fn parse_multiple_long_options() {
    {
        let actual = parse(&vec!["dummy", "--option", "bar", "--string", "foo"]).unwrap();
        let mut expected = Record::defaults(&test_schema());
        expected.slots[0] = opt_str("foo");
        expected.slots[1] = opt_str("bar");
        assert_eq!(actual, expected);
    }
    {
        let actual = parse(&vec!["dummy", "--option", "bar", "--flag", "--string", "foo"])
            .unwrap();
        let mut expected = Record::defaults(&test_schema());
        expected.slots[0] = opt_str("foo");
        expected.slots[1] = opt_str("bar");
        expected.slots[2] = SlotValue::Flag(true);
        assert_eq!(actual, expected);
    }
}

#[test]
pub fn parse_single_short_option() {
    {
        let actual = parse(&vec!["dummy", "-s", "foo"]).unwrap();
        let mut expected = Record::defaults(&test_schema());
        expected.slots[0] = opt_str("foo");
        assert_eq!(actual, expected);
    }
    {
        let actual = parse(&vec!["dummy", "-o", "foo"]).unwrap();
        let mut expected = Record::defaults(&test_schema());
        expected.slots[1] = opt_str("foo");
        assert_eq!(actual, expected);
    }
    {
        let actual = parse(&vec!["dummy", "-f"]).unwrap();
        let mut expected = Record::defaults(&test_schema());
        expected.slots[2] = SlotValue::Flag(true);
        assert_eq!(actual, expected);
    }
    {
        let actual = parse(&vec!["dummy", "-t", "foo"]).unwrap();
        let mut expected = Record::defaults(&test_schema());
        expected.slots[3] = opt_str("foo");
        assert_eq!(actual, expected);
    }
}

#[test]
pub fn parse_multiple_short_options() {
    {
        let actual = parse(&vec!["dummy", "-o", "bar", "-s", "foo"]).unwrap();
        let mut expected = Record::defaults(&test_schema());
        expected.slots[0] = opt_str("foo");
        expected.slots[1] = opt_str("bar");
        assert_eq!(actual, expected);
    }
    {
        let actual = parse(&vec!["dummy", "-o", "bar", "-f", "-s", "foo"]).unwrap();
        let mut expected = Record::defaults(&test_schema());
        expected.slots[0] = opt_str("foo");
        expected.slots[1] = opt_str("bar");
        expected.slots[2] = SlotValue::Flag(true);
        assert_eq!(actual, expected);
    }
}

#[test]
pub fn parse_invalid_options() {
    match parse(&vec!["exec", "--foo", "--string", "foo"]) {
        Ok(_) => panic!(),
        Err(error) => assert_eq!(error, Error::UnknownOption("--foo".into())),
    }

    match parse(&vec!["exec", "--string"]) {
        Ok(_) => panic!(),
        Err(error) => assert_eq!(error, Error::UnexpectedEnd),
    }

    match parse(&vec!["exec", "--string", "foo", "--option"]) {
        Ok(_) => panic!(),
        Err(error) => assert_eq!(error, Error::UnexpectedEnd),
    }

    match parse(&vec!["exec", "--string", "foo", "--string", "bar"]) {
        Ok(_) => panic!(),
        Err(error) => assert_eq!(error, Error::DuplicateOption("--string".into())),
    }
}

#[test]
pub fn parse_renamed_long_option() {
    let actual = parse(&vec!["dummy", "--re-named", "foo"]).unwrap();
    let mut expected = Record::defaults(&test_schema());
    expected.slots[4] = opt_str("foo");
    assert_eq!(actual, expected);
}

/// A schema with a plain string field, a repeatable field, and a catch-all
/// bucket for everything else.
fn test_schema2() -> Schema {
    Schema {
        fields: vec![
            field("string", ValueKind::OptionalString, Binding::Long("--string".to_string())),
            field("multi", ValueKind::Multi, Binding::Long("--multi".to_string())),
            field("argn", ValueKind::Multi, Binding::CatchAll),
        ],
    }
}

fn parse2(args: &Vec<&str>) -> Result<Record, Error> {
    let tokens: Vec<String> = args.iter().map(|x| x.to_string()).collect();
    parse_args(&test_schema2(), &tokens)
}

fn string_list(items: &[&str]) -> SlotValue {
    SlotValue::List(items.iter().map(|x| x.to_string()).collect())
}

#[test]
pub fn parse_unknown_args() {
    {
        let actual = parse2(&vec!["dummy", "a1", "--string", "foo", "a2"]).unwrap();
        let mut expected = Record::defaults(&test_schema2());
        expected.slots[0] = opt_str("foo");
        expected.slots[2] = string_list(&["a1", "a2"]);
        assert_eq!(actual, expected);
    }
}

#[test]
pub fn parse_multi_args() {
    let actual = parse2(&vec!["dummy", "--multi", "a1", "--multi", "a2"]).unwrap();
    let mut expected = Record::defaults(&test_schema2());
    expected.slots[1] = string_list(&["a1", "a2"]);
    assert_eq!(actual, expected);
}

/// A schema with a positional field at original index 1 and a flag.
fn test_schema3() -> Schema {
    Schema {
        fields: vec![
            field("subcommand", ValueKind::OptionalString, Binding::Positional(1)),
            field("flag", ValueKind::Flag, Binding::Long("--flag".to_string())),
        ],
    }
}

fn parse3(args: &Vec<&str>) -> Result<Record, Error> {
    let tokens: Vec<String> = args.iter().map(|x| x.to_string()).collect();
    parse_args(&test_schema3(), &tokens)
}

#[test]
pub fn parse_positional_args() {
    let actual = parse3(&vec!["dummy", "subcommand", "--flag"]).unwrap();
    let mut expected = Record::defaults(&test_schema3());
    expected.slots[0] = opt_str("subcommand");
    expected.slots[1] = SlotValue::Flag(true);
    assert_eq!(actual, expected);
}
