use vstd::prelude::*;
use vstd::string::*;

use crate::result::Error;
use crate::schema::Binding;
use crate::schema::FieldDescriptor;
use crate::schema::SpecField;
use crate::schema::SpecBinding;
use crate::schema::ValueKind;

verus! {

// ---------------------------------------------------------------------------
// Splitting a token once on its first `=`.
// ---------------------------------------------------------------------------

/// The index of the first `=` in `t`, or `t.len()` when `t` has none.
pub open spec fn first_eq(t: Seq<char>) -> int
    decreases t.len(),
{
    if t.len() == 0 {
        0
    } else if t[0] == '=' {
        0
    } else {
        1 + first_eq(t.subrange(1, t.len() as int))
    }
}

/// Whether `t` contains an `=`.
pub open spec fn has_eq(t: Seq<char>) -> bool {
    first_eq(t) < t.len()
}

/// The part of `t` before its first `=`, or all of `t` when it has none.
pub open spec fn head_of(t: Seq<char>) -> Seq<char> {
    t.subrange(0, first_eq(t))
}

/// The part of `t` after its first `=`; meaningful only when `has_eq(t)`.
pub open spec fn tail_of(t: Seq<char>) -> Seq<char> {
    t.subrange(first_eq(t) + 1, t.len() as int)
}

/// `first_eq(t)` is exactly the position of the first `=`: it is `i` when
/// nothing before `i` is an `=` and either `i` is the length or `t[i]` is
/// an `=`.
pub proof fn lemma_first_eq_at(t: Seq<char>, i: int)
    requires
        0 <= i <= t.len(),
        forall|j: int| 0 <= j < i ==> t[j] != '=',
        i < t.len() ==> t[i] == '=',
    ensures
        first_eq(t) == i,
    decreases i,
{
    if i == 0 {
    } else {
        let rest = t.subrange(1, t.len() as int);
        assert(t[0] != '=');
        assert forall|j: int| 0 <= j < i - 1 implies rest[j] != '=' by {
            assert(rest[j] == t[j + 1]);
        }
        if i - 1 < rest.len() {
            assert(rest[i - 1] == t[i]);
        }
        lemma_first_eq_at(rest, i - 1);
    }
}

/// Splits a token once on its first `=`: the head, and the part after the
/// `=` when there is one.
fn split_token(t: &String) -> (r: (String, Option<String>))
    ensures
        r.0@ == head_of(t@),
        r.1 matches Some(v) ==> has_eq(t@) && v@ == tail_of(t@),
        r.1 is None ==> !has_eq(t@),
{
    let s = t.as_str();
    let n = s.unicode_len();
    let mut i: usize = 0;
    while i < n
        invariant
            s@ == t@,
            n == s@.len(),
            i <= n,
            forall|j: int| 0 <= j < i ==> s@[j] != '=',
        decreases n - i,
    {
        if s.get_char(i) == '=' {
            proof {
                lemma_first_eq_at(t@, i as int);
            }
            let head = s.substring_char(0, i).to_owned();
            let tail = s.substring_char(i + 1, n).to_owned();
            return (head, Some(tail));
        }
        i += 1;
    }
    proof {
        lemma_first_eq_at(t@, n as int);
    }
    (s.to_owned(), None)
}

// ---------------------------------------------------------------------------
// Matching one option string against the stream.
// ---------------------------------------------------------------------------

/// What matching a value-bearing option string against the stream at a
/// position yields.
#[verifier::ext_equal]
pub enum OptMatch {
    /// The token's head is not the option string (or the stream is over).
    NoMatch,
    /// The token was `option=value`; one token is consumed.
    Inline(Seq<char>),
    /// The token was the bare option string and the value is the following
    /// token; two tokens are consumed.
    Spaced(Seq<char>),
    /// The token was the bare option string, and it was the last token.
    End,
}

/// The matching rule shared by all string-valued kinds: split the token at
/// the position once on `=`; when its head equals the option string, the
/// value is the part after the `=`, or else the following token.
pub open spec fn spec_match_value(toks: Seq<Seq<char>>, pos: int, o: Seq<char>) -> OptMatch {
    if pos < 0 || pos >= toks.len() {
        OptMatch::NoMatch
    } else if head_of(toks[pos]) == o {
        if has_eq(toks[pos]) {
            OptMatch::Inline(tail_of(toks[pos]))
        } else if pos + 1 < toks.len() {
            OptMatch::Spaced(toks[pos + 1])
        } else {
            OptMatch::End
        }
    } else {
        OptMatch::NoMatch
    }
}

/// The matching rule for flags: the whole token equals the option string.
pub open spec fn spec_match_flag(toks: Seq<Seq<char>>, pos: int, o: Seq<char>) -> bool {
    0 <= pos < toks.len() && toks[pos] == o
}

// ---------------------------------------------------------------------------
// Trying one field descriptor against the stream.
// ---------------------------------------------------------------------------

/// A successful match of one field, as the driver consumes it: what was
/// read and how many tokens it took.
#[verifier::ext_equal]
pub enum SpecHit {
    /// A bare flag token; one token consumed.
    FlagSet,
    /// A value joined by `=`; one token consumed.
    Inline(Seq<char>),
    /// A value in the following token; two tokens consumed.
    Spaced(Seq<char>),
    /// A positional token taken as the value; one token consumed.
    Positioned(Seq<char>),
}

/// The value a hit carries; a flag hit stands for the value `true`.
pub open spec fn spec_hit_value(hit: SpecHit) -> Seq<char> {
    match hit {
        SpecHit::FlagSet => Seq::empty(),
        SpecHit::Inline(v) => v,
        SpecHit::Spaced(v) => v,
        SpecHit::Positioned(v) => v,
    }
}

/// The stream position after consuming a hit made at `pos`.
pub open spec fn spec_step_pos(pos: int, hit: SpecHit) -> int {
    match hit {
        SpecHit::Spaced(_) => pos + 2,
        _ => pos + 1,
    }
}

/// The outcome of trying one field descriptor at one stream position.
#[verifier::ext_equal]
pub enum FieldTry {
    /// The field does not match here; the driver tries the next field.
    NoMatch,
    /// The field matched. `opt` is the option string to blacklist, if any:
    /// repeatable fields and positional fields register none.
    Hit { opt: Option<Seq<char>>, hit: SpecHit },
    /// The field's option was the final token with no value after it; the
    /// whole parse fails with an unexpected-end error.
    Fail,
}

/// Tries one option string of a field of the given kind.
pub open spec fn spec_try_option(
    kind: ValueKind,
    o: Seq<char>,
    toks: Seq<Seq<char>>,
    pos: int,
) -> FieldTry {
    if kind is Flag {
        if spec_match_flag(toks, pos, o) {
            FieldTry::Hit { opt: Option::Some(o), hit: SpecHit::FlagSet }
        } else {
            FieldTry::NoMatch
        }
    } else {
        match spec_match_value(toks, pos, o) {
            OptMatch::NoMatch => FieldTry::NoMatch,
            OptMatch::Inline(v) => FieldTry::Hit {
                opt: if kind is Multi {
                    Option::None
                } else {
                    Option::Some(o)
                },
                hit: SpecHit::Inline(v),
            },
            OptMatch::Spaced(v) => FieldTry::Hit {
                opt: if kind is Multi {
                    Option::None
                } else {
                    Option::Some(o)
                },
                hit: SpecHit::Spaced(v),
            },
            OptMatch::End => FieldTry::Fail,
        }
    }
}

/// Tries one field descriptor: each of its option strings in order (the
/// long form before the short), or its position. The catch-all never
/// matches here; the driver routes to it only when no field matched.
pub open spec fn spec_try_field(f: SpecField, toks: Seq<Seq<char>>, pos: int) -> FieldTry {
    match f.binding {
        SpecBinding::Long(o) => spec_try_option(f.kind, o, toks, pos),
        SpecBinding::Short(o) => spec_try_option(f.kind, o, toks, pos),
        SpecBinding::Both(l, s) => {
            let first = spec_try_option(f.kind, l, toks, pos);
            if first is NoMatch {
                spec_try_option(f.kind, s, toks, pos)
            } else {
                first
            }
        },
        SpecBinding::Positional(k) => if 0 <= pos < toks.len() && pos == k {
            FieldTry::Hit { opt: Option::None, hit: SpecHit::Positioned(toks[pos]) }
        } else {
            FieldTry::NoMatch
        },
        SpecBinding::CatchAll => FieldTry::NoMatch,
    }
}

/// The executable image of a [`SpecHit`].
#[derive(Debug, Clone, PartialEq)]
pub enum HitKind {
    FlagSet,
    Inline(String),
    Spaced(String),
    Positioned(String),
}

impl View for HitKind {
    type V = SpecHit;

    open spec fn view(&self) -> SpecHit {
        match self {
            HitKind::FlagSet => SpecHit::FlagSet,
            HitKind::Inline(v) => SpecHit::Inline(v@),
            HitKind::Spaced(v) => SpecHit::Spaced(v@),
            HitKind::Positioned(v) => SpecHit::Positioned(v@),
        }
    }
}

/// The executable image of a [`FieldTry`].
#[derive(Debug, Clone, PartialEq)]
pub enum FieldOutcome {
    NoMatch,
    Hit { opt: Option<String>, hit: HitKind },
    Fail,
}

impl View for FieldOutcome {
    type V = FieldTry;

    open spec fn view(&self) -> FieldTry {
        match self {
            FieldOutcome::NoMatch => FieldTry::NoMatch,
            FieldOutcome::Hit { opt, hit } => FieldTry::Hit {
                opt: match opt {
                    Option::Some(o) => Option::Some(o@),
                    Option::None => Option::None,
                },
                hit: hit@,
            },
            FieldOutcome::Fail => FieldTry::Fail,
        }
    }
}

/// Tries one option string of a field of the given kind against the stream
/// at `pos`.
fn try_option(kind: ValueKind, option: &String, tokens: &Vec<String>, pos: usize) -> (r:
    FieldOutcome)
    ensures
        r@ == spec_try_option(kind, option@, tokens.deep_view(), pos as int),
{
    let ghost toks = tokens.deep_view();
    proof {
        assert(toks.len() == tokens@.len());
        if pos < tokens@.len() {
            assert(toks[pos as int] == tokens@[pos as int]@);
        }
    }
    if pos >= tokens.len() {
        return FieldOutcome::NoMatch;
    }
    if matches!(kind, ValueKind::Flag) {
        if tokens[pos] == *option {
            FieldOutcome::Hit { opt: Some(option.clone()), hit: HitKind::FlagSet }
        } else {
            FieldOutcome::NoMatch
        }
    } else {
        let (head, tail) = split_token(&tokens[pos]);
        if head == *option {
            let registered = if matches!(kind, ValueKind::Multi) {
                None
            } else {
                Some(option.clone())
            };
            match tail {
                Some(value) => FieldOutcome::Hit { opt: registered, hit: HitKind::Inline(value) },
                None => {
                    if pos + 1 < tokens.len() {
                        proof {
                            assert(toks[pos as int + 1] == tokens@[pos as int + 1]@);
                        }
                        FieldOutcome::Hit {
                            opt: registered,
                            hit: HitKind::Spaced(tokens[pos + 1].clone()),
                        }
                    } else {
                        FieldOutcome::Fail
                    }
                },
            }
        } else {
            FieldOutcome::NoMatch
        }
    }
}

/// Tries one field descriptor against the stream at `pos`: its long form,
/// then its short form, or its position. This is the single dispatch point
/// over the value kinds and bindings.
pub fn try_field(f: &FieldDescriptor, tokens: &Vec<String>, pos: usize) -> (r: FieldOutcome)
    ensures
        r@ == spec_try_field(f@, tokens.deep_view(), pos as int),
{
    let ghost toks = tokens.deep_view();
    match &f.binding {
        Binding::Long(o) => try_option(f.kind, o, tokens, pos),
        Binding::Short(o) => try_option(f.kind, o, tokens, pos),
        Binding::Both(l, s) => {
            let first = try_option(f.kind, l, tokens, pos);
            if matches!(first, FieldOutcome::NoMatch) {
                try_option(f.kind, s, tokens, pos)
            } else {
                first
            }
        },
        Binding::Positional(k) => {
            if pos < tokens.len() && pos == *k {
                proof {
                    assert(toks[pos as int] == tokens@[pos as int]@);
                }
                FieldOutcome::Hit {
                    opt: None,
                    hit: HitKind::Positioned(tokens[pos].clone()),
                }
            } else {
                FieldOutcome::NoMatch
            }
        },
        Binding::CatchAll => FieldOutcome::NoMatch,
    }
}

// ---------------------------------------------------------------------------
// The per-kind matchers, packaged as `ParseResult` values.
// ---------------------------------------------------------------------------

/// What matching one field against the stream produced: possibly a parsed
/// value or an error, and possibly an option string that should not be
/// accepted again.
#[derive(Debug, Clone)]
pub struct ParseResult<T> {
    /// The parse result: `None` when the field simply did not match.
    pub parsed: Option<Result<T, Error>>,
    /// An option string to blacklist against duplicates.
    pub blacklist: Option<String>,
}

impl<T> ParseResult<T> {
    /// Packs a parse outcome and a blacklist entry.
    pub fn new(parsed: Option<Result<T, Error>>, blacklist: Option<String>) -> (r: Self)
        ensures
            r.parsed == parsed,
            r.blacklist == blacklist,
    {
        ParseResult { parsed, blacklist }
    }

    /// A successful match.
    pub fn success(parsed: T, blacklist: Option<String>) -> (r: Self)
        ensures
            r.parsed == Option::Some(Result::<T, Error>::Ok(parsed)),
            r.blacklist == blacklist,
    {
        ParseResult::new(Some(Ok(parsed)), blacklist)
    }

    /// A non-match: the field does not apply at this position.
    pub fn none() -> (r: Self)
        ensures
            r.parsed is None,
            r.blacklist is None,
    {
        ParseResult::new(None, None)
    }

    /// A hard error that aborts the whole parse.
    pub fn err(err: Error) -> (r: Self)
        ensures
            r.parsed == Option::Some(Result::<T, Error>::Err(err)),
            r.blacklist is None,
    {
        ParseResult::new(Some(Err(err)), None)
    }
}

/// Matches one single-valued string option at `pos`: `--opt=value` or
/// `--opt value`. Returns the result and the next unconsumed position.
/// A successful match registers the option string for blacklisting.
pub fn parse_arg_string(tokens: &Vec<String>, pos: usize, option: &String) -> (r: (
    ParseResult<String>,
    usize,
))
    ensures
        ({
            let m = spec_match_value(tokens.deep_view(), pos as int, option@);
            match m {
                OptMatch::NoMatch => r.0.parsed is None && r.0.blacklist is None && r.1 == pos,
                OptMatch::Inline(v) => (r.0.parsed matches Some(Ok(w)) && w@ == v)
                    && (r.0.blacklist matches Some(b) && b@ == option@) && r.1 == pos + 1,
                OptMatch::Spaced(v) => (r.0.parsed matches Some(Ok(w)) && w@ == v)
                    && (r.0.blacklist matches Some(b) && b@ == option@) && r.1 == pos + 2,
                OptMatch::End => r.0.parsed == Option::Some(
                    Result::<String, Error>::Err(Error::UnexpectedEnd),
                ) && r.0.blacklist is None,
            }
        }),
{
    let n = tokens.len();
    let outcome = try_option(ValueKind::OptionalString, option, tokens, pos);
    proof {
        assert(tokens.deep_view().len() == n);
        if !(outcome@ is NoMatch) {
            assert(pos < tokens.deep_view().len());
        }
        if outcome@ matches FieldTry::Hit { hit: SpecHit::Spaced(_), .. } {
            assert(pos + 1 < tokens.deep_view().len());
        }
    }
    match outcome {
        FieldOutcome::Hit { opt, hit: HitKind::Inline(v) } => (
            ParseResult::success(v, opt),
            pos + 1,
        ),
        FieldOutcome::Hit { opt, hit: HitKind::Spaced(v) } => (
            ParseResult::success(v, opt),
            pos + 2,
        ),
        FieldOutcome::Fail => (ParseResult::err(Error::UnexpectedEnd), pos),
        _ => (ParseResult::none(), pos),
    }
}

/// Matches one boolean flag at `pos`: the bare option token, carrying no
/// value. A successful match registers the option string for blacklisting.
pub fn parse_arg_flag(tokens: &Vec<String>, pos: usize, option: &String) -> (r: (
    ParseResult<bool>,
    usize,
))
    ensures
        spec_match_flag(tokens.deep_view(), pos as int, option@) ==> (r.0.parsed == Option::Some(
            Result::<bool, Error>::Ok(true),
        ) && (r.0.blacklist matches Some(b) && b@ == option@) && r.1 == pos + 1),
        !spec_match_flag(tokens.deep_view(), pos as int, option@) ==> (r.0.parsed is None
            && r.0.blacklist is None && r.1 == pos),
{
    let n = tokens.len();
    let outcome = try_option(ValueKind::Flag, option, tokens, pos);
    proof {
        assert(tokens.deep_view().len() == n);
        if !(outcome@ is NoMatch) {
            assert(pos < tokens.deep_view().len());
        }
    }
    match outcome {
        FieldOutcome::Hit { opt, hit: _ } => (ParseResult::success(true, opt), pos + 1),
        _ => (ParseResult::none(), pos),
    }
}

/// Matches one optional string option at `pos`; the matching rule is that
/// of [`parse_arg_string`], with the value wrapped in `Some`.
pub fn parse_arg_optional(tokens: &Vec<String>, pos: usize, option: &String) -> (r: (
    ParseResult<Option<String>>,
    usize,
))
    ensures
        ({
            let m = spec_match_value(tokens.deep_view(), pos as int, option@);
            match m {
                OptMatch::NoMatch => r.0.parsed is None && r.0.blacklist is None && r.1 == pos,
                OptMatch::Inline(v) => (r.0.parsed matches Some(Ok(w)) && w matches Some(u) && u@
                    == v) && (r.0.blacklist matches Some(b) && b@ == option@) && r.1 == pos + 1,
                OptMatch::Spaced(v) => (r.0.parsed matches Some(Ok(w)) && w matches Some(u) && u@
                    == v) && (r.0.blacklist matches Some(b) && b@ == option@) && r.1 == pos + 2,
                OptMatch::End => r.0.parsed == Option::Some(
                    Result::<Option<String>, Error>::Err(Error::UnexpectedEnd),
                ) && r.0.blacklist is None,
            }
        }),
{
    let (inner, next) = parse_arg_string(tokens, pos, option);
    match inner.parsed {
        Some(Ok(value)) => (ParseResult::success(Some(value), inner.blacklist), next),
        Some(Err(e)) => (ParseResult::err(e), next),
        None => (ParseResult::none(), next),
    }
}

/// Matches one repeatable string option at `pos`; the matching rule is
/// that of [`parse_arg_string`], but the match is packed as a one-element
/// list and registers nothing for blacklisting, so the option may recur.
pub fn parse_arg_multi(tokens: &Vec<String>, pos: usize, option: &String) -> (r: (
    ParseResult<Vec<String>>,
    usize,
))
    ensures
        ({
            let m = spec_match_value(tokens.deep_view(), pos as int, option@);
            match m {
                OptMatch::NoMatch => r.0.parsed is None && r.0.blacklist is None && r.1 == pos,
                OptMatch::Inline(v) => (r.0.parsed matches Some(Ok(w)) && w@.len() == 1 && w@[0]@
                    == v) && r.0.blacklist is None && r.1 == pos + 1,
                OptMatch::Spaced(v) => (r.0.parsed matches Some(Ok(w)) && w@.len() == 1 && w@[0]@
                    == v) && r.0.blacklist is None && r.1 == pos + 2,
                OptMatch::End => r.0.parsed == Option::Some(
                    Result::<Vec<String>, Error>::Err(Error::UnexpectedEnd),
                ) && r.0.blacklist is None,
            }
        }),
{
    let (inner, next) = parse_arg_string(tokens, pos, option);
    match inner.parsed {
        Some(Ok(value)) => {
            let mut packed: Vec<String> = Vec::new();
            packed.push(value);
            (ParseResult::success(packed, None), next)
        },
        Some(Err(e)) => (ParseResult::err(e), next),
        None => (ParseResult::none(), next),
    }
}

/// Matches one positional field at `pos`: it matches exactly when `pos`
/// equals the field's declared index, counting from the program path at
/// index zero, and yields the token itself. Nothing is blacklisted.
pub fn parse_arg_positional(tokens: &Vec<String>, pos: usize, position: usize) -> (r: (
    ParseResult<String>,
    usize,
))
    ensures
        pos == position && pos < tokens.deep_view().len() ==> ((r.0.parsed matches Some(Ok(w))
            && w@ == tokens.deep_view()[pos as int]) && r.0.blacklist is None && r.1 == pos + 1),
        !(pos == position && pos < tokens.deep_view().len()) ==> (r.0.parsed is None
            && r.0.blacklist is None && r.1 == pos),
{
    if pos < tokens.len() && pos == position {
        proof {
            assert(tokens.deep_view()[pos as int] == tokens@[pos as int]@);
        }
        (ParseResult::success(tokens[pos].clone(), None), pos + 1)
    } else {
        (ParseResult::none(), pos)
    }
}

/// Joins two repeatable-field values: the right-hand side is appended to
/// the left-hand side, preserving order. Single-valued fields instead
/// replace the old value outright.
pub fn assign_multi(lhs: Vec<String>, rhs: Vec<String>) -> (r: Vec<String>)
    ensures
        r@ == lhs@ + rhs@,
{
    let mut joined = lhs;
    let mut tail = rhs;
    joined.append(&mut tail);
    joined
}

} // verus!
