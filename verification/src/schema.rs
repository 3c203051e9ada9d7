use vstd::prelude::*;

verus! {

/// How a field's value is read from the token stream and stored.
///
/// `MandatoryString` and `OptionalString` share one matching rule; they
/// differ only in the validation run after the stream is exhausted and in
/// the shape of the slot that holds the value.
#[derive(Debug, Clone, Copy, PartialEq, Eq, Structural)]
pub enum ValueKind {
    /// A single string value that must be supplied at least once.
    MandatoryString,
    /// A single string value that may be omitted.
    OptionalString,
    /// A boolean set to true by the bare option token, which carries no value.
    Flag,
    /// A repeatable string value; matches append to a growing sequence and
    /// are exempt from duplicate detection.
    Multi,
}

/// What a field is bound to: option strings, a position, or the catch-all
/// role. A field never combines an option binding with a position or with
/// the catch-all role.
#[derive(Debug, Clone, PartialEq)]
pub enum Binding {
    /// A long option string, such as `--name`.
    Long(String),
    /// A short option string, such as `-n`.
    Short(String),
    /// Both a long and a short form for the same slot; the long form is
    /// tried first.
    Both(String, String),
    /// Bound to the token whose original index in the argument vector equals
    /// the given index, counting the program path as index zero.
    Positional(usize),
    /// Absorbs every token that no other field matches.
    CatchAll,
}

/// One field of the record under construction: its name (used in error
/// messages), how its value is read, and what it is bound to.
#[derive(Debug, Clone, PartialEq)]
pub struct FieldDescriptor {
    pub name: String,
    pub kind: ValueKind,
    pub binding: Binding,
}

/// An ordered list of field descriptors. Declaration order is the only
/// priority signal during matching: the first field that matches a token
/// wins.
#[derive(Debug, Clone, PartialEq)]
pub struct Schema {
    pub fields: Vec<FieldDescriptor>,
}

/// The mathematical image of a [`Binding`], over character sequences.
#[verifier::ext_equal]
pub enum SpecBinding {
    Long(Seq<char>),
    Short(Seq<char>),
    Both(Seq<char>, Seq<char>),
    Positional(int),
    CatchAll,
}

/// The mathematical image of a [`FieldDescriptor`].
#[verifier::ext_equal]
pub struct SpecField {
    pub name: Seq<char>,
    pub kind: ValueKind,
    pub binding: SpecBinding,
}

impl View for Binding {
    type V = SpecBinding;

    open spec fn view(&self) -> SpecBinding {
        match self {
            Binding::Long(long) => SpecBinding::Long(long@),
            Binding::Short(short) => SpecBinding::Short(short@),
            Binding::Both(long, short) => SpecBinding::Both(long@, short@),
            Binding::Positional(index) => SpecBinding::Positional(*index as int),
            Binding::CatchAll => SpecBinding::CatchAll,
        }
    }
}

impl View for FieldDescriptor {
    type V = SpecField;

    open spec fn view(&self) -> SpecField {
        SpecField { name: self.name@, kind: self.kind, binding: self.binding@ }
    }
}

impl View for Schema {
    type V = Seq<SpecField>;

    open spec fn view(&self) -> Seq<SpecField> {
        self.fields@.map_values(|f: FieldDescriptor| f@)
    }
}

/// The position a binding is bound to, if it is positional.
pub open spec fn spec_positional(b: SpecBinding) -> Option<int> {
    match b {
        SpecBinding::Positional(k) => Option::Some(k),
        _ => Option::None,
    }
}

/// The schema invariant restricted to the first `n` fields: no two of them
/// are both the catch-all or bound to the same position, and a catch-all
/// among them stores a sequence.
pub open spec fn wf_prefix(fields: Seq<SpecField>, n: int) -> bool {
    &&& forall|i: int, j: int|
        0 <= i < n && 0 <= j < n && i != j ==> !(#[trigger] fields[i].binding is CatchAll
            && #[trigger] fields[j].binding is CatchAll)
    &&& forall|i: int, j: int|
        0 <= i < n && 0 <= j < n && i != j ==> !((
        #[trigger] spec_positional(fields[i].binding)) is Some && spec_positional(
            fields[i].binding,
        ) == #[trigger] spec_positional(fields[j].binding))
    &&& forall|i: int|
        0 <= i < n && (#[trigger] fields[i].binding) is CatchAll ==> fields[i].kind is Multi
}

/// The schema invariant: at most one field is the catch-all, positional
/// indices are unique, and the catch-all field stores a sequence.
pub open spec fn schema_wf(fields: Seq<SpecField>) -> bool {
    wf_prefix(fields, fields.len() as int)
}

impl Schema {
    /// Checks the schema invariant: at most one catch-all field, unique
    /// positional indices, and a sequence-valued catch-all.
    pub fn is_well_formed(&self) -> (r: bool)
        ensures
            r == schema_wf(self@),
    {
        let n = self.fields.len();
        let mut i: usize = 0;
        let mut ok = true;
        while i < n
            invariant
                n == self.fields.len(),
                n == self@.len(),
                i <= n,
                ok ==> wf_prefix(self@, i as int),
                !ok ==> !schema_wf(self@),
            decreases n - i,
        {
            proof {
                assert(self@[i as int] == self.fields@[i as int]@);
            }
            match &self.fields[i].binding {
                Binding::CatchAll => {
                    if !matches!(self.fields[i].kind, ValueKind::Multi) {
                        proof {
                            assert(!schema_wf(self@));
                        }
                        ok = false;
                    }
                    let mut j: usize = 0;
                    while j < i
                        invariant
                            n == self.fields.len(),
                            n == self@.len(),
                            i < n,
                            j <= i,
                            self@[i as int].binding is CatchAll,
                            ok ==> wf_prefix(self@, i as int),
                            !ok ==> !schema_wf(self@),
                            ok ==> self@[i as int].kind is Multi,
                            ok ==> forall|b: int|
                                0 <= b < j ==> !(#[trigger] self@[b].binding is CatchAll),
                        decreases i - j,
                    {
                        proof {
                            assert(self@[j as int] == self.fields@[j as int]@);
                        }
                        if matches!(&self.fields[j].binding, Binding::CatchAll) {
                            proof {
                                assert(self@[j as int].binding is CatchAll);
                                assert(!schema_wf(self@));
                            }
                            ok = false;
                        }
                        j += 1;
                    }
                    proof {
                        if ok {
                            assert(spec_positional(self@[i as int].binding) is None);
                            assert(wf_prefix(self@, i as int + 1));
                        }
                    }
                },
                Binding::Positional(p) => {
                    let p = *p;
                    let mut j: usize = 0;
                    while j < i
                        invariant
                            n == self.fields.len(),
                            n == self@.len(),
                            i < n,
                            j <= i,
                            self@[i as int].binding == SpecBinding::Positional(p as int),
                            ok ==> wf_prefix(self@, i as int),
                            !ok ==> !schema_wf(self@),
                            ok ==> forall|b: int|
                                0 <= b < j ==> #[trigger] spec_positional(self@[b].binding)
                                    != Option::Some(p as int),
                        decreases i - j,
                    {
                        proof {
                            assert(self@[j as int] == self.fields@[j as int]@);
                        }
                        if let Binding::Positional(q) = &self.fields[j].binding {
                            if *q == p {
                                proof {
                                    assert(spec_positional(self@[j as int].binding)
                                        == Option::Some(p as int));
                                    assert(!schema_wf(self@));
                                }
                                ok = false;
                            }
                        }
                        j += 1;
                    }
                    proof {
                        if ok {
                            assert(!(self@[i as int].binding is CatchAll));
                            assert(wf_prefix(self@, i as int + 1));
                        }
                    }
                },
                _ => {
                    proof {
                        assert(!(self@[i as int].binding is CatchAll));
                        assert(spec_positional(self@[i as int].binding) is None);
                        if ok {
                            assert(wf_prefix(self@, i as int + 1));
                        }
                    }
                },
            }
            i += 1;
        }
        ok
    }
}

} // verus!
