//! A verified command-line option parsing engine.
//!
//! Given a raw argument vector and a schema describing the expected options,
//! the engine produces either a fully populated record or a precise error.
//!
//! The engine supports long options (`--name`, `--name=value`, `--name value`),
//! short aliases (`-n`), boolean flags, optional and mandatory single-valued
//! options, repeatable options, positional arguments, and a catch-all bucket
//! for otherwise unrecognized tokens.
//!
//! The schema is an ordered list of field descriptors, supplied by the caller;
//! how the descriptors are produced (by hand, by a build step) is no concern
//! of the engine. Declaration order is the only priority signal: for each
//! token the driver tries every field's matcher in schema order, and the
//! first match wins.
//!
//! Everything the engine promises is stated against one mathematical
//! function, `spec_parse`: the contract of `parse_args` says that its
//! outcome, success and error cases alike, equals `spec_parse` of the schema
//! and the token views. The `lemma_` proof functions state the engine's
//! behavioural laws — what a flag's presence means, that the `=`-joined and
//! spaced forms agree, how duplicates, repetitions, missing mandatory
//! fields, unknown tokens and positional indices behave — and prove them
//! from that function.

mod arguments;
mod laws;
mod parsable;
mod record;
mod result;
mod schema;

pub use arguments::ScanResult;
pub use arguments::lemma_scan_bounds;
pub use arguments::parse_args;
pub use arguments::spec_assign;
pub use arguments::spec_blacklist_add;
pub use arguments::spec_catch_all;
pub use arguments::spec_drive;
pub use arguments::spec_missing;
pub use arguments::spec_outcome;
pub use arguments::spec_parse;
pub use arguments::spec_remaining;
pub use arguments::spec_scan;
pub use arguments::spec_value_assign;
pub use laws::both_field;
pub use laws::catch_all_field;
pub use laws::eq_free;
pub use laws::flag_field;
pub use laws::interleave;
pub use laws::lemma_catch_all_collects;
pub use laws::lemma_catch_all_found;
pub use laws::lemma_catch_all_run;
pub use laws::lemma_duplicate_option;
pub use laws::lemma_flag_presence;
pub use laws::lemma_joined_and_spaced_agree;
pub use laws::lemma_mandatory_anywhere;
pub use laws::lemma_missing_mandatory;
pub use laws::lemma_multi_repetition;
pub use laws::lemma_other_alias_reassigns;
pub use laws::lemma_positional_original_index;
pub use laws::lemma_scan_found;
pub use laws::lemma_scan_no_field;
pub use laws::lemma_split_joined;
pub use laws::lemma_split_plain;
pub use laws::lemma_unexpected_end;
pub use laws::lemma_unknown_option;
pub use laws::string_field;
pub use parsable::FieldOutcome;
pub use parsable::FieldTry;
pub use parsable::HitKind;
pub use parsable::OptMatch;
pub use parsable::ParseResult;
pub use parsable::SpecHit;
pub use parsable::assign_multi;
pub use parsable::first_eq;
pub use parsable::has_eq;
pub use parsable::head_of;
pub use parsable::lemma_first_eq_at;
pub use parsable::parse_arg_flag;
pub use parsable::parse_arg_multi;
pub use parsable::parse_arg_optional;
pub use parsable::parse_arg_positional;
pub use parsable::parse_arg_string;
pub use parsable::spec_hit_value;
pub use parsable::spec_match_flag;
pub use parsable::spec_match_value;
pub use parsable::spec_step_pos;
pub use parsable::spec_try_field;
pub use parsable::spec_try_option;
pub use parsable::tail_of;
pub use parsable::try_field;
pub use record::Record;
pub use record::SlotValue;
pub use record::SpecSlot;
pub use record::slots_view;
pub use record::spec_default_slot;
pub use record::spec_defaults;
pub use result::Error;
pub use result::SpecError;
pub use schema::Binding;
pub use schema::FieldDescriptor;
pub use schema::Schema;
pub use schema::SpecBinding;
pub use schema::SpecField;
pub use schema::ValueKind;
pub use schema::schema_wf;
pub use schema::spec_positional;
pub use schema::wf_prefix;
