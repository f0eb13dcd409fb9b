//! Bridges parsed command-line arguments into a nested configuration value
//! tree.
//!
//! Given a declarative description of an argument grammar ([`Grammar`]) and
//! the result of parsing a concrete argument vector against it ([`Matches`]),
//! the adapter ([`Clap`]) classifies every declared argument by arity and
//! extracts a mapping from configuration keys to typed values ([`ValueMap`]),
//! recursing into subcommands as nested sub-trees.  An optional synthetic key
//! records which top-level subcommand was invoked.

mod adapter;
mod laws;
mod parsed;
mod schema;
mod tables;
mod value;

pub use adapter::{collect_of, entry_val, extract_of, Clap};
pub use laws::{
    base_val, collected_val, lemma_collect_get, lemma_collect_idempotent,
    lemma_count_boolean_present, lemma_extract_get, lemma_omitted_when_absent,
    lemma_subcommand_field_coexists, lemma_uninvoked_subcommand_omitted,
    lemma_uninvoked_subcommand_omitted_from_collect,
};
pub use parsed::{arg_at, ArgMatch, Matches, SubMatches};
pub use schema::{
    class_view, classify, get_args_types, lemma_schema_unique, schema_of, spec_classify, tbl_view,
    ArgSpec, ArgTypes, Class, CliType, Grammar,
};
pub use tables::{tbl_get, tbl_has, tbl_insert, tbl_unique};
pub use value::{val_tbl_view, val_view, Val, Value, ValueMap};
