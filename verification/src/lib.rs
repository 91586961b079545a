//! A bidirectional CURIE (compact URI) / URI converter.
//!
//! A registry of prefix-to-namespace records is loaded into a [`Converter`],
//! which then expands compact identifiers such as `doid:1234` into full URIs
//! and compresses full URIs back into their canonical compact form.

pub mod converter;
pub mod error;
pub mod json;
pub mod laws;
pub mod pattern;
pub mod record;
pub mod strutil;

pub use converter::{
    converter_wf, records_disjoint, spec_add_record, spec_best_match, spec_chain, spec_compress,
    spec_expand, spec_find_owner, spec_find_uri_owner, spec_merge_record, spec_standardize_curie,
    spec_standardize_prefix, spec_standardize_uri, spec_update_record, Converter, ConverterView,
};
pub use error::{CuriesError, ErrorView};
pub use laws::{
    lemma_add_record_uniqueness, lemma_chain_merge_keeps_base, lemma_chain_precedence,
    lemma_longest_prefix_wins, lemma_round_trip,
};
pub use pattern::{id_valid, pattern_compiles, pattern_matches};
pub use record::{Record, RecordView};
