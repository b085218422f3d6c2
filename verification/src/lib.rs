//! A dictionary-driven concept-mining library: it locates mentions of
//! controlled-vocabulary concepts inside narrative text and reports, for each
//! mention, the concept identifier, its character span, the exact matched
//! substring, and whether the mention is asserted or negated.

pub mod clinical_mapper;
pub mod core_document;
pub mod default_hpo_mapper;
pub mod laws;
pub mod mined_term;
pub mod ontology;
pub mod sentence_mapper;
pub mod simple_token;
pub mod term_id;
pub mod text;
