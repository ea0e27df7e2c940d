//! Impact-context analysis of a changed candidate: contracts, budgets,
//! normalisation, summaries and the repository index model.
pub mod strings;
pub mod digest;
pub mod candidate;
pub mod review_scope;
pub mod contracts;
pub mod clock;
pub mod budget;
pub mod index_budget;
pub mod keyed;
pub mod engine;
pub mod text_adapter;
pub mod rust_syntax;
pub mod normalizer;
pub mod summarizer;
pub mod model;
pub mod assembly;
pub mod ordering;
pub mod integrity;
pub mod graph;
pub mod cache;
pub mod generation;
pub mod repository_index;
pub mod traversal;
pub mod locator;
pub mod manifest;
pub mod laws;
pub mod cleanup;
pub mod overlay_path;
pub mod text_scan;
pub mod project_model;
pub mod overlay;
pub mod resolver;
