//! Temporal memory for agents: what happened is kept apart from when it matters, so that failures turn
//! into constraints, repeated errors leave the context, and nothing that was recorded is lost.
pub mod text;
pub mod casing;
pub mod timestamps;
pub mod compiler_errors;
pub mod runtime_errors;
pub mod test_failures;
pub mod http_errors;
pub mod fingerprint;
pub mod recognition;
pub mod slot;
pub mod memory;
pub mod tokens;
pub mod record;
pub mod time_travel;
pub mod loops;
pub mod consolidation;
pub mod conflicts;
pub mod revocation;
pub mod context;
pub mod keywords;
pub mod timeline;
pub mod history;
pub mod guarantees;
pub mod storage;
pub mod tools;
pub mod protocol;
pub mod conduct;
pub mod census;
pub mod text_laws;
pub mod effects;
pub mod repetition;
pub mod lessons;
pub mod visibility;
pub mod finding;
pub mod disagreement;
pub mod diagnoses;
pub mod replies;
