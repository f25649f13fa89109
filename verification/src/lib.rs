//! Verified decision logic of the OpenWarrant command line.

pub mod agent;
pub mod atomic;
pub mod attest;
pub mod authority;
pub mod authority_check;
pub mod authorize;
pub mod batch;
pub mod blut;
pub mod board;
pub mod bonsai;
pub mod bundle;
pub mod check;
pub mod commit;
pub mod compat;
pub mod compile;
pub mod context_select;
pub mod corpus_rules;
pub mod console;
pub mod correct;
pub mod diagnostic;
pub mod diff_target;
pub mod draft;
pub mod digest;
pub mod document;
pub mod eval;
pub mod evidence;
pub mod export;
pub mod history;
pub mod ownership;
pub mod parents;
pub mod pins;
pub mod section_refs;
pub mod selection;
pub mod store;
pub mod structured;
pub mod text;
pub mod traceability;
pub mod warrant_rules;
