//! A small library for extension-based file sorting rules.
//!
//! A [`rule::Rule`] names an input directory, an output directory and a file
//! extension; when enabled, a sort pass copies every file of the input
//! directory whose extension token (the part after the final `.`) equals the
//! rule's extension into the output directory.  The library holds the verified
//! logic of that system: the rule model, the persistence codec for the rule
//! file, the matching and planning logic of the sort engine, the per-rule
//! reports, and the in-memory rule list that a front end mutates.  All
//! filesystem traffic stays with the caller, which hands plain values in and
//! out.

pub mod codec;
pub mod engine;
pub mod list;
pub mod report;
pub mod rule;
pub mod store;
