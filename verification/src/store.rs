//! Loading and saving the rule sequence as one structured text document.
//!
//! The store works on the text of the persistence target; the caller reads
//! and writes the file itself (and should overwrite it atomically,
//! write-then-rename, so a failed save leaves the previous state intact).
//! A missing target is not an error: the caller passes nothing, gets the
//! empty sequence back, and creates an empty target.  A malformed target is
//! fatal to the whole load — no record is ever silently skipped or guessed
//! at.

use vstd::prelude::*;

use crate::codec;
use crate::rule::{Rule, views_of};

verus! {

/// Why a load failed.
#[derive(Clone, Copy, Debug, PartialEq, Eq, Structural)]
pub enum LoadError {
    /// The document does not follow the persisted grammar: some record is
    /// schema-invalid, or the document structure itself is broken.
    Malformed,
}

/// The text a save writes: the canonical document for `rules`, exactly
/// [`codec::doc_json`] of their values.
pub fn save_to_text(rules: &Vec<Rule>) -> (out: String)
    ensures
        out@ == codec::doc_json(views_of(rules@)),
{
    codec::write_doc(rules)
}

/// The rules a load yields, from the text of the persistence target — or
/// nothing when the target was missing.
///
/// A missing target (`None`) yields the empty sequence and no error: the
/// first run bootstraps an empty store.  Existing text is parsed as a whole:
/// a well-formed document yields exactly the rules it denotes, and anything
/// else is rejected with [`LoadError::Malformed`].
pub fn load_from_text(contents: Option<&str>) -> (r: Result<Vec<Rule>, LoadError>)
    ensures
        contents is None ==> r is Ok && r->Ok_0@.len() == 0,
        contents is Some ==> match codec::sp_doc(contents->0@) {
            Some(rvs) => r is Ok && views_of(r->Ok_0@) == rvs,
            None => r == Result::<Vec<Rule>, LoadError>::Err(LoadError::Malformed),
        },
{
    match contents {
        None => Ok(Vec::new()),
        Some(text) => match codec::parse_doc(text) {
            Some(rules) => Ok(rules),
            None => Err(LoadError::Malformed),
        },
    }
}

/// The round-trip law of the store: for every rule sequence, loading what
/// was saved yields an equal sequence — saving never loses or distorts a
/// rule, whatever characters its strings hold.
pub proof fn lemma_save_load_round_trip(rules: Seq<crate::rule::RuleView>)
    ensures
        codec::sp_doc(codec::doc_json(rules)) == Some(rules),
{
    codec::lemma_doc_round_trip(rules);
}

} // verus!
