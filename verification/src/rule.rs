//! The rule model: a named copy instruction and its mathematical value.

use vstd::prelude::*;

verus! {

/// The mathematical value of a [`Rule`]: the five fields, with every string
/// taken as a sequence of characters.
#[verifier::ext_equal]
pub ghost struct RuleView {
    pub name: Seq<char>,
    pub input_dir: Seq<char>,
    pub output_dir: Seq<char>,
    pub ext: Seq<char>,
    pub enabled: bool,
}

/// One sorting rule: copy the files of `input_dir` whose extension token
/// equals `ext` into `output_dir`, when `enabled` is set.
///
/// Directories are carried as plain path strings; the caller that touches the
/// filesystem turns them into its own path values.  A rule is a plain value:
/// it has no identity beyond its position in a rule sequence.
pub struct Rule {
    /// Human-readable label; the core enforces no uniqueness.
    pub name: String,
    /// Path of the directory scanned for input files.
    pub input_dir: String,
    /// Path of the directory the matching files are copied into.
    pub output_dir: String,
    /// Extension token compared literally (case-sensitive, no dot stripping).
    pub ext: String,
    /// Disabled rules are inert during a sort pass.
    pub enabled: bool,
}

impl View for Rule {
    type V = RuleView;

    open spec fn view(&self) -> RuleView {
        RuleView {
            name: self.name@,
            input_dir: self.input_dir@,
            output_dir: self.output_dir@,
            ext: self.ext@,
            enabled: self.enabled,
        }
    }
}

impl Clone for Rule {
    fn clone(&self) -> (r: Rule)
        ensures
            r == *self,
    {
        Rule {
            name: self.name.clone(),
            input_dir: self.input_dir.clone(),
            output_dir: self.output_dir.clone(),
            ext: self.ext.clone(),
            enabled: self.enabled,
        }
    }
}

/// The views of a sequence of rules, element by element.
pub open spec fn views_of(rs: Seq<Rule>) -> Seq<RuleView> {
    rs.map_values(|r: Rule| r@)
}

} // verus!
