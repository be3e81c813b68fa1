//! Per-rule reports of a sort pass.
//!
//! One [`RuleReport`] records, for one rule, which files were copied and
//! which copies failed.  A failure never stops the pass: the caller records
//! it and goes on with the next file and the next rule, so a finished pass
//! always carries a full report with the counts of successes and failures.

use vstd::prelude::*;

verus! {

/// What one rule's scan did: every copied file and every failed file, in
/// the order they were attempted.
pub struct RuleReport {
    /// The name of the rule this report belongs to.
    pub rule_name: String,
    /// The names of the files that were copied.
    pub copied: Vec<String>,
    /// The names of the files whose copy failed.
    pub failed: Vec<String>,
}

impl RuleReport {
    /// A fresh, empty report for the named rule.
    pub fn new(rule_name: String) -> (r: RuleReport)
        ensures
            r.rule_name@ == rule_name@,
            r.copied@.len() == 0,
            r.failed@.len() == 0,
    {
        RuleReport { rule_name, copied: Vec::new(), failed: Vec::new() }
    }

    /// Records one successful copy; nothing else changes.
    pub fn record_copied(&mut self, file: String)
        ensures
            final (self).rule_name == old(self).rule_name,
            final (self).copied@ == old(self).copied@.push(file),
            final (self).failed@ == old(self).failed@,
    {
        self.copied.push(file);
    }

    /// Records one failed copy; nothing else changes, and in particular
    /// nothing already recorded is lost.
    pub fn record_failed(&mut self, file: String)
        ensures
            final (self).rule_name == old(self).rule_name,
            final (self).copied@ == old(self).copied@,
            final (self).failed@ == old(self).failed@.push(file),
    {
        self.failed.push(file);
    }

    /// How many files were copied.
    pub fn files_copied(&self) -> (n: usize)
        ensures
            n == self.copied@.len(),
    {
        self.copied.len()
    }

    /// How many copies failed.
    pub fn error_count(&self) -> (n: usize)
        ensures
            n == self.failed@.len(),
    {
        self.failed.len()
    }
}

} // verus!
