//! The in-memory rule list that a front end reads and mutates.
//!
//! The list is an explicit store object: the presentation layer holds it and
//! calls its accessors instead of sharing a mutable collection of its own.
//! [`RuleList::list`] hands out a snapshot, so a save or a sort pass works
//! on a stable copy of the collection even while a front end keeps mutating
//! the store.

use vstd::prelude::*;

use crate::rule::Rule;

verus! {

/// An ordered, mutable collection of rules.
pub struct RuleList {
    rules: Vec<Rule>,
}

impl View for RuleList {
    type V = Seq<Rule>;

    closed spec fn view(&self) -> Seq<Rule> {
        self.rules@
    }
}

impl RuleList {
    /// An empty list.
    pub fn new() -> (l: RuleList)
        ensures
            l@ =~= Seq::<Rule>::empty(),
    {
        RuleList { rules: Vec::new() }
    }

    /// A list holding the given rules, in their order.
    pub fn from_rules(rules: Vec<Rule>) -> (l: RuleList)
        ensures
            l@ == rules@,
    {
        RuleList { rules }
    }

    /// How many rules the list holds.
    pub fn len(&self) -> (n: usize)
        ensures
            n == self@.len(),
    {
        self.rules.len()
    }

    /// A snapshot of the rules: equal to the list's contents at the call,
    /// and untouched by later mutation of the list.
    pub fn list(&self) -> (snapshot: Vec<Rule>)
        ensures
            snapshot@ == self@,
    {
        let mut snapshot: Vec<Rule> = Vec::new();
        let mut i: usize = 0;
        while i < self.rules.len()
            invariant
                i <= self.rules@.len(),
                snapshot@ == self.rules@.take(i as int),
            decreases self.rules@.len() - i,
        {
            snapshot.push(self.rules[i].clone());
            proof {
                assert(self.rules@.take(i + 1) =~= self.rules@.take(i as int).push(
                    self.rules@[i as int],
                ));
            }
            i = i + 1;
        }
        proof {
            assert(self.rules@.take(self.rules@.len() as int) =~= self.rules@);
        }
        snapshot
    }

    /// Appends a rule at the end; every other rule stays where it was.
    pub fn add(&mut self, rule: Rule)
        ensures
            final (self)@ == old(self)@.push(rule),
    {
        self.rules.push(rule);
    }

    /// Sets the enabled flag of the rule at position `i`; its other fields
    /// and every other rule stay untouched.
    pub fn set_enabled(&mut self, i: usize, enabled: bool)
        requires
            i < old(self)@.len(),
        ensures
            final (self)@.len() == old(self)@.len(),
            final (self)@[i as int]@.name == old(self)@[i as int]@.name,
            final (self)@[i as int]@.input_dir == old(self)@[i as int]@.input_dir,
            final (self)@[i as int]@.output_dir == old(self)@[i as int]@.output_dir,
            final (self)@[i as int]@.ext == old(self)@[i as int]@.ext,
            final (self)@[i as int]@.enabled == enabled,
            forall|k: int| 0 <= k < old(self)@.len() && k != i ==> final (self)@[k] == old(
                self,
            )@[k],
    {
        let mut rule = self.rules.remove(i);
        rule.enabled = enabled;
        self.rules.insert(i, rule);
    }
}

} // verus!
