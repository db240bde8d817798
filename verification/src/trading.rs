//! Trading strategies as lists of entry and exit rules.

use vstd::prelude::*;

verus! {

/// A strategy: its rules, in order.
#[derive(Debug)]
pub struct Strategy {
    pub recipe: Vec<Rule>,
}

/// Whether a rule opens or closes a position.
#[derive(Debug, Clone, Copy, PartialEq, Eq, Structural)]
pub enum RuleType {
    EntryRule,
    ExitRule,
}

/// One rule of a strategy.
#[derive(Debug)]
pub struct Rule {
    pub label: String,
    pub rule_type: RuleType,
    pub description: String,
}

} // verus!
