//! The lint rules by name.
use vstd::prelude::*;

verus! {

#[derive(Debug, Clone, Copy, PartialEq, Eq, Structural)]
pub enum LintRule {
    MaxNestingDepth,
    MaxObjectMembers,
    MaxArrayItems,
    UnusedAnchor,
    MagicNumber,
    MissingTypeValidation,
    DuplicateKey,
    ExcessiveSpreads,
}

impl LintRule {
    pub open spec fn spec_name(self) -> Seq<char> {
        match self {
            LintRule::MaxNestingDepth => "max_nesting_depth"@,
            LintRule::MaxObjectMembers => "max_object_members"@,
            LintRule::MaxArrayItems => "max_array_items"@,
            LintRule::UnusedAnchor => "unused_anchor"@,
            LintRule::MagicNumber => "magic_number"@,
            LintRule::MissingTypeValidation => "missing_type_validation"@,
            LintRule::DuplicateKey => "duplicate_key"@,
            LintRule::ExcessiveSpreads => "excessive_spreads"@,
        }
    }

    /// The rule's configuration name, in snake case.
    pub fn name(&self) -> (r: &'static str)
        ensures
            r@ == self.spec_name(),
    {
        match self {
            LintRule::MaxNestingDepth => "max_nesting_depth",
            LintRule::MaxObjectMembers => "max_object_members",
            LintRule::MaxArrayItems => "max_array_items",
            LintRule::UnusedAnchor => "unused_anchor",
            LintRule::MagicNumber => "magic_number",
            LintRule::MissingTypeValidation => "missing_type_validation",
            LintRule::DuplicateKey => "duplicate_key",
            LintRule::ExcessiveSpreads => "excessive_spreads",
        }
    }

    pub open spec fn spec_description(self) -> Seq<char> {
        match self {
            LintRule::MaxNestingDepth => "Objects/arrays are nested too deeply"@,
            LintRule::MaxObjectMembers => "Object has too many members"@,
            LintRule::MaxArrayItems => "Array has too many items"@,
            LintRule::UnusedAnchor => "Anchor defined but never used"@,
            LintRule::MagicNumber => "Literal number without context"@,
            LintRule::MissingTypeValidation => "Data should have type validation"@,
            LintRule::DuplicateKey => "Duplicate key in object"@,
            LintRule::ExcessiveSpreads => "Too many spreads in single object"@,
        }
    }

    /// One line saying what the rule flags.
    pub fn description(&self) -> (r: &'static str)
        ensures
            r@ == self.spec_description(),
    {
        match self {
            LintRule::MaxNestingDepth => "Objects/arrays are nested too deeply",
            LintRule::MaxObjectMembers => "Object has too many members",
            LintRule::MaxArrayItems => "Array has too many items",
            LintRule::UnusedAnchor => "Anchor defined but never used",
            LintRule::MagicNumber => "Literal number without context",
            LintRule::MissingTypeValidation => "Data should have type validation",
            LintRule::DuplicateKey => "Duplicate key in object",
            LintRule::ExcessiveSpreads => "Too many spreads in single object",
        }
    }
}

} // verus!
