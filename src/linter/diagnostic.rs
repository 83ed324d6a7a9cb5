//! Diagnostic codes, their metadata and severities.
use vstd::prelude::*;

verus! {

/// The stable identifier of each kind of finding.
#[derive(Debug, Clone, Copy, PartialEq, Eq, Structural)]
pub enum DiagnosticCode {
    /// LINT1001
    MaxNestingDepth,
    /// LINT1002
    MaxObjectMembers,
    /// LINT1003
    MaxArrayItems,
    /// LINT2001
    UnusedAnchor,
    /// LINT2002
    DuplicateKey,
    /// LINT2003
    ExcessiveSpreads,
    /// LINT2004
    MagicNumber,
    /// LINT3001
    MissingTypeValidation,
    /// LINT3002
    InconsistentNaming,
    /// LINT3003
    EmptyObject,
    /// LINT4001
    DeepImportChain,
    /// LINT4002
    CircularDependency,
    /// LINT4003
    UnusedImport,
}

/// How serious a finding is.
#[derive(Debug, Clone, Copy, PartialEq, Eq, Structural)]
pub enum DiagnosticSeverity {
    Error,
    Warning,
    Info,
}

impl DiagnosticCode {
    /// The user-facing code, such as `LINT2002`.
    pub open spec fn spec_code(self) -> Seq<char> {
        match self {
            DiagnosticCode::MaxNestingDepth => "LINT1001"@,
            DiagnosticCode::MaxObjectMembers => "LINT1002"@,
            DiagnosticCode::MaxArrayItems => "LINT1003"@,
            DiagnosticCode::UnusedAnchor => "LINT2001"@,
            DiagnosticCode::DuplicateKey => "LINT2002"@,
            DiagnosticCode::ExcessiveSpreads => "LINT2003"@,
            DiagnosticCode::MagicNumber => "LINT2004"@,
            DiagnosticCode::MissingTypeValidation => "LINT3001"@,
            DiagnosticCode::InconsistentNaming => "LINT3002"@,
            DiagnosticCode::EmptyObject => "LINT3003"@,
            DiagnosticCode::DeepImportChain => "LINT4001"@,
            DiagnosticCode::CircularDependency => "LINT4002"@,
            DiagnosticCode::UnusedImport => "LINT4003"@,
        }
    }

    /// The variant's name, such as `DuplicateKey`.
    pub open spec fn spec_name(self) -> Seq<char> {
        match self {
            DiagnosticCode::MaxNestingDepth => "MaxNestingDepth"@,
            DiagnosticCode::MaxObjectMembers => "MaxObjectMembers"@,
            DiagnosticCode::MaxArrayItems => "MaxArrayItems"@,
            DiagnosticCode::UnusedAnchor => "UnusedAnchor"@,
            DiagnosticCode::DuplicateKey => "DuplicateKey"@,
            DiagnosticCode::ExcessiveSpreads => "ExcessiveSpreads"@,
            DiagnosticCode::MagicNumber => "MagicNumber"@,
            DiagnosticCode::MissingTypeValidation => "MissingTypeValidation"@,
            DiagnosticCode::InconsistentNaming => "InconsistentNaming"@,
            DiagnosticCode::EmptyObject => "EmptyObject"@,
            DiagnosticCode::DeepImportChain => "DeepImportChain"@,
            DiagnosticCode::CircularDependency => "CircularDependency"@,
            DiagnosticCode::UnusedImport => "UnusedImport"@,
        }
    }

    /// A short title.
    pub open spec fn spec_title(self) -> Seq<char> {
        match self {
            DiagnosticCode::MaxNestingDepth => "Excessive nesting depth"@,
            DiagnosticCode::MaxObjectMembers => "Too many object members"@,
            DiagnosticCode::MaxArrayItems => "Too many array items"@,
            DiagnosticCode::UnusedAnchor => "Unused anchor definition"@,
            DiagnosticCode::DuplicateKey => "Duplicate object key"@,
            DiagnosticCode::ExcessiveSpreads => "Too many spread operators"@,
            DiagnosticCode::MagicNumber => "Magic number literal"@,
            DiagnosticCode::MissingTypeValidation => "Missing type validation"@,
            DiagnosticCode::InconsistentNaming => "Inconsistent naming convention"@,
            DiagnosticCode::EmptyObject => "Empty object or array"@,
            DiagnosticCode::DeepImportChain => "Deep import chain"@,
            DiagnosticCode::CircularDependency => "Circular dependency detected"@,
            DiagnosticCode::UnusedImport => "Unused import"@,
        }
    }

    /// A longer explanation with advice.
    pub open spec fn spec_description(self) -> Seq<char> {
        match self {
            DiagnosticCode::MaxNestingDepth => "Deeply nested structures are hard to read and maintain. Consider flattening or extracting nested parts."@,
            DiagnosticCode::MaxObjectMembers => "Large objects with many members are difficult to understand. Consider splitting into smaller, focused objects."@,
            DiagnosticCode::MaxArrayItems => "Very large arrays may indicate the need for pagination or chunking. Consider restructuring your data."@,
            DiagnosticCode::UnusedAnchor => "An anchor is defined but never referenced. Remove it or use it with an alias (*anchor) or spread (...*anchor)."@,
            DiagnosticCode::DuplicateKey => "Object has duplicate keys. The second occurrence will override the first, which is likely unintentional."@,
            DiagnosticCode::ExcessiveSpreads => "Too many spread operators in a single object make it hard to track the final shape. Consider simplifying."@,
            DiagnosticCode::MagicNumber => "Literal numbers without context are hard to understand. Extract them as named constants with descriptive names."@,
            DiagnosticCode::MissingTypeValidation => "Data lacks type validation. Add type constraints (:: TypeName) to ensure data integrity."@,
            DiagnosticCode::InconsistentNaming => "Keys use inconsistent naming conventions (camelCase vs snake_case). Choose one style for consistency."@,
            DiagnosticCode::EmptyObject => "Empty objects or arrays may indicate incomplete data or unnecessary structure. Verify this is  intentional."@,
            DiagnosticCode::DeepImportChain => "Anchor or type is imported through multiple levels. This creates tight coupling and makes refactoring difficult."@,
            DiagnosticCode::CircularDependency => "Files import each other in a cycle. This can cause issues and indicates poor module organization."@,
            DiagnosticCode::UnusedImport => "Import statement brings in items that are never used. Remove to keep code clean."@,
        }
    }

    /// The default severity.
    pub open spec fn spec_severity(self) -> DiagnosticSeverity {
        match self {
            DiagnosticCode::MaxNestingDepth => DiagnosticSeverity::Warning,
            DiagnosticCode::MaxObjectMembers => DiagnosticSeverity::Warning,
            DiagnosticCode::MaxArrayItems => DiagnosticSeverity::Warning,
            DiagnosticCode::UnusedAnchor => DiagnosticSeverity::Warning,
            DiagnosticCode::DuplicateKey => DiagnosticSeverity::Error,
            DiagnosticCode::ExcessiveSpreads => DiagnosticSeverity::Warning,
            DiagnosticCode::MagicNumber => DiagnosticSeverity::Info,
            DiagnosticCode::MissingTypeValidation => DiagnosticSeverity::Info,
            DiagnosticCode::InconsistentNaming => DiagnosticSeverity::Info,
            DiagnosticCode::EmptyObject => DiagnosticSeverity::Info,
            DiagnosticCode::DeepImportChain => DiagnosticSeverity::Warning,
            DiagnosticCode::CircularDependency => DiagnosticSeverity::Error,
            DiagnosticCode::UnusedImport => DiagnosticSeverity::Warning,
        }
    }

    /// The configuration key that governs the check.
    pub open spec fn spec_config_key(self) -> Seq<char> {
        match self {
            DiagnosticCode::MaxNestingDepth => "max_nesting_depth"@,
            DiagnosticCode::MaxObjectMembers => "max_object_members"@,
            DiagnosticCode::MaxArrayItems => "max_array_items"@,
            DiagnosticCode::UnusedAnchor => "warn_unused_anchors"@,
            DiagnosticCode::DuplicateKey => "N/A (always enabled)"@,
            DiagnosticCode::ExcessiveSpreads => "max_spreads_per_object"@,
            DiagnosticCode::MagicNumber => "warn_magic_numbers"@,
            DiagnosticCode::MissingTypeValidation => "suggest_type_validation"@,
            DiagnosticCode::InconsistentNaming => "enforce_naming_convention"@,
            DiagnosticCode::EmptyObject => "warn_empty_structures"@,
            DiagnosticCode::DeepImportChain => "max_import_chain_depth"@,
            DiagnosticCode::CircularDependency => "N/A (always enabled)"@,
            DiagnosticCode::UnusedImport => "warn_unused_imports"@,
        }
    }

    /// The user-facing code, such as `LINT2002`.
    pub fn code(&self) -> (r: &'static str)
        ensures
            r@ == self.spec_code(),
    {
        match self {
            DiagnosticCode::MaxNestingDepth => "LINT1001",
            DiagnosticCode::MaxObjectMembers => "LINT1002",
            DiagnosticCode::MaxArrayItems => "LINT1003",
            DiagnosticCode::UnusedAnchor => "LINT2001",
            DiagnosticCode::DuplicateKey => "LINT2002",
            DiagnosticCode::ExcessiveSpreads => "LINT2003",
            DiagnosticCode::MagicNumber => "LINT2004",
            DiagnosticCode::MissingTypeValidation => "LINT3001",
            DiagnosticCode::InconsistentNaming => "LINT3002",
            DiagnosticCode::EmptyObject => "LINT3003",
            DiagnosticCode::DeepImportChain => "LINT4001",
            DiagnosticCode::CircularDependency => "LINT4002",
            DiagnosticCode::UnusedImport => "LINT4003",
        }
    }

    /// The variant's name, such as `DuplicateKey`.
    pub fn name(&self) -> (r: &'static str)
        ensures
            r@ == self.spec_name(),
    {
        match self {
            DiagnosticCode::MaxNestingDepth => "MaxNestingDepth",
            DiagnosticCode::MaxObjectMembers => "MaxObjectMembers",
            DiagnosticCode::MaxArrayItems => "MaxArrayItems",
            DiagnosticCode::UnusedAnchor => "UnusedAnchor",
            DiagnosticCode::DuplicateKey => "DuplicateKey",
            DiagnosticCode::ExcessiveSpreads => "ExcessiveSpreads",
            DiagnosticCode::MagicNumber => "MagicNumber",
            DiagnosticCode::MissingTypeValidation => "MissingTypeValidation",
            DiagnosticCode::InconsistentNaming => "InconsistentNaming",
            DiagnosticCode::EmptyObject => "EmptyObject",
            DiagnosticCode::DeepImportChain => "DeepImportChain",
            DiagnosticCode::CircularDependency => "CircularDependency",
            DiagnosticCode::UnusedImport => "UnusedImport",
        }
    }

    /// A short title.
    pub fn title(&self) -> (r: &'static str)
        ensures
            r@ == self.spec_title(),
    {
        match self {
            DiagnosticCode::MaxNestingDepth => "Excessive nesting depth",
            DiagnosticCode::MaxObjectMembers => "Too many object members",
            DiagnosticCode::MaxArrayItems => "Too many array items",
            DiagnosticCode::UnusedAnchor => "Unused anchor definition",
            DiagnosticCode::DuplicateKey => "Duplicate object key",
            DiagnosticCode::ExcessiveSpreads => "Too many spread operators",
            DiagnosticCode::MagicNumber => "Magic number literal",
            DiagnosticCode::MissingTypeValidation => "Missing type validation",
            DiagnosticCode::InconsistentNaming => "Inconsistent naming convention",
            DiagnosticCode::EmptyObject => "Empty object or array",
            DiagnosticCode::DeepImportChain => "Deep import chain",
            DiagnosticCode::CircularDependency => "Circular dependency detected",
            DiagnosticCode::UnusedImport => "Unused import",
        }
    }

    /// A longer explanation with advice.
    pub fn description(&self) -> (r: &'static str)
        ensures
            r@ == self.spec_description(),
    {
        match self {
            DiagnosticCode::MaxNestingDepth => "Deeply nested structures are hard to read and maintain. Consider flattening or extracting nested parts.",
            DiagnosticCode::MaxObjectMembers => "Large objects with many members are difficult to understand. Consider splitting into smaller, focused objects.",
            DiagnosticCode::MaxArrayItems => "Very large arrays may indicate the need for pagination or chunking. Consider restructuring your data.",
            DiagnosticCode::UnusedAnchor => "An anchor is defined but never referenced. Remove it or use it with an alias (*anchor) or spread (...*anchor).",
            DiagnosticCode::DuplicateKey => "Object has duplicate keys. The second occurrence will override the first, which is likely unintentional.",
            DiagnosticCode::ExcessiveSpreads => "Too many spread operators in a single object make it hard to track the final shape. Consider simplifying.",
            DiagnosticCode::MagicNumber => "Literal numbers without context are hard to understand. Extract them as named constants with descriptive names.",
            DiagnosticCode::MissingTypeValidation => "Data lacks type validation. Add type constraints (:: TypeName) to ensure data integrity.",
            DiagnosticCode::InconsistentNaming => "Keys use inconsistent naming conventions (camelCase vs snake_case). Choose one style for consistency.",
            DiagnosticCode::EmptyObject => "Empty objects or arrays may indicate incomplete data or unnecessary structure. Verify this is  intentional.",
            DiagnosticCode::DeepImportChain => "Anchor or type is imported through multiple levels. This creates tight coupling and makes refactoring difficult.",
            DiagnosticCode::CircularDependency => "Files import each other in a cycle. This can cause issues and indicates poor module organization.",
            DiagnosticCode::UnusedImport => "Import statement brings in items that are never used. Remove to keep code clean.",
        }
    }

    /// The configuration key that governs the check.
    pub fn config_key(&self) -> (r: &'static str)
        ensures
            r@ == self.spec_config_key(),
    {
        match self {
            DiagnosticCode::MaxNestingDepth => "max_nesting_depth",
            DiagnosticCode::MaxObjectMembers => "max_object_members",
            DiagnosticCode::MaxArrayItems => "max_array_items",
            DiagnosticCode::UnusedAnchor => "warn_unused_anchors",
            DiagnosticCode::DuplicateKey => "N/A (always enabled)",
            DiagnosticCode::ExcessiveSpreads => "max_spreads_per_object",
            DiagnosticCode::MagicNumber => "warn_magic_numbers",
            DiagnosticCode::MissingTypeValidation => "suggest_type_validation",
            DiagnosticCode::InconsistentNaming => "enforce_naming_convention",
            DiagnosticCode::EmptyObject => "warn_empty_structures",
            DiagnosticCode::DeepImportChain => "max_import_chain_depth",
            DiagnosticCode::CircularDependency => "N/A (always enabled)",
            DiagnosticCode::UnusedImport => "warn_unused_imports",
        }
    }

    /// The default severity: errors for duplicate keys and import cycles,
    /// information for magic numbers and best-practice hints, warnings otherwise.
    pub fn severity(&self) -> (r: DiagnosticSeverity)
        ensures
            r == self.spec_severity(),
    {
        match self {
            DiagnosticCode::MaxNestingDepth => DiagnosticSeverity::Warning,
            DiagnosticCode::MaxObjectMembers => DiagnosticSeverity::Warning,
            DiagnosticCode::MaxArrayItems => DiagnosticSeverity::Warning,
            DiagnosticCode::UnusedAnchor => DiagnosticSeverity::Warning,
            DiagnosticCode::DuplicateKey => DiagnosticSeverity::Error,
            DiagnosticCode::ExcessiveSpreads => DiagnosticSeverity::Warning,
            DiagnosticCode::MagicNumber => DiagnosticSeverity::Info,
            DiagnosticCode::MissingTypeValidation => DiagnosticSeverity::Info,
            DiagnosticCode::InconsistentNaming => DiagnosticSeverity::Info,
            DiagnosticCode::EmptyObject => DiagnosticSeverity::Info,
            DiagnosticCode::DeepImportChain => DiagnosticSeverity::Warning,
            DiagnosticCode::CircularDependency => DiagnosticSeverity::Error,
            DiagnosticCode::UnusedImport => DiagnosticSeverity::Warning,
        }
    }
}

impl DiagnosticSeverity {
    pub open spec fn spec_short_label(self) -> Seq<char> {
        match self {
            DiagnosticSeverity::Error => "[E]"@,
            DiagnosticSeverity::Warning => "[W]"@,
            DiagnosticSeverity::Info => "[I]"@,
        }
    }

    pub open spec fn spec_label(self) -> Seq<char> {
        match self {
            DiagnosticSeverity::Error => "error"@,
            DiagnosticSeverity::Warning => "warning"@,
            DiagnosticSeverity::Info => "info"@,
        }
    }

    /// A bracketed one-letter label: `[E]`, `[W]` or `[I]`.
    pub fn short_label(&self) -> (r: &'static str)
        ensures
            r@ == self.spec_short_label(),
    {
        match self {
            DiagnosticSeverity::Error => "[E]",
            DiagnosticSeverity::Warning => "[W]",
            DiagnosticSeverity::Info => "[I]",
        }
    }

    /// The lowercase word: `error`, `warning` or `info`.
    pub fn label(&self) -> (r: &'static str)
        ensures
            r@ == self.spec_label(),
    {
        match self {
            DiagnosticSeverity::Error => "error",
            DiagnosticSeverity::Warning => "warning",
            DiagnosticSeverity::Info => "info",
        }
    }
}

} // verus!
