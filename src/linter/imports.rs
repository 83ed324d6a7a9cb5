//! Namespaced-reference density as a sign of deep import chains.
use vstd::prelude::*;

use crate::ast::MonValue;
use crate::linter::diagnostic::DiagnosticCode;
use crate::linter::smells::{collect_references, references_in};
use crate::linter::{extends, lemma_extends_refl, Finding, LintConfig, LintResult};
use crate::text::{append_decimal, contains_char, decimal, views};

verus! {

/// How many names of `names` hold a `.`, that is, go through a namespace.
pub open spec fn dotted_count(names: Seq<Seq<char>>) -> nat
    decreases names.len(),
{
    if names.len() == 0 {
        0
    } else {
        dotted_count(names.drop_last()) + if names.last().contains('.') { 1nat } else { 0nat }
    }
}

pub open spec fn import_chain_message(n: nat) -> Seq<char> {
    "File has "@ + decimal(n) + " namespaced references, consider simplifying imports"@
}

/// One finding for the whole document when its namespaced references
/// number more than three times the allowed import chain depth.
pub open spec fn import_findings(cfg: LintConfig, root: MonValue) -> Seq<Finding> {
    let n = dotted_count(references_in(root));
    if n > cfg.max_import_chain_depth * 3 {
        seq![(DiagnosticCode::DeepImportChain, import_chain_message(n))]
    } else {
        Seq::empty()
    }
}

/// Approximates import chain depth by how many references are namespaced.
pub struct ImportAnalyzer {
    pub config: LintConfig,
}

impl ImportAnalyzer {
    pub fn new(config: LintConfig) -> (r: Self)
        ensures
            r.config == config,
    {
        ImportAnalyzer { config }
    }

    pub fn analyze(&self, root: &MonValue, result: &mut LintResult)
        ensures
            extends(
                old(result).diagnostics@,
                final(result).diagnostics@,
                import_findings(self.config, *root),
            ),
    {
        self.detect_namespace_complexity(root, result);
    }

    fn detect_namespace_complexity(&self, value: &MonValue, result: &mut LintResult)
        ensures
            extends(
                old(result).diagnostics@,
                final(result).diagnostics@,
                import_findings(self.config, *value),
            ),
    {
        let count = self.count_namespace_refs(value);
        let limit = self.config.max_import_chain_depth;
        let over = if limit > usize::MAX / 3 {
            false
        } else {
            count > limit * 3
        };
        if over {
            let mut m = String::from_str("File has ");
            append_decimal(&mut m, count);
            m.append(" namespaced references, consider simplifying imports");
            result.add_diagnostic(DiagnosticCode::DeepImportChain, m, None);
        } else {
            proof {
                lemma_extends_refl(result.diagnostics@);
            }
        }
    }

    /// How many references at `value` and below go through a namespace.
    fn count_namespace_refs(&self, value: &MonValue) -> (r: usize)
        ensures
            r == dotted_count(references_in(*value)),
    {
        let mut names: Vec<String> = Vec::new();
        collect_references(value, &mut names);
        assert(views(names@) =~= references_in(*value));
        let mut count: usize = 0;
        let mut i: usize = 0;
        while i < names.len()
            invariant
                i <= names@.len(),
                count <= i,
                count == dotted_count(views(names@).subrange(0, i as int)),
            decreases names.len() - i,
        {
            proof {
                assert(views(names@).subrange(0, i + 1).drop_last() =~= views(names@).subrange(
                    0,
                    i as int,
                ));
            }
            if contains_char(names[i].as_str(), '.') {
                count = count + 1;
            }
            i = i + 1;
        }
        proof {
            assert(views(names@).subrange(0, names@.len() as int) =~= views(names@));
        }
        count
    }
}

} // verus!
