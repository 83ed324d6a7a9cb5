//! Static analysis of MON documents: complexity, smells, references.
use vstd::prelude::*;

pub mod api;
pub mod complexity;
pub mod diagnostic;
pub mod imports;
pub mod position;
pub mod rules;
pub mod smells;
pub mod symbol_table;

use crate::ast::{height, Member, MonDocument, MonValue, MonValueKind};
use crate::linter::complexity::{
    depth_findings, items_size_findings, lemma_nesting_le_height, nesting, pairs_size_findings,
    size_findings, ComplexityAnalyzer,
};
use crate::linter::diagnostic::{DiagnosticCode, DiagnosticSeverity};
use crate::linter::imports::{import_findings, ImportAnalyzer};
use crate::linter::position::{DiagnosticTag, Range, RelatedInformation};
use crate::linter::smells::{
    anchors_in, duplicate_findings, duplicate_findings_items, duplicate_findings_members,
    empty_findings, empty_findings_items, empty_findings_members, first_occurrences, key_excess,
    key_excess_items, key_excess_members, lemma_repeat_len, repeat_of_last, repeated_key_findings,
    magic_findings, magic_findings_items, magic_findings_members, naming_findings,
    naming_findings_members, references_in, smell_findings, spread_findings,
    spread_findings_items, spread_findings_members, unreferenced_findings, SmellDetector,
};
use crate::text::{contains_text, occurs_in};

verus! {

/// A finding as the contracts speak of it: its code and its message.
pub type Finding = (DiagnosticCode, Seq<char>);

/// One finding of the linter, in a form an editor can show.
#[derive(Debug, Clone)]
pub struct Diagnostic {
    pub code: DiagnosticCode,
    /// The code's variant name, such as `DuplicateKey`.
    pub code_name: String,
    pub severity: DiagnosticSeverity,
    pub message: String,
    pub range: Option<Range>,
    pub related_information: Vec<RelatedInformation>,
    pub tags: Vec<DiagnosticTag>,
    /// A free-form location, kept for callers that report no range.
    pub location: Option<String>,
}

/// All findings on one document, in the order they were made.
#[derive(Debug, Clone)]
pub struct LintResult {
    pub diagnostics: Vec<Diagnostic>,
}

impl Diagnostic {
    /// The severity and the code name agree with the code.
    pub open spec fn wf(self) -> bool {
        &&& self.severity == self.code.spec_severity()
        &&& self.code_name@ == self.code.spec_name()
    }

    pub open spec fn finding(self) -> Finding {
        (self.code, self.message@)
    }

    /// No range, related information, tags or location is attached.
    pub open spec fn plain(self) -> bool {
        &&& self.range.is_none()
        &&& self.related_information@.len() == 0
        &&& self.tags@.len() == 0
        &&& self.location.is_none()
    }
}

/// `new` is `old` followed by well-formed diagnostics whose codes and
/// messages are `fs`.
pub open spec fn appended(old: Seq<Diagnostic>, new: Seq<Diagnostic>, fs: Seq<Finding>) -> bool {
    &&& new.len() == old.len() + fs.len()
    &&& new.subrange(0, old.len() as int) == old
    &&& forall|i: int|
        0 <= i < fs.len() ==> (#[trigger] new[old.len() + i]).wf() && new[old.len() + i].finding()
            == fs[i]
}

/// `new` is `old` followed by well-formed diagnostics whose codes and
/// messages are `fs`, with no range, related information, tags or location.
pub open spec fn extends(old: Seq<Diagnostic>, new: Seq<Diagnostic>, fs: Seq<Finding>) -> bool {
    &&& appended(old, new, fs)
    &&& forall|i: int| 0 <= i < fs.len() ==> (#[trigger] new[old.len() + i]).plain()
}

/// The diagnostics of `ds` with severity `s`, in order.
pub open spec fn with_severity(ds: Seq<Diagnostic>, s: DiagnosticSeverity) -> Seq<Diagnostic> {
    ds.filter(|d: Diagnostic| d.severity == s)
}

/// Extending by `f` then by `g` extends by `f + g`.
pub proof fn lemma_extends_trans(
    a: Seq<Diagnostic>,
    b: Seq<Diagnostic>,
    c: Seq<Diagnostic>,
    f: Seq<Finding>,
    g: Seq<Finding>,
)
    requires
        extends(a, b, f),
        extends(b, c, g),
    ensures
        extends(a, c, f + g),
{
    assert(c.subrange(0, a.len() as int) =~= b.subrange(0, a.len() as int));
    assert forall|i: int| 0 <= i < (f + g).len() implies (#[trigger] c[a.len() + i]).wf()
        && c[a.len() + i].finding() == (f + g)[i] && c[a.len() + i].plain() by {
        if i < f.len() {
            assert(c[a.len() + i] == c.subrange(0, b.len() as int)[a.len() + i]);
        } else {
            let j = i - f.len();
            assert(c[b.len() + j] == c[a.len() + i]);
        }
    }
}

/// Extending by nothing leaves the list as it is.
pub proof fn lemma_extends_refl(a: Seq<Diagnostic>)
    ensures
        extends(a, a, Seq::empty()),
{
    assert(a.subrange(0, a.len() as int) =~= a);
}

proof fn lemma_filter_step(ds: Seq<Diagnostic>, i: int, s: DiagnosticSeverity)
    requires
        0 <= i < ds.len(),
    ensures
        with_severity(ds.subrange(0, i + 1), s) == if ds[i].severity == s {
            with_severity(ds.subrange(0, i), s).push(ds[i])
        } else {
            with_severity(ds.subrange(0, i), s)
        },
{
    reveal(Seq::filter);
    assert(ds.subrange(0, i + 1).drop_last() =~= ds.subrange(0, i));
}

/// The diagnostics of `ds` with severity `s`, in order, by reference.
pub(crate) fn select_severity(ds: &Vec<Diagnostic>, s: DiagnosticSeverity) -> (r: Vec<&Diagnostic>)
    ensures
        r@.len() == with_severity(ds@, s).len(),
        forall|i: int| 0 <= i < r@.len() ==> *r@[i] == with_severity(ds@, s)[i],
{
    let mut r: Vec<&Diagnostic> = Vec::new();
    let mut i: usize = 0;
    while i < ds.len()
        invariant
            i <= ds@.len(),
            r@.len() == with_severity(ds@.subrange(0, i as int), s).len(),
            forall|j: int|
                0 <= j < r@.len() ==> *r@[j] == with_severity(ds@.subrange(0, i as int), s)[j],
        decreases ds.len() - i,
    {
        proof {
            lemma_filter_step(ds@, i as int, s);
        }
        if ds[i].severity == s {
            r.push(&ds[i]);
        }
        i = i + 1;
    }
    proof {
        assert(ds@.subrange(0, ds@.len() as int) =~= ds@);
    }
    r
}

impl LintResult {
    pub fn new() -> (r: Self)
        ensures
            r.diagnostics@ == Seq::<Diagnostic>::empty(),
    {
        LintResult { diagnostics: Vec::new() }
    }

    /// Whether there is any finding at all.
    pub fn has_issues(&self) -> (r: bool)
        ensures
            r == (self.diagnostics@.len() > 0),
    {
        self.diagnostics.len() > 0
    }

    /// Records a finding with its range, related information and tags.
    pub fn add_diagnostic_with_range(
        &mut self,
        code: DiagnosticCode,
        message: String,
        range: Option<Range>,
        related_info: Vec<RelatedInformation>,
        tags: Vec<DiagnosticTag>,
    )
        ensures
            appended(old(self).diagnostics@, final(self).diagnostics@, seq![(code, message@)]),
            final(self).diagnostics@.last().range == range,
            final(self).diagnostics@.last().related_information == related_info,
            final(self).diagnostics@.last().tags == tags,
            final(self).diagnostics@.last().location.is_none(),
    {
        let ghost m = message@;
        let d = Diagnostic {
            severity: code.severity(),
            code_name: String::from_str(code.name()),
            code,
            message,
            range,
            related_information: related_info,
            tags,
            location: None,
        };
        self.diagnostics.push(d);
        proof {
            let n = old(self).diagnostics@.len();
            assert(self.diagnostics@.subrange(0, n as int) =~= old(self).diagnostics@);
            assert(self.diagnostics@[n + 0int].finding() == (code, m));
        }
    }

    /// Records a finding with an optional free-form location and no range.
    pub fn add_diagnostic(&mut self, code: DiagnosticCode, message: String, location: Option<String>)
        ensures
            appended(old(self).diagnostics@, final(self).diagnostics@, seq![(code, message@)]),
            location.is_none() ==> extends(
                old(self).diagnostics@,
                final(self).diagnostics@,
                seq![(code, message@)],
            ),
            final(self).diagnostics@.last().range.is_none(),
            final(self).diagnostics@.last().related_information@.len() == 0,
            final(self).diagnostics@.last().tags@.len() == 0,
            final(self).diagnostics@.last().location == location,
    {
        let ghost m = message@;
        let d = Diagnostic {
            severity: code.severity(),
            code_name: String::from_str(code.name()),
            code,
            message,
            range: None,
            related_information: Vec::new(),
            tags: Vec::new(),
            location,
        };
        self.diagnostics.push(d);
        proof {
            let n = old(self).diagnostics@.len();
            assert(self.diagnostics@.subrange(0, n as int) =~= old(self).diagnostics@);
            assert(self.diagnostics@[n + 0int].finding() == (code, m));
        }
    }

    /// The error diagnostics, in order.
    pub fn errors(&self) -> (r: Vec<&Diagnostic>)
        ensures
            r@.len() == with_severity(self.diagnostics@, DiagnosticSeverity::Error).len(),
            forall|i: int|
                0 <= i < r@.len() ==> *r@[i] == with_severity(
                    self.diagnostics@,
                    DiagnosticSeverity::Error,
                )[i],
    {
        select_severity(&self.diagnostics, DiagnosticSeverity::Error)
    }

    /// The warning diagnostics, in order.
    pub fn warnings(&self) -> (r: Vec<&Diagnostic>)
        ensures
            r@.len() == with_severity(self.diagnostics@, DiagnosticSeverity::Warning).len(),
            forall|i: int|
                0 <= i < r@.len() ==> *r@[i] == with_severity(
                    self.diagnostics@,
                    DiagnosticSeverity::Warning,
                )[i],
    {
        select_severity(&self.diagnostics, DiagnosticSeverity::Warning)
    }

    /// The informational diagnostics, in order.
    pub fn infos(&self) -> (r: Vec<&Diagnostic>)
        ensures
            r@.len() == with_severity(self.diagnostics@, DiagnosticSeverity::Info).len(),
            forall|i: int|
                0 <= i < r@.len() ==> *r@[i] == with_severity(
                    self.diagnostics@,
                    DiagnosticSeverity::Info,
                )[i],
    {
        select_severity(&self.diagnostics, DiagnosticSeverity::Info)
    }

    /// Records a warning given by message only; the code is read from the
    /// message: nesting, then members, then items, else an unused anchor.
    pub fn add_warning(&mut self, _rule: &str, message: String, location: Option<String>)
        ensures
            appended(
                old(self).diagnostics@,
                final(self).diagnostics@,
                seq![(warning_code(message@), message@)],
            ),
            final(self).diagnostics@.last().location == location,
    {
        let code = if contains_text(message.as_str(), "nesting") {
            DiagnosticCode::MaxNestingDepth
        } else if contains_text(message.as_str(), "members") {
            DiagnosticCode::MaxObjectMembers
        } else if contains_text(message.as_str(), "items") {
            DiagnosticCode::MaxArrayItems
        } else {
            DiagnosticCode::UnusedAnchor
        };
        self.add_diagnostic(code, message, location);
    }

    /// Records an error given by message only: a duplicate key when the
    /// message says `Duplicate`, else a circular dependency.
    pub fn add_error(&mut self, _rule: &str, message: String, location: Option<String>)
        ensures
            appended(
                old(self).diagnostics@,
                final(self).diagnostics@,
                seq![(error_code(message@), message@)],
            ),
            final(self).diagnostics@.last().location == location,
    {
        let code = if contains_text(message.as_str(), "Duplicate") {
            DiagnosticCode::DuplicateKey
        } else {
            DiagnosticCode::CircularDependency
        };
        self.add_diagnostic(code, message, location);
    }

    /// Records an informational magic-number finding.
    pub fn add_info(&mut self, _rule: &str, message: String)
        ensures
            extends(
                old(self).diagnostics@,
                final(self).diagnostics@,
                seq![(DiagnosticCode::MagicNumber, message@)],
            ),
            final(self).diagnostics@.last().location.is_none(),
    {
        self.add_diagnostic(DiagnosticCode::MagicNumber, message, None);
    }
}

/// The code that a warning message stands for.
pub open spec fn warning_code(message: Seq<char>) -> DiagnosticCode {
    if occurs_in(message, "nesting"@) {
        DiagnosticCode::MaxNestingDepth
    } else if occurs_in(message, "members"@) {
        DiagnosticCode::MaxObjectMembers
    } else if occurs_in(message, "items"@) {
        DiagnosticCode::MaxArrayItems
    } else {
        DiagnosticCode::UnusedAnchor
    }
}

/// The code that an error message stands for.
pub open spec fn error_code(message: Seq<char>) -> DiagnosticCode {
    if occurs_in(message, "Duplicate"@) {
        DiagnosticCode::DuplicateKey
    } else {
        DiagnosticCode::CircularDependency
    }
}

/// Thresholds and switches of the linter.
#[derive(Debug, Clone, Copy)]
pub struct LintConfig {
    pub max_nesting_depth: usize,
    pub max_object_members: usize,
    pub max_array_items: usize,
    pub max_import_chain_depth: usize,
    pub warn_unused_anchors: bool,
    pub warn_magic_numbers: bool,
    pub suggest_type_validation: bool,
}

impl Default for LintConfig {
    /// Depth 4, 20 members, 100 items, import chains of 2, unused anchors
    /// reported, magic numbers and type-validation hints not.
    fn default() -> (r: Self)
        ensures
            r.max_nesting_depth == 4,
            r.max_object_members == 20,
            r.max_array_items == 100,
            r.max_import_chain_depth == 2,
            r.warn_unused_anchors,
            !r.warn_magic_numbers,
            !r.suggest_type_validation,
    {
        LintConfig {
            max_nesting_depth: 4,
            max_object_members: 20,
            max_array_items: 100,
            max_import_chain_depth: 2,
            warn_unused_anchors: true,
            warn_magic_numbers: false,
            suggest_type_validation: false,
        }
    }
}

impl LintConfig {
    /// Restricting to named rules is not supported: the configuration is
    /// returned as it is.
    pub fn with_only_rules(self, _rules: Vec<String>) -> (r: Self)
        ensures
            r == self,
    {
        self
    }

    /// The configuration a document describes; documents carry no linter
    /// settings yet, so this is the default configuration.
    pub fn from_document(_doc: &MonDocument) -> (r: Self)
        ensures
            r.max_nesting_depth == 4,
            r.max_object_members == 20,
            r.max_array_items == 100,
            r.max_import_chain_depth == 2,
            r.warn_unused_anchors,
            !r.warn_magic_numbers,
            !r.suggest_type_validation,
    {
        LintConfig::default()
    }

    /// Disabling named rules is not supported: the configuration is
    /// returned as it is.
    pub fn without_rules(self, _rules: Vec<String>) -> (r: Self)
        ensures
            r == self,
    {
        self
    }
}

/// Everything the linter reports on a tree: complexity first, then smells,
/// then import density.
pub open spec fn lint_findings(cfg: LintConfig, root: MonValue) -> Seq<Finding> {
    depth_findings(cfg, root) + size_findings(cfg, root, 0) + smell_findings(
        cfg.warn_unused_anchors,
        cfg.warn_magic_numbers,
        root,
    ) + import_findings(cfg, root)
}

/// Runs the complexity, smell and import analyses on a document.
pub struct Linter {
    pub config: LintConfig,
}

impl Linter {
    pub fn new(config: LintConfig) -> (r: Self)
        ensures
            r.config == config,
    {
        Linter { config }
    }

    /// Lints `doc`; the findings come in a fixed order: complexity, smells,
    /// imports.
    pub fn lint(&self, doc: &MonDocument, _source: &str) -> (r: LintResult)
        requires
            height(doc.root) < usize::MAX,
        ensures
            extends(Seq::empty(), r.diagnostics@, lint_findings(self.config, doc.root)),
    {
        proof {
            lemma_nesting_le_height(doc.root);
        }
        let mut result = LintResult::new();
        let complexity_analyzer = ComplexityAnalyzer::new(self.config);
        complexity_analyzer.analyze(&doc.root, &mut result);
        let ghost s1 = result.diagnostics@;
        let smell_detector = SmellDetector::new(
            self.config.warn_unused_anchors,
            self.config.warn_magic_numbers,
        );
        smell_detector.detect(&doc.root, &mut result);
        let ghost s2 = result.diagnostics@;
        let import_analyzer = ImportAnalyzer::new(self.config);
        import_analyzer.analyze(&doc.root, &mut result);
        proof {
            let f1 = depth_findings(self.config, doc.root) + size_findings(self.config, doc.root, 0);
            let f2 = smell_findings(
                self.config.warn_unused_anchors,
                self.config.warn_magic_numbers,
                doc.root,
            );
            lemma_extends_trans(Seq::empty(), s1, s2, f1, f2);
            lemma_extends_trans(
                Seq::empty(),
                s2,
                result.diagnostics@,
                f1 + f2,
                import_findings(self.config, doc.root),
            );
        }
        result
    }
}

/// Linting depends on the configuration and the document alone: equal
/// inputs give equal findings, in the same order.
pub proof fn lemma_lint_deterministic(
    c1: LintConfig,
    c2: LintConfig,
    r1: crate::ast::MonValue,
    r2: crate::ast::MonValue,
)
    requires
        c1 == c2,
        r1 == r2,
    ensures
        lint_findings(c1, r1) == lint_findings(c2, r2),
{
}

/// No finding of `fs` has the code `c`.
pub open spec fn codes_differ(fs: Seq<Finding>, c: DiagnosticCode) -> bool {
    forall|i: int| 0 <= i < fs.len() ==> (#[trigger] fs[i]).0 != c
}

/// How many findings of `fs` have the code `c`.
pub open spec fn code_count(fs: Seq<Finding>, c: DiagnosticCode) -> nat
    decreases fs.len(),
{
    if fs.len() == 0 {
        0
    } else {
        code_count(fs.drop_last(), c) + if fs.last().0 == c { 1nat } else { 0nat }
    }
}

pub broadcast proof fn lemma_codes_differ_concat(a: Seq<Finding>, b: Seq<Finding>, c: DiagnosticCode)
    requires
        codes_differ(a, c),
        codes_differ(b, c),
    ensures
        #[trigger] codes_differ(a + b, c),
{
    assert forall|i: int| 0 <= i < (a + b).len() implies (#[trigger] (a + b)[i]).0 != c by {
        if i >= a.len() {
            assert((a + b)[i] == b[i - a.len()]);
        }
    }
}

proof fn lemma_code_count_concat(a: Seq<Finding>, b: Seq<Finding>, c: DiagnosticCode)
    ensures
        code_count(a + b, c) == code_count(a, c) + code_count(b, c),
    decreases b.len(),
{
    if b.len() == 0 {
        assert(a + b =~= a);
    } else {
        assert((a + b).drop_last() =~= a + b.drop_last());
        lemma_code_count_concat(a, b.drop_last(), c);
    }
}

proof fn lemma_code_count_zero(fs: Seq<Finding>, c: DiagnosticCode)
    requires
        codes_differ(fs, c),
    ensures
        code_count(fs, c) == 0,
    decreases fs.len(),
{
    if fs.len() > 0 {
        assert(codes_differ(fs.drop_last(), c)) by {
            assert forall|i: int| 0 <= i < fs.drop_last().len() implies (#[trigger] fs.drop_last()[i]).0 != c by {
                assert(fs.drop_last()[i] == fs[i]);
            }
        }
        lemma_code_count_zero(fs.drop_last(), c);
        assert(fs.last() == fs[fs.len() - 1]);
    }
}

proof fn lemma_unreferenced_codes(names: Seq<Seq<char>>, refs: Seq<Seq<char>>, c: DiagnosticCode)
    requires
        c != DiagnosticCode::UnusedAnchor,
    ensures
        codes_differ(unreferenced_findings(names, refs), c),
    decreases names.len(),
{
    broadcast use lemma_codes_differ_concat;

    if names.len() > 0 {
        lemma_unreferenced_codes(names.drop_last(), refs, c);
    }
}

proof fn lemma_size_codes(cfg: LintConfig, v: MonValue, depth: nat, c: DiagnosticCode)
    requires
        c != DiagnosticCode::MaxObjectMembers && c != DiagnosticCode::MaxArrayItems,
    ensures
        codes_differ(size_findings(cfg, v, depth), c),
    decreases v, 0nat,
{
    broadcast use lemma_codes_differ_concat;

    match v.kind {
        MonValueKind::Object(ms) => lemma_size_codes_members(cfg, ms@, depth + 1, c),
        MonValueKind::Array(vs) => lemma_size_codes_items(cfg, vs@, depth + 1, c),
        _ => {},
    }
}

proof fn lemma_size_codes_members(cfg: LintConfig, ms: Seq<Member>, depth: nat, c: DiagnosticCode)
    requires
        c != DiagnosticCode::MaxObjectMembers && c != DiagnosticCode::MaxArrayItems,
    ensures
        codes_differ(pairs_size_findings(cfg, ms, depth), c),
    decreases ms, ms.len(),
{
    broadcast use lemma_codes_differ_concat;

    if ms.len() > 0 {
        lemma_size_codes_members(cfg, ms.drop_last(), depth, c);
        match ms.last() {
            Member::Pair(p) => lemma_size_codes(cfg, p.value, depth, c),
        _ => {},
        }
    }
}

proof fn lemma_size_codes_items(cfg: LintConfig, vs: Seq<MonValue>, depth: nat, c: DiagnosticCode)
    requires
        c != DiagnosticCode::MaxObjectMembers && c != DiagnosticCode::MaxArrayItems,
    ensures
        codes_differ(items_size_findings(cfg, vs, depth), c),
    decreases vs, vs.len(),
{
    broadcast use lemma_codes_differ_concat;

    if vs.len() > 0 {
        lemma_size_codes_items(cfg, vs.drop_last(), depth, c);
        lemma_size_codes(cfg, vs.last(), depth, c);
    }
}

proof fn lemma_magic_codes(v: MonValue, c: DiagnosticCode)
    requires
        c != DiagnosticCode::MagicNumber,
    ensures
        codes_differ(magic_findings(v), c),
    decreases v, 0nat,
{
    broadcast use lemma_codes_differ_concat;

    match v.kind {
        MonValueKind::Object(ms) => lemma_magic_codes_members(ms@, c),
        MonValueKind::Array(vs) => lemma_magic_codes_items(vs@, c),
        _ => {},
    }
}

proof fn lemma_magic_codes_members(ms: Seq<Member>, c: DiagnosticCode)
    requires
        c != DiagnosticCode::MagicNumber,
    ensures
        codes_differ(magic_findings_members(ms), c),
    decreases ms, ms.len(),
{
    broadcast use lemma_codes_differ_concat;

    if ms.len() > 0 {
        lemma_magic_codes_members(ms.drop_last(), c);
        match ms.last() {
            Member::Pair(p) => lemma_magic_codes(p.value, c),
        _ => {},
        }
    }
}

proof fn lemma_magic_codes_items(vs: Seq<MonValue>, c: DiagnosticCode)
    requires
        c != DiagnosticCode::MagicNumber,
    ensures
        codes_differ(magic_findings_items(vs), c),
    decreases vs, vs.len(),
{
    broadcast use lemma_codes_differ_concat;

    if vs.len() > 0 {
        lemma_magic_codes_items(vs.drop_last(), c);
        lemma_magic_codes(vs.last(), c);
    }
}

proof fn lemma_duplicate_codes(v: MonValue, c: DiagnosticCode)
    requires
        c != DiagnosticCode::DuplicateKey,
    ensures
        codes_differ(duplicate_findings(v), c),
    decreases v, 0nat,
{
    broadcast use lemma_codes_differ_concat;

    match v.kind {
        MonValueKind::Object(ms) => lemma_duplicate_codes_members(ms@, c),
        MonValueKind::Array(vs) => lemma_duplicate_codes_items(vs@, c),
        _ => {},
    }
}

proof fn lemma_duplicate_codes_members(ms: Seq<Member>, c: DiagnosticCode)
    requires
        c != DiagnosticCode::DuplicateKey,
    ensures
        codes_differ(duplicate_findings_members(ms), c),
    decreases ms, ms.len(),
{
    broadcast use lemma_codes_differ_concat;

    if ms.len() > 0 {
        lemma_duplicate_codes_members(ms.drop_last(), c);
        match ms.last() {
            Member::Pair(p) => lemma_duplicate_codes(p.value, c),
        _ => {},
        }
    }
}

proof fn lemma_duplicate_codes_items(vs: Seq<MonValue>, c: DiagnosticCode)
    requires
        c != DiagnosticCode::DuplicateKey,
    ensures
        codes_differ(duplicate_findings_items(vs), c),
    decreases vs, vs.len(),
{
    broadcast use lemma_codes_differ_concat;

    if vs.len() > 0 {
        lemma_duplicate_codes_items(vs.drop_last(), c);
        lemma_duplicate_codes(vs.last(), c);
    }
}

proof fn lemma_spread_codes(v: MonValue, c: DiagnosticCode)
    requires
        c != DiagnosticCode::ExcessiveSpreads,
    ensures
        codes_differ(spread_findings(v), c),
    decreases v, 0nat,
{
    broadcast use lemma_codes_differ_concat;

    match v.kind {
        MonValueKind::Object(ms) => lemma_spread_codes_members(ms@, c),
        MonValueKind::Array(vs) => lemma_spread_codes_items(vs@, c),
        _ => {},
    }
}

proof fn lemma_spread_codes_members(ms: Seq<Member>, c: DiagnosticCode)
    requires
        c != DiagnosticCode::ExcessiveSpreads,
    ensures
        codes_differ(spread_findings_members(ms), c),
    decreases ms, ms.len(),
{
    broadcast use lemma_codes_differ_concat;

    if ms.len() > 0 {
        lemma_spread_codes_members(ms.drop_last(), c);
        match ms.last() {
            Member::Pair(p) => lemma_spread_codes(p.value, c),
        _ => {},
        }
    }
}

proof fn lemma_spread_codes_items(vs: Seq<MonValue>, c: DiagnosticCode)
    requires
        c != DiagnosticCode::ExcessiveSpreads,
    ensures
        codes_differ(spread_findings_items(vs), c),
    decreases vs, vs.len(),
{
    broadcast use lemma_codes_differ_concat;

    if vs.len() > 0 {
        lemma_spread_codes_items(vs.drop_last(), c);
        lemma_spread_codes(vs.last(), c);
    }
}

proof fn lemma_empty_codes(v: MonValue, c: DiagnosticCode)
    requires
        c != DiagnosticCode::EmptyObject,
    ensures
        codes_differ(empty_findings(v), c),
    decreases v, 0nat,
{
    broadcast use lemma_codes_differ_concat;

    match v.kind {
        MonValueKind::Object(ms) => lemma_empty_codes_members(ms@, c),
        MonValueKind::Array(vs) => lemma_empty_codes_items(vs@, c),
        _ => {},
    }
}

proof fn lemma_empty_codes_members(ms: Seq<Member>, c: DiagnosticCode)
    requires
        c != DiagnosticCode::EmptyObject,
    ensures
        codes_differ(empty_findings_members(ms), c),
    decreases ms, ms.len(),
{
    broadcast use lemma_codes_differ_concat;

    if ms.len() > 0 {
        lemma_empty_codes_members(ms.drop_last(), c);
        match ms.last() {
            Member::Pair(p) => lemma_empty_codes(p.value, c),
        _ => {},
        }
    }
}

proof fn lemma_empty_codes_items(vs: Seq<MonValue>, c: DiagnosticCode)
    requires
        c != DiagnosticCode::EmptyObject,
    ensures
        codes_differ(empty_findings_items(vs), c),
    decreases vs, vs.len(),
{
    broadcast use lemma_codes_differ_concat;

    if vs.len() > 0 {
        lemma_empty_codes_items(vs.drop_last(), c);
        lemma_empty_codes(vs.last(), c);
    }
}

proof fn lemma_naming_codes(v: MonValue, c: DiagnosticCode)
    requires
        c != DiagnosticCode::InconsistentNaming,
    ensures
        codes_differ(naming_findings(v), c),
    decreases v, 0nat,
{
    broadcast use lemma_codes_differ_concat;

    match v.kind {
        MonValueKind::Object(ms) => lemma_naming_codes_members(ms@, c),
        _ => {},
    }
}

proof fn lemma_naming_codes_members(ms: Seq<Member>, c: DiagnosticCode)
    requires
        c != DiagnosticCode::InconsistentNaming,
    ensures
        codes_differ(naming_findings_members(ms), c),
    decreases ms, ms.len(),
{
    broadcast use lemma_codes_differ_concat;

    if ms.len() > 0 {
        lemma_naming_codes_members(ms.drop_last(), c);
        match ms.last() {
            Member::Pair(p) => lemma_naming_codes(p.value, c),
        _ => {},
        }
    }
}


/// However many branches reach the deepest level, the linter reports a
/// document nested deeper than the depth limit exactly once, and one within
/// the limit not at all.
pub proof fn lemma_one_depth_finding(cfg: LintConfig, root: MonValue)
    ensures
        code_count(lint_findings(cfg, root), DiagnosticCode::MaxNestingDepth) == if nesting(root)
            > cfg.max_nesting_depth {
            1nat
        } else {
            0nat
        },
{
    broadcast use lemma_codes_differ_concat;

    let c = DiagnosticCode::MaxNestingDepth;
    lemma_size_codes(cfg, root, 0, c);
    lemma_unreferenced_codes(first_occurrences(anchors_in(root)), references_in(root), c);
    lemma_magic_codes(root, c);
    lemma_duplicate_codes(root, c);
    lemma_spread_codes(root, c);
    lemma_empty_codes(root, c);
    lemma_naming_codes(root, c);
    let rest = size_findings(cfg, root, 0) + smell_findings(
        cfg.warn_unused_anchors,
        cfg.warn_magic_numbers,
        root,
    ) + import_findings(cfg, root);
    assert(codes_differ(rest, c));
    lemma_code_count_zero(rest, c);
    let d = depth_findings(cfg, root);
    assert(lint_findings(cfg, root) =~= d + rest);
    lemma_code_count_concat(d, rest, c);
    assert(code_count(Seq::<Finding>::empty(), c) == 0);
    if nesting(root) > cfg.max_nesting_depth {
        assert(d.drop_last() =~= Seq::<Finding>::empty());
        assert(d.last().0 == c);
        assert(code_count(d, c) == 1);
    } else {
        assert(d =~= Seq::<Finding>::empty());
    }
}

/// The complexity analyzer alone reports a document nested deeper than the
/// depth limit exactly once, however many branches reach the deepest
/// level, and not at all within the limit; the message speaks of more than
/// 2 levels exactly when the nesting passes the limit by more than 2.
pub proof fn lemma_complexity_one_depth_finding(cfg: LintConfig, root: MonValue)
    ensures
        code_count(
            depth_findings(cfg, root) + size_findings(cfg, root, 0),
            DiagnosticCode::MaxNestingDepth,
        ) == if nesting(root) > cfg.max_nesting_depth {
            1nat
        } else {
            0nat
        },
        nesting(root) > cfg.max_nesting_depth ==> (depth_findings(cfg, root)[0].1
            == complexity::deep_nesting_message(nesting(root), cfg.max_nesting_depth as nat)
            <==> nesting(root) > cfg.max_nesting_depth + 2),
{
    let c = DiagnosticCode::MaxNestingDepth;
    let d = depth_findings(cfg, root);
    lemma_size_codes(cfg, root, 0, c);
    lemma_code_count_zero(size_findings(cfg, root, 0), c);
    lemma_code_count_concat(d, size_findings(cfg, root, 0), c);
    assert(code_count(Seq::<Finding>::empty(), c) == 0);
    if nesting(root) > cfg.max_nesting_depth {
        assert(d.drop_last() =~= Seq::<Finding>::empty());
        assert(d.last().0 == c);
        let n = nesting(root);
        let l = cfg.max_nesting_depth as nat;
        if n <= l + 2 {
            let deep = complexity::deep_nesting_message(n, l);
            let plain = complexity::nesting_message(n, l);
            reveal_strlit(" by more than 2 levels");
            reveal_strlit(" exceeds limit of ");
            reveal_strlit(" exceeds recommended limit of ");
            reveal_strlit("Maximum nesting depth of ");
            let pre = "Maximum nesting depth of "@ + crate::text::decimal(n);
            assert(deep[pre.len() as int + 9] == 'l');
            assert(plain[pre.len() as int + 9] == 'r');
        }
    } else {
        assert(d =~= Seq::<Finding>::empty());
    }
}

/// The duplicate-key findings of a tree number, over every object in it,
/// its pairs minus its distinct keys: a key used `k` times in one object
/// gives `k - 1` of them.
pub proof fn lemma_duplicate_key_total(v: MonValue)
    ensures
        code_count(duplicate_findings(v), DiagnosticCode::DuplicateKey) == key_excess(v),
    decreases v, 0nat,
{
    match v.kind {
        MonValueKind::Object(ms) => {
            lemma_duplicate_total_members(ms@);
            lemma_repeat_len(ms@);
        },
        MonValueKind::Array(vs) => lemma_duplicate_total_items(vs@),
        _ => {},
    }
}

proof fn lemma_duplicate_total_members(ms: Seq<Member>)
    ensures
        code_count(duplicate_findings_members(ms), DiagnosticCode::DuplicateKey)
            == repeated_key_findings(ms).len() + key_excess_members(ms),
    decreases ms, ms.len(),
{
    let c = DiagnosticCode::DuplicateKey;
    if ms.len() > 0 {
        let d = ms.drop_last();
        lemma_duplicate_total_members(d);
        let own = repeat_of_last(ms);
        let child = match ms.last() {
            Member::Pair(p) => duplicate_findings(p.value),
            _ => Seq::<Finding>::empty(),
        };
        match ms.last() {
            Member::Pair(p) => lemma_duplicate_key_total(p.value),
            _ => {},
        }
        lemma_code_count_concat(duplicate_findings_members(d), own, c);
        lemma_code_count_concat(duplicate_findings_members(d) + own, child, c);
        assert(code_count(Seq::<Finding>::empty(), c) == 0);
        if own.len() > 0 {
            assert(own.drop_last() =~= Seq::<Finding>::empty());
            assert(own.last().0 == c);
        } else {
            assert(own =~= Seq::<Finding>::empty());
        }
        assert(code_count(child, c) == match ms.last() {
            Member::Pair(p) => key_excess(p.value),
            _ => 0nat,
        });
    }
}

proof fn lemma_duplicate_total_items(vs: Seq<MonValue>)
    ensures
        code_count(duplicate_findings_items(vs), DiagnosticCode::DuplicateKey) == key_excess_items(vs),
    decreases vs, vs.len(),
{
    if vs.len() > 0 {
        lemma_duplicate_total_items(vs.drop_last());
        lemma_duplicate_key_total(vs.last());
        lemma_code_count_concat(
            duplicate_findings_items(vs.drop_last()),
            duplicate_findings(vs.last()),
            DiagnosticCode::DuplicateKey,
        );
    }
}

} // verus!
