//! The analysis service: linting plus a symbol table of anchors, types
//! and imports, with unused anchors reported.
use vstd::prelude::*;

use crate::ast::{
    height, lemma_array_child, lemma_object_child, ImportStatement, Member, MonDocument, MonValue,
    MonValueKind, TypeDef,
};
use crate::linter::diagnostic::{DiagnosticCode, DiagnosticSeverity};
use crate::linter::position::{fits_positions, position_at, DiagnosticTag, Range};
use crate::linter::smells::{anchors_in, anchors_in_items, anchors_in_members, references_in, references_in_items, references_in_members, unused_anchor_message};
use crate::linter::symbol_table::{
    has_key, is_defined, refers_to, references_to, unreferenced_of, unused_of_kind, ReferenceKind, Symbol, SymbolKind, SymbolReference,
    SymbolTable,
};
use crate::linter::{
    extends, lint_findings, with_severity, Diagnostic, LintConfig, LintResult, Linter,
};

verus! {

/// The names of the types declared at `v` and below, in pre-order.
pub open spec fn types_in(v: MonValue) -> Seq<Seq<char>>
    decreases v, 0nat,
{
    match v.kind {
        MonValueKind::Object(ms) => types_in_members(ms@),
        MonValueKind::Array(vs) => types_in_items(vs@),
        _ => Seq::empty(),
    }
}

pub open spec fn types_in_members(ms: Seq<Member>) -> Seq<Seq<char>>
    decreases ms, ms.len(),
{
    if ms.len() == 0 {
        Seq::empty()
    } else {
        types_in_members(ms.drop_last()) + match ms.last() {
            Member::Pair(p) => types_in(p.value),
            Member::TypeDefinition(t) => seq![t.name@],
            _ => Seq::empty(),
        }
    }
}

pub open spec fn types_in_items(vs: Seq<MonValue>) -> Seq<Seq<char>>
    decreases vs, vs.len(),
{
    if vs.len() == 0 {
        Seq::empty()
    } else {
        types_in_items(vs.drop_last()) + types_in(vs.last())
    }
}

/// The uses of anchors at `v` and below, in pre-order: aliases, then array
/// and object spreads, each with the name it refers to.
/// A use of an anchor: the name, how it is used, and the byte span it is
/// reported at.
pub type Site = (Seq<char>, ReferenceKind, nat, nat);

pub open spec fn reference_sites(v: MonValue) -> Seq<Site>
    decreases v, 0nat,
{
    match v.kind {
        MonValueKind::Alias(n) => seq![(n@, ReferenceKind::Alias, v.pos_start as nat, v.pos_end as nat)],
        MonValueKind::ArraySpread(n) => seq![(n@, ReferenceKind::Spread, v.pos_start as nat, v.pos_end as nat)],
        MonValueKind::Object(ms) => reference_sites_members(ms@, v.pos_start as nat, v.pos_end as nat),
        MonValueKind::Array(vs) => reference_sites_items(vs@),
        _ => Seq::empty(),
    }
}

/// The uses in the members of an object whose span is `start..end`; an
/// object spread is reported at the object's span.
pub open spec fn reference_sites_members(ms: Seq<Member>, start: nat, end: nat) -> Seq<Site>
    decreases ms, ms.len(),
{
    if ms.len() == 0 {
        Seq::empty()
    } else {
        reference_sites_members(ms.drop_last(), start, end) + match ms.last() {
            Member::Pair(p) => reference_sites(p.value),
            Member::Spread(n) => seq![(n@, ReferenceKind::Spread, start, end)],
            _ => Seq::empty(),
        }
    }
}

pub open spec fn reference_sites_items(vs: Seq<MonValue>) -> Seq<Site>
    decreases vs, vs.len(),
{
    if vs.len() == 0 {
        Seq::empty()
    } else {
        reference_sites_items(vs.drop_last()) + reference_sites(vs.last())
    }
}

/// The keys defined in `new` are those of `old`, plus `anchors` as anchors
/// and `types` as types.
pub open spec fn defined_after(
    old: Seq<Symbol>,
    new: Seq<Symbol>,
    anchors: Seq<Seq<char>>,
    types: Seq<Seq<char>>,
) -> bool {
    forall|n: Seq<char>, k: SymbolKind|
        #[trigger] is_defined(new, n, k) <==> (is_defined(old, n, k) || (k == SymbolKind::Anchor
            && anchors.contains(n)) || (k == SymbolKind::Type && types.contains(n)))
}

/// Whether `r` is the range of bytes `start..end` of the text `source`.
pub open spec fn spans(r: Range, source: Seq<char>, start: nat, end: nat) -> bool {
    &&& (r.start.line as nat, r.start.character as nat) == position_at(source, start as int)
    &&& (r.end.line as nat, r.end.character as nat) == position_at(source, end as int)
}

/// `new` is `old` followed by one anchor reference per site of `sites`,
/// each with the range of the site's span in `source`.
pub open spec fn refs_after(
    old: Seq<SymbolReference>,
    new: Seq<SymbolReference>,
    sites: Seq<Site>,
    source: Seq<char>,
) -> bool {
    &&& new.len() == old.len() + sites.len()
    &&& new.subrange(0, old.len() as int) == old
    &&& forall|i: int|
        0 <= i < sites.len() ==> (#[trigger] new[old.len() + i]).symbol_name@ == sites[i].0
            && new[old.len() + i].symbol_kind == SymbolKind::Anchor && new[old.len()
            + i].reference_kind == sites[i].1 && spans(new[old.len() + i].range, source, sites[i].2, sites[i].3)
}

proof fn lemma_contains_concat(a: Seq<Seq<char>>, b: Seq<Seq<char>>, n: Seq<char>)
    ensures
        (a + b).contains(n) <==> (a.contains(n) || b.contains(n)),
{
    if a.contains(n) {
        let j = choose|j: int| 0 <= j < a.len() && a[j] == n;
        assert((a + b)[j] == n);
    }
    if b.contains(n) {
        let j = choose|j: int| 0 <= j < b.len() && b[j] == n;
        assert((a + b)[a.len() + j] == n);
    }
    if (a + b).contains(n) {
        let j = choose|j: int| 0 <= j < (a + b).len() && (a + b)[j] == n;
        if j < a.len() {
            assert(a[j] == n);
        } else {
            assert(b[j - a.len()] == n);
        }
    }
}

proof fn lemma_defined_trans(
    a: Seq<Symbol>,
    b: Seq<Symbol>,
    c: Seq<Symbol>,
    an1: Seq<Seq<char>>,
    ty1: Seq<Seq<char>>,
    an2: Seq<Seq<char>>,
    ty2: Seq<Seq<char>>,
)
    requires
        defined_after(a, b, an1, ty1),
        defined_after(b, c, an2, ty2),
    ensures
        defined_after(a, c, an1 + an2, ty1 + ty2),
{
    assert forall|n: Seq<char>, k: SymbolKind| #[trigger] is_defined(c, n, k) <==> (is_defined(a, n, k) || (k == SymbolKind::Anchor
        && (an1 + an2).contains(n)) || (k == SymbolKind::Type && (ty1 + ty2).contains(n))) by {
        lemma_contains_concat(an1, an2, n);
        lemma_contains_concat(ty1, ty2, n);
        assert(is_defined(b, n, k) <==> (is_defined(a, n, k) || (k == SymbolKind::Anchor
            && an1.contains(n)) || (k == SymbolKind::Type && ty1.contains(n))));
    }
}

proof fn lemma_defined_refl(a: Seq<Symbol>)
    ensures
        defined_after(a, a, Seq::empty(), Seq::empty()),
{
}

proof fn lemma_refs_trans(
    a: Seq<SymbolReference>,
    b: Seq<SymbolReference>,
    c: Seq<SymbolReference>,
    s1: Seq<Site>,
    s2: Seq<Site>,
    source: Seq<char>,
)
    requires
        refs_after(a, b, s1, source),
        refs_after(b, c, s2, source),
    ensures
        refs_after(a, c, s1 + s2, source),
{
    assert(c.subrange(0, a.len() as int) =~= b.subrange(0, a.len() as int));
    assert forall|i: int| 0 <= i < (s1 + s2).len() implies (#[trigger] c[a.len() + i]).symbol_name@
        == (s1 + s2)[i].0 && c[a.len() + i].symbol_kind == SymbolKind::Anchor && c[a.len()
        + i].reference_kind == (s1 + s2)[i].1 && spans(c[a.len() + i].range, source, (s1 + s2)[i].2, (s1 + s2)[i].3) by {
        if i < s1.len() {
            assert(c[a.len() + i] == c.subrange(0, b.len() as int)[a.len() + i]);
        } else {
            let j = i - s1.len();
            assert(c[b.len() + j] == c[a.len() + i]);
        }
    }
}

proof fn lemma_refs_refl(a: Seq<SymbolReference>, source: Seq<char>)
    ensures
        refs_after(a, a, Seq::empty(), source),
{
    assert(a.subrange(0, a.len() as int) =~= a);
}

/// Two building steps, one after the other, make one.
proof fn lemma_built_trans(
    a: SymbolTable,
    b: SymbolTable,
    c: SymbolTable,
    an1: Seq<Seq<char>>,
    ty1: Seq<Seq<char>>,
    s1: Seq<Site>,
    an2: Seq<Seq<char>>,
    ty2: Seq<Seq<char>>,
    s2: Seq<Site>,
    source: Seq<char>,
)
    requires
        defined_after(a.defs(), b.defs(), an1, ty1),
        refs_after(a.refs(), b.refs(), s1, source),
        defined_after(b.defs(), c.defs(), an2, ty2),
        refs_after(b.refs(), c.refs(), s2, source),
    ensures
        defined_after(a.defs(), c.defs(), an1 + an2, ty1 + ty2),
        refs_after(a.refs(), c.refs(), s1 + s2, source),
{
    lemma_defined_trans(a.defs(), b.defs(), c.defs(), an1, ty1, an2, ty2);
    lemma_refs_trans(a.refs(), b.refs(), c.refs(), s1, s2, source);
}

/// A definition: the name, the kind of symbol, and the byte span its range
/// is taken from.
pub type DefSite = (Seq<char>, SymbolKind, nat, nat);

/// The definitions at `v` and below, in pre-order: an anchor at the span of
/// its value, a type definition at the span of its object.
pub open spec fn def_sites(v: MonValue) -> Seq<DefSite>
    decreases v, 0nat,
{
    let own = if v.anchor is Some {
        seq![(v.anchor->Some_0@, SymbolKind::Anchor, v.pos_start as nat, v.pos_end as nat)]
    } else {
        Seq::empty()
    };
    own + match v.kind {
        MonValueKind::Object(ms) => def_sites_members(ms@, v.pos_start as nat, v.pos_end as nat),
        MonValueKind::Array(vs) => def_sites_items(vs@),
        _ => Seq::empty(),
    }
}

pub open spec fn def_sites_members(ms: Seq<Member>, start: nat, end: nat) -> Seq<DefSite>
    decreases ms, ms.len(),
{
    if ms.len() == 0 {
        Seq::empty()
    } else {
        def_sites_members(ms.drop_last(), start, end) + match ms.last() {
            Member::Pair(p) => def_sites(p.value),
            Member::TypeDefinition(t) => seq![(t.name@, SymbolKind::Type, start, end)],
            _ => Seq::empty(),
        }
    }
}

pub open spec fn def_sites_items(vs: Seq<MonValue>) -> Seq<DefSite>
    decreases vs, vs.len(),
{
    if vs.len() == 0 {
        Seq::empty()
    } else {
        def_sites_items(vs.drop_last()) + def_sites(vs.last())
    }
}

/// One definition per import statement, at the statement's span.
pub open spec fn import_sites(imps: Seq<ImportStatement>) -> Seq<DefSite> {
    imps.map_values(
        |i: ImportStatement| (i.path@, SymbolKind::Import, i.pos_start as nat, i.pos_end as nat),
    )
}

/// Every symbol of `new` is one of `old`, or has the name and kind of a
/// definition of `sites` and the range of its span in `source`.
pub open spec fn ranges_after(
    old: Seq<Symbol>,
    new: Seq<Symbol>,
    sites: Seq<DefSite>,
    source: Seq<char>,
) -> bool {
    forall|i: int|
        0 <= i < new.len() ==> old.contains(#[trigger] new[i]) || exists|k: int|
            0 <= k < sites.len() && sites[k].0 == new[i].name@ && sites[k].1 == new[i].kind
                && spans(new[i].range, source, sites[k].2, sites[k].3)
}

proof fn lemma_ranges_refl(a: Seq<Symbol>, source: Seq<char>)
    ensures
        ranges_after(a, a, Seq::empty(), source),
{
    assert forall|i: int| 0 <= i < a.len() implies a.contains(#[trigger] a[i]) by {}
}

proof fn lemma_ranges_trans(
    a: Seq<Symbol>,
    b: Seq<Symbol>,
    c: Seq<Symbol>,
    d1: Seq<DefSite>,
    d2: Seq<DefSite>,
    source: Seq<char>,
)
    requires
        ranges_after(a, b, d1, source),
        ranges_after(b, c, d2, source),
    ensures
        ranges_after(a, c, d1 + d2, source),
{
    let d = d1 + d2;
    assert forall|i: int| 0 <= i < c.len() implies a.contains(#[trigger] c[i]) || exists|k: int|
        0 <= k < d.len() && d[k].0 == c[i].name@ && d[k].1 == c[i].kind && spans(
            c[i].range,
            source,
            d[k].2,
            d[k].3,
        ) by {
        if b.contains(c[i]) {
            let j = choose|j: int| 0 <= j < b.len() && b[j] == c[i];
            if !a.contains(b[j]) {
                let k = choose|k: int|
                    0 <= k < d1.len() && d1[k].0 == b[j].name@ && d1[k].1 == b[j].kind && spans(
                        b[j].range,
                        source,
                        d1[k].2,
                        d1[k].3,
                    );
                assert(d[k] == d1[k]);
            }
        } else {
            let k = choose|k: int|
                0 <= k < d2.len() && d2[k].0 == c[i].name@ && d2[k].1 == c[i].kind && spans(
                    c[i].range,
                    source,
                    d2[k].2,
                    d2[k].3,
                );
            assert(d[d1.len() + k] == d2[k]);
        }
    }
}

/// Adding one symbol under `site` keeps the ranges accounted for.
proof fn lemma_ranges_add(old: Seq<Symbol>, new: Seq<Symbol>, symbol: Symbol, site: DefSite, source: Seq<char>)
    requires
        (exists|i: int| 0 <= i < old.len() && new == old.update(i, symbol)) || new == old.push(symbol),
        site.0 == symbol.name@,
        site.1 == symbol.kind,
        spans(symbol.range, source, site.2, site.3),
    ensures
        ranges_after(old, new, seq![site], source),
{
    assert forall|i: int| 0 <= i < new.len() implies old.contains(#[trigger] new[i]) || exists|k: int|
        0 <= k < seq![site].len() && seq![site][k].0 == new[i].name@ && seq![site][k].1 == new[i].kind
            && spans(new[i].range, source, seq![site][k].2, seq![site][k].3) by {
        if new[i] == symbol {
            assert(seq![site][0] == site);
        } else {
            if new == old.push(symbol) {
                assert(old[i] == new[i]);
            } else {
                let j = choose|j: int| 0 <= j < old.len() && new == old.update(j, symbol);
                assert(old[i] == new[i]);
            }
        }
    }
}

/// The names of the reference sites are the referenced names.
pub proof fn lemma_site_names(v: MonValue)
    ensures
        reference_sites(v).map_values(|x: Site| x.0) == references_in(v),
    decreases v, 0nat,
{
    match v.kind {
        MonValueKind::Object(ms) => lemma_site_names_members(ms@, v.pos_start as nat, v.pos_end as nat),
        MonValueKind::Array(vs) => lemma_site_names_items(vs@),
        _ => {
            assert(reference_sites(v).map_values(|x: Site| x.0) =~= references_in(v));
        },
    }
}

pub proof fn lemma_site_names_members(ms: Seq<Member>, start: nat, end: nat)
    ensures
        reference_sites_members(ms, start, end).map_values(|x: Site| x.0)
            == references_in_members(ms),
    decreases ms, ms.len(),
{
    if ms.len() > 0 {
        lemma_site_names_members(ms.drop_last(), start, end);
        match ms.last() {
            Member::Pair(p) => lemma_site_names(p.value),
            _ => {},
        }
        let f = |x: Site| x.0;
        let last_sites = match ms.last() {
            Member::Pair(p) => reference_sites(p.value),
            Member::Spread(n) => seq![(n@, ReferenceKind::Spread, start, end)],
            _ => Seq::empty(),
        };
        assert((reference_sites_members(ms.drop_last(), start, end) + last_sites).map_values(f)
            =~= reference_sites_members(ms.drop_last(), start, end).map_values(f) + last_sites.map_values(f));
        assert(reference_sites_members(ms, start, end).map_values(f) =~= references_in_members(ms));
    } else {
        assert(reference_sites_members(ms, start, end).map_values(|x: Site| x.0) =~= references_in_members(ms));
    }
}

pub proof fn lemma_site_names_items(vs: Seq<MonValue>)
    ensures
        reference_sites_items(vs).map_values(|x: Site| x.0)
            == references_in_items(vs),
    decreases vs, vs.len(),
{
    if vs.len() > 0 {
        lemma_site_names_items(vs.drop_last());
        lemma_site_names(vs.last());
        let f = |x: Site| x.0;
        assert((reference_sites_items(vs.drop_last()) + reference_sites(vs.last())).map_values(f)
            =~= reference_sites_items(vs.drop_last()).map_values(f) + reference_sites(vs.last()).map_values(f));
        assert(reference_sites_items(vs).map_values(f) =~= references_in_items(vs));
    } else {
        assert(reference_sites_items(vs).map_values(|x: Site| x.0) =~= references_in_items(vs));
    }
}

/// The paths of the import statements, in order.
pub open spec fn import_paths(imports: Seq<ImportStatement>) -> Seq<Seq<char>> {
    imports.map_values(|i: ImportStatement| i.path@)
}

/// The short hover text for an anchored value.
pub open spec fn preview(v: MonValue) -> Option<Seq<char>> {
    match v.kind {
        MonValueKind::Object(_) => Some("{ ... }"@),
        MonValueKind::Array(_) => Some("[ ... ]"@),
        MonValueKind::String(s) => Some("\""@ + s@ + "\""@),
        MonValueKind::Number(t) => Some(t@),
        MonValueKind::Boolean(b) => Some(if b { "true"@ } else { "false"@ }),
        MonValueKind::Null => Some("null"@),
        _ => None,
    }
}

/// The anchor symbols reported as unused: those never referenced, when
/// unused anchors are reported, and none otherwise.
pub open spec fn reported_unused(cfg: LintConfig, table: SymbolTable) -> Seq<Symbol> {
    if cfg.warn_unused_anchors {
        unused_of_kind(table.defs(), table.refs(), SymbolKind::Anchor)
    } else {
        Seq::empty()
    }
}

/// `new` is `old` followed by one unused-anchor diagnostic per symbol of
/// `syms`, each with the symbol's range and the `Unnecessary` tag.
pub open spec fn tagged_unused(old: Seq<Diagnostic>, new: Seq<Diagnostic>, syms: Seq<Symbol>) -> bool {
    &&& new.len() == old.len() + syms.len()
    &&& new.subrange(0, old.len() as int) == old
    &&& forall|i: int|
        0 <= i < syms.len() ==> {
            let d = #[trigger] new[old.len() + i];
            &&& d.wf()
            &&& d.finding() == (DiagnosticCode::UnusedAnchor, unused_anchor_message(syms[i].name@))
            &&& d.range == Some(syms[i].range)
            &&& d.tags@ == seq![DiagnosticTag::Unnecessary]
            &&& d.related_information@.len() == 0
            &&& d.location.is_none()
        }
}

/// Lints documents and builds their symbol tables.
pub struct AnalysisService {
    pub config: LintConfig,
}

/// Diagnostics, symbol table and source of one analysed document.
#[derive(Debug, Clone)]
pub struct AnalysisResult {
    pub diagnostics: Vec<Diagnostic>,
    pub symbol_table: SymbolTable,
    pub source: String,
}

impl AnalysisService {
    pub fn new(config: LintConfig) -> (r: Self)
        ensures
            r.config == config,
    {
        AnalysisService { config }
    }

    /// Lints `doc`, builds its symbol table (imports, anchors and types as
    /// definitions; aliases and spreads as anchor references, each with the
    /// range of its span in `source`), and reports unused anchors from the
    /// table, each with the symbol's range and the `Unnecessary` tag.
    pub fn analyze_document(&self, doc: &MonDocument, source: &str) -> (r: AnalysisResult)
        requires
            height(doc.root) < usize::MAX,
            fits_positions(source@),
        ensures
            r.symbol_table.wf(),
            forall|n: Seq<char>, k: SymbolKind|
                #[trigger] is_defined(r.symbol_table.defs(), n, k) <==> ((k == SymbolKind::Import
                    && import_paths(doc.imports@).contains(n)) || (k == SymbolKind::Anchor
                    && anchors_in(doc.root).contains(n)) || (k == SymbolKind::Type && types_in(
                    doc.root,
                ).contains(n))),
            refs_after(Seq::empty(), r.symbol_table.refs(), reference_sites(doc.root), source@),
            ranges_after(
                Seq::empty(),
                r.symbol_table.defs(),
                import_sites(doc.imports@) + def_sites(doc.root),
                source@,
            ),
            extends(
                Seq::empty(),
                r.diagnostics@.subrange(0, lint_findings(self.config, doc.root).len() as int),
                lint_findings(self.config, doc.root),
            ),
            tagged_unused(
                r.diagnostics@.subrange(0, lint_findings(self.config, doc.root).len() as int),
                r.diagnostics@,
                reported_unused(self.config, r.symbol_table),
            ),
            r.source@ == source@,
    {
        let linter = Linter::new(self.config);
        let mut lint_result = linter.lint(doc, source);
        let mut symbol_table = SymbolTable::new();
        self.build_symbol_table(doc, source, &mut symbol_table);
        let ghost before = lint_result.diagnostics@;
        self.detect_unused_symbols(&symbol_table, source, &mut lint_result);
        proof {
            assert(lint_result.diagnostics@.subrange(0, before.len() as int) == before);
        }
        AnalysisResult {
            diagnostics: lint_result.diagnostics,
            symbol_table,
            source: source.to_owned(),
        }
    }

    /// Adds one import symbol per import statement, then the symbols and
    /// references of the root value.
    fn build_symbol_table(&self, doc: &MonDocument, source: &str, table: &mut SymbolTable)
        requires
            old(table).wf(),
            old(table).defs().len() == 0,
            old(table).refs().len() == 0,
            fits_positions(source@),
        ensures
            final(table).wf(),
            forall|n: Seq<char>, k: SymbolKind|
                #[trigger] is_defined(final(table).defs(), n, k) <==> ((k == SymbolKind::Import
                    && import_paths(doc.imports@).contains(n)) || (k == SymbolKind::Anchor
                    && anchors_in(doc.root).contains(n)) || (k == SymbolKind::Type && types_in(
                    doc.root,
                ).contains(n))),
            refs_after(Seq::empty(), final(table).refs(), reference_sites(doc.root), source@),
            ranges_after(
                Seq::empty(),
                final(table).defs(),
                import_sites(doc.imports@) + def_sites(doc.root),
                source@,
            ),
    {
        let mut i: usize = 0;
        proof {
            assert(import_sites(doc.imports@).subrange(0, 0) =~= Seq::<DefSite>::empty());
            assert(table.defs() =~= Seq::<Symbol>::empty());
        }
        while i < doc.imports.len()
            invariant
                table.wf(),
                fits_positions(source@),
                i <= doc.imports@.len(),
                table.refs().len() == 0,
                forall|n: Seq<char>, k: SymbolKind|
                    #[trigger] is_defined(table.defs(), n, k) <==> (k == SymbolKind::Import
                        && import_paths(doc.imports@).subrange(0, i as int).contains(n)),
                ranges_after(
                    Seq::empty(),
                    table.defs(),
                    import_sites(doc.imports@).subrange(0, i as int),
                    source@,
                ),
            decreases doc.imports.len() - i,
        {
            let import = &doc.imports[i];
            let mut detail = String::from_str("import from ");
            detail.append(import.path.as_str());
            let ghost before = table.defs();
            let range = Range::from_byte_offsets(source, import.pos_start, import.pos_end);
            let symbol = Symbol {
                name: import.path.clone(),
                kind: SymbolKind::Import,
                range,
                detail: Some(detail),
                documentation: None,
            };
            let ghost added = symbol;
            table.add_symbol(symbol);
            proof {
                let site = (import.path@, SymbolKind::Import, import.pos_start as nat, import.pos_end as nat);
                let isites = import_sites(doc.imports@);
                lemma_ranges_add(before, table.defs(), added, site, source@);
                lemma_ranges_trans(Seq::empty(), before, table.defs(), isites.subrange(0, i as int), seq![site], source@);
                assert(isites[i as int] == site);
                assert(isites.subrange(0, i + 1) =~= isites.subrange(0, i as int) + seq![site]);
                let ps = import_paths(doc.imports@);
                assert(ps.subrange(0, i + 1) =~= ps.subrange(0, i as int).push(import.path@));
                assert forall|n: Seq<char>, k: SymbolKind|
                    #[trigger] is_defined(table.defs(), n, k) <==> (k == SymbolKind::Import
                        && ps.subrange(0, i + 1).contains(n)) by {
                    lemma_contains_concat(ps.subrange(0, i as int), seq![import.path@], n);
                    assert(ps.subrange(0, i as int).push(import.path@) =~= ps.subrange(0, i as int) + seq![import.path@]);
                    assert(seq![import.path@].contains(n) <==> n == import.path@) by {
                        if n == import.path@ { assert(seq![import.path@][0] == n); }
                    }
                    assert(is_defined(before, n, k) <==> (k == SymbolKind::Import && ps.subrange(0, i as int).contains(n)));
                }
            }
            i = i + 1;
        }
        let ghost start = *table;
        self.build_symbols_from_value(&doc.root, source, table);
        proof {
            let isites = import_sites(doc.imports@);
            assert(isites.subrange(0, doc.imports@.len() as int) =~= isites);
            lemma_ranges_trans(Seq::empty(), start.defs(), table.defs(), isites, def_sites(doc.root), source@);
            let ps = import_paths(doc.imports@);
            assert(ps.subrange(0, doc.imports@.len() as int) =~= ps);
            assert(start.refs() =~= Seq::<SymbolReference>::empty());
            assert forall|n: Seq<char>, k: SymbolKind|
                #[trigger] is_defined(table.defs(), n, k) <==> ((k == SymbolKind::Import
                    && ps.contains(n)) || (k == SymbolKind::Anchor
                    && anchors_in(doc.root).contains(n)) || (k == SymbolKind::Type && types_in(
                    doc.root,
                ).contains(n))) by {
                assert(is_defined(start.defs(), n, k) <==> (k == SymbolKind::Import && ps.contains(n)));
            }
        }
    }

    /// Adds the definitions and references found at `value` and below.
    fn build_symbols_from_value(&self, value: &MonValue, source: &str, table: &mut SymbolTable)
        requires
            old(table).wf(),
            fits_positions(source@),
        ensures
            final(table).wf(),
            defined_after(old(table).defs(), final(table).defs(), anchors_in(*value), types_in(*value)),
            refs_after(old(table).refs(), final(table).refs(), reference_sites(*value), source@),
            ranges_after(old(table).defs(), final(table).defs(), def_sites(*value), source@),
        decreases value,
    {
        let ghost t0 = *table;
        match &value.anchor {
            Some(anchor_name) => {
                let range = Range::from_byte_offsets(source, value.pos_start, value.pos_end);
                let symbol = Symbol {
                    name: anchor_name.clone(),
                    kind: SymbolKind::Anchor,
                    range,
                    detail: self.get_value_preview(value),
                    documentation: None,
                };
                let ghost added = symbol;
                table.add_symbol(symbol);
                proof {
                    assert forall|n: Seq<char>, k: SymbolKind| #[trigger] is_defined(table.defs(), n, k) <==> (is_defined(t0.defs(), n, k) || (k == SymbolKind::Anchor
                        && seq![anchor_name@].contains(n)) || (k == SymbolKind::Type && Seq::<Seq<char>>::empty().contains(n))) by {
                        if n == anchor_name@ { assert(seq![anchor_name@][0] == n); }
                    }
                    lemma_refs_refl(t0.refs(), source@);
                    lemma_ranges_add(t0.defs(), table.defs(), added, (anchor_name@, SymbolKind::Anchor, value.pos_start as nat, value.pos_end as nat), source@);
                }
            },
            None => {
                proof {
                    lemma_defined_refl(t0.defs());
                    lemma_refs_refl(t0.refs(), source@);
                    lemma_ranges_refl(t0.defs(), source@);
                }
            },
        }
        let ghost own_def = if value.anchor is Some {
            seq![(value.anchor->Some_0@, SymbolKind::Anchor, value.pos_start as nat, value.pos_end as nat)]
        } else {
            Seq::<DefSite>::empty()
        };
        let ghost own_anchor = if value.anchor is Some {
            seq![value.anchor->Some_0@]
        } else {
            Seq::<Seq<char>>::empty()
        };
        let ghost t1 = *table;
        match &value.kind {
            MonValueKind::Alias(name) => {
                table.add_reference(
                    SymbolReference {
                        symbol_name: name.clone(),
                        symbol_kind: SymbolKind::Anchor,
                        range: Range::from_byte_offsets(source, value.pos_start, value.pos_end),
                        reference_kind: ReferenceKind::Alias,
                    },
                );
                proof {
                    lemma_defined_refl(t1.defs());
                    lemma_ranges_refl(t1.defs(), source@);
                    lemma_ranges_trans(t0.defs(), t1.defs(), table.defs(), own_def, Seq::empty(), source@);
                    assert(own_def + Seq::<DefSite>::empty() =~= def_sites(*value));
                    assert(table.refs().subrange(0, t1.refs().len() as int) =~= t1.refs());
                    assert(table.refs()[t1.refs().len() + 0int] == table.refs().last());
                    lemma_built_trans(t0, t1, *table, own_anchor, Seq::empty(), Seq::empty(), Seq::empty(), Seq::empty(), reference_sites(*value), source@);
                    assert(own_anchor + Seq::<Seq<char>>::empty() =~= anchors_in(*value));
                    assert(Seq::<Seq<char>>::empty() + Seq::<Seq<char>>::empty() =~= types_in(*value));
                    assert(Seq::<Site>::empty() + reference_sites(*value) =~= reference_sites(*value));
                }
            },
            MonValueKind::ArraySpread(name) => {
                table.add_reference(
                    SymbolReference {
                        symbol_name: name.clone(),
                        symbol_kind: SymbolKind::Anchor,
                        range: Range::from_byte_offsets(source, value.pos_start, value.pos_end),
                        reference_kind: ReferenceKind::Spread,
                    },
                );
                proof {
                    lemma_defined_refl(t1.defs());
                    lemma_ranges_refl(t1.defs(), source@);
                    lemma_ranges_trans(t0.defs(), t1.defs(), table.defs(), own_def, Seq::empty(), source@);
                    assert(own_def + Seq::<DefSite>::empty() =~= def_sites(*value));
                    assert(table.refs().subrange(0, t1.refs().len() as int) =~= t1.refs());
                    assert(table.refs()[t1.refs().len() + 0int] == table.refs().last());
                    lemma_built_trans(t0, t1, *table, own_anchor, Seq::empty(), Seq::empty(), Seq::empty(), Seq::empty(), reference_sites(*value), source@);
                    assert(own_anchor + Seq::<Seq<char>>::empty() =~= anchors_in(*value));
                    assert(Seq::<Seq<char>>::empty() + Seq::<Seq<char>>::empty() =~= types_in(*value));
                    assert(Seq::<Site>::empty() + reference_sites(*value) =~= reference_sites(*value));
                }
            },
            MonValueKind::Object(members) => {
                proof {
                    lemma_defined_refl(t1.defs());
                    lemma_refs_refl(t1.refs(), source@);
                    lemma_ranges_refl(t1.defs(), source@);
                    assert(def_sites_members(members@.subrange(0, 0), value.pos_start as nat, value.pos_end as nat) =~= Seq::<DefSite>::empty());
                    assert(anchors_in_members(members@.subrange(0, 0)) =~= Seq::<Seq<char>>::empty());
                    assert(types_in_members(members@.subrange(0, 0)) =~= Seq::<Seq<char>>::empty());
                    assert(reference_sites_members(members@.subrange(0, 0), value.pos_start as nat, value.pos_end as nat) =~= Seq::<Site>::empty());
                }
                let mut i: usize = 0;
                while i < members.len()
                    invariant
                        value.kind == MonValueKind::Object(*members),
                        table.wf(),
                        fits_positions(source@),
                        i <= members@.len(),
                        defined_after(t1.defs(), table.defs(), anchors_in_members(members@.subrange(0, i as int)), types_in_members(members@.subrange(0, i as int))),
                        refs_after(t1.refs(), table.refs(), reference_sites_members(members@.subrange(0, i as int), value.pos_start as nat, value.pos_end as nat), source@),
                        ranges_after(t1.defs(), table.defs(), def_sites_members(members@.subrange(0, i as int), value.pos_start as nat, value.pos_end as nat), source@),
                    decreases members.len() - i,
                {
                    let ghost sub = members@.subrange(0, i + 1);
                    proof {
                        assert(sub.drop_last() =~= members@.subrange(0, i as int));
                        lemma_object_child(*value, i as int);
                    }
                    let ghost tb = *table;
                    match &members[i] {
                        Member::TypeDefinition(typedef) => {
                            let detail = match &typedef.def_type {
                                TypeDef::Struct(_) => String::from_str("#struct"),
                                TypeDef::Enum(_) => String::from_str("#enum"),
                            };
                            let range = Range::from_byte_offsets(source, value.pos_start, value.pos_end);
                            let symbol = Symbol {
                                name: typedef.name.clone(),
                                kind: SymbolKind::Type,
                                range,
                                detail: Some(detail),
                                documentation: None,
                            };
                            let ghost added = symbol;
                            table.add_symbol(symbol);
                            proof {
                                lemma_ranges_add(tb.defs(), table.defs(), added, (typedef.name@, SymbolKind::Type, value.pos_start as nat, value.pos_end as nat), source@);
                                lemma_ranges_trans(t1.defs(), tb.defs(), table.defs(), def_sites_members(sub.drop_last(), value.pos_start as nat, value.pos_end as nat), seq![(typedef.name@, SymbolKind::Type, value.pos_start as nat, value.pos_end as nat)], source@);
                                assert forall|n: Seq<char>, k: SymbolKind| #[trigger] is_defined(table.defs(), n, k) <==> (is_defined(tb.defs(), n, k) || (k == SymbolKind::Anchor
                                    && Seq::<Seq<char>>::empty().contains(n)) || (k == SymbolKind::Type && seq![typedef.name@].contains(n))) by {
                                    if n == typedef.name@ { assert(seq![typedef.name@][0] == n); }
                                }
                                lemma_refs_refl(tb.refs(), source@);
                                lemma_built_trans(t1, tb, *table,
                                    anchors_in_members(sub.drop_last()), types_in_members(sub.drop_last()), reference_sites_members(sub.drop_last(), value.pos_start as nat, value.pos_end as nat),
                                    Seq::empty(), seq![typedef.name@], Seq::empty(), source@);
                                assert(anchors_in_members(sub) =~= anchors_in_members(sub.drop_last()) + Seq::<Seq<char>>::empty());
                                assert(reference_sites_members(sub, value.pos_start as nat, value.pos_end as nat) =~= reference_sites_members(sub.drop_last(), value.pos_start as nat, value.pos_end as nat) + Seq::<Site>::empty());
                            }
                        },
                        Member::Pair(pair) => {
                            self.build_symbols_from_value(&pair.value, source, table);
                            proof {
                                lemma_ranges_trans(t1.defs(), tb.defs(), table.defs(), def_sites_members(sub.drop_last(), value.pos_start as nat, value.pos_end as nat), def_sites(pair.value), source@);
                                lemma_built_trans(t1, tb, *table,
                                    anchors_in_members(sub.drop_last()), types_in_members(sub.drop_last()), reference_sites_members(sub.drop_last(), value.pos_start as nat, value.pos_end as nat),
                                    anchors_in(pair.value), types_in(pair.value), reference_sites(pair.value), source@);
                            }
                        },
                        Member::Spread(name) => {
                            table.add_reference(
                                SymbolReference {
                                    symbol_name: name.clone(),
                                    symbol_kind: SymbolKind::Anchor,
                                    range: Range::from_byte_offsets(source, value.pos_start, value.pos_end),
                                    reference_kind: ReferenceKind::Spread,
                                },
                            );
                            proof {
                                lemma_defined_refl(tb.defs());
                                lemma_ranges_refl(tb.defs(), source@);
                                lemma_ranges_trans(t1.defs(), tb.defs(), table.defs(), def_sites_members(sub.drop_last(), value.pos_start as nat, value.pos_end as nat), Seq::empty(), source@);
                                assert(def_sites_members(sub, value.pos_start as nat, value.pos_end as nat) =~= def_sites_members(sub.drop_last(), value.pos_start as nat, value.pos_end as nat) + Seq::<DefSite>::empty());
                                assert(table.refs().subrange(0, tb.refs().len() as int) =~= tb.refs());
                                assert(table.refs()[tb.refs().len() + 0int] == table.refs().last());
                                assert(refs_after(tb.refs(), table.refs(), seq![(name@, ReferenceKind::Spread, value.pos_start as nat, value.pos_end as nat)], source@));
                                lemma_built_trans(t1, tb, *table,
                                    anchors_in_members(sub.drop_last()), types_in_members(sub.drop_last()), reference_sites_members(sub.drop_last(), value.pos_start as nat, value.pos_end as nat),
                                    Seq::empty(), Seq::empty(), seq![(name@, ReferenceKind::Spread, value.pos_start as nat, value.pos_end as nat)], source@);
                                assert(anchors_in_members(sub) =~= anchors_in_members(sub.drop_last()) + Seq::<Seq<char>>::empty());
                                assert(types_in_members(sub) =~= types_in_members(sub.drop_last()) + Seq::<Seq<char>>::empty());
                            }
                        },
                        Member::Import(_) => {
                            proof {
                                assert(anchors_in_members(sub) =~= anchors_in_members(sub.drop_last()));
                                assert(def_sites_members(sub, value.pos_start as nat, value.pos_end as nat) =~= def_sites_members(sub.drop_last(), value.pos_start as nat, value.pos_end as nat));
                                assert(types_in_members(sub) =~= types_in_members(sub.drop_last()));
                                assert(reference_sites_members(sub, value.pos_start as nat, value.pos_end as nat) =~= reference_sites_members(sub.drop_last(), value.pos_start as nat, value.pos_end as nat));
                            }
                        },
                    }
                    i = i + 1;
                }
                proof {
                    assert(members@.subrange(0, members@.len() as int) =~= members@);
                    lemma_ranges_trans(t0.defs(), t1.defs(), table.defs(), own_def, def_sites_members(members@, value.pos_start as nat, value.pos_end as nat), source@);
                    lemma_built_trans(t0, t1, *table, own_anchor, Seq::empty(), Seq::empty(),
                        anchors_in_members(members@), types_in_members(members@), reference_sites_members(members@, value.pos_start as nat, value.pos_end as nat), source@);
                    assert(Seq::<Seq<char>>::empty() + types_in_members(members@) =~= types_in(*value));
                    assert(Seq::<Site>::empty() + reference_sites_members(members@, value.pos_start as nat, value.pos_end as nat) =~= reference_sites(*value));
                }
            },
            MonValueKind::Array(items) => {
                proof {
                    lemma_defined_refl(t1.defs());
                    lemma_refs_refl(t1.refs(), source@);
                    lemma_ranges_refl(t1.defs(), source@);
                    assert(def_sites_items(items@.subrange(0, 0)) =~= Seq::<DefSite>::empty());
                    assert(anchors_in_items(items@.subrange(0, 0)) =~= Seq::<Seq<char>>::empty());
                    assert(types_in_items(items@.subrange(0, 0)) =~= Seq::<Seq<char>>::empty());
                    assert(reference_sites_items(items@.subrange(0, 0)) =~= Seq::<Site>::empty());
                }
                let mut i: usize = 0;
                while i < items.len()
                    invariant
                        value.kind == MonValueKind::Array(*items),
                        table.wf(),
                        fits_positions(source@),
                        i <= items@.len(),
                        defined_after(t1.defs(), table.defs(), anchors_in_items(items@.subrange(0, i as int)), types_in_items(items@.subrange(0, i as int))),
                        refs_after(t1.refs(), table.refs(), reference_sites_items(items@.subrange(0, i as int)), source@),
                        ranges_after(t1.defs(), table.defs(), def_sites_items(items@.subrange(0, i as int)), source@),
                    decreases items.len() - i,
                {
                    let ghost sub = items@.subrange(0, i + 1);
                    proof {
                        assert(sub.drop_last() =~= items@.subrange(0, i as int));
                        lemma_array_child(*value, i as int);
                    }
                    let ghost tb = *table;
                    self.build_symbols_from_value(&items[i], source, table);
                    proof {
                        lemma_ranges_trans(t1.defs(), tb.defs(), table.defs(), def_sites_items(sub.drop_last()), def_sites(items@[i as int]), source@);
                        lemma_built_trans(t1, tb, *table,
                            anchors_in_items(sub.drop_last()), types_in_items(sub.drop_last()), reference_sites_items(sub.drop_last()),
                            anchors_in(items@[i as int]), types_in(items@[i as int]), reference_sites(items@[i as int]), source@);
                    }
                    i = i + 1;
                }
                proof {
                    assert(items@.subrange(0, items@.len() as int) =~= items@);
                    lemma_ranges_trans(t0.defs(), t1.defs(), table.defs(), own_def, def_sites_items(items@), source@);
                    lemma_built_trans(t0, t1, *table, own_anchor, Seq::empty(), Seq::empty(),
                        anchors_in_items(items@), types_in_items(items@), reference_sites_items(items@), source@);
                    assert(Seq::<Seq<char>>::empty() + types_in_items(items@) =~= types_in(*value));
                    assert(Seq::<Site>::empty() + reference_sites_items(items@) =~= reference_sites(*value));
                }
            },
            _ => {
                proof {
                    lemma_defined_refl(t1.defs());
                    lemma_refs_refl(t1.refs(), source@);
                    lemma_ranges_refl(t1.defs(), source@);
                    lemma_ranges_trans(t0.defs(), t1.defs(), table.defs(), own_def, Seq::empty(), source@);
                    assert(own_def + Seq::<DefSite>::empty() =~= def_sites(*value));
                    lemma_built_trans(t0, t1, *table, own_anchor, Seq::empty(), Seq::empty(), Seq::empty(), Seq::empty(), Seq::empty(), source@);
                    assert(own_anchor + Seq::<Seq<char>>::empty() =~= anchors_in(*value));
                    assert(Seq::<Seq<char>>::empty() + Seq::<Seq<char>>::empty() =~= types_in(*value));
                    assert(Seq::<Site>::empty() + Seq::<Site>::empty() =~= reference_sites(*value));
                }
            },
        }
    }

    /// The short hover text for an anchored value.
    fn get_value_preview(&self, value: &MonValue) -> (r: Option<String>)
        ensures
            r.is_some() == preview(*value).is_some(),
            r.is_some() ==> r.unwrap()@ == preview(*value).unwrap(),
    {
        match &value.kind {
            MonValueKind::Object(_) => Some(String::from_str("{ ... }")),
            MonValueKind::Array(_) => Some(String::from_str("[ ... ]")),
            MonValueKind::String(s) => {
                let mut r = String::from_str("\"");
                r.append(s.as_str());
                r.append("\"");
                Some(r)
            },
            MonValueKind::Number(t) => Some(t.clone()),
            MonValueKind::Boolean(b) => if *b {
                Some(String::from_str("true"))
            } else {
                Some(String::from_str("false"))
            },
            MonValueKind::Null => Some(String::from_str("null")),
            _ => None,
        }
    }

    /// When unused anchors are reported, adds one diagnostic per unused anchor
    /// symbol, with its range and the `Unnecessary` tag.
    fn detect_unused_symbols(&self, table: &SymbolTable, source: &str, result: &mut LintResult)
        ensures
            tagged_unused(
                old(result).diagnostics@,
                final(result).diagnostics@,
                reported_unused(self.config, *table),
            ),
    {
        let ghost start = result.diagnostics@;
        if self.config.warn_unused_anchors {
            let unused = table.find_unused_symbols(SymbolKind::Anchor);
            let ghost u = unused_of_kind(table.defs(), table.refs(), SymbolKind::Anchor);
            proof {
                assert(start.subrange(0, start.len() as int) =~= start);
            }
            let mut i: usize = 0;
            while i < unused.len()
                invariant
                    i <= unused@.len(),
                    unused@.len() == u.len(),
                    forall|j: int| 0 <= j < unused@.len() ==> *unused@[j] == u[j],
                    tagged_unused(start, result.diagnostics@, u.subrange(0, i as int)),
                decreases unused.len() - i,
            {
                let symbol = unused[i];
                let mut m = String::from_str("Anchor '");
                m.append(symbol.name.as_str());
                m.append("' is defined but never used");
                let ghost before = result.diagnostics@;
                let mut tags: Vec<DiagnosticTag> = Vec::new();
                tags.push(DiagnosticTag::Unnecessary);
                result.add_diagnostic_with_range(
                    DiagnosticCode::UnusedAnchor,
                    m,
                    Some(symbol.range),
                    Vec::new(),
                    tags,
                );
                proof {
                    let after = result.diagnostics@;
                    let us = u.subrange(0, i + 1);
                    assert(after.subrange(0, before.len() as int) == before);
                    assert(after.subrange(0, start.len() as int) =~= start) by {
                        assert(before.subrange(0, start.len() as int) == start);
                    }
                    assert(tags@ =~= seq![DiagnosticTag::Unnecessary]);
                    assert forall|k: int| 0 <= k < us.len() implies {
                        let d = #[trigger] after[start.len() + k];
                        &&& d.wf()
                        &&& d.finding() == (DiagnosticCode::UnusedAnchor, unused_anchor_message(us[k].name@))
                        &&& d.range == Some(us[k].range)
                        &&& d.tags@ == seq![DiagnosticTag::Unnecessary]
                        &&& d.related_information@.len() == 0
                        &&& d.location.is_none()
                    } by {
                        if k < i {
                            assert(after[start.len() + k] == before[start.len() + k]);
                            assert(us[k] == u.subrange(0, i as int)[k]);
                        } else {
                            assert(after[start.len() + k] == after[before.len() + 0int]);
                        }
                    }
                }
                i = i + 1;
            }
            proof {
                assert(u.subrange(0, u.len() as int) =~= u);
            }
        } else {
            proof {
                assert(start.subrange(0, start.len() as int) =~= start);
            }
        }
    }
}

impl AnalysisResult {
    /// Whether any diagnostic is an error.
    pub fn has_errors(&self) -> (r: bool)
        ensures
            r == exists|i: int|
                0 <= i < self.diagnostics@.len() && (#[trigger] self.diagnostics@[i]).severity
                    == DiagnosticSeverity::Error,
    {
        let mut i: usize = 0;
        while i < self.diagnostics.len()
            invariant
                i <= self.diagnostics@.len(),
                forall|j: int| 0 <= j < i ==> (#[trigger] self.diagnostics@[j]).severity != DiagnosticSeverity::Error,
            decreases self.diagnostics.len() - i,
        {
            if self.diagnostics[i].severity == DiagnosticSeverity::Error {
                return true;
            }
            i = i + 1;
        }
        false
    }

    /// The error diagnostics, in order.
    pub fn errors(&self) -> (r: Vec<&Diagnostic>)
        ensures
            r@.len() == with_severity(self.diagnostics@, DiagnosticSeverity::Error).len(),
            forall|i: int|
                0 <= i < r@.len() ==> *r@[i] == with_severity(
                    self.diagnostics@,
                    DiagnosticSeverity::Error,
                )[i],
    {
        crate::linter::select_severity(&self.diagnostics, DiagnosticSeverity::Error)
    }

    /// The warning diagnostics, in order.
    pub fn warnings(&self) -> (r: Vec<&Diagnostic>)
        ensures
            r@.len() == with_severity(self.diagnostics@, DiagnosticSeverity::Warning).len(),
            forall|i: int|
                0 <= i < r@.len() ==> *r@[i] == with_severity(
                    self.diagnostics@,
                    DiagnosticSeverity::Warning,
                )[i],
    {
        crate::linter::select_severity(&self.diagnostics, DiagnosticSeverity::Warning)
    }
}

/// An anchor defined in a document is among the symbol table's unused
/// anchors exactly when no alias, array spread or object spread anywhere in
/// the document refers to it. `table` is any table whose anchor references
/// are those of the document and in which the anchor is defined, as
/// [`AnalysisService::analyze_document`] builds it.
pub proof fn lemma_unused_anchor_iff(
    table: SymbolTable,
    root: MonValue,
    source: Seq<char>,
    a: Seq<char>,
)
    requires
        is_defined(table.defs(), a, SymbolKind::Anchor),
        refs_after(Seq::empty(), table.refs(), reference_sites(root), source),
    ensures
        unused_of_kind(table.defs(), table.refs(), SymbolKind::Anchor).map_values(
            |s: Symbol| s.name@,
        ).contains(a) <==> !references_in(root).contains(a),
{
    let refs = table.refs();
    let sites = reference_sites(root);
    let defs = table.defs();
    let p = refers_to(a, SymbolKind::Anchor);
    let q = unreferenced_of(refs, SymbolKind::Anchor);
    let names = |s: Symbol| s.name@;
    lemma_site_names(root);
    let unreferenced = references_to(refs, a, SymbolKind::Anchor).len() == 0;
    assert(unreferenced <==> !references_in(root).contains(a)) by {
        if references_in(root).contains(a) {
            let i = choose|i: int|
                0 <= i < references_in(root).len() && references_in(root)[i] == a;
            assert(sites.map_values(|x: Site| x.0)[i] == a);
            assert(refs[0 + i].symbol_name@ == a);
            refs.lemma_filter_contains(p, i);
        }
        if !unreferenced {
            let f = refs.filter(p);
            assert(f.len() > 0);
            refs.lemma_filter_pred(p, 0);
            assert(f.contains(f[0]));
            refs.lemma_filter_contains_rev(p, f[0]);
            assert(refs.contains(f[0]));
            let i = choose|i: int| 0 <= i < refs.len() && refs[i] == f[0];
            assert(refs[0 + i].symbol_name@ == sites[i].0);
            assert(sites.map_values(|x: Site| x.0)[i] == a);
        }
    }
    let u = defs.filter(q);
    if unreferenced {
        let i = choose|i: int| 0 <= i < defs.len() && has_key(#[trigger] defs[i], a, SymbolKind::Anchor);
        defs.lemma_filter_contains(q, i);
        let j = choose|j: int| 0 <= j < u.len() && u[j] == defs[i];
        assert(u.map_values(names)[j] == a);
    }
    if u.map_values(names).contains(a) {
        let j = choose|j: int| 0 <= j < u.len() && u.map_values(names)[j] == a;
        defs.lemma_filter_pred(q, j);
    }
}

} // verus!
