use mon::ast::{
    EnumDef, FieldDef, ImportSpec, ImportSpecifier, ImportStatement, Member, MonDocument, MonValue,
    MonValueKind, Pair, StructDef, TypeDef, TypeDefinition, TypeSpec,
};
use mon::formatter::config::FormatConfig;
use mon::formatter::format::Formatter;
use mon::linter::api::AnalysisService;
use mon::linter::complexity::ComplexityAnalyzer;
use mon::linter::diagnostic::{DiagnosticCode, DiagnosticSeverity};
use mon::linter::symbol_table::SymbolKind;
use mon::linter::{LintConfig, LintResult, Linter};
use mon_core::ast::Member as M;
use mon_core::ast::MonValueKind as K;
use mon_core::ast::TypeSpec as T;

fn convert_value(v: &mon_core::ast::MonValue) -> MonValue {
    let kind = match &v.kind {
        K::String(s) => MonValueKind::String(s.clone()),
        K::Number(n) => MonValueKind::Number(format!("{}", n)),
        K::Boolean(b) => MonValueKind::Boolean(*b),
        K::Null => MonValueKind::Null,
        K::Object(ms) => MonValueKind::Object(ms.iter().map(convert_member).collect()),
        K::Array(items) => MonValueKind::Array(items.iter().map(convert_value).collect()),
        K::Alias(n) => MonValueKind::Alias(n.clone()),
        K::EnumValue { enum_name, variant_name } => MonValueKind::EnumValue {
            enum_name: enum_name.clone(),
            variant_name: variant_name.clone(),
        },
        K::ArraySpread(n) => MonValueKind::ArraySpread(n.clone()),
    };
    MonValue { kind, anchor: v.anchor.clone(), pos_start: v.pos_start, pos_end: v.pos_end }
}

fn convert_type_spec(t: &mon_core::ast::TypeSpec) -> TypeSpec {
    match t {
        T::Simple(n, _) => TypeSpec::Simple(n.clone()),
        T::Collection(ts, _) => TypeSpec::Collection(ts.iter().map(convert_type_spec).collect()),
        T::Spread(inner, _) => TypeSpec::Spread(Box::new(convert_type_spec(inner))),
    }
}

fn convert_import(i: &mon_core::ast::ImportStatement) -> ImportStatement {
    let spec = match &i.spec {
        mon_core::ast::ImportSpec::Namespace(ns) => ImportSpec::Namespace(ns.clone()),
        mon_core::ast::ImportSpec::Named(items) => ImportSpec::Named(
            items
                .iter()
                .map(|it| ImportSpecifier { name: it.name.clone(), is_anchor: it.is_anchor })
                .collect(),
        ),
    };
    ImportStatement { path: i.path.clone(), spec, pos_start: i.pos_start, pos_end: i.pos_end }
}

fn convert_member(m: &mon_core::ast::Member) -> Member {
    match m {
        M::Pair(p) => Member::Pair(Pair { key: p.key.clone(), value: convert_value(&p.value) }),
        M::Spread(n) => Member::Spread(n.clone()),
        M::Import(i) => Member::Import(convert_import(i)),
        M::TypeDefinition(t) => {
            let def_type = match &t.def_type {
                mon_core::ast::TypeDef::Struct(s) => TypeDef::Struct(StructDef {
                    fields: s
                        .fields
                        .iter()
                        .map(|f| FieldDef {
                            name: f.name.clone(),
                            type_spec: convert_type_spec(&f.type_spec),
                            default_value: f.default_value.as_ref().map(convert_value),
                        })
                        .collect(),
                }),
                mon_core::ast::TypeDef::Enum(e) => {
                    TypeDef::Enum(EnumDef { variants: e.variants.clone() })
                }
            };
            Member::TypeDefinition(TypeDefinition {
                name: t.name.clone(),
                def_type,
                pos_start: t.pos_start,
                pos_end: t.pos_end,
            })
        }
    }
}

fn parse(source: &str) -> MonDocument {
    let mut parser = mon_core::parser::Parser::new(source).unwrap();
    let doc = parser.parse_document().unwrap();
    MonDocument {
        root: convert_value(&doc.root),
        imports: doc.imports.iter().map(convert_import).collect(),
    }
}

fn lint_source(source: &str, config: LintConfig) -> LintResult {
    let doc = parse(source);
    Linter::new(config).lint(&doc, source)
}

fn count_by_code(result: &LintResult, code: DiagnosticCode) -> usize {
    result.diagnostics.iter().filter(|d| d.code == code).count()
}

fn number(text: &str) -> MonValue {
    MonValue { kind: MonValueKind::Number(text.to_string()), anchor: None, pos_start: 0, pos_end: 0 }
}

fn doc_of(root: MonValue) -> MonDocument {
    MonDocument { root, imports: vec![] }
}

#[test]
fn test_nesting_depth() {
    let source = r#"{
            a: {
                b: {
                    c: {
                        d: {
                            e: "deep"
                        }
                    }
                }
            }
        }"#;
    let doc = parse(source);
    let config = LintConfig { max_nesting_depth: 3, ..Default::default() };
    let analyzer = ComplexityAnalyzer::new(config);
    let mut result = LintResult::new();
    analyzer.analyze(&doc.root, &mut result);
    assert!(!result.warnings().is_empty() || !result.errors().is_empty());
}

#[test]
fn test_large_object() {
    let mut source = String::from("{\n");
    for i in 0..25 {
        source.push_str(&format!("    key{}: {},\n", i, i));
    }
    source.push_str("}");
    let doc = parse(&source);
    let config = LintConfig { max_object_members: 20, ..Default::default() };
    let analyzer = ComplexityAnalyzer::new(config);
    let mut result = LintResult::new();
    analyzer.analyze(&doc.root, &mut result);
    assert!(!result.warnings().is_empty());
}

#[test]
fn test_linter_deep_nesting() {
    let source = r#"{
        a: {
            b: {
                c: {
                    d: {
                        e: {
                            value: "deep"
                        }
                    }
                }
            }
        }
    }"#;
    let config = LintConfig { max_nesting_depth: 3, ..Default::default() };
    let result = lint_source(source, config);
    assert!(result.has_issues(), "Should detect nesting issue");
    assert_eq!(
        count_by_code(&result, DiagnosticCode::MaxNestingDepth),
        1,
        "Should have 1 nesting warning"
    );
    assert!(!result.warnings().is_empty(), "Should have warnings");
}

#[test]
fn test_linter_large_object() {
    let mut source = String::from("{\n");
    for i in 0..25 {
        source.push_str(&format!("    key{}: {},\n", i, i));
    }
    source.push_str("}");
    let config = LintConfig { max_object_members: 20, ..Default::default() };
    let result = lint_source(&source, config);
    assert!(result.has_issues());
    assert_eq!(count_by_code(&result, DiagnosticCode::MaxObjectMembers), 1);
}

#[test]
fn test_large_array() {
    let mut source = String::from("{\n    items: [\n");
    for i in 0..150 {
        source.push_str(&format!("        {},\n", i));
    }
    source.push_str("    ]\n}");
    let config = LintConfig { max_array_items: 100, ..Default::default() };
    let result = lint_source(&source, config);
    assert!(result.has_issues());
    assert_eq!(count_by_code(&result, DiagnosticCode::MaxArrayItems), 1);
}

#[test]
fn test_linter_unused_anchor() {
    let source = r#"{
        &unused: { value: 1 },
        &used: { value: 2 },
        data: *used
    }"#;
    let config = LintConfig { warn_unused_anchors: true, ..Default::default() };
    let result = lint_source(source, config);
    assert!(result.has_issues());
    assert_eq!(count_by_code(&result, DiagnosticCode::UnusedAnchor), 1);
}

#[test]
fn test_linter_duplicate_key() {
    let source = r#"{
        key: "value1",
        key: "value2"
    }"#;
    let result = lint_source(source, LintConfig::default());
    assert!(result.has_issues());
    assert_eq!(count_by_code(&result, DiagnosticCode::DuplicateKey), 1);
    assert!(!result.errors().is_empty(), "Should be an error");
}

#[test]
fn test_linter_excessive_spreads() {
    let source = r#"{
        &a: { x: 1 },
        &b: { y: 2 },
        &c: { z: 3 },
        &d: { w: 4 },
        result: {
            ...*a,
            ...*b,
            ...*c,
            ...*d
        }
    }"#;
    let result = lint_source(source, LintConfig::default());
    assert!(result.has_issues());
    assert_eq!(count_by_code(&result, DiagnosticCode::ExcessiveSpreads), 1);
}

#[test]
fn test_linter_magic_numbers() {
    let source = r#"{
        value: 42.7
    }"#;
    let config = LintConfig { warn_magic_numbers: true, ..Default::default() };
    let result = lint_source(source, config);
    assert!(result.has_issues());
    assert_eq!(count_by_code(&result, DiagnosticCode::MagicNumber), 1);
}

#[test]
fn test_linter_no_issues() {
    let source = r#"{
        name: "test",
        value: 1
    }"#;
    let result = lint_source(source, LintConfig::default());
    assert!(!result.has_issues());
    assert_eq!(result.diagnostics.len(), 0);
}

#[test]
fn test_diagnostic_severity() {
    let source = r#"{
        key: "v1",
        key: "v2"
    }"#;
    let result = lint_source(source, LintConfig::default());
    assert_eq!(result.errors().len(), 1);
    assert_eq!(result.errors()[0].severity, DiagnosticSeverity::Error);
}

#[test]
fn test_diagnostic_code_display() {
    let source = r#"{
        key: "v1",
        key: "v2"
    }"#;
    let result = lint_source(source, LintConfig::default());
    assert_eq!(result.errors()[0].code.code(), "LINT2002");
}

#[test]
fn test_lint_result_filtering() {
    let source = r#"{
        &unused: { x: 1 },
        key: "v1",
        key: "v2"
    }"#;
    let config = LintConfig { warn_unused_anchors: true, ..Default::default() };
    let result = lint_source(source, config);
    assert_eq!(result.errors().len(), 1, "Should have 1 error");
    assert_eq!(result.warnings().len(), 1, "Should have 1 warning");
    assert_eq!(result.infos().len(), 0, "Should have 0 infos");
}

#[test]
fn test_analysis_service_basic() {
    let source = r#"{
            &test: { value: 1 },
            data: *test
        }"#;
    let service = AnalysisService::new(LintConfig::default());
    let result = service.analyze_document(&parse(source), source);
    assert_eq!(result.symbol_table.symbol_count(), 1);
    assert_eq!(result.symbol_table.reference_count(), 1);
    assert!(!result.symbol_table.is_unused("test", SymbolKind::Anchor));
}

#[test]
fn test_unused_anchor_detection() {
    let source = r#"{
            &unused: { value: 1 },
            data: { x: 2 }
        }"#;
    let config = LintConfig { warn_unused_anchors: true, ..Default::default() };
    let service = AnalysisService::new(config);
    let result = service.analyze_document(&parse(source), source);
    assert!(result.symbol_table.is_unused("unused", SymbolKind::Anchor));
    let has_unused_diagnostic =
        result.diagnostics.iter().any(|d| matches!(d.code, DiagnosticCode::UnusedAnchor));
    assert!(has_unused_diagnostic);
}

// ---- further cases ----

#[test]
fn duplicate_key_scenario_is_one_error() {
    let source = r#"{ key: "v1", key: "v2" }"#;
    let result = lint_source(source, LintConfig::default());
    assert_eq!(count_by_code(&result, DiagnosticCode::DuplicateKey), 1);
    assert!(result.has_issues());
    assert_eq!(result.diagnostics[0].message, "Duplicate key 'key' in object");
    assert_eq!(result.diagnostics[0].code_name, "DuplicateKey");
}

#[test]
fn key_repeated_three_times_gives_two_errors() {
    let source = r#"{ a: 1, a: 2, b: 3, a: 4 }"#;
    let result = lint_source(source, LintConfig::default());
    assert_eq!(count_by_code(&result, DiagnosticCode::DuplicateKey), 2);
}

#[test]
fn unused_anchor_scenario_names_it() {
    let source = r#"{ &unused: {value:1}, &used: {value:2}, data: *used }"#;
    let config = LintConfig { warn_unused_anchors: true, ..Default::default() };
    let result = lint_source(source, config);
    let unused: Vec<_> =
        result.diagnostics.iter().filter(|d| d.code == DiagnosticCode::UnusedAnchor).collect();
    assert_eq!(unused.len(), 1);
    assert_eq!(unused[0].message, "Anchor 'unused' is defined but never used");
    assert_eq!(unused[0].severity, DiagnosticSeverity::Warning);
}

#[test]
fn depth_finding_once_for_many_deep_branches() {
    let source = r#"{ a: { b: { c: 1 } }, x: { y: { z: 2 } }, p: [[3]] }"#;
    let config = LintConfig { max_nesting_depth: 1, ..Default::default() };
    let result = lint_source(source, config);
    assert_eq!(count_by_code(&result, DiagnosticCode::MaxNestingDepth), 1);
    let d = result.diagnostics.iter().find(|d| d.code == DiagnosticCode::MaxNestingDepth).unwrap();
    assert_eq!(d.message, "Maximum nesting depth of 3 exceeds recommended limit of 1");
}

#[test]
fn deep_nesting_message_past_two_levels() {
    let source = r#"{ a: { b: { c: { d: 1 } } } }"#;
    let config = LintConfig { max_nesting_depth: 1, ..Default::default() };
    let result = lint_source(source, config);
    assert_eq!(
        result.diagnostics[0].message,
        "Maximum nesting depth of 4 exceeds limit of 1 by more than 2 levels"
    );
}

#[test]
fn large_object_message_is_exact() {
    let mut source = String::from("{\n");
    for i in 0..25 {
        source.push_str(&format!("    key{}: {},\n", i, i));
    }
    source.push_str("}");
    let config = LintConfig { max_object_members: 20, ..Default::default() };
    let result = lint_source(&source, config);
    let d = result.diagnostics.iter().find(|d| d.code == DiagnosticCode::MaxObjectMembers).unwrap();
    assert_eq!(d.message, "Object at depth 0 has 25 members, exceeds recommended limit of 20");
}

#[test]
fn empty_containers_are_reported() {
    let source = r#"{ a: {}, b: [] }"#;
    let result = lint_source(source, LintConfig::default());
    assert_eq!(count_by_code(&result, DiagnosticCode::EmptyObject), 2);
    assert!(result.infos().len() >= 2);
}

#[test]
fn mixed_naming_is_reported_with_counts() {
    let source = r#"{ snake_key: 1, camelKey: 2, Both_Signals: 3 }"#;
    let result = lint_source(source, LintConfig::default());
    let d = result.diagnostics.iter().find(|d| d.code == DiagnosticCode::InconsistentNaming).unwrap();
    assert_eq!(d.message, "Object has mixed naming styles (2 snake_case, 2 camelCase)");
}

#[test]
fn magic_number_allowlist() {
    let source = r#"{ a: 0, b: 1, c: -1, d: 0.5, e: 10, f: 100, g: 1000, h: 7, i: -250 }"#;
    let config = LintConfig { warn_magic_numbers: true, ..Default::default() };
    let result = lint_source(source, config);
    let msgs: Vec<_> = result
        .diagnostics
        .iter()
        .filter(|d| d.code == DiagnosticCode::MagicNumber)
        .map(|d| d.message.clone())
        .collect();
    assert_eq!(
        msgs,
        vec![
            "Consider extracting magic number 7 into a named constant".to_string(),
            "Consider extracting magic number -250 into a named constant".to_string(),
        ]
    );
}

#[test]
fn namespaced_references_past_limit() {
    let source = r#"{ a: *m.x, b: *m.y, c: *m.z, d: *m.w, e: *m.v, f: *m.u, g: *m.t }"#;
    let config = LintConfig { max_import_chain_depth: 2, warn_unused_anchors: false, ..Default::default() };
    let result = lint_source(source, config);
    let d = result.diagnostics.iter().find(|d| d.code == DiagnosticCode::DeepImportChain).unwrap();
    assert_eq!(d.message, "File has 7 namespaced references, consider simplifying imports");
}

#[test]
fn analysis_ranges_and_tags() {
    let source = "{\n  &lonely: 1\n}";
    let config = LintConfig { warn_unused_anchors: true, ..Default::default() };
    let service = AnalysisService::new(config);
    let result = service.analyze_document(&parse(source), source);
    let tagged: Vec<_> = result.diagnostics.iter().filter(|d| !d.tags.is_empty()).collect();
    assert_eq!(tagged.len(), 1);
    assert!(tagged[0].range.is_some());
    let sym = result.symbol_table.find_symbol("lonely", SymbolKind::Anchor).unwrap();
    assert_eq!(sym.detail.as_deref(), Some("1"));
    assert!(result.has_errors() == false);
}

#[test]
fn analysis_records_types_and_spreads() {
    let source = r#"{
        User: #struct { name(String) },
        &base: { a: 1 },
        child: { ...*base, b: 2 }
    }"#;
    let service = AnalysisService::new(LintConfig::default());
    let result = service.analyze_document(&parse(source), source);
    assert!(result.symbol_table.find_symbol("User", SymbolKind::Type).is_some());
    assert_eq!(result.symbol_table.find_references("base", SymbolKind::Anchor).len(), 1);
    assert!(!result.symbol_table.is_unused("base", SymbolKind::Anchor));
}

// ---- formatter ----

fn no_newline() -> FormatConfig {
    FormatConfig { final_newline: false, ..Default::default() }
}

fn empty_object() -> MonValue {
    MonValue { kind: MonValueKind::Object(vec![]), anchor: None, pos_start: 0, pos_end: 2 }
}

#[test]
fn empty_object_single_line_flag() {
    let on = FormatConfig { single_line_empty_objects: true, ..no_newline() };
    assert_eq!(Formatter::new(on).format(&doc_of(empty_object()), "{}"), "{}");
    let off = FormatConfig { single_line_empty_objects: false, ..no_newline() };
    assert_eq!(Formatter::new(off).format(&doc_of(empty_object()), "{}"), "{\n}");
}

#[test]
fn integral_number_has_no_fraction() {
    let f = Formatter::new(no_newline());
    assert_eq!(f.format(&doc_of(number(&format!("{}", 3.0f64))), "3.0"), "3");
    assert_eq!(f.format(&doc_of(number(&format!("{}", 3.5f64))), "3.5"), "3.5");
    assert_eq!(f.format(&doc_of(number(&format!("{}", -0.0f64))), "-0.0"), "0");
}

#[test]
fn small_object_on_one_line() {
    let source = r#"{ a: 1, b: "x" }"#;
    let out = Formatter::new(FormatConfig::default()).format(&parse(source), source);
    assert_eq!(out, "{ a: 1, b: \"x\" }\n");
}

#[test]
fn nested_object_expands() {
    let source = r#"{ a: { b: 1 } }"#;
    let out = Formatter::new(FormatConfig::default()).format(&parse(source), source);
    assert_eq!(out, "{\n    a: { b: 1 },\n}\n");
}

#[test]
fn formatting_twice_changes_nothing() {
    let source = r#"{ a: { b: [1, 2, 3] }, &c: { d: true }, e: *c }"#;
    let f = Formatter::new(FormatConfig::default());
    let once = f.format(&parse(source), source);
    let twice = f.format(&parse(&once), &once);
    assert_eq!(once, twice);
}

#[test]
fn formatting_is_deterministic() {
    let source = r#"{ a: [1, 2], b: { c: null } }"#;
    let f = Formatter::new(FormatConfig::default());
    assert_eq!(f.format(&parse(source), source), f.format(&parse(source), source));
    let l1 = lint_source(source, LintConfig::default());
    let l2 = lint_source(source, LintConfig::default());
    let m1: Vec<_> = l1.diagnostics.iter().map(|d| d.message.clone()).collect();
    let m2: Vec<_> = l2.diagnostics.iter().map(|d| d.message.clone()).collect();
    assert_eq!(m1, m2);
}

#[test]
fn too_wide_array_expands() {
    let source = r#"{ list: ["aaaaaaaaaaaaaaaa", "bbbbbbbbbbbbbbbb", "cccccccccccccccc", "dddddddddddddddd", "eeee"] }"#;
    let out = Formatter::new(FormatConfig::default()).format(&parse(source), source);
    assert!(out.contains("[\n        \"aaaaaaaaaaaaaaaa\",\n"));
    for line in out.lines() {
        assert!(line.chars().count() <= 80);
    }
}

#[test]
fn compact_style_keeps_wide_object_when_narrow_enough() {
    let source = r#"{ a: 1, b: 2, c: 3, d: 4 }"#;
    let cfg = FormatConfig { object_style: mon::formatter::config::ObjectStyle::Compact, ..no_newline() };
    let out = Formatter::new(cfg).format(&parse(source), source);
    assert_eq!(out, "{ a: 1, b: 2, c: 3, d: 4 }");
}

#[test]
fn anchor_matching_key_folds_into_key() {
    let source = r#"{ &base: { x: 1 }, other: &tag 5, y: [1] }"#;
    let out = Formatter::new(FormatConfig::default()).format(&parse(source), source);
    assert!(out.contains("&base: { x: 1 }"));
    assert!(out.contains("other: &tag 5"));
}

#[test]
fn leading_comments_and_imports_are_kept() {
    let source = "// header\nimport { &a, B } from \"./x.mon\"\n{ k: 1 }";
    let out = Formatter::new(FormatConfig::default()).format(&parse(source), source);
    assert!(out.starts_with("// header\nimport { &a, B } from \"./x.mon\"\n"));
}

#[test]
fn struct_definition_renders() {
    let source = r#"{ User: #struct { name(String), age(Number) = 3 }, u: 1 }"#;
    let cfg = FormatConfig { object_style: mon::formatter::config::ObjectStyle::Expanded, ..Default::default() };
    let out = Formatter::new(cfg).format(&parse(source), source);
    assert!(out.contains("User: #struct {\n        name(String),\n        age(Number) = 3,\n    }"));
}

#[test]
fn trailing_commas_never() {
    let source = r#"{ a: { b: 1 } }"#;
    let cfg = FormatConfig {
        trailing_commas: mon::formatter::config::TrailingCommaStyle::Never,
        ..no_newline()
    };
    let out = Formatter::new(cfg).format(&parse(source), source);
    assert_eq!(out, "{\n    a: { b: 1 }\n}");
}

#[test]
fn sorted_keys_in_output() {
    let source = r#"{ zeta: 1, &b: 2, alpha: 3, ...*s, &a: 4 }"#;
    let cfg = FormatConfig { sort_keys: mon::formatter::config::KeySortStyle::Alpha, ..no_newline() };
    let out = Formatter::new(cfg).format(&parse(source), source);
    assert_eq!(out, "{\n    &a: 4,\n    &b: 2,\n    alpha: 3,\n    zeta: 1,\n    ...*s,\n}");
}

#[test]
fn keys_needing_quotes_are_quoted() {
    let source = r#"{ "1st": 1, "a b": 2, "x!": 3, "plain_key-2": 4 }"#;
    let cfg = FormatConfig { object_style: mon::formatter::config::ObjectStyle::Compact, ..no_newline() };
    let out = Formatter::new(cfg).format(&parse(source), source);
    assert_eq!(out, "{ \"1st\": 1, \"a b\": 2, \"x!\": 3, plain_key-2: 4 }");
}

#[test]
fn comment_text_loses_trailing_whitespace() {
    let source = "// header   \n{ k: 1 } // tail";
    let out = Formatter::new(FormatConfig::default()).format(&parse(source), source);
    assert_eq!(out, "// header\n{ k: 1 }\n");
}

#[test]
fn config_from_document_is_default() {
    let cfg = LintConfig::from_document(&parse("{ a: 1 }"));
    assert_eq!(cfg.max_nesting_depth, 4);
    assert!(cfg.warn_unused_anchors);
}

#[test]
fn too_wide_object_expands_even_when_compact() {
    let source = r#"{ first_key: "aaaaaaaaaaaaaaaaaaaa", second_key: "bbbbbbbbbbbbbbbbbbbb", third: 3 }"#;
    let cfg = FormatConfig { object_style: mon::formatter::config::ObjectStyle::Compact, ..no_newline() };
    let out = Formatter::new(cfg).format(&parse(source), source);
    assert_eq!(
        out,
        "{\n    first_key: \"aaaaaaaaaaaaaaaaaaaa\",\n    second_key: \"bbbbbbbbbbbbbbbbbbbb\",\n    third: 3,\n}"
    );
}

#[test]
fn watch_mode_decisions() {
    let w = mon::formatter::watch::WatchMode::new(vec!["dir".to_string()], true);
    assert!(w.write);
    assert!(w.should_format("dir/a.mon", 500, None));
    assert!(!w.should_format("dir/a.json", 500, None));
    assert!(!w.should_format("dir/.mon", 500, None));
    assert!(!w.should_format("dir/a.mon", 550, Some(500)));
    assert!(w.should_format("dir/a.mon", 600, Some(500)));
}
