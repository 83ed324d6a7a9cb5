use mon::formatter::advanced::{align_comment_at, calculate_comment_alignment, sort_members};
use mon::formatter::config::{FormatConfig, IndentStyle, KeySortStyle};
use mon::formatter::style::Style;
use mon::ast::{Member, MonValue, MonValueKind, Pair};
use mon::linter::diagnostic::{DiagnosticCode, DiagnosticSeverity};
use mon::linter::position::{DiagnosticTag, Position, Range};
use mon::linter::rules::LintRule;
use mon::linter::symbol_table::{ReferenceKind, Symbol, SymbolKind, SymbolReference, SymbolTable};
use mon::linter::{LintConfig, LintResult};

#[test]
fn test_calculate_comment_alignment() {
    let lines = vec![
        ("short: 1".to_string(), Some("// Comment".to_string())),
        ("much_longer_key: 2".to_string(), Some("// Another".to_string())),
    ];
    let col = calculate_comment_alignment(&lines);
    assert!(col >= "much_longer_key: 2".len());
}

#[test]
fn test_align_comment() {
    let aligned = align_comment_at("key: value", "// Comment", 40);
    assert_eq!(
        aligned.len(),
        "key: value".len() + 2 + "// Comment".len() + (40 - "key: value".len() - 2)
    );
}

#[test]
fn test_position_from_byte_offset() {
    let source = "hello\nworld\nfoo";
    assert_eq!(Position::from_byte_offset(source, 0), Position { line: 0, character: 0 });
    assert_eq!(Position::from_byte_offset(source, 2), Position { line: 0, character: 2 });
    assert_eq!(Position::from_byte_offset(source, 6), Position { line: 1, character: 0 });
    assert_eq!(Position::from_byte_offset(source, 9), Position { line: 1, character: 3 });
    assert_eq!(Position::from_byte_offset(source, 12), Position { line: 2, character: 0 });
}

#[test]
fn test_range_contains() {
    let range = Range {
        start: Position { line: 1, character: 5 },
        end: Position { line: 1, character: 10 },
    };
    assert!(range.contains(Position { line: 1, character: 5 }));
    assert!(range.contains(Position { line: 1, character: 7 }));
    assert!(!range.contains(Position { line: 1, character: 10 }));
    assert!(!range.contains(Position { line: 0, character: 5 }));
    assert!(!range.contains(Position { line: 2, character: 5 }));
}

#[test]
fn test_symbol_table_basic() {
    let mut table = SymbolTable::new();
    let symbol = Symbol {
        name: "test_anchor".to_string(),
        kind: SymbolKind::Anchor,
        range: Range::new(Position::new(0, 0), Position::new(0, 5)),
        detail: None,
        documentation: None,
    };
    table.add_symbol(symbol.clone());
    assert_eq!(table.symbol_count(), 1);
    assert!(table.find_symbol("test_anchor", SymbolKind::Anchor).is_some());
    assert!(table.find_symbol("test_anchor", SymbolKind::Type).is_none());
}

#[test]
fn test_find_references() {
    let mut table = SymbolTable::new();
    table.add_symbol(Symbol {
        name: "anchor".to_string(),
        kind: SymbolKind::Anchor,
        range: Range::new(Position::new(0, 0), Position::new(0, 5)),
        detail: None,
        documentation: None,
    });
    table.add_reference(SymbolReference {
        symbol_name: "anchor".to_string(),
        symbol_kind: SymbolKind::Anchor,
        range: Range::new(Position::new(1, 0), Position::new(1, 5)),
        reference_kind: ReferenceKind::Alias,
    });
    table.add_reference(SymbolReference {
        symbol_name: "anchor".to_string(),
        symbol_kind: SymbolKind::Anchor,
        range: Range::new(Position::new(2, 0), Position::new(2, 5)),
        reference_kind: ReferenceKind::Spread,
    });
    let refs = table.find_references("anchor", SymbolKind::Anchor);
    assert_eq!(refs.len(), 2);
    assert_eq!(table.reference_count(), 2);
}

#[test]
fn test_unused_symbols() {
    let mut table = SymbolTable::new();
    table.add_symbol(Symbol {
        name: "used".to_string(),
        kind: SymbolKind::Anchor,
        range: Range::new(Position::new(0, 0), Position::new(0, 4)),
        detail: None,
        documentation: None,
    });
    table.add_reference(SymbolReference {
        symbol_name: "used".to_string(),
        symbol_kind: SymbolKind::Anchor,
        range: Range::new(Position::new(1, 0), Position::new(1, 4)),
        reference_kind: ReferenceKind::Alias,
    });
    table.add_symbol(Symbol {
        name: "unused".to_string(),
        kind: SymbolKind::Anchor,
        range: Range::new(Position::new(2, 0), Position::new(2, 6)),
        detail: None,
        documentation: None,
    });
    assert!(!table.is_unused("used", SymbolKind::Anchor));
    assert!(table.is_unused("unused", SymbolKind::Anchor));
    let unused = table.find_unused_symbols(SymbolKind::Anchor);
    assert_eq!(unused.len(), 1);
    assert_eq!(unused[0].name, "unused");
}

// ---- further cases ----

fn sym(name: &str, kind: SymbolKind, line: u32) -> Symbol {
    Symbol {
        name: name.to_string(),
        kind,
        range: Range::new(Position::new(line, 0), Position::new(line, 1)),
        detail: None,
        documentation: None,
    }
}

#[test]
fn later_definition_replaces_earlier() {
    let mut table = SymbolTable::new();
    table.add_symbol(sym("a", SymbolKind::Anchor, 1));
    table.add_symbol(sym("a", SymbolKind::Anchor, 7));
    table.add_symbol(sym("a", SymbolKind::Type, 3));
    assert_eq!(table.symbol_count(), 2);
    assert_eq!(table.find_symbol("a", SymbolKind::Anchor).unwrap().range.start.line, 7);
    assert_eq!(table.symbols_by_kind(SymbolKind::Type).len(), 1);
    table.clear();
    assert_eq!(table.symbol_count(), 0);
    assert_eq!(table.reference_count(), 0);
}

#[test]
fn undefined_symbol_is_not_unused() {
    let table = SymbolTable::new();
    assert!(!table.is_unused("ghost", SymbolKind::Anchor));
}

#[test]
fn position_counts_utf16_units_and_clamps() {
    let source = "a\u{1F600}b\nc";
    assert_eq!(Position::from_byte_offset(source, 5), Position { line: 0, character: 3 });
    assert_eq!(Position::from_byte_offset(source, 100), Position { line: 1, character: 1 });
    let r = Range::from_byte_offsets(source, 0, 7);
    assert_eq!(r.start, Position::new(0, 0));
    assert_eq!(r.end, Position::new(1, 0));
}

#[test]
fn codes_titles_and_severities() {
    assert_eq!(DiagnosticCode::MaxNestingDepth.code(), "LINT1001");
    assert_eq!(DiagnosticCode::UnusedImport.code(), "LINT4003");
    assert_eq!(DiagnosticCode::DuplicateKey.severity(), DiagnosticSeverity::Error);
    assert_eq!(DiagnosticCode::MagicNumber.severity(), DiagnosticSeverity::Info);
    assert_eq!(DiagnosticCode::UnusedAnchor.severity(), DiagnosticSeverity::Warning);
    assert_eq!(DiagnosticCode::EmptyObject.title(), "Empty object or array");
    assert_eq!(DiagnosticCode::DuplicateKey.config_key(), "N/A (always enabled)");
    assert!(DiagnosticCode::ExcessiveSpreads.description().starts_with("Too many spread"));
    assert_eq!(DiagnosticSeverity::Error.short_label(), "[E]");
    assert_eq!(DiagnosticSeverity::Info.label(), "info");
    assert_eq!(LintRule::MagicNumber.name(), "magic_number");
    assert_eq!(LintRule::DuplicateKey.description(), "Duplicate key in object");
}

#[test]
fn legacy_adders_pick_codes_from_messages() {
    let mut r = LintResult::new();
    r.add_warning("x", "too many items here".to_string(), None);
    r.add_warning("x", "deep nesting".to_string(), Some("line 3".to_string()));
    r.add_warning("x", "something else".to_string(), None);
    r.add_error("x", "Duplicate thing".to_string(), None);
    r.add_error("x", "cycle".to_string(), None);
    r.add_info("x", "look".to_string());
    let codes: Vec<_> = r.diagnostics.iter().map(|d| d.code).collect();
    assert_eq!(
        codes,
        vec![
            DiagnosticCode::MaxArrayItems,
            DiagnosticCode::MaxNestingDepth,
            DiagnosticCode::UnusedAnchor,
            DiagnosticCode::DuplicateKey,
            DiagnosticCode::CircularDependency,
            DiagnosticCode::MagicNumber,
        ]
    );
    assert_eq!(r.diagnostics[1].location.as_deref(), Some("line 3"));
    assert_eq!(r.errors().len(), 2);
    assert_eq!(r.infos().len(), 1);
    r.add_diagnostic_with_range(
        DiagnosticCode::UnusedImport,
        "m".to_string(),
        Some(Range::new(Position::new(0, 0), Position::new(0, 1))),
        vec![],
        vec![DiagnosticTag::Unnecessary],
    );
    assert_eq!(r.warnings().len(), 4);
}

#[test]
fn lint_config_defaults() {
    let c = LintConfig::default();
    assert_eq!(c.max_nesting_depth, 4);
    assert_eq!(c.max_object_members, 20);
    assert_eq!(c.max_array_items, 100);
    assert!(c.warn_unused_anchors);
    let d = c.with_only_rules(vec!["x".to_string()]).without_rules(vec![]);
    assert_eq!(d.max_import_chain_depth, 2);
}

#[test]
fn styles_and_defaults() {
    let d = FormatConfig::default();
    assert_eq!(d.indent_size, 4);
    assert_eq!(d.max_line_width, 80);
    assert_eq!(d.indent_string(), "    ");
    let linux = Style::from_str("LINUX").unwrap().to_config();
    assert_eq!(linux.indent_style, IndentStyle::Tabs);
    assert_eq!(linux.indent_string(), "\t");
    assert_eq!(linux.max_line_width, 100);
    assert_eq!(FormatConfig::google_style().indent_size, 2);
    assert!(Style::from_str("unknown").is_none());
    assert_eq!(Style::from_str("Prettier"), Some(Style::Prettier));
}

fn pair(key: &str, anchor: Option<&str>) -> Member {
    Member::Pair(Pair {
        key: key.to_string(),
        value: MonValue {
            kind: MonValueKind::Null,
            anchor: anchor.map(|a| a.to_string()),
            pos_start: 0,
            pos_end: 0,
        },
    })
}

fn keys(ms: &[&Member]) -> Vec<String> {
    ms.iter()
        .map(|m| match m {
            Member::Pair(p) => p.key.clone(),
            Member::Spread(n) => format!("...{}", n),
            _ => String::new(),
        })
        .collect()
}

#[test]
fn sorting_groups_and_orders_keys() {
    let members = vec![
        pair("zeta", None),
        Member::Spread("s".to_string()),
        pair("b", Some("b")),
        pair("alpha", None),
        pair("a", Some("a")),
        pair("mid", None),
    ];
    let alpha = sort_members(&members, KeySortStyle::Alpha);
    assert_eq!(keys(&alpha), vec!["a", "b", "alpha", "mid", "zeta", "...s"]);
    let by_len = sort_members(&members, KeySortStyle::Length);
    assert_eq!(keys(&by_len), vec!["b", "a", "mid", "zeta", "alpha", "...s"]);
    let none = sort_members(&members, KeySortStyle::Unsorted);
    assert_eq!(keys(&none), vec!["zeta", "...s", "b", "alpha", "a", "mid"]);
}

#[test]
fn alignment_column_rounds_and_caps() {
    let lines = vec![
        ("short: 1".to_string(), Some("// c".to_string())),
        ("a_much_longer_line_without_comment: 1".to_string(), None),
    ];
    assert_eq!(calculate_comment_alignment(&lines), 12);
    let long = vec![("x".repeat(90), Some("// c".to_string()))];
    assert_eq!(calculate_comment_alignment(&long), 80);
    assert_eq!(align_comment_at("0123456789", "// c", 4), "0123456789  // c");
    assert_eq!(align_comment_at("ab", "// c", 5), "ab   // c");
}

#[test]
fn style_from_lowercase_name() {
    assert_eq!(Style::from_lowercase("rust"), Some(Style::Rust));
    assert_eq!(Style::from_lowercase("Rust"), None);
}

#[test]
fn lengths_and_widths_count_bytes() {
    let members = vec![pair("éé", None), pair("abc", None)];
    let by_len = sort_members(&members, KeySortStyle::Length);
    assert_eq!(keys(&by_len), vec!["abc", "éé"]);
    let lines = vec![("éééé".to_string(), Some("// c".to_string()))];
    assert_eq!(calculate_comment_alignment(&lines), 12);
    assert_eq!(align_comment_at("é", "// c", 2), "é  // c");
}
