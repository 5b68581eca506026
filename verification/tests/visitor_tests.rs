//! Direct tests of the visitor over hand-built node lists: no parser
//! involved, every span written out by hand.

use es_module_lexer::{
    DeclarationInfo, ExportSpecifierRef, FindIndexByCharType, Import, Export, ModuleNode, NameRef,
    SourceRef, StatementKind, Visitor,
};

#[test]
fn test_default_import_record() {
    let import = Import::default();
    assert!(import.n.is_none());
    assert_eq!(import.s, 0);
    assert_eq!(import.e, 0);
    assert_eq!(import.ss, 0);
    assert_eq!(import.se, 0);
    assert_eq!(import.d, -1);
    assert_eq!(import.a, -1);
}

#[test]
fn test_default_export_record() {
    let export = Export::default();
    assert!(export.n.is_none());
    assert!(export.ln.is_none());
    assert_eq!(export.s, 0);
    assert_eq!(export.e, 0);
    assert_eq!(export.ls, -1);
    assert_eq!(export.le, -1);
}

#[test]
fn test_get_char_index_passes_sentinels_through() {
    let visitor = Visitor::new("ab\u{65E5}cd");
    assert_eq!(visitor.get_char_index(-1), -1);
    assert_eq!(visitor.get_char_index(-2), -2);
    // Byte length is 7; anything at or past it passes through unchanged.
    assert_eq!(visitor.get_char_index(7), 7);
    assert_eq!(visitor.get_char_index(0), 0);
    assert_eq!(visitor.get_char_index(2), 2);
    // All three bytes of the multi-byte character map to codepoint 2.
    assert_eq!(visitor.get_char_index(3), 2);
    assert_eq!(visitor.get_char_index(4), 2);
    assert_eq!(visitor.get_char_index(5), 3);
    assert_eq!(visitor.get_char_index(6), 4);
}

#[test]
fn test_adjust_statement_end_trims_semicolon() {
    let mut visitor = Visitor::new("import 'x';");
    assert_eq!(visitor.adjust_statement_end(11), 10);
}

#[test]
fn test_adjust_statement_end_keeps_closing_delimiters() {
    let mut quoted = Visitor::new("import 'x'");
    assert_eq!(quoted.adjust_statement_end(10), 10);
    let mut braced = Visitor::new("export { a }");
    assert_eq!(braced.adjust_statement_end(12), 12);
    let mut called = Visitor::new("import('x')");
    assert_eq!(called.adjust_statement_end(11), 11);
}

#[test]
fn test_find_index_by_char_both_directions() {
    let mut visitor = Visitor::new("a(b{c");
    assert_eq!(visitor.find_index_by_char(4, '(', FindIndexByCharType::Last), 1);
    assert_eq!(visitor.find_index_by_char(0, '{', FindIndexByCharType::Next), 3);
    assert_eq!(visitor.find_index_by_char(1, '(', FindIndexByCharType::Last), 1);
}

#[test]
fn test_import_declaration_node_multibyte() {
    // chars:  / * 日 * / i m p  o  r  t     '  m  '  ;
    // bytes:  0 1 2-4 5 6 7 8 9 10 11 12 13 14 15 16 17
    let source = "/*\u{65E5}*/import 'm';";
    let mut visitor = Visitor::new(source);
    let nodes = vec![
        ModuleNode::Program { statements: vec![StatementKind::ModuleDeclaration] },
        ModuleNode::ImportDeclaration {
            start: 7,
            end: 18,
            source: SourceRef { value: "m".to_string(), start: 14, end: 17 },
            attributes_anchor: None,
        },
    ];
    assert!(visitor.nodes_well_formed(&nodes));
    visitor.visit_nodes(&nodes);
    let result = visitor.result;

    assert_eq!(result.imports.len(), 1);
    let import = &result.imports[0];
    assert_eq!(import.n.clone().unwrap(), "m");
    assert_eq!(import.ss, 5);
    assert_eq!(import.se, 15);
    assert_eq!(import.s, 13);
    assert_eq!(import.e, 14);
    assert_eq!(import.d, -1);
    assert_eq!(import.a, -1);
    assert!(result.facade);
    assert!(result.has_module_syntax);
}

#[test]
fn test_dynamic_import_node_with_options_object() {
    // chars/bytes coincide: import('x', { a: 1 })
    let source = "import('x', { a: 1 })";
    let mut visitor = Visitor::new(source);
    let nodes = vec![
        ModuleNode::Program { statements: vec![StatementKind::DynamicImportExpression] },
        ModuleNode::ImportExpression {
            start: 0,
            end: 21,
            source_start: 7,
            source_end: 10,
            source_value: Some("x".to_string()),
            has_options: true,
            options_object_start: Some(12),
        },
    ];
    assert!(visitor.nodes_well_formed(&nodes));
    visitor.visit_nodes(&nodes);
    let result = visitor.result;

    assert_eq!(result.imports.len(), 1);
    let import = &result.imports[0];
    assert_eq!(import.d, 6);
    assert_eq!(import.a, 12);
    assert_eq!(import.s, 7);
    assert_eq!(import.e, 10);
    // The options argument revokes the facade flag.
    assert!(!result.facade);
    // A dynamic import alone is not module syntax.
    assert!(!result.has_module_syntax);
}

#[test]
fn test_export_named_with_source_leaves_locals_unset() {
    let source = "export { x as y } from 'external';";
    let mut visitor = Visitor::new(source);
    let nodes = vec![
        ModuleNode::Program { statements: vec![StatementKind::ModuleDeclaration] },
        ModuleNode::ExportNamedDeclaration {
            start: 0,
            end: 34,
            source: Some(SourceRef { value: "external".to_string(), start: 23, end: 33 }),
            declaration: DeclarationInfo::Absent,
            specifiers: vec![ExportSpecifierRef {
                local: NameRef { name: "x".to_string(), start: 9, end: 10, identifier: true },
                exported: NameRef { name: "y".to_string(), start: 14, end: 15, identifier: true },
            }],
        },
    ];
    assert!(visitor.nodes_well_formed(&nodes));
    visitor.visit_nodes(&nodes);
    let result = visitor.result;

    assert_eq!(result.imports.len(), 1);
    assert_eq!(result.imports[0].n.clone().unwrap(), "external");
    assert_eq!(result.exports.len(), 1);
    let export = &result.exports[0];
    assert_eq!(export.n.clone().unwrap(), "y");
    assert!(export.ln.is_none());
    assert_eq!(export.ls, -1);
    assert_eq!(export.le, -1);
    assert!(result.facade);
}

#[test]
fn test_export_declaration_node_revokes_facade() {
    let source = "export const a = 1;";
    let mut visitor = Visitor::new(source);
    let nodes = vec![
        ModuleNode::Program { statements: vec![StatementKind::ModuleDeclaration] },
        ModuleNode::ExportNamedDeclaration {
            start: 0,
            end: 19,
            source: None,
            declaration: DeclarationInfo::Named(NameRef {
                name: "a".to_string(),
                start: 13,
                end: 14,
                identifier: true,
            }),
            specifiers: vec![],
        },
    ];
    assert!(visitor.nodes_well_formed(&nodes));
    visitor.visit_nodes(&nodes);
    let result = visitor.result;

    assert!(!result.facade);
    assert_eq!(result.exports.len(), 1);
    let export = &result.exports[0];
    assert_eq!(export.n.clone().unwrap(), "a");
    assert_eq!(export.ln.clone().unwrap(), "a");
    assert_eq!(export.ls, 13);
    assert_eq!(export.le, 14);
}

#[test]
fn test_export_all_node_emits_import_and_export() {
    let source = "export * as all from 'mod';";
    let mut visitor = Visitor::new(source);
    let nodes = vec![
        ModuleNode::Program { statements: vec![StatementKind::ModuleDeclaration] },
        ModuleNode::ExportAllDeclaration {
            start: 0,
            end: 27,
            source: SourceRef { value: "mod".to_string(), start: 21, end: 26 },
            exported: Some(NameRef {
                name: "all".to_string(),
                start: 12,
                end: 15,
                identifier: true,
            }),
        },
    ];
    assert!(visitor.nodes_well_formed(&nodes));
    visitor.visit_nodes(&nodes);
    let result = visitor.result;

    assert_eq!(result.imports.len(), 1);
    assert_eq!(result.imports[0].n.clone().unwrap(), "mod");
    assert_eq!(result.exports.len(), 1);
    assert_eq!(result.exports[0].n.clone().unwrap(), "all");
    assert_eq!(result.exports[0].ls, -1);
    assert_eq!(result.exports[0].le, -1);
    assert!(result.has_module_syntax);
}

#[test]
fn test_nodes_well_formed_rejects_out_of_range_span() {
    let visitor = Visitor::new("short");
    let nodes = vec![ModuleNode::MetaProperty { start: 0, end: 99 }];
    assert!(!visitor.nodes_well_formed(&nodes));
}

#[test]
fn test_nodes_well_formed_rejects_missing_delimiter() {
    let visitor = Visitor::new("no brace here");
    let nodes = vec![ModuleNode::ImportDeclaration {
        start: 0,
        end: 13,
        source: SourceRef { value: "b".to_string(), start: 3, end: 6 },
        attributes_anchor: Some(6),
    }];
    assert!(!visitor.nodes_well_formed(&nodes));
}

#[test]
fn test_meta_property_node() {
    let source = "import.meta";
    let mut visitor = Visitor::new(source);
    let nodes = vec![
        ModuleNode::Program { statements: vec![StatementKind::Other] },
        ModuleNode::MetaProperty { start: 0, end: 11 },
    ];
    assert!(visitor.nodes_well_formed(&nodes));
    visitor.visit_nodes(&nodes);
    let result = visitor.result;

    assert_eq!(result.imports.len(), 1);
    assert_eq!(result.imports[0].d, -2);
    assert_eq!(result.imports[0].ss, 0);
    assert_eq!(result.imports[0].se, 11);
    assert!(result.imports[0].n.is_none());
    assert!(result.has_module_syntax);
    assert!(!result.facade);
}

#[test]
fn test_statement_flush_at_end_keeps_raw_end() {
    // A statement whose adjusted end equals the byte length is out of the
    // translator's range, so that end passes through unchanged.
    let source = "import 'm'";
    let mut visitor = Visitor::new(source);
    let nodes = vec![
        ModuleNode::Program { statements: vec![StatementKind::ModuleDeclaration] },
        ModuleNode::ImportDeclaration {
            start: 0,
            end: 10,
            source: SourceRef { value: "m".to_string(), start: 7, end: 10 },
            attributes_anchor: None,
        },
    ];
    assert!(visitor.nodes_well_formed(&nodes));
    visitor.visit_nodes(&nodes);
    let result = visitor.result;

    assert_eq!(result.imports.len(), 1);
    assert_eq!(result.imports[0].se, 10);
    assert_eq!(result.imports[0].s, 8);
    assert_eq!(result.imports[0].e, 9);
}
