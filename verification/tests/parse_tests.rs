//! End-to-end tests: the real oxc parser feeds the verified extraction
//! engine through the same lowering the application shell uses.

use std::collections::HashMap;
use std::path::Path;

use oxc_allocator::Allocator;
use oxc_ast::ast::{
    BindingPattern, Declaration, Expression, ExportDefaultDeclarationKind, ModuleExportName,
    Program, Statement,
};
use oxc_ast::AstKind;
use oxc_ast_visit::Visit;
use oxc_parser::Parser;
use oxc_span::{GetSpan, SourceType};

use es_module_lexer::{
    DeclarationInfo, ExportSpecifierRef, ModuleNode, NameRef, ParseResult, SourceRef,
    StatementKind, Visitor,
};

fn name_ref(men: &ModuleExportName) -> NameRef {
    NameRef {
        name: men.name().to_string(),
        start: men.span().start,
        end: men.span().end,
        identifier: !matches!(men, ModuleExportName::StringLiteral(_)),
    }
}

fn ident_ref(name: &str, span: oxc_span::Span) -> NameRef {
    NameRef { name: name.to_string(), start: span.start, end: span.end, identifier: true }
}

struct Lowerer<'a> {
    source_text: &'a str,
    nodes: Vec<ModuleNode>,
}

impl<'a> Visit<'a> for Lowerer<'a> {
    fn enter_node(&mut self, kind: AstKind<'a>) {
        match kind {
            AstKind::Program(program) => {
                let statements = program
                    .body
                    .iter()
                    .map(|stmt| match stmt {
                        Statement::ImportDeclaration(_)
                        | Statement::ExportAllDeclaration(_)
                        | Statement::ExportDefaultDeclaration(_)
                        | Statement::ExportNamedDeclaration(_)
                        | Statement::TSExportAssignment(_)
                        | Statement::TSNamespaceExportDeclaration(_) => {
                            StatementKind::ModuleDeclaration
                        }
                        Statement::ExpressionStatement(expr) => {
                            if matches!(expr.expression, Expression::ImportExpression(_)) {
                                StatementKind::DynamicImportExpression
                            } else {
                                StatementKind::Other
                            }
                        }
                        _ => StatementKind::Other,
                    })
                    .collect();
                self.nodes.push(ModuleNode::Program { statements });
            }
            AstKind::ImportDeclaration(decl) => {
                self.nodes.push(ModuleNode::ImportDeclaration {
                    start: decl.span.start,
                    end: decl.span.end,
                    source: SourceRef {
                        value: decl.source.value.to_string(),
                        start: decl.source.span.start,
                        end: decl.source.span.end,
                    },
                    attributes_anchor: decl.with_clause.as_ref().map(|wc| wc.span.start),
                });
            }
            AstKind::ExportDefaultDeclaration(decl) => {
                let rel = self.source_text[decl.span.start as usize..]
                    .find("default")
                    .expect("an export default declaration spells the default keyword");
                let kw_start = decl.span.start + rel as u32;
                let exported = NameRef {
                    name: "default".to_string(),
                    start: kw_start,
                    end: kw_start + 7,
                    identifier: true,
                };
                let local = match &decl.declaration {
                    ExportDefaultDeclarationKind::FunctionDeclaration(f) => {
                        f.id.as_ref().map(|id| ident_ref(id.name.as_str(), id.span))
                    }
                    ExportDefaultDeclarationKind::ClassDeclaration(c) => {
                        c.id.as_ref().map(|id| ident_ref(id.name.as_str(), id.span))
                    }
                    _ => None,
                };
                self.nodes.push(ModuleNode::ExportDefaultDeclaration { exported, local });
            }
            AstKind::ExportAllDeclaration(decl) => {
                self.nodes.push(ModuleNode::ExportAllDeclaration {
                    start: decl.span.start,
                    end: decl.span.end,
                    source: SourceRef {
                        value: decl.source.value.to_string(),
                        start: decl.source.span.start,
                        end: decl.source.span.end,
                    },
                    exported: decl.exported.as_ref().map(name_ref),
                });
            }
            AstKind::ExportNamedDeclaration(decl) => {
                let declaration = match &decl.declaration {
                    None => DeclarationInfo::Absent,
                    Some(Declaration::VariableDeclaration(var_decl)) => {
                        match var_decl.declarations.first().map(|d| &d.id) {
                            Some(BindingPattern::BindingIdentifier(id)) => {
                                DeclarationInfo::Named(ident_ref(id.name.as_str(), id.span))
                            }
                            _ => DeclarationInfo::Unnamed,
                        }
                    }
                    Some(Declaration::FunctionDeclaration(f)) => match &f.id {
                        Some(id) => DeclarationInfo::Named(ident_ref(id.name.as_str(), id.span)),
                        None => DeclarationInfo::Unnamed,
                    },
                    Some(Declaration::ClassDeclaration(c)) => match &c.id {
                        Some(id) => DeclarationInfo::Named(ident_ref(id.name.as_str(), id.span)),
                        None => DeclarationInfo::Unnamed,
                    },
                    Some(Declaration::TSEnumDeclaration(e)) => {
                        DeclarationInfo::Named(ident_ref(e.id.name.as_str(), e.id.span))
                    }
                    Some(Declaration::TSInterfaceDeclaration(i)) => {
                        DeclarationInfo::Named(ident_ref(i.id.name.as_str(), i.id.span))
                    }
                    Some(Declaration::TSTypeAliasDeclaration(t)) => {
                        DeclarationInfo::Named(ident_ref(t.id.name.as_str(), t.id.span))
                    }
                    Some(_) => DeclarationInfo::Unnamed,
                };
                let specifiers = decl
                    .specifiers
                    .iter()
                    .map(|sp| ExportSpecifierRef {
                        local: name_ref(&sp.local),
                        exported: name_ref(&sp.exported),
                    })
                    .collect();
                self.nodes.push(ModuleNode::ExportNamedDeclaration {
                    start: decl.span.start,
                    end: decl.span.end,
                    source: decl.source.as_ref().map(|s| SourceRef {
                        value: s.value.to_string(),
                        start: s.span.start,
                        end: s.span.end,
                    }),
                    declaration,
                    specifiers,
                });
            }
            AstKind::ImportExpression(expr) => {
                self.nodes.push(ModuleNode::ImportExpression {
                    start: expr.span.start,
                    end: expr.span.end,
                    source_start: expr.source.span().start,
                    source_end: expr.source.span().end,
                    source_value: match &expr.source {
                        Expression::StringLiteral(s) => Some(s.value.to_string()),
                        _ => None,
                    },
                    has_options: expr.options.is_some(),
                    options_object_start: match &expr.options {
                        Some(Expression::ObjectExpression(obj)) => Some(obj.span.start),
                        _ => None,
                    },
                });
            }
            AstKind::MetaProperty(meta) => {
                self.nodes.push(ModuleNode::MetaProperty {
                    start: meta.span.start,
                    end: meta.span.end,
                });
            }
            AstKind::TSExportAssignment(_) | AstKind::TSNamespaceExportDeclaration(_) => {
                self.nodes.push(ModuleNode::OtherModuleDeclaration);
            }
            _ => {}
        }
    }
}

fn lower(source_text: &str, program: &Program) -> Vec<ModuleNode> {
    let mut lowerer = Lowerer { source_text, nodes: Vec::new() };
    lowerer.visit_program(program);
    lowerer.nodes
}

fn parse(source_text: &str, file_path: &str) -> Result<ParseResult, Vec<String>> {
    let allocator = Allocator::default();
    let source_type = SourceType::from_path(Path::new(file_path)).unwrap();
    let ret = Parser::new(&allocator, source_text, source_type).parse();

    if ret.diagnostics.has_errors() {
        let source = source_text.to_string();
        let errors: Vec<String> = ret
            .diagnostics
            .into_vec()
            .into_iter()
            .map(|error| error.with_source_code(source.clone()))
            .map(|error| format!("{error:?}"))
            .collect();
        return Err(errors);
    }

    let nodes = lower(source_text, &ret.program);
    let mut visitor = Visitor::new(source_text);
    assert!(visitor.nodes_well_formed(&nodes));
    visitor.visit_nodes(&nodes);
    Ok(visitor.result)
}

struct ParseMultipleInput<'a> {
    source_text: &'a str,
    file_path: &'a str,
}

fn parse_multiple(
    inputs: &[ParseMultipleInput],
) -> HashMap<String, Result<ParseResult, Vec<String>>> {
    inputs
        .iter()
        .map(|input| (input.file_path.to_string(), parse(input.source_text, input.file_path)))
        .collect()
}

#[test]
fn test_parse_errors() {
    let source_text = r#"error import { name } from 'mod'
import json from './json.json' assert { type: 'json' }
export var p = 5;
export function q () {

};
export { x as 'external name' } from 'external';

// Comments provided to demonstrate edge cases
import /*comment!*/ (  'asdf', { assert: { type: 'json' }});
import /*comment!*/.meta.asdf;
"#;

    let file_path = "index.ts";
    let result = parse(source_text, file_path);

    assert!(result.is_err());
}

#[test]
fn test_facade() {
    let source_text = r#"
import { name } from 'mod'
import json from './json.json' assert { type: 'json' }
import { a } from './a';

export { a as b }
export { x as 'external name' } from 'external';
"#;

    let file_path = "index.ts";
    let result = parse(source_text, file_path);

    assert!(result.unwrap().facade);
}

#[test]
fn test_has_module_syntax() {
    let source_text = r#"
import { name } from 'mod'
"#;

    let file_path = "index.ts";
    let result = parse(source_text, file_path);

    assert!(result.unwrap().has_module_syntax);
}

#[test]
fn test_has_module_syntax_meta() {
    let source_text = r#"import.meta"#;

    let file_path = "index.ts";
    let result = parse(source_text, file_path);

    assert!(result.unwrap().has_module_syntax);
}

#[test]
fn test_no_module_syntax() {
    let source_text = r#"
import('./foo')
"#;

    let file_path = "index.ts";
    let result = parse(source_text, file_path);

    assert!(!result.unwrap().has_module_syntax);
}

#[test]
fn test_parse_multiple() {
    let source_text = r#"
import { name } from 'mod'
import json from './json.json' assert { type: 'json' }
export var p = 5;
export function q () {

};
export { x as 'external name' } from 'external';

// Comments provided to demonstrate edge cases
import /*comment!*/ (  'asdf', { assert: { type: 'json' }});
import /*comment!*/.meta.asdf;
"#;

    let file_path = "index.ts";

    let result = parse_multiple(&[ParseMultipleInput { source_text, file_path }]);

    assert_eq!(result.len(), 1);
    assert!(result.contains_key(file_path));
}

#[test]
fn test_parse() {
    let source_text = r#"
export enum Fruit {
  Apple = 'apple',
  Banana = 'banana',
  Orange = 'orange',
  Pear = 'pear',
}

export interface Opts {
  name: string;
  color: string;
  count: number;
  enabled: boolean;
}

export type Key = 'a' | 'b' | 'c';
"#;

    let file_path = "index.ts";
    let result = parse(source_text, file_path);

    assert!(result.is_ok());

    let result = result.unwrap();

    assert_eq!(result.imports.len(), 0);
    assert_eq!(result.exports.len(), 3);
    assert_eq!(result.exports[0].n.clone().unwrap(), "Fruit");
    assert_eq!(result.exports[0].s, 13);
    assert_eq!(result.exports[0].e, 18);
    assert_eq!(result.exports[1].n.clone().unwrap(), "Opts");
    assert_eq!(result.exports[2].n.clone().unwrap(), "Key");

    assert!(!result.facade);
    assert!(result.has_module_syntax);
}

#[test]
fn test_import_and_renamed_export() {
    let source_text = "import { name } from 'mod'\nexport { a as b }";
    let result = parse(source_text, "index.ts").unwrap();

    assert_eq!(result.imports.len(), 1);
    assert_eq!(result.imports[0].n.clone().unwrap(), "mod");
    assert_eq!(result.exports.len(), 1);
    assert_eq!(result.exports[0].n.clone().unwrap(), "b");
    assert_eq!(result.exports[0].ln.clone().unwrap(), "a");
    assert!(result.facade);
    assert!(result.has_module_syntax);

    let chars: Vec<char> = source_text.chars().collect();
    let import = &result.imports[0];
    let specifier: String =
        chars[import.s as usize..import.e as usize].iter().collect();
    assert_eq!(specifier, "mod");
}

#[test]
fn test_dynamic_import_only() {
    let source_text = "import('./foo')";
    let result = parse(source_text, "index.ts").unwrap();

    assert_eq!(result.imports.len(), 1);
    assert!(result.imports[0].d >= 0);
    assert_eq!(result.imports[0].n.clone().unwrap(), "./foo");
    assert!(!result.has_module_syntax);
}

#[test]
fn test_import_meta_record() {
    let source_text = "import.meta";
    let result = parse(source_text, "index.ts").unwrap();

    assert_eq!(result.imports.len(), 1);
    assert_eq!(result.imports[0].d, -2);
    assert!(result.has_module_syntax);
}

#[test]
fn test_export_default_revokes_facade() {
    let source_text = "export default function foo() {}\n";
    let result = parse(source_text, "index.ts").unwrap();

    assert!(!result.facade);
    assert_eq!(result.exports.len(), 1);
    assert_eq!(result.exports[0].n.clone().unwrap(), "default");
    assert_eq!(result.exports[0].ln.clone().unwrap(), "foo");
}

#[test]
fn test_non_literal_dynamic_import_revokes_facade() {
    let source_text = "import(moduleName)\n";
    let result = parse(source_text, "index.js").unwrap();

    assert!(!result.facade);
    assert_eq!(result.imports.len(), 1);
    assert!(result.imports[0].n.is_none());
}

#[test]
fn test_batch_with_one_error_is_isolated() {
    let good_a = "import { x } from 'a'\n";
    let good_b = "export { y as z }\n";
    let bad = "import { from\n";

    let batch = parse_multiple(&[
        ParseMultipleInput { source_text: good_a, file_path: "a.ts" },
        ParseMultipleInput { source_text: bad, file_path: "bad.ts" },
        ParseMultipleInput { source_text: good_b, file_path: "b.ts" },
    ]);

    assert_eq!(batch.len(), 3);
    assert!(batch["bad.ts"].is_err());
    let solo_a = parse(good_a, "a.ts").unwrap();
    let batch_a = batch["a.ts"].as_ref().unwrap();
    assert_eq!(batch_a.imports.len(), solo_a.imports.len());
    assert_eq!(batch_a.imports[0].n, solo_a.imports[0].n);
    assert_eq!(batch_a.imports[0].s, solo_a.imports[0].s);
    assert!(batch["b.ts"].is_ok());
}

#[test]
fn test_attributes_index_points_at_brace() {
    let source_text = "import json from './j.json' assert { type: 'json' }\n";
    let result = parse(source_text, "index.ts").unwrap();

    assert_eq!(result.imports.len(), 1);
    let a = result.imports[0].a;
    assert!(a >= 0);
    let chars: Vec<char> = source_text.chars().collect();
    assert_eq!(chars[a as usize], '{');
}

#[test]
fn test_multibyte_offsets_are_codepoint_indices() {
    let source_text = "/*\u{65E5}\u{672C}*/import { name } from 'mod'\n";
    let result = parse(source_text, "index.ts").unwrap();

    assert_eq!(result.imports.len(), 1);
    let import = &result.imports[0];
    let chars: Vec<char> = source_text.chars().collect();
    let specifier: String = chars[import.s as usize..import.e as usize].iter().collect();
    assert_eq!(specifier, "mod");
    assert_eq!(import.ss, 6);
}

#[test]
fn test_string_literal_export_name_spans_quotes() {
    let source_text = "export { x as 'ext name' } from 'm';\n";
    let result = parse(source_text, "index.js").unwrap();

    assert_eq!(result.exports.len(), 1);
    let export = &result.exports[0];
    assert_eq!(export.n.clone().unwrap(), "ext name");
    // A string-literal exported name reports its text without the quotes,
    // while its span includes them.
    let chars: Vec<char> = source_text.chars().collect();
    assert_eq!(chars[export.s as usize], '\'');
    assert!(export.ln.is_none());
    assert_eq!(export.ls, -1);
}
