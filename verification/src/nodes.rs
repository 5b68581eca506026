//! The parser-facing node model.
//!
//! The external parser walks its syntax tree once and hands over, in document
//! order, one [`ModuleNode`] per recognized module-relevant construct.  Every
//! span is a byte offset into the source text; the visitor turns these raw
//! nodes into finalized, codepoint-indexed records.

use vstd::prelude::*;

use crate::constants::{BRACKET_LEFT, CURLY_BRACE_LEFT};
use crate::offsets::{byte_len, char_matches};

verus! {

/// A name (identifier or string literal) together with its byte span.
#[derive(Debug)]
pub struct NameRef {
    pub name: String,
    pub start: u32,
    pub end: u32,
    /// Whether the name is spelled as a bare identifier.  A string-literal
    /// name (`export { x as 'str' }`) has a span that includes its quotes
    /// while its text does not.
    pub identifier: bool,
}

/// A module specifier string literal; the span includes the quotes, the text
/// does not.
#[derive(Debug)]
pub struct SourceRef {
    pub value: String,
    pub start: u32,
    pub end: u32,
}

/// What a top-level statement is, as far as the facade check cares.
#[derive(Debug, Clone, Copy, PartialEq, Eq, Structural)]
pub enum StatementKind {
    /// Any import/export declaration.
    ModuleDeclaration,
    /// An expression statement consisting of a dynamic `import(…)` call.
    DynamicImportExpression,
    /// Anything else.
    Other,
}

/// The declaration attached to a named export, when present.
#[derive(Debug)]
pub enum DeclarationInfo {
    /// `export { … }` with no attached declaration.
    Absent,
    /// An attached declaration without a single named binding (destructuring
    /// patterns, namespace declarations, …): it revokes the facade flag but
    /// exports no record.
    Unnamed,
    /// An attached declaration whose (first) bound identifier is exported.
    Named(NameRef),
}

/// One `local as exported` specifier of a named export.
#[derive(Debug)]
pub struct ExportSpecifierRef {
    pub local: NameRef,
    pub exported: NameRef,
}

/// One recognized module-relevant node of the parsed syntax tree.
#[derive(Debug)]
pub enum ModuleNode {
    /// The root node, carrying the kind of every top-level statement.
    Program { statements: Vec<StatementKind> },
    /// `import … from 'mod'`, optionally with an attributes/assertions
    /// clause.  `attributes_anchor` is a byte offset at or before the
    /// clause's opening brace from which a forward scan finds that brace.
    ImportDeclaration { start: u32, end: u32, source: SourceRef, attributes_anchor: Option<u32> },
    /// `export default …`; `local` is the inner identifier when the exported
    /// value is a named function or class declaration.
    ExportDefaultDeclaration { exported: NameRef, local: Option<NameRef> },
    /// `export * [as name] from 'mod'`.
    ExportAllDeclaration { start: u32, end: u32, source: SourceRef, exported: Option<NameRef> },
    /// `export { … } [from 'mod']` or `export <declaration>`.
    ExportNamedDeclaration {
        start: u32,
        end: u32,
        source: Option<SourceRef>,
        declaration: DeclarationInfo,
        specifiers: Vec<ExportSpecifierRef>,
    },
    /// A dynamic `import(source [, options])` call expression.
    ImportExpression {
        start: u32,
        end: u32,
        source_start: u32,
        source_end: u32,
        /// The specifier text when the source argument is a string literal.
        source_value: Option<String>,
        has_options: bool,
        /// Start of the options argument when it is an object expression.
        options_object_start: Option<u32>,
    },
    /// An `import.meta` reference.
    MetaProperty { start: u32, end: u32 },
    /// A module declaration of a kind that produces no record (TypeScript
    /// `export =` and `export as namespace`): it still counts as module
    /// syntax.
    OtherModuleDeclaration,
}

/// A name's span sits inside the text and is never empty-reversed; its end is
/// followed by at least one more character of the enclosing statement.
pub open spec fn name_ref_wf(n: NameRef, chars: Seq<char>) -> bool {
    n.start <= n.end < byte_len(chars)
}

/// A module specifier holds at least its two quotes and ends within the text.
pub open spec fn source_ref_wf(s: SourceRef, chars: Seq<char>) -> bool {
    s.start + 2 <= s.end <= byte_len(chars)
}

/// What the visitor relies on of a node handed over by the parser: spans lie
/// inside the source text, and the delimiters that the boundary heuristics
/// scan for are present.  All of it is guaranteed by a syntactically valid
/// tree.
pub open spec fn node_wf(node: ModuleNode, chars: Seq<char>) -> bool {
    match node {
        ModuleNode::Program { statements } => true,
        ModuleNode::ImportDeclaration { start, end, source, attributes_anchor } => {
            &&& start < end <= byte_len(chars)
            &&& source_ref_wf(source, chars)
            &&& match attributes_anchor {
                Some(k) => exists|p: int| k <= p && char_matches(chars, p, CURLY_BRACE_LEFT),
                None => true,
            }
        },
        ModuleNode::ExportDefaultDeclaration { exported, local } => {
            &&& name_ref_wf(exported, chars)
            &&& match local {
                Some(l) => name_ref_wf(l, chars),
                None => true,
            }
        },
        ModuleNode::ExportAllDeclaration { start, end, source, exported } => {
            &&& start < end <= byte_len(chars)
            &&& source_ref_wf(source, chars)
            &&& match exported {
                Some(x) => name_ref_wf(x, chars),
                None => true,
            }
        },
        ModuleNode::ExportNamedDeclaration { start, end, source, declaration, specifiers } => {
            &&& start < end <= byte_len(chars)
            &&& match source {
                Some(src) => source_ref_wf(src, chars),
                None => true,
            }
            &&& match declaration {
                DeclarationInfo::Named(n) => name_ref_wf(n, chars),
                _ => true,
            }
            &&& forall|i: int|
                0 <= i < specifiers@.len() ==> {
                    &&& name_ref_wf((#[trigger] specifiers@[i]).local, chars)
                    &&& name_ref_wf(specifiers@[i].exported, chars)
                }
        },
        ModuleNode::ImportExpression {
            start,
            end,
            source_start,
            source_end,
            source_value,
            has_options,
            options_object_start,
        } => {
            &&& start < end <= byte_len(chars)
            &&& source_start < source_end <= byte_len(chars)
            &&& exists|p: int| 0 <= p <= source_start && char_matches(chars, p, BRACKET_LEFT)
            &&& match options_object_start {
                Some(o) => has_options && o < byte_len(chars),
                None => true,
            }
        },
        ModuleNode::MetaProperty { start, end } => start < end <= byte_len(chars),
        ModuleNode::OtherModuleDeclaration => true,
    }
}

/// Every node of a parse is well-formed.
pub open spec fn nodes_wf(nodes: Seq<ModuleNode>, chars: Seq<char>) -> bool {
    forall|i: int| 0 <= i < nodes.len() ==> node_wf(#[trigger] nodes[i], chars)
}

} // verus!
