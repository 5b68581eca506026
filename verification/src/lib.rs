//! Extraction of static module-linkage metadata (imports, exports, dynamic
//! imports and `import.meta` references) from parsed JavaScript/TypeScript
//! source, with byte offsets corrected into codepoint indices.
//!
//! The parser itself is an external collaborator: it hands over a flat,
//! document-ordered list of recognized syntax nodes ([`nodes::ModuleNode`])
//! whose spans are byte offsets into the source text.  Everything after that
//! point — span arithmetic, statement-end adjustment, delimiter scanning,
//! byte-to-codepoint translation and the whole-file `facade` /
//! `has_module_syntax` flags — is implemented and verified here.

mod constants;
mod laws;
mod nodes;
mod offsets;
mod visitor;

pub use constants::{
    BRACKET_LEFT, BRACKET_RIGHT, CURLY_BRACE_LEFT, CURLY_BRACE_RIGHT, QUOTE, SINGLE_QUOTE,
};
pub use nodes::{
    DeclarationInfo, ExportSpecifierRef, ModuleNode, NameRef, SourceRef, StatementKind,
};
pub use visitor::{Export, FindIndexByCharType, Import, ParseResult, Visitor};
