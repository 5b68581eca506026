//! The extraction engine: a single forward pass over the parser's node list
//! that emits finalized import/export records and the two whole-file flags.
//!
//! Every record is first assembled with byte offsets, then finalized by the
//! offset translator ([`crate::offsets::translate`]) so that callers only ever
//! see codepoint indices (sentinels pass through unchanged).

use vstd::prelude::*;

use crate::constants::{
    BRACKET_LEFT, BRACKET_RIGHT, CURLY_BRACE_LEFT, CURLY_BRACE_RIGHT, QUOTE, SINGLE_QUOTE,
};
use crate::nodes::{
    name_ref_wf, node_wf, nodes_wf, source_ref_wf, DeclarationInfo, ExportSpecifierRef,
    ModuleNode, NameRef, SourceRef, StatementKind,
};
use crate::offsets::{
    byte_len, char_at_byte, char_matches, lemma_byte_len_bounds, lemma_byte_len_take_succ,
    lemma_char_at_byte_bounds, lemma_char_at_byte_of_char, lemma_scan_back_found,
    lemma_scan_forward_found, scan_back, scan_forward, translate, utf8_len_exec,
};

verus! {

broadcast use vstd::string::axiom_spec_iter;

/// One discovered import-like construct.  All offsets are codepoint indices.
#[derive(Debug)]
pub struct Import {
    /// The literal module specifier text; absent for non-literal dynamic
    /// imports and `import.meta`.
    pub n: Option<String>,
    /// Specifier (name) start.
    pub s: u32,
    /// Specifier (name) end.
    pub e: u32,
    /// Statement start.
    pub ss: u32,
    /// Statement end.
    pub se: u32,
    /// Dynamic-import marker: `-2` for `import.meta`, `-1` for a static
    /// import, else the offset of the dynamic call's opening parenthesis.
    pub d: i32,
    /// Offset of the attributes/assertions clause's opening brace, `-1` when
    /// no such clause is present.
    pub a: i32,
}

/// One discovered export binding.  All offsets are codepoint indices.
#[derive(Debug)]
pub struct Export {
    /// Exported-name start.
    pub s: u32,
    /// Exported-name end.
    pub e: u32,
    /// Local-name start, `-1` when there is no distinguishable local binding.
    pub ls: i32,
    /// Local-name end, `-1` when there is no distinguishable local binding.
    pub le: i32,
    /// The externally visible exported name.
    pub n: Option<String>,
    /// The local binding's name.
    pub ln: Option<String>,
}

/// One file's finalized result.
#[derive(Debug)]
pub struct ParseResult {
    pub imports: Vec<Import>,
    pub exports: Vec<Export>,
    /// Whether the file is a pure re-export facade module.
    pub facade: bool,
    /// Whether the file contains any module syntax (a bare dynamic
    /// `import(…)` call does not count).
    pub has_module_syntax: bool,
}

/// Mathematical image of an [`Import`].
#[verifier::ext_equal]
pub struct SpecImport {
    pub n: Option<Seq<char>>,
    pub s: int,
    pub e: int,
    pub ss: int,
    pub se: int,
    pub d: int,
    pub a: int,
}

/// Mathematical image of an [`Export`].
#[verifier::ext_equal]
pub struct SpecExport {
    pub s: int,
    pub e: int,
    pub ls: int,
    pub le: int,
    pub n: Option<Seq<char>>,
    pub ln: Option<Seq<char>>,
}

/// Mathematical image of a [`ParseResult`].
#[verifier::ext_equal]
pub struct SpecParseResult {
    pub imports: Seq<SpecImport>,
    pub exports: Seq<SpecExport>,
    pub facade: bool,
    pub has_module_syntax: bool,
}

pub open spec fn view_opt_string(o: Option<String>) -> Option<Seq<char>> {
    match o {
        Some(s) => Some(s@),
        None => None,
    }
}

impl View for Import {
    type V = SpecImport;

    open spec fn view(&self) -> SpecImport {
        SpecImport {
            n: view_opt_string(self.n),
            s: self.s as int,
            e: self.e as int,
            ss: self.ss as int,
            se: self.se as int,
            d: self.d as int,
            a: self.a as int,
        }
    }
}

impl View for Export {
    type V = SpecExport;

    open spec fn view(&self) -> SpecExport {
        SpecExport {
            s: self.s as int,
            e: self.e as int,
            ls: self.ls as int,
            le: self.le as int,
            n: view_opt_string(self.n),
            ln: view_opt_string(self.ln),
        }
    }
}

impl View for ParseResult {
    type V = SpecParseResult;

    open spec fn view(&self) -> SpecParseResult {
        SpecParseResult {
            imports: self.imports@.map_values(|i: Import| i@),
            exports: self.exports@.map_values(|e: Export| e@),
            facade: self.facade,
            has_module_syntax: self.has_module_syntax,
        }
    }
}

/// The result every pass starts from: no records, no flags.
pub open spec fn empty_result() -> SpecParseResult {
    SpecParseResult {
        imports: Seq::empty(),
        exports: Seq::empty(),
        facade: false,
        has_module_syntax: false,
    }
}

impl Default for Import {
    /// A static import with nothing filled in yet.
    fn default() -> (r: Import)
        ensures
            r@ == (SpecImport { n: None, s: 0, e: 0, ss: 0, se: 0, d: -1, a: -1 }),
    {
        Import { n: None, s: 0, e: 0, ss: 0, se: 0, a: -1, d: -1 }
    }
}

impl Default for Export {
    /// An export with no names and no local span yet.
    fn default() -> (r: Export)
        ensures
            r@ == (SpecExport { s: 0, e: 0, ls: -1, le: -1, n: None, ln: None }),
    {
        Export { s: 0, e: 0, ls: -1, le: -1, n: None, ln: None }
    }
}

/// The finalized form of a raw (byte-offset) import record: every offset is
/// run through the translator, the specifier text is kept.
pub open spec fn finalize_import(chars: Seq<char>, raw: SpecImport) -> SpecImport {
    SpecImport {
        n: raw.n,
        s: translate(chars, raw.s),
        e: translate(chars, raw.e),
        ss: translate(chars, raw.ss),
        se: translate(chars, raw.se),
        d: translate(chars, raw.d),
        a: translate(chars, raw.a),
    }
}

/// The finalized form of a raw (byte-offset) export record.
pub open spec fn finalize_export(chars: Seq<char>, raw: SpecExport) -> SpecExport {
    SpecExport {
        s: translate(chars, raw.s),
        e: translate(chars, raw.e),
        ls: translate(chars, raw.ls),
        le: translate(chars, raw.le),
        n: raw.n,
        ln: raw.ln,
    }
}

/// A result extended by one import record.
pub open spec fn push_import(st: SpecParseResult, imp: SpecImport) -> SpecParseResult {
    SpecParseResult { imports: st.imports.push(imp), ..st }
}

/// A result extended by one export record.
pub open spec fn push_export(st: SpecParseResult, exp: SpecExport) -> SpecParseResult {
    SpecParseResult { exports: st.exports.push(exp), ..st }
}

/// The statement-end heuristic: keep the end offset when the last character
/// of the span closes a quote, brace or parenthesis, else trim one byte (a
/// trailing semicolon the grammar included in the span).
pub open spec fn adjust_end(chars: Seq<char>, se: int) -> int {
    let c = chars[char_at_byte(chars, se - 1)];
    if c == SINGLE_QUOTE || c == QUOTE || c == CURLY_BRACE_RIGHT || c == BRACKET_RIGHT {
        se
    } else {
        se - 1
    }
}

/// Whether a delimiter scan can succeed: some byte offset in the scan's
/// direction holds the target character.
pub open spec fn find_target_exists(
    chars: Seq<char>,
    current: int,
    ch: char,
    find_type: FindIndexByCharType,
) -> bool {
    match find_type {
        FindIndexByCharType::Last => exists|p: int| 0 <= p <= current && char_matches(chars, p, ch),
        FindIndexByCharType::Next => exists|p: int| current <= p && char_matches(chars, p, ch),
    }
}

/// The byte offset a delimiter scan lands on.
pub open spec fn find_result(
    chars: Seq<char>,
    current: int,
    ch: char,
    find_type: FindIndexByCharType,
) -> int {
    match find_type {
        FindIndexByCharType::Last => scan_back(chars, current, ch),
        FindIndexByCharType::Next => scan_forward(chars, current, ch),
    }
}

/// Whether every top-level statement is a module declaration or a bare
/// dynamic-import expression statement: the initial facade estimate.
pub open spec fn all_module_like(stmts: Seq<StatementKind>) -> bool {
    forall|i: int|
        0 <= i < stmts.len() ==> ((#[trigger] stmts[i]) is ModuleDeclaration
            || stmts[i] is DynamicImportExpression)
}

/// Raw record of an import declaration: specifier text between the quotes,
/// statement span end-adjusted, attributes brace found by a forward scan.
pub open spec fn import_decl_raw(
    chars: Seq<char>,
    start: int,
    end: int,
    source: SourceRef,
    attributes_anchor: Option<u32>,
) -> SpecImport {
    SpecImport {
        n: Some(source.value@),
        s: source.start + 1,
        e: source.end - 1,
        ss: start,
        se: adjust_end(chars, end),
        d: -1,
        a: match attributes_anchor {
            Some(k) => scan_forward(chars, k as int, CURLY_BRACE_LEFT),
            None => -1,
        },
    }
}

/// Raw record of the import side of a re-export (`export … from 'mod'`).
pub open spec fn reexport_import_raw(
    chars: Seq<char>,
    start: int,
    end: int,
    source: SourceRef,
) -> SpecImport {
    SpecImport {
        n: Some(source.value@),
        s: source.start + 1,
        e: source.end - 1,
        ss: start,
        se: adjust_end(chars, end),
        d: -1,
        a: -1,
    }
}

/// Raw record of a default export, with the inner identifier of a named
/// function or class declaration as its local binding.
pub open spec fn default_export_raw(exported: NameRef, local: Option<NameRef>) -> SpecExport {
    SpecExport {
        s: exported.start as int,
        e: exported.end as int,
        n: Some(exported.name@),
        ln: match local {
            Some(l) => Some(l.name@),
            None => None,
        },
        ls: match local {
            Some(l) => l.start as int,
            None => -1,
        },
        le: match local {
            Some(l) => l.end as int,
            None => -1,
        },
    }
}

/// Raw record of a re-exported name whose local binding lives in the paired
/// import record (`export * as x from 'mod'`).
pub open spec fn reexport_name_raw(exported: NameRef) -> SpecExport {
    SpecExport {
        s: exported.start as int,
        e: exported.end as int,
        n: Some(exported.name@),
        ln: None,
        ls: -1,
        le: -1,
    }
}

/// Raw record of a local declaration exported under its own name
/// (`export const a = …`, `export function foo() {}`, …).
pub open spec fn local_binding_export_raw(id: NameRef) -> SpecExport {
    SpecExport {
        s: id.start as int,
        e: id.end as int,
        n: Some(id.name@),
        ln: Some(id.name@),
        ls: id.start as int,
        le: id.end as int,
    }
}

/// Raw record of one `local as exported` specifier.  When the declaration
/// re-exports from another module, the local side is that module's export,
/// not a local binding, and stays unset.
pub open spec fn specifier_export_raw(sp: ExportSpecifierRef, has_import: bool) -> SpecExport {
    SpecExport {
        s: sp.exported.start as int,
        e: sp.exported.end as int,
        n: Some(sp.exported.name@),
        ln: if has_import {
            None
        } else {
            Some(sp.local.name@)
        },
        ls: if has_import {
            -1
        } else {
            sp.local.start as int
        },
        le: if has_import {
            -1
        } else {
            sp.local.end as int
        },
    }
}

/// Raw record of a dynamic `import(…)` call: the name span is the source
/// argument's span, the marker is the opening parenthesis found by a
/// backward scan, and an options object's start becomes the attributes
/// offset.
pub open spec fn dynamic_import_raw(
    chars: Seq<char>,
    start: int,
    end: int,
    source_start: int,
    source_end: int,
    source_value: Option<String>,
    options_object_start: Option<u32>,
) -> SpecImport {
    SpecImport {
        n: view_opt_string(source_value),
        s: source_start,
        e: source_end,
        ss: start,
        se: adjust_end(chars, end),
        d: scan_back(chars, source_start, BRACKET_LEFT),
        a: match options_object_start {
            Some(o) => o as int,
            None => -1,
        },
    }
}

/// Raw record of an `import.meta` reference: both spans are the node's own
/// span and the marker is `-2`.
pub open spec fn meta_import_raw(start: int, end: int) -> SpecImport {
    SpecImport { n: None, s: start, e: end, ss: start, se: end, d: -2, a: -1 }
}

/// The specifier records of a named export, appended in declaration order.
pub open spec fn push_specifier_exports(
    st: SpecParseResult,
    specifiers: Seq<ExportSpecifierRef>,
    has_import: bool,
    chars: Seq<char>,
) -> SpecParseResult
    decreases specifiers.len(),
{
    if specifiers.len() == 0 {
        st
    } else {
        push_specifier_exports(
            push_export(st, finalize_export(chars, specifier_export_raw(specifiers[0], has_import))),
            specifiers.drop_first(),
            has_import,
            chars,
        )
    }
}

/// How one node transforms the accumulated result: which records it emits
/// (already finalized) and what it does to the two whole-file flags.
pub open spec fn node_step(st: SpecParseResult, node: ModuleNode, chars: Seq<char>) -> SpecParseResult {
    match node {
        ModuleNode::Program { statements } => {
            SpecParseResult { facade: all_module_like(statements@), ..st }
        },
        ModuleNode::ImportDeclaration { start, end, source, attributes_anchor } => {
            let st1 = SpecParseResult { has_module_syntax: true, ..st };
            push_import(
                st1,
                finalize_import(
                    chars,
                    import_decl_raw(chars, start as int, end as int, source, attributes_anchor),
                ),
            )
        },
        ModuleNode::ExportDefaultDeclaration { exported, local } => {
            let st1 = SpecParseResult { has_module_syntax: true, facade: false, ..st };
            push_export(st1, finalize_export(chars, default_export_raw(exported, local)))
        },
        ModuleNode::ExportAllDeclaration { start, end, source, exported } => {
            let st1 = SpecParseResult { has_module_syntax: true, ..st };
            let st2 = push_import(
                st1,
                finalize_import(chars, reexport_import_raw(chars, start as int, end as int, source)),
            );
            match exported {
                Some(x) => push_export(st2, finalize_export(chars, reexport_name_raw(x))),
                None => st2,
            }
        },
        ModuleNode::ExportNamedDeclaration { start, end, source, declaration, specifiers } => {
            let st1 = SpecParseResult { has_module_syntax: true, ..st };
            let st2 = match source {
                Some(src) => push_import(
                    st1,
                    finalize_import(
                        chars,
                        reexport_import_raw(chars, start as int, end as int, src),
                    ),
                ),
                None => st1,
            };
            let st3 = match declaration {
                DeclarationInfo::Absent => st2,
                DeclarationInfo::Unnamed => SpecParseResult { facade: false, ..st2 },
                DeclarationInfo::Named(id) => push_export(
                    SpecParseResult { facade: false, ..st2 },
                    finalize_export(chars, local_binding_export_raw(id)),
                ),
            };
            push_specifier_exports(st3, specifiers@, source is Some, chars)
        },
        ModuleNode::ImportExpression {
            start,
            end,
            source_start,
            source_end,
            source_value,
            has_options,
            options_object_start,
        } => {
            let st1 = SpecParseResult {
                facade: st.facade && source_value is Some && !has_options,
                ..st
            };
            push_import(
                st1,
                finalize_import(
                    chars,
                    dynamic_import_raw(
                        chars,
                        start as int,
                        end as int,
                        source_start as int,
                        source_end as int,
                        source_value,
                        options_object_start,
                    ),
                ),
            )
        },
        ModuleNode::MetaProperty { start, end } => {
            let st1 = SpecParseResult { has_module_syntax: true, ..st };
            push_import(st1, finalize_import(chars, meta_import_raw(start as int, end as int)))
        },
        ModuleNode::OtherModuleDeclaration => {
            SpecParseResult { has_module_syntax: true, ..st }
        },
    }
}

/// The whole pass: nodes folded over the result in document order.
pub open spec fn visit_fold(
    st: SpecParseResult,
    nodes: Seq<ModuleNode>,
    chars: Seq<char>,
) -> SpecParseResult
    decreases nodes.len(),
{
    if nodes.len() == 0 {
        st
    } else {
        visit_fold(node_step(st, nodes[0], chars), nodes.drop_first(), chars)
    }
}

/// Unrolling [`push_specifier_exports`] at the tail.
pub proof fn lemma_push_specifiers_snoc(
    st: SpecParseResult,
    specifiers: Seq<ExportSpecifierRef>,
    sp: ExportSpecifierRef,
    has_import: bool,
    chars: Seq<char>,
)
    ensures
        push_specifier_exports(st, specifiers.push(sp), has_import, chars) == push_export(
            push_specifier_exports(st, specifiers, has_import, chars),
            finalize_export(chars, specifier_export_raw(sp, has_import)),
        ),
    decreases specifiers.len(),
{
    reveal_with_fuel(push_specifier_exports, 2);
    if specifiers.len() == 0 {
        assert(specifiers.push(sp).drop_first() =~= Seq::<ExportSpecifierRef>::empty());
        assert(specifiers.push(sp)[0] == sp);
    } else {
        assert(specifiers.push(sp).drop_first() =~= specifiers.drop_first().push(sp));
        assert(specifiers.push(sp)[0] == specifiers[0]);
        lemma_push_specifiers_snoc(
            push_export(st, finalize_export(chars, specifier_export_raw(specifiers[0], has_import))),
            specifiers.drop_first(),
            sp,
            has_import,
            chars,
        );
    }
}

/// Unrolling [`visit_fold`] at the tail.
pub proof fn lemma_visit_fold_snoc(
    st: SpecParseResult,
    nodes: Seq<ModuleNode>,
    node: ModuleNode,
    chars: Seq<char>,
)
    ensures
        visit_fold(st, nodes.push(node), chars) == node_step(
            visit_fold(st, nodes, chars),
            node,
            chars,
        ),
    decreases nodes.len(),
{
    reveal_with_fuel(visit_fold, 2);
    if nodes.len() == 0 {
        assert(nodes.push(node).drop_first() =~= Seq::<ModuleNode>::empty());
        assert(nodes.push(node)[0] == node);
    } else {
        assert(nodes.push(node).drop_first() =~= nodes.drop_first().push(node));
        assert(nodes.push(node)[0] == nodes[0]);
        lemma_visit_fold_snoc(node_step(st, nodes[0], chars), nodes.drop_first(), node, chars);
    }
}

/// Direction of a delimiter scan.
pub enum FindIndexByCharType {
    /// Scan backward (toward offset zero).
    Last,
    /// Scan forward (toward the end of the text).
    Next,
}

/// The visitor: the source text as characters, the byte-offset-to-codepoint
/// translation table, and the result being accumulated.
pub struct Visitor {
    pub source_text_chars: Vec<char>,
    pub byte_to_char: Vec<usize>,
    pub result: ParseResult,
}

impl Visitor {
    /// The source text the visitor was built over.
    pub open spec fn chars(self) -> Seq<char> {
        self.source_text_chars@
    }

    /// Well-formedness: the table covers every byte of the text and maps it
    /// to the index of the character owning it, and the byte length fits the
    /// signed offsets used at the boundary.
    pub open spec fn wf(self) -> bool {
        &&& self.byte_to_char@.len() == byte_len(self.chars())
        &&& byte_len(self.chars()) <= i32::MAX
        &&& forall|b: int|
            0 <= b < self.byte_to_char@.len() ==> #[trigger] self.byte_to_char@[b] as int
                == char_at_byte(self.chars(), b)
    }

    /// Build a visitor over a source text: an O(n) pass fills the
    /// byte-offset-to-codepoint table, and the result starts empty.
    pub fn new(source_text: &str) -> (v: Visitor)
        requires
            byte_len(source_text@) <= i32::MAX,
        ensures
            v.wf(),
            v.chars() == source_text@,
            v.result@ == empty_result(),
    {
        let ghost text = source_text@;
        let mut source_text_chars: Vec<char> = Vec::new();
        let mut byte_to_char: Vec<usize> = Vec::new();
        for c in it: source_text.chars()
            invariant
                it.seq() == text,
                source_text_chars@ == text.take(it.index() as int),
                byte_to_char@.len() == byte_len(source_text_chars@),
                forall|b: int|
                    0 <= b < byte_to_char@.len() ==> #[trigger] byte_to_char@[b] as int
                        == char_at_byte(text, b),
        {
            let ghost i = it.index() as int;
            proof {
                assert(text.take(i + 1) =~= text.take(i).push(text[i]));
                lemma_byte_len_take_succ(text, i);
                lemma_byte_len_bounds(text.take(i));
            }
            let width = utf8_len_exec(c);
            let char_index = source_text_chars.len();
            let mut filled: usize = 0;
            while filled < width
                invariant
                    filled <= width,
                    width == crate::offsets::utf8_len(text[i]),
                    char_index == i,
                    0 <= i < text.len(),
                    source_text_chars@ == text.take(i),
                    byte_to_char@.len() == byte_len(text.take(i)) + filled,
                    byte_len(text.take(i)) + crate::offsets::utf8_len(text[i]) == byte_len(
                        text.take(i + 1),
                    ),
                    forall|b: int|
                        0 <= b < byte_to_char@.len() ==> #[trigger] byte_to_char@[b] as int
                            == char_at_byte(text, b),
                decreases width - filled,
            {
                byte_to_char.push(char_index);
                filled = filled + 1;
                proof {
                    lemma_char_at_byte_of_char(text, i, byte_to_char@.len() - 1);
                }
            }
            source_text_chars.push(c);
            proof {
                assert(source_text_chars@ =~= text.take(i + 1));
            }
        }
        proof {
            assert(source_text_chars@ =~= text);
        }
        Visitor {
            source_text_chars,
            byte_to_char,
            result: ParseResult {
                imports: Vec::new(),
                exports: Vec::new(),
                facade: false,
                has_module_syntax: false,
            },
        }
    }

    /// Convert one byte offset to a codepoint index; anything outside the
    /// text (sentinels included) passes through unchanged.
    pub fn get_char_index(&self, byte_index: i32) -> (r: i32)
        requires
            self.wf(),
        ensures
            r == translate(self.chars(), byte_index as int),
    {
        let len: usize = self.byte_to_char.len();
        if byte_index < 0 || byte_index >= len as i32 {
            byte_index
        } else {
            proof {
                lemma_char_at_byte_bounds(self.chars(), byte_index as int);
                lemma_byte_len_bounds(self.chars());
            }
            self.byte_to_char[byte_index as usize] as i32
        }
    }

    /// Adjust a statement's end offset past a trailing delimiter, per
    /// [`adjust_end`]: the decision reads the character owning the last byte
    /// of the span, never the raw byte.
    pub fn adjust_statement_end(&mut self, se: u32) -> (r: u32)
        requires
            old(self).wf(),
            1 <= se <= byte_len(old(self).chars()),
        ensures
            *final(self) == *old(self),
            r == adjust_end(old(self).chars(), se as int),
    {
        proof {
            lemma_char_at_byte_bounds(self.chars(), se - 1);
            lemma_byte_len_bounds(self.chars());
        }
        let last_ch = self.source_text_chars[self.byte_to_char[(se - 1) as usize]];

        if last_ch == SINGLE_QUOTE || last_ch == QUOTE || last_ch == CURLY_BRACE_RIGHT
            || last_ch == BRACKET_RIGHT {
            se
        } else {
            se - 1
        }
    }

    /// Scan one codepoint at a time from a known anchor until the character
    /// owning the current byte offset is `ch`, backward (`Last`) or forward
    /// (`Next`).  Well-formed syntax guarantees the target is present, and
    /// the scan stands under that precondition.
    #[verifier::loop_isolation(false)]
    pub fn find_index_by_char(
        &mut self,
        current: usize,
        ch: char,
        find_type: FindIndexByCharType,
    ) -> (r: usize)
        requires
            old(self).wf(),
            current < byte_len(old(self).chars()),
            find_target_exists(old(self).chars(), current as int, ch, find_type),
        ensures
            *final(self) == *old(self),
            r == find_result(old(self).chars(), current as int, ch, find_type),
    {
        let mut cur = current;
        match find_type {
            FindIndexByCharType::Last => {
                loop
                    invariant
                        *self == *old(self),
                        self.wf(),
                        cur < byte_len(self.chars()),
                        exists|p: int| 0 <= p <= cur && char_matches(self.chars(), p, ch),
                        scan_back(self.chars(), cur as int, ch) == scan_back(
                            self.chars(),
                            current as int,
                            ch,
                        ),
                    decreases cur,
                {
                    proof {
                        lemma_char_at_byte_bounds(self.chars(), cur as int);
                        lemma_byte_len_bounds(self.chars());
                    }
                    if self.source_text_chars[self.byte_to_char[cur]] == ch {
                        proof {
                            assert(char_matches(self.chars(), cur as int, ch));
                            assert(scan_back(self.chars(), cur as int, ch) == cur);
                        }
                        return cur;
                    }
                    proof {
                        assert(!char_matches(self.chars(), cur as int, ch));
                        let p = choose|p: int|
                            0 <= p <= cur && char_matches(self.chars(), p, ch);
                        assert(p < cur);
                        assert(exists|q: int|
                            0 <= q <= cur - 1 && char_matches(self.chars(), q, ch));
                        assert(scan_back(self.chars(), cur as int, ch) == scan_back(
                            self.chars(),
                            cur - 1,
                            ch,
                        ));
                    }
                    cur = cur - 1;
                }
            },
            FindIndexByCharType::Next => {
                loop
                    invariant
                        *self == *old(self),
                        self.wf(),
                        cur < byte_len(self.chars()),
                        exists|p: int| cur <= p && char_matches(self.chars(), p, ch),
                        scan_forward(self.chars(), cur as int, ch) == scan_forward(
                            self.chars(),
                            current as int,
                            ch,
                        ),
                    decreases byte_len(self.chars()) - cur,
                {
                    proof {
                        lemma_char_at_byte_bounds(self.chars(), cur as int);
                        lemma_byte_len_bounds(self.chars());
                    }
                    if self.source_text_chars[self.byte_to_char[cur]] == ch {
                        proof {
                            assert(char_matches(self.chars(), cur as int, ch));
                            assert(scan_forward(self.chars(), cur as int, ch) == cur);
                        }
                        return cur;
                    }
                    proof {
                        assert(!char_matches(self.chars(), cur as int, ch));
                        let p = choose|p: int| cur <= p && char_matches(self.chars(), p, ch);
                        assert(cur < p);
                        assert(p < byte_len(self.chars()));
                        assert(exists|q: int|
                            cur + 1 <= q && char_matches(self.chars(), q, ch));
                        assert(scan_forward(self.chars(), cur as int, ch) == scan_forward(
                            self.chars(),
                            cur + 1,
                            ch,
                        ));
                    }
                    cur = cur + 1;
                }
            },
        }
    }

    /// Finalize one raw import record and append it to the result.
    pub fn add_import(&mut self, import: Import)
        requires
            old(self).wf(),
            import.s < byte_len(old(self).chars()),
            import.ss < byte_len(old(self).chars()),
            import.e <= i32::MAX,
            import.se <= i32::MAX,
        ensures
            *final(self) == (Visitor {
                result: final(self).result,
                ..*old(self)
            }),
            final(self).result@ == push_import(
                old(self).result@,
                finalize_import(old(self).chars(), import@),
            ),
    {
        proof {
            lemma_char_at_byte_bounds(self.chars(), import.s as int);
            lemma_char_at_byte_bounds(self.chars(), import.ss as int);
            lemma_byte_len_bounds(self.chars());
            if import.e < byte_len(self.chars()) {
                lemma_char_at_byte_bounds(self.chars(), import.e as int);
            }
            if import.se < byte_len(self.chars()) {
                lemma_char_at_byte_bounds(self.chars(), import.se as int);
            }
        }
        let s = self.byte_to_char[import.s as usize] as u32;
        let e = self.get_char_index(import.e as i32) as u32;
        let ss = self.byte_to_char[import.ss as usize] as u32;
        let se = self.get_char_index(import.se as i32) as u32;
        let a = self.get_char_index(import.a);
        let d = self.get_char_index(import.d);
        let ghost expected = finalize_import(old(self).chars(), import@);
        let finalized = Import { n: import.n, s, e, ss, se, a, d };
        proof {
            assert(finalized@ == expected);
        }
        self.result.imports.push(finalized);
        proof {
            assert(self.result@.imports =~= old(self).result@.imports.push(expected));
            assert(self.result@ =~= push_import(old(self).result@, expected));
        }
    }

    /// Finalize one raw export record and append it to the result.
    pub fn add_export(&mut self, export: Export)
        requires
            old(self).wf(),
            export.s < byte_len(old(self).chars()),
            export.e < byte_len(old(self).chars()),
        ensures
            *final(self) == (Visitor {
                result: final(self).result,
                ..*old(self)
            }),
            final(self).result@ == push_export(
                old(self).result@,
                finalize_export(old(self).chars(), export@),
            ),
    {
        proof {
            lemma_char_at_byte_bounds(self.chars(), export.s as int);
            lemma_char_at_byte_bounds(self.chars(), export.e as int);
            lemma_byte_len_bounds(self.chars());
        }
        let s = self.byte_to_char[export.s as usize] as u32;
        let e = self.byte_to_char[export.e as usize] as u32;
        let ls = self.get_char_index(export.ls);
        let le = self.get_char_index(export.le);
        let ghost expected = finalize_export(old(self).chars(), export@);
        let finalized = Export { n: export.n, ln: export.ln, s, e, ls, le };
        proof {
            assert(finalized@ == expected);
        }
        self.result.exports.push(finalized);
        proof {
            assert(self.result@.exports =~= old(self).result@.exports.push(expected));
            assert(self.result@ =~= push_export(old(self).result@, expected));
        }
    }

    /// Process one node: emit its records and update the whole-file flags,
    /// exactly as [`node_step`] describes.
    #[verifier::loop_isolation(false)]
    pub fn enter_node(&mut self, node: &ModuleNode)
        requires
            old(self).wf(),
            node_wf(*node, old(self).chars()),
        ensures
            final(self).wf(),
            final(self).source_text_chars@ == old(self).source_text_chars@,
            final(self).byte_to_char@ == old(self).byte_to_char@,
            final(self).result@ == node_step(old(self).result@, *node, old(self).chars()),
    {
        match node {
            ModuleNode::Program { statements } => {
                let mut facade = true;
                let mut i: usize = 0;
                while i < statements.len()
                    invariant
                        i <= statements@.len(),
                        facade == all_module_like(statements@.take(i as int)),
                    decreases statements@.len() - i,
                {
                    let module_like = match statements[i] {
                        StatementKind::ModuleDeclaration => true,
                        StatementKind::DynamicImportExpression => true,
                        StatementKind::Other => false,
                    };
                    proof {
                        let pre = statements@.take(i as int);
                        let post = statements@.take(i + 1);
                        let cur = statements@[i as int];
                        assert(post =~= pre.push(cur));
                        assert(module_like == (cur is ModuleDeclaration
                            || cur is DynamicImportExpression));
                        if all_module_like(pre) && module_like {
                            assert forall|j: int| 0 <= j < post.len() implies ((
                            #[trigger] post[j]) is ModuleDeclaration
                                || post[j] is DynamicImportExpression) by {
                                if j < pre.len() {
                                    assert(post[j] == pre[j]);
                                } else {
                                    assert(post[j] == cur);
                                }
                            }
                        }
                        if all_module_like(post) {
                            assert forall|j: int| 0 <= j < pre.len() implies ((
                            #[trigger] pre[j]) is ModuleDeclaration
                                || pre[j] is DynamicImportExpression) by {
                                assert(pre[j] == post[j]);
                            }
                            assert(post[i as int] == cur);
                        }
                        assert(all_module_like(post) == (all_module_like(pre) && module_like));
                    }
                    facade = facade && module_like;
                    i = i + 1;
                }
                proof {
                    assert(statements@.take(statements@.len() as int) =~= statements@);
                }
                self.result.facade = facade;
                proof {
                    assert(self.result@ =~= node_step(
                        old(self).result@,
                        *node,
                        old(self).chars(),
                    ));
                }
            },
            ModuleNode::ImportDeclaration { start, end, source, attributes_anchor } => {
                self.result.has_module_syntax = true;
                let ghost st1 = self.result@;
                proof {
                    assert(st1 =~= (SpecParseResult {
                        has_module_syntax: true,
                        ..old(self).result@
                    }));
                }
                let se = self.adjust_statement_end(*end);
                let a: i32 = match attributes_anchor {
                    Some(k) => {
                        proof {
                            lemma_scan_forward_found(
                                self.chars(),
                                *k as int,
                                CURLY_BRACE_LEFT,
                            );
                        }
                        self.find_index_by_char(
                            *k as usize,
                            CURLY_BRACE_LEFT,
                            FindIndexByCharType::Next,
                        ) as i32
                    },
                    None => -1,
                };
                let import = Import {
                    n: Some(source.value.clone()),
                    s: source.start + 1,
                    e: source.end - 1,
                    ss: *start,
                    se,
                    d: -1,
                    a,
                };
                proof {
                    assert(import@ =~= import_decl_raw(
                        self.chars(),
                        *start as int,
                        *end as int,
                        *source,
                        *attributes_anchor,
                    ));
                }
                self.add_import(import);
            },
            ModuleNode::ExportDefaultDeclaration { exported, local } => {
                self.result.has_module_syntax = true;
                self.result.facade = false;
                let ghost st1 = self.result@;
                proof {
                    assert(st1 =~= (SpecParseResult {
                        has_module_syntax: true,
                        facade: false,
                        ..old(self).result@
                    }));
                }
                let (ln, ls, le): (Option<String>, i32, i32) = match local {
                    Some(l) => (Some(l.name.clone()), l.start as i32, l.end as i32),
                    None => (None, -1, -1),
                };
                let export = Export {
                    n: Some(exported.name.clone()),
                    s: exported.start,
                    e: exported.end,
                    ln,
                    ls,
                    le,
                };
                proof {
                    assert(export@ =~= default_export_raw(*exported, *local));
                }
                self.add_export(export);
            },
            ModuleNode::ExportAllDeclaration { start, end, source, exported } => {
                self.result.has_module_syntax = true;
                let ghost st1 = self.result@;
                proof {
                    assert(st1 =~= (SpecParseResult {
                        has_module_syntax: true,
                        ..old(self).result@
                    }));
                }
                let se = self.adjust_statement_end(*end);
                let import = Import {
                    n: Some(source.value.clone()),
                    s: source.start + 1,
                    e: source.end - 1,
                    ss: *start,
                    se,
                    d: -1,
                    a: -1,
                };
                proof {
                    assert(import@ =~= reexport_import_raw(
                        self.chars(),
                        *start as int,
                        *end as int,
                        *source,
                    ));
                }
                self.add_import(import);
                match exported {
                    Some(x) => {
                        let export = Export {
                            n: Some(x.name.clone()),
                            s: x.start,
                            e: x.end,
                            ls: -1,
                            le: -1,
                            ln: None,
                        };
                        proof {
                            assert(export@ =~= reexport_name_raw(*x));
                        }
                        self.add_export(export);
                    },
                    None => {},
                }
            },
            ModuleNode::ExportNamedDeclaration { start, end, source, declaration, specifiers } => {
                self.result.has_module_syntax = true;
                let ghost st1 = self.result@;
                proof {
                    assert(st1 =~= (SpecParseResult {
                        has_module_syntax: true,
                        ..old(self).result@
                    }));
                }
                let has_import = match source {
                    Some(src) => {
                        let se = self.adjust_statement_end(*end);
                        let import = Import {
                            n: Some(src.value.clone()),
                            s: src.start + 1,
                            e: src.end - 1,
                            ss: *start,
                            se,
                            d: -1,
                            a: -1,
                        };
                        proof {
                            assert(import@ =~= reexport_import_raw(
                                self.chars(),
                                *start as int,
                                *end as int,
                                *src,
                            ));
                        }
                        self.add_import(import);
                        true
                    },
                    None => false,
                };
                match declaration {
                    DeclarationInfo::Absent => {},
                    DeclarationInfo::Unnamed => {
                        self.result.facade = false;
                    },
                    DeclarationInfo::Named(id) => {
                        self.result.facade = false;
                        let export = Export {
                            n: Some(id.name.clone()),
                            s: id.start,
                            e: id.end,
                            ln: Some(id.name.clone()),
                            ls: id.start as i32,
                            le: id.end as i32,
                        };
                        proof {
                            assert(export@ =~= local_binding_export_raw(*id));
                        }
                        self.add_export(export);
                    },
                }
                let ghost st3 = self.result@;
                let mut i: usize = 0;
                while i < specifiers.len()
                    invariant
                        i <= specifiers@.len(),
                        self.wf(),
                        self.source_text_chars@ == old(self).source_text_chars@,
                        self.byte_to_char@ == old(self).byte_to_char@,
                        self.result@ == push_specifier_exports(
                            st3,
                            specifiers@.take(i as int),
                            has_import,
                            old(self).chars(),
                        ),
                    decreases specifiers@.len() - i,
                {
                    let sp = &specifiers[i];
                    let (ln, ls, le): (Option<String>, i32, i32) = if has_import {
                        (None, -1, -1)
                    } else {
                        (Some(sp.local.name.clone()), sp.local.start as i32, sp.local.end as i32)
                    };
                    let export = Export {
                        n: Some(sp.exported.name.clone()),
                        s: sp.exported.start,
                        e: sp.exported.end,
                        ln,
                        ls,
                        le,
                    };
                    proof {
                        assert(export@ =~= specifier_export_raw(specifiers@[i as int], has_import));
                    }
                    self.add_export(export);
                    proof {
                        lemma_push_specifiers_snoc(
                            st3,
                            specifiers@.take(i as int),
                            specifiers@[i as int],
                            has_import,
                            old(self).chars(),
                        );
                        assert(specifiers@.take(i + 1) =~= specifiers@.take(i as int).push(
                            specifiers@[i as int],
                        ));
                    }
                    i = i + 1;
                }
                proof {
                    assert(specifiers@.take(specifiers@.len() as int) =~= specifiers@);
                }
            },
            ModuleNode::ImportExpression {
                start,
                end,
                source_start,
                source_end,
                source_value,
                has_options,
                options_object_start,
            } => {
                let se = self.adjust_statement_end(*end);
                proof {
                    lemma_scan_back_found(self.chars(), *source_start as int, BRACKET_LEFT);
                }
                let d = self.find_index_by_char(
                    *source_start as usize,
                    BRACKET_LEFT,
                    FindIndexByCharType::Last,
                ) as i32;
                let n: Option<String> = match source_value {
                    Some(v) => Some(v.clone()),
                    None => {
                        self.result.facade = false;
                        None
                    },
                };
                let a: i32 = if *has_options {
                    self.result.facade = false;
                    match options_object_start {
                        Some(o) => *o as i32,
                        None => -1,
                    }
                } else {
                    -1
                };
                let ghost st1 = self.result@;
                proof {
                    assert(st1 =~= (SpecParseResult {
                        facade: old(self).result@.facade && *source_value is Some
                            && !*has_options,
                        ..old(self).result@
                    }));
                }
                let import = Import {
                    n,
                    s: *source_start,
                    e: *source_end,
                    ss: *start,
                    se,
                    d,
                    a,
                };
                proof {
                    assert(import@ =~= dynamic_import_raw(
                        self.chars(),
                        *start as int,
                        *end as int,
                        *source_start as int,
                        *source_end as int,
                        *source_value,
                        *options_object_start,
                    ));
                }
                self.add_import(import);
            },
            ModuleNode::MetaProperty { start, end } => {
                self.result.has_module_syntax = true;
                let ghost st1 = self.result@;
                proof {
                    assert(st1 =~= (SpecParseResult {
                        has_module_syntax: true,
                        ..old(self).result@
                    }));
                }
                let import = Import {
                    n: None,
                    s: *start,
                    e: *end,
                    ss: *start,
                    se: *end,
                    d: -2,
                    a: -1,
                };
                proof {
                    assert(import@ =~= meta_import_raw(*start as int, *end as int));
                }
                self.add_import(import);
            },
            ModuleNode::OtherModuleDeclaration => {
                self.result.has_module_syntax = true;
                proof {
                    assert(self.result@ =~= (SpecParseResult {
                        has_module_syntax: true,
                        ..old(self).result@
                    }));
                }
            },
        }
    }

    /// Whether some byte offset at or after `from` holds `ch`.
    #[verifier::loop_isolation(false)]
    fn scan_can_find_forward(&self, from: usize, ch: char) -> (r: bool)
        requires
            self.wf(),
        ensures
            r == exists|p: int| from <= p && char_matches(self.chars(), p, ch),
    {
        let len = self.byte_to_char.len();
        let mut p = from;
        while p < len
            invariant
                from <= p,
                forall|q: int| from <= q < p ==> !char_matches(self.chars(), q, ch),
            decreases len - p,
        {
            proof {
                lemma_char_at_byte_bounds(self.chars(), p as int);
                lemma_byte_len_bounds(self.chars());
            }
            if self.source_text_chars[self.byte_to_char[p]] == ch {
                proof {
                    assert(char_matches(self.chars(), p as int, ch));
                }
                return true;
            }
            proof {
                assert(!char_matches(self.chars(), p as int, ch));
            }
            p = p + 1;
        }
        proof {
            assert forall|q: int| from <= q implies !char_matches(self.chars(), q, ch) by {
                if q >= p {
                    assert(!(q < byte_len(self.chars())));
                }
            }
        }
        false
    }

    /// Whether some byte offset at or before `upto` holds `ch`.
    #[verifier::loop_isolation(false)]
    fn scan_can_find_backward(&self, upto: usize, ch: char) -> (r: bool)
        requires
            self.wf(),
            upto < byte_len(self.chars()),
        ensures
            r == exists|p: int| 0 <= p <= upto && char_matches(self.chars(), p, ch),
    {
        let mut p = upto;
        loop
            invariant
                p <= upto,
                forall|q: int| p < q <= upto ==> !char_matches(self.chars(), q, ch),
            decreases p,
        {
            proof {
                lemma_char_at_byte_bounds(self.chars(), p as int);
                lemma_byte_len_bounds(self.chars());
            }
            if self.source_text_chars[self.byte_to_char[p]] == ch {
                proof {
                    assert(char_matches(self.chars(), p as int, ch));
                }
                return true;
            }
            proof {
                assert(!char_matches(self.chars(), p as int, ch));
            }
            if p == 0 {
                return false;
            }
            p = p - 1;
        }
    }

    /// Whether a name's span is inside the text: its end is followed by at
    /// least one more character.
    fn name_ref_ok(&self, n: &NameRef) -> (r: bool)
        requires
            self.wf(),
        ensures
            r == name_ref_wf(*n, self.chars()),
    {
        let len = self.byte_to_char.len() as u64;
        n.start <= n.end && (n.end as u64) < len
    }

    /// Whether a specifier's span holds at least its two quotes and ends
    /// inside the text.
    fn source_ref_ok(&self, src: &SourceRef) -> (r: bool)
        requires
            self.wf(),
        ensures
            r == source_ref_wf(*src, self.chars()),
    {
        let len = self.byte_to_char.len() as u64;
        (src.start as u64) + 2 <= (src.end as u64) && (src.end as u64) <= len
    }

    /// Whether one node satisfies everything the visitor relies on of it.
    #[verifier::loop_isolation(false)]
    pub fn node_well_formed(&self, node: &ModuleNode) -> (r: bool)
        requires
            self.wf(),
        ensures
            r == node_wf(*node, self.chars()),
    {
        let len = self.byte_to_char.len() as u64;
        match node {
            ModuleNode::Program { .. } => true,
            ModuleNode::OtherModuleDeclaration => true,
            ModuleNode::ImportDeclaration { start, end, source, attributes_anchor } => {
                *start < *end && (*end as u64) <= len && self.source_ref_ok(source)
                    && (match attributes_anchor {
                    Some(k) => self.scan_can_find_forward(*k as usize, CURLY_BRACE_LEFT),
                    None => true,
                })
            },
            ModuleNode::ExportDefaultDeclaration { exported, local } => {
                self.name_ref_ok(exported) && (match local {
                    Some(l) => self.name_ref_ok(l),
                    None => true,
                })
            },
            ModuleNode::ExportAllDeclaration { start, end, source, exported } => {
                *start < *end && (*end as u64) <= len && self.source_ref_ok(source)
                    && (match exported {
                    Some(x) => self.name_ref_ok(x),
                    None => true,
                })
            },
            ModuleNode::ExportNamedDeclaration { start, end, source, declaration, specifiers } => {
                let mut ok = *start < *end && (*end as u64) <= len;
                ok = ok && (match source {
                    Some(src) => self.source_ref_ok(src),
                    None => true,
                });
                ok = ok && (match declaration {
                    DeclarationInfo::Named(id) => self.name_ref_ok(id),
                    _ => true,
                });
                if !ok {
                    return false;
                }
                let mut i: usize = 0;
                while i < specifiers.len()
                    invariant
                        self.wf(),
                        i <= specifiers@.len(),
                        forall|j: int|
                            0 <= j < i ==> {
                                &&& name_ref_wf((#[trigger] specifiers@[j]).local, self.chars())
                                &&& name_ref_wf(specifiers@[j].exported, self.chars())
                            },
                    decreases specifiers@.len() - i,
                {
                    let sp = &specifiers[i];
                    if !(self.name_ref_ok(&sp.local) && self.name_ref_ok(&sp.exported)) {
                        return false;
                    }
                    i = i + 1;
                }
                true
            },
            ModuleNode::ImportExpression {
                start,
                end,
                source_start,
                source_end,
                source_value,
                has_options,
                options_object_start,
            } => {
                let spans_ok = *start < *end && (*end as u64) <= len && *source_start
                    < *source_end && (*source_end as u64) <= len;
                if !spans_ok {
                    return false;
                }
                proof {
                    lemma_byte_len_bounds(self.chars());
                }
                self.scan_can_find_backward(*source_start as usize, BRACKET_LEFT) && (
                match options_object_start {
                    Some(o) => *has_options && (*o as u64) < len,
                    None => true,
                })
            },
            ModuleNode::MetaProperty { start, end } => *start < *end && (*end as u64) <= len,
        }
    }

    /// Whether every node of a parse satisfies what the visitor relies on:
    /// callers outside the proof establish [`Visitor::visit_nodes`]'s
    /// precondition with this.
    pub fn nodes_well_formed(&self, nodes: &Vec<ModuleNode>) -> (r: bool)
        requires
            self.wf(),
        ensures
            r == nodes_wf(nodes@, self.chars()),
    {
        let mut i: usize = 0;
        while i < nodes.len()
            invariant
                self.wf(),
                i <= nodes@.len(),
                forall|j: int| 0 <= j < i ==> node_wf(#[trigger] nodes@[j], self.chars()),
            decreases nodes@.len() - i,
        {
            if !self.node_well_formed(&nodes[i]) {
                return false;
            }
            i = i + 1;
        }
        true
    }

    /// Run the whole pass: every node of the parse, in document order.
    pub fn visit_nodes(&mut self, nodes: &Vec<ModuleNode>)
        requires
            old(self).wf(),
            nodes_wf(nodes@, old(self).chars()),
        ensures
            final(self).wf(),
            final(self).source_text_chars@ == old(self).source_text_chars@,
            final(self).byte_to_char@ == old(self).byte_to_char@,
            final(self).result@ == visit_fold(old(self).result@, nodes@, old(self).chars()),
    {
        let ghost st0 = self.result@;
        let mut i: usize = 0;
        while i < nodes.len()
            invariant
                i <= nodes@.len(),
                self.wf(),
                nodes_wf(nodes@, old(self).chars()),
                self.source_text_chars@ == old(self).source_text_chars@,
                self.byte_to_char@ == old(self).byte_to_char@,
                self.result@ == visit_fold(st0, nodes@.take(i as int), old(self).chars()),
            decreases nodes@.len() - i,
        {
            proof {
                assert(self.chars() =~= old(self).chars());
                assert(node_wf(nodes@[i as int], old(self).chars()));
            }
            self.enter_node(&nodes[i]);
            proof {
                lemma_visit_fold_snoc(
                    st0,
                    nodes@.take(i as int),
                    nodes@[i as int],
                    old(self).chars(),
                );
                assert(nodes@.take(i + 1) =~= nodes@.take(i as int).push(nodes@[i as int]));
            }
            i = i + 1;
        }
        proof {
            assert(nodes@.take(nodes@.len() as int) =~= nodes@);
        }
    }
}

} // verus!
