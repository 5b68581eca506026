//! The library's stated laws: what holds of every pass, proved once over the
//! fold that [`crate::visitor::Visitor::visit_nodes`] is specified by.

use vstd::prelude::*;

use crate::nodes::{
    name_ref_wf, node_wf, nodes_wf, DeclarationInfo, ExportSpecifierRef, ModuleNode, NameRef,
    SourceRef,
};
use crate::offsets::{
    byte_len, char_at_byte, lemma_char_at_byte_bounds, lemma_char_at_byte_mono,
    lemma_scan_back_found, lemma_scan_forward_found, scan_back, scan_forward, translate,
};
use crate::visitor::{
    adjust_end, all_module_like, empty_result, finalize_export, node_step, push_export,
    push_import, push_specifier_exports, specifier_export_raw, visit_fold, SpecExport, SpecImport,
    SpecParseResult,
};

verus! {

/// Whether a node is module syntax: any import/export declaration or an
/// `import.meta` reference.  A bare dynamic `import(…)` call is a plain
/// expression, not module syntax.
pub open spec fn is_module_syntax_node(node: ModuleNode) -> bool {
    match node {
        ModuleNode::Program { .. } => false,
        ModuleNode::ImportDeclaration { .. } => true,
        ModuleNode::ExportDefaultDeclaration { .. } => true,
        ModuleNode::ExportAllDeclaration { .. } => true,
        ModuleNode::ExportNamedDeclaration { .. } => true,
        ModuleNode::ImportExpression { .. } => false,
        ModuleNode::MetaProperty { .. } => true,
        ModuleNode::OtherModuleDeclaration => true,
    }
}

/// Whether a node revokes the facade flag: a default export, a named export
/// carrying a local declaration, or a dynamic import whose source is not a
/// string literal or that passes options.
pub open spec fn revokes_facade(node: ModuleNode) -> bool {
    match node {
        ModuleNode::ExportDefaultDeclaration { .. } => true,
        ModuleNode::ExportNamedDeclaration { declaration, .. } => !(declaration is Absent),
        ModuleNode::ImportExpression { source_value, has_options, .. } => source_value is None
            || has_options,
        _ => false,
    }
}

/// The specifier fold in closed form: it appends exactly one finalized
/// record per specifier and touches nothing else.
pub proof fn lemma_push_specifiers_closed(
    st: SpecParseResult,
    sps: Seq<ExportSpecifierRef>,
    has_import: bool,
    chars: Seq<char>,
)
    ensures
        push_specifier_exports(st, sps, has_import, chars) == (SpecParseResult {
            exports: st.exports + sps.map_values(
                |sp: ExportSpecifierRef| finalize_export(chars, specifier_export_raw(sp, has_import)),
            ),
            ..st
        }),
    decreases sps.len(),
{
    let f = |sp: ExportSpecifierRef| finalize_export(chars, specifier_export_raw(sp, has_import));
    if sps.len() == 0 {
        assert(st.exports + sps.map_values(f) =~= st.exports);
        assert(push_specifier_exports(st, sps, has_import, chars) =~= (SpecParseResult {
            exports: st.exports + sps.map_values(f),
            ..st
        }));
    } else {
        let st1 = push_export(st, f(sps[0]));
        lemma_push_specifiers_closed(st1, sps.drop_first(), has_import, chars);
        assert(st.exports.push(f(sps[0])) + sps.drop_first().map_values(f) =~= st.exports
            + sps.map_values(f));
        assert(push_specifier_exports(st, sps, has_import, chars) =~= (SpecParseResult {
            exports: st.exports + sps.map_values(f),
            ..st
        }));
    }
}

/// One step never removes or reorders what is already in the result: records
/// are only appended.
pub proof fn lemma_node_step_appends(st: SpecParseResult, node: ModuleNode, chars: Seq<char>)
    ensures
        node_step(st, node, chars).imports.len() >= st.imports.len(),
        node_step(st, node, chars).exports.len() >= st.exports.len(),
        forall|k: int|
            0 <= k < st.imports.len() ==> node_step(st, node, chars).imports[k] == st.imports[k],
        forall|k: int|
            0 <= k < st.exports.len() ==> node_step(st, node, chars).exports[k] == st.exports[k],
{
    match node {
        ModuleNode::ExportNamedDeclaration { start, end, source, declaration, specifiers } => {
            let st1 = SpecParseResult { has_module_syntax: true, ..st };
            let st2 = match source {
                Some(src) => push_import(
                    st1,
                    crate::visitor::finalize_import(
                        chars,
                        crate::visitor::reexport_import_raw(chars, start as int, end as int, src),
                    ),
                ),
                None => st1,
            };
            let st3 = match declaration {
                DeclarationInfo::Absent => st2,
                DeclarationInfo::Unnamed => SpecParseResult { facade: false, ..st2 },
                DeclarationInfo::Named(id) => push_export(
                    SpecParseResult { facade: false, ..st2 },
                    finalize_export(chars, crate::visitor::local_binding_export_raw(id)),
                ),
            };
            lemma_push_specifiers_closed(st3, specifiers@, source is Some, chars);
        },
        _ => {},
    }
}

/// What the whole pass does to the records already accumulated: nothing.
/// Every record present before the pass is still present, unchanged and in
/// place, afterwards; the pass only appends.
pub proof fn lemma_fold_appends(st: SpecParseResult, nodes: Seq<ModuleNode>, chars: Seq<char>)
    ensures
        visit_fold(st, nodes, chars).imports.len() >= st.imports.len(),
        visit_fold(st, nodes, chars).exports.len() >= st.exports.len(),
        forall|k: int|
            0 <= k < st.imports.len() ==> visit_fold(st, nodes, chars).imports[k]
                == st.imports[k],
        forall|k: int|
            0 <= k < st.exports.len() ==> visit_fold(st, nodes, chars).exports[k]
                == st.exports[k],
    decreases nodes.len(),
{
    if nodes.len() > 0 {
        lemma_node_step_appends(st, nodes[0], chars);
        lemma_fold_appends(node_step(st, nodes[0], chars), nodes.drop_first(), chars);
    }
}

/// One step's effect on `has_module_syntax`: set iff the node is module
/// syntax, never cleared.
pub proof fn lemma_node_step_hms(st: SpecParseResult, node: ModuleNode, chars: Seq<char>)
    ensures
        node_step(st, node, chars).has_module_syntax == (st.has_module_syntax
            || is_module_syntax_node(node)),
{
    match node {
        ModuleNode::ExportNamedDeclaration { start, end, source, declaration, specifiers } => {
            lemma_node_step_appends(st, node, chars);
            let st1 = SpecParseResult { has_module_syntax: true, ..st };
            let st2 = match source {
                Some(src) => push_import(
                    st1,
                    crate::visitor::finalize_import(
                        chars,
                        crate::visitor::reexport_import_raw(chars, start as int, end as int, src),
                    ),
                ),
                None => st1,
            };
            let st3 = match declaration {
                DeclarationInfo::Absent => st2,
                DeclarationInfo::Unnamed => SpecParseResult { facade: false, ..st2 },
                DeclarationInfo::Named(id) => push_export(
                    SpecParseResult { facade: false, ..st2 },
                    finalize_export(chars, crate::visitor::local_binding_export_raw(id)),
                ),
            };
            lemma_push_specifiers_closed(st3, specifiers@, source is Some, chars);
        },
        _ => {},
    }
}

/// `has_module_syntax` holds of a pass exactly when it held before or some
/// node is module syntax (a static import, any export, or `import.meta`);
/// dynamic `import(…)` calls alone never set it.
pub proof fn lemma_fold_hms(st: SpecParseResult, nodes: Seq<ModuleNode>, chars: Seq<char>)
    ensures
        visit_fold(st, nodes, chars).has_module_syntax == (st.has_module_syntax || exists|i: int|
            0 <= i < nodes.len() && is_module_syntax_node(#[trigger] nodes[i])),
    decreases nodes.len(),
{
    if nodes.len() == 0 {
    } else {
        lemma_node_step_hms(st, nodes[0], chars);
        let st1 = node_step(st, nodes[0], chars);
        lemma_fold_hms(st1, nodes.drop_first(), chars);
        let rest = nodes.drop_first();
        if exists|j: int| 0 <= j < rest.len() && is_module_syntax_node(#[trigger] rest[j]) {
            let j = choose|j: int| 0 <= j < rest.len() && is_module_syntax_node(#[trigger] rest[j]);
            assert(nodes[j + 1] == rest[j]);
            assert(is_module_syntax_node(nodes[j + 1]));
        }
        if is_module_syntax_node(nodes[0]) {
            assert(exists|i: int|
                0 <= i < nodes.len() && is_module_syntax_node(#[trigger] nodes[i]));
        }
        if exists|i: int| 0 <= i < nodes.len() && is_module_syntax_node(#[trigger] nodes[i]) {
            let i = choose|i: int|
                0 <= i < nodes.len() && is_module_syntax_node(#[trigger] nodes[i]);
            if i > 0 {
                assert(rest[i - 1] == nodes[i]);
                assert(exists|j: int|
                    0 <= j < rest.len() && is_module_syntax_node(#[trigger] rest[j]));
            }
        }
    }
}

/// A file has module syntax exactly when its parse holds a static import,
/// any export declaration, or an `import.meta` reference; a file whose only
/// module-looking construct is a dynamic `import(…)` call does not.
pub proof fn lemma_has_module_syntax_iff(nodes: Seq<ModuleNode>, chars: Seq<char>)
    ensures
        visit_fold(empty_result(), nodes, chars).has_module_syntax == exists|i: int|
            0 <= i < nodes.len() && is_module_syntax_node(#[trigger] nodes[i]),
{
    lemma_fold_hms(empty_result(), nodes, chars);
}

/// One non-root step's effect on the facade flag: kept unless the node
/// revokes it, never restored.
pub proof fn lemma_node_step_facade(st: SpecParseResult, node: ModuleNode, chars: Seq<char>)
    requires
        !(node is Program),
    ensures
        node_step(st, node, chars).facade == (st.facade && !revokes_facade(node)),
{
    match node {
        ModuleNode::ExportNamedDeclaration { start, end, source, declaration, specifiers } => {
            let st1 = SpecParseResult { has_module_syntax: true, ..st };
            let st2 = match source {
                Some(src) => push_import(
                    st1,
                    crate::visitor::finalize_import(
                        chars,
                        crate::visitor::reexport_import_raw(chars, start as int, end as int, src),
                    ),
                ),
                None => st1,
            };
            let st3 = match declaration {
                DeclarationInfo::Absent => st2,
                DeclarationInfo::Unnamed => SpecParseResult { facade: false, ..st2 },
                DeclarationInfo::Named(id) => push_export(
                    SpecParseResult { facade: false, ..st2 },
                    finalize_export(chars, crate::visitor::local_binding_export_raw(id)),
                ),
            };
            lemma_push_specifiers_closed(st3, specifiers@, source is Some, chars);
        },
        _ => {},
    }
}

/// Over nodes below the root, the facade flag is the conjunction of what it
/// was with every node not revoking it.
pub proof fn lemma_fold_facade(st: SpecParseResult, nodes: Seq<ModuleNode>, chars: Seq<char>)
    requires
        forall|i: int| 0 <= i < nodes.len() ==> !((#[trigger] nodes[i]) is Program),
    ensures
        visit_fold(st, nodes, chars).facade == (st.facade && forall|i: int|
            0 <= i < nodes.len() ==> !revokes_facade(#[trigger] nodes[i])),
    decreases nodes.len(),
{
    if nodes.len() == 0 {
    } else {
        lemma_node_step_facade(st, nodes[0], chars);
        let st1 = node_step(st, nodes[0], chars);
        let rest = nodes.drop_first();
        lemma_fold_facade(st1, rest, chars);
        if forall|j: int| 0 <= j < rest.len() ==> !revokes_facade(#[trigger] rest[j]) {
            assert forall|i: int|
                1 <= i < nodes.len() implies !revokes_facade(#[trigger] nodes[i]) by {
                assert(nodes[i] == rest[i - 1]);
            }
        }
        if forall|i: int| 0 <= i < nodes.len() ==> !revokes_facade(#[trigger] nodes[i]) {
            assert forall|j: int| 0 <= j < rest.len() implies !revokes_facade(
                #[trigger] rest[j],
            ) by {
                assert(rest[j] == nodes[j + 1]);
            }
        }
    }
}

/// A file consisting solely of module declarations without local bindings —
/// static imports and `export { … } from '…'` re-exports — is always
/// reported as a facade.
pub proof fn lemma_pure_reexports_are_facade(nodes: Seq<ModuleNode>, chars: Seq<char>)
    requires
        nodes.len() > 0,
        nodes[0] matches ModuleNode::Program { statements } && all_module_like(statements@),
        forall|i: int|
            1 <= i < nodes.len() ==> ((#[trigger] nodes[i]) is ImportDeclaration || (nodes[i]
                matches ModuleNode::ExportNamedDeclaration { declaration, .. }
                && declaration is Absent)),
    ensures
        visit_fold(empty_result(), nodes, chars).facade,
{
    let st1 = node_step(empty_result(), nodes[0], chars);
    assert(st1.facade);
    let rest = nodes.drop_first();
    assert forall|j: int| 0 <= j < rest.len() implies !((#[trigger] rest[j]) is Program)
        && !revokes_facade(rest[j]) by {
        assert(rest[j] == nodes[j + 1]);
    }
    lemma_fold_facade(st1, rest, chars);
}

/// A default export, a named export carrying a local declaration, or a
/// dynamic import whose source is not a string literal (or that passes
/// options) makes the file no facade, wherever it stands after the root.
pub proof fn lemma_local_bindings_revoke_facade(nodes: Seq<ModuleNode>, chars: Seq<char>)
    requires
        forall|i: int| 1 <= i < nodes.len() ==> !((#[trigger] nodes[i]) is Program),
        exists|i: int| 0 <= i < nodes.len() && revokes_facade(#[trigger] nodes[i]),
    ensures
        !visit_fold(empty_result(), nodes, chars).facade,
{
    let i = choose|i: int| 0 <= i < nodes.len() && revokes_facade(#[trigger] nodes[i]);
    assert(nodes.len() > 0);
    let st1 = node_step(empty_result(), nodes[0], chars);
    let rest = nodes.drop_first();
    assert forall|j: int| 0 <= j < rest.len() implies !((#[trigger] rest[j]) is Program) by {
        assert(rest[j] == nodes[j + 1]);
    }
    lemma_fold_facade(st1, rest, chars);
    if i == 0 {
        if nodes[0] is Program {
            assert(!revokes_facade(nodes[0]));
        } else {
            lemma_node_step_facade(empty_result(), nodes[0], chars);
            assert(!st1.facade);
        }
    } else {
        assert(rest[i - 1] == nodes[i]);
        assert(revokes_facade(rest[i - 1]));
        assert(!(forall|j: int| 0 <= j < rest.len() ==> !revokes_facade(#[trigger] rest[j])));
    }
}

/// Every offset of a finalized import record is a codepoint index within
/// the source text, in order, or one of the defined sentinels.
pub open spec fn import_bounded(imp: SpecImport, n: int) -> bool {
    &&& 0 <= imp.s <= imp.e <= n
    &&& 0 <= imp.ss <= imp.se <= n
    &&& imp.d == -1 || imp.d == -2 || 0 <= imp.d <= n
    &&& imp.a == -1 || 0 <= imp.a <= n
}

/// Every offset of a finalized export record is a codepoint index within
/// the source text, in order, or the local span is wholly absent.
pub open spec fn export_bounded(exp: SpecExport, n: int) -> bool {
    &&& 0 <= exp.s <= exp.e <= n
    &&& ((exp.ls == -1 && exp.le == -1) || (0 <= exp.ls <= exp.le <= n))
}

/// The spans a node's records are cut from end before the text's last byte.
/// (A statement flush against the end of the file keeps its raw byte end,
/// which over multi-byte text is no codepoint index; such files are the one
/// shape this bound does not cover.)
pub open spec fn node_ends_inside(node: ModuleNode, chars: Seq<char>) -> bool {
    match node {
        ModuleNode::ImportDeclaration { end, .. } => end < byte_len(chars),
        ModuleNode::ExportAllDeclaration { end, .. } => end < byte_len(chars),
        ModuleNode::ExportNamedDeclaration { end, .. } => end < byte_len(chars),
        ModuleNode::ImportExpression { end, source_end, .. } => end < byte_len(chars)
            && source_end < byte_len(chars),
        ModuleNode::MetaProperty { end, .. } => end < byte_len(chars),
        _ => true,
    }
}

/// A byte offset inside the text translates to a character index inside it.
proof fn lemma_translate_in_range(chars: Seq<char>, b: int)
    requires
        0 <= b < byte_len(chars),
    ensures
        0 <= translate(chars, b) < chars.len(),
{
    lemma_char_at_byte_bounds(chars, b);
}

/// Translation keeps the order of byte offsets inside the text.
proof fn lemma_translate_mono(chars: Seq<char>, b1: int, b2: int)
    requires
        0 <= b1 <= b2 < byte_len(chars),
    ensures
        translate(chars, b1) <= translate(chars, b2),
{
    lemma_char_at_byte_mono(chars, b1, b2);
}

/// The records one step appends all have their offsets in range.
proof fn lemma_node_step_bounded(st: SpecParseResult, node: ModuleNode, chars: Seq<char>)
    requires
        node_wf(node, chars),
        node_ends_inside(node, chars),
    ensures
        forall|k: int|
            st.imports.len() <= k < node_step(st, node, chars).imports.len()
                ==> import_bounded(#[trigger] node_step(st, node, chars).imports[k], chars.len() as int),
        forall|k: int|
            st.exports.len() <= k < node_step(st, node, chars).exports.len()
                ==> export_bounded(#[trigger] node_step(st, node, chars).exports[k], chars.len() as int),
{
    let n = chars.len() as int;
    match node {
        ModuleNode::Program { .. } => {},
        ModuleNode::OtherModuleDeclaration => {},
        ModuleNode::ImportDeclaration { start, end, source, attributes_anchor } => {
            lemma_translate_in_range(chars, source.start + 1);
            lemma_translate_in_range(chars, source.end - 1);
            lemma_translate_mono(chars, source.start + 1, source.end - 1);
            lemma_translate_in_range(chars, start as int);
            lemma_translate_in_range(chars, end - 1);
            lemma_translate_in_range(chars, adjust_end(chars, end as int));
            lemma_translate_mono(chars, start as int, adjust_end(chars, end as int));
            match attributes_anchor {
                Some(k) => {
                    lemma_scan_forward_found(chars, k as int, crate::constants::CURLY_BRACE_LEFT);
                    lemma_translate_in_range(
                        chars,
                        scan_forward(chars, k as int, crate::constants::CURLY_BRACE_LEFT),
                    );
                },
                None => {},
            }
        },
        ModuleNode::ExportDefaultDeclaration { exported, local } => {
            lemma_translate_in_range(chars, exported.start as int);
            lemma_translate_in_range(chars, exported.end as int);
            lemma_translate_mono(chars, exported.start as int, exported.end as int);
            match local {
                Some(l) => {
                    lemma_translate_in_range(chars, l.start as int);
                    lemma_translate_in_range(chars, l.end as int);
                    lemma_translate_mono(chars, l.start as int, l.end as int);
                },
                None => {},
            }
        },
        ModuleNode::ExportAllDeclaration { start, end, source, exported } => {
            lemma_translate_in_range(chars, source.start + 1);
            lemma_translate_in_range(chars, source.end - 1);
            lemma_translate_mono(chars, source.start + 1, source.end - 1);
            lemma_translate_in_range(chars, start as int);
            lemma_translate_in_range(chars, end - 1);
            lemma_translate_in_range(chars, adjust_end(chars, end as int));
            lemma_translate_mono(chars, start as int, adjust_end(chars, end as int));
            match exported {
                Some(x) => {
                    lemma_translate_in_range(chars, x.start as int);
                    lemma_translate_in_range(chars, x.end as int);
                    lemma_translate_mono(chars, x.start as int, x.end as int);
                },
                None => {},
            }
        },
        ModuleNode::ExportNamedDeclaration { start, end, source, declaration, specifiers } => {
            let st1 = SpecParseResult { has_module_syntax: true, ..st };
            let st2 = match source {
                Some(src) => push_import(
                    st1,
                    crate::visitor::finalize_import(
                        chars,
                        crate::visitor::reexport_import_raw(chars, start as int, end as int, src),
                    ),
                ),
                None => st1,
            };
            let st3 = match declaration {
                DeclarationInfo::Absent => st2,
                DeclarationInfo::Unnamed => SpecParseResult { facade: false, ..st2 },
                DeclarationInfo::Named(id) => push_export(
                    SpecParseResult { facade: false, ..st2 },
                    finalize_export(chars, crate::visitor::local_binding_export_raw(id)),
                ),
            };
            lemma_push_specifiers_closed(st3, specifiers@, source is Some, chars);
            match source {
                Some(src) => {
                    lemma_translate_in_range(chars, src.start + 1);
                    lemma_translate_in_range(chars, src.end - 1);
                    lemma_translate_mono(chars, src.start + 1, src.end - 1);
                    lemma_translate_in_range(chars, start as int);
                    lemma_translate_in_range(chars, end - 1);
                    lemma_translate_in_range(chars, adjust_end(chars, end as int));
                    lemma_translate_mono(chars, start as int, adjust_end(chars, end as int));
                },
                None => {},
            }
            match declaration {
                DeclarationInfo::Named(id) => {
                    lemma_translate_in_range(chars, id.start as int);
                    lemma_translate_in_range(chars, id.end as int);
                    lemma_translate_mono(chars, id.start as int, id.end as int);
                },
                _ => {},
            }
            let f = |sp: ExportSpecifierRef|
                finalize_export(chars, specifier_export_raw(sp, source is Some));
            assert forall|k: int|
                st3.exports.len() <= k < node_step(st, node, chars).exports.len()
                    implies export_bounded(
                #[trigger] node_step(st, node, chars).exports[k],
                n,
            ) by {
                let j = k - st3.exports.len();
                assert(node_step(st, node, chars).exports[k] == specifiers@.map_values(f)[j]);
                assert(specifiers@.map_values(f)[j] == f(specifiers@[j]));
                let sp = specifiers@[j];
                assert(name_ref_wf(sp.local, chars) && name_ref_wf(sp.exported, chars));
                lemma_translate_in_range(chars, sp.exported.start as int);
                lemma_translate_in_range(chars, sp.exported.end as int);
                lemma_translate_mono(chars, sp.exported.start as int, sp.exported.end as int);
                if !(source is Some) {
                    lemma_translate_in_range(chars, sp.local.start as int);
                    lemma_translate_in_range(chars, sp.local.end as int);
                    lemma_translate_mono(chars, sp.local.start as int, sp.local.end as int);
                }
            }
        },
        ModuleNode::ImportExpression {
            start,
            end,
            source_start,
            source_end,
            source_value,
            has_options,
            options_object_start,
        } => {
            lemma_translate_in_range(chars, source_start as int);
            lemma_translate_in_range(chars, source_end as int);
            lemma_translate_mono(chars, source_start as int, source_end as int);
            lemma_translate_in_range(chars, start as int);
            lemma_translate_in_range(chars, end - 1);
            lemma_translate_in_range(chars, adjust_end(chars, end as int));
            lemma_translate_mono(chars, start as int, adjust_end(chars, end as int));
            lemma_scan_back_found(chars, source_start as int, crate::constants::BRACKET_LEFT);
            lemma_translate_in_range(
                chars,
                scan_back(chars, source_start as int, crate::constants::BRACKET_LEFT),
            );
            match options_object_start {
                Some(o) => {
                    lemma_translate_in_range(chars, o as int);
                },
                None => {},
            }
        },
        ModuleNode::MetaProperty { start, end } => {
            lemma_translate_in_range(chars, start as int);
            lemma_translate_in_range(chars, end as int);
            lemma_translate_mono(chars, start as int, end as int);
        },
    }
}

/// The records a whole pass appends all have their offsets in range.
proof fn lemma_fold_bounded(st: SpecParseResult, nodes: Seq<ModuleNode>, chars: Seq<char>)
    requires
        nodes_wf(nodes, chars),
        forall|i: int| 0 <= i < nodes.len() ==> node_ends_inside(#[trigger] nodes[i], chars),
    ensures
        forall|k: int|
            st.imports.len() <= k < visit_fold(st, nodes, chars).imports.len()
                ==> import_bounded(
                #[trigger] visit_fold(st, nodes, chars).imports[k],
                chars.len() as int,
            ),
        forall|k: int|
            st.exports.len() <= k < visit_fold(st, nodes, chars).exports.len()
                ==> export_bounded(
                #[trigger] visit_fold(st, nodes, chars).exports[k],
                chars.len() as int,
            ),
    decreases nodes.len(),
{
    if nodes.len() > 0 {
        let st1 = node_step(st, nodes[0], chars);
        let rest = nodes.drop_first();
        assert(node_wf(nodes[0], chars) && node_ends_inside(nodes[0], chars));
        assert forall|j: int|
            0 <= j < rest.len() implies node_wf(#[trigger] rest[j], chars) && node_ends_inside(
            rest[j],
            chars,
        ) by {
            assert(rest[j] == nodes[j + 1]);
        }
        lemma_node_step_bounded(st, nodes[0], chars);
        lemma_node_step_appends(st, nodes[0], chars);
        lemma_fold_bounded(st1, rest, chars);
        lemma_fold_appends(st1, rest, chars);
        let n = chars.len() as int;
        assert(visit_fold(st, nodes, chars) == visit_fold(st1, rest, chars));
        assert forall|k: int|
            st.imports.len() <= k < visit_fold(st, nodes, chars).imports.len()
                implies import_bounded(#[trigger] visit_fold(st, nodes, chars).imports[k], n) by {
            if k < st1.imports.len() {
                assert(visit_fold(st1, rest, chars).imports[k] == st1.imports[k]);
                assert(import_bounded(node_step(st, nodes[0], chars).imports[k], n));
            } else {
                assert(import_bounded(visit_fold(st1, rest, chars).imports[k], n));
            }
        }
        assert forall|k: int|
            st.exports.len() <= k < visit_fold(st, nodes, chars).exports.len()
                implies export_bounded(#[trigger] visit_fold(st, nodes, chars).exports[k], n) by {
            if k < st1.exports.len() {
                assert(visit_fold(st1, rest, chars).exports[k] == st1.exports[k]);
                assert(export_bounded(node_step(st, nodes[0], chars).exports[k], n));
            } else {
                assert(export_bounded(visit_fold(st1, rest, chars).exports[k], n));
            }
        }
    }
}

/// For all valid module source whose statements do not end flush against
/// the end of the text, every offset of every record of a pass is a
/// codepoint index satisfying `0 <= start <= end <= length`, or one of the
/// defined sentinel values (`-1`, `-2`).
pub proof fn lemma_record_offsets_in_range(nodes: Seq<ModuleNode>, chars: Seq<char>)
    requires
        nodes_wf(nodes, chars),
        forall|i: int| 0 <= i < nodes.len() ==> node_ends_inside(#[trigger] nodes[i], chars),
    ensures
        forall|k: int|
            0 <= k < visit_fold(empty_result(), nodes, chars).imports.len() ==> import_bounded(
                #[trigger] visit_fold(empty_result(), nodes, chars).imports[k],
                chars.len() as int,
            ),
        forall|k: int|
            0 <= k < visit_fold(empty_result(), nodes, chars).exports.len() ==> export_bounded(
                #[trigger] visit_fold(empty_result(), nodes, chars).exports[k],
                chars.len() as int,
            ),
{
    lemma_fold_bounded(empty_result(), nodes, chars);
}

/// The parser guarantee a round trip rests on: a specifier's reported text
/// is exactly the source text strictly between its quotes.
pub open spec fn source_text_matches(src: SourceRef, chars: Seq<char>) -> bool {
    chars.subrange(char_at_byte(chars, src.start + 1), char_at_byte(chars, src.end - 1))
        == src.value@
}

/// The parser guarantee for a name: it is spelled as a bare identifier and
/// its reported text is exactly the source text of its span.  (A name
/// spelled as a string literal reports its text without the quotes while
/// its span includes them, so no such claim holds of it.)
pub open spec fn name_text_matches(n: NameRef, chars: Seq<char>) -> bool {
    &&& n.identifier
    &&& chars.subrange(char_at_byte(chars, n.start as int), char_at_byte(chars, n.end as int))
        == n.name@
}

/// Every literal text a node carries matches the source at its span.
pub open spec fn node_names_match(node: ModuleNode, chars: Seq<char>) -> bool {
    match node {
        ModuleNode::ImportDeclaration { source, .. } => source_text_matches(source, chars),
        ModuleNode::ExportDefaultDeclaration { exported, local } => {
            &&& name_text_matches(exported, chars)
            &&& match local {
                Some(l) => name_text_matches(l, chars),
                None => true,
            }
        },
        ModuleNode::ExportAllDeclaration { source, exported, .. } => {
            &&& source_text_matches(source, chars)
            &&& match exported {
                Some(x) => name_text_matches(x, chars),
                None => true,
            }
        },
        ModuleNode::ExportNamedDeclaration { source, declaration, specifiers, .. } => {
            &&& match source {
                Some(src) => source_text_matches(src, chars),
                None => true,
            }
            &&& match declaration {
                DeclarationInfo::Named(id) => name_text_matches(id, chars),
                _ => true,
            }
            &&& forall|i: int|
                0 <= i < specifiers@.len() ==> {
                    &&& name_text_matches((#[trigger] specifiers@[i]).local, chars)
                    &&& name_text_matches(specifiers@[i].exported, chars)
                }
        },
        _ => true,
    }
}

/// The round trip of a static import record: the source substring at its
/// name span is its reported specifier text.
pub open spec fn import_round_trip(imp: SpecImport, chars: Seq<char>) -> bool {
    imp.d == -1 && imp.n is Some ==> chars.subrange(imp.s, imp.e) == imp.n.unwrap()
}

/// The round trip of an export record: the source substrings at its name
/// and local spans are its reported names.
pub open spec fn export_round_trip(exp: SpecExport, chars: Seq<char>) -> bool {
    &&& (exp.n is Some ==> chars.subrange(exp.s, exp.e) == exp.n.unwrap())
    &&& (exp.ln is Some ==> chars.subrange(exp.ls, exp.le) == exp.ln.unwrap())
}

/// The records one step appends all round-trip.
proof fn lemma_node_step_round_trip(st: SpecParseResult, node: ModuleNode, chars: Seq<char>)
    requires
        node_wf(node, chars),
        node_names_match(node, chars),
    ensures
        forall|k: int|
            st.imports.len() <= k < node_step(st, node, chars).imports.len()
                ==> import_round_trip(#[trigger] node_step(st, node, chars).imports[k], chars),
        forall|k: int|
            st.exports.len() <= k < node_step(st, node, chars).exports.len()
                ==> export_round_trip(#[trigger] node_step(st, node, chars).exports[k], chars),
{
    match node {
        ModuleNode::Program { .. } => {},
        ModuleNode::OtherModuleDeclaration => {},
        ModuleNode::ImportDeclaration { start, end, source, attributes_anchor } => {
            lemma_char_at_byte_bounds(chars, source.start + 1);
            lemma_char_at_byte_bounds(chars, source.end - 1);
        },
        ModuleNode::ExportDefaultDeclaration { exported, local } => {
            lemma_char_at_byte_bounds(chars, exported.start as int);
            lemma_char_at_byte_bounds(chars, exported.end as int);
            match local {
                Some(l) => {
                    lemma_char_at_byte_bounds(chars, l.start as int);
                    lemma_char_at_byte_bounds(chars, l.end as int);
                },
                None => {},
            }
        },
        ModuleNode::ExportAllDeclaration { start, end, source, exported } => {
            lemma_char_at_byte_bounds(chars, source.start + 1);
            lemma_char_at_byte_bounds(chars, source.end - 1);
            match exported {
                Some(x) => {
                    lemma_char_at_byte_bounds(chars, x.start as int);
                    lemma_char_at_byte_bounds(chars, x.end as int);
                },
                None => {},
            }
        },
        ModuleNode::ExportNamedDeclaration { start, end, source, declaration, specifiers } => {
            let st1 = SpecParseResult { has_module_syntax: true, ..st };
            let st2 = match source {
                Some(src) => push_import(
                    st1,
                    crate::visitor::finalize_import(
                        chars,
                        crate::visitor::reexport_import_raw(chars, start as int, end as int, src),
                    ),
                ),
                None => st1,
            };
            let st3 = match declaration {
                DeclarationInfo::Absent => st2,
                DeclarationInfo::Unnamed => SpecParseResult { facade: false, ..st2 },
                DeclarationInfo::Named(id) => push_export(
                    SpecParseResult { facade: false, ..st2 },
                    finalize_export(chars, crate::visitor::local_binding_export_raw(id)),
                ),
            };
            lemma_push_specifiers_closed(st3, specifiers@, source is Some, chars);
            match source {
                Some(src) => {
                    lemma_char_at_byte_bounds(chars, src.start + 1);
                    lemma_char_at_byte_bounds(chars, src.end - 1);
                },
                None => {},
            }
            match declaration {
                DeclarationInfo::Named(id) => {
                    lemma_char_at_byte_bounds(chars, id.start as int);
                    lemma_char_at_byte_bounds(chars, id.end as int);
                },
                _ => {},
            }
            let f = |sp: ExportSpecifierRef|
                finalize_export(chars, specifier_export_raw(sp, source is Some));
            assert forall|k: int|
                st3.exports.len() <= k < node_step(st, node, chars).exports.len()
                    implies export_round_trip(
                #[trigger] node_step(st, node, chars).exports[k],
                chars,
            ) by {
                let j = k - st3.exports.len();
                assert(node_step(st, node, chars).exports[k] == specifiers@.map_values(f)[j]);
                assert(specifiers@.map_values(f)[j] == f(specifiers@[j]));
                let sp = specifiers@[j];
                assert(name_ref_wf(sp.local, chars) && name_ref_wf(sp.exported, chars));
                assert(name_text_matches(sp.local, chars) && name_text_matches(
                    sp.exported,
                    chars,
                ));
                lemma_char_at_byte_bounds(chars, sp.exported.start as int);
                lemma_char_at_byte_bounds(chars, sp.exported.end as int);
                if !(source is Some) {
                    lemma_char_at_byte_bounds(chars, sp.local.start as int);
                    lemma_char_at_byte_bounds(chars, sp.local.end as int);
                }
            }
        },
        ModuleNode::ImportExpression {
            start,
            end,
            source_start,
            source_end,
            source_value,
            has_options,
            options_object_start,
        } => {
            lemma_scan_back_found(chars, source_start as int, crate::constants::BRACKET_LEFT);
            lemma_char_at_byte_bounds(
                chars,
                scan_back(chars, source_start as int, crate::constants::BRACKET_LEFT),
            );
        },
        ModuleNode::MetaProperty { .. } => {},
    }
}

/// The records a whole pass appends all round-trip.
proof fn lemma_fold_round_trip(st: SpecParseResult, nodes: Seq<ModuleNode>, chars: Seq<char>)
    requires
        nodes_wf(nodes, chars),
        forall|i: int| 0 <= i < nodes.len() ==> node_names_match(#[trigger] nodes[i], chars),
    ensures
        forall|k: int|
            st.imports.len() <= k < visit_fold(st, nodes, chars).imports.len()
                ==> import_round_trip(#[trigger] visit_fold(st, nodes, chars).imports[k], chars),
        forall|k: int|
            st.exports.len() <= k < visit_fold(st, nodes, chars).exports.len()
                ==> export_round_trip(#[trigger] visit_fold(st, nodes, chars).exports[k], chars),
    decreases nodes.len(),
{
    if nodes.len() > 0 {
        let st1 = node_step(st, nodes[0], chars);
        let rest = nodes.drop_first();
        assert(node_wf(nodes[0], chars) && node_names_match(nodes[0], chars));
        assert forall|j: int|
            0 <= j < rest.len() implies node_wf(#[trigger] rest[j], chars) && node_names_match(
            rest[j],
            chars,
        ) by {
            assert(rest[j] == nodes[j + 1]);
        }
        lemma_node_step_round_trip(st, nodes[0], chars);
        lemma_node_step_appends(st, nodes[0], chars);
        lemma_fold_round_trip(st1, rest, chars);
        lemma_fold_appends(st1, rest, chars);
        assert(visit_fold(st, nodes, chars) == visit_fold(st1, rest, chars));
        assert forall|k: int|
            st.imports.len() <= k < visit_fold(st, nodes, chars).imports.len()
                implies import_round_trip(
            #[trigger] visit_fold(st, nodes, chars).imports[k],
            chars,
        ) by {
            if k < st1.imports.len() {
                assert(visit_fold(st1, rest, chars).imports[k] == st1.imports[k]);
                assert(import_round_trip(node_step(st, nodes[0], chars).imports[k], chars));
            } else {
                assert(import_round_trip(visit_fold(st1, rest, chars).imports[k], chars));
            }
        }
        assert forall|k: int|
            st.exports.len() <= k < visit_fold(st, nodes, chars).exports.len()
                implies export_round_trip(
            #[trigger] visit_fold(st, nodes, chars).exports[k],
            chars,
        ) by {
            if k < st1.exports.len() {
                assert(visit_fold(st1, rest, chars).exports[k] == st1.exports[k]);
                assert(export_round_trip(node_step(st, nodes[0], chars).exports[k], chars));
            } else {
                assert(export_round_trip(visit_fold(st1, rest, chars).exports[k], chars));
            }
        }
    }
}

/// Round trip: when the parser's literals match the source text (and every
/// exported name is spelled as a bare identifier), the source substring at
/// any record's name span equals its reported name — for every static
/// import's specifier and for every export's name and local name.
pub proof fn lemma_name_round_trip(nodes: Seq<ModuleNode>, chars: Seq<char>)
    requires
        nodes_wf(nodes, chars),
        forall|i: int| 0 <= i < nodes.len() ==> node_names_match(#[trigger] nodes[i], chars),
    ensures
        forall|k: int|
            0 <= k < visit_fold(empty_result(), nodes, chars).imports.len() ==> import_round_trip(
                #[trigger] visit_fold(empty_result(), nodes, chars).imports[k],
                chars,
            ),
        forall|k: int|
            0 <= k < visit_fold(empty_result(), nodes, chars).exports.len() ==> export_round_trip(
                #[trigger] visit_fold(empty_result(), nodes, chars).exports[k],
                chars,
            ),
{
    lemma_fold_round_trip(empty_result(), nodes, chars);
}

} // verus!
