//! Semantic analysis: dependency discovery across imports, definitions,
//! symbol resolution, and the checks that span a whole program.
//!
//! Analysis runs in two passes over every file. The first registers every
//! definition, so that the second can resolve references regardless of the
//! order in which things are defined.

use vstd::prelude::*;
use std::sync::Arc;
use crate::models::{
    hash_name, share, spec_hash_name, ArtifactClass, Cardinality, Constant, DiagnosticModel,
    DiagnosticTag, DiagnosticWithContext, Error, FileId, FlowStep, Function, FunctionModel, Group,
    GroupModel, Kind, KindModel, ProgramStructure, Severity, Span, StructureModel, SymbolMetadata,
    SymbolModel, Token, TokenModel, Variable, diagnostic_models, flow_models, token_models,
    clone_opt_string, clone_group_ref,
};
use crate::parser::{
    item_at, lemma_scan_bounds, program_from, skip_blank, extent_within, extents_within, item_views, items_within, outputs_within, output_views,
    parse_chars, parse_program, tokens_within, token_within, DefinitionKind, Extent, Item, ItemModel,
    OutputLine, OutputLineModel, TokenNode,
};
use crate::source_manager::{opt_string_view, SourceManager};
use crate::text::{
    chars_of, decimal, join, lemma_join_push, push_decimal_usize, string_from_chars, text_of,
    trim_range, trimmed,
};

verus! {

// --- Outside calls ---

/// What `Url::join` of the url crate gives for a relative reference against
/// a base URI, as a string; `None` where the base does not parse or the
/// reference cannot be resolved.
pub uninterp spec fn joined_uri(base: Seq<char>, relative: Seq<char>) -> Option<Seq<char>>;

/// Resolves `relative` against `base` with `Url::parse` and `Url::join` of
/// the url crate (through tower-lsp). The result is named, not described.
#[verifier::external_body]
pub(crate) fn join_uri(base: &str, relative: &str) -> (r: Option<String>)
    ensures
        opt_string_view(r) == joined_uri(base@, relative@),
{
    match tower_lsp::lsp_types::Url::parse(base) {
        Ok(b) => match b.join(relative) {
            Ok(u) => Some(u.to_string()),
            Err(_) => None,
        },
        Err(_) => None,
    }
}

/// The `Debug` text of `Some(url)` for the parsed URI, as the url crate
/// writes it; `None` where the URI does not parse.
pub uninterp spec fn uri_debug(uri: Seq<char>) -> Option<Seq<char>>;

/// Formats `Some(&url)` with `{:?}` after `Url::parse` of the url crate.
#[verifier::external_body]
fn debug_uri(uri: &str) -> (r: Option<String>)
    ensures
        opt_string_view(r) == uri_debug(uri@),
{
    match tower_lsp::lsp_types::Url::parse(uri) {
        Ok(u) => Some(format!("{:?}", Some(&u))),
        Err(_) => None,
    }
}

// --- The model of analysis ---

/// The byte offset of character `i` of a text.
pub open spec fn byte_pos(s: Seq<char>, i: int) -> usize {
    crate::text::utf8_len(s.take(i)) as usize
}

/// The span of an extent of a text, in bytes.
pub open spec fn span_of(file: FileId, s: Seq<char>, e: Extent) -> Span {
    Span { file_id: file, start: byte_pos(s, e.start as int), end: byte_pos(s, e.end as int) }
}

pub open spec fn text(s: Seq<char>, e: Extent) -> Seq<char> {
    s.subrange(e.start as int, e.end as int)
}

/// The first position of `[a, b)` that is not `#`, or `b`.
pub open spec fn skip_hashes(s: Seq<char>, a: int, b: int) -> int
    decreases b - a,
{
    if a < b && s[a] == '#' {
        skip_hashes(s, a + 1, b)
    } else {
        a
    }
}

/// A documentation line without its leading `#`s and surrounding white space.
pub open spec fn doc_text(s: Seq<char>, d: Extent) -> Seq<char> {
    trimmed(s, skip_hashes(s, d.start as int, d.end as int), d.end as int)
}

pub open spec fn doc_texts(s: Seq<char>, docs: Seq<Extent>) -> Seq<Seq<char>> {
    docs.map_values(|d: Extent| doc_text(s, d))
}

/// The documentation of a definition: its lines joined by newlines, if any.
pub open spec fn collected_docs(s: Seq<char>, docs: Seq<Extent>) -> Option<Seq<char>> {
    if docs.len() == 0 {
        None
    } else {
        Some(join(doc_texts(s, docs), seq!['\n']))
    }
}

pub open spec fn error_diagnostic(file: FileId, span: Option<Span>, message: Seq<char>) -> DiagnosticModel {
    DiagnosticModel { file_id: file, span, message, severity: Severity::Error, tags: Seq::empty() }
}

pub open spec fn add_error(m: StructureModel, file: FileId, span: Option<Span>, message: Seq<char>) -> StructureModel {
    StructureModel { diagnostics: m.diagnostics.push(error_diagnostic(file, span, message)), ..m }
}

/// Whether a name is taken by an artifact, a group or a function.
pub open spec fn is_defined(m: StructureModel, name: Seq<char>) -> bool {
    m.artifacts.contains_key(name) || m.groups.contains_key(name) || m.catalog.contains_key(name)
}

pub open spec fn duplicate_message(name: Seq<char>) -> Seq<char> {
    "Symbol '"@ + name + "' is already defined."@
}

/// Records one more place where the symbol `uid` is written.
pub open spec fn add_occurrence(m: StructureModel, uid: u32, span: Span) -> StructureModel {
    if m.symbols.contains_key(uid) {
        let meta = m.symbols[uid];
        with_symbol(m, uid, SymbolModel { occurrences: meta.occurrences.push(span), ..meta })
    } else {
        m
    }
}

/// Stores a symbol; a new identifier goes to the end of the symbol order.
pub open spec fn with_symbol(m: StructureModel, uid: u32, meta: SymbolModel) -> StructureModel {
    StructureModel {
        symbols: m.symbols.insert(uid, meta),
        symbol_order: if m.symbols.contains_key(uid) {
            m.symbol_order
        } else {
            m.symbol_order.push(uid)
        },
        ..m
    }
}

/// A new symbol, defined and written once at `span`.
pub open spec fn new_symbol(name: Seq<char>, span: Span) -> SymbolModel {
    SymbolModel { name, definition: span, occurrences: seq![span] }
}

pub open spec fn class_of(kind: DefinitionKind) -> ArtifactClass {
    match kind {
        DefinitionKind::Constant => ArtifactClass::Constant,
        DefinitionKind::Variable => ArtifactClass::Variable,
        _ => ArtifactClass::Error,
    }
}

/// `constant`, `variable` or `error`: a new artifact, unless the name is taken.
pub open spec fn define_type(
    m: StructureModel,
    file: FileId,
    s: Seq<char>,
    kind: DefinitionKind,
    docs: Seq<Extent>,
    name: Extent,
) -> StructureModel {
    let n = text(s, name);
    let span = span_of(file, s, name);
    if is_defined(m, n) {
        add_error(m, file, Some(span), duplicate_message(n))
    } else {
        let k = KindModel { class: class_of(kind), uid: spec_hash_name(n), name: n, docs: collected_docs(s, docs) };
        StructureModel { artifacts: m.artifacts.insert(n, k), ..with_symbol(m, k.uid, new_symbol(n, span)) }
    }
}

/// `group`: a new group, unless the name is taken.
pub open spec fn define_group(m: StructureModel, file: FileId, s: Seq<char>, docs: Seq<Extent>, name: Extent) -> StructureModel {
    let n = text(s, name);
    let span = span_of(file, s, name);
    if is_defined(m, n) {
        add_error(m, file, Some(span), duplicate_message(n))
    } else {
        let g = GroupModel { uid: spec_hash_name(n), name: n, docs: collected_docs(s, docs) };
        StructureModel { groups: m.groups.insert(n, g), ..with_symbol(m, g.uid, new_symbol(n, span)) }
    }
}

pub open spec fn undefined_group_message(name: Seq<char>) -> Seq<char> {
    "Undefined group: '"@ + name + "'"@
}

/// The group a function names, when it is defined.
pub open spec fn named_group(m: StructureModel, s: Seq<char>, group: Option<Extent>) -> Option<GroupModel> {
    match group {
        Some(g) => if m.groups.contains_key(text(s, g)) {
            Some(m.groups[text(s, g)])
        } else {
            None
        },
        None => None,
    }
}

/// Resolves the group prefix of a function: an occurrence of the group, or an error.
pub open spec fn resolve_group(m: StructureModel, file: FileId, s: Seq<char>, group: Option<Extent>) -> StructureModel {
    match group {
        Some(g) => {
            let gn = text(s, g);
            if m.groups.contains_key(gn) {
                add_occurrence(m, m.groups[gn].uid, span_of(file, s, g))
            } else {
                add_error(m, file, Some(span_of(file, s, g)), undefined_group_message(gn))
            }
        },
        None => m,
    }
}

/// `function`, first pass: the function without its contract, unless the name is taken.
pub open spec fn define_function(
    m: StructureModel,
    file: FileId,
    s: Seq<char>,
    docs: Seq<Extent>,
    group: Option<Extent>,
    name: Extent,
) -> StructureModel {
    let m1 = resolve_group(m, file, s, group);
    let n = text(s, name);
    let span = span_of(file, s, name);
    if is_defined(m1, n) {
        add_error(m1, file, Some(span), duplicate_message(n))
    } else {
        let f = FunctionModel {
            uid: spec_hash_name(n),
            name: n,
            docs: collected_docs(s, docs),
            consumes: Seq::empty(),
            produces: Seq::empty(),
            group: named_group(m, s, group),
        };
        StructureModel { catalog: m1.catalog.insert(n, f), ..with_symbol(m1, f.uid, new_symbol(n, span)) }
    }
}

/// The first pass over one item.
pub open spec fn definition_step(m: StructureModel, file: FileId, s: Seq<char>, it: ItemModel) -> StructureModel {
    match it {
        ItemModel::Definition { kind, docs, name, .. } => if kind is Group {
            define_group(m, file, s, docs, name)
        } else {
            define_type(m, file, s, kind, docs, name)
        },
        ItemModel::Function { docs, group, name, .. } => define_function(m, file, s, docs, group, name),
        _ => m,
    }
}

/// The first pass over the items of a file, in order.
pub open spec fn definitions(m: StructureModel, file: FileId, s: Seq<char>, items: Seq<ItemModel>) -> StructureModel
    decreases items.len(),
{
    if items.len() == 0 {
        m
    } else {
        definition_step(definitions(m, file, s, items.drop_last()), file, s, items.last())
    }
}

pub open spec fn syntax_message() -> Seq<char> {
    "Syntax Error: expected an import, a definition, a function, a comment or a flow step"@
}

/// The first pass over a file: its definitions, or the syntax error where it does not parse.
pub open spec fn first_pass(m: StructureModel, file: FileId, content: Option<Seq<char>>) -> StructureModel {
    match content {
        Some(s) => match parse_program(s) {
            Ok(items) => definitions(m, file, s, items),
            Err(p) => add_error(m, file, Some(Span { file_id: file, start: byte_pos(s, p), end: byte_pos(s, p) }), syntax_message()),
        },
        None => m,
    }
}

/// The identifier of one use of an artifact: the hash of
/// `function:direction:index:artifact`.
pub open spec fn token_uid(func: Seq<char>, dir: Seq<char>, i: nat, name: Seq<char>) -> u32 {
    spec_hash_name(func + ":"@ + dir + ":"@ + decimal(i) + ":"@ + name)
}

/// The artifact a token names, its cardinality, and where the name is written.
pub open spec fn token_parts(s: Seq<char>, t: TokenNode) -> (Seq<char>, Cardinality, Extent) {
    if t.collection {
        (text(s, t.name), Cardinality::Collection, t.name)
    } else {
        (text(s, t.extent), Cardinality::Unitary, t.extent)
    }
}

pub open spec fn undefined_artifact_message(name: Seq<char>) -> Seq<char> {
    "Undefined artifact: '"@ + name + "'. All types must be defined before use."@
}

/// Resolves the tokens of a list: each defined artifact becomes a token and
/// an occurrence; each undefined one an error.
pub open spec fn resolve_tokens(
    m: StructureModel,
    file: FileId,
    s: Seq<char>,
    func: Seq<char>,
    dir: Seq<char>,
    ts: Seq<TokenNode>,
) -> (StructureModel, Seq<TokenModel>)
    decreases ts.len(),
{
    if ts.len() == 0 {
        (m, Seq::empty())
    } else {
        let prev = resolve_tokens(m, file, s, func, dir, ts.drop_last());
        let m1 = prev.0;
        let (n, card, e) = token_parts(s, ts.last());
        let span = span_of(file, s, e);
        if m1.artifacts.contains_key(n) {
            let k = m1.artifacts[n];
            (
                add_occurrence(m1, k.uid, span),
                prev.1.push(TokenModel { uid: token_uid(func, dir, (ts.len() - 1) as nat, n), kind: k, cardinality: card }),
            )
        } else {
            (add_error(m1, file, Some(span), undefined_artifact_message(n)), prev.1)
        }
    }
}

pub open spec fn output_dir(i: nat) -> Seq<char> {
    "out_"@ + decimal(i)
}

/// Resolves the output branches of a function, in order.
pub open spec fn resolve_outputs(
    m: StructureModel,
    file: FileId,
    s: Seq<char>,
    func: Seq<char>,
    outs: Seq<OutputLineModel>,
) -> (StructureModel, Seq<Seq<TokenModel>>)
    decreases outs.len(),
{
    if outs.len() == 0 {
        (m, Seq::empty())
    } else {
        let prev = resolve_outputs(m, file, s, func, outs.drop_last());
        let r = resolve_tokens(prev.0, file, s, func, output_dir((outs.len() - 1) as nat), outs.last().tokens);
        (r.0, prev.1.push(r.1))
    }
}

/// `function`, second pass: the contract of the function named at `name`.
pub open spec fn link_function(
    m: StructureModel,
    file: FileId,
    s: Seq<char>,
    name: Extent,
    inputs: Seq<TokenNode>,
    outputs: Seq<OutputLineModel>,
) -> StructureModel {
    let n = text(s, name);
    let ins = resolve_tokens(m, file, s, n, "in"@, inputs);
    let outs = resolve_outputs(ins.0, file, s, n, outputs);
    let m2 = outs.0;
    if m2.catalog.contains_key(n) {
        StructureModel {
            catalog: m2.catalog.insert(n, FunctionModel { consumes: ins.1, produces: outs.1, ..m2.catalog[n] }),
            ..m2
        }
    } else {
        m2
    }
}

pub open spec fn undefined_function_message(name: Seq<char>) -> Seq<char> {
    "Undefined function: '"@ + name + "'"@
}

/// A flow step: appended to the flow, and resolved to its function.
pub open spec fn add_flow_step(m: StructureModel, file: FileId, s: Seq<char>, e: Extent) -> StructureModel {
    let n = trimmed(s, e.start as int, e.end as int);
    if n.len() == 0 {
        m
    } else {
        let span = span_of(file, s, e);
        let m1 = StructureModel { flow: m.flow.push((n, span)), ..m };
        if m1.catalog.contains_key(n) {
            add_occurrence(m1, m1.catalog[n].uid, span)
        } else {
            add_error(m1, file, Some(span), undefined_function_message(n))
        }
    }
}

/// The second pass over one item.
pub open spec fn resolution_step(m: StructureModel, file: FileId, s: Seq<char>, it: ItemModel) -> StructureModel {
    match it {
        ItemModel::Function { name, inputs, outputs, .. } => link_function(m, file, s, name, inputs, outputs),
        ItemModel::FlowStep { extent, .. } => add_flow_step(m, file, s, extent),
        _ => m,
    }
}

/// The second pass over the items of a file, in order.
pub open spec fn resolutions(m: StructureModel, file: FileId, s: Seq<char>, items: Seq<ItemModel>) -> StructureModel
    decreases items.len(),
{
    if items.len() == 0 {
        m
    } else {
        resolution_step(resolutions(m, file, s, items.drop_last()), file, s, items.last())
    }
}

/// The second pass over a file; a file that does not parse is left to the first pass.
pub open spec fn second_pass(m: StructureModel, file: FileId, content: Option<Seq<char>>) -> StructureModel {
    match content {
        Some(s) => match parse_program(s) {
            Ok(items) => resolutions(m, file, s, items),
            Err(_) => m,
        },
        None => m,
    }
}

pub open spec fn unused_warning(meta: SymbolModel) -> DiagnosticModel {
    DiagnosticModel {
        file_id: meta.definition.file_id,
        span: Some(meta.definition),
        message: "Unused symbol: '"@ + meta.name + "'"@,
        severity: Severity::Warning,
        tags: seq![DiagnosticTag::Unnecessary],
    }
}

/// A warning for every symbol written only where it is defined, in the
/// order in which the symbols were defined.
pub open spec fn unused_warnings(symbols: Map<u32, SymbolModel>, order: Seq<u32>) -> Seq<DiagnosticModel>
    decreases order.len(),
{
    if order.len() == 0 {
        Seq::empty()
    } else {
        let prev = unused_warnings(symbols, order.drop_last());
        let meta = symbols[order.last()];
        if meta.occurrences.len() == 1 {
            prev.push(unused_warning(meta))
        } else {
            prev
        }
    }
}

/// The unused-symbol check over a structure.
pub open spec fn with_unused_warnings(m: StructureModel) -> StructureModel {
    StructureModel { diagnostics: m.diagnostics + unused_warnings(m.symbols, m.symbol_order), ..m }
}

} // verus!

verus! {

/// The orchestrator of analysis: the files, and the structure built from them.
#[derive(Debug)]
pub struct Workspace {
    /// File contents and identifiers.
    pub source_manager: SourceManager,
    /// The structure of the program analyzed last.
    pub structure: ProgramStructure,
    /// The URI the last analysis started from.
    pub current_root: Option<String>,
}

/// `b` holds the files and the root of `a`, and its symbol table is well
/// formed when that of `a` is.
pub open spec fn preserves(a: Workspace, b: Workspace) -> bool {
    &&& a.source_manager == b.source_manager
    &&& a.current_root == b.current_root
    &&& a.structure.symbol_table.wf() ==> b.structure.symbol_table.wf()
}

/// `prefix` and `rest` as one string.
fn message2(prefix: &str, rest: &str) -> (r: String)
    ensures
        r@ == prefix@ + rest@,
{
    let mut m = String::from_str(prefix);
    m.append(rest);
    m
}

/// `prefix`, `middle` and `suffix` as one string.
fn message(prefix: &str, middle: &str, suffix: &str) -> (r: String)
    ensures
        r@ == prefix@ + middle@ + suffix@,
{
    let mut m = String::from_str(prefix);
    m.append(middle);
    m.append(suffix);
    m
}

/// The span, in bytes, of the characters `a..b` of a text.
fn byte_span(s: &Vec<char>, file_id: FileId, a: usize, b: usize) -> (sp: Span)
    requires
        a <= s@.len(),
        b <= s@.len(),
        crate::text::utf8_len(s@) <= usize::MAX,
    ensures
        sp == (Span { file_id, start: byte_pos(s@, a as int), end: byte_pos(s@, b as int) }),
{
    proof {
        crate::text::lemma_utf8_len_prefix(s@, a as int);
        crate::text::lemma_utf8_len_prefix(s@, b as int);
    }
    let start = crate::text::byte_offset(s, a);
    let end = crate::text::byte_offset(s, b);
    Span { file_id, start, end }
}

/// A syntax error stands at a character of the text.
proof fn lemma_error_position(s: Seq<char>, i: int)
    requires
        0 <= i <= s.len(),
    ensures
        program_from(s, i) matches Err(p) ==> 0 <= p < s.len(),
    decreases s.len() - i,
{
    lemma_scan_bounds(s, i);
    let a = skip_blank(s, i);
    if a < s.len() {
        match item_at(s, a) {
            Some((it, e)) => if i <= a < e <= s.len() {
                lemma_error_position(s, e);
            },
            None => {},
        }
    }
}

/// The metadata of a symbol defined and written once at `span`.
fn new_metadata(name: &String, span: Span) -> (meta: SymbolMetadata)
    ensures
        meta.model() == new_symbol(name@, span),
{
    let mut occurrences: Vec<Span> = Vec::new();
    occurrences.push(span);
    assert(occurrences@ =~= seq![span]);
    SymbolMetadata { name: name.clone(), definition_span: span, occurrences }
}

impl Workspace {
    /// A workspace with no files and an empty structure.
    pub fn new() -> (w: Self)
        ensures
            w.source_manager.wf(),
            w.source_manager.spec_next_id() == 1,
            forall|u: Seq<char>| #[trigger] w.source_manager.spec_id(u) is None,
            forall|id: FileId| #[trigger] w.source_manager.spec_content(id) is None,
            w.structure.artifacts.entries@.len() == 0,
            w.structure.groups.entries@.len() == 0,
            w.structure.catalog.entries@.len() == 0,
            w.structure.flow@.len() == 0,
            w.structure.symbol_table.entries@.len() == 0,
            w.structure.diagnostics@.len() == 0,
            w.current_root is None,
    {
        Workspace { source_manager: SourceManager::new(), structure: ProgramStructure::new(), current_root: None }
    }

    /// Records an error.
    fn report_error(&mut self, file_id: FileId, span: Option<Span>, msg: String)
        ensures
            final(self).structure@ == add_error(old(self).structure@, file_id, span, msg@),
            preserves(*old(self), *final(self)),
    {
        let ghost old_diags = self.structure.diagnostics@;
        let d = DiagnosticWithContext { file_id, span, message: msg, severity: Severity::Error, tags: Vec::new() };
        self.structure.diagnostics.push(d);
        assert(diagnostic_models(self.structure.diagnostics@) =~= diagnostic_models(old_diags).push(
            error_diagnostic(file_id, span, msg@),
        ));
        assert(self.structure@ =~= add_error(old(self).structure@, file_id, span, msg@));
    }

    /// Records one more place where the symbol `uid` is written.
    fn add_occurrence(&mut self, uid: u32, span: Span)
        ensures
            final(self).structure@ == add_occurrence(old(self).structure@, uid, span),
            preserves(*old(self), *final(self)),
    {
        let found = match self.structure.symbol_table.get(&uid) {
            Some(meta) => Some(meta.clone()),
            None => None,
        };
        match found {
            Some(meta) => {
                let mut meta = meta;
                meta.occurrences.push(span);
                let ghost nm = meta.model();
                self.structure.symbol_table.insert(uid, meta);
                assert(self.structure@.symbols =~= old(self).structure@.symbols.insert(uid, nm));
                assert(self.structure@ =~= add_occurrence(old(self).structure@, uid, span));
            },
            None => {
                assert(self.structure@ =~= add_occurrence(old(self).structure@, uid, span));
            },
        }
    }

    /// Reports a name that is already taken; returns whether it is.
    fn check_duplicate(&mut self, name: &str, span: Span) -> (taken: bool)
        ensures
            taken == is_defined(old(self).structure@, name@),
            final(self).structure@ == if taken {
                add_error(old(self).structure@, span.file_id, Some(span), duplicate_message(name@))
            } else {
                old(self).structure@
            },
            preserves(*old(self), *final(self)),
    {
        if self.structure.artifacts.contains_key(name) || self.structure.groups.contains_key(name)
            || self.structure.catalog.contains_key(name) {
            let msg = message("Symbol '", name, "' is already defined.");
            self.report_error(span.file_id, Some(span), msg);
            return true;
        }
        false
    }

    /// The documentation lines of a definition, without their `#`s, joined by newlines.
    fn collect_docs(&self, s: &Vec<char>, docs: &Vec<Extent>) -> (r: Option<String>)
        requires
            extents_within(docs@, s@.len()),
        ensures
            r.deep_view() == collected_docs(s@, docs@),
    {
        if docs.len() == 0 {
            return None;
        }
        let ghost parts = doc_texts(s@, docs@);
        let mut out: Vec<char> = Vec::new();
        let mut i: usize = 0;
        while i < docs.len()
            invariant
                0 <= i <= docs@.len(),
                extents_within(docs@, s@.len()),
                parts == doc_texts(s@, docs@),
                out@ == join(parts.take(i as int), seq!['\n']),
            decreases docs@.len() - i,
        {
            let ghost before = out@;
            if i > 0 {
                out.push('\n');
            }
            let d = docs[i];
            assert(extent_within(docs@[i as int], s@.len()));
            let mut a = d.start;
            while a < d.end && s[a] == '#'
                invariant
                    d.start <= a <= d.end,
                    d.end <= s@.len(),
                    skip_hashes(s@, d.start as int, d.end as int) == skip_hashes(s@, a as int, d.end as int),
                decreases d.end - a,
            {
                a = a + 1;
            }
            let (l, r) = trim_range(s, a, d.end);
            crate::text::push_range(&mut out, s, l, r);
            proof {
                assert(parts[i as int] == doc_text(s@, d));
                lemma_join_push(parts.take(i as int), parts[i as int], seq!['\n']);
                assert(parts.take(i + 1) =~= parts.take(i as int).push(parts[i as int]));
                assert(out@ =~= join(parts.take(i + 1), seq!['\n']));
            }
            i = i + 1;
        }
        assert(parts.take(i as int) =~= parts);
        Some(string_from_chars(&out))
    }

    /// Registers a `constant`, `variable` or `error` definition.
    fn define_type(&mut self, s: &Vec<char>, kind: DefinitionKind, docs: &Vec<Extent>, name: Extent, file_id: FileId)
        requires
            crate::text::utf8_len(s@) <= usize::MAX,
            extents_within(docs@, s@.len()),
            extent_within(name, s@.len()),
        ensures
            final(self).structure@ == define_type(old(self).structure@, file_id, s@, kind, docs@, name),
            preserves(*old(self), *final(self)),
    {
        let doc_str = self.collect_docs(s, docs);
        let name_str = text_of(s, name.start, name.end);
        let span = byte_span(s, file_id, name.start, name.end);
        if self.check_duplicate(name_str.as_str(), span) {
            return;
        }
        let k = match kind {
            DefinitionKind::Constant => Kind::Constant(Arc::new(Constant::new(name_str.clone(), doc_str))),
            DefinitionKind::Variable => Kind::Variable(Arc::new(Variable::new(name_str.clone(), doc_str))),
            _ => Kind::Error(Arc::new(Error::new(name_str.clone(), doc_str))),
        };
        let ghost km = k.model();
        let ghost m0 = self.structure@;
        let uid = k.uid();
        let meta = new_metadata(&name_str, span);
        self.structure.symbol_table.insert(uid, meta);
        self.structure.artifacts.insert(name_str, k);
        assert(self.structure@.symbols =~= m0.symbols.insert(uid, new_symbol(text(s@, name), span)));
        assert(self.structure@.artifacts =~= m0.artifacts.insert(text(s@, name), km));
        assert(self.structure@ =~= define_type(old(self).structure@, file_id, s@, kind, docs@, name));
    }
}

} // verus!

verus! {

impl Workspace {
    /// Registers a `group` definition.
    fn define_group(&mut self, s: &Vec<char>, docs: &Vec<Extent>, name: Extent, file_id: FileId)
        requires
            crate::text::utf8_len(s@) <= usize::MAX,
            extents_within(docs@, s@.len()),
            extent_within(name, s@.len()),
        ensures
            final(self).structure@ == define_group(old(self).structure@, file_id, s@, docs@, name),
            preserves(*old(self), *final(self)),
    {
        let doc_str = self.collect_docs(s, docs);
        let name_str = text_of(s, name.start, name.end);
        let span = byte_span(s, file_id, name.start, name.end);
        if self.check_duplicate(name_str.as_str(), span) {
            return;
        }
        let group = Arc::new(Group::new(name_str.clone(), doc_str));
        let ghost gm = group.model();
        let ghost m0 = self.structure@;
        let uid = group.uid;
        let meta = new_metadata(&name_str, span);
        self.structure.symbol_table.insert(uid, meta);
        self.structure.groups.insert(name_str, group);
        assert(self.structure@.symbols =~= m0.symbols.insert(uid, new_symbol(text(s@, name), span)));
        assert(self.structure@.groups =~= m0.groups.insert(text(s@, name), gm));
        assert(self.structure@ =~= define_group(old(self).structure@, file_id, s@, docs@, name));
    }

    /// Registers a function without its contract, resolving its group.
    fn define_function_skeleton(
        &mut self,
        s: &Vec<char>,
        docs: &Vec<Extent>,
        group: Option<Extent>,
        name: Extent,
        file_id: FileId,
    )
        requires
            crate::text::utf8_len(s@) <= usize::MAX,
            extents_within(docs@, s@.len()),
            group matches Some(g) ==> extent_within(g, s@.len()),
            extent_within(name, s@.len()),
        ensures
            final(self).structure@ == define_function(old(self).structure@, file_id, s@, docs@, group, name),
            preserves(*old(self), *final(self)),
    {
        let doc_str = self.collect_docs(s, docs);
        let mut grp: Option<Arc<Group>> = None;
        match group {
            Some(g) => {
                let g_name = text_of(s, g.start, g.end);
                let g_span = byte_span(s, file_id, g.start, g.end);
                let found = match self.structure.groups.get(g_name.as_str()) {
                    Some(found) => Some(share(found)),
                    None => None,
                };
                match found {
                    Some(gr) => {
                        let uid = gr.uid;
                        grp = Some(gr);
                        self.add_occurrence(uid, g_span);
                    },
                    None => {
                        let msg = message("Undefined group: '", g_name.as_str(), "'");
                        self.report_error(file_id, Some(g_span), msg);
                    },
                }
            },
            None => {},
        }
        assert(self.structure@ == resolve_group(old(self).structure@, file_id, s@, group));
        assert(crate::models::group_model(grp) == named_group(old(self).structure@, s@, group));
        let name_str = text_of(s, name.start, name.end);
        let span = byte_span(s, file_id, name.start, name.end);
        if self.check_duplicate(name_str.as_str(), span) {
            return;
        }
        let function = Arc::new(Function::new_skeleton(name_str.clone(), doc_str, grp));
        let ghost fm = function.model();
        assert(fm.consumes =~= Seq::<TokenModel>::empty());
        assert(fm.produces =~= Seq::<Seq<TokenModel>>::empty());
        let ghost m0 = self.structure@;
        let uid = function.uid;
        let meta = new_metadata(&name_str, span);
        self.structure.symbol_table.insert(uid, meta);
        self.structure.catalog.insert(name_str, function);
        assert(self.structure@.symbols =~= m0.symbols.insert(uid, new_symbol(text(s@, name), span)));
        assert(self.structure@.catalog =~= m0.catalog.insert(text(s@, name), fm));
        assert(self.structure@ =~= define_function(old(self).structure@, file_id, s@, docs@, group, name));
    }

    /// Resolves a token list: each defined artifact becomes a token whose
    /// identifier is the hash of `function:direction:index:artifact`.
    fn resolve_tokens(
        &mut self,
        s: &Vec<char>,
        tokens: &Vec<TokenNode>,
        file_id: FileId,
        ctx_func: &str,
        ctx_dir: &str,
    ) -> (r: Vec<Token>)
        requires
            crate::text::utf8_len(s@) <= usize::MAX,
            tokens_within(tokens@, s@.len()),
        ensures
            (final(self).structure@, token_models(r@)) == resolve_tokens(
                old(self).structure@,
                file_id,
                s@,
                ctx_func@,
                ctx_dir@,
                tokens@,
            ),
            preserves(*old(self), *final(self)),
    {
        let mut res: Vec<Token> = Vec::new();
        let mut i: usize = 0;
        while i < tokens.len()
            invariant
                crate::text::utf8_len(s@) <= usize::MAX,
                0 <= i <= tokens@.len(),
                tokens_within(tokens@, s@.len()),
                preserves(*old(self), *self),
                (self.structure@, token_models(res@)) == resolve_tokens(
                    old(self).structure@,
                    file_id,
                    s@,
                    ctx_func@,
                    ctx_dir@,
                    tokens@.take(i as int),
                ),
            decreases tokens@.len() - i,
        {
            let t = tokens[i];
            assert(token_within(tokens@[i as int], s@.len()));
            let (e, card) = if t.collection {
                (t.name, Cardinality::Collection)
            } else {
                (t.extent, Cardinality::Unitary)
            };
            let name = text_of(s, e.start, e.end);
            let span = byte_span(s, file_id, e.start, e.end);
            let ghost prev_tokens = token_models(res@);
            assert(tokens@.take(i + 1).drop_last() =~= tokens@.take(i as int));
            assert(tokens@.take(i + 1).last() == t);
            let found = match self.structure.artifacts.get(name.as_str()) {
                Some(kind) => Some(kind.clone()),
                None => None,
            };
            match found {
                Some(k) => {
                    self.add_occurrence(k.uid(), span);
                    let mut sig: Vec<char> = Vec::new();
                    crate::text::push_str(&mut sig, ctx_func);
                    sig.push(':');
                    crate::text::push_str(&mut sig, ctx_dir);
                    sig.push(':');
                    push_decimal_usize(&mut sig, i);
                    sig.push(':');
                    crate::text::push_str(&mut sig, name.as_str());
                    assert(sig@ =~= ctx_func@ + ":"@ + ctx_dir@ + ":"@ + decimal(i as nat) + ":"@ + name@) by {
                        reveal_strlit(":");
                    }
                    let sig_str = string_from_chars(&sig);
                    let uid = hash_name(sig_str.as_str());
                    let ghost km = k.model();
                    res.push(Token::new(k, card, uid));
                    assert(token_models(res@) =~= prev_tokens.push(
                        TokenModel { uid: token_uid(ctx_func@, ctx_dir@, i as nat, name@), kind: km, cardinality: card },
                    ));
                },
                None => {
                    let msg = message("Undefined artifact: '", name.as_str(), "'. All types must be defined before use.");
                    self.report_error(file_id, Some(span), msg);
                },
            }
            i = i + 1;
        }
        assert(tokens@.take(i as int) =~= tokens@);
        res
    }

    /// Links the contract of a function: its inputs and output branches.
    fn link_function_contracts(
        &mut self,
        s: &Vec<char>,
        name: Extent,
        inputs: &Vec<TokenNode>,
        outputs: &Vec<OutputLine>,
        file_id: FileId,
    )
        requires
            crate::text::utf8_len(s@) <= usize::MAX,
            extent_within(name, s@.len()),
            tokens_within(inputs@, s@.len()),
            outputs_within(output_views(outputs@), s@.len()),
        ensures
            final(self).structure@ == link_function(
                old(self).structure@,
                file_id,
                s@,
                name,
                inputs@,
                output_views(outputs@),
            ),
            preserves(*old(self), *final(self)),
    {
        let name_str = text_of(s, name.start, name.end);
        let consumes = self.resolve_tokens(s, inputs, file_id, name_str.as_str(), "in");
        let ghost after_inputs = self.structure@;
        let ghost outs = output_views(outputs@);
        let mut produces: Vec<Vec<Token>> = Vec::new();
        let mut i: usize = 0;
        while i < outputs.len()
            invariant
                crate::text::utf8_len(s@) <= usize::MAX,
                0 <= i <= outputs@.len(),
                outs == output_views(outputs@),
                outputs_within(outs, s@.len()),
                preserves(*old(self), *self),
                (self.structure@, crate::models::branch_models(produces@)) == resolve_outputs(
                    after_inputs,
                    file_id,
                    s@,
                    name_str@,
                    outs.take(i as int),
                ),
            decreases outputs@.len() - i,
        {
            let mut dir: Vec<char> = Vec::new();
            crate::text::push_str(&mut dir, "out_");
            push_decimal_usize(&mut dir, i);
            let dir_str = string_from_chars(&dir);
            assert(outs[i as int] == outputs@[i as int]@);
            assert(crate::parser::output_within(outs[i as int], s@.len()));
            let ghost prev = crate::models::branch_models(produces@);
            let list = self.resolve_tokens(s, &outputs[i].tokens, file_id, name_str.as_str(), dir_str.as_str());
            let ghost lm = token_models(list@);
            produces.push(list);
            assert(outs.take(i + 1).drop_last() =~= outs.take(i as int));
            assert(outs.take(i + 1).last() == outs[i as int]);
            assert(crate::models::branch_models(produces@) =~= prev.push(lm));
            i = i + 1;
        }
        assert(outs.take(i as int) =~= outs);
        let ghost m2 = self.structure@;
        let existing = match self.structure.catalog.get(name_str.as_str()) {
            Some(f) => Some(share(f)),
            None => None,
        };
        match existing {
            Some(f) => {
                let ghost fm = f.model();
                let nf = Function {
                    uid: f.uid,
                    name: f.name.clone(),
                    documentation: clone_opt_string(&f.documentation),
                    consumes,
                    produces,
                    group: clone_group_ref(&f.group),
                };
                let ghost nfm = nf.model();
                self.structure.catalog.insert(name_str, Arc::new(nf));
                assert(self.structure@.catalog =~= m2.catalog.insert(text(s@, name), nfm));
            },
            None => {},
        }
    }

    /// The first pass over a file: registers its definitions. A file that
    /// does not parse gets a syntax error at the position where no item starts.
    fn pass_definitions(&mut self, file_id: FileId)
        ensures
            final(self).structure@ == first_pass(
                old(self).structure@,
                file_id,
                old(self).source_manager.spec_content(file_id),
            ),
            preserves(*old(self), *final(self)),
    {
        let s = match self.source_manager.get_content(file_id) {
            Some(c) => {
                let _size = crate::text::utf8_size(c);
                chars_of(c)
            },
            None => {
                return;
            },
        };
        let items = match parse_chars(&s) {
            Ok(items) => items,
            Err(e) => {
                let msg = String::from_str(
                    "Syntax Error: expected an import, a definition, a function, a comment or a flow step",
                );
                proof {
                    lemma_error_position(s@, 0);
                }
                self.report_error(file_id, Some(byte_span(&s, file_id, e.position, e.position)), msg);
                return;
            },
        };
        let ghost iv = item_views(items@);
        let ghost m0 = self.structure@;
        let mut i: usize = 0;
        while i < items.len()
            invariant
                0 <= i <= items@.len(),
                iv == item_views(items@),
                items_within(iv, s@.len()),
                crate::text::utf8_len(s@) <= usize::MAX,
                preserves(*old(self), *self),
                self.structure@ == definitions(m0, file_id, s@, iv.take(i as int)),
            decreases items@.len() - i,
        {
            assert(iv[i as int] == items@[i as int]@);
            assert(iv[i as int].within(s@.len()));
            assert(iv.take(i + 1).drop_last() =~= iv.take(i as int));
            assert(iv.take(i + 1).last() == iv[i as int]);
            match &items[i] {
                Item::Definition { kind, docs, name, .. } => {
                    match kind {
                        DefinitionKind::Group => self.define_group(&s, docs, *name, file_id),
                        _ => self.define_type(&s, *kind, docs, *name, file_id),
                    }
                },
                Item::Function { docs, group, name, .. } => {
                    self.define_function_skeleton(&s, docs, *group, *name, file_id);
                },
                _ => {},
            }
            i = i + 1;
        }
        assert(iv.take(i as int) =~= iv);
    }

    /// The second pass over a file: links function contracts and builds the flow.
    fn pass_resolution(&mut self, file_id: FileId)
        ensures
            final(self).structure@ == second_pass(
                old(self).structure@,
                file_id,
                old(self).source_manager.spec_content(file_id),
            ),
            preserves(*old(self), *final(self)),
    {
        let s = match self.source_manager.get_content(file_id) {
            Some(c) => {
                let _size = crate::text::utf8_size(c);
                chars_of(c)
            },
            None => {
                return;
            },
        };
        let items = match parse_chars(&s) {
            Ok(items) => items,
            Err(_) => {
                return;
            },
        };
        let ghost iv = item_views(items@);
        let ghost m0 = self.structure@;
        let mut i: usize = 0;
        while i < items.len()
            invariant
                0 <= i <= items@.len(),
                iv == item_views(items@),
                items_within(iv, s@.len()),
                crate::text::utf8_len(s@) <= usize::MAX,
                preserves(*old(self), *self),
                self.structure@ == resolutions(m0, file_id, s@, iv.take(i as int)),
            decreases items@.len() - i,
        {
            assert(iv[i as int] == items@[i as int]@);
            assert(iv[i as int].within(s@.len()));
            assert(iv.take(i + 1).drop_last() =~= iv.take(i as int));
            assert(iv.take(i + 1).last() == iv[i as int]);
            match &items[i] {
                Item::Function { name, inputs, outputs, .. } => {
                    self.link_function_contracts(&s, *name, inputs, outputs, file_id);
                },
                Item::FlowStep { extent, .. } => {
                    self.add_flow_step(&s, *extent, file_id);
                },
                _ => {},
            }
            i = i + 1;
        }
        assert(iv.take(i as int) =~= iv);
    }

    /// Appends a flow step and resolves it to its function.
    fn add_flow_step(&mut self, s: &Vec<char>, e: Extent, file_id: FileId)
        requires
            crate::text::utf8_len(s@) <= usize::MAX,
            extent_within(e, s@.len()),
        ensures
            final(self).structure@ == add_flow_step(old(self).structure@, file_id, s@, e),
            preserves(*old(self), *final(self)),
    {
        let (l, r) = trim_range(s, e.start, e.end);
        if l >= r {
            return;
        }
        let name = text_of(s, l, r);
        let span = byte_span(s, file_id, e.start, e.end);
        let ghost old_flow = self.structure.flow@;
        self.structure.flow.push(FlowStep { function_name: name.clone(), span });
        assert(flow_models(self.structure.flow@) =~= flow_models(old_flow).push((name@, span)));
        let uid = match self.structure.catalog.get(name.as_str()) {
            Some(f) => Some(f.uid),
            None => None,
        };
        match uid {
            Some(u) => self.add_occurrence(u, span),
            None => {
                let msg = message("Undefined function: '", name.as_str(), "'");
                self.report_error(file_id, Some(span), msg);
            },
        }
    }

    /// Warns about every symbol that is written only where it is defined.
    fn check_unused_symbols(&mut self)
        ensures
            old(self).structure.symbol_table.wf() ==> final(self).structure@ == with_unused_warnings(
                old(self).structure@,
            ),
            preserves(*old(self), *final(self)),
    {
        let ghost m0 = self.structure@;
        let ghost wf = self.structure.symbol_table.wf();
        let ghost entries = self.structure.symbol_table.entries@;
        let mut i: usize = 0;
        while i < self.structure.symbol_table.entries.len()
            invariant
                0 <= i <= entries.len(),
                entries == self.structure.symbol_table.entries@,
                wf == self.structure.symbol_table.wf(),
                m0.symbol_order == self.structure.symbol_table.keys(),
                m0.symbols == self.structure@.symbols,
                preserves(*old(self), *self),
                self.structure@ == (StructureModel {
                    diagnostics: self.structure@.diagnostics,
                    ..m0
                }),
                wf ==> self.structure@.diagnostics == m0.diagnostics + unused_warnings(
                    m0.symbols,
                    m0.symbol_order.take(i as int),
                ),
            decreases entries.len() - i,
        {
            let ghost before = self.structure.diagnostics@;
            proof {
                assert(m0.symbol_order.take(i + 1).drop_last() =~= m0.symbol_order.take(i as int));
                assert(m0.symbol_order[i as int] == entries[i as int].0);
                if wf {
                    crate::models::lemma_find_uid_unique(entries, i as int);
                    assert(m0.symbols[entries[i as int].0] == entries[i as int].1.model());
                }
            }
            if self.structure.symbol_table.entries[i].1.occurrences.len() == 1 {
                let def = self.structure.symbol_table.entries[i].1.definition_span;
                let msg = message("Unused symbol: '", self.structure.symbol_table.entries[i].1.name.as_str(), "'");
                let mut tags: Vec<DiagnosticTag> = Vec::new();
                tags.push(DiagnosticTag::Unnecessary);
                self.structure.diagnostics.push(
                    DiagnosticWithContext {
                        file_id: def.file_id,
                        span: Some(def),
                        message: msg,
                        severity: Severity::Warning,
                        tags,
                    },
                );
                assert(tags@ =~= seq![DiagnosticTag::Unnecessary]);
                assert(diagnostic_models(self.structure.diagnostics@) =~= diagnostic_models(before).push(
                    unused_warning(entries[i as int].1.model()),
                ));
            }
            i = i + 1;
            assert(self.structure@ =~= (StructureModel { diagnostics: self.structure@.diagnostics, ..m0 }));
        }
        assert(m0.symbol_order.take(i as int) =~= m0.symbol_order);
        assert(self.structure@ =~= (StructureModel { diagnostics: self.structure@.diagnostics, ..m0 }));
    }
}

} // verus!

verus! {

// --- Files on disk ---

/// What the disk held for a URI when the caller looked: whether the file
/// exists, and its content where it could be read.
#[derive(Debug)]
pub struct DiskEntry {
    pub uri: String,
    pub exists: bool,
    pub content: Option<String>,
}

/// The answers about files on disk that an analysis may ask for.
#[derive(Debug)]
pub struct DiskSnapshot {
    pub entries: Vec<DiskEntry>,
}

/// The first entry for `uri` at or after `i`.
pub open spec fn disk_index(es: Seq<DiskEntry>, uri: Seq<char>, i: int) -> Option<int>
    decreases es.len() - i,
{
    if i < 0 || i >= es.len() {
        None
    } else if es[i].uri@ == uri {
        Some(i)
    } else {
        disk_index(es, uri, i + 1)
    }
}

pub open spec fn disk_lookup(es: Seq<DiskEntry>, uri: Seq<char>) -> Option<DiskEntry> {
    match disk_index(es, uri, 0) {
        Some(i) => Some(es[i]),
        None => None,
    }
}

impl DiskSnapshot {
    /// A snapshot that knows nothing yet.
    pub fn new() -> (d: Self)
        ensures
            d.entries@.len() == 0,
    {
        DiskSnapshot { entries: Vec::new() }
    }

    /// Records what the disk holds for a URI.
    pub fn add(&mut self, uri: String, exists: bool, content: Option<String>)
        ensures
            final(self).entries@ == old(self).entries@.push(DiskEntry { uri, exists, content }),
    {
        self.entries.push(DiskEntry { uri, exists, content });
    }

    /// The first entry for a URI.
    pub fn lookup(&self, uri: &str) -> (r: Option<&DiskEntry>)
        ensures
            match r {
                Some(e) => disk_lookup(self.entries@, uri@) == Some(*e),
                None => disk_lookup(self.entries@, uri@) is None,
            },
    {
        let mut i: usize = 0;
        while i < self.entries.len()
            invariant
                0 <= i <= self.entries@.len(),
                disk_index(self.entries@, uri@, 0) == disk_index(self.entries@, uri@, i as int),
            decreases self.entries@.len() - i,
        {
            if crate::text::str_eq(self.entries[i].uri.as_str(), uri) {
                return Some(&self.entries[i]);
            }
            i = i + 1;
        }
        None
    }
}

pub open spec fn string_views(v: Seq<String>) -> Seq<Seq<char>> {
    v.map_values(|s: String| s@)
}

/// Notes a URI whose disk entry the analysis needed and did not have.
pub open spec fn note_missing(missing: Seq<Seq<char>>, uri: Seq<char>) -> Seq<Seq<char>> {
    if missing.contains(uri) {
        missing
    } else {
        missing.push(uri)
    }
}

fn push_missing(missing: &mut Vec<String>, uri: &str)
    ensures
        string_views(final(missing)@) == note_missing(string_views(old(missing)@), uri@),
{
    let ghost v = string_views(missing@);
    let mut i: usize = 0;
    while i < missing.len()
        invariant
            0 <= i <= missing@.len(),
            v == string_views(missing@),
            forall|k: int| 0 <= k < i ==> v[k] != uri@,
        decreases missing@.len() - i,
    {
        if crate::text::str_eq(missing[i].as_str(), uri) {
            assert(v[i as int] == uri@);
            return;
        }
        i = i + 1;
    }
    missing.push(String::from_str(uri));
    assert(string_views(missing@) =~= v.push(uri@));
}

/// Loading a file: an explicit content is stored; a file already in memory
/// stays as it is; otherwise the snapshot's content is stored where the
/// file could be read. A URI the snapshot does not know is noted as missing.
pub open spec fn load_spec(
    m: crate::source_manager::SourceModel,
    id: FileId,
    explicit: Option<Seq<char>>,
    disk: Seq<DiskEntry>,
    missing: Seq<Seq<char>>,
) -> (crate::source_manager::SourceModel, bool, Seq<Seq<char>>) {
    match explicit {
        Some(c) => (crate::source_manager::model_update(m, id, c), true, missing),
        None => if m.contents.contains_key(id) {
            (m, true, missing)
        } else if m.uris.contains_key(id) {
            match disk_lookup(disk, m.uris[id]) {
                Some(e) => match e.content {
                    Some(c) => (crate::source_manager::model_update(m, id, c@), true, missing),
                    None => (m, false, missing),
                },
                None => (m, false, note_missing(missing, m.uris[id])),
            }
        } else {
            (m, false, missing)
        },
    }
}

} // verus!

verus! {

/// The state of an import scan over one file.
pub struct ScanState {
    pub sm: crate::source_manager::SourceModel,
    pub st: StructureModel,
    pub missing: Seq<Seq<char>>,
    /// The imports found, with the span of each import statement.
    pub found: Seq<(Seq<char>, Span)>,
}

/// The relative path of an import, without its quotes.
pub open spec fn import_path(s: Seq<char>, path: Extent) -> Seq<char> {
    s.subrange(path.start + 1, path.end - 1)
}

pub open spec fn import_not_found_message(rel: Seq<char>) -> Seq<char> {
    "Import not found: '"@ + rel + "'"@
}

pub open spec fn invalid_import_message(rel: Seq<char>) -> Seq<char> {
    "Invalid import path: '"@ + rel + "'"@
}

/// One import: resolved against the importing file, kept when the target is
/// in memory or exists on disk, reported otherwise.
pub open spec fn scan_item(c: ScanState, file: FileId, s: Seq<char>, it: ItemModel, disk: Seq<DiskEntry>) -> ScanState {
    match it {
        ItemModel::Import { extent, path, .. } => {
            let span = span_of(file, s, extent);
            let rel = import_path(s, path);
            if !c.sm.uris.contains_key(file) {
                c
            } else {
                match joined_uri(c.sm.uris[file], rel) {
                    Some(target) => {
                        let (sm1, tid) = crate::source_manager::model_get_id(c.sm, target);
                        let in_memory = sm1.contents.contains_key(tid);
                        let (exists, missing1) = if in_memory {
                            (false, c.missing)
                        } else {
                            match disk_lookup(disk, target) {
                                Some(e) => (e.exists, c.missing),
                                None => (false, note_missing(c.missing, target)),
                            }
                        };
                        if in_memory || exists {
                            ScanState { sm: sm1, missing: missing1, found: c.found.push((target, span)), ..c }
                        } else {
                            ScanState {
                                sm: sm1,
                                missing: missing1,
                                st: add_error(c.st, file, Some(span), import_not_found_message(rel)),
                                ..c
                            }
                        }
                    },
                    None => ScanState { st: add_error(c.st, file, Some(span), invalid_import_message(rel)), ..c },
                }
            }
        },
        _ => c,
    }
}

pub open spec fn scan_items(c: ScanState, file: FileId, s: Seq<char>, items: Seq<ItemModel>, disk: Seq<DiskEntry>) -> ScanState
    decreases items.len(),
{
    if items.len() == 0 {
        c
    } else {
        scan_item(scan_items(c, file, s, items.drop_last(), disk), file, s, items.last(), disk)
    }
}

/// The imports of a file; a file that does not parse has none.
pub open spec fn scan_file(c: ScanState, file: FileId, s: Seq<char>, disk: Seq<DiskEntry>) -> ScanState {
    match parse_program(s) {
        Ok(items) => scan_items(c, file, s, items, disk),
        Err(_) => c,
    }
}

pub open spec fn found_views(v: Seq<(String, Span)>) -> Seq<(Seq<char>, Span)> {
    v.map_values(|x: (String, Span)| (x.0@, x.1))
}

impl Workspace {
    /// Loads a file from the explicit content, from memory, or from the snapshot.
    fn load(&mut self, id: FileId, explicit: Option<String>, disk: &DiskSnapshot, missing: &mut Vec<String>) -> (ok: bool)
        ensures
            (final(self).source_manager.model(), ok, string_views(final(missing)@)) == load_spec(
                old(self).source_manager.model(),
                id,
                opt_string_view(explicit),
                disk.entries@,
                string_views(old(missing)@),
            ),
            final(self).structure == old(self).structure,
            final(self).current_root == old(self).current_root,
            old(self).source_manager.wf() ==> final(self).source_manager.wf(),
    {
        proof {
            self.source_manager.lemma_model();
        }
        match explicit {
            Some(c) => {
                self.source_manager.load_file(id, Some(c));
                return true;
            },
            None => {},
        }
        if self.source_manager.get_content(id).is_some() {
            return true;
        }
        let uri = match self.source_manager.get_uri(id) {
            Some(u) => String::from_str(u),
            None => {
                return false;
            },
        };
        match disk.lookup(uri.as_str()) {
            Some(e) => match &e.content {
                Some(c) => {
                    self.source_manager.update_content(id, c.clone());
                    true
                },
                None => false,
            },
            None => {
                push_missing(missing, uri.as_str());
                false
            },
        }
    }

    /// Finds the imports of a file. Each import is resolved against the
    /// file's URI; it is kept when its target is in memory or exists on
    /// disk, and reported as not found or invalid otherwise.
    fn scan_imports(
        &mut self,
        content: &str,
        file_id: FileId,
        disk: &DiskSnapshot,
        missing: &mut Vec<String>,
    ) -> (results: Vec<(String, Span)>)
        ensures
            ({
                let c = scan_file(
                    ScanState {
                        sm: old(self).source_manager.model(),
                        st: old(self).structure@,
                        missing: string_views(old(missing)@),
                        found: Seq::empty(),
                    },
                    file_id,
                    content@,
                    disk.entries@,
                );
                &&& final(self).source_manager.model() == c.sm
                &&& final(self).structure@ == c.st
                &&& string_views(final(missing)@) == c.missing
                &&& found_views(results@) == c.found
            }),
            final(self).current_root == old(self).current_root,
            old(self).source_manager.wf() ==> final(self).source_manager.wf(),
            old(self).structure.symbol_table.wf() ==> final(self).structure.symbol_table.wf(),
    {
        let mut results: Vec<(String, Span)> = Vec::new();
        let _size = crate::text::utf8_size(content);
        let s = chars_of(content);
        let items = match parse_chars(&s) {
            Ok(items) => items,
            Err(_) => {
                assert(found_views(results@) =~= Seq::<(Seq<char>, Span)>::empty());
                return results;
            },
        };
        let ghost iv = item_views(items@);
        let ghost c0 = ScanState {
            sm: self.source_manager.model(),
            st: self.structure@,
            missing: string_views(missing@),
            found: Seq::empty(),
        };
        assert(found_views(results@) =~= Seq::<(Seq<char>, Span)>::empty());
        let mut i: usize = 0;
        while i < items.len()
            invariant
                crate::text::utf8_len(s@) <= usize::MAX,
                0 <= i <= items@.len(),
                iv == item_views(items@),
                items_within(iv, s@.len()),
                s@ == content@,
                self.current_root == old(self).current_root,
                old(self).source_manager.wf() ==> self.source_manager.wf(),
                old(self).structure.symbol_table.wf() ==> self.structure.symbol_table.wf(),
                ({
                    let c = scan_items(c0, file_id, s@, iv.take(i as int), disk.entries@);
                    &&& self.source_manager.model() == c.sm
                    &&& self.structure@ == c.st
                    &&& string_views(missing@) == c.missing
                    &&& found_views(results@) == c.found
                }),
            decreases items@.len() - i,
        {
            assert(iv[i as int] == items@[i as int]@);
            assert(iv[i as int].within(s@.len()));
            assert(iv.take(i + 1).drop_last() =~= iv.take(i as int));
            assert(iv.take(i + 1).last() == iv[i as int]);
            proof {
                self.source_manager.lemma_model();
            }
            match &items[i] {
                Item::Import { extent, path, .. } => {
                    let span = byte_span(&s, file_id, extent.start, extent.end);
                    let rel = text_of(&s, path.start + 1, path.end - 1);
                    let base = match self.source_manager.get_uri(file_id) {
                        Some(u) => Some(String::from_str(u)),
                        None => None,
                    };
                    match base {
                        Some(base) => {
                            match join_uri(base.as_str(), rel.as_str()) {
                                Some(target) => {
                                    let target_id = self.source_manager.get_id(target.as_str());
                                    proof {
                                        self.source_manager.lemma_model();
                                    }
                                    let in_memory = self.source_manager.get_content(target_id).is_some();
                                    let exists = if in_memory {
                                        false
                                    } else {
                                        match disk.lookup(target.as_str()) {
                                            Some(e) => e.exists,
                                            None => {
                                                push_missing(missing, target.as_str());
                                                false
                                            },
                                        }
                                    };
                                    if in_memory || exists {
                                        let ghost before = found_views(results@);
                                        results.push((target, span));
                                        assert(found_views(results@) =~= before.push((target@, span)));
                                    } else {
                                        let msg = message("Import not found: '", rel.as_str(), "'");
                                        self.report_error(file_id, Some(span), msg);
                                    }
                                },
                                None => {
                                    let msg = message("Invalid import path: '", rel.as_str(), "'");
                                    self.report_error(file_id, Some(span), msg);
                                },
                            }
                        },
                        None => {},
                    }
                },
                _ => {},
            }
            i = i + 1;
        }
        assert(iv.take(i as int) =~= iv);
        results
    }
}

} // verus!

verus! {

/// The state of the breadth-first discovery of the files a root imports.
pub struct Discovery {
    pub sm: crate::source_manager::SourceModel,
    pub st: StructureModel,
    pub missing: Seq<Seq<char>>,
    pub queue: Seq<FileId>,
    pub head: nat,
    pub visited: Seq<FileId>,
    /// For each file, the files it imports, in order.
    pub graph: Map<FileId, Seq<FileId>>,
}

pub open spec fn read_failure_message(uri: Option<Seq<char>>) -> Seq<char> {
    "Failed to read file: "@ + match uri {
        Some(u) => match uri_debug(u) {
            Some(t) => t,
            None => u,
        },
        None => "None"@,
    }
}

/// Records the imports of `cur`: an edge to each, and a new file to visit
/// for each target that is neither visited nor queued.
pub open spec fn add_edges(d: Discovery, cur: FileId, found: Seq<(Seq<char>, Span)>) -> Discovery
    decreases found.len(),
{
    if found.len() == 0 {
        d
    } else {
        let p = add_edges(d, cur, found.drop_last());
        let (sm1, id) = crate::source_manager::model_get_id(p.sm, found.last().0);
        let list = if p.graph.contains_key(cur) {
            p.graph[cur]
        } else {
            Seq::empty()
        };
        Discovery {
            sm: sm1,
            graph: p.graph.insert(cur, list.push(id)),
            queue: if !p.visited.contains(id) && !p.queue.contains(id) {
                p.queue.push(id)
            } else {
                p.queue
            },
            ..p
        }
    }
}

/// One step of discovery: the next queued file is visited, loaded, and its
/// imports are queued; a file that cannot be read is reported.
pub open spec fn bfs_step(d: Discovery, disk: Seq<DiskEntry>) -> Discovery {
    let cur = d.queue[d.head as int];
    let d1 = Discovery { head: d.head + 1, ..d };
    if d.visited.contains(cur) {
        d1
    } else {
        let d2 = Discovery { visited: d.visited.push(cur), ..d1 };
        let l = if d2.sm.contents.contains_key(cur) {
            (d2.sm, true, d2.missing)
        } else {
            load_spec(d2.sm, cur, None, disk, d2.missing)
        };
        if !l.1 {
            Discovery {
                sm: l.0,
                missing: l.2,
                st: add_error(
                    d2.st,
                    cur,
                    None,
                    read_failure_message(
                        if l.0.uris.contains_key(cur) {
                            Some(l.0.uris[cur])
                        } else {
                            None
                        },
                    ),
                ),
                ..d2
            }
        } else {
            let sc = scan_file(
                ScanState { sm: l.0, st: d2.st, missing: l.2, found: Seq::empty() },
                cur,
                l.0.contents[cur],
                disk,
            );
            add_edges(Discovery { sm: sc.sm, st: sc.st, missing: sc.missing, ..d2 }, cur, sc.found)
        }
    }
}

/// Discovery until the queue is exhausted (or the fuel is).
pub open spec fn discover(d: Discovery, disk: Seq<DiskEntry>, fuel: nat) -> Discovery
    decreases fuel,
{
    if fuel == 0 || d.head >= d.queue.len() {
        d
    } else {
        discover(bfs_step(d, disk), disk, (fuel - 1) as nat)
    }
}

/// More than enough fuel for any run over distinct file identifiers.
pub open spec fn fuel() -> nat {
    0x1_0000_0001nat
}

pub open spec fn neighbors(g: Map<FileId, Seq<FileId>>, f: FileId) -> Seq<FileId> {
    if g.contains_key(f) {
        g[f]
    } else {
        Seq::empty()
    }
}

/// Depth-first search for a cycle from `cur`, with the files already visited
/// and the path from the root: the cycle found first, as the path followed by
/// the file it returns to, and the files visited afterwards.
pub open spec fn dfs(
    g: Map<FileId, Seq<FileId>>,
    cur: FileId,
    visited: Seq<FileId>,
    path: Seq<FileId>,
    fuel: nat,
) -> (Option<Seq<FileId>>, Seq<FileId>)
    decreases fuel, 0nat, 0nat,
{
    if fuel == 0 {
        (None, visited)
    } else {
        dfs_from(g, neighbors(g, cur), 0, visited.push(cur), path.push(cur), (fuel - 1) as nat)
    }
}

/// The depth-first search over the neighbors `ns[k..]` of the last file of `path`.
pub open spec fn dfs_from(
    g: Map<FileId, Seq<FileId>>,
    ns: Seq<FileId>,
    k: nat,
    visited: Seq<FileId>,
    path: Seq<FileId>,
    fuel: nat,
) -> (Option<Seq<FileId>>, Seq<FileId>)
    decreases fuel, 1nat, ns.len() - k,
{
    if k >= ns.len() {
        (None, visited)
    } else {
        let n = ns[k as int];
        if path.contains(n) {
            (Some(path.push(n)), visited)
        } else if !visited.contains(n) {
            let r = dfs(g, n, visited, path, fuel);
            if r.0 is Some {
                r
            } else {
                dfs_from(g, ns, k + 1, r.1, path, fuel)
            }
        } else {
            dfs_from(g, ns, k + 1, visited, path, fuel)
        }
    }
}

/// The URIs of the files of a path, joined by arrows.
pub open spec fn cycle_uris(sm: crate::source_manager::SourceModel, path: Seq<FileId>) -> Seq<Seq<char>>
    decreases path.len(),
{
    if path.len() == 0 {
        Seq::empty()
    } else {
        let prev = cycle_uris(sm, path.drop_last());
        if sm.uris.contains_key(path.last()) {
            prev.push(sm.uris[path.last()])
        } else {
            prev
        }
    }
}

pub open spec fn cycle_message(sm: crate::source_manager::SourceModel, path: Seq<FileId>) -> Seq<char> {
    "Circular dependency detected: "@ + join(cycle_uris(sm, path), " -> "@)
}

pub open spec fn content_of(sm: crate::source_manager::SourceModel, f: FileId) -> Option<Seq<char>> {
    if sm.contents.contains_key(f) {
        Some(sm.contents[f])
    } else {
        None
    }
}

/// The first pass over the files, in order.
pub open spec fn first_passes(m: StructureModel, sm: crate::source_manager::SourceModel, files: Seq<FileId>) -> StructureModel
    decreases files.len(),
{
    if files.len() == 0 {
        m
    } else {
        let f = files.last();
        first_pass(first_passes(m, sm, files.drop_last()), f, content_of(sm, f))
    }
}

/// The second pass over the files, in order.
pub open spec fn second_passes(m: StructureModel, sm: crate::source_manager::SourceModel, files: Seq<FileId>) -> StructureModel
    decreases files.len(),
{
    if files.len() == 0 {
        m
    } else {
        let f = files.last();
        second_pass(second_passes(m, sm, files.drop_last()), f, content_of(sm, f))
    }
}

pub open spec fn empty_structure() -> StructureModel {
    StructureModel {
        artifacts: Map::empty(),
        groups: Map::empty(),
        catalog: Map::empty(),
        flow: Seq::empty(),
        symbols: Map::empty(),
        symbol_order: Seq::empty(),
        diagnostics: Seq::empty(),
    }
}

/// A whole analysis from a root: the files afterwards, the structure, and
/// the URIs whose disk entries the snapshot lacked.
///
/// The root is loaded and its imports are discovered breadth first. A cycle
/// among the imports is reported and ends the analysis. Otherwise every
/// discovered file goes through the first pass, then every file through the
/// second, and unused symbols are reported last.
pub open spec fn analysis(
    sm0: crate::source_manager::SourceModel,
    root: Seq<char>,
    root_content: Option<Seq<char>>,
    disk: Seq<DiskEntry>,
) -> (crate::source_manager::SourceModel, StructureModel, Seq<Seq<char>>) {
    let (sm1, rid) = crate::source_manager::model_get_id(sm0, root);
    let l = load_spec(sm1, rid, root_content, disk, Seq::empty());
    let d = discover(
        Discovery {
            sm: l.0,
            st: empty_structure(),
            missing: l.2,
            queue: seq![rid],
            head: 0,
            visited: Seq::empty(),
            graph: Map::empty(),
        },
        disk,
        fuel(),
    );
    match dfs(d.graph, rid, Seq::empty(), Seq::empty(), fuel()).0 {
        Some(path) => (d.sm, add_error(d.st, rid, None, cycle_message(d.sm, path)), d.missing),
        None => (d.sm, with_unused_warnings(second_passes(first_passes(d.st, d.sm, d.visited), d.sm, d.visited)), d.missing),
    }
}

/// A sequence of distinct values below `n` has at most `n` elements.
pub proof fn lemma_distinct_below(s: Seq<u32>, n: nat)
    requires
        s.no_duplicates(),
        forall|i: int| 0 <= i < s.len() ==> (s[i] as nat) < n,
    ensures
        s.len() <= n,
    decreases n,
{
    if n == 0 {
        if s.len() > 0 {
            assert((s[0] as nat) < 0);
        }
    } else {
        let top = (n - 1) as nat;
        if exists|i: int| 0 <= i < s.len() && s[i] as nat == top {
            let k = choose|i: int| 0 <= i < s.len() && s[i] as nat == top;
            let t = s.remove(k);
            assert forall|a: int, b: int| 0 <= a < b < t.len() implies t[a] != t[b] by {
                let ia = if a < k { a } else { a + 1 };
                let ib = if b < k { b } else { b + 1 };
                assert(t[a] == s[ia] && t[b] == s[ib]);
            }
            assert forall|i: int| 0 <= i < t.len() implies (t[i] as nat) < top by {
                let j = if i < k { i } else { i + 1 };
                assert(t[i] == s[j]);
                assert(j != k);
            }
            lemma_distinct_below(t, top);
        } else {
            lemma_distinct_below(s, top);
        }
    }
}

} // verus!

verus! {

/// The import graph as a map.
pub open spec fn graph_model(g: crate::models::UidMap<Vec<FileId>>) -> Map<FileId, Seq<FileId>> {
    Map::new(|f: FileId| g.spec_get(f) is Some, |f: FileId| g.spec_get(f)->0@)
}

fn contains_id(v: &Vec<FileId>, id: FileId) -> (r: bool)
    ensures
        r == v@.contains(id),
{
    let mut i: usize = 0;
    while i < v.len()
        invariant
            0 <= i <= v@.len(),
            forall|k: int| 0 <= k < i ==> v@[k] != id,
        decreases v@.len() - i,
    {
        if v[i] == id {
            assert(v@[i as int] == id);
            return true;
        }
        i = i + 1;
    }
    false
}

impl Workspace {
    /// The URIs of a path of files, joined by arrows.
    fn cycle_text(&self, path: &Vec<FileId>) -> (r: String)
        ensures
            r@ == join(cycle_uris(self.source_manager.model(), path@), " -> "@),
    {
        proof {
            self.source_manager.lemma_model();
        }
        let ghost sm = self.source_manager.model();
        let mut out = String::new();
        let mut count: usize = 0;
        let mut i: usize = 0;
        while i < path.len()
            invariant
                0 <= i <= path@.len(),
                sm == self.source_manager.model(),
                count == cycle_uris(sm, path@.take(i as int)).len(),
                count <= i,
                out@ == join(cycle_uris(sm, path@.take(i as int)), " -> "@),
            decreases path@.len() - i,
        {
            proof {
                self.source_manager.lemma_model();
            }
            assert(path@.take(i + 1).drop_last() =~= path@.take(i as int));
            let ghost prev = cycle_uris(sm, path@.take(i as int));
            match self.source_manager.get_uri(path[i]) {
                Some(u) => {
                    if count > 0 {
                        out.append(" -> ");
                    }
                    out.append(u);
                    proof {
                        lemma_join_push(prev, u@, " -> "@);
                    }
                    count = count + 1;
                },
                None => {},
            }
            i = i + 1;
        }
        assert(path@.take(i as int) =~= path@);
        out
    }

    /// Depth-first search for a cycle from `current`; on finding one, the
    /// URIs of the path that closes it.
    fn dfs_cycle(
        &self,
        current: FileId,
        graph: &crate::models::UidMap<Vec<FileId>>,
        visited: &mut Vec<FileId>,
        path_stack: &mut Vec<FileId>,
        Ghost(fuel): Ghost<nat>,
    ) -> (r: Option<String>)
        requires
            !old(visited)@.contains(current),
            old(visited)@.no_duplicates(),
            fuel + old(visited)@.len() >= 0x1_0000_0001nat,
        ensures
            ({
                let sp = dfs(graph_model(*graph), current, old(visited)@, old(path_stack)@, fuel);
                match r {
                    Some(text) => sp.0 matches Some(p) && text@ == join(
                        cycle_uris(self.source_manager.model(), p),
                        " -> "@,
                    ),
                    None => sp.0 is None && final(visited)@ == sp.1 && final(path_stack)@ == old(path_stack)@,
                }
            }),
            final(visited)@.no_duplicates(),
            final(visited)@.len() >= old(visited)@.len(),
        decreases fuel,
    {
        let ghost g = graph_model(*graph);
        let ghost v0 = visited@;
        let ghost p0 = path_stack@;
        proof {
            let vs = v0.push(current);
            assert forall|a: int, b: int| 0 <= a < b < vs.len() implies vs[a] != vs[b] by {
                if b == v0.len() {
                    assert(vs[a] == v0[a]);
                }
            }
            lemma_distinct_below(vs, 0x1_0000_0000nat);
        }
        visited.push(current);
        path_stack.push(current);
        proof {
            assert forall|a: int, b: int| 0 <= a < b < visited@.len() implies visited@[a] != visited@[b] by {
                if b == v0.len() {
                    assert(visited@[a] == v0[a]);
                }
            }
        }
        let ns: Vec<FileId> = match graph.get(&current) {
            Some(v) => v.clone(),
            None => Vec::new(),
        };
        assert(ns@ == neighbors(g, current));
        let ghost f1 = (fuel - 1) as nat;
        let mut k: usize = 0;
        while k < ns.len()
            invariant
                0 <= k <= ns@.len(),
                g == graph_model(*graph),
                ns@ == neighbors(g, current),
                fuel >= 1,
                f1 == fuel - 1,
                v0 == old(visited)@,
                p0 == old(path_stack)@,
                path_stack@ == p0.push(current),
                visited@.no_duplicates(),
                visited@.len() >= v0.len() + 1,
                f1 + visited@.len() >= 0x1_0000_0001nat,
                dfs(g, current, v0, p0, fuel) == dfs_from(g, ns@, k as nat, visited@, p0.push(current), f1),
            decreases ns@.len() - k,
        {
            let n = ns[k];
            if contains_id(path_stack, n) {
                let mut cycle: Vec<FileId> = Vec::new();
                let mut j: usize = 0;
                while j < path_stack.len()
                    invariant
                        0 <= j <= path_stack@.len(),
                        cycle@ == path_stack@.take(j as int),
                    decreases path_stack@.len() - j,
                {
                    cycle.push(path_stack[j]);
                    j = j + 1;
                    assert(cycle@ =~= path_stack@.take(j as int));
                }
                cycle.push(n);
                assert(cycle@ =~= p0.push(current).push(n));
                return Some(self.cycle_text(&cycle));
            }
            if !contains_id(visited, n) {
                match self.dfs_cycle(n, graph, visited, path_stack, Ghost(f1)) {
                    Some(c) => {
                        return Some(c);
                    },
                    None => {},
                }
            }
            k = k + 1;
        }
        path_stack.pop();
        assert(path_stack@ =~= p0);
        None
    }

    /// Looks for a cycle among the imports reachable from the root; on
    /// finding one, the URIs of the path that closes it.
    fn detect_cycle(&self, root: FileId, graph: &crate::models::UidMap<Vec<FileId>>) -> (r: Option<String>)
        ensures
            ({
                let sp = dfs(graph_model(*graph), root, Seq::empty(), Seq::empty(), fuel());
                match r {
                    Some(text) => sp.0 matches Some(p) && text@ == join(
                        cycle_uris(self.source_manager.model(), p),
                        " -> "@,
                    ),
                    None => sp.0 is None,
                }
            }),
    {
        let mut visited: Vec<FileId> = Vec::new();
        let mut path_stack: Vec<FileId> = Vec::new();
        assert(visited@ =~= Seq::<FileId>::empty());
        assert(path_stack@ =~= Seq::<FileId>::empty());
        self.dfs_cycle(root, graph, &mut visited, &mut path_stack, Ghost(fuel()))
    }
}

} // verus!

verus! {

pub open spec fn discovery_of(
    ws: Workspace,
    missing: Seq<String>,
    queue: Seq<FileId>,
    head: nat,
    visited: Seq<FileId>,
    graph: crate::models::UidMap<Vec<FileId>>,
) -> Discovery {
    Discovery {
        sm: ws.source_manager.model(),
        st: ws.structure@,
        missing: string_views(missing),
        queue,
        head,
        visited,
        graph: graph_model(graph),
    }
}

impl Workspace {
    /// Analyzes the program rooted at `root_uri`; `root_content`, where
    /// given, is the root's current text. Files the analysis needs are read
    /// from memory, or from `disk`; the URIs that `disk` does not cover are
    /// returned, and the analysis is complete when none are. A caller reads
    /// those files, adds them to the snapshot and analyzes again.
    pub fn analyze(&mut self, root_uri: String, root_content: Option<String>, disk: &DiskSnapshot) -> (missing: Vec<String>)
        requires
            old(self).source_manager.wf(),
        ensures
            final(self).current_root == Some(root_uri),
            final(self).source_manager.wf(),
            final(self).structure.symbol_table.wf(),
            ({
                let a = analysis(old(self).source_manager.model(), root_uri@, opt_string_view(root_content), disk.entries@);
                &&& final(self).source_manager.model() == a.0
                &&& final(self).structure@ == a.1
                &&& string_views(missing@) == a.2
            }),
    {
        let ghost sm_start = self.source_manager.model();
        let ghost content_view = opt_string_view(root_content);
        self.current_root = Some(root_uri.clone());
        self.structure = ProgramStructure::new();
        assert(self.structure@ =~= empty_structure());
        let mut missing: Vec<String> = Vec::new();
        assert(string_views(missing@) =~= Seq::<Seq<char>>::empty());
        let root_id = self.source_manager.get_id(root_uri.as_str());
        self.load(root_id, root_content, disk, &mut missing);
        let mut queue: Vec<FileId> = Vec::new();
        queue.push(root_id);
        let mut visited: Vec<FileId> = Vec::new();
        let mut graph: crate::models::UidMap<Vec<FileId>> = crate::models::UidMap::new();
        let mut head: usize = 0;
        let ghost d0 = discovery_of(*self, missing@, queue@, 0, visited@, graph);
        assert(queue@ =~= seq![root_id]);
        assert(visited@ =~= Seq::<FileId>::empty());
        assert(graph_model(graph) =~= Map::<FileId, Seq<FileId>>::empty());
        assert(d0 == Discovery {
            sm: d0.sm,
            st: empty_structure(),
            missing: d0.missing,
            queue: seq![root_id],
            head: 0,
            visited: Seq::empty(),
            graph: Map::empty(),
        });
        while head < queue.len()
            invariant
                0 <= head <= queue@.len(),
                queue@.no_duplicates(),
                visited@ == queue@.take(head as int),
                self.source_manager.wf(),
                self.structure.symbol_table.wf(),
                self.current_root == Some(root_uri),
                discover(d0, disk.entries@, fuel()) == discover(
                    discovery_of(*self, missing@, queue@, head as nat, visited@, graph),
                    disk.entries@,
                    (fuel() - head) as nat,
                ),
            decreases 0x1_0000_0000nat - head,
        {
            proof {
                lemma_distinct_below(queue@, 0x1_0000_0000nat);
            }
            let ghost d = discovery_of(*self, missing@, queue@, head as nat, visited@, graph);
            let ghost ds = bfs_step(d, disk.entries@);
            assert(discover(d, disk.entries@, (fuel() - head) as nat) == discover(
                ds,
                disk.entries@,
                (fuel() - head - 1) as nat,
            ));
            let cur = queue[head];
            head = head + 1;
            assert(queue@.take(head as int) =~= visited@.push(cur));
            proof {
                assert(!visited@.contains(cur)) by {
                    if visited@.contains(cur) {
                        let k = choose|k: int| 0 <= k < visited@.len() && visited@[k] == cur;
                        assert(queue@[k] == queue@[head - 1]);
                    }
                }
            }
            if contains_id(&visited, cur) {
                continue;
            }
            visited.push(cur);
            proof {
                self.source_manager.lemma_model();
            }
            let ghost d2 = Discovery { visited: d.visited.push(cur), head: d.head + 1, ..d };
            let ghost l = if d2.sm.contents.contains_key(cur) {
                (d2.sm, true, d2.missing)
            } else {
                load_spec(d2.sm, cur, None, disk.entries@, d2.missing)
            };
            let loaded = if self.source_manager.get_content(cur).is_some() {
                true
            } else {
                self.load(cur, None, disk, &mut missing)
            };
            assert(self.source_manager.model() == l.0 && loaded == l.1 && string_views(missing@) == l.2);
            if !loaded {
                proof {
                    self.source_manager.lemma_model();
                }
                let text = match self.source_manager.get_uri(cur) {
                    Some(u) => match debug_uri(u) {
                        Some(t) => t,
                        None => String::from_str(u),
                    },
                    None => String::from_str("None"),
                };
                let msg = message2("Failed to read file: ", text.as_str());
                self.report_error(cur, None, msg);
                assert(discovery_of(*self, missing@, queue@, head as nat, visited@, graph) =~= ds);
                continue;
            }
            proof {
                self.source_manager.lemma_model();
            }
            let content = match self.source_manager.get_content(cur) {
                Some(c) => String::from_str(c),
                None => String::new(),
            };
            assert(l.0.contents.contains_key(cur)) by {
                if !d2.sm.contents.contains_key(cur) {
                    assert(d2.sm.uris.contains_key(cur));
                }
            }
            assert(self.source_manager.spec_content(cur) == Some(l.0.contents[cur]));
            assert(content@ == l.0.contents[cur]);
            let ghost sc = scan_file(
                ScanState { sm: l.0, st: d2.st, missing: l.2, found: Seq::empty() },
                cur,
                l.0.contents[cur],
                disk.entries@,
            );
            let imports = self.scan_imports(content.as_str(), cur, disk, &mut missing);
            let ghost found = found_views(imports@);
            assert(found == sc.found);
            assert(ds == add_edges(Discovery { sm: sc.sm, st: sc.st, missing: sc.missing, ..d2 }, cur, sc.found));
            let ghost base = Discovery {
                sm: self.source_manager.model(),
                st: self.structure@,
                missing: string_views(missing@),
                ..Discovery { visited: d.visited.push(cur), head: d.head + 1, ..d }
            };
            assert(base == discovery_of(*self, missing@, queue@, head as nat, visited@, graph));
            let mut j: usize = 0;
            while j < imports.len()
                invariant
                    0 <= j <= imports@.len(),
                    found == found_views(imports@),
                    queue@.no_duplicates(),
                    head <= queue@.len(),
                    visited@ == queue@.take(head as int),
                    self.source_manager.wf(),
                    self.structure.symbol_table.wf(),
                    self.current_root == Some(root_uri),
                    visited@.last() == cur,
                    visited@.len() > 0,
                    add_edges(base, cur, found.take(j as int)) == discovery_of(
                        *self,
                        missing@,
                        queue@,
                        head as nat,
                        visited@,
                        graph,
                    ),
                decreases imports@.len() - j,
            {
                let ghost p = discovery_of(*self, missing@, queue@, head as nat, visited@, graph);
                assert(found.take(j + 1).drop_last() =~= found.take(j as int));
                assert(found.take(j + 1).last() == (imports@[j as int].0@, imports@[j as int].1));
                let imported_id = self.source_manager.get_id(imports[j].0.as_str());
                let list = match graph.get(&cur) {
                    Some(l) => {
                        let mut l2 = l.clone();
                        assert(l2@ =~= l@);
                        l2.push(imported_id);
                        l2
                    },
                    None => {
                        let mut l2: Vec<FileId> = Vec::new();
                        l2.push(imported_id);
                        l2
                    },
                };
                let ghost lv = list@;
                graph.insert(cur, list);
                assert(graph_model(graph) =~= p.graph.insert(cur, lv));
                if !contains_id(&visited, imported_id) && !contains_id(&queue, imported_id) {
                    let ghost q0 = queue@;
                    queue.push(imported_id);
                    proof {
                        assert forall|a: int, b: int| 0 <= a < b < queue@.len() implies queue@[a] != queue@[b] by {
                            if b == q0.len() {
                                assert(queue@[a] == q0[a]);
                            }
                        }
                        assert(queue@.take(head as int) =~= q0.take(head as int));
                    }
                }
                j = j + 1;
                assert(add_edges(base, cur, found.take(j as int)) =~= discovery_of(
                    *self,
                    missing@,
                    queue@,
                    head as nat,
                    visited@,
                    graph,
                ));
            }
            assert(found.take(j as int) =~= found);
            assert(discovery_of(*self, missing@, queue@, head as nat, visited@, graph) == ds);
        }
        let ghost d_end = discovery_of(*self, missing@, queue@, head as nat, visited@, graph);
        assert(discover(d0, disk.entries@, fuel()) == d_end);
        match self.detect_cycle(root_id, &graph) {
            Some(cycle_path) => {
                let msg = message2("Circular dependency detected: ", cycle_path.as_str());
                self.report_error(root_id, None, msg);
                return missing;
            },
            None => {},
        }
        let ghost st_disc = self.structure@;
        let mut i: usize = 0;
        while i < visited.len()
            invariant
                0 <= i <= visited@.len(),
                self.source_manager.wf(),
                self.source_manager.model() == d_end.sm,
                self.structure.symbol_table.wf(),
                self.current_root == Some(root_uri),
                self.structure@ == first_passes(st_disc, d_end.sm, visited@.take(i as int)),
            decreases visited@.len() - i,
        {
            proof {
                self.source_manager.lemma_model();
            }
            assert(visited@.take(i + 1).drop_last() =~= visited@.take(i as int));
            self.pass_definitions(visited[i]);
            i = i + 1;
        }
        assert(visited@.take(i as int) =~= visited@);
        let ghost st_first = self.structure@;
        let mut i: usize = 0;
        while i < visited.len()
            invariant
                0 <= i <= visited@.len(),
                self.source_manager.wf(),
                self.source_manager.model() == d_end.sm,
                self.structure.symbol_table.wf(),
                self.current_root == Some(root_uri),
                self.structure@ == second_passes(st_first, d_end.sm, visited@.take(i as int)),
            decreases visited@.len() - i,
        {
            proof {
                self.source_manager.lemma_model();
            }
            assert(visited@.take(i + 1).drop_last() =~= visited@.take(i as int));
            self.pass_resolution(visited[i]);
            i = i + 1;
        }
        assert(visited@.take(i as int) =~= visited@);
        self.check_unused_symbols();
        missing
    }
}

} // verus!
