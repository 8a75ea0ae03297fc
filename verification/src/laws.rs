//! Properties of the library that hold across its operations.

use vstd::prelude::*;
use vstd::relations::injective;
use vstd::std_specs::cmp::PartialEqSpec;
use vstd::set_lib::{lemma_int_range, lemma_len_subset, set_int_range};
use crate::analyzer::{
    dfs_from, neighbors, add_edges, add_flow_step, analysis, bfs_step, content_of, definition_step, definitions, dfs, discover,
    first_passes, fuel, is_defined, link_function, resolution_step, resolutions, resolve_outputs,
    resolve_tokens, scan_file, scan_items, text, unused_warning, unused_warnings, Discovery, DiskEntry,
    ScanState,
};
use crate::assignments::{assignment_findings, assignment_resolves, error_outputs, lookup, AnalyzerModel, FindingModel};
use crate::engine::{
    after_consumption, as_collection, contains_same, dedup_edges, match_all, marked, mark_constants_used,
    missing_of, of_class, pool_leftover_edges, pool_step, produced, record_origins, routed_edges,
    run_step_model, same_route, seeded_pool, sim_steps, simulated, starvation, step_node, step_pools,
    terminal_tokens, without, FlowModel, MatchState, PoolModel,
};
use crate::formatter::formatted;
use crate::models::{
    fnv1a, spec_hash_name, FNV_OFFSET_BASIS, FNV_PRIME, same_token, ArtifactClass, Cardinality, Edge, EdgeRelation, FileId, FlowStep, Function, Node, StructureModel,
    SymbolModel, Token,
};
use crate::parser::{doc_lines_at, lemma_scan_bounds, line_end, parse_program, skip_ws, ItemModel};
use crate::pipeline::{
    first_named, names_error, pool_consume, route, PoolModel as PipelinePool, Routing, TokenModel as PipelineToken,
};

verus! {

// --- The token pool ---

proof fn lemma_without_excludes(ts: Seq<Token>, removed: Seq<Token>, t: Token)
    requires
        contains_same(removed, t),
    ensures
        !contains_same(without(ts, removed), t),
    decreases ts.len(),
{
    if ts.len() > 0 {
        lemma_without_excludes(ts.drop_last(), removed, t);
        let rest = without(ts.drop_last(), removed);
        if !contains_same(removed, ts.last()) {
            let w = rest.push(ts.last());
            assert forall|i: int| 0 <= i < w.len() implies !same_token(w[i], t) by {
                if i == rest.len() {
                    let k = choose|k: int| 0 <= k < removed.len() && same_token(removed[k], t);
                    if same_token(ts.last(), t) {
                        assert(same_token(removed[k], ts.last()));
                    }
                }
            }
        }
    }
}

proof fn lemma_without_keeps(ts: Seq<Token>, removed: Seq<Token>, t: Token)
    requires
        contains_same(ts, t),
        !contains_same(removed, t),
    ensures
        contains_same(without(ts, removed), t),
    decreases ts.len(),
{
    let rest = without(ts.drop_last(), removed);
    if same_token(ts.last(), t) {
        assert forall|k: int| 0 <= k < removed.len() implies !same_token(removed[k], ts.last()) by {
            if same_token(removed[k], ts.last()) {
                assert(same_token(removed[k], t));
            }
        }
        let w = rest.push(ts.last());
        assert(same_token(w[w.len() - 1], t));
    } else {
        let i = choose|i: int| 0 <= i < ts.len() && same_token(ts[i], t);
        assert(i < ts.len() - 1);
        assert(ts.drop_last()[i] == ts[i]);
        lemma_without_keeps(ts.drop_last(), removed, t);
        if !contains_same(removed, ts.last()) {
            let j = choose|j: int| 0 <= j < rest.len() && same_token(rest[j], t);
            assert(rest.push(ts.last())[j] == rest[j]);
        }
    }
}

proof fn lemma_marked_constants(used: Set<u32>, consumed: Seq<Token>, k: int)
    requires
        0 <= k < consumed.len(),
        consumed[k].kind.spec_class() == ArtifactClass::Constant,
    ensures
        mark_constants_used(used, consumed).contains(consumed[k].uid),
    decreases consumed.len(),
{
    if k < consumed.len() - 1 {
        assert(consumed.drop_last()[k] == consumed[k]);
        lemma_marked_constants(used, consumed.drop_last(), k);
    }
}

/// Constants are referenced, never consumed: a consumption leaves the
/// constants of the pool as they were, and marks each one it read as read.
pub proof fn law_constants_persist(p: PoolModel, st: MatchState, dest_uid: u32)
    ensures
        after_consumption(p, st, dest_uid).constants == p.constants,
        forall|k: int|
            0 <= k < st.consumed.len() && (#[trigger] st.consumed[k]).kind.spec_class() == ArtifactClass::Constant
                ==> after_consumption(p, st, dest_uid).constants_used.contains(st.consumed[k].uid),
{
    assert forall|k: int|
        0 <= k < st.consumed.len() && (#[trigger] st.consumed[k]).kind.spec_class() == ArtifactClass::Constant implies after_consumption(
        p,
        st,
        dest_uid,
    ).constants_used.contains(st.consumed[k].uid) by {
        lemma_marked_constants(p.constants_used, st.consumed, k);
    }
}

/// Variables and errors move: a consumed token is no longer available,
/// and every token that was not consumed still is.
pub proof fn law_consumed_tokens_leave(p: PoolModel, st: MatchState, dest_uid: u32, t: Token)
    ensures
        contains_same(st.consumed, t) ==> !contains_same(after_consumption(p, st, dest_uid).variables, t)
            && !contains_same(after_consumption(p, st, dest_uid).errors, t),
        !contains_same(st.consumed, t) && contains_same(p.variables, t) ==> contains_same(
            after_consumption(p, st, dest_uid).variables,
            t,
        ),
        !contains_same(st.consumed, t) && contains_same(p.errors, t) ==> contains_same(
            after_consumption(p, st, dest_uid).errors,
            t,
        ),
{
    if contains_same(st.consumed, t) {
        lemma_without_excludes(p.variables, st.consumed, t);
        lemma_without_excludes(p.errors, st.consumed, t);
    } else {
        if contains_same(p.variables, t) {
            lemma_without_keeps(p.variables, st.consumed, t);
        }
        if contains_same(p.errors, t) {
            lemma_without_keeps(p.errors, st.consumed, t);
        }
    }
}

proof fn lemma_of_class_member(ts: Seq<Token>, class: ArtifactClass, k: int)
    requires
        0 <= k < of_class(ts, class).len(),
    ensures
        of_class(ts, class)[k].kind.spec_class() == class,
        exists|j: int| 0 <= j < ts.len() && ts[j] == of_class(ts, class)[k],
    decreases ts.len(),
{
    let rest = of_class(ts.drop_last(), class);
    if k < rest.len() {
        lemma_of_class_member(ts.drop_last(), class, k);
        let j = choose|j: int| 0 <= j < ts.drop_last().len() && ts.drop_last()[j] == rest[k];
        assert(ts[j] == ts.drop_last()[j]);
        if ts.last().kind.spec_class() == class {
            assert(of_class(ts, class)[k] == rest[k]);
        }
    } else {
        assert(ts[ts.len() - 1] == of_class(ts, class)[k]);
    }
}

/// Expansion: a consumption in which a unitary requirement met a collection
/// expands the consumer, and everything an expanded producer adds to the
/// pool is a collection.
pub proof fn law_expansion(p: PoolModel, st: MatchState, dest: Node, tokens: Seq<Token>)
    ensures
        st.expands ==> after_consumption(p, st, dest.uid).expanded.contains(dest.uid),
        p.expanded.contains(dest.uid) ==> forall|k: int|
            0 <= k < produced(p, tokens, dest).variables.len() - p.variables.len() ==> (#[trigger] produced(
                p,
                tokens,
                dest,
            ).variables[p.variables.len() + k]).cardinality == Cardinality::Collection,
{
    if p.expanded.contains(dest.uid) {
        let added = marked(tokens, true);
        assert forall|k: int|
            0 <= k < produced(p, tokens, dest).variables.len() - p.variables.len() implies (#[trigger] produced(
            p,
            tokens,
            dest,
        ).variables[p.variables.len() + k]).cardinality == Cardinality::Collection by {
            let v = of_class(added, ArtifactClass::Variable);
            assert(produced(p, tokens, dest).variables[p.variables.len() + k] == v[k]);
            lemma_of_class_member(added, ArtifactClass::Variable, k);
            let j = choose|j: int| 0 <= j < added.len() && added[j] == v[k];
            assert(added[j] == as_collection(tokens[j]));
        }
    }
}

proof fn lemma_record_origins(m: Map<u32, Node>, tokens: Seq<Token>, node: Node, k: int)
    requires
        0 <= k < tokens.len(),
    ensures
        record_origins(m, tokens, node).contains_key(tokens[k].uid),
        record_origins(m, tokens, node)[tokens[k].uid] == node,
    decreases tokens.len(),
{
    if k < tokens.len() - 1 {
        assert(tokens.drop_last()[k] == tokens[k]);
        lemma_record_origins(m, tokens.drop_last(), node, k);
    }
}

/// The initial pool attributes every external input to the initial node.
pub proof fn law_seeded_origins(tokens: Seq<Token>, initial: Node)
    ensures
        forall|k: int|
            0 <= k < tokens.len() ==> seeded_pool(tokens, initial).origins.contains_key(#[trigger] tokens[k].uid)
                && seeded_pool(tokens, initial).origins[tokens[k].uid] == initial,
{
    assert forall|k: int| 0 <= k < tokens.len() implies seeded_pool(tokens, initial).origins.contains_key(
        #[trigger] tokens[k].uid,
    ) && seeded_pool(tokens, initial).origins[tokens[k].uid] == initial by {
        lemma_record_origins(Map::empty(), tokens, initial, k);
    }
}

proof fn lemma_routed(origins: Map<u32, Node>, tokens: Seq<Token>, target: u32, relation: EdgeRelation, k: int)
    requires
        0 <= k < routed_edges(origins, tokens, target, relation).len(),
    ensures
        routed_edges(origins, tokens, target, relation)[k].to_node_uid == target,
        routed_edges(origins, tokens, target, relation)[k].relation == relation,
        exists|j: int| 0 <= j < tokens.len() && tokens[j] == routed_edges(origins, tokens, target, relation)[k].token,
    decreases tokens.len(),
{
    let prev = routed_edges(origins, tokens.drop_last(), target, relation);
    if k < prev.len() {
        lemma_routed(origins, tokens.drop_last(), target, relation, k);
        let j = choose|j: int| 0 <= j < tokens.drop_last().len() && tokens.drop_last()[j] == prev[k].token;
        assert(tokens[j] == tokens.drop_last()[j]);
        if origins.contains_key(tokens.last().uid) {
            assert(routed_edges(origins, tokens, target, relation)[k] == prev[k]);
        }
    } else {
        assert(routed_edges(origins, tokens, target, relation)[k].token == tokens[tokens.len() - 1]);
    }
}

/// Terminal routing: at the end of the flow, the variables and unread
/// constants of a pool go to the final node, and its errors to the fatal node.
pub proof fn law_terminal_routing(p: PoolModel, final_uid: u32, fatal_uid: u32)
    ensures
        forall|k: int|
            0 <= k < pool_leftover_edges(p, final_uid, fatal_uid).len() ==> {
                let e = #[trigger] pool_leftover_edges(p, final_uid, fatal_uid)[k];
                ||| e.to_node_uid == final_uid && e.relation == EdgeRelation::TerminalFlow && terminal_tokens(
                    p,
                ).contains(e.token)
                ||| e.to_node_uid == fatal_uid && e.relation == EdgeRelation::ErrorFlow && p.errors.contains(e.token)
            },
{
    let a = routed_edges(p.origins, terminal_tokens(p), final_uid, EdgeRelation::TerminalFlow);
    let b = routed_edges(p.origins, p.errors, fatal_uid, EdgeRelation::ErrorFlow);
    assert forall|k: int| 0 <= k < pool_leftover_edges(p, final_uid, fatal_uid).len() implies {
        let e = #[trigger] pool_leftover_edges(p, final_uid, fatal_uid)[k];
        ||| e.to_node_uid == final_uid && e.relation == EdgeRelation::TerminalFlow && terminal_tokens(p).contains(
            e.token,
        )
        ||| e.to_node_uid == fatal_uid && e.relation == EdgeRelation::ErrorFlow && p.errors.contains(e.token)
    } by {
        if k < a.len() {
            lemma_routed(p.origins, terminal_tokens(p), final_uid, EdgeRelation::TerminalFlow, k);
            let j = choose|j: int| 0 <= j < terminal_tokens(p).len() && terminal_tokens(p)[j] == a[k].token;
            assert(pool_leftover_edges(p, final_uid, fatal_uid)[k] == a[k]);
        } else {
            lemma_routed(p.origins, p.errors, fatal_uid, EdgeRelation::ErrorFlow, k - a.len());
            let j = choose|j: int| 0 <= j < p.errors.len() && p.errors[j] == b[k - a.len()].token;
            assert(pool_leftover_edges(p, final_uid, fatal_uid)[k] == b[k - a.len()]);
        }
    }
}

/// Deduplication keeps one edge per route: no two kept edges join the same
/// nodes with the same token.
pub proof fn law_dedup_unique(edges: Seq<Edge>)
    ensures
        forall|i: int, j: int|
            0 <= i < j < dedup_edges(edges).len() ==> !same_route(
                #[trigger] dedup_edges(edges)[i],
                #[trigger] dedup_edges(edges)[j],
            ),
    decreases edges.len(),
{
    if edges.len() > 0 {
        law_dedup_unique(edges.drop_last());
        let prev = dedup_edges(edges.drop_last());
        if !(exists|k: int| 0 <= k < prev.len() && same_route(prev[k], edges.last())) {
            let d = prev.push(edges.last());
            assert forall|i: int, j: int| 0 <= i < j < d.len() implies !same_route(#[trigger] d[i], #[trigger] d[j]) by {
                if j == prev.len() {
                    assert(d[i] == prev[i]);
                    assert(!same_route(prev[i], edges.last()));
                } else {
                    assert(d[i] == prev[i] && d[j] == prev[j]);
                }
            }
        }
    }
}

/// Deduplication drops only repetitions: every route of the edges keeps an edge.
pub proof fn law_dedup_keeps_routes(edges: Seq<Edge>, k: int)
    requires
        0 <= k < edges.len(),
    ensures
        exists|i: int| 0 <= i < dedup_edges(edges).len() && same_route(#[trigger] dedup_edges(edges)[i], edges[k]),
    decreases edges.len(),
{
    let prev = dedup_edges(edges.drop_last());
    let d = dedup_edges(edges);
    if k < edges.len() - 1 {
        assert(edges.drop_last()[k] == edges[k]);
        law_dedup_keeps_routes(edges.drop_last(), k);
        let i = choose|i: int| 0 <= i < prev.len() && same_route(prev[i], edges[k]);
        if !(exists|m: int| 0 <= m < prev.len() && same_route(prev[m], edges.last())) {
            assert(prev.push(edges.last())[i] == prev[i]);
            assert(d[i] == prev[i]);
        } else {
            assert(d == prev);
        }
        assert(same_route(d[i], edges[k]));
    } else {
        if exists|m: int| 0 <= m < prev.len() && same_route(prev[m], edges.last()) {
            let m = choose|m: int| 0 <= m < prev.len() && same_route(prev[m], edges.last());
            assert(d[m] == prev[m]);
            assert(same_route(d[m], edges[k]));
        } else {
            assert(d[prev.len() as int] == edges.last());
            assert(same_route(d[prev.len() as int], edges[k]));
        }
    }
}

} // verus!

verus! {

// --- Analysis ---

/// The name an item defines, if it defines one.
pub open spec fn defined_name(s: Seq<char>, it: ItemModel) -> Option<Seq<char>> {
    match it {
        ItemModel::Definition { name, .. } => Some(text(s, name)),
        ItemModel::Function { name, .. } => Some(text(s, name)),
        _ => None,
    }
}

/// The tables of symbols and names are the same in both structures.
pub open spec fn same_tables(a: StructureModel, b: StructureModel) -> bool {
    &&& a.artifacts == b.artifacts
    &&& a.groups == b.groups
    &&& a.catalog.dom() == b.catalog.dom()
}

proof fn lemma_step_monotone(m: StructureModel, file: FileId, s: Seq<char>, it: ItemModel, n: Seq<char>)
    requires
        is_defined(m, n),
    ensures
        is_defined(definition_step(m, file, s, it), n),
{
}

proof fn lemma_step_defines(m: StructureModel, file: FileId, s: Seq<char>, it: ItemModel)
    requires
        defined_name(s, it) is Some,
    ensures
        is_defined(definition_step(m, file, s, it), defined_name(s, it)->0),
{
}

proof fn lemma_definitions_monotone(m: StructureModel, file: FileId, s: Seq<char>, items: Seq<ItemModel>, n: Seq<char>)
    requires
        is_defined(m, n),
    ensures
        is_defined(definitions(m, file, s, items), n),
    decreases items.len(),
{
    if items.len() > 0 {
        lemma_definitions_monotone(m, file, s, items.drop_last(), n);
        lemma_step_monotone(definitions(m, file, s, items.drop_last()), file, s, items.last(), n);
    }
}

/// The first pass over a file makes every name the file defines a taken
/// name: by the item itself, or by an earlier definition of it.
pub proof fn law_first_pass_defines(m: StructureModel, file: FileId, s: Seq<char>, items: Seq<ItemModel>, k: int)
    requires
        0 <= k < items.len(),
        defined_name(s, items[k]) is Some,
    ensures
        is_defined(definitions(m, file, s, items), defined_name(s, items[k])->0),
    decreases items.len(),
{
    let n = defined_name(s, items[k])->0;
    if k == items.len() - 1 {
        lemma_step_defines(definitions(m, file, s, items.drop_last()), file, s, items.last());
    } else {
        assert(items.drop_last()[k] == items[k]);
        law_first_pass_defines(m, file, s, items.drop_last(), k);
        lemma_step_monotone(definitions(m, file, s, items.drop_last()), file, s, items.last(), n);
    }
}

proof fn lemma_first_passes_monotone(m: StructureModel, sm: crate::source_manager::SourceModel, files: Seq<FileId>, n: Seq<char>)
    requires
        is_defined(m, n),
    ensures
        is_defined(first_passes(m, sm, files), n),
    decreases files.len(),
{
    if files.len() > 0 {
        lemma_first_passes_monotone(m, sm, files.drop_last(), n);
        let prev = first_passes(m, sm, files.drop_last());
        let f = files.last();
        match content_of(sm, f) {
            Some(s) => match parse_program(s) {
                Ok(items) => lemma_definitions_monotone(prev, f, s, items, n),
                Err(_) => {},
            },
            None => {},
        }
    }
}

/// Definitions are available regardless of order: after the first pass over
/// all files, every name any of them defines is taken, whichever file or
/// position defines it.
pub proof fn law_first_passes_define_all(
    m: StructureModel,
    sm: crate::source_manager::SourceModel,
    files: Seq<FileId>,
    i: int,
    items: Seq<ItemModel>,
    k: int,
)
    requires
        0 <= i < files.len(),
        content_of(sm, files[i]) is Some,
        parse_program(content_of(sm, files[i])->0) == Ok::<Seq<ItemModel>, int>(items),
        0 <= k < items.len(),
        defined_name(content_of(sm, files[i])->0, items[k]) is Some,
    ensures
        is_defined(first_passes(m, sm, files), defined_name(content_of(sm, files[i])->0, items[k])->0),
    decreases files.len(),
{
    let s = content_of(sm, files[i])->0;
    let n = defined_name(s, items[k])->0;
    if i == files.len() - 1 {
        law_first_pass_defines(first_passes(m, sm, files.drop_last()), files[i], s, items, k);
    } else {
        assert(files.drop_last()[i] == files[i]);
        law_first_passes_define_all(m, sm, files.drop_last(), i, items, k);
        let prev = first_passes(m, sm, files.drop_last());
        let f = files.last();
        match content_of(sm, f) {
            Some(t) => match parse_program(t) {
                Ok(its) => lemma_definitions_monotone(prev, f, t, its, n),
                Err(_) => {},
            },
            None => {},
        }
    }
}

proof fn lemma_resolve_tokens_tables(
    m: StructureModel,
    file: FileId,
    s: Seq<char>,
    func: Seq<char>,
    dir: Seq<char>,
    ts: Seq<crate::parser::TokenNode>,
)
    ensures
        same_tables(resolve_tokens(m, file, s, func, dir, ts).0, m),
        resolve_tokens(m, file, s, func, dir, ts).0.catalog == m.catalog,
        resolve_tokens(m, file, s, func, dir, ts).0.flow == m.flow,
    decreases ts.len(),
{
    if ts.len() > 0 {
        lemma_resolve_tokens_tables(m, file, s, func, dir, ts.drop_last());
    }
}

proof fn lemma_resolve_outputs_tables(
    m: StructureModel,
    file: FileId,
    s: Seq<char>,
    func: Seq<char>,
    outs: Seq<crate::parser::OutputLineModel>,
)
    ensures
        same_tables(resolve_outputs(m, file, s, func, outs).0, m),
        resolve_outputs(m, file, s, func, outs).0.catalog == m.catalog,
    decreases outs.len(),
{
    if outs.len() > 0 {
        lemma_resolve_outputs_tables(m, file, s, func, outs.drop_last());
        let prev = resolve_outputs(m, file, s, func, outs.drop_last());
        lemma_resolve_tokens_tables(
            prev.0,
            file,
            s,
            func,
            crate::analyzer::output_dir((outs.len() - 1) as nat),
            outs.last().tokens,
        );
    }
}

proof fn lemma_resolution_step_tables(m: StructureModel, file: FileId, s: Seq<char>, it: ItemModel)
    ensures
        same_tables(resolution_step(m, file, s, it), m),
{
    match it {
        ItemModel::Function { name, inputs, outputs, .. } => {
            let n = text(s, name);
            lemma_resolve_tokens_tables(m, file, s, n, "in"@, inputs);
            let ins = resolve_tokens(m, file, s, n, "in"@, inputs);
            lemma_resolve_outputs_tables(ins.0, file, s, n, outputs);
            let m2 = resolve_outputs(ins.0, file, s, n, outputs).0;
            if m2.catalog.contains_key(n) {
                let f = link_function(m, file, s, name, inputs, outputs);
                assert(f.catalog.dom() =~= m2.catalog.dom());
            }
        },
        _ => {},
    }
}

/// The second pass resolves; it defines and removes nothing: the artifacts,
/// the groups and the names of the functions stay as the first pass left them.
pub proof fn law_second_pass_keeps_tables(m: StructureModel, file: FileId, s: Seq<char>, items: Seq<ItemModel>)
    ensures
        same_tables(resolutions(m, file, s, items), m),
    decreases items.len(),
{
    if items.len() > 0 {
        law_second_pass_keeps_tables(m, file, s, items.drop_last());
        lemma_resolution_step_tables(resolutions(m, file, s, items.drop_last()), file, s, items.last());
    }
}

/// A flow step naming a defined function resolves to it: it is recorded as
/// an occurrence of the function, and no error is reported.
pub proof fn law_flow_step_resolves(m: StructureModel, file: FileId, s: Seq<char>, e: crate::parser::Extent)
    requires
        m.catalog.contains_key(crate::text::trimmed(s, e.start as int, e.end as int)),
    ensures
        add_flow_step(m, file, s, e).diagnostics == m.diagnostics,
{
}

/// A name that is already taken is refused: the tables stay as they were and
/// the error is the one report the definition makes.
pub proof fn law_duplicate_refused(m: StructureModel, file: FileId, s: Seq<char>, it: ItemModel)
    requires
        defined_name(s, it) is Some,
        it is Definition,
        is_defined(m, defined_name(s, it)->0),
    ensures
        same_tables(definition_step(m, file, s, it), m),
        definition_step(m, file, s, it).diagnostics.len() == m.diagnostics.len() + 1,
        definition_step(m, file, s, it).diagnostics.last().message == crate::analyzer::duplicate_message(
            defined_name(s, it)->0,
        ),
{
}

/// Unused symbols: each symbol written only where it is defined gets a
/// warning, and each warning is for such a symbol.
pub proof fn law_unused_warnings(symbols: Map<u32, SymbolModel>, order: Seq<u32>)
    ensures
        forall|j: int|
            0 <= j < order.len() && (#[trigger] symbols[order[j]]).occurrences.len() == 1 ==> unused_warnings(
                symbols,
                order,
            ).contains(unused_warning(symbols[order[j]])),
        forall|k: int|
            0 <= k < unused_warnings(symbols, order).len() ==> exists|j: int|
                0 <= j < order.len() && symbols[order[j]].occurrences.len() == 1 && #[trigger] unused_warnings(
                    symbols,
                    order,
                )[k] == unused_warning(symbols[order[j]]),
    decreases order.len(),
{
    if order.len() > 0 {
        law_unused_warnings(symbols, order.drop_last());
        let prev = unused_warnings(symbols, order.drop_last());
        let w = unused_warnings(symbols, order);
        let last = symbols[order.last()];
        assert forall|j: int|
            0 <= j < order.len() && (#[trigger] symbols[order[j]]).occurrences.len() == 1 implies w.contains(
            unused_warning(symbols[order[j]]),
        ) by {
            if j < order.len() - 1 {
                assert(order.drop_last()[j] == order[j]);
                assert(prev.contains(unused_warning(symbols[order[j]])));
                let q = choose|q: int| 0 <= q < prev.len() && prev[q] == unused_warning(symbols[order[j]]);
                if last.occurrences.len() == 1 {
                    assert(w[q] == prev[q]);
                }
            } else {
                assert(w[w.len() - 1] == unused_warning(last));
            }
        }
        assert forall|k: int| 0 <= k < w.len() implies exists|j: int|
            0 <= j < order.len() && symbols[order[j]].occurrences.len() == 1 && #[trigger] w[k] == unused_warning(
                symbols[order[j]],
            ) by {
            if k < prev.len() {
                let j = choose|j: int|
                    0 <= j < order.drop_last().len() && symbols[order.drop_last()[j]].occurrences.len() == 1
                        && prev[k] == unused_warning(symbols[order.drop_last()[j]]);
                assert(order[j] == order.drop_last()[j]);
                if last.occurrences.len() == 1 {
                    assert(w[k] == prev[k]);
                }
            } else {
                assert(w[k] == unused_warning(last));
                assert(order[order.len() - 1] == order.last());
            }
        }
    }
}

} // verus!

verus! {

/// The structures agree in everything but their diagnostics.
pub open spec fn same_but_diagnostics(a: StructureModel, b: StructureModel) -> bool {
    &&& a.artifacts == b.artifacts
    &&& a.groups == b.groups
    &&& a.catalog == b.catalog
    &&& a.flow == b.flow
    &&& a.symbols == b.symbols
    &&& a.symbol_order == b.symbol_order
}

proof fn lemma_scan_items_st(c: ScanState, file: FileId, s: Seq<char>, items: Seq<ItemModel>, disk: Seq<DiskEntry>)
    ensures
        same_but_diagnostics(scan_items(c, file, s, items, disk).st, c.st),
    decreases items.len(),
{
    if items.len() > 0 {
        lemma_scan_items_st(c, file, s, items.drop_last(), disk);
    }
}

proof fn lemma_add_edges_st(d: Discovery, cur: FileId, found: Seq<(Seq<char>, crate::models::Span)>)
    ensures
        add_edges(d, cur, found).st == d.st,
    decreases found.len(),
{
    if found.len() > 0 {
        lemma_add_edges_st(d, cur, found.drop_last());
    }
}

proof fn lemma_discover_st(d: Discovery, disk: Seq<DiskEntry>, f: nat)
    ensures
        same_but_diagnostics(discover(d, disk, f).st, d.st),
    decreases f,
{
    if f > 0 && d.head < d.queue.len() {
        let n = bfs_step(d, disk);
        let cur = d.queue[d.head as int];
        if !d.visited.contains(cur) {
            let d2 = Discovery { visited: d.visited.push(cur), head: d.head + 1, ..d };
            let l = if d2.sm.contents.contains_key(cur) {
                (d2.sm, true, d2.missing)
            } else {
                crate::analyzer::load_spec(d2.sm, cur, None, disk, d2.missing)
            };
            if l.1 {
                let c = ScanState { sm: l.0, st: d2.st, missing: l.2, found: Seq::empty() };
                match parse_program(l.0.contents[cur]) {
                    Ok(items) => lemma_scan_items_st(c, cur, l.0.contents[cur], items, disk),
                    Err(_) => {},
                }
                let sc = scan_file(c, cur, l.0.contents[cur], disk);
                lemma_add_edges_st(Discovery { sm: sc.sm, st: sc.st, missing: sc.missing, ..d2 }, cur, sc.found);
            }
        }
        lemma_discover_st(n, disk, (f - 1) as nat);
    }
}

/// Circular imports stop the analysis: the cycle is reported, and no file is
/// analyzed, so nothing is defined.
pub proof fn law_cycle_stops_analysis(
    sm0: crate::source_manager::SourceModel,
    root: Seq<char>,
    root_content: Option<Seq<char>>,
    disk: Seq<DiskEntry>,
)
    ensures
        ({
            let (sm1, rid) = crate::source_manager::model_get_id(sm0, root);
            let l = crate::analyzer::load_spec(sm1, rid, root_content, disk, Seq::empty());
            let d = discover(
                Discovery {
                    sm: l.0,
                    st: crate::analyzer::empty_structure(),
                    missing: l.2,
                    queue: seq![rid],
                    head: 0,
                    visited: Seq::empty(),
                    graph: Map::empty(),
                },
                disk,
                fuel(),
            );
            let a = analysis(sm0, root, root_content, disk);
            dfs(d.graph, rid, Seq::empty(), Seq::empty(), fuel()).0 is Some ==> {
                &&& a.1.artifacts.dom().len() == 0
                &&& a.1.groups.dom().len() == 0
                &&& a.1.catalog.dom().len() == 0
                &&& a.1.flow.len() == 0
                &&& a.1.diagnostics.len() > 0
                &&& a.1.diagnostics.last().message.take(30) == "Circular dependency detected: "@
            }
        }),
{
    let (sm1, rid) = crate::source_manager::model_get_id(sm0, root);
    let l = crate::analyzer::load_spec(sm1, rid, root_content, disk, Seq::empty());
    let d0 = Discovery {
        sm: l.0,
        st: crate::analyzer::empty_structure(),
        missing: l.2,
        queue: seq![rid],
        head: 0,
        visited: Seq::empty(),
        graph: Map::empty(),
    };
    lemma_discover_st(d0, disk, fuel());
    let d = discover(d0, disk, fuel());
    match dfs(d.graph, rid, Seq::empty(), Seq::empty(), fuel()).0 {
        Some(path) => {
            let msg = crate::analyzer::cycle_message(d.sm, path);
            reveal_strlit("Circular dependency detected: ");
            assert(msg.take(30) =~= "Circular dependency detected: "@);
            assert(d.st.artifacts.dom() =~= Set::<Seq<char>>::empty());
            assert(d.st.groups.dom() =~= Set::<Seq<char>>::empty());
            assert(d.st.catalog.dom() =~= Set::<Seq<char>>::empty());
        },
        None => {},
    }
}

// --- Formatting ---

/// Formatting succeeds exactly on the sources that parse.
pub proof fn law_format_iff_parse(s: Seq<char>)
    ensures
        formatted(s) is Some <==> parse_program(s) is Ok,
{
}

/// A formatted source is empty, or ends with a newline.
pub proof fn law_format_ends_with_newline(s: Seq<char>)
    ensures
        formatted(s) matches Some(o) ==> o.len() == 0 || o.last() == '\n',
{
}

} // verus!

verus! {

// --- Documentation comments ---

/// Documentation is the block of `#` lines directly above a definition: each
/// documentation line ends at a newline, the next one starts on the following
/// line after nothing but spaces and tabs, and so does the definition after
/// the last one. A blank line therefore ends a documentation block.
pub proof fn law_doc_lines_adjacent(s: Seq<char>, i: int)
    requires
        0 <= i <= s.len(),
        s.len() <= usize::MAX,
    ensures
        ({
            let (ds, e) = doc_lines_at(s, i);
            &&& forall|k: int|
                0 <= k < ds.len() ==> s[#[trigger] ds[k].start as int] == '#' && (ds[k].end as int) < s.len()
                    && s[ds[k].end as int] == '\n' && forall|j: int| ds[k].start <= j < ds[k].end ==> s[j] != '\n'
            &&& forall|k: int| 0 < k < ds.len() ==> (#[trigger] ds[k]).start as int == skip_ws(s, ds[k - 1].end + 1)
            &&& ds.len() > 0 ==> e == skip_ws(s, ds.last().end + 1)
            &&& ds.len() > 0 ==> ds[0].start == i
            &&& ds.len() == 0 ==> e == i
        }),
    decreases s.len() - i,
{
    let r = doc_lines_at(s, i);
    match crate::parser::doc_line_at(s, i) {
        Some((d, e)) => {
            lemma_scan_bounds(s, i);
            if 0 <= i < e <= s.len() {
                let le = line_end(s, i);
                lemma_scan_bounds(s, le + 1);
                law_doc_lines_adjacent(s, e);
                let rest = doc_lines_at(s, e);
                let ds = seq![d] + rest.0;
                assert(ds == r.0);
                assert(d.start == i && d.end == le);
                assert(e == skip_ws(s, le + 1));
                assert forall|k: int|
                    0 <= k < ds.len() implies s[#[trigger] ds[k].start as int] == '#' && (ds[k].end as int) < s.len()
                        && s[ds[k].end as int] == '\n' && forall|j: int| ds[k].start <= j < ds[k].end ==> s[j] != '\n' by {
                    if k > 0 {
                        assert(ds[k] == rest.0[k - 1]);
                    } else {
                        assert(ds[0] == d);
                    }
                }
                assert forall|k: int| 0 < k < ds.len() implies (#[trigger] ds[k]).start as int == skip_ws(
                    s,
                    ds[k - 1].end + 1,
                ) by {
                    if k == 1 {
                        assert(ds[1] == rest.0[0]);
                        assert(ds[0] == d);
                    } else {
                        assert(ds[k - 1] == rest.0[k - 2]);
                        assert(ds[k] == rest.0[k - 1]);
                    }
                }
                if rest.0.len() > 0 {
                    assert(ds.last() == rest.0.last());
                }
            }
        },
        None => {},
    }
}

} // verus!

verus! {

// --- The first engine model ---

/// A requirement met from the pool: one edge to the consumer, the token
/// recorded as consumed, and removed from the pool exactly when mutable. A
/// requirement nothing matches changes nothing.
pub proof fn law_pipeline_consume(p: PipelinePool, req: PipelineToken, consumer: u32)
    ensures
        ({
            let r = pool_consume(p, req, consumer);
            match first_named(p.available, req.name, 0) {
                Some(k) => {
                    &&& r.1.len() == 1
                    &&& r.1[0].destination_uid == Some(consumer)
                    &&& r.0.consumed == p.consumed.push(p.available[k])
                    &&& r.0.available.len() == if p.available[k].is_mutable {
                        p.available.len() - 1
                    } else {
                        p.available.len() as int
                    }
                },
                None => r.0 == p && r.1.len() == 0 && !r.2,
            }
        }),
{
    crate::pipeline::lemma_first_named(p.available, req.name, 0);
}

/// Every leftover is routed: one edge each, to the end node unless its name
/// holds `Error`.
pub proof fn law_leftovers_routed(r: Routing, leftovers: Seq<PipelineToken>, end_uid: u32)
    ensures
        route(r, leftovers, end_uid).edges.len() == r.edges.len() + leftovers.len(),
        forall|k: int|
            0 <= k < leftovers.len() ==> (#[trigger] route(r, leftovers, end_uid).edges[r.edges.len() + k]).destination_uid
                is Some,
        forall|k: int|
            0 <= k < leftovers.len() && !names_error(leftovers[k].name) ==> (#[trigger] route(
                r,
                leftovers,
                end_uid,
            ).edges[r.edges.len() + k]).destination_uid == Some(end_uid),
    decreases leftovers.len(),
{
    if leftovers.len() > 0 {
        law_leftovers_routed(r, leftovers.drop_last(), end_uid);
        let p = route(r, leftovers.drop_last(), end_uid);
        let q = route(r, leftovers, end_uid);
        assert(q.edges == p.edges.push(q.edges.last()));
        assert forall|k: int| 0 <= k < leftovers.len() implies (#[trigger] q.edges[r.edges.len() + k]).destination_uid is Some by {
            if k < leftovers.len() - 1 {
                assert(q.edges[r.edges.len() + k] == p.edges[r.edges.len() + k]);
            }
        }
        assert forall|k: int|
            0 <= k < leftovers.len() && !names_error(leftovers[k].name) implies (#[trigger] q.edges[r.edges.len()
            + k]).destination_uid == Some(end_uid) by {
            if k < leftovers.len() - 1 {
                assert(q.edges[r.edges.len() + k] == p.edges[r.edges.len() + k]);
                assert(leftovers.drop_last()[k] == leftovers[k]);
            }
        }
    }
}

} // verus!

verus! {

proof fn lemma_no_error_outputs(outs: Seq<Seq<char>>, errors: Seq<Seq<char>>)
    ensures
        error_outputs(outs, errors).len() == 0 <==> forall|k: int| 0 <= k < outs.len() ==> !errors.contains(#[trigger] outs[k]),
    decreases outs.len(),
{
    if outs.len() > 0 {
        lemma_no_error_outputs(outs.drop_last(), errors);
        if !errors.contains(outs.last()) && error_outputs(outs.drop_last(), errors).len() == 0 {
            assert forall|k: int| 0 <= k < outs.len() implies !errors.contains(#[trigger] outs[k]) by {
                if k < outs.len() - 1 {
                    assert(outs.drop_last()[k] == outs[k]);
                }
            }
        }
        if forall|k: int| 0 <= k < outs.len() ==> !errors.contains(#[trigger] outs[k]) {
            assert forall|k: int| 0 <= k < outs.drop_last().len() implies !errors.contains(#[trigger] outs.drop_last()[k]) by {
                assert(outs.drop_last()[k] == outs[k]);
            }
            assert(!errors.contains(outs[outs.len() - 1]));
        }
    }
}

/// Error path analysis: an assignment is reported safe exactly when no
/// output of its function is an error type, and a type mismatch is reported
/// exactly when the argument's type is not the function's input type.
pub proof fn law_assignment_safety(m: AnalyzerModel, target: Seq<char>, function: Seq<char>, argument: Seq<char>)
    requires
        assignment_resolves(m, function, argument),
    ensures
        ({
            let r = assignment_findings(m, target, function, argument);
            let sig = lookup(m.functions, function).unwrap();
            let ty = lookup(m.instances, argument).unwrap();
            &&& (r.last() == FindingModel::Safe { target }) <==> forall|k: int|
                0 <= k < sig.outputs.len() ==> !m.errors.contains(#[trigger] sig.outputs[k])
            &&& (r[0] is TypeMismatch) <==> sig.input != ty
        }),
{
    let sig = lookup(m.functions, function).unwrap();
    lemma_no_error_outputs(sig.outputs, m.errors);
}

} // verus!

verus! {

/// Branching: a pool that can run a step becomes one pool per output
/// branch, pool `b` holding what the consumption left plus the outputs of
/// branch `b`; a pool that cannot run it stays as it was.
pub proof fn law_branching(p: PoolModel, func: Function, node: Node)
    ensures
        ({
            let st = match_all(p, func.consumes@, node);
            let r = pool_step(p, func, node);
            &&& r.executed <==> missing_of(func.consumes@, st.consumed).len() == 0
            &&& r.executed && func.produces@.len() > 0 ==> {
                &&& r.next.len() == func.produces@.len()
                &&& forall|b: int|
                    0 <= b < func.produces@.len() ==> #[trigger] r.next[b] == produced(
                        after_consumption(p, st, node.uid),
                        func.produces@[b]@,
                        node,
                    )
            }
            &&& !r.executed ==> r.next == seq![p] && r.edges.len() == 0
        }),
{
}

/// Starvation: a step reports an error exactly when its function needs
/// inputs and no pool can provide them; the error is the step's only report.
pub proof fn law_starvation(m: FlowModel, func: std::sync::Arc<Function>, step: FlowStep)
    ensures
        ({
            let r = step_pools(m.pools, *func, step_node(func));
            let next = run_step_model(m, func, step);
            &&& (!r.executed && func.consumes@.len() > 0) ==> next.diagnostics == m.diagnostics.push(
                starvation(*func, step, r.missing_names),
            )
            &&& (r.executed || func.consumes@.len() == 0) ==> next.diagnostics == m.diagnostics
        }),
{
}

} // verus!

verus! {

/// Each file of `s` imports the next one.
pub open spec fn import_chain(g: Map<FileId, Seq<FileId>>, s: Seq<FileId>) -> bool {
    forall|i: int| 0 <= i < s.len() - 1 ==> #[trigger] neighbors(g, s[i]).contains(s[i + 1])
}

proof fn lemma_dfs_sound(g: Map<FileId, Seq<FileId>>, cur: FileId, visited: Seq<FileId>, path: Seq<FileId>, fuel: nat)
    requires
        import_chain(g, path.push(cur)),
    ensures
        dfs(g, cur, visited, path, fuel).0 matches Some(c) ==> {
            &&& c.len() >= path.len() + 2
            &&& c.take(path.len() as int + 1) == path.push(cur)
            &&& import_chain(g, c)
            &&& c.drop_last().contains(c.last())
        },
    decreases fuel, 0nat, 0nat,
{
    if fuel > 0 {
        lemma_dfs_from_sound(g, neighbors(g, cur), 0, visited.push(cur), path.push(cur), (fuel - 1) as nat);
    }
}

proof fn lemma_dfs_from_sound(
    g: Map<FileId, Seq<FileId>>,
    ns: Seq<FileId>,
    k: nat,
    visited: Seq<FileId>,
    path: Seq<FileId>,
    fuel: nat,
)
    requires
        path.len() > 0,
        ns == neighbors(g, path.last()),
        import_chain(g, path),
    ensures
        dfs_from(g, ns, k, visited, path, fuel).0 matches Some(c) ==> {
            &&& c.len() >= path.len() + 1
            &&& c.take(path.len() as int) == path
            &&& import_chain(g, c)
            &&& c.drop_last().contains(c.last())
        },
    decreases fuel, 1nat, ns.len() - k,
{
    if k < ns.len() {
        let n = ns[k as int];
        assert(neighbors(g, path.last()).contains(n));
        if path.contains(n) {
            let c = path.push(n);
            assert(c.take(path.len() as int) =~= path);
            assert(c.drop_last() =~= path);
            assert forall|i: int| 0 <= i < c.len() - 1 implies #[trigger] neighbors(g, c[i]).contains(c[i + 1]) by {
                if i < path.len() - 1 {
                    assert(neighbors(g, path[i]).contains(path[i + 1]));
                }
            }
        } else if !visited.contains(n) {
            assert forall|i: int| 0 <= i < path.push(n).len() - 1 implies #[trigger] neighbors(g, path.push(n)[i]).contains(
                path.push(n)[i + 1],
            ) by {
                if i < path.len() - 1 {
                    assert(neighbors(g, path[i]).contains(path[i + 1]));
                }
            }
            lemma_dfs_sound(g, n, visited, path, fuel);
            let r = dfs(g, n, visited, path, fuel);
            if let Some(c) = r.0 {
                assert(c.take(path.len() as int) =~= c.take(path.len() as int + 1).take(path.len() as int));
                assert(path.push(n).take(path.len() as int) =~= path);
            } else {
                lemma_dfs_from_sound(g, ns, k + 1, r.1, path, fuel);
            }
        } else {
            lemma_dfs_from_sound(g, ns, k + 1, visited, path, fuel);
        }
    }
}

/// A reported import cycle is real: it starts at the root, each file on it
/// imports the next, and it ends at a file already on it.
pub proof fn law_reported_cycle_is_real(g: Map<FileId, Seq<FileId>>, root: FileId, fuel: nat)
    ensures
        dfs(g, root, Seq::empty(), Seq::empty(), fuel).0 matches Some(c) ==> {
            &&& c.len() >= 2
            &&& c[0] == root
            &&& import_chain(g, c)
            &&& c.drop_last().contains(c.last())
        },
{
    assert(Seq::<FileId>::empty().push(root) =~= seq![root]);
    lemma_dfs_sound(g, root, Seq::empty(), Seq::empty(), fuel);
    if let Some(c) = dfs(g, root, Seq::empty(), Seq::empty(), fuel).0 {
        assert(c.take(1)[0] == c[0]);
    }
}

} // verus!

verus! {

// --- Completeness of the cycle search ---

/// The order in which the search of `dfs` finishes files, after `done`.
spec fn fin(
    g: Map<FileId, Seq<FileId>>,
    cur: FileId,
    visited: Seq<FileId>,
    path: Seq<FileId>,
    done: Seq<FileId>,
    fuel: nat,
) -> Seq<FileId>
    decreases fuel, 0nat, 0nat,
{
    if fuel == 0 {
        done
    } else {
        fin_from(g, neighbors(g, cur), 0, visited.push(cur), path.push(cur), done, (fuel - 1) as nat).push(cur)
    }
}

spec fn fin_from(
    g: Map<FileId, Seq<FileId>>,
    ns: Seq<FileId>,
    k: nat,
    visited: Seq<FileId>,
    path: Seq<FileId>,
    done: Seq<FileId>,
    fuel: nat,
) -> Seq<FileId>
    decreases fuel, 1nat, ns.len() - k,
{
    if k >= ns.len() {
        done
    } else {
        let n = ns[k as int];
        if path.contains(n) {
            done
        } else if !visited.contains(n) {
            let r = dfs(g, n, visited, path, fuel);
            if r.0 is Some {
                done
            } else {
                fin_from(g, ns, k + 1, r.1, path, fin(g, n, visited, path, done, fuel), fuel)
            }
        } else {
            fin_from(g, ns, k + 1, visited, path, done, fuel)
        }
    }
}

/// The state of the search: the files visited are those on the path and
/// those finished; each import of a finished file was finished before it.
spec fn search_state(g: Map<FileId, Seq<FileId>>, visited: Seq<FileId>, path: Seq<FileId>, done: Seq<FileId>) -> bool {
    &&& path.no_duplicates()
    &&& done.no_duplicates()
    &&& forall|x: FileId| #[trigger] visited.contains(x) <==> (path.contains(x) || done.contains(x))
    &&& forall|x: FileId| #[trigger] path.contains(x) ==> !done.contains(x)
    &&& forall|i: int, y: FileId|
        0 <= i < done.len() && #[trigger] neighbors(g, done[i]).contains(y) ==> exists|j: int|
            0 <= j < i && #[trigger] done[j] == y
}

proof fn lemma_distinct_ids_bound(s: Seq<FileId>)
    requires
        s.no_duplicates(),
    ensures
        s.len() <= 0x1_0000_0000,
{
    let f = |x: FileId| x as int;
    assert(injective(f));
    s.lemma_no_duplicates_injective(f);
    let t = s.map_values(f);
    t.unique_seq_to_set();
    lemma_int_range(0, 0x1_0000_0000);
    assert(t.to_set().subset_of(set_int_range(0, 0x1_0000_0000))) by {
        assert forall|x: int| t.to_set().contains(x) implies set_int_range(0, 0x1_0000_0000).contains(x) by {
            let k = choose|k: int| 0 <= k < t.len() && t[k] == x;
            assert(t[k] == s[k] as int);
        }
    }
    lemma_len_subset(t.to_set(), set_int_range(0, 0x1_0000_0000));
}

proof fn lemma_dfs_complete(
    g: Map<FileId, Seq<FileId>>,
    cur: FileId,
    visited: Seq<FileId>,
    path: Seq<FileId>,
    done: Seq<FileId>,
    fuel: nat,
)
    requires
        search_state(g, visited, path, done),
        !visited.contains(cur),
        fuel + path.len() >= 0x1_0000_0001,
    ensures
        dfs(g, cur, visited, path, fuel).0 is None ==> {
            let v2 = dfs(g, cur, visited, path, fuel).1;
            let d2 = fin(g, cur, visited, path, done, fuel);
            &&& search_state(g, v2, path, d2)
            &&& d2.contains(cur)
            &&& forall|x: FileId| #[trigger] done.contains(x) ==> d2.contains(x)
        },
    decreases fuel, 0nat, 0nat,
{
    let p2 = path.push(cur);
    let v1 = visited.push(cur);
    assert(!path.contains(cur));
    assert(!done.contains(cur));
    assert(p2.no_duplicates()) by {
        assert forall|i: int, j: int| 0 <= i < j < p2.len() implies p2[i] != p2[j] by {
            if j == p2.len() - 1 {
                assert(path.contains(p2[i]));
            }
        }
    }
    lemma_distinct_ids_bound(p2);
    assert(fuel >= 2);
    assert(search_state(g, v1, p2, done)) by {
        assert forall|x: FileId| #[trigger] v1.contains(x) <==> (p2.contains(x) || done.contains(x)) by {
            if v1.contains(x) && x != cur {
                let k = choose|k: int| 0 <= k < v1.len() && v1[k] == x;
                assert(visited[k] == x);
            }
            if p2.contains(x) && x != cur {
                let k = choose|k: int| 0 <= k < p2.len() && p2[k] == x;
                assert(path[k] == x);
            }
            if x == cur {
                assert(v1[v1.len() - 1] == cur);
                assert(p2[p2.len() - 1] == cur);
            }
            if visited.contains(x) {
                let k = choose|k: int| 0 <= k < visited.len() && visited[k] == x;
                assert(v1[k] == x);
            }
            if path.contains(x) {
                let k = choose|k: int| 0 <= k < path.len() && path[k] == x;
                assert(p2[k] == x);
            }
        }
        assert forall|x: FileId| #[trigger] p2.contains(x) implies !done.contains(x) by {
            if x != cur {
                let k = choose|k: int| 0 <= k < p2.len() && p2[k] == x;
                assert(path[k] == x);
                assert(path.contains(x));
            }
        }
    }
    let ns = neighbors(g, cur);
    assert(p2.last() == cur);
    lemma_dfs_from_complete(g, ns, 0, v1, p2, done, (fuel - 1) as nat);
    if dfs(g, cur, visited, path, fuel).0 is None {
        let r = dfs_from(g, ns, 0, v1, p2, (fuel - 1) as nat);
        let d1 = fin_from(g, ns, 0, v1, p2, done, (fuel - 1) as nat);
        let d2 = d1.push(cur);
        let v2 = r.1;
        assert(d2 == fin(g, cur, visited, path, done, fuel));
        assert(p2.contains(cur)) by {
            assert(p2[p2.len() - 1] == cur);
        }
        assert(!d1.contains(cur));
        assert(d2.no_duplicates()) by {
            assert forall|i: int, j: int| 0 <= i < j < d2.len() implies d2[i] != d2[j] by {
                if j == d2.len() - 1 {
                    assert(d1.contains(d2[i]));
                }
            }
        }
        assert forall|x: FileId| #[trigger] v2.contains(x) <==> (path.contains(x) || d2.contains(x)) by {
            if d2.contains(x) && x != cur {
                let k = choose|k: int| 0 <= k < d2.len() && d2[k] == x;
                assert(d1[k] == x);
            }
            if d1.contains(x) {
                let k = choose|k: int| 0 <= k < d1.len() && d1[k] == x;
                assert(d2[k] == x);
            }
            if x == cur {
                assert(d2[d2.len() - 1] == cur);
            }
            if path.contains(x) {
                let k = choose|k: int| 0 <= k < path.len() && path[k] == x;
                assert(p2[k] == x);
            }
            if p2.contains(x) && x != cur {
                let k = choose|k: int| 0 <= k < p2.len() && p2[k] == x;
                assert(path[k] == x);
            }
        }
        assert forall|x: FileId| #[trigger] path.contains(x) implies !d2.contains(x) by {
            let k = choose|k: int| 0 <= k < path.len() && path[k] == x;
            assert(p2[k] == x);
            assert(p2.contains(x));
            assert(x != cur);
            if d2.contains(x) {
                let m = choose|m: int| 0 <= m < d2.len() && d2[m] == x;
                assert(d1[m] == x);
            }
        }
        assert forall|i: int, y: FileId|
            0 <= i < d2.len() && #[trigger] neighbors(g, d2[i]).contains(y) implies exists|j: int|
                0 <= j < i && #[trigger] d2[j] == y by {
            if i < d1.len() {
                assert(d1[i] == d2[i]);
                let j = choose|j: int| 0 <= j < i && #[trigger] d1[j] == y;
                assert(d2[j] == y);
            } else {
                let k = choose|k: int| 0 <= k < ns.len() && ns[k] == y;
                assert(d1.contains(ns[k]));
                let j = choose|j: int| 0 <= j < d1.len() && d1[j] == y;
                assert(d2[j] == y);
            }
        }
        assert(d2[d2.len() - 1] == cur);
        assert forall|x: FileId| #[trigger] done.contains(x) implies d2.contains(x) by {
            assert(d1.contains(x));
            let k = choose|k: int| 0 <= k < d1.len() && d1[k] == x;
            assert(d2[k] == x);
        }
    }
}

proof fn lemma_dfs_from_complete(
    g: Map<FileId, Seq<FileId>>,
    ns: Seq<FileId>,
    k: nat,
    visited: Seq<FileId>,
    path: Seq<FileId>,
    done: Seq<FileId>,
    fuel: nat,
)
    requires
        path.len() > 0,
        ns == neighbors(g, path.last()),
        k <= ns.len(),
        search_state(g, visited, path, done),
        forall|j: int| 0 <= j < k ==> done.contains(#[trigger] ns[j]),
        fuel + path.len() >= 0x1_0000_0001,
    ensures
        dfs_from(g, ns, k, visited, path, fuel).0 is None ==> {
            let v2 = dfs_from(g, ns, k, visited, path, fuel).1;
            let d2 = fin_from(g, ns, k, visited, path, done, fuel);
            &&& search_state(g, v2, path, d2)
            &&& forall|j: int| 0 <= j < ns.len() ==> d2.contains(#[trigger] ns[j])
            &&& forall|x: FileId| #[trigger] done.contains(x) ==> d2.contains(x)
        },
    decreases fuel, 1nat, ns.len() - k,
{
    if k < ns.len() {
        let n = ns[k as int];
        if path.contains(n) {
        } else if !visited.contains(n) {
            lemma_dfs_complete(g, n, visited, path, done, fuel);
            let r = dfs(g, n, visited, path, fuel);
            if r.0 is None {
                let d1 = fin(g, n, visited, path, done, fuel);
                lemma_dfs_from_complete(g, ns, k + 1, r.1, path, d1, fuel);
                if dfs_from(g, ns, k, visited, path, fuel).0 is None {
                    let d2 = fin_from(g, ns, k + 1, r.1, path, d1, fuel);
                    assert forall|x: FileId| #[trigger] done.contains(x) implies d2.contains(x) by {
                        assert(d1.contains(x));
                    }
                }
            }
        } else {
            assert(done.contains(n));
            lemma_dfs_from_complete(g, ns, k + 1, visited, path, done, fuel);
        }
    }
}

/// `x` is finished at position `bound` or earlier.
spec fn finished_by(d: Seq<FileId>, x: FileId, bound: int) -> bool {
    exists|q: int| 0 <= q < d.len() && #[trigger] d[q] == x && q <= bound
}

/// Along a chain of imports, finished files are finished in decreasing order.
proof fn lemma_chain_positions(g: Map<FileId, Seq<FileId>>, d: Seq<FileId>, c: Seq<FileId>, a: int, pa: int)
    requires
        import_chain(g, c),
        0 <= a < c.len(),
        0 <= pa < d.len(),
        d[pa] == c[a],
        forall|i: int, y: FileId|
            0 <= i < d.len() && #[trigger] neighbors(g, d[i]).contains(y) ==> exists|j: int|
                0 <= j < i && #[trigger] d[j] == y,
    ensures
        forall|b: int| #![trigger c[b]] a <= b < c.len() ==> finished_by(d, c[b], pa - (b - a)),
    decreases c.len() - a,
{
    assert(d[pa] == c[a] && pa <= pa - (a - a));
    if a + 1 < c.len() {
        assert(neighbors(g, c[a]).contains(c[a + 1]));
        assert(neighbors(g, d[pa]).contains(c[a + 1]));
        let j = choose|j: int| 0 <= j < pa && #[trigger] d[j] == c[a + 1];
        lemma_chain_positions(g, d, c, a + 1, j);
        assert forall|b: int| #![trigger c[b]] a <= b < c.len() implies finished_by(d, c[b], pa - (b - a)) by {
            if b == a {
                assert(d[pa] == c[b]);
            } else {
                assert(finished_by(d, c[b], j - (b - (a + 1))));
                let q = choose|q: int| 0 <= q < d.len() && #[trigger] d[q] == c[b] && q <= j - (b - (a + 1));
                assert(q <= pa - (b - a));
            }
        }
    } else {
        assert forall|b: int| #![trigger c[b]] a <= b < c.len() implies finished_by(d, c[b], pa - (b - a)) by {
            assert(b == a);
            assert(d[pa] == c[b]);
        }
    }
}

/// Import cycles are found: when a chain of imports from the root comes back
/// to a file already on it, the search reports a cycle.
pub proof fn law_cycle_found(g: Map<FileId, Seq<FileId>>, root: FileId, c: Seq<FileId>)
    requires
        c.len() >= 2,
        c[0] == root,
        import_chain(g, c),
        c.drop_last().contains(c.last()),
    ensures
        dfs(g, root, Seq::empty(), Seq::empty(), fuel()).0 is Some,
{
    let e = Seq::<FileId>::empty();
    assert(search_state(g, e, e, e));
    lemma_dfs_complete(g, root, e, e, e, fuel());
    if dfs(g, root, e, e, fuel()).0 is None {
        let d = fin(g, root, e, e, e, fuel());
        assert(d.contains(root));
        let p0 = choose|p: int| 0 <= p < d.len() && d[p] == root;
        lemma_chain_positions(g, d, c, 0, p0);
        let last = c.len() - 1;
        let m = choose|m: int| 0 <= m < c.drop_last().len() && c.drop_last()[m] == c.last();
        assert(c[m] == c[last]);
        assert(finished_by(d, c[m], p0 - (m - 0)));
        let qm = choose|q: int| 0 <= q < d.len() && #[trigger] d[q] == c[m] && q <= p0 - (m - 0);
        lemma_chain_positions(g, d, c, m, qm);
        assert(finished_by(d, c[last], qm - (last - m)));
        let ql = choose|q: int| 0 <= q < d.len() && #[trigger] d[q] == c[last] && q <= qm - (last - m);
        assert(ql < qm);
        assert(d[ql] == d[qm]);
    }
}

} // verus!

verus! {

// --- Deduplication across whole simulations ---

proof fn lemma_steps_ignore_flag(
    m: FlowModel,
    b: bool,
    catalog: crate::models::NameMap<std::sync::Arc<Function>>,
    steps: Seq<FlowStep>,
)
    ensures
        sim_steps(FlowModel { deduplicate_edges: b, ..m }, catalog, steps) == (FlowModel {
            deduplicate_edges: b,
            ..sim_steps(m, catalog, steps)
        }),
    decreases steps.len(),
{
    if steps.len() > 0 {
        lemma_steps_ignore_flag(m, b, catalog, steps.drop_last());
    }
}

/// Deduplication changes only the edges: a deduplicating simulation has the
/// nodes, pools and diagnostics of the plain one, its edges are the plain
/// edges without the later repetitions of a route, in order, and no two of
/// its edges share a route.
pub proof fn law_dedup_simulation(m: FlowModel, s: crate::models::ProgramStructure, i: Node, f: Node, e: Node)
    requires
        !m.deduplicate_edges,
    ensures
        ({
            let d = simulated(FlowModel { deduplicate_edges: true, ..m }, s, i, f, e);
            let p = simulated(m, s, i, f, e);
            &&& d.nodes == p.nodes
            &&& d.edges == dedup_edges(p.edges)
            &&& d.pools == p.pools
            &&& d.diagnostics == p.diagnostics
            &&& forall|j: int, k: int|
                0 <= j < k < d.edges.len() ==> !same_route(#[trigger] d.edges[j], #[trigger] d.edges[k])
        }),
{
    let md = FlowModel { deduplicate_edges: true, ..m };
    let seeded = FlowModel {
        nodes: m.nodes,
        edges: m.edges,
        pools: m.pools.push(seeded_pool(crate::engine::seed_tokens(s.catalog, s.flow@), i)),
        deduplicate_edges: m.deduplicate_edges,
        diagnostics: m.diagnostics,
    };
    lemma_steps_ignore_flag(seeded, true, s.catalog, s.flow@);
    assert(FlowModel { deduplicate_edges: true, ..seeded } == FlowModel {
        nodes: md.nodes,
        edges: md.edges,
        pools: md.pools.push(seeded_pool(crate::engine::seed_tokens(s.catalog, s.flow@), i)),
        deduplicate_edges: md.deduplicate_edges,
        diagnostics: md.diagnostics,
    });
    let p = simulated(m, s, i, f, e);
    law_dedup_unique(p.edges);
}

} // verus!

verus! {

// --- The name hash ---

/// The hash of a name grows one FNV-1a round per ASCII character: the hash
/// of the empty name is the offset basis, and appending an ASCII character
/// xors its code into the hash and multiplies by the FNV prime.
pub proof fn law_hash_append(s: Seq<char>, c: char)
    requires
        (c as u32) < 0x80,
    ensures
        spec_hash_name(Seq::empty()) == FNV_OFFSET_BASIS,
        spec_hash_name(s.push(c)) == (spec_hash_name(s) ^ (c as u32)).wrapping_mul(FNV_PRIME),
{
    assert(vstd::utf8::encode_utf8(Seq::<char>::empty()) =~= Seq::<u8>::empty());
    assert(s.push(c) =~= s + seq![c]);
    crate::text::lemma_encode_concat(s, seq![c]);
    let v = c as u32;
    let byte = (v & 0x7F) as u8;
    assert(((v & 0x7F) as u8) as u32 == v) by (bit_vector)
        requires
            v < 0x80,
    ;
    assert(seq![c].drop_first() =~= Seq::<char>::empty());
    assert(vstd::utf8::encode_utf8(seq![c]) =~= seq![byte]);
    let bytes = vstd::utf8::encode_utf8(s) + seq![byte];
    assert(bytes.drop_last() =~= vstd::utf8::encode_utf8(s));
    assert(fnv1a(bytes) == crate::models::fnv1a_step(fnv1a(vstd::utf8::encode_utf8(s)), byte));
}

} // verus!

verus! {

// --- File identifiers ---

/// Giving out identifiers keeps them one to one with URIs, while the next
/// identifier does not wrap around.
pub proof fn law_get_id_consistent(m: crate::source_manager::SourceModel, u: Seq<char>)
    requires
        crate::source_manager::ids_consistent(m),
        m.next_id < u32::MAX,
    ensures
        crate::source_manager::ids_consistent(crate::source_manager::model_get_id(m, u).0),
{
}

/// File identifiers: asking twice for a URI gives the same identifier, which
/// names the URI; a new URI gets the next identifier; different URIs get
/// different identifiers; contents are not touched. This holds while fewer
/// identifiers than `u32::MAX` have been given out.
pub proof fn law_get_id(m: crate::source_manager::SourceModel, u: Seq<char>, v: Seq<char>)
    requires
        crate::source_manager::ids_consistent(m),
        m.next_id < u32::MAX - 1,
    ensures
        ({
            let (m1, a) = crate::source_manager::model_get_id(m, u);
            let (m2, b) = crate::source_manager::model_get_id(m1, v);
            &&& crate::source_manager::model_get_id(m1, u) == (m1, a)
            &&& m1.uris.contains_key(a) && m1.uris[a] == u
            &&& !m.ids.contains_key(u) ==> a == m.next_id
            &&& m1.contents == m.contents
            &&& u != v ==> a != b
        }),
{
    let (m1, a) = crate::source_manager::model_get_id(m, u);
    law_get_id_consistent(m, u);
    if u != v {
        if m1.ids.contains_key(v) {
            let b = m1.ids[v];
            assert(m1.uris[b] == v);
            assert(m1.uris[a] == u);
        }
    }
}

} // verus!

verus! {

// --- Determinism of the simulation ---

spec fn pool_step_arc(p: PoolModel, func: std::sync::Arc<Function>, node: Node) -> crate::engine::PoolStep {
    pool_step(p, *func, node)
}

spec fn step_pools_arc(ps: Seq<PoolModel>, func: std::sync::Arc<Function>, node: Node) -> crate::engine::StepState {
    step_pools(ps, *func, node)
}

/// Two nodes that agree in everything the simulation reads of them.
pub open spec fn same_node(a: Node, b: Node) -> bool {
    &&& a.uid == b.uid
    &&& a.function.uid == b.function.uid
    &&& a.function.name@ == b.function.name@
    &&& a.is_artificial_graph_start == b.is_artificial_graph_start
    &&& a.is_artificial_graph_end == b.is_artificial_graph_end
    &&& a.is_artificial_error_termination == b.is_artificial_error_termination
}

spec fn same_origins(a: Map<u32, Node>, b: Map<u32, Node>) -> bool {
    &&& a.dom() == b.dom()
    &&& forall|k: u32| #[trigger] a.contains_key(k) ==> same_node(a[k], b[k])
}

spec fn same_pool(p: PoolModel, q: PoolModel) -> bool {
    &&& p.variables == q.variables
    &&& p.errors == q.errors
    &&& p.constants == q.constants
    &&& p.expanded == q.expanded
    &&& p.constants_used == q.constants_used
    &&& same_origins(p.origins, q.origins)
}

spec fn same_pools(ps: Seq<PoolModel>, qs: Seq<PoolModel>) -> bool {
    &&& ps.len() == qs.len()
    &&& forall|i: int| 0 <= i < ps.len() ==> same_pool(#[trigger] ps[i], qs[i])
}

spec fn same_flow(a: FlowModel, b: FlowModel) -> bool {
    &&& a.nodes == b.nodes
    &&& a.edges == b.edges
    &&& a.deduplicate_edges == b.deduplicate_edges
    &&& a.diagnostics == b.diagnostics
    &&& same_pools(a.pools, b.pools)
}

proof fn lemma_same_record(m1: Map<u32, Node>, m2: Map<u32, Node>, ts: Seq<Token>, n1: Node, n2: Node)
    requires
        same_origins(m1, m2),
        same_node(n1, n2),
    ensures
        same_origins(record_origins(m1, ts, n1), record_origins(m2, ts, n2)),
    decreases ts.len(),
{
    if ts.len() > 0 {
        lemma_same_record(m1, m2, ts.drop_last(), n1, n2);
        let r1 = record_origins(m1, ts.drop_last(), n1);
        let r2 = record_origins(m2, ts.drop_last(), n2);
        assert(r1.insert(ts.last().uid, n1).dom() =~= r2.insert(ts.last().uid, n2).dom());
    }
}

proof fn lemma_same_match(p: PoolModel, q: PoolModel, reqs: Seq<Token>, dest: Node)
    requires
        same_pool(p, q),
    ensures
        match_all(p, reqs, dest) == match_all(q, reqs, dest),
    decreases reqs.len(),
{
    if reqs.len() > 0 {
        lemma_same_match(p, q, reqs.drop_last(), dest);
        let st = match_all(p, reqs.drop_last(), dest);
        let req = reqs.last();
        assert(crate::engine::class_pool(p, req.kind.spec_class()) == crate::engine::class_pool(
            q,
            req.kind.spec_class(),
        ));
        let pool = crate::engine::class_pool(p, req.kind.spec_class());
        match crate::engine::find_from(pool, req.kind.spec_uid(), st.consumed, 0) {
            Some(i) => {
                let t = pool[i];
                assert(p.origins.contains_key(t.uid) == q.origins.contains_key(t.uid));
                if p.origins.contains_key(t.uid) {
                    assert(same_node(p.origins[t.uid], q.origins[t.uid]));
                }
            },
            None => {},
        }
    }
}

proof fn lemma_same_step(p: PoolModel, q: PoolModel, func: std::sync::Arc<Function>, node: Node)
    requires
        same_pool(p, q),
    ensures
        ({
            let r1 = pool_step_arc(p, func, node);
            let r2 = pool_step_arc(q, func, node);
            &&& same_pools(r1.next, r2.next)
            &&& r1.edges == r2.edges
            &&& r1.executed == r2.executed
            &&& r1.missing == r2.missing
        }),
{
    lemma_same_match(p, q, func.consumes@, node);
    let st = match_all(p, func.consumes@, node);
    let a1 = after_consumption(p, st, node.uid);
    let a2 = after_consumption(q, st, node.uid);
    assert(same_pool(a1, a2));
    if func.produces@.len() > 0 {
        let n1 = crate::engine::branch_pools(a1, func.produces@, node);
        let n2 = crate::engine::branch_pools(a2, func.produces@, node);
        assert forall|b: int| 0 <= b < n1.len() implies same_pool(#[trigger] n1[b], n2[b]) by {
            let added = marked(func.produces@[b]@, a1.expanded.contains(node.uid));
            lemma_same_record(a1.origins, a2.origins, added, node, node);
        }
    }
}

proof fn lemma_same_pools_concat(a1: Seq<PoolModel>, a2: Seq<PoolModel>, b1: Seq<PoolModel>, b2: Seq<PoolModel>)
    requires
        same_pools(a1, a2),
        same_pools(b1, b2),
    ensures
        same_pools(a1 + b1, a2 + b2),
{
    assert forall|i: int| 0 <= i < (a1 + b1).len() implies same_pool(#[trigger] (a1 + b1)[i], (a2 + b2)[i]) by {
        if i < a1.len() {
            assert(same_pool(a1[i], a2[i]));
        } else {
            assert(same_pool(b1[i - a1.len()], b2[i - a1.len()]));
        }
    }
}

proof fn lemma_same_step_pools(ps: Seq<PoolModel>, qs: Seq<PoolModel>, func: std::sync::Arc<Function>, node: Node)
    requires
        same_pools(ps, qs),
    ensures
        ({
            let r1 = step_pools_arc(ps, func, node);
            let r2 = step_pools_arc(qs, func, node);
            &&& same_pools(r1.next, r2.next)
            &&& r1.edges == r2.edges
            &&& r1.executed == r2.executed
            &&& r1.missing_names == r2.missing_names
        }),
    decreases ps.len(),
{
    if ps.len() > 0 {
        assert(same_pools(ps.drop_last(), qs.drop_last())) by {
            assert forall|i: int| 0 <= i < ps.drop_last().len() implies same_pool(
                #[trigger] ps.drop_last()[i],
                qs.drop_last()[i],
            ) by {
                assert(same_pool(ps[i], qs[i]));
            }
        }
        lemma_same_step_pools(ps.drop_last(), qs.drop_last(), func, node);
        assert(same_pool(ps[ps.len() - 1], qs[qs.len() - 1]));
        lemma_same_step(ps.last(), qs.last(), func, node);
        let r1 = step_pools_arc(ps.drop_last(), func, node);
        let r2 = step_pools_arc(qs.drop_last(), func, node);
        let n1 = pool_step_arc(ps.last(), func, node).next;
        let n2 = pool_step_arc(qs.last(), func, node).next;
        lemma_same_pools_concat(r1.next, r2.next, n1, n2);
    }
}

proof fn lemma_same_sim_steps(
    a: FlowModel,
    b: FlowModel,
    catalog: crate::models::NameMap<std::sync::Arc<Function>>,
    steps: Seq<FlowStep>,
)
    requires
        same_flow(a, b),
    ensures
        same_flow(sim_steps(a, catalog, steps), sim_steps(b, catalog, steps)),
    decreases steps.len(),
{
    if steps.len() > 0 {
        lemma_same_sim_steps(a, b, catalog, steps.drop_last());
        let x = sim_steps(a, catalog, steps.drop_last());
        let y = sim_steps(b, catalog, steps.drop_last());
        match catalog.spec_get(steps.last().function_name@) {
            Some(func) => {
                lemma_same_step_pools(x.pools, y.pools, func, step_node(func));
            },
            None => {},
        }
    }
}

proof fn lemma_same_routed(o1: Map<u32, Node>, o2: Map<u32, Node>, ts: Seq<Token>, target: u32, rel: EdgeRelation)
    requires
        same_origins(o1, o2),
    ensures
        routed_edges(o1, ts, target, rel) == routed_edges(o2, ts, target, rel),
        crate::engine::has_routed(o1, ts) == crate::engine::has_routed(o2, ts),
    decreases ts.len(),
{
    if ts.len() > 0 {
        lemma_same_routed(o1, o2, ts.drop_last(), target, rel);
        if o1.contains_key(ts.last().uid) {
            assert(same_node(o1[ts.last().uid], o2[ts.last().uid]));
        }
    }
    assert(o1.dom() == o2.dom());
    if crate::engine::has_routed(o1, ts) {
        let j = choose|j: int| 0 <= j < ts.len() && o1.contains_key(#[trigger] ts[j].uid);
        assert(o2.contains_key(ts[j].uid));
    }
    if crate::engine::has_routed(o2, ts) {
        let j = choose|j: int| 0 <= j < ts.len() && o2.contains_key(#[trigger] ts[j].uid);
        assert(o1.dom().contains(ts[j].uid));
    }
}

proof fn lemma_same_unhandled(
    o1: Map<u32, Node>,
    o2: Map<u32, Node>,
    es: Seq<Token>,
    table: crate::models::UidMap<crate::models::SymbolMetadata>,
)
    requires
        same_origins(o1, o2),
    ensures
        crate::engine::unhandled_warnings(o1, es, table) == crate::engine::unhandled_warnings(o2, es, table),
    decreases es.len(),
{
    if es.len() > 0 {
        lemma_same_unhandled(o1, o2, es.drop_last(), table);
        if o1.contains_key(es.last().uid) {
            assert(same_node(o1[es.last().uid], o2[es.last().uid]));
        }
    }
}

proof fn lemma_same_leftovers(
    ps: Seq<PoolModel>,
    qs: Seq<PoolModel>,
    fu: u32,
    eu: u32,
    table: crate::models::UidMap<crate::models::SymbolMetadata>,
)
    requires
        same_pools(ps, qs),
    ensures
        crate::engine::leftover_edges(ps, fu, eu) == crate::engine::leftover_edges(qs, fu, eu),
        crate::engine::leftover_warnings(ps, table) == crate::engine::leftover_warnings(qs, table),
        crate::engine::any_terminal(ps) == crate::engine::any_terminal(qs),
        crate::engine::any_error(ps) == crate::engine::any_error(qs),
    decreases ps.len(),
{
    if ps.len() > 0 {
        assert(same_pools(ps.drop_last(), qs.drop_last())) by {
            assert forall|i: int| 0 <= i < ps.drop_last().len() implies same_pool(
                #[trigger] ps.drop_last()[i],
                qs.drop_last()[i],
            ) by {
                assert(same_pool(ps[i], qs[i]));
            }
        }
        lemma_same_leftovers(ps.drop_last(), qs.drop_last(), fu, eu, table);
        let p = ps.last();
        let q = qs.last();
        assert(same_pool(ps[ps.len() - 1], qs[qs.len() - 1]));
        lemma_same_routed(p.origins, q.origins, terminal_tokens(p), fu, EdgeRelation::TerminalFlow);
        lemma_same_routed(p.origins, q.origins, p.errors, eu, EdgeRelation::ErrorFlow);
        lemma_same_unhandled(p.origins, q.origins, p.errors, table);
    }
    assert forall|i: int| 0 <= i < ps.len() implies crate::engine::has_routed(
        (#[trigger] ps[i]).origins,
        terminal_tokens(ps[i]),
    ) == crate::engine::has_routed(qs[i].origins, terminal_tokens(qs[i])) && crate::engine::has_routed(
        ps[i].origins,
        ps[i].errors,
    ) == crate::engine::has_routed(qs[i].origins, qs[i].errors) by {
        assert(same_pool(ps[i], qs[i]));
        lemma_same_routed(ps[i].origins, qs[i].origins, terminal_tokens(ps[i]), fu, EdgeRelation::TerminalFlow);
        lemma_same_routed(ps[i].origins, qs[i].origins, ps[i].errors, eu, EdgeRelation::ErrorFlow);
    }
    if crate::engine::any_terminal(ps) {
        let i = choose|i: int| 0 <= i < ps.len() && #[trigger] crate::engine::has_routed(ps[i].origins, terminal_tokens(ps[i]));
        assert(crate::engine::has_routed(qs[i].origins, terminal_tokens(qs[i])));
    }
    if crate::engine::any_terminal(qs) {
        let i = choose|i: int| 0 <= i < qs.len() && #[trigger] crate::engine::has_routed(qs[i].origins, terminal_tokens(qs[i]));
        assert(crate::engine::has_routed(ps[i].origins, terminal_tokens(ps[i])));
    }
    if crate::engine::any_error(ps) {
        let i = choose|i: int| 0 <= i < ps.len() && #[trigger] crate::engine::has_routed(ps[i].origins, ps[i].errors);
        assert(crate::engine::has_routed(qs[i].origins, qs[i].errors));
    }
    if crate::engine::any_error(qs) {
        let i = choose|i: int| 0 <= i < qs.len() && #[trigger] crate::engine::has_routed(qs[i].origins, qs[i].errors);
        assert(crate::engine::has_routed(ps[i].origins, ps[i].errors));
    }
}

/// The simulation is deterministic: two runs on the same structure, from
/// the same flow, with boundary nodes of the same names and roles, give the
/// same edges in the same order, the same diagnostics, and nodes that agree
/// one by one in identifier, function and role.
pub proof fn law_simulation_deterministic(
    m0: FlowModel,
    s: crate::models::ProgramStructure,
    i1: Node,
    f1: Node,
    e1: Node,
    i2: Node,
    f2: Node,
    e2: Node,
)
    requires
        crate::engine::is_boundary_node(i1, "InitialNode"@, true, false, false),
        crate::engine::is_boundary_node(f1, "FinalNode"@, false, true, false),
        crate::engine::is_boundary_node(e1, "FatalErrors"@, false, false, true),
        crate::engine::is_boundary_node(i2, "InitialNode"@, true, false, false),
        crate::engine::is_boundary_node(f2, "FinalNode"@, false, true, false),
        crate::engine::is_boundary_node(e2, "FatalErrors"@, false, false, true),
    ensures
        ({
            let a = simulated(m0, s, i1, f1, e1);
            let b = simulated(m0, s, i2, f2, e2);
            &&& a.edges == b.edges
            &&& a.diagnostics == b.diagnostics
            &&& a.nodes.len() == b.nodes.len()
            &&& forall|k: int| 0 <= k < a.nodes.len() ==> same_node(#[trigger] a.nodes[k], b.nodes[k])
            &&& forall|k: int| 0 <= k < a.nodes.len() ==> (#[trigger] a.nodes[k]).eq_spec(&b.nodes[k])
        }),
{
    let tokens = crate::engine::seed_tokens(s.catalog, s.flow@);
    let sp1 = seeded_pool(tokens, i1);
    let sp2 = seeded_pool(tokens, i2);
    lemma_same_record(Map::empty(), Map::empty(), tokens, i1, i2);
    assert(same_pool(sp1, sp2));
    let seeded1 = FlowModel {
        nodes: m0.nodes,
        edges: m0.edges,
        pools: m0.pools.push(sp1),
        deduplicate_edges: m0.deduplicate_edges,
        diagnostics: m0.diagnostics,
    };
    let seeded2 = FlowModel { pools: m0.pools.push(sp2), ..seeded1 };
    assert(same_pools(seeded1.pools, seeded2.pools)) by {
        assert forall|k: int| 0 <= k < seeded1.pools.len() implies same_pool(
            #[trigger] seeded1.pools[k],
            seeded2.pools[k],
        ) by {
            if k < m0.pools.len() {
                assert(seeded1.pools[k] == m0.pools[k]);
                assert(seeded2.pools[k] == m0.pools[k]);
                assert(same_origins(m0.pools[k].origins, m0.pools[k].origins));
            }
        }
    }
    lemma_same_sim_steps(seeded1, seeded2, s.catalog, s.flow@);
    let r1 = sim_steps(seeded1, s.catalog, s.flow@);
    let r2 = sim_steps(seeded2, s.catalog, s.flow@);
    lemma_same_leftovers(r1.pools, r2.pools, f1.uid, e1.uid, s.symbol_table);
    let a = simulated(m0, s, i1, f1, e1);
    let b = simulated(m0, s, i2, f2, e2);
    assert(a.edges == b.edges);
    assert forall|k: int| 0 <= k < a.nodes.len() implies same_node(#[trigger] a.nodes[k], b.nodes[k]) by {
        assert(r1.nodes == r2.nodes);
    }
}

} // verus!

verus! {

/// Deduplication across two runs: a deduplicating run and a plain run on
/// the same structure give nodes that are equal one by one (as `==` on
/// nodes compares them, and in function too), and the deduplicating run's
/// edges are the plain run's edges without the later repetitions of a
/// route, in order.
pub proof fn law_dedup_runs(
    m: FlowModel,
    s: crate::models::ProgramStructure,
    i1: Node,
    f1: Node,
    e1: Node,
    i2: Node,
    f2: Node,
    e2: Node,
)
    requires
        !m.deduplicate_edges,
        crate::engine::is_boundary_node(i1, "InitialNode"@, true, false, false),
        crate::engine::is_boundary_node(f1, "FinalNode"@, false, true, false),
        crate::engine::is_boundary_node(e1, "FatalErrors"@, false, false, true),
        crate::engine::is_boundary_node(i2, "InitialNode"@, true, false, false),
        crate::engine::is_boundary_node(f2, "FinalNode"@, false, true, false),
        crate::engine::is_boundary_node(e2, "FatalErrors"@, false, false, true),
    ensures
        ({
            let d = simulated(FlowModel { deduplicate_edges: true, ..m }, s, i1, f1, e1);
            let p = simulated(m, s, i2, f2, e2);
            &&& d.nodes.len() == p.nodes.len()
            &&& forall|k: int| 0 <= k < d.nodes.len() ==> same_node(#[trigger] d.nodes[k], p.nodes[k])
            &&& forall|k: int| 0 <= k < d.nodes.len() ==> (#[trigger] d.nodes[k]).eq_spec(&p.nodes[k])
            &&& d.edges == dedup_edges(p.edges)
            &&& d.diagnostics == p.diagnostics
        }),
{
    law_dedup_simulation(m, s, i1, f1, e1);
    law_simulation_deterministic(m, s, i1, f1, e1, i2, f2, e2);
}

} // verus!
