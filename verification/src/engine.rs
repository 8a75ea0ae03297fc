//! The token-flow engine.
//!
//! A `TokenPool` holds the artifacts available at one point of the flow. Running a
//! flow consumes requirements from each pool and produces a pool per output branch.

use vstd::prelude::*;
use std::collections::{HashMap, HashSet};
use std::sync::Arc;
use crate::models::{
    clone_tokens, Graph, same_token, share, spec_hash_name, token_eq, ArtifactClass, Cardinality,
    DiagnosticModel, DiagnosticWithContext, Edge, EdgeRelation, Function, FlowStep, NameMap, Node,
    ProgramStructure, Severity, SymbolMetadata, Token, UidMap,
};
use crate::text::{join, join_strings, str_eq, views};

verus! {

broadcast use vstd::std_specs::hash::group_hash_axioms;

/// Result of a consumption attempt.
pub enum Consumed {
    /// Every requirement was met; the data-flow edges created.
    AllTokens(Vec<Edge>),
    /// Some requirements were not met; those requirements.
    SomeTokens(Vec<Token>),
}

/// Tokens left in a pool at the end of a flow.
pub struct Leftovers {
    /// Unused variable tokens.
    pub variables: Vec<Token>,
    /// Unhandled error tokens.
    pub errors: Vec<Token>,
    /// Constant tokens that nothing read.
    pub constants: Vec<Token>,
}

/// The artifacts available at one point of the flow.
pub struct TokenPool {
    pub variables: Vec<Token>,
    pub errors: Vec<Token>,
    pub constants: Vec<Token>,
    /// The node that produced each token, by token identifier.
    pub token_to_origin_node: HashMap<u32, Arc<Node>>,
    /// Nodes that run once per item of a collection.
    pub expanded_nodes: HashSet<u32>,
    /// Constants that some node has read.
    pub constants_used: HashSet<u32>,
}

/// The mathematical content of a pool.
pub struct PoolModel {
    pub variables: Seq<Token>,
    pub errors: Seq<Token>,
    pub constants: Seq<Token>,
    pub origins: Map<u32, Node>,
    pub expanded: Set<u32>,
    pub constants_used: Set<u32>,
}

impl View for TokenPool {
    type V = PoolModel;

    open spec fn view(&self) -> PoolModel {
        PoolModel {
            variables: self.variables@,
            errors: self.errors@,
            constants: self.constants@,
            origins: deref_nodes(self.token_to_origin_node@),
            expanded: self.expanded_nodes@,
            constants_used: self.constants_used@,
        }
    }
}

/// The nodes an origin map points at.
pub open spec fn deref_nodes(m: Map<u32, Arc<Node>>) -> Map<u32, Node> {
    m.map_values(|a: Arc<Node>| *a)
}

pub proof fn lemma_deref_insert(m: Map<u32, Arc<Node>>, k: u32, a: Arc<Node>)
    ensures
        deref_nodes(m.insert(k, a)) == deref_nodes(m).insert(k, *a),
{
    assert(deref_nodes(m.insert(k, a)) =~= deref_nodes(m).insert(k, *a));
}

/// The tokens of one class, in order.
pub open spec fn of_class(tokens: Seq<Token>, class: ArtifactClass) -> Seq<Token>
    decreases tokens.len(),
{
    if tokens.len() == 0 {
        Seq::empty()
    } else {
        let rest = of_class(tokens.drop_last(), class);
        if tokens.last().kind.spec_class() == class {
            rest.push(tokens.last())
        } else {
            rest
        }
    }
}

/// The origin map after recording `node` as the producer of each token, in order.
pub open spec fn record_origins(m: Map<u32, Node>, tokens: Seq<Token>, node: Node) -> Map<u32, Node>
    decreases tokens.len(),
{
    if tokens.len() == 0 {
        m
    } else {
        record_origins(m, tokens.drop_last(), node).insert(tokens.last().uid, node)
    }
}

/// The same token, standing for a collection.
pub open spec fn as_collection(t: Token) -> Token {
    Token { uid: t.uid, kind: t.kind, cardinality: Cardinality::Collection }
}

/// The tokens a producer adds: marked as collections when the producer is expanded.
pub open spec fn marked(tokens: Seq<Token>, expanded: bool) -> Seq<Token> {
    if expanded {
        tokens.map_values(|t: Token| as_collection(t))
    } else {
        tokens
    }
}

/// A pool seeded with external inputs, all attributed to `node`.
pub open spec fn seeded_pool(tokens: Seq<Token>, node: Node) -> PoolModel {
    PoolModel {
        variables: of_class(tokens, ArtifactClass::Variable),
        errors: of_class(tokens, ArtifactClass::Error),
        constants: of_class(tokens, ArtifactClass::Constant),
        origins: record_origins(Map::empty(), tokens, node),
        expanded: Set::empty(),
        constants_used: Set::empty(),
    }
}

/// The pool after `producer` adds `tokens`.
pub open spec fn produced(p: PoolModel, tokens: Seq<Token>, producer: Node) -> PoolModel {
    let added = marked(tokens, p.expanded.contains(producer.uid));
    PoolModel {
        variables: p.variables + of_class(added, ArtifactClass::Variable),
        errors: p.errors + of_class(added, ArtifactClass::Error),
        constants: p.constants + of_class(added, ArtifactClass::Constant),
        origins: record_origins(p.origins, added, producer),
        expanded: p.expanded,
        constants_used: p.constants_used,
    }
}

/// Whether `t` occurs in `ts`, comparing by content.
pub open spec fn contains_same(ts: Seq<Token>, t: Token) -> bool {
    exists|i: int| 0 <= i < ts.len() && same_token(ts[i], t)
}

/// The first index at or after `i` of a token of artifact `uid` not yet taken.
pub open spec fn find_from(pool: Seq<Token>, uid: u32, taken: Seq<Token>, i: int) -> Option<int>
    decreases pool.len() - i,
{
    if i < 0 || i >= pool.len() {
        None
    } else if pool[i].kind.spec_uid() == uid && !contains_same(taken, pool[i]) {
        Some(i)
    } else {
        find_from(pool, uid, taken, i + 1)
    }
}

/// A found index is in range and names an untaken token of the artifact.
pub proof fn lemma_find_from(pool: Seq<Token>, uid: u32, taken: Seq<Token>, i: int)
    ensures
        find_from(pool, uid, taken, i) matches Some(j) ==> {
            &&& i <= j < pool.len()
            &&& pool[j].kind.spec_uid() == uid
            &&& !contains_same(taken, pool[j])
        },
    decreases pool.len() - i,
{
    if 0 <= i < pool.len() {
        lemma_find_from(pool, uid, taken, i + 1);
    }
}

/// The sub-pool of one class.
pub open spec fn class_pool(p: PoolModel, class: ArtifactClass) -> Seq<Token> {
    match class {
        ArtifactClass::Variable => p.variables,
        ArtifactClass::Error => p.errors,
        ArtifactClass::Constant => p.constants,
    }
}

/// Progress of matching requirements against a pool.
pub struct MatchState {
    pub edges: Seq<Edge>,
    pub consumed: Seq<Token>,
    pub expands: bool,
}

pub open spec fn empty_match() -> MatchState {
    MatchState { edges: Seq::empty(), consumed: Seq::empty(), expands: false }
}

/// Matches one requirement: the first untaken token of its artifact, if it has an origin.
pub open spec fn match_one(p: PoolModel, st: MatchState, req: Token, dest: Node) -> MatchState {
    let pool = class_pool(p, req.kind.spec_class());
    match find_from(pool, req.kind.spec_uid(), st.consumed, 0) {
        Some(i) => {
            let t = pool[i];
            if p.origins.contains_key(t.uid) {
                MatchState {
                    edges: st.edges.push(
                        Edge {
                            from_node_uid: p.origins[t.uid].uid,
                            to_node_uid: dest.uid,
                            token: t,
                            relation: EdgeRelation::DataFlow,
                        },
                    ),
                    consumed: st.consumed.push(t),
                    expands: st.expands || (req.cardinality == Cardinality::Unitary
                        && t.cardinality == Cardinality::Collection),
                }
            } else {
                st
            }
        },
        None => st,
    }
}

/// Matches the requirements in order.
pub open spec fn match_all(p: PoolModel, reqs: Seq<Token>, dest: Node) -> MatchState
    decreases reqs.len(),
{
    if reqs.len() == 0 {
        empty_match()
    } else {
        match_one(p, match_all(p, reqs.drop_last(), dest), reqs.last(), dest)
    }
}

/// Whether some consumed token carries the artifact `uid`.
pub open spec fn covers(consumed: Seq<Token>, uid: u32) -> bool {
    exists|i: int| 0 <= i < consumed.len() && consumed[i].kind.spec_uid() == uid
}

/// The requirements whose artifact no consumed token carries, in order.
pub open spec fn missing_of(reqs: Seq<Token>, consumed: Seq<Token>) -> Seq<Token>
    decreases reqs.len(),
{
    if reqs.len() == 0 {
        Seq::empty()
    } else {
        let rest = missing_of(reqs.drop_last(), consumed);
        if covers(consumed, reqs.last().kind.spec_uid()) {
            rest
        } else {
            rest.push(reqs.last())
        }
    }
}

/// The tokens of `ts` equal to none of `removed`, in order.
pub open spec fn without(ts: Seq<Token>, removed: Seq<Token>) -> Seq<Token>
    decreases ts.len(),
{
    if ts.len() == 0 {
        Seq::empty()
    } else {
        let rest = without(ts.drop_last(), removed);
        if contains_same(removed, ts.last()) {
            rest
        } else {
            rest.push(ts.last())
        }
    }
}

/// `used` together with the identifiers of the constant tokens of `consumed`.
pub open spec fn mark_constants_used(used: Set<u32>, consumed: Seq<Token>) -> Set<u32>
    decreases consumed.len(),
{
    if consumed.len() == 0 {
        used
    } else {
        let rest = mark_constants_used(used, consumed.drop_last());
        if consumed.last().kind.spec_class() == ArtifactClass::Constant {
            rest.insert(consumed.last().uid)
        } else {
            rest
        }
    }
}

/// The pool after a successful consumption: variables and errors move out,
/// constants stay and are marked as read.
pub open spec fn after_consumption(p: PoolModel, st: MatchState, dest_uid: u32) -> PoolModel {
    PoolModel {
        variables: without(p.variables, st.consumed),
        errors: without(p.errors, st.consumed),
        constants: p.constants,
        origins: p.origins,
        expanded: if st.expands {
            p.expanded.insert(dest_uid)
        } else {
            p.expanded
        },
        constants_used: mark_constants_used(p.constants_used, st.consumed),
    }
}

/// The constant tokens nothing has read, in order.
pub open spec fn unread_constants(constants: Seq<Token>, used: Set<u32>) -> Seq<Token>
    decreases constants.len(),
{
    if constants.len() == 0 {
        Seq::empty()
    } else {
        let rest = unread_constants(constants.drop_last(), used);
        if used.contains(constants.last().uid) {
            rest
        } else {
            rest.push(constants.last())
        }
    }
}

/// Whether `t` occurs in `ts`, comparing by content.
fn contains_token(ts: &Vec<Token>, t: &Token) -> (r: bool)
    ensures
        r == contains_same(ts@, *t),
{
    let mut i: usize = 0;
    while i < ts.len()
        invariant
            0 <= i <= ts@.len(),
            forall|j: int| 0 <= j < i ==> !same_token(#[trigger] ts@[j], *t),
        decreases ts@.len() - i,
    {
        if token_eq(&ts[i], t) {
            return true;
        }
        i = i + 1;
    }
    false
}

/// Pushes the tokens of `class` from `tokens` onto `out`.
fn push_of_class(out: &mut Vec<Token>, tokens: &Vec<Token>, class: ArtifactClass)
    ensures
        final(out)@ == old(out)@ + of_class(tokens@, class),
{
    let mut i: usize = 0;
    while i < tokens.len()
        invariant
            0 <= i <= tokens@.len(),
            out@ == old(out)@ + of_class(tokens@.take(i as int), class),
        decreases tokens@.len() - i,
    {
        assert(tokens@.take(i + 1).drop_last() =~= tokens@.take(i as int));
        if tokens[i].kind.class() == class {
            out.push(tokens[i].clone());
        }
        i = i + 1;
        assert(out@ =~= old(out)@ + of_class(tokens@.take(i as int), class));
    }
    assert(tokens@.take(i as int) =~= tokens@);
}

/// The first index of a token of artifact `uid` not in `taken`.
fn find_available(pool: &Vec<Token>, uid: u32, taken: &Vec<Token>) -> (r: Option<usize>)
    ensures
        match r {
            Some(i) => find_from(pool@, uid, taken@, 0) == Some(i as int),
            None => find_from(pool@, uid, taken@, 0) is None,
        },
{
    let mut i: usize = 0;
    while i < pool.len()
        invariant
            0 <= i <= pool@.len(),
            find_from(pool@, uid, taken@, 0) == find_from(pool@, uid, taken@, i as int),
        decreases pool@.len() - i,
    {
        if pool[i].kind.uid() == uid && !contains_token(taken, &pool[i]) {
            return Some(i);
        }
        i = i + 1;
    }
    None
}

/// Whether some token of `consumed` carries the artifact `uid`.
fn covers_uid(consumed: &Vec<Token>, uid: u32) -> (r: bool)
    ensures
        r == covers(consumed@, uid),
{
    let mut i: usize = 0;
    while i < consumed.len()
        invariant
            0 <= i <= consumed@.len(),
            forall|j: int| 0 <= j < i ==> (#[trigger] consumed@[j]).kind.spec_uid() != uid,
        decreases consumed@.len() - i,
    {
        if consumed[i].kind.uid() == uid {
            return true;
        }
        i = i + 1;
    }
    false
}

/// The tokens of `ts` equal to none of `removed`.
fn retain_without(ts: &Vec<Token>, removed: &Vec<Token>) -> (r: Vec<Token>)
    ensures
        r@ == without(ts@, removed@),
{
    let mut r: Vec<Token> = Vec::new();
    let mut i: usize = 0;
    while i < ts.len()
        invariant
            0 <= i <= ts@.len(),
            r@ == without(ts@.take(i as int), removed@),
        decreases ts@.len() - i,
    {
        assert(ts@.take(i + 1).drop_last() =~= ts@.take(i as int));
        if !contains_token(removed, &ts[i]) {
            r.push(ts[i].clone());
        }
        i = i + 1;
    }
    assert(ts@.take(i as int) =~= ts@);
    r
}

/// The requirements whose artifact no consumed token carries.
fn collect_missing(reqs: &Vec<Token>, consumed: &Vec<Token>) -> (r: Vec<Token>)
    ensures
        r@ == missing_of(reqs@, consumed@),
{
    let mut r: Vec<Token> = Vec::new();
    let mut i: usize = 0;
    while i < reqs.len()
        invariant
            0 <= i <= reqs@.len(),
            r@ == missing_of(reqs@.take(i as int), consumed@),
        decreases reqs@.len() - i,
    {
        assert(reqs@.take(i + 1).drop_last() =~= reqs@.take(i as int));
        if !covers_uid(consumed, reqs[i].kind.uid()) {
            r.push(reqs[i].clone());
        }
        i = i + 1;
    }
    assert(reqs@.take(i as int) =~= reqs@);
    r
}

impl TokenPool {
    /// Creates a pool seeded with external inputs attributed to `initial_node`.
    pub fn new(initial_requirements: Vec<Token>, initial_node: Arc<Node>) -> (pool: Self)
        ensures
            pool@ == seeded_pool(initial_requirements@, *initial_node),
    {
        let mut variables: Vec<Token> = Vec::new();
        let mut errors: Vec<Token> = Vec::new();
        let mut constants: Vec<Token> = Vec::new();
        push_of_class(&mut variables, &initial_requirements, ArtifactClass::Variable);
        push_of_class(&mut errors, &initial_requirements, ArtifactClass::Error);
        push_of_class(&mut constants, &initial_requirements, ArtifactClass::Constant);
        let mut token_to_origin_node: HashMap<u32, Arc<Node>> = HashMap::new();
        assert(deref_nodes(token_to_origin_node@) =~= Map::empty());
        let mut i: usize = 0;
        while i < initial_requirements.len()
            invariant
                0 <= i <= initial_requirements@.len(),
                deref_nodes(token_to_origin_node@) == record_origins(
                    Map::empty(),
                    initial_requirements@.take(i as int),
                    *initial_node,
                ),
            decreases initial_requirements@.len() - i,
        {
            assert(initial_requirements@.take(i + 1).drop_last() =~= initial_requirements@.take(i as int));
            proof {
                lemma_deref_insert(token_to_origin_node@, initial_requirements@[i as int].uid, initial_node);
            }
            token_to_origin_node.insert(initial_requirements[i].uid, share(&initial_node));
            i = i + 1;
        }
        assert(initial_requirements@.take(i as int) =~= initial_requirements@);
        assert(variables@ =~= of_class(initial_requirements@, ArtifactClass::Variable));
        assert(errors@ =~= of_class(initial_requirements@, ArtifactClass::Error));
        assert(constants@ =~= of_class(initial_requirements@, ArtifactClass::Constant));
        TokenPool {
            variables,
            errors,
            constants,
            token_to_origin_node,
            expanded_nodes: HashSet::new(),
            constants_used: HashSet::new(),
        }
    }

    /// Adds the tokens produced by `producer`.
    ///
    /// When the producer was already expanded, the tokens are marked as
    /// collections: they may be produced many times.
    pub fn produce(&mut self, tokens: Vec<Token>, producer: Arc<Node>)
        ensures
            final(self)@ == produced(old(self)@, tokens@, *producer),
    {
        let is_expanded = self.expanded_nodes.contains(&producer.uid);
        let ghost added = marked(tokens@, is_expanded);
        let ghost start = self@;
        let mut i: usize = 0;
        while i < tokens.len()
            invariant
                0 <= i <= tokens@.len(),
                is_expanded == start.expanded.contains(producer.uid),
                added == marked(tokens@, is_expanded),
                added.len() == tokens@.len(),
                self@ == (PoolModel {
                    variables: start.variables + of_class(added.take(i as int), ArtifactClass::Variable),
                    errors: start.errors + of_class(added.take(i as int), ArtifactClass::Error),
                    constants: start.constants + of_class(added.take(i as int), ArtifactClass::Constant),
                    origins: record_origins(start.origins, added.take(i as int), *producer),
                    expanded: start.expanded,
                    constants_used: start.constants_used,
                }),
            decreases tokens@.len() - i,
        {
            let mut token = tokens[i].clone();
            if is_expanded {
                token.cardinality = Cardinality::Collection;
            }
            assert(token == added[i as int]);
            assert(added.take(i + 1).drop_last() =~= added.take(i as int));
            assert(added.take(i + 1).last() == token);
            proof {
                lemma_deref_insert(self.token_to_origin_node@, token.uid, producer);
            }
            self.token_to_origin_node.insert(token.uid, share(&producer));
            match token.kind.class() {
                ArtifactClass::Variable => self.variables.push(token),
                ArtifactClass::Error => self.errors.push(token),
                ArtifactClass::Constant => self.constants.push(token),
            }
            i = i + 1;
            assert(self.variables@ =~= start.variables + of_class(added.take(i as int), ArtifactClass::Variable));
            assert(self.errors@ =~= start.errors + of_class(added.take(i as int), ArtifactClass::Error));
            assert(self.constants@ =~= start.constants + of_class(added.take(i as int), ArtifactClass::Constant));
        }
        assert(added.take(i as int) =~= added);
    }

    /// Tries to meet the requirements of `destination` from the pool.
    ///
    /// Each requirement takes the first token of its artifact not yet taken in
    /// this step. A unitary requirement met by a collection expands the
    /// destination. On success, variables and errors move out of the pool and
    /// constants are marked as read; on failure the pool is left unchanged.
    pub fn try_to_consume(&mut self, requirements: Vec<Token>, destination: Arc<Node>) -> (res: Consumed)
        ensures
            ({
                let st = match_all(old(self)@, requirements@, *destination);
                let missing = missing_of(requirements@, st.consumed);
                match res {
                    Consumed::AllTokens(edges) => {
                        &&& missing.len() == 0
                        &&& edges@ == st.edges
                        &&& final(self)@ == after_consumption(old(self)@, st, destination.uid)
                    },
                    Consumed::SomeTokens(m) => {
                        &&& missing.len() > 0
                        &&& m@ == missing
                        &&& final(self)@ == old(self)@
                    },
                }
            }),
    {
        let ghost p = self@;
        let mut edges: Vec<Edge> = Vec::new();
        let mut consumed: Vec<Token> = Vec::new();
        let mut trigger = false;
        let mut k: usize = 0;
        while k < requirements.len()
            invariant
                0 <= k <= requirements@.len(),
                self@ == p,
                match_all(p, requirements@.take(k as int), *destination) == (MatchState {
                    edges: edges@,
                    consumed: consumed@,
                    expands: trigger,
                }),
            decreases requirements@.len() - k,
        {
            assert(requirements@.take(k + 1).drop_last() =~= requirements@.take(k as int));
            let req = &requirements[k];
            let pool = match req.kind.class() {
                ArtifactClass::Variable => &self.variables,
                ArtifactClass::Error => &self.errors,
                ArtifactClass::Constant => &self.constants,
            };
            assert(pool@ == class_pool(p, req.kind.spec_class()));
            let found = find_available(pool, req.kind.uid(), &consumed);
            proof {
                lemma_find_from(pool@, req.kind.spec_uid(), consumed@, 0);
            }
            if let Some(i) = found {
                let t = &pool[i];
                match self.token_to_origin_node.get(&t.uid) {
                    Some(origin) => {
                        if req.cardinality == Cardinality::Unitary && t.cardinality == Cardinality::Collection {
                            trigger = true;
                        }
                        edges.push(
                            Edge {
                                from_node_uid: origin.uid,
                                to_node_uid: destination.uid,
                                token: t.clone(),
                                relation: EdgeRelation::DataFlow,
                            },
                        );
                        consumed.push(t.clone());
                    },
                    None => {},
                }
            }
            k = k + 1;
        }
        assert(requirements@.take(k as int) =~= requirements@);
        let missing = collect_missing(&requirements, &consumed);
        if missing.len() == 0 {
            if trigger {
                self.expanded_nodes.insert(destination.uid);
            }
            let mut j: usize = 0;
            while j < consumed.len()
                invariant
                    0 <= j <= consumed@.len(),
                    self.variables@ == p.variables,
                    self.errors@ == p.errors,
                    self.constants@ == p.constants,
                    deref_nodes(self.token_to_origin_node@) == p.origins,
                    self.expanded_nodes@ == (if trigger {
                        p.expanded.insert(destination.uid)
                    } else {
                        p.expanded
                    }),
                    self.constants_used@ == mark_constants_used(p.constants_used, consumed@.take(j as int)),
                decreases consumed@.len() - j,
            {
                assert(consumed@.take(j + 1).drop_last() =~= consumed@.take(j as int));
                if consumed[j].kind.class() == ArtifactClass::Constant {
                    self.constants_used.insert(consumed[j].uid);
                }
                j = j + 1;
            }
            assert(consumed@.take(j as int) =~= consumed@);
            self.variables = retain_without(&self.variables, &consumed);
            self.errors = retain_without(&self.errors, &consumed);
            assert(self@ == after_consumption(p, match_all(p, requirements@, *destination), destination.uid));
            Consumed::AllTokens(edges)
        } else {
            Consumed::SomeTokens(missing)
        }
    }

    /// Returns the variables, errors and unread constants left in the pool.
    pub fn get_leftover_tokens(&self) -> (l: Leftovers)
        ensures
            l.variables@ == self.variables@,
            l.errors@ == self.errors@,
            l.constants@ == unread_constants(self.constants@, self.constants_used@),
    {
        let mut constants: Vec<Token> = Vec::new();
        let mut i: usize = 0;
        while i < self.constants.len()
            invariant
                0 <= i <= self.constants@.len(),
                constants@ == unread_constants(self.constants@.take(i as int), self.constants_used@),
            decreases self.constants@.len() - i,
        {
            assert(self.constants@.take(i + 1).drop_last() =~= self.constants@.take(i as int));
            if !self.constants_used.contains(&self.constants[i].uid) {
                constants.push(self.constants[i].clone());
            }
            i = i + 1;
        }
        assert(self.constants@.take(i as int) =~= self.constants@);
        Leftovers {
            variables: clone_tokens(&self.variables),
            errors: clone_tokens(&self.errors),
            constants,
        }
    }
}


/// Copies a set of identifiers (`Clone` of std's `HashSet`).
#[verifier::external_body]
fn clone_id_set(set: &HashSet<u32>) -> (copy: HashSet<u32>)
    ensures
        copy@ == set@,
{
    set.clone()
}

impl Clone for TokenPool {
    fn clone(&self) -> (res: Self)
        ensures
            res@ == self@,
    {
        TokenPool {
            variables: clone_tokens(&self.variables),
            errors: clone_tokens(&self.errors),
            constants: clone_tokens(&self.constants),
            token_to_origin_node: self.token_to_origin_node.clone(),
            expanded_nodes: clone_id_set(&self.expanded_nodes),
            constants_used: clone_id_set(&self.constants_used),
        }
    }
}

// --- Flow simulation ---

/// Runs the flow of a program through token pools and builds its graph.
pub struct Flow {
    /// Nodes in the order the simulation met them.
    pub nodes: Vec<Arc<Node>>,
    /// Data-flow, terminal and error edges.
    pub edges: Vec<Edge>,
    /// Active pools: one per branch of execution.
    pub pools: Vec<TokenPool>,
    /// Whether repeated edges are dropped from the final graph.
    pub deduplicate_edges: bool,
    /// Diagnostics found by the simulation.
    pub diagnostics: Vec<DiagnosticWithContext>,
}

/// The mathematical content of a flow.
pub struct FlowModel {
    pub nodes: Seq<Node>,
    pub edges: Seq<Edge>,
    pub pools: Seq<PoolModel>,
    pub deduplicate_edges: bool,
    pub diagnostics: Seq<DiagnosticModel>,
}

pub open spec fn node_of(a: Arc<Node>) -> Node {
    *a
}

pub open spec fn node_values(nodes: Seq<Arc<Node>>) -> Seq<Node> {
    nodes.map_values(|a: Arc<Node>| *a)
}

pub open spec fn pool_views(pools: Seq<TokenPool>) -> Seq<PoolModel> {
    pools.map_values(|p: TokenPool| p@)
}

pub open spec fn diagnostic_views(ds: Seq<DiagnosticWithContext>) -> Seq<DiagnosticModel> {
    ds.map_values(|d: DiagnosticWithContext| d@)
}

impl View for Flow {
    type V = FlowModel;

    open spec fn view(&self) -> FlowModel {
        FlowModel {
            nodes: node_values(self.nodes@),
            edges: self.edges@,
            pools: pool_views(self.pools@),
            deduplicate_edges: self.deduplicate_edges,
            diagnostics: diagnostic_views(self.diagnostics@),
        }
    }
}

/// The node that stands for one executed flow step.
pub open spec fn step_node(func: Arc<Function>) -> Node {
    Node {
        uid: func.uid,
        function: func,
        is_artificial_graph_start: false,
        is_artificial_graph_end: false,
        is_artificial_error_termination: false,
    }
}

/// The pools after a successful step: one per output branch, or the same pool
/// when the function produces nothing.
pub open spec fn branch_pools(q: PoolModel, produces: Seq<Vec<Token>>, node: Node) -> Seq<PoolModel> {
    if produces.len() == 0 {
        seq![q]
    } else {
        Seq::new(produces.len(), |b: int| produced(q, produces[b]@, node))
    }
}

/// What one step does to one pool.
pub struct PoolStep {
    pub next: Seq<PoolModel>,
    pub edges: Seq<Edge>,
    pub executed: bool,
    pub missing: Seq<Token>,
}

pub open spec fn pool_step(p: PoolModel, func: Function, node: Node) -> PoolStep {
    let st = match_all(p, func.consumes@, node);
    let missing = missing_of(func.consumes@, st.consumed);
    if missing.len() == 0 {
        PoolStep {
            next: branch_pools(after_consumption(p, st, node.uid), func.produces@, node),
            edges: st.edges,
            executed: true,
            missing: Seq::empty(),
        }
    } else {
        PoolStep { next: seq![p], edges: Seq::empty(), executed: false, missing }
    }
}

/// `names` extended with the names of `missing` not yet listed, in order.
pub open spec fn add_names(names: Seq<Seq<char>>, missing: Seq<Token>) -> Seq<Seq<char>>
    decreases missing.len(),
{
    if missing.len() == 0 {
        names
    } else {
        let prev = add_names(names, missing.drop_last());
        if prev.contains(missing.last().kind.spec_name()) {
            prev
        } else {
            prev.push(missing.last().kind.spec_name())
        }
    }
}

/// What one step does to all pools.
pub struct StepState {
    pub next: Seq<PoolModel>,
    pub edges: Seq<Edge>,
    pub executed: bool,
    pub missing_names: Seq<Seq<char>>,
}

pub open spec fn step_pools(pools: Seq<PoolModel>, func: Function, node: Node) -> StepState
    decreases pools.len(),
{
    if pools.len() == 0 {
        StepState { next: Seq::empty(), edges: Seq::empty(), executed: false, missing_names: Seq::empty() }
    } else {
        let prev = step_pools(pools.drop_last(), func, node);
        let r = pool_step(pools.last(), func, node);
        StepState {
            next: prev.next + r.next,
            edges: prev.edges + r.edges,
            executed: prev.executed || r.executed,
            missing_names: add_names(prev.missing_names, r.missing),
        }
    }
}

/// The error reported when no pool can run a step.
pub open spec fn starvation(func: Function, step: FlowStep, names: Seq<Seq<char>>) -> DiagnosticModel {
    DiagnosticModel {
        file_id: step.span.file_id,
        span: Some(step.span),
        message: "Flow Error: Function '"@ + func.name@ + "' could not execute. Missing inputs: ["@
            + join(names, ", "@) + "]"@,
        severity: Severity::Error,
        tags: Seq::empty(),
    }
}

/// One flow step whose function is `func`.
pub open spec fn run_step_model(m: FlowModel, func: Arc<Function>, step: FlowStep) -> FlowModel {
    let node = step_node(func);
    let r = step_pools(m.pools, *func, node);
    FlowModel {
        nodes: m.nodes.push(node),
        edges: m.edges + r.edges,
        pools: r.next,
        deduplicate_edges: m.deduplicate_edges,
        diagnostics: if !r.executed && func.consumes@.len() > 0 {
            m.diagnostics.push(starvation(*func, step, r.missing_names))
        } else {
            m.diagnostics
        },
    }
}

/// One flow step: steps naming an unknown function are skipped.
pub open spec fn sim_step(m: FlowModel, catalog: NameMap<Arc<Function>>, step: FlowStep) -> FlowModel {
    match catalog.spec_get(step.function_name@) {
        Some(func) => run_step_model(m, func, step),
        None => m,
    }
}

pub open spec fn sim_steps(m: FlowModel, catalog: NameMap<Arc<Function>>, steps: Seq<FlowStep>) -> FlowModel
    decreases steps.len(),
{
    if steps.len() == 0 {
        m
    } else {
        sim_step(sim_steps(m, catalog, steps.drop_last()), catalog, steps.last())
    }
}

pub proof fn lemma_sim_steps_keeps_flag(m: FlowModel, catalog: NameMap<Arc<Function>>, steps: Seq<FlowStep>)
    ensures
        sim_steps(m, catalog, steps).deduplicate_edges == m.deduplicate_edges,
    decreases steps.len(),
{
    if steps.len() > 0 {
        lemma_sim_steps_keeps_flag(m, catalog, steps.drop_last());
    }
}

/// The external inputs: what the first step of each file consumes.
pub open spec fn seed_tokens(catalog: NameMap<Arc<Function>>, steps: Seq<FlowStep>) -> Seq<Token>
    decreases steps.len(),
{
    if steps.len() == 0 {
        Seq::empty()
    } else {
        let prev = seed_tokens(catalog, steps.drop_last());
        let last = steps.last();
        if exists|k: int| 0 <= k < steps.len() - 1 && steps[k].span.file_id == last.span.file_id {
            prev
        } else {
            match catalog.spec_get(last.function_name@) {
                Some(func) => prev + func.consumes@,
                None => prev,
            }
        }
    }
}

/// Edges routing leftover tokens that have an origin to `target`.
pub open spec fn routed_edges(origins: Map<u32, Node>, tokens: Seq<Token>, target: u32, relation: EdgeRelation) -> Seq<Edge>
    decreases tokens.len(),
{
    if tokens.len() == 0 {
        Seq::empty()
    } else {
        let prev = routed_edges(origins, tokens.drop_last(), target, relation);
        let t = tokens.last();
        if origins.contains_key(t.uid) {
            prev.push(Edge { from_node_uid: origins[t.uid].uid, to_node_uid: target, token: t, relation })
        } else {
            prev
        }
    }
}

/// The warning for an error that its producer leaves unhandled.
pub open spec fn unhandled(err: Token, origin: Node, meta: SymbolMetadata) -> DiagnosticModel {
    DiagnosticModel {
        file_id: meta.definition_span.file_id,
        span: Some(meta.definition_span),
        message: "Unhandled Error: '"@ + err.kind.spec_name() + "' is produced by '"@
            + origin.function.name@ + "' but never consumed (rescued)."@,
        severity: Severity::Warning,
        tags: Seq::empty(),
    }
}

/// Warnings for leftover errors whose producer has a symbol entry.
pub open spec fn unhandled_warnings(origins: Map<u32, Node>, errors: Seq<Token>, table: UidMap<SymbolMetadata>) -> Seq<DiagnosticModel>
    decreases errors.len(),
{
    if errors.len() == 0 {
        Seq::empty()
    } else {
        let prev = unhandled_warnings(origins, errors.drop_last(), table);
        let e = errors.last();
        if origins.contains_key(e.uid) {
            match table.spec_get(origins[e.uid].function.uid) {
                Some(meta) => prev.push(unhandled(e, origins[e.uid], meta)),
                None => prev,
            }
        } else {
            prev
        }
    }
}

/// The tokens of a pool that end the flow successfully.
pub open spec fn terminal_tokens(p: PoolModel) -> Seq<Token> {
    p.variables + unread_constants(p.constants, p.constants_used)
}

/// The terminal and error edges of one pool.
pub open spec fn pool_leftover_edges(p: PoolModel, final_uid: u32, fatal_uid: u32) -> Seq<Edge> {
    routed_edges(p.origins, terminal_tokens(p), final_uid, EdgeRelation::TerminalFlow)
        + routed_edges(p.origins, p.errors, fatal_uid, EdgeRelation::ErrorFlow)
}

pub open spec fn leftover_edges(pools: Seq<PoolModel>, final_uid: u32, fatal_uid: u32) -> Seq<Edge>
    decreases pools.len(),
{
    if pools.len() == 0 {
        Seq::empty()
    } else {
        leftover_edges(pools.drop_last(), final_uid, fatal_uid) + pool_leftover_edges(pools.last(), final_uid, fatal_uid)
    }
}

pub open spec fn leftover_warnings(pools: Seq<PoolModel>, table: UidMap<SymbolMetadata>) -> Seq<DiagnosticModel>
    decreases pools.len(),
{
    if pools.len() == 0 {
        Seq::empty()
    } else {
        leftover_warnings(pools.drop_last(), table) + unhandled_warnings(pools.last().origins, pools.last().errors, table)
    }
}

/// Whether some token of `tokens` has a recorded origin.
pub open spec fn has_routed(origins: Map<u32, Node>, tokens: Seq<Token>) -> bool {
    exists|j: int| 0 <= j < tokens.len() && origins.contains_key(#[trigger] tokens[j].uid)
}

/// Whether some pool routes a token to the final node.
pub open spec fn any_terminal(pools: Seq<PoolModel>) -> bool {
    exists|i: int| 0 <= i < pools.len() && #[trigger] has_routed(pools[i].origins, terminal_tokens(pools[i]))
}

/// Whether some pool routes an error to the fatal node.
pub open spec fn any_error(pools: Seq<PoolModel>) -> bool {
    exists|i: int| 0 <= i < pools.len() && #[trigger] has_routed(pools[i].origins, pools[i].errors)
}

/// Whether some edge leaves the node `uid`.
pub open spec fn has_edge_from(edges: Seq<Edge>, uid: u32) -> bool {
    exists|i: int| 0 <= i < edges.len() && edges[i].from_node_uid == uid
}

/// Edges `a` and `b` join the same nodes with the same token.
pub open spec fn same_route(a: Edge, b: Edge) -> bool {
    a.from_node_uid == b.from_node_uid && a.to_node_uid == b.to_node_uid && a.token.uid == b.token.uid
}

/// The edges with later repetitions of a route removed.
pub open spec fn dedup_edges(edges: Seq<Edge>) -> Seq<Edge>
    decreases edges.len(),
{
    if edges.len() == 0 {
        Seq::empty()
    } else {
        let prev = dedup_edges(edges.drop_last());
        if exists|k: int| 0 <= k < prev.len() && same_route(prev[k], edges.last()) {
            prev
        } else {
            prev.push(edges.last())
        }
    }
}

/// An engine-generated boundary node named `name`.
pub open spec fn is_boundary_node(n: Node, name: Seq<char>, start: bool, end: bool, error: bool) -> bool {
    &&& n.uid == spec_hash_name(name)
    &&& n.function.uid == spec_hash_name(name)
    &&& n.function.name@ == name
    &&& n.function.documentation.deep_view() == Some("Engine-generated boundary node"@)
    &&& n.function.consumes@.len() == 0
    &&& n.function.produces@.len() == 0
    &&& n.function.group is None
    &&& n.is_artificial_graph_start == start
    &&& n.is_artificial_graph_end == end
    &&& n.is_artificial_error_termination == error
}

/// The whole simulation, given the three boundary nodes.
pub open spec fn simulated(m0: FlowModel, s: ProgramStructure, initial: Node, final_node: Node, fatal: Node) -> FlowModel {
    let seeded = FlowModel {
        nodes: m0.nodes,
        edges: m0.edges,
        pools: m0.pools.push(seeded_pool(seed_tokens(s.catalog, s.flow@), initial)),
        deduplicate_edges: m0.deduplicate_edges,
        diagnostics: m0.diagnostics,
    };
    let run = sim_steps(seeded, s.catalog, s.flow@);
    let edges = run.edges + leftover_edges(run.pools, final_node.uid, fatal.uid);
    let front = if has_edge_from(edges, initial.uid) {
        seq![initial] + run.nodes
    } else {
        run.nodes
    };
    let with_final = if any_terminal(run.pools) {
        front.push(final_node)
    } else {
        front
    };
    FlowModel {
        nodes: if any_error(run.pools) {
            with_final.push(fatal)
        } else {
            with_final
        },
        edges: if m0.deduplicate_edges {
            dedup_edges(edges)
        } else {
            edges
        },
        pools: run.pools,
        deduplicate_edges: m0.deduplicate_edges,
        diagnostics: run.diagnostics + leftover_warnings(run.pools, s.symbol_table),
    }
}


/// Whether `names` lists `name`.
fn contains_name(names: &Vec<String>, name: &str) -> (r: bool)
    ensures
        r == views(names@).contains(name@),
{
    let mut i: usize = 0;
    while i < names.len()
        invariant
            0 <= i <= names@.len(),
            forall|j: int| 0 <= j < i ==> (#[trigger] names@[j])@ != name@,
        decreases names@.len() - i,
    {
        if str_eq(names[i].as_str(), name) {
            assert(views(names@)[i as int] == name@);
            return true;
        }
        i = i + 1;
    }
    assert(!views(names@).contains(name@)) by {
        if views(names@).contains(name@) {
            let k = choose|k: int| 0 <= k < views(names@).len() && views(names@)[k] == name@;
            assert(names@[k]@ == name@);
        }
    }
    false
}

/// Adds the names of `missing` not yet listed.
fn add_missing_names(names: &mut Vec<String>, missing: &Vec<Token>)
    ensures
        views(final(names)@) == add_names(views(old(names)@), missing@),
{
    let mut i: usize = 0;
    while i < missing.len()
        invariant
            0 <= i <= missing@.len(),
            views(names@) == add_names(views(old(names)@), missing@.take(i as int)),
        decreases missing@.len() - i,
    {
        assert(missing@.take(i + 1).drop_last() =~= missing@.take(i as int));
        let name = missing[i].kind.name();
        if !contains_name(names, name) {
            names.push(String::from_str(name));
        }
        i = i + 1;
        assert(views(names@) =~= add_names(views(old(names)@), missing@.take(i as int)));
    }
    assert(missing@.take(i as int) =~= missing@);
}

/// Appends edges.
fn push_edges(out: &mut Vec<Edge>, edges: Vec<Edge>)
    ensures
        final(out)@ == old(out)@ + edges@,
{
    let mut i: usize = 0;
    while i < edges.len()
        invariant
            0 <= i <= edges@.len(),
            out@ == old(out)@ + edges@.take(i as int),
        decreases edges@.len() - i,
    {
        out.push(edges[i].clone());
        i = i + 1;
        assert(out@ =~= old(out)@ + edges@.take(i as int));
    }
    assert(edges@.take(i as int) =~= edges@);
}

impl Flow {
    /// Creates an empty flow.
    pub fn new(deduplicate_edges: bool) -> (f: Self)
        ensures
            f@.nodes.len() == 0,
            f@.edges.len() == 0,
            f@.pools.len() == 0,
            f@.deduplicate_edges == deduplicate_edges,
            f@.diagnostics.len() == 0,
    {
        Flow {
            nodes: Vec::new(),
            edges: Vec::new(),
            pools: Vec::new(),
            deduplicate_edges,
            diagnostics: Vec::new(),
        }
    }

    /// Runs one flow step whose function is `func`.
    fn run_step(&mut self, func: &Arc<Function>, step: &FlowStep)
        ensures
            final(self)@ == run_step_model(old(self)@, *func, *step),
    {
        let ghost m = self@;
        let ghost node_v = step_node(*func);
        let node = Arc::new(Node::new(share(func)));
        assert(*node == node_v);
        self.nodes.push(share(&node));
        assert(node_values(self.nodes@) =~= m.nodes.push(node_v));
        let mut next_pools: Vec<TokenPool> = Vec::new();
        let mut executed = false;
        let mut names: Vec<String> = Vec::new();
        let mut j: usize = 0;
        while j < self.pools.len()
            invariant
                0 <= j <= self.pools@.len(),
                *node == node_v,
                node_v == step_node(*func),
                pool_views(self.pools@) == m.pools,
                node_values(self.nodes@) == m.nodes.push(node_v),
                self.deduplicate_edges == m.deduplicate_edges,
                diagnostic_views(self.diagnostics@) == m.diagnostics,
                ({
                    let st = step_pools(m.pools.take(j as int), **func, node_v);
                    &&& pool_views(next_pools@) == st.next
                    &&& self.edges@ == m.edges + st.edges
                    &&& executed == st.executed
                    &&& views(names@) == st.missing_names
                }),
            decreases self.pools@.len() - j,
        {
            assert(m.pools.take(j + 1).drop_last() =~= m.pools.take(j as int));
            assert(m.pools.take(j + 1).last() == self.pools@[j as int]@);
            let ghost prev_next = next_pools@;
            let ghost prev_edges = self.edges@;
            let mut pool = self.pools[j].clone();
            let outcome = pool.try_to_consume(clone_tokens(&func.consumes), share(&node));
            match outcome {
                Consumed::AllTokens(new_edges) => {
                    executed = true;
                    push_edges(&mut self.edges, new_edges);
                    if func.produces.len() == 0 {
                        next_pools.push(pool);
                        assert(pool_views(next_pools@) =~= pool_views(prev_next) + seq![pool@]);
                    } else {
                        let mut b: usize = 0;
                        while b < func.produces.len()
                            invariant
                                0 <= b <= func.produces@.len(),
                                *node == node_v,
                                pool_views(next_pools@) == pool_views(prev_next) + Seq::new(
                                    b as nat,
                                    |k: int| produced(pool@, func.produces@[k]@, node_v),
                                ),
                            decreases func.produces@.len() - b,
                        {
                            let mut branched = pool.clone();
                            branched.produce(clone_tokens(&func.produces[b]), share(&node));
                            assert(branched@ == produced(pool@, func.produces@[b as int]@, node_v));
                            let ghost before = next_pools@;
                            next_pools.push(branched);
                            assert(pool_views(next_pools@) =~= pool_views(before).push(
                                produced(pool@, func.produces@[b as int]@, node_v),
                            ));
                            b = b + 1;
                            assert(pool_views(next_pools@) =~= pool_views(prev_next) + Seq::new(
                                b as nat,
                                |k: int| produced(pool@, func.produces@[k]@, node_v),
                            ));
                        }
                    }
                },
                Consumed::SomeTokens(missing) => {
                    add_missing_names(&mut names, &missing);
                    next_pools.push(pool);
                    assert(pool_views(next_pools@) =~= pool_views(prev_next) + seq![pool@]);
                },
            }
            j = j + 1;
            assert(self.edges@ =~= m.edges + step_pools(m.pools.take(j as int), **func, node_v).edges);
        }
        assert(m.pools.take(j as int) =~= m.pools);
        if !executed && func.consumes.len() > 0 {
            let mut msg = String::from_str("Flow Error: Function '");
            msg.append(func.name.as_str());
            msg.append("' could not execute. Missing inputs: [");
            let joined = join_strings(&names, ", ");
            msg.append(joined.as_str());
            msg.append("]");
            self.diagnostics.push(
                DiagnosticWithContext {
                    file_id: step.span.file_id,
                    span: Some(step.span),
                    message: msg,
                    severity: Severity::Error,
                    tags: Vec::new(),
                },
            );
            assert(diagnostic_views(self.diagnostics@) =~= m.diagnostics.push(
                starvation(**func, *step, views(names@)),
            ));
        }
        self.pools = next_pools;
    }
}


/// The external inputs of a program.
fn collect_seed_tokens(structure: &ProgramStructure) -> (r: Vec<Token>)
    ensures
        r@ == seed_tokens(structure.catalog, structure.flow@),
{
    let mut initial_tokens: Vec<Token> = Vec::new();
    let mut seen_files: HashSet<u32> = HashSet::new();
    let ghost steps = structure.flow@;
    let mut i: usize = 0;
    while i < structure.flow.len()
        invariant
            0 <= i <= steps.len(),
            steps == structure.flow@,
            initial_tokens@ == seed_tokens(structure.catalog, steps.take(i as int)),
            forall|f: u32| #[trigger] seen_files@.contains(f) <==> exists|k: int| 0 <= k < i && steps[k].span.file_id == f,
        decreases steps.len() - i,
    {
        let step = &structure.flow[i];
        let ghost pre = steps.take(i + 1);
        assert(pre.drop_last() =~= steps.take(i as int));
        assert((exists|k: int| 0 <= k < pre.len() - 1 && (#[trigger] pre[k]).span.file_id
            == step.span.file_id) == (exists|k: int| 0 <= k < i && (#[trigger] steps[k]).span.file_id == step.span.file_id))
            by {
            if exists|k: int| 0 <= k < i && (#[trigger] steps[k]).span.file_id == step.span.file_id {
                let k = choose|k: int| 0 <= k < i && (#[trigger] steps[k]).span.file_id == step.span.file_id;
                assert(pre[k] == steps[k]);
            }
            if exists|k: int| 0 <= k < pre.len() - 1 && (#[trigger] pre[k]).span.file_id == step.span.file_id {
                let k = choose|k: int| 0 <= k < pre.len() - 1 && (#[trigger] pre[k]).span.file_id == step.span.file_id;
                assert(pre[k] == steps[k]);
            }
        }
        if seen_files.insert(step.span.file_id) {
            match structure.catalog.get(step.function_name.as_str()) {
                Some(func) => {
                    let mut k: usize = 0;
                    let ghost before = initial_tokens@;
                    while k < func.consumes.len()
                        invariant
                            0 <= k <= func.consumes@.len(),
                            initial_tokens@ == before + func.consumes@.take(k as int),
                        decreases func.consumes@.len() - k,
                    {
                        initial_tokens.push(func.consumes[k].clone());
                        k = k + 1;
                        assert(initial_tokens@ =~= before + func.consumes@.take(k as int));
                    }
                    assert(func.consumes@.take(k as int) =~= func.consumes@);
                },
                None => {},
            }
        }
        i = i + 1;
    }
    assert(steps.take(i as int) =~= steps);
    initial_tokens
}

/// Appends the edges routing `tokens` that have an origin to `target`.
fn route_tokens(
    out: &mut Vec<Edge>,
    origins: &HashMap<u32, Arc<Node>>,
    tokens: &Vec<Token>,
    target: u32,
    relation: EdgeRelation,
) -> (routed: bool)
    ensures
        final(out)@ == old(out)@ + routed_edges(deref_nodes(origins@), tokens@, target, relation),
        routed == has_routed(deref_nodes(origins@), tokens@),
{
    let ghost o = deref_nodes(origins@);
    let mut routed = false;
    let mut i: usize = 0;
    while i < tokens.len()
        invariant
            0 <= i <= tokens@.len(),
            o == deref_nodes(origins@),
            out@ == old(out)@ + routed_edges(o, tokens@.take(i as int), target, relation),
            routed == has_routed(o, tokens@.take(i as int)),
        decreases tokens@.len() - i,
    {
        assert(tokens@.take(i + 1).drop_last() =~= tokens@.take(i as int));
        match origins.get(&tokens[i].uid) {
            Some(origin) => {
                routed = true;
                out.push(
                    Edge {
                        from_node_uid: origin.uid,
                        to_node_uid: target,
                        token: tokens[i].clone(),
                        relation,
                    },
                );
                assert(tokens@.take(i + 1)[i as int] == tokens@[i as int]);
            },
            None => {
                assert forall|j: int| 0 <= j < i + 1 && o.contains_key(#[trigger] tokens@.take(i + 1)[j].uid)
                    implies 0 <= j < i && o.contains_key(tokens@.take(i as int)[j].uid) by {
                    assert(tokens@.take(i + 1)[j] == tokens@[j]);
                }
            },
        }
        i = i + 1;
        assert(out@ =~= old(out)@ + routed_edges(o, tokens@.take(i as int), target, relation));
        assert(routed == has_routed(o, tokens@.take(i as int))) by {
            if routed && !has_routed(o, tokens@.take(i - 1)) {
                assert(o.contains_key(tokens@.take(i as int)[i - 1].uid));
            }
            if has_routed(o, tokens@.take(i - 1)) {
                let j = choose|j: int| 0 <= j < i - 1 && o.contains_key(#[trigger] tokens@.take(i - 1)[j].uid);
                assert(tokens@.take(i as int)[j] == tokens@.take(i - 1)[j]);
            }
        }
    }
    assert(tokens@.take(i as int) =~= tokens@);
    routed
}


/// Appends the warnings for leftover `errors` whose producer has a symbol entry.
fn warn_unhandled(
    out: &mut Vec<DiagnosticWithContext>,
    origins: &HashMap<u32, Arc<Node>>,
    errors: &Vec<Token>,
    table: &UidMap<SymbolMetadata>,
)
    ensures
        diagnostic_views(final(out)@) == diagnostic_views(old(out)@) + unhandled_warnings(
            deref_nodes(origins@),
            errors@,
            *table,
        ),
{
    let ghost o = deref_nodes(origins@);
    let mut i: usize = 0;
    while i < errors.len()
        invariant
            0 <= i <= errors@.len(),
            o == deref_nodes(origins@),
            diagnostic_views(out@) == diagnostic_views(old(out)@) + unhandled_warnings(o, errors@.take(i as int), *table),
        decreases errors@.len() - i,
    {
        assert(errors@.take(i + 1).drop_last() =~= errors@.take(i as int));
        assert(errors@.take(i + 1).last() == errors@[i as int]);
        let err = &errors[i];
        let ghost before = out@;
        match origins.get(&err.uid) {
            Some(origin) => {
                match table.get(&origin.function.uid) {
                    Some(meta) => {
                        let mut msg = String::from_str("Unhandled Error: '");
                        msg.append(err.kind.name());
                        msg.append("' is produced by '");
                        msg.append(origin.function.name.as_str());
                        msg.append("' but never consumed (rescued).");
                        out.push(
                            DiagnosticWithContext {
                                file_id: meta.definition_span.file_id,
                                span: Some(meta.definition_span),
                                message: msg,
                                severity: Severity::Warning,
                                tags: Vec::new(),
                            },
                        );
                        assert(diagnostic_views(out@) =~= diagnostic_views(before).push(
                            unhandled(*err, **origin, *meta),
                        ));
                    },
                    None => {},
                }
            },
            None => {},
        }
        i = i + 1;
    }
    assert(errors@.take(i as int) =~= errors@);
}

proof fn lemma_any_step(pools: Seq<PoolModel>, n: int)
    requires
        0 <= n < pools.len(),
    ensures
        any_terminal(pools.take(n + 1)) == (any_terminal(pools.take(n)) || has_routed(
            pools[n].origins,
            terminal_tokens(pools[n]),
        )),
        any_error(pools.take(n + 1)) == (any_error(pools.take(n)) || has_routed(pools[n].origins, pools[n].errors)),
{
    let a = pools.take(n + 1);
    let b = pools.take(n);
    assert(a[n] == pools[n]);
    assert forall|i: int| 0 <= i < n implies a[i] == b[i] by {}
    if any_terminal(b) {
        let i = choose|i: int| 0 <= i < b.len() && #[trigger] has_routed(b[i].origins, terminal_tokens(b[i]));
        assert(a[i] == b[i]);
    }
    if any_error(b) {
        let i = choose|i: int| 0 <= i < b.len() && #[trigger] has_routed(b[i].origins, b[i].errors);
        assert(a[i] == b[i]);
    }
    if any_terminal(a) {
        let i = choose|i: int| 0 <= i < a.len() && #[trigger] has_routed(a[i].origins, terminal_tokens(a[i]));
        if i < n {
            assert(a[i] == b[i]);
        }
    }
    if any_error(a) {
        let i = choose|i: int| 0 <= i < a.len() && #[trigger] has_routed(a[i].origins, a[i].errors);
        if i < n {
            assert(a[i] == b[i]);
        }
    }
}

impl Flow {
    /// Routes the leftovers of every pool to the final or fatal node.
    fn route_leftovers(&mut self, table: &UidMap<SymbolMetadata>, final_uid: u32, fatal_uid: u32) -> (r: (bool, bool))
        ensures
            final(self)@ == (FlowModel {
                edges: old(self)@.edges + leftover_edges(old(self)@.pools, final_uid, fatal_uid),
                diagnostics: old(self)@.diagnostics + leftover_warnings(old(self)@.pools, *table),
                ..old(self)@
            }),
            r.0 == any_terminal(old(self)@.pools),
            r.1 == any_error(old(self)@.pools),
    {
        let ghost m = self@;
        let mut has_terminal_flow = false;
        let mut has_error_flow = false;
        let mut p: usize = 0;
        while p < self.pools.len()
            invariant
                0 <= p <= self.pools@.len(),
                pool_views(self.pools@) == m.pools,
                node_values(self.nodes@) == m.nodes,
                self.deduplicate_edges == m.deduplicate_edges,
                self.edges@ == m.edges + leftover_edges(m.pools.take(p as int), final_uid, fatal_uid),
                diagnostic_views(self.diagnostics@) == m.diagnostics + leftover_warnings(m.pools.take(p as int), *table),
                has_terminal_flow == any_terminal(m.pools.take(p as int)),
                has_error_flow == any_error(m.pools.take(p as int)),
            decreases self.pools@.len() - p,
        {
            assert(m.pools.take(p + 1).drop_last() =~= m.pools.take(p as int));
            assert(m.pools.take(p + 1).last() == self.pools@[p as int]@);
            proof {
                lemma_any_step(m.pools, p as int);
            }
            let leftovers = self.pools[p].get_leftover_tokens();
            let mut terminal = leftovers.variables;
            let mut k: usize = 0;
            let ghost vars = terminal@;
            while k < leftovers.constants.len()
                invariant
                    0 <= k <= leftovers.constants@.len(),
                    terminal@ == vars + leftovers.constants@.take(k as int),
                decreases leftovers.constants@.len() - k,
            {
                terminal.push(leftovers.constants[k].clone());
                k = k + 1;
                assert(terminal@ =~= vars + leftovers.constants@.take(k as int));
            }
            assert(leftovers.constants@.take(k as int) =~= leftovers.constants@);
            assert(terminal@ == terminal_tokens(self.pools@[p as int]@));
            let ghost e0 = self.edges@;
            let t = route_tokens(
                &mut self.edges,
                &self.pools[p].token_to_origin_node,
                &terminal,
                final_uid,
                EdgeRelation::TerminalFlow,
            );
            let e = route_tokens(
                &mut self.edges,
                &self.pools[p].token_to_origin_node,
                &leftovers.errors,
                fatal_uid,
                EdgeRelation::ErrorFlow,
            );
            warn_unhandled(&mut self.diagnostics, &self.pools[p].token_to_origin_node, &leftovers.errors, table);
            has_terminal_flow = has_terminal_flow || t;
            has_error_flow = has_error_flow || e;
            p = p + 1;
            assert(self.edges@ =~= m.edges + leftover_edges(m.pools.take(p as int), final_uid, fatal_uid));
            assert(diagnostic_views(self.diagnostics@) =~= m.diagnostics + leftover_warnings(
                m.pools.take(p as int),
                *table,
            ));
        }
        assert(m.pools.take(p as int) =~= m.pools);
        (has_terminal_flow, has_error_flow)
    }
}


/// Whether some edge of `edges` joins the same nodes with the same token as `e`.
fn has_same_route(edges: &Vec<Edge>, e: &Edge) -> (r: bool)
    ensures
        r == exists|k: int| 0 <= k < edges@.len() && same_route(edges@[k], *e),
{
    let mut k: usize = 0;
    while k < edges.len()
        invariant
            0 <= k <= edges@.len(),
            forall|j: int| 0 <= j < k ==> !same_route(#[trigger] edges@[j], *e),
        decreases edges@.len() - k,
    {
        if edges[k].from_node_uid == e.from_node_uid && edges[k].to_node_uid == e.to_node_uid
            && edges[k].token.uid == e.token.uid {
            return true;
        }
        k = k + 1;
    }
    false
}

/// Drops later repetitions of a route.
fn dedup(edges: &Vec<Edge>) -> (r: Vec<Edge>)
    ensures
        r@ == dedup_edges(edges@),
{
    let mut kept: Vec<Edge> = Vec::new();
    let mut i: usize = 0;
    while i < edges.len()
        invariant
            0 <= i <= edges@.len(),
            kept@ == dedup_edges(edges@.take(i as int)),
        decreases edges@.len() - i,
    {
        assert(edges@.take(i + 1).drop_last() =~= edges@.take(i as int));
        assert(edges@.take(i + 1).last() == edges@[i as int]);
        if !has_same_route(&kept, &edges[i]) {
            kept.push(edges[i].clone());
        }
        i = i + 1;
    }
    assert(edges@.take(i as int) =~= edges@);
    kept
}

/// Whether some edge leaves the node `uid`.
fn any_edge_from(edges: &Vec<Edge>, uid: u32) -> (r: bool)
    ensures
        r == has_edge_from(edges@, uid),
{
    let mut k: usize = 0;
    while k < edges.len()
        invariant
            0 <= k <= edges@.len(),
            forall|j: int| 0 <= j < k ==> (#[trigger] edges@[j]).from_node_uid != uid,
        decreases edges@.len() - k,
    {
        if edges[k].from_node_uid == uid {
            return true;
        }
        k = k + 1;
    }
    false
}

impl Flow {
    /// Simulates the flow of a program.
    ///
    /// A pool is seeded with what the first step of each file consumes,
    /// attributed to an `InitialNode`. Each step runs in every pool that can
    /// meet its requirements and branches per output; a step that no pool can
    /// run is reported as an error. Leftover variables and unread constants go
    /// to a `FinalNode`, leftover errors to `FatalErrors` with a warning at
    /// their producer. Boundary nodes appear only when an edge touches them.
    pub fn simulate(&mut self, structure: &ProgramStructure) -> (graph: Graph)
        ensures
            exists|i: Node, f: Node, e: Node|
                #![trigger simulated(old(self)@, *structure, i, f, e)]
                is_boundary_node(i, "InitialNode"@, true, false, false)
                && is_boundary_node(f, "FinalNode"@, false, true, false)
                && is_boundary_node(e, "FatalErrors"@, false, false, true)
                && final(self)@ == simulated(old(self)@, *structure, i, f, e),
            graph.nodes@ == final(self)@.nodes,
            graph.edges@ == final(self)@.edges,
    {
        let ghost m0 = self@;
        let initial_node = Arc::new(Node::new_artificial(String::from_str("InitialNode"), true, false, false));
        let final_node = Arc::new(Node::new_artificial(String::from_str("FinalNode"), false, true, false));
        let fatal_node = Arc::new(Node::new_artificial(String::from_str("FatalErrors"), false, false, true));

        // Seed the initial pool.
        let initial_tokens = collect_seed_tokens(structure);
        let seed_pool = TokenPool::new(initial_tokens, share(&initial_node));
        assert(seed_pool@ == seeded_pool(seed_tokens(structure.catalog, structure.flow@), node_of(initial_node)));
        let ghost before_pools = self.pools@;
        self.pools.push(seed_pool);
        assert(pool_views(self.pools@) =~= pool_views(before_pools).push(seed_pool@));
        let ghost seeded = FlowModel {
            nodes: m0.nodes,
            edges: m0.edges,
            pools: m0.pools.push(seeded_pool(seed_tokens(structure.catalog, structure.flow@), node_of(initial_node))),
            deduplicate_edges: m0.deduplicate_edges,
            diagnostics: m0.diagnostics,
        };
        assert(self@ =~= seeded);

        // Run the steps.
        let mut i: usize = 0;
        while i < structure.flow.len()
            invariant
                0 <= i <= structure.flow@.len(),
                self@ == sim_steps(seeded, structure.catalog, structure.flow@.take(i as int)),
            decreases structure.flow@.len() - i,
        {
            assert(structure.flow@.take(i + 1).drop_last() =~= structure.flow@.take(i as int));
            assert(structure.flow@.take(i + 1).last() == structure.flow@[i as int]);
            match structure.catalog.get(structure.flow[i].function_name.as_str()) {
                Some(func) => self.run_step(func, &structure.flow[i]),
                None => {},
            }
            i = i + 1;
        }
        assert(structure.flow@.take(i as int) =~= structure.flow@);
        let ghost run = self@;
        let ghost edges_all = run.edges + leftover_edges(run.pools, final_node.uid, fatal_node.uid);

        // Route leftovers.
        let (has_terminal_flow, has_error_flow) = self.route_leftovers(
            &structure.symbol_table,
            final_node.uid,
            fatal_node.uid,
        );

        // Boundary nodes.
        assert(self.edges@ == edges_all);
        let from_initial = any_edge_from(&self.edges, initial_node.uid);
        assert(from_initial == has_edge_from(edges_all, initial_node.uid));
        if from_initial {
            let ghost before = self.nodes@;
            self.nodes.insert(0, share(&initial_node));
            assert(node_values(self.nodes@) =~= seq![*initial_node] + node_values(before));
        }
        if has_terminal_flow {
            let ghost before = self.nodes@;
            self.nodes.push(share(&final_node));
            assert(node_values(self.nodes@) =~= node_values(before).push(*final_node));
        }
        if has_error_flow {
            let ghost before = self.nodes@;
            self.nodes.push(share(&fatal_node));
            assert(node_values(self.nodes@) =~= node_values(before).push(*fatal_node));
        }
        if self.deduplicate_edges {
            self.edges = dedup(&self.edges);
        }
        proof {
            lemma_sim_steps_keeps_flag(seeded, structure.catalog, structure.flow@);
        }
        assert(self@.edges == (if m0.deduplicate_edges { dedup_edges(edges_all) } else { edges_all }));
        assert(run == sim_steps(seeded, structure.catalog, structure.flow@));
        assert(self@.edges == simulated(m0, *structure, *initial_node, *final_node, *fatal_node).edges);
        assert(self@.nodes == simulated(m0, *structure, *initial_node, *final_node, *fatal_node).nodes);
        assert(self@.pools == simulated(m0, *structure, *initial_node, *final_node, *fatal_node).pools);
        assert(self@.diagnostics == simulated(m0, *structure, *initial_node, *final_node, *fatal_node).diagnostics);
        assert(self@ == simulated(m0, *structure, *initial_node, *final_node, *fatal_node));

        // Build the graph.
        let mut nodes: Vec<Node> = Vec::new();
        let mut k: usize = 0;
        while k < self.nodes.len()
            invariant
                0 <= k <= self.nodes@.len(),
                nodes@ == node_values(self.nodes@).take(k as int),
            decreases self.nodes@.len() - k,
        {
            let n: &Node = &self.nodes[k];
            nodes.push(n.clone());
            k = k + 1;
            assert(nodes@ =~= node_values(self.nodes@).take(k as int));
        }
        assert(node_values(self.nodes@).take(k as int) =~= node_values(self.nodes@));
        let mut edges: Vec<Edge> = Vec::new();
        push_edges(&mut edges, clone_edges(&self.edges));
        assert(edges@ =~= self.edges@);
        Graph { nodes, edges }
    }
}

/// Clones a list of edges.
fn clone_edges(edges: &Vec<Edge>) -> (r: Vec<Edge>)
    ensures
        r@ == edges@,
{
    let mut r: Vec<Edge> = Vec::new();
    let mut i: usize = 0;
    while i < edges.len()
        invariant
            0 <= i <= edges@.len(),
            r@ == edges@.take(i as int),
        decreases edges@.len() - i,
    {
        r.push(edges[i].clone());
        i = i + 1;
        assert(r@ =~= edges@.take(i as int));
    }
    assert(edges@.take(i as int) =~= edges@);
    r
}

} // verus!
