//! A pipeline of functions through which named tokens flow: each function
//! takes what it needs from a pool, and what is left at the end is routed
//! to the terminal node or to an error node.

use vstd::prelude::*;
use crate::text::str_eq;

verus! {

/// How many items a function processes.
#[derive(Debug, Clone, Copy, PartialEq, Eq, Structural)]
pub enum Cardinality {
    /// One item at a time.
    One,
    /// A whole collection.
    Many,
}

/// Data flowing through the pipeline.
#[derive(Debug)]
pub struct Token {
    pub name: String,
    pub is_mutable: bool,
    pub is_collection: bool,
    pub origin_uid: Option<u32>,
    pub destination_uid: Option<u32>,
}

/// The content of a token.
pub struct TokenModel {
    pub name: Seq<char>,
    pub is_mutable: bool,
    pub is_collection: bool,
    pub origin_uid: Option<u32>,
    pub destination_uid: Option<u32>,
}

impl View for Token {
    type V = TokenModel;

    open spec fn view(&self) -> TokenModel {
        TokenModel {
            name: self.name@,
            is_mutable: self.is_mutable,
            is_collection: self.is_collection,
            origin_uid: self.origin_uid,
            destination_uid: self.destination_uid,
        }
    }
}

pub open spec fn token_views(ts: Seq<Token>) -> Seq<TokenModel> {
    ts.map_values(|t: Token| t@)
}

impl Clone for Token {
    fn clone(&self) -> (r: Self)
        ensures
            r@ == self@,
    {
        Token {
            name: String::from_str(self.name.as_str()),
            is_mutable: self.is_mutable,
            is_collection: self.is_collection,
            origin_uid: self.origin_uid,
            destination_uid: self.destination_uid,
        }
    }
}

impl Token {
    /// A token with no origin and no destination yet.
    pub fn new(name: &str, is_mutable: bool, is_collection: bool) -> (t: Self)
        ensures
            t@ == (TokenModel { name: name@, is_mutable, is_collection, origin_uid: None, destination_uid: None }),
    {
        Token { name: String::from_str(name), is_mutable, is_collection, origin_uid: None, destination_uid: None }
    }
}

/// A processing node of the pipeline.
#[derive(Debug)]
pub struct Function {
    pub name: String,
    pub uid: u32,
    pub consumes: Vec<Token>,
    pub produces: Vec<Token>,
    pub is_start: bool,
    pub is_end: bool,
    pub is_error: bool,
}

/// The content of a function.
pub struct FunctionModel {
    pub name: Seq<char>,
    pub uid: u32,
    pub consumes: Seq<TokenModel>,
    pub produces: Seq<TokenModel>,
    pub is_start: bool,
    pub is_end: bool,
    pub is_error: bool,
}

impl View for Function {
    type V = FunctionModel;

    open spec fn view(&self) -> FunctionModel {
        FunctionModel {
            name: self.name@,
            uid: self.uid,
            consumes: token_views(self.consumes@),
            produces: token_views(self.produces@),
            is_start: self.is_start,
            is_end: self.is_end,
            is_error: self.is_error,
        }
    }
}

pub open spec fn function_views(fs: Seq<Function>) -> Seq<FunctionModel> {
    fs.map_values(|f: Function| f@)
}

/// What is available in the environment, and what has been consumed.
#[derive(Debug)]
pub struct TokenPool {
    pub available: Vec<Token>,
    pub consumed: Vec<Token>,
}

pub struct PoolModel {
    pub available: Seq<TokenModel>,
    pub consumed: Seq<TokenModel>,
}

impl View for TokenPool {
    type V = PoolModel;

    open spec fn view(&self) -> PoolModel {
        PoolModel { available: token_views(self.available@), consumed: token_views(self.consumed@) }
    }
}

/// A produced token enters the pool, marked with its origin; a forced
/// collection (fan-out) stays a collection.
pub open spec fn pool_add(p: PoolModel, t: TokenModel, origin: u32, force_collection: bool) -> PoolModel {
    PoolModel {
        available: p.available.push(
            TokenModel { origin_uid: Some(origin), is_collection: t.is_collection || force_collection, ..t },
        ),
        ..p
    }
}

/// The first available token with the given name.
pub open spec fn first_named(ts: Seq<TokenModel>, name: Seq<char>, i: int) -> Option<int>
    decreases ts.len() - i,
{
    if i < 0 || i >= ts.len() {
        None
    } else if ts[i].name == name {
        Some(i)
    } else {
        first_named(ts, name, i + 1)
    }
}

/// A requirement met from the pool: the first token of its name is handed to
/// the consumer (one edge), recorded as consumed, and removed when mutable;
/// a collection handed to a consumer of one item triggers a fan-out.
pub open spec fn pool_consume(p: PoolModel, req: TokenModel, consumer: u32) -> (PoolModel, Seq<TokenModel>, bool) {
    match first_named(p.available, req.name, 0) {
        Some(pos) => {
            let m = p.available[pos];
            (
                PoolModel {
                    available: if m.is_mutable {
                        p.available.remove(pos)
                    } else {
                        p.available
                    },
                    consumed: p.consumed.push(m),
                },
                seq![TokenModel { destination_uid: Some(consumer), ..m }],
                m.is_collection && !req.is_collection,
            )
        },
        None => (p, Seq::empty(), false),
    }
}

impl TokenPool {
    /// An empty pool.
    pub fn new() -> (p: Self)
        ensures
            p@.available.len() == 0,
            p@.consumed.len() == 0,
    {
        TokenPool { available: Vec::new(), consumed: Vec::new() }
    }

    /// Adds a produced token, with its origin; a forced collection propagates a fan-out.
    pub fn add(&mut self, token: Token, origin_uid: u32, force_collection: bool)
        ensures
            final(self)@ == pool_add(old(self)@, token@, origin_uid, force_collection),
    {
        let mut token = token;
        token.origin_uid = Some(origin_uid);
        if force_collection {
            token.is_collection = true;
        }
        let ghost before = self@;
        let ghost tv = token@;
        self.available.push(token);
        assert(self@.available =~= before.available.push(tv));
    }

    /// Meets a requirement; returns the edges made and whether a fan-out occurred.
    pub fn consume_requirement(&mut self, req: &Token, consumer_uid: u32) -> (r: (Vec<Token>, bool))
        ensures
            (final(self)@, token_views(r.0@), r.1) == pool_consume(old(self)@, req@, consumer_uid),
    {
        let ghost p0 = self@;
        let mut edges: Vec<Token> = Vec::new();
        let mut triggered_expansion = false;
        let mut i: usize = 0;
        while i < self.available.len()
            invariant
                0 <= i <= self.available@.len(),
                self@ == p0,
                p0 == old(self)@,
                edges@.len() == 0,
                !triggered_expansion,
                first_named(p0.available, req.name@, 0) == first_named(p0.available, req.name@, i as int),
            decreases self.available@.len() - i,
        {
            assert(p0.available[i as int] == self.available@[i as int]@);
            if str_eq(self.available[i].name.as_str(), req.name.as_str()) {
                let match_token = self.available[i].clone();
                if match_token.is_collection && !req.is_collection {
                    triggered_expansion = true;
                }
                let mut edge = match_token.clone();
                edge.destination_uid = Some(consumer_uid);
                let ghost ev = edge@;
                edges.push(edge);
                assert(token_views(edges@) =~= seq![ev]);
                let mutable = match_token.is_mutable;
                let ghost mv = match_token@;
                self.consumed.push(match_token);
                assert(token_views(self.consumed@) =~= p0.consumed.push(mv));
                if mutable {
                    let ghost before = self.available@;
                    self.available.remove(i);
                    assert(token_views(self.available@) =~= p0.available.remove(i as int));
                }
                return (edges, triggered_expansion);
            }
            i = i + 1;
        }
        assert(token_views(edges@) =~= Seq::<TokenModel>::empty());
        (edges, triggered_expansion)
    }
}

} // verus!

verus! {

/// A token with the collection flag its cardinality gives.
pub open spec fn with_cardinality(t: TokenModel, c: Cardinality) -> TokenModel {
    TokenModel { is_collection: c == Cardinality::Many, ..t }
}

pub open spec fn paired_views(v: Seq<(Token, Cardinality)>) -> Seq<(TokenModel, Cardinality)> {
    v.map_values(|p: (Token, Cardinality)| (p.0@, p.1))
}

pub open spec fn card_tokens(v: Seq<(TokenModel, Cardinality)>) -> Seq<TokenModel> {
    v.map_values(|p: (TokenModel, Cardinality)| with_cardinality(p.0, p.1))
}

/// A node made by the processor.
pub open spec fn node_spec(
    name: Seq<char>,
    consumes: Seq<(TokenModel, Cardinality)>,
    produces: Seq<(TokenModel, Cardinality)>,
    uid: u32,
    is_start: bool,
    is_end: bool,
    is_error: bool,
) -> FunctionModel {
    FunctionModel {
        name,
        uid,
        consumes: card_tokens(consumes),
        produces: card_tokens(produces),
        is_start,
        is_end,
        is_error,
    }
}

/// Adds tokens to the pool in order.
pub open spec fn add_all(p: PoolModel, ts: Seq<TokenModel>, origin: u32, force: bool) -> PoolModel
    decreases ts.len(),
{
    if ts.len() == 0 {
        p
    } else {
        pool_add(add_all(p, ts.drop_last(), origin, force), ts.last(), origin, force)
    }
}

/// Meets the requirements of a consumer in order: the pool afterwards, the
/// edges made, and whether any fan-out occurred.
pub open spec fn consume_all(p: PoolModel, reqs: Seq<TokenModel>, consumer: u32) -> (PoolModel, Seq<TokenModel>, bool)
    decreases reqs.len(),
{
    if reqs.len() == 0 {
        (p, Seq::empty(), false)
    } else {
        let prev = consume_all(p, reqs.drop_last(), consumer);
        let r = pool_consume(prev.0, reqs.last(), consumer);
        (r.0, prev.1 + r.1, prev.2 || r.2)
    }
}

/// Runs the functions of the pipeline in order: each consumes its
/// requirements, then adds its products (as collections after a fan-out).
pub open spec fn run_pipeline(p: PoolModel, fs: Seq<FunctionModel>) -> (PoolModel, Seq<TokenModel>)
    decreases fs.len(),
{
    if fs.len() == 0 {
        (p, Seq::empty())
    } else {
        let prev = run_pipeline(p, fs.drop_last());
        let f = fs.last();
        let c = consume_all(prev.0, f.consumes, f.uid);
        (add_all(c.0, f.produces, f.uid, c.2), prev.1 + c.1)
    }
}

/// Whether a name contains `Error`.
pub open spec fn names_error(name: Seq<char>) -> bool {
    exists|i: int| 0 <= i && i + 5 <= name.len() && #[trigger] name.subrange(i, i + 5) == "Error"@
}

pub open spec fn known_uid(known: Seq<(Seq<char>, u32)>, name: Seq<char>, i: int) -> Option<u32>
    decreases known.len() - i,
{
    if i < 0 || i >= known.len() {
        None
    } else if known[i].0 == name {
        Some(known[i].1)
    } else {
        known_uid(known, name, i + 1)
    }
}

/// The routing of leftovers, in order: errors to one error node per name
/// (made on first use), everything else to the end node.
pub struct Routing {
    pub counter: u32,
    pub known: Seq<(Seq<char>, u32)>,
    pub nodes: Seq<FunctionModel>,
    pub edges: Seq<TokenModel>,
}

pub open spec fn route(r: Routing, leftovers: Seq<TokenModel>, end_uid: u32) -> Routing
    decreases leftovers.len(),
{
    if leftovers.len() == 0 {
        r
    } else {
        let p = route(r, leftovers.drop_last(), end_uid);
        let l = leftovers.last();
        if names_error(l.name) {
            match known_uid(p.known, l.name, 0) {
                Some(uid) => Routing { edges: p.edges.push(TokenModel { destination_uid: Some(uid), ..l }), ..p },
                None => Routing {
                    counter: (p.counter + 1) as u32,
                    known: p.known.push((l.name, p.counter)),
                    nodes: p.nodes.push(node_spec(l.name, Seq::empty(), Seq::empty(), p.counter, false, true, true)),
                    edges: p.edges.push(TokenModel { destination_uid: Some(p.counter), ..l }),
                },
            }
        } else {
            Routing { edges: p.edges.push(TokenModel { destination_uid: Some(end_uid), ..l }), ..p }
        }
    }
}

/// The number of tokens a pipeline can leave behind at most.
pub open spec fn token_budget(fs: Seq<FunctionModel>) -> nat
    decreases fs.len(),
{
    if fs.len() == 0 {
        0
    } else {
        token_budget(fs.drop_last()) + fs.last().consumes.len() + fs.last().produces.len()
    }
}

/// The graph a pipeline gives: a start node seeded with what the first
/// function consumes, the functions, an error node per error name among the
/// leftovers, and an end node; edges from consumption, then from routing.
pub open spec fn processed(counter: u32, pipeline: Seq<FunctionModel>) -> (Seq<FunctionModel>, Seq<TokenModel>, u32) {
    let start = node_spec("Start"@, Seq::empty(), Seq::empty(), counter, true, false, false);
    let end = node_spec("End"@, Seq::empty(), Seq::empty(), (counter + 1) as u32, false, true, false);
    let empty = PoolModel { available: Seq::empty(), consumed: Seq::empty() };
    let seeded = if pipeline.len() > 0 {
        add_all(empty, pipeline[0].consumes, start.uid, false)
    } else {
        empty
    };
    let run = run_pipeline(seeded, pipeline);
    let routed = route(
        Routing { counter: (counter + 2) as u32, known: Seq::empty(), nodes: Seq::empty(), edges: Seq::empty() },
        run.0.available,
        end.uid,
    );
    (seq![start] + pipeline + routed.nodes + seq![end], run.1 + routed.edges, routed.counter)
}

/// Generates the graph of a pipeline, allocating node identifiers in sequence.
#[derive(Debug)]
pub struct FlowProcessor {
    uid_counter: u32,
}

impl FlowProcessor {
    /// The next identifier this processor gives.
    pub closed spec fn counter(&self) -> u32 {
        self.uid_counter
    }

    /// A processor whose first identifier is 1.
    pub fn new() -> (p: Self)
        ensures
            p.counter() == 1,
    {
        FlowProcessor { uid_counter: 1 }
    }

    fn next_uid(&mut self) -> (id: u32)
        requires
            old(self).counter() < u32::MAX,
        ensures
            id == old(self).counter(),
            final(self).counter() == old(self).counter() + 1,
    {
        let id = self.uid_counter;
        self.uid_counter = self.uid_counter + 1;
        id
    }

    /// Makes a node with the next identifier; each token is a collection
    /// exactly when its cardinality is `Many`.
    pub fn create_node(
        &mut self,
        name: &str,
        consumes: Vec<(Token, Cardinality)>,
        produces: Vec<(Token, Cardinality)>,
        is_start: bool,
        is_end: bool,
        is_error: bool,
    ) -> (f: Function)
        requires
            old(self).counter() < u32::MAX,
        ensures
            f@ == node_spec(
                name@,
                paired_views(consumes@),
                paired_views(produces@),
                old(self).counter(),
                is_start,
                is_end,
                is_error,
            ),
            final(self).counter() == old(self).counter() + 1,
    {
        let c_tokens = with_cardinalities(consumes);
        let p_tokens = with_cardinalities(produces);
        Function {
            name: String::from_str(name),
            uid: self.next_uid(),
            consumes: c_tokens,
            produces: p_tokens,
            is_start,
            is_end,
            is_error,
        }
    }
}

fn with_cardinalities(pairs: Vec<(Token, Cardinality)>) -> (r: Vec<Token>)
    ensures
        token_views(r@) == card_tokens(paired_views(pairs@)),
{
    let ghost pv = paired_views(pairs@);
    let mut pairs = pairs;
    let mut out: Vec<Token> = Vec::new();
    let mut k: usize = 0;
    let n = pairs.len();
    while pairs.len() > 0
        invariant
            k + pairs@.len() == n,
            n == pv.len(),
            paired_views(pairs@) == pv.skip(k as int),
            token_views(out@) == card_tokens(pv.take(k as int)),
        decreases pairs@.len(),
    {
        let ghost old_pairs = pairs@;
        let (t, card) = pairs.remove(0);
        proof {
            assert(paired_views(old_pairs)[0] == pv.skip(k as int)[0]);
            assert(pv.skip(k as int)[0] == pv[k as int]);
            assert(t@ == pv[k as int].0 && card == pv[k as int].1);
            assert(paired_views(pairs@) =~= paired_views(old_pairs).skip(1));
            assert(paired_views(old_pairs).skip(1) =~= pv.skip(k + 1));
        }
        let mut t = t;
        t.is_collection = card == Cardinality::Many;
        let ghost tv = t@;
        let ghost before = token_views(out@);
        out.push(t);
        assert(token_views(out@) =~= before.push(tv));
        assert(card_tokens(pv.take(k + 1)) =~= card_tokens(pv.take(k as int)).push(
            with_cardinality(pv[k as int].0, pv[k as int].1),
        ));
        k = k + 1;
    }
    assert(pv.take(k as int) =~= pv);
    out
}

} // verus!

verus! {

fn no_pairs() -> (v: Vec<(Token, Cardinality)>)
    ensures
        paired_views(v@) == Seq::<(TokenModel, Cardinality)>::empty(),
{
    let v: Vec<(Token, Cardinality)> = Vec::new();
    assert(paired_views(v@) =~= Seq::<(TokenModel, Cardinality)>::empty());
    v
}

/// Whether a name contains `Error`.
fn contains_error(name: &str) -> (r: bool)
    ensures
        r == names_error(name@),
{
    let cs = crate::text::chars_of(name);
    proof {
        reveal_strlit("Error");
    }
    if cs.len() < 5 {
        assert forall|i: int| 0 <= i && i + 5 <= name@.len() implies #[trigger] name@.subrange(i, i + 5) != "Error"@ by {}
        return false;
    }
    let mut i: usize = 0;
    let last = cs.len() - 4;
    while i < last
        invariant
            cs@ == name@,
            cs@.len() >= 5,
            cs@.len() <= usize::MAX,
            last == cs@.len() - 4,
            i <= last,
            "Error"@ == seq!['E', 'r', 'r', 'o', 'r'],
            forall|j: int| 0 <= j < i ==> #[trigger] cs@.subrange(j, j + 5) != "Error"@,
        decreases last - i,
    {
        if cs[i] == 'E' && cs[i + 1] == 'r' && cs[i + 2] == 'r' && cs[i + 3] == 'o' && cs[i + 4] == 'r' {
            assert(cs@.subrange(i as int, i + 5) =~= "Error"@);
            return true;
        }
        proof {
            if cs@.subrange(i as int, i + 5) == "Error"@ {
                assert(cs@.subrange(i as int, i + 5)[0] == 'E');
                assert(cs@.subrange(i as int, i + 5)[1] == 'r');
                assert(cs@.subrange(i as int, i + 5)[2] == 'r');
                assert(cs@.subrange(i as int, i + 5)[3] == 'o');
                assert(cs@.subrange(i as int, i + 5)[4] == 'r');
            }
        }
        i = i + 1;
    }
    false
}

fn lookup_known(known: &Vec<(String, u32)>, name: &str) -> (r: Option<u32>)
    ensures
        r == known_uid(known@.map_values(|e: (String, u32)| (e.0@, e.1)), name@, 0),
{
    let ghost kv = known@.map_values(|e: (String, u32)| (e.0@, e.1));
    let mut i: usize = 0;
    while i < known.len()
        invariant
            0 <= i <= known@.len(),
            kv == known@.map_values(|e: (String, u32)| (e.0@, e.1)),
            known_uid(kv, name@, 0) == known_uid(kv, name@, i as int),
        decreases known@.len() - i,
    {
        assert(kv[i as int] == (known@[i as int].0@, known@[i as int].1));
        if str_eq(known[i].0.as_str(), name) {
            return Some(known[i].1);
        }
        i = i + 1;
    }
    None
}

impl FlowProcessor {
    /// Builds the graph of a pipeline: start node, the functions, the error
    /// nodes, the end node; and the edges, each a token with its origin and
    /// destination.
    pub fn process_flow(&mut self, pipeline: Vec<Function>) -> (r: (Vec<Function>, Vec<Token>))
        requires
            old(self).counter() as nat + 2 + token_budget(function_views(pipeline@)) <= u32::MAX,
        ensures
            (function_views(r.0@), token_views(r.1@), final(self).counter()) == processed(
                old(self).counter(),
                function_views(pipeline@),
            ),
    {
        let ghost fs = function_views(pipeline@);
        let ghost c0 = self.counter();
        let mut pool = TokenPool::new();
        let mut all_nodes: Vec<Function> = Vec::new();
        let mut all_edges: Vec<Token> = Vec::new();
        let start_node = self.create_node("Start", no_pairs(), no_pairs(), true, false, false);
        let end_node = self.create_node("End", no_pairs(), no_pairs(), false, true, false);
        let ghost empty = PoolModel { available: Seq::empty(), consumed: Seq::empty() };
        assert(pool@.available =~= empty.available);
        assert(pool@.consumed =~= empty.consumed);
        if pipeline.len() > 0 {
            let mut k: usize = 0;
            while k < pipeline[0].consumes.len()
                invariant
                    0 <= k <= pipeline@[0].consumes@.len(),
                    pipeline@.len() > 0,
                    fs == function_views(pipeline@),
                    pool@ == add_all(empty, fs[0].consumes.take(k as int), start_node.uid, false),
                decreases pipeline@[0].consumes@.len() - k,
            {
                assert(fs[0].consumes.take(k + 1).drop_last() =~= fs[0].consumes.take(k as int));
                assert(fs[0].consumes[k as int] == pipeline@[0].consumes@[k as int]@);
                pool.add(pipeline[0].consumes[k].clone(), start_node.uid, false);
                k = k + 1;
            }
            assert(fs[0].consumes.take(k as int) =~= fs[0].consumes);
        }
        let ghost seeded = pool@;
        proof {
            if fs.len() > 0 {
                lemma_add_all_len(empty, fs[0].consumes, start_node.uid, false);
            }
        }
        assert(pool@.available.len() <= if fs.len() > 0 { fs[0].consumes.len() } else { 0 });
        all_nodes.push(start_node);
        let mut pipeline = pipeline;
        let mut i: usize = 0;
        let ghost n = fs.len();
        while pipeline.len() > 0
            invariant
                i + pipeline@.len() == n,
                n == fs.len(),
                n <= usize::MAX,
                function_views(pipeline@) == fs.skip(i as int),
                pool@ == run_pipeline(seeded, fs.take(i as int)).0,
                token_views(all_edges@) == run_pipeline(seeded, fs.take(i as int)).1,
                function_views(all_nodes@) == seq![start_node@] + fs.take(i as int),
                pool@.available.len() <= token_budget(fs.take(i as int)) + if i == 0 && n > 0 {
                    fs[0].consumes.len()
                } else {
                    0
                },
                n > 0 ==> fs[0].consumes.len() <= token_budget(fs.take(1)),
                token_budget(fs.take(i as int)) <= token_budget(fs),
                self.counter() == c0 + 2,
                c0 as nat + 2 + token_budget(fs) <= u32::MAX,
                end_node@ == node_spec("End"@, Seq::empty(), Seq::empty(), (c0 + 1) as u32, false, true, false),
            decreases pipeline@.len(),
        {
            let ghost old_pipeline = pipeline@;
            let func = pipeline.remove(0);
            proof {
                assert(function_views(old_pipeline)[0] == fs.skip(i as int)[0]);
                assert(fs.skip(i as int)[0] == fs[i as int]);
                assert(function_views(pipeline@) =~= function_views(old_pipeline).skip(1));
                assert(function_views(old_pipeline).skip(1) =~= fs.skip(i + 1));
                assert(fs.take(i + 1).drop_last() =~= fs.take(i as int));
                assert(fs.take(i + 1).last() == fs[i as int]);
            }
            let ghost f = fs[i as int];
            let ghost p_before = pool@;
            let ghost e_before = token_views(all_edges@);
            let mut expanded = false;
            let mut k: usize = 0;
            while k < func.consumes.len()
                invariant
                    0 <= k <= func.consumes@.len(),
                    f == func@,
                    ({
                        let c = consume_all(p_before, f.consumes.take(k as int), f.uid);
                        &&& pool@ == c.0
                        &&& token_views(all_edges@) == e_before + c.1
                        &&& expanded == c.2
                    }),
                    pool@.available.len() <= p_before.available.len(),
                decreases func.consumes@.len() - k,
            {
                assert(f.consumes.take(k + 1).drop_last() =~= f.consumes.take(k as int));
                assert(f.consumes[k as int] == func.consumes@[k as int]@);
                let ghost before_edges = token_views(all_edges@);
                let ghost pb = pool@;
                let (mut edges, exp) = pool.consume_requirement(&func.consumes[k], func.uid);
                proof {
                    lemma_consume_len(pb, func.consumes@[k as int]@, func.uid);
                }
                let ghost ev = token_views(edges@);
                all_edges.append(&mut edges);
                assert(token_views(all_edges@) =~= before_edges + ev);
                if exp {
                    expanded = true;
                }
                k = k + 1;
                assert(e_before + consume_all(p_before, f.consumes.take(k as int), f.uid).1 =~= before_edges + ev);
            }
            assert(f.consumes.take(k as int) =~= f.consumes);
            let ghost p_mid = pool@;
            let mut k: usize = 0;
            while k < func.produces.len()
                invariant
                    0 <= k <= func.produces@.len(),
                    f == func@,
                    pool@ == add_all(p_mid, f.produces.take(k as int), f.uid, expanded),
                    pool@.available.len() == p_mid.available.len() + k,
                decreases func.produces@.len() - k,
            {
                assert(f.produces.take(k + 1).drop_last() =~= f.produces.take(k as int));
                assert(f.produces[k as int] == func.produces@[k as int]@);
                pool.add(func.produces[k].clone(), func.uid, expanded);
                k = k + 1;
            }
            assert(f.produces.take(k as int) =~= f.produces);
            let ghost nodes_before = function_views(all_nodes@);
            all_nodes.push(func);
            assert(function_views(all_nodes@) =~= nodes_before.push(f));
            assert(seq![start_node@] + fs.take(i + 1) =~= (seq![start_node@] + fs.take(i as int)).push(f));
            proof {
                assert(token_budget(fs.take(i + 1)) == token_budget(fs.take(i as int)) + f.consumes.len() + f.produces.len());
                lemma_budget_prefix(fs, i + 1);
                if i == 0 {
                    assert(fs.take(1) =~= seq![fs[0]]);
                }
            }
            i = i + 1;
        }
        assert(fs.take(i as int) =~= fs);
        let ghost run = run_pipeline(seeded, fs);
        // Route the leftovers.
        let mut error_nodes: Vec<(String, u32)> = Vec::new();
        let ghost r0 = Routing { counter: (c0 + 2) as u32, known: Seq::empty(), nodes: Seq::empty(), edges: Seq::empty() };
        let ghost nodes_mid = function_views(all_nodes@);
        let ghost edges_mid = token_views(all_edges@);
        let mut j: usize = 0;
        assert(error_nodes@.map_values(|e: (String, u32)| (e.0@, e.1)) =~= Seq::<(Seq<char>, u32)>::empty());
        while j < pool.available.len()
            invariant
                0 <= j <= pool@.available.len(),
                pool@ == run.0,
                pool@.available.len() <= token_budget(fs) + 0,
                ({
                    let rt = route(r0, run.0.available.take(j as int), end_node.uid);
                    &&& self.counter() == rt.counter
                    &&& error_nodes@.map_values(|e: (String, u32)| (e.0@, e.1)) == rt.known
                    &&& function_views(all_nodes@) == nodes_mid + rt.nodes
                    &&& token_views(all_edges@) == edges_mid + rt.edges
                    &&& rt.counter <= c0 + 2 + j
                }),
                c0 as nat + 2 + token_budget(fs) <= u32::MAX,
                end_node@ == node_spec("End"@, Seq::empty(), Seq::empty(), (c0 + 1) as u32, false, true, false),
            decreases pool@.available.len() - j,
        {
            let ghost rt = route(r0, run.0.available.take(j as int), end_node.uid);
            assert(run.0.available.take(j + 1).drop_last() =~= run.0.available.take(j as int));
            assert(run.0.available[j as int] == pool.available@[j as int]@);
            let mut leftover = pool.available[j].clone();
            let target_uid = if contains_error(leftover.name.as_str()) {
                match lookup_known(&error_nodes, leftover.name.as_str()) {
                    Some(uid) => uid,
                    None => {
                        let err_node = self.create_node(
                            leftover.name.as_str(),
                            no_pairs(),
                            no_pairs(),
                            false,
                            true,
                            true,
                        );
                        let id = err_node.uid;
                        let ghost kb = error_nodes@.map_values(|e: (String, u32)| (e.0@, e.1));
                        error_nodes.push((String::from_str(leftover.name.as_str()), id));
                        assert(error_nodes@.map_values(|e: (String, u32)| (e.0@, e.1)) =~= kb.push((leftover.name@, id)));
                        let ghost nb = function_views(all_nodes@);
                        let ghost ev = err_node@;
                        all_nodes.push(err_node);
                        assert(function_views(all_nodes@) =~= nb.push(ev));
                        id
                    },
                }
            } else {
                end_node.uid
            };
            leftover.destination_uid = Some(target_uid);
            let ghost eb = token_views(all_edges@);
            let ghost lv = leftover@;
            all_edges.push(leftover);
            assert(token_views(all_edges@) =~= eb.push(lv));
            j = j + 1;
        }
        assert(run.0.available.take(j as int) =~= run.0.available);
        let ghost nb = function_views(all_nodes@);
        let ghost endv = end_node@;
        all_nodes.push(end_node);
        assert(function_views(all_nodes@) =~= nb.push(endv));
        (all_nodes, all_edges)
    }
}

/// Adding tokens lengthens the pool by their number.
pub proof fn lemma_add_all_len(p: PoolModel, ts: Seq<TokenModel>, origin: u32, force: bool)
    ensures
        add_all(p, ts, origin, force).available.len() == p.available.len() + ts.len(),
    decreases ts.len(),
{
    if ts.len() > 0 {
        lemma_add_all_len(p, ts.drop_last(), origin, force);
    }
}

/// Meeting a requirement never lengthens the pool.
pub proof fn lemma_consume_len(p: PoolModel, req: TokenModel, consumer: u32)
    ensures
        pool_consume(p, req, consumer).0.available.len() <= p.available.len(),
{
    lemma_first_named(p.available, req.name, 0);
}

pub proof fn lemma_first_named(ts: Seq<TokenModel>, name: Seq<char>, i: int)
    requires
        0 <= i,
    ensures
        first_named(ts, name, i) matches Some(k) ==> i <= k < ts.len(),
    decreases ts.len() - i,
{
    if i < ts.len() {
        lemma_first_named(ts, name, i + 1);
    }
}

/// The budget of a prefix is at most that of the whole pipeline.
pub proof fn lemma_budget_prefix(fs: Seq<FunctionModel>, i: int)
    requires
        0 <= i <= fs.len(),
    ensures
        token_budget(fs.take(i)) <= token_budget(fs),
    decreases fs.len() - i,
{
    if i < fs.len() {
        lemma_budget_prefix(fs, i + 1);
        assert(fs.take(i + 1).drop_last() =~= fs.take(i));
    } else {
        assert(fs.take(i) =~= fs);
    }
}

} // verus!
