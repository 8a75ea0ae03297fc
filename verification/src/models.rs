//! Core architectural entities and the intermediate representation.

use vstd::prelude::*;

verus! {

/// The FNV-1a offset basis.
pub const FNV_OFFSET_BASIS: u32 = 0x811c9dc5u32;

/// The FNV-1a prime.
pub const FNV_PRIME: u32 = 0x01000193u32;

/// One FNV-1a round: xor the byte in, then multiply modulo 2^32.
pub open spec fn fnv1a_step(hash: u32, byte: u8) -> u32 {
    (hash ^ (byte as u32)).wrapping_mul(FNV_PRIME)
}

/// FNV-1a over a byte sequence, folding from the left.
pub open spec fn fnv1a(bytes: Seq<u8>) -> u32
    decreases bytes.len(),
{
    if bytes.len() == 0 {
        FNV_OFFSET_BASIS
    } else {
        fnv1a_step(fnv1a(bytes.drop_last()), bytes.last())
    }
}

/// The deterministic identifier of a name: FNV-1a over its UTF-8 encoding.
pub open spec fn spec_hash_name(name: Seq<char>) -> u32 {
    fnv1a(vstd::utf8::encode_utf8(name))
}

/// Computes the deterministic FNV-1a hash of a name's UTF-8 bytes.
pub fn hash_name(name: &str) -> (hash: u32)
    ensures
        hash == spec_hash_name(name@),
{
    let bytes = name.as_bytes();
    let mut hash: u32 = FNV_OFFSET_BASIS;
    let mut i: usize = 0;
    while i < bytes.len()
        invariant
            0 <= i <= bytes@.len(),
            bytes@ == vstd::utf8::encode_utf8(name@),
            hash == fnv1a(bytes@.take(i as int)),
        decreases bytes@.len() - i,
    {
        let byte = bytes[i];
        assert(bytes@.take(i + 1).drop_last() =~= bytes@.take(i as int));
        hash = (hash ^ (byte as u32)).wrapping_mul(FNV_PRIME);
        i = i + 1;
    }
    assert(bytes@.take(i as int) =~= bytes@);
    hash
}

} // verus!

use std::sync::Arc;

verus! {

/// Shares an `Arc`: the new handle points at the same value.
#[verifier::external_body]
pub(crate) fn share<T>(value: &Arc<T>) -> (shared: Arc<T>)
    ensures
        shared == *value,
{
    Arc::clone(value)
}

/// Clones an optional string, keeping its value.
pub fn clone_opt_string(value: &Option<String>) -> (res: Option<String>)
    ensures
        res == *value,
{
    match value {
        Some(s) => Some(s.clone()),
        None => None,
    }
}

/// A unique identifier for a source file.
pub type FileId = u32;

/// A contiguous range of a source file, in bytes of its UTF-8 text.
#[derive(Debug, Clone, Copy, PartialEq, Eq, Structural, Hash)]
pub struct Span {
    /// The file containing this span.
    pub file_id: FileId,
    /// Byte offset of the start of the span.
    pub start: usize,
    /// Byte offset one past the end of the span.
    pub end: usize,
}

impl Span {
    pub fn new(file_id: FileId, start: usize, end: usize) -> (span: Self)
        ensures
            span == (Span { file_id, start, end }),
    {
        Span { file_id, start, end }
    }
}

/// Severity of a diagnostic.
#[derive(Debug, Clone, Copy, PartialEq, Eq, Structural, Hash)]
pub enum Severity {
    Error,
    Warning,
    Information,
    Hint,
}

/// Extra classification attached to a diagnostic.
#[derive(Debug, Clone, Copy, PartialEq, Eq, Structural, Hash)]
pub enum DiagnosticTag {
    Unnecessary,
    Deprecated,
}

/// A diagnostic with the file and, where known, the span it belongs to.
#[derive(Debug)]
pub struct DiagnosticWithContext {
    pub file_id: FileId,
    pub span: Option<Span>,
    pub message: String,
    pub severity: Severity,
    pub tags: Vec<DiagnosticTag>,
}

impl Clone for DiagnosticWithContext {
    fn clone(&self) -> (res: Self)
        ensures
            res.file_id == self.file_id,
            res.span == self.span,
            res.message == self.message,
            res.severity == self.severity,
            res.tags@ == self.tags@,
    {
        DiagnosticWithContext {
            file_id: self.file_id,
            span: self.span,
            message: self.message.clone(),
            severity: self.severity,
            tags: self.tags.clone(),
        }
    }
}

/// How many items a token stands for.
#[derive(Debug, Clone, Copy, PartialEq, Eq, Structural, Hash)]
pub enum Cardinality {
    /// A single item.
    Unitary,
    /// A collection of items.
    Collection,
}

/// The meaning of an edge of the architectural graph.
#[derive(Debug, Clone, Copy, PartialEq, Eq, Structural, Hash)]
pub enum EdgeRelation {
    /// A value handed from producer to consumer.
    DataFlow,
    /// A value that reaches the end of the flow.
    TerminalFlow,
    /// An error that nobody handles.
    ErrorFlow,
    /// Control flow between steps.
    ControlFlow,
    /// A direct call.
    Call,
}

/// A logical grouping of functions.
#[derive(Debug)]
pub struct Group {
    pub uid: u32,
    pub name: String,
    pub documentation: Option<String>,
}

impl Group {
    pub fn new(name: String, documentation: Option<String>) -> (g: Self)
        ensures
            g.uid == spec_hash_name(name@),
            g.name == name,
            g.documentation == documentation,
    {
        Group { uid: hash_name(name.as_str()), name, documentation }
    }
}

impl Clone for Group {
    fn clone(&self) -> (res: Self)
        ensures
            res == *self,
    {
        Group {
            uid: self.uid,
            name: self.name.clone(),
            documentation: clone_opt_string(&self.documentation),
        }
    }
}

/// An immutable artifact: it is referenced, never consumed.
#[derive(Debug)]
pub struct Constant {
    pub uid: u32,
    pub name: String,
    pub documentation: Option<String>,
}

impl Constant {
    pub fn new(name: String, documentation: Option<String>) -> (c: Self)
        ensures
            c.uid == spec_hash_name(name@),
            c.name == name,
            c.documentation == documentation,
    {
        Constant { uid: hash_name(name.as_str()), name, documentation }
    }
}

impl Clone for Constant {
    fn clone(&self) -> (res: Self)
        ensures
            res == *self,
    {
        Constant {
            uid: self.uid,
            name: self.name.clone(),
            documentation: clone_opt_string(&self.documentation),
        }
    }
}

/// A mutable artifact: consuming it moves it out of the pool.
#[derive(Debug)]
pub struct Variable {
    pub uid: u32,
    pub name: String,
    pub documentation: Option<String>,
}

impl Variable {
    pub fn new(name: String, documentation: Option<String>) -> (v: Self)
        ensures
            v.uid == spec_hash_name(name@),
            v.name == name,
            v.documentation == documentation,
    {
        Variable { uid: hash_name(name.as_str()), name, documentation }
    }
}

impl Clone for Variable {
    fn clone(&self) -> (res: Self)
        ensures
            res == *self,
    {
        Variable {
            uid: self.uid,
            name: self.name.clone(),
            documentation: clone_opt_string(&self.documentation),
        }
    }
}

/// An error artifact: it must be consumed by a handler.
#[derive(Debug)]
pub struct Error {
    pub uid: u32,
    pub name: String,
    pub documentation: Option<String>,
}

impl Error {
    pub fn new(name: String, documentation: Option<String>) -> (e: Self)
        ensures
            e.uid == spec_hash_name(name@),
            e.name == name,
            e.documentation == documentation,
    {
        Error { uid: hash_name(name.as_str()), name, documentation }
    }
}

impl Clone for Error {
    fn clone(&self) -> (res: Self)
        ensures
            res == *self,
    {
        Error {
            uid: self.uid,
            name: self.name.clone(),
            documentation: clone_opt_string(&self.documentation),
        }
    }
}

/// The three classes of artifacts.
#[derive(Debug, Clone, Copy, PartialEq, Eq, Structural, Hash)]
pub enum ArtifactClass {
    Constant,
    Variable,
    Error,
}

/// An artifact definition.
#[derive(Debug)]
pub enum Kind {
    Constant(Arc<Constant>),
    Variable(Arc<Variable>),
    Error(Arc<Error>),
}

impl Clone for Kind {
    fn clone(&self) -> (res: Self)
        ensures
            res == *self,
    {
        match self {
            Kind::Constant(c) => Kind::Constant(share(c)),
            Kind::Variable(v) => Kind::Variable(share(v)),
            Kind::Error(e) => Kind::Error(share(e)),
        }
    }
}

impl Kind {
    pub open spec fn spec_class(&self) -> ArtifactClass {
        match self {
            Kind::Constant(_) => ArtifactClass::Constant,
            Kind::Variable(_) => ArtifactClass::Variable,
            Kind::Error(_) => ArtifactClass::Error,
        }
    }

    pub open spec fn spec_uid(&self) -> u32 {
        match self {
            Kind::Constant(c) => c.uid,
            Kind::Variable(v) => v.uid,
            Kind::Error(e) => e.uid,
        }
    }

    pub open spec fn spec_name(&self) -> Seq<char> {
        match self {
            Kind::Constant(c) => c.name@,
            Kind::Variable(v) => v.name@,
            Kind::Error(e) => e.name@,
        }
    }

    pub open spec fn spec_docs(&self) -> Option<Seq<char>> {
        match self {
            Kind::Constant(c) => c.documentation.deep_view(),
            Kind::Variable(v) => v.documentation.deep_view(),
            Kind::Error(e) => e.documentation.deep_view(),
        }
    }

    /// The class of the artifact.
    #[verifier::when_used_as_spec(spec_class)]
    pub fn class(&self) -> (c: ArtifactClass)
        ensures
            c == self.spec_class(),
    {
        match self {
            Kind::Constant(_) => ArtifactClass::Constant,
            Kind::Variable(_) => ArtifactClass::Variable,
            Kind::Error(_) => ArtifactClass::Error,
        }
    }

    /// Returns the unique identifier of the inner artifact.
    #[verifier::when_used_as_spec(spec_uid)]
    pub fn uid(&self) -> (uid: u32)
        ensures
            uid == self.spec_uid(),
    {
        match self {
            Kind::Constant(c) => c.uid,
            Kind::Variable(v) => v.uid,
            Kind::Error(e) => e.uid,
        }
    }

    /// Returns the name of the inner artifact.
    pub fn name(&self) -> (name: &str)
        ensures
            name@ == self.spec_name(),
    {
        match self {
            Kind::Constant(c) => c.name.as_str(),
            Kind::Variable(v) => v.name.as_str(),
            Kind::Error(e) => e.name.as_str(),
        }
    }

    /// Returns the documentation of the inner artifact.
    pub fn docs(&self) -> (docs: Option<&str>)
        ensures
            match docs {
                Some(d) => self.spec_docs() == Some(d@),
                None => self.spec_docs() is None,
            },
    {
        let doc = match self {
            Kind::Constant(c) => &c.documentation,
            Kind::Variable(v) => &v.documentation,
            Kind::Error(e) => &e.documentation,
        };
        match doc {
            Some(d) => Some(d.as_str()),
            None => None,
        }
    }
}

/// Two artifacts are the same when class, identifier, name and documentation agree.
pub open spec fn same_kind(a: Kind, b: Kind) -> bool {
    &&& a.spec_class() == b.spec_class()
    &&& a.spec_uid() == b.spec_uid()
    &&& a.spec_name() == b.spec_name()
    &&& a.spec_docs() == b.spec_docs()
}

/// Compares two optional strings by content.
pub fn opt_string_eq(a: &Option<String>, b: &Option<String>) -> (r: bool)
    ensures
        r == (a.deep_view() == b.deep_view()),
{
    match (a, b) {
        (Some(x), Some(y)) => *x == *y,
        (None, None) => true,
        _ => false,
    }
}

/// Compares two artifacts by content.
pub fn kind_eq(a: &Kind, b: &Kind) -> (r: bool)
    ensures
        r == same_kind(*a, *b),
{
    match (a, b) {
        (Kind::Constant(x), Kind::Constant(y)) => x.uid == y.uid && x.name == y.name
            && opt_string_eq(&x.documentation, &y.documentation),
        (Kind::Variable(x), Kind::Variable(y)) => x.uid == y.uid && x.name == y.name
            && opt_string_eq(&x.documentation, &y.documentation),
        (Kind::Error(x), Kind::Error(y)) => x.uid == y.uid && x.name == y.name
            && opt_string_eq(&x.documentation, &y.documentation),
        _ => false,
    }
}

/// A token: one use of an artifact in a function signature or flow.
#[derive(Debug)]
pub struct Token {
    /// Identifier of this particular use.
    pub uid: u32,
    /// The artifact this token carries.
    pub kind: Kind,
    /// Whether one item or a collection is meant.
    pub cardinality: Cardinality,
}

impl Clone for Token {
    fn clone(&self) -> (res: Self)
        ensures
            res == *self,
    {
        Token { uid: self.uid, kind: self.kind.clone(), cardinality: self.cardinality }
    }
}

impl Token {
    /// Creates a token with the given identifier.
    pub fn new(kind: Kind, cardinality: Cardinality, uid: u32) -> (t: Self)
        ensures
            t == (Token { uid, kind, cardinality }),
    {
        Token { uid, kind, cardinality }
    }
}

/// Two tokens are the same when identifier, artifact and cardinality agree.
pub open spec fn same_token(a: Token, b: Token) -> bool {
    &&& a.uid == b.uid
    &&& a.cardinality == b.cardinality
    &&& same_kind(a.kind, b.kind)
}

/// Compares two tokens by content.
pub fn token_eq(a: &Token, b: &Token) -> (r: bool)
    ensures
        r == same_token(*a, *b),
{
    a.uid == b.uid && a.cardinality == b.cardinality && kind_eq(&a.kind, &b.kind)
}

/// Clones a sequence of tokens.
pub fn clone_tokens(tokens: &Vec<Token>) -> (res: Vec<Token>)
    ensures
        res@ == tokens@,
{
    let mut res: Vec<Token> = Vec::new();
    let mut i: usize = 0;
    while i < tokens.len()
        invariant
            0 <= i <= tokens@.len(),
            res@ == tokens@.take(i as int),
        decreases tokens@.len() - i,
    {
        res.push(tokens[i].clone());
        i = i + 1;
        assert(res@ =~= tokens@.take(i as int));
    }
    assert(tokens@.take(i as int) =~= tokens@);
    res
}

/// A function definition: what it consumes and its alternative outputs.
#[derive(Debug)]
pub struct Function {
    pub uid: u32,
    pub name: String,
    pub documentation: Option<String>,
    /// Tokens consumed (inputs).
    pub consumes: Vec<Token>,
    /// Alternative output branches.
    pub produces: Vec<Vec<Token>>,
    /// The group the function belongs to, if any.
    pub group: Option<Arc<Group>>,
}

impl Function {
    pub fn new(
        name: String,
        documentation: Option<String>,
        consumes: Vec<Token>,
        produces: Vec<Vec<Token>>,
        group: Option<Arc<Group>>,
    ) -> (f: Self)
        ensures
            f.uid == spec_hash_name(name@),
            f.name == name,
            f.documentation == documentation,
            f.consumes == consumes,
            f.produces == produces,
            f.group == group,
    {
        Function { uid: hash_name(name.as_str()), name, documentation, consumes, produces, group }
    }

    pub fn new_skeleton(name: String, documentation: Option<String>, group: Option<Arc<Group>>) -> (f: Self)
        ensures
            f.uid == spec_hash_name(name@),
            f.name == name,
            f.documentation == documentation,
            f.consumes@.len() == 0,
            f.produces@.len() == 0,
            f.group == group,
    {
        Function {
            uid: hash_name(name.as_str()),
            name,
            documentation,
            consumes: Vec::new(),
            produces: Vec::new(),
            group,
        }
    }
}

/// Clones an optional shared group.
pub fn clone_group_ref(g: &Option<Arc<Group>>) -> (res: Option<Arc<Group>>)
    ensures
        res == *g,
{
    match g {
        Some(x) => Some(share(x)),
        None => None,
    }
}

/// A step of the flow: the function invoked and where the step is written.
#[derive(Debug)]
pub struct FlowStep {
    pub function_name: String,
    pub span: Span,
}

impl Clone for FlowStep {
    fn clone(&self) -> (res: Self)
        ensures
            res == *self,
    {
        FlowStep { function_name: self.function_name.clone(), span: self.span }
    }
}

/// A node of the execution graph.
#[derive(Debug)]
pub struct Node {
    pub uid: u32,
    pub function: Arc<Function>,
    pub is_artificial_graph_start: bool,
    pub is_artificial_graph_end: bool,
    pub is_artificial_error_termination: bool,
}

impl Clone for Node {
    fn clone(&self) -> (res: Self)
        ensures
            res == *self,
    {
        Node {
            uid: self.uid,
            function: share(&self.function),
            is_artificial_graph_start: self.is_artificial_graph_start,
            is_artificial_graph_end: self.is_artificial_graph_end,
            is_artificial_error_termination: self.is_artificial_error_termination,
        }
    }
}

impl Node {
    /// Creates a graph node for a function.
    pub fn new(function: Arc<Function>) -> (n: Self)
        ensures
            n.uid == function.uid,
            n.function == function,
            !n.is_artificial_graph_start,
            !n.is_artificial_graph_end,
            !n.is_artificial_error_termination,
    {
        Node {
            uid: function.uid,
            function,
            is_artificial_graph_start: false,
            is_artificial_graph_end: false,
            is_artificial_error_termination: false,
        }
    }

    /// Creates an engine-generated boundary node.
    pub fn new_artificial(name: String, is_start: bool, is_end: bool, is_error: bool) -> (n: Self)
        ensures
            n.uid == spec_hash_name(name@),
            n.function.uid == spec_hash_name(name@),
            n.function.name == name,
            n.function.documentation.deep_view() == Some("Engine-generated boundary node"@),
            n.function.consumes@.len() == 0,
            n.function.produces@.len() == 0,
            n.function.group is None,
            n.is_artificial_graph_start == is_start,
            n.is_artificial_graph_end == is_end,
            n.is_artificial_error_termination == is_error,
    {
        let uid = hash_name(name.as_str());
        let func = Arc::new(
            Function::new(
                name,
                Some(String::from_str("Engine-generated boundary node")),
                Vec::new(),
                Vec::new(),
                None,
            ),
        );
        Node {
            uid,
            function: func,
            is_artificial_graph_start: is_start,
            is_artificial_graph_end: is_end,
            is_artificial_error_termination: is_error,
        }
    }
}

/// Two nodes are equal when their identifiers and roles agree; the function
/// they carry is not compared.
impl PartialEq for Node {
    fn eq(&self, other: &Self) -> (r: bool) {
        self.uid == other.uid && self.is_artificial_graph_start == other.is_artificial_graph_start
            && self.is_artificial_graph_end == other.is_artificial_graph_end
            && self.is_artificial_error_termination == other.is_artificial_error_termination
    }
}

impl Eq for Node {
}

impl vstd::std_specs::cmp::PartialEqSpecImpl for Node {
    open spec fn obeys_eq_spec() -> bool {
        true
    }

    open spec fn eq_spec(&self, other: &Self) -> bool {
        &&& self.uid == other.uid
        &&& self.is_artificial_graph_start == other.is_artificial_graph_start
        &&& self.is_artificial_graph_end == other.is_artificial_graph_end
        &&& self.is_artificial_error_termination == other.is_artificial_error_termination
    }
}

/// A directed edge of the execution graph.
#[derive(Debug)]
pub struct Edge {
    pub from_node_uid: u32,
    pub to_node_uid: u32,
    /// The token carried along the edge.
    pub token: Token,
    pub relation: EdgeRelation,
}

impl Clone for Edge {
    fn clone(&self) -> (res: Self)
        ensures
            res == *self,
    {
        Edge {
            from_node_uid: self.from_node_uid,
            to_node_uid: self.to_node_uid,
            token: self.token.clone(),
            relation: self.relation,
        }
    }
}

/// The execution graph.
#[derive(Debug)]
pub struct Graph {
    pub nodes: Vec<Node>,
    pub edges: Vec<Edge>,
}

/// Where a symbol is defined and every place it is written.
#[derive(Debug)]
pub struct SymbolMetadata {
    pub name: String,
    pub definition_span: Span,
    pub occurrences: Vec<Span>,
}

impl Clone for SymbolMetadata {
    fn clone(&self) -> (res: Self)
        ensures
            res.name == self.name,
            res.definition_span == self.definition_span,
            res.occurrences@ == self.occurrences@,
    {
        SymbolMetadata {
            name: self.name.clone(),
            definition_span: self.definition_span,
            occurrences: self.occurrences.clone(),
        }
    }
}

} // verus!

verus! {

/// The first index at or after `i` whose key is `name`.
pub open spec fn find_key<V>(entries: Seq<(String, V)>, name: Seq<char>, i: int) -> Option<int>
    decreases entries.len() - i,
{
    if i < 0 || i >= entries.len() {
        None
    } else if entries[i].0@ == name {
        Some(i)
    } else {
        find_key(entries, name, i + 1)
    }
}

pub proof fn lemma_find_key<V>(entries: Seq<(String, V)>, name: Seq<char>, i: int)
    requires
        0 <= i <= entries.len(),
    ensures
        find_key(entries, name, i) matches Some(j) ==> i <= j < entries.len() && entries[j].0@ == name
            && forall|k: int| i <= k < j ==> entries[k].0@ != name,
        find_key(entries, name, i) is None ==> forall|k: int| i <= k < entries.len() ==> entries[k].0@ != name,
    decreases entries.len() - i,
{
    if 0 <= i < entries.len() {
        lemma_find_key(entries, name, i + 1);
    }
}


/// `name` is found at `j` when `j` is its first occurrence.
pub proof fn lemma_find_key_at<V>(e: Seq<(String, V)>, name: Seq<char>, i: int, j: int)
    requires
        0 <= i <= j < e.len(),
        e[j].0@ == name,
        forall|k: int| i <= k < j ==> e[k].0@ != name,
    ensures
        find_key(e, name, i) == Some(j),
    decreases j - i,
{
    if i < j {
        lemma_find_key_at(e, name, i + 1, j);
    }
}

/// Two tables agree on where `name` is found when their keys agree on it.
pub proof fn lemma_find_key_ext<V>(e1: Seq<(String, V)>, e2: Seq<(String, V)>, name: Seq<char>, i: int)
    requires
        0 <= i <= e2.len(),
        e1.len() <= e2.len(),
        forall|k: int| i <= k < e1.len() ==> (e1[k].0@ == name <==> e2[k].0@ == name),
        forall|k: int| e1.len() <= k < e2.len() ==> e2[k].0@ != name,
    ensures
        find_key(e1, name, i) == find_key(e2, name, i),
    decreases e2.len() - i,
{
    if i < e2.len() {
        if i < e1.len() {
            lemma_find_key_ext(e1, e2, name, i + 1);
        } else {
            lemma_find_key_ext(e1, e2, name, i + 1);
        }
    }
}

/// A table keyed by name, kept in insertion order.
#[derive(Debug)]
pub struct NameMap<V> {
    pub entries: Vec<(String, V)>,
}

impl<V> NameMap<V> {
    /// The value stored under `name`, if any.
    pub open spec fn spec_get(&self, name: Seq<char>) -> Option<V> {
        match find_key(self.entries@, name, 0) {
            Some(i) => Some(self.entries@[i].1),
            None => None,
        }
    }

    pub open spec fn spec_contains(&self, name: Seq<char>) -> bool {
        self.spec_get(name) is Some
    }

    /// Creates an empty table.
    pub fn new() -> (m: Self)
        ensures
            m.entries@.len() == 0,
            forall|n: Seq<char>| #[trigger] m.spec_get(n) is None,
    {
        NameMap { entries: Vec::new() }
    }

    fn index_of(&self, name: &str) -> (r: Option<usize>)
        ensures
            match r {
                Some(i) => find_key(self.entries@, name@, 0) == Some(i as int),
                None => find_key(self.entries@, name@, 0) is None,
            },
    {
        let mut i: usize = 0;
        while i < self.entries.len()
            invariant
                0 <= i <= self.entries@.len(),
                find_key(self.entries@, name@, 0) == find_key(self.entries@, name@, i as int),
            decreases self.entries@.len() - i,
        {
            if crate::text::str_eq(self.entries[i].0.as_str(), name) {
                return Some(i);
            }
            i = i + 1;
        }
        None
    }

    /// Looks a name up.
    pub fn get(&self, name: &str) -> (r: Option<&V>)
        ensures
            match r {
                Some(v) => self.spec_get(name@) == Some(*v),
                None => self.spec_get(name@) is None,
            },
    {
        match self.index_of(name) {
            Some(i) => {
                proof {
                    lemma_find_key(self.entries@, name@, 0);
                }
                Some(&self.entries[i].1)
            },
            None => None,
        }
    }

    /// Whether a name is present.
    pub fn contains_key(&self, name: &str) -> (r: bool)
        ensures
            r == self.spec_contains(name@),
    {
        self.index_of(name).is_some()
    }

    /// Stores `value` under `name`, replacing any previous value.
    pub fn insert(&mut self, name: String, value: V)
        ensures
            final(self).spec_get(name@) == Some(value),
            forall|n: Seq<char>| n != name@ ==> #[trigger] final(self).spec_get(n) == old(self).spec_get(n),
            final(self).entries@ == match find_key(old(self).entries@, name@, 0) {
                Some(i) => old(self).entries@.update(i, (name, value)),
                None => old(self).entries@.push((name, value)),
            },
    {
        let ghost old_entries = self.entries@;
        match self.index_of(name.as_str()) {
            Some(i) => {
                proof {
                    lemma_find_key(old_entries, name@, 0);
                }
                self.entries.set(i, (name, value));
                proof {
                    let new_entries = self.entries@;
                    lemma_find_key_at(new_entries, name@, 0, i as int);
                    lemma_find_key(new_entries, name@, 0);
                    assert forall|n: Seq<char>| n != name@ implies #[trigger] self.spec_get(n)
                        == old(self).spec_get(n) by {
                        lemma_find_key_ext(old_entries, new_entries, n, 0);
                        lemma_find_key(new_entries, n, 0);
                    }
                }
            },
            None => {
                self.entries.push((name, value));
                proof {
                    let new_entries = self.entries@;
                    lemma_find_key(old_entries, name@, 0);
                    lemma_find_key_at(new_entries, name@, 0, old_entries.len() as int);
                    lemma_find_key(new_entries, name@, 0);
                    assert forall|n: Seq<char>| n != name@ implies #[trigger] self.spec_get(n)
                        == old(self).spec_get(n) by {
                        lemma_find_key_ext(old_entries, new_entries, n, 0);
                        lemma_find_key(new_entries, n, 0);
                    }
                }
            },
        }
    }

    /// Number of entries.
    pub fn len(&self) -> (n: usize)
        ensures
            n == self.entries@.len(),
    {
        self.entries.len()
    }
}

/// The first index at or after `i` whose key is `uid`.
pub open spec fn find_uid<V>(entries: Seq<(u32, V)>, uid: u32, i: int) -> Option<int>
    decreases entries.len() - i,
{
    if i < 0 || i >= entries.len() {
        None
    } else if entries[i].0 == uid {
        Some(i)
    } else {
        find_uid(entries, uid, i + 1)
    }
}

pub proof fn lemma_find_uid<V>(entries: Seq<(u32, V)>, uid: u32, i: int)
    requires
        0 <= i <= entries.len(),
    ensures
        find_uid(entries, uid, i) matches Some(j) ==> i <= j < entries.len() && entries[j].0 == uid
            && forall|k: int| i <= k < j ==> entries[k].0 != uid,
        find_uid(entries, uid, i) is None ==> forall|k: int| i <= k < entries.len() ==> entries[k].0 != uid,
    decreases entries.len() - i,
{
    if 0 <= i < entries.len() {
        lemma_find_uid(entries, uid, i + 1);
    }
}


/// `uid` is found at `j` when `j` is its first occurrence.
pub proof fn lemma_find_uid_at<V>(e: Seq<(u32, V)>, uid: u32, i: int, j: int)
    requires
        0 <= i <= j < e.len(),
        e[j].0 == uid,
        forall|k: int| i <= k < j ==> e[k].0 != uid,
    ensures
        find_uid(e, uid, i) == Some(j),
    decreases j - i,
{
    if i < j {
        lemma_find_uid_at(e, uid, i + 1, j);
    }
}

/// Two tables agree on where `uid` is found when their keys agree on it.
pub proof fn lemma_find_uid_ext<V>(e1: Seq<(u32, V)>, e2: Seq<(u32, V)>, uid: u32, i: int)
    requires
        0 <= i <= e2.len(),
        e1.len() <= e2.len(),
        forall|k: int| i <= k < e1.len() ==> (e1[k].0 == uid <==> e2[k].0 == uid),
        forall|k: int| e1.len() <= k < e2.len() ==> e2[k].0 != uid,
    ensures
        find_uid(e1, uid, i) == find_uid(e2, uid, i),
    decreases e2.len() - i,
{
    if i < e2.len() {
        if i < e1.len() {
            lemma_find_uid_ext(e1, e2, uid, i + 1);
        } else {
            lemma_find_uid_ext(e1, e2, uid, i + 1);
        }
    }
}

/// In a table without repeated identifiers, each entry is found at its own index.
pub proof fn lemma_find_uid_unique<V>(e: Seq<(u32, V)>, k: int)
    requires
        0 <= k < e.len(),
        e.map_values(|x: (u32, V)| x.0).no_duplicates(),
    ensures
        find_uid(e, e[k].0, 0) == Some(k),
{
    assert forall|j: int| 0 <= j < k implies e[j].0 != e[k].0 by {
        assert(e.map_values(|x: (u32, V)| x.0)[j] == e[j].0);
        assert(e.map_values(|x: (u32, V)| x.0)[k] == e[k].0);
    }
    lemma_find_uid_at(e, e[k].0, 0, k);
}

/// A table keyed by identifier, kept in insertion order.
#[derive(Debug)]
pub struct UidMap<V> {
    pub entries: Vec<(u32, V)>,
}

impl<V> UidMap<V> {
    pub open spec fn spec_get(&self, uid: u32) -> Option<V> {
        match find_uid(self.entries@, uid, 0) {
            Some(i) => Some(self.entries@[i].1),
            None => None,
        }
    }

    /// The identifiers in table order.
    pub open spec fn keys(&self) -> Seq<u32> {
        self.entries@.map_values(|e: (u32, V)| e.0)
    }

    /// No identifier occurs twice.
    pub open spec fn wf(&self) -> bool {
        self.keys().no_duplicates()
    }

    /// Creates an empty table.
    pub fn new() -> (m: Self)
        ensures
            m.entries@.len() == 0,
            m.wf(),
            m.keys() == Seq::<u32>::empty(),
            forall|u: u32| #[trigger] m.spec_get(u) is None,
    {
        let m = UidMap { entries: Vec::new() };
        assert(m.keys() =~= Seq::<u32>::empty());
        m
    }

    fn index_of(&self, uid: u32) -> (r: Option<usize>)
        ensures
            match r {
                Some(i) => find_uid(self.entries@, uid, 0) == Some(i as int),
                None => find_uid(self.entries@, uid, 0) is None,
            },
    {
        let mut i: usize = 0;
        while i < self.entries.len()
            invariant
                0 <= i <= self.entries@.len(),
                find_uid(self.entries@, uid, 0) == find_uid(self.entries@, uid, i as int),
            decreases self.entries@.len() - i,
        {
            if self.entries[i].0 == uid {
                return Some(i);
            }
            i = i + 1;
        }
        None
    }

    /// Looks an identifier up.
    pub fn get(&self, uid: &u32) -> (r: Option<&V>)
        ensures
            match r {
                Some(v) => self.spec_get(*uid) == Some(*v),
                None => self.spec_get(*uid) is None,
            },
    {
        match self.index_of(*uid) {
            Some(i) => {
                proof {
                    lemma_find_uid(self.entries@, *uid, 0);
                }
                Some(&self.entries[i].1)
            },
            None => None,
        }
    }

    /// Stores `value` under `uid`, replacing any previous value.
    pub fn insert(&mut self, uid: u32, value: V)
        ensures
            final(self).spec_get(uid) == Some(value),
            forall|u: u32| u != uid ==> #[trigger] final(self).spec_get(u) == old(self).spec_get(u),
            final(self).keys() == if old(self).spec_get(uid) is Some {
                old(self).keys()
            } else {
                old(self).keys().push(uid)
            },
            old(self).wf() ==> final(self).wf(),
    {
        let ghost old_entries = self.entries@;
        match self.index_of(uid) {
            Some(i) => {
                proof {
                    lemma_find_uid(old_entries, uid, 0);
                }
                self.entries.set(i, (uid, value));
                proof {
                    let new_entries = self.entries@;
                    assert(self.keys() =~= old(self).keys());
                    lemma_find_uid_at(new_entries, uid, 0, i as int);
                    lemma_find_uid(new_entries, uid, 0);
                    assert forall|u: u32| u != uid implies #[trigger] self.spec_get(u)
                        == old(self).spec_get(u) by {
                        lemma_find_uid_ext(old_entries, new_entries, u, 0);
                        lemma_find_uid(new_entries, u, 0);
                    }
                }
            },
            None => {
                self.entries.push((uid, value));
                proof {
                    let new_entries = self.entries@;
                    lemma_find_uid(old_entries, uid, 0);
                    assert(self.keys() =~= old(self).keys().push(uid));
                    if old(self).wf() {
                        assert forall|a: int, b: int| 0 <= a < b < self.keys().len() implies self.keys()[a]
                            != self.keys()[b] by {
                            if b == old_entries.len() {
                                assert(old_entries[a].0 != uid);
                            }
                        }
                    }
                    lemma_find_uid_at(new_entries, uid, 0, old_entries.len() as int);
                    lemma_find_uid(new_entries, uid, 0);
                    assert forall|u: u32| u != uid implies #[trigger] self.spec_get(u)
                        == old(self).spec_get(u) by {
                        lemma_find_uid_ext(old_entries, new_entries, u, 0);
                        lemma_find_uid(new_entries, u, 0);
                    }
                }
            },
        }
    }

    /// Number of entries.
    pub fn len(&self) -> (n: usize)
        ensures
            n == self.entries@.len(),
    {
        self.entries.len()
    }
}

/// The complete structure of an analyzed Tect program.
#[derive(Debug)]
pub struct ProgramStructure {
    /// Artifact definitions by name.
    pub artifacts: NameMap<Kind>,
    /// Groups by name.
    pub groups: NameMap<Arc<Group>>,
    /// Functions by name.
    pub catalog: NameMap<Arc<Function>>,
    /// The flow steps, in order.
    pub flow: Vec<FlowStep>,
    /// Definition and occurrences of each symbol, by identifier.
    pub symbol_table: UidMap<SymbolMetadata>,
    /// Diagnostics collected during analysis.
    pub diagnostics: Vec<DiagnosticWithContext>,
}

impl ProgramStructure {
    /// An empty program.
    pub fn new() -> (p: Self)
        ensures
            p.artifacts.entries@.len() == 0,
            p.groups.entries@.len() == 0,
            p.catalog.entries@.len() == 0,
            p.flow@.len() == 0,
            p.symbol_table.entries@.len() == 0,
            p.symbol_table.wf(),
            p.diagnostics@.len() == 0,
            p@.artifacts == Map::<Seq<char>, KindModel>::empty(),
            p@.groups == Map::<Seq<char>, GroupModel>::empty(),
            p@.catalog == Map::<Seq<char>, FunctionModel>::empty(),
            p@.flow == Seq::<(Seq<char>, Span)>::empty(),
            p@.symbols == Map::<u32, SymbolModel>::empty(),
            p@.symbol_order == Seq::<u32>::empty(),
            p@.diagnostics == Seq::<DiagnosticModel>::empty(),
    {
        let p = ProgramStructure {
            artifacts: NameMap::new(),
            groups: NameMap::new(),
            catalog: NameMap::new(),
            flow: Vec::new(),
            symbol_table: UidMap::new(),
            diagnostics: Vec::new(),
        };
        assert(p@.artifacts =~= Map::<Seq<char>, KindModel>::empty());
        assert(p@.groups =~= Map::<Seq<char>, GroupModel>::empty());
        assert(p@.catalog =~= Map::<Seq<char>, FunctionModel>::empty());
        assert(p@.flow =~= Seq::<(Seq<char>, Span)>::empty());
        assert(p@.symbols =~= Map::<u32, SymbolModel>::empty());
        assert(p@.diagnostics =~= Seq::<DiagnosticModel>::empty());
        p
    }
}

/// The mathematical content of a diagnostic.
pub struct DiagnosticModel {
    pub file_id: FileId,
    pub span: Option<Span>,
    pub message: Seq<char>,
    pub severity: Severity,
    pub tags: Seq<DiagnosticTag>,
}

impl View for DiagnosticWithContext {
    type V = DiagnosticModel;

    open spec fn view(&self) -> DiagnosticModel {
        DiagnosticModel {
            file_id: self.file_id,
            span: self.span,
            message: self.message@,
            severity: self.severity,
            tags: self.tags@,
        }
    }
}

} // verus!

verus! {

/// The content of an artifact definition.
pub struct KindModel {
    pub class: ArtifactClass,
    pub uid: u32,
    pub name: Seq<char>,
    pub docs: Option<Seq<char>>,
}

impl Kind {
    pub open spec fn model(&self) -> KindModel {
        KindModel { class: self.spec_class(), uid: self.spec_uid(), name: self.spec_name(), docs: self.spec_docs() }
    }
}

/// The content of a group.
pub struct GroupModel {
    pub uid: u32,
    pub name: Seq<char>,
    pub docs: Option<Seq<char>>,
}

impl Group {
    pub open spec fn model(&self) -> GroupModel {
        GroupModel { uid: self.uid, name: self.name@, docs: self.documentation.deep_view() }
    }
}

/// The content of a token.
pub struct TokenModel {
    pub uid: u32,
    pub kind: KindModel,
    pub cardinality: Cardinality,
}

impl Token {
    pub open spec fn model(&self) -> TokenModel {
        TokenModel { uid: self.uid, kind: self.kind.model(), cardinality: self.cardinality }
    }
}

pub open spec fn token_models(ts: Seq<Token>) -> Seq<TokenModel> {
    ts.map_values(|t: Token| t.model())
}

pub open spec fn branch_models(bs: Seq<Vec<Token>>) -> Seq<Seq<TokenModel>> {
    bs.map_values(|b: Vec<Token>| token_models(b@))
}

pub open spec fn group_model(g: Option<Arc<Group>>) -> Option<GroupModel> {
    match g {
        Some(g) => Some(g.model()),
        None => None,
    }
}

/// The content of a function.
pub struct FunctionModel {
    pub uid: u32,
    pub name: Seq<char>,
    pub docs: Option<Seq<char>>,
    pub consumes: Seq<TokenModel>,
    pub produces: Seq<Seq<TokenModel>>,
    pub group: Option<GroupModel>,
}

impl Function {
    pub open spec fn model(&self) -> FunctionModel {
        FunctionModel {
            uid: self.uid,
            name: self.name@,
            docs: self.documentation.deep_view(),
            consumes: token_models(self.consumes@),
            produces: branch_models(self.produces@),
            group: group_model(self.group),
        }
    }
}

/// The content of a symbol's metadata.
pub struct SymbolModel {
    pub name: Seq<char>,
    pub definition: Span,
    pub occurrences: Seq<Span>,
}

impl SymbolMetadata {
    pub open spec fn model(&self) -> SymbolModel {
        SymbolModel { name: self.name@, definition: self.definition_span, occurrences: self.occurrences@ }
    }
}

/// The content of a program structure; tables are seen as maps.
pub struct StructureModel {
    pub artifacts: Map<Seq<char>, KindModel>,
    pub groups: Map<Seq<char>, GroupModel>,
    pub catalog: Map<Seq<char>, FunctionModel>,
    pub flow: Seq<(Seq<char>, Span)>,
    pub symbols: Map<u32, SymbolModel>,
    /// The symbol identifiers in the order in which they were first defined.
    pub symbol_order: Seq<u32>,
    pub diagnostics: Seq<DiagnosticModel>,
}

pub open spec fn flow_models(steps: Seq<FlowStep>) -> Seq<(Seq<char>, Span)> {
    steps.map_values(|f: FlowStep| (f.function_name@, f.span))
}

pub open spec fn diagnostic_models(ds: Seq<DiagnosticWithContext>) -> Seq<DiagnosticModel> {
    ds.map_values(|d: DiagnosticWithContext| d@)
}

impl View for ProgramStructure {
    type V = StructureModel;

    open spec fn view(&self) -> StructureModel {
        StructureModel {
            artifacts: Map::new(
                |n: Seq<char>| self.artifacts.spec_contains(n),
                |n: Seq<char>| self.artifacts.spec_get(n)->0.model(),
            ),
            groups: Map::new(
                |n: Seq<char>| self.groups.spec_contains(n),
                |n: Seq<char>| self.groups.spec_get(n)->0.model(),
            ),
            catalog: Map::new(
                |n: Seq<char>| self.catalog.spec_contains(n),
                |n: Seq<char>| self.catalog.spec_get(n)->0.model(),
            ),
            flow: flow_models(self.flow@),
            symbols: Map::new(
                |u: u32| self.symbol_table.spec_get(u) is Some,
                |u: u32| self.symbol_table.spec_get(u)->0.model(),
            ),
            symbol_order: self.symbol_table.keys(),
            diagnostics: diagnostic_models(self.diagnostics@),
        }
    }
}

} // verus!
