//! Typed assignments: data and error types, function signatures with
//! alternative outputs, typed instances, and the check of an assignment
//! `target = Function(argument)` against the function's signature.

use vstd::prelude::*;
use crate::models::{find_key, lemma_find_key, NameMap};
use crate::text::{push_str, str_eq, string_from_chars};

verus! {

/// The signature of a function: one input type and alternative outputs.
#[derive(Debug)]
pub struct FunctionSig {
    pub input: String,
    pub outputs: Vec<String>,
}

/// A statement of a program, as read from its source.
#[derive(Debug)]
pub enum Statement {
    /// `Data Name`
    Data { name: String },
    /// `Error Name`
    Error { name: String },
    /// `Function Name(Input) -> A|B`
    Function { name: String, input: String, outputs: Vec<String> },
    /// `var: Type`
    Instantiation { var_name: String, var_type: String },
    /// `target = Function(argument)`
    Assignment { target: String, function: String, argument: String },
}

/// What the analysis reports, statement by statement.
#[derive(Debug)]
pub enum Finding {
    DefinedData { name: String },
    DefinedError { name: String },
    DefinedFunction { name: String },
    /// The argument's type is not the function's input type.
    TypeMismatch { function: String, expected: String, argument: String, actual: String },
    /// The outputs of the function that are error types, in signature order.
    UnhandledErrors { target: String, errors: Vec<String> },
    /// The function has no error output.
    Safe { target: String },
}

/// The state of the analysis: known types, signatures and instances.
#[derive(Debug)]
pub struct Analyzer {
    pub data_types: Vec<String>,
    pub error_types: Vec<String>,
    pub functions: NameMap<FunctionSig>,
    pub instances: NameMap<String>,
}

// --- Models ---

pub open spec fn names(v: Seq<String>) -> Seq<Seq<char>> {
    v.map_values(|s: String| s@)
}

pub struct SigModel {
    pub input: Seq<char>,
    pub outputs: Seq<Seq<char>>,
}

pub open spec fn sig_model(s: FunctionSig) -> SigModel {
    SigModel { input: s.input@, outputs: names(s.outputs@) }
}

/// The analysis state: the data and error types in order of definition,
/// the signatures and the instances as tables in order of first definition.
pub struct AnalyzerModel {
    pub data: Seq<Seq<char>>,
    pub errors: Seq<Seq<char>>,
    pub functions: Seq<(Seq<char>, SigModel)>,
    pub instances: Seq<(Seq<char>, Seq<char>)>,
}

pub open spec fn sig_entries(e: Seq<(String, FunctionSig)>) -> Seq<(Seq<char>, SigModel)> {
    e.map_values(|x: (String, FunctionSig)| (x.0@, sig_model(x.1)))
}

pub open spec fn instance_entries(e: Seq<(String, String)>) -> Seq<(Seq<char>, Seq<char>)> {
    e.map_values(|x: (String, String)| (x.0@, x.1@))
}

impl View for Analyzer {
    type V = AnalyzerModel;

    open spec fn view(&self) -> AnalyzerModel {
        AnalyzerModel {
            data: names(self.data_types@),
            errors: names(self.error_types@),
            functions: sig_entries(self.functions.entries@),
            instances: instance_entries(self.instances.entries@),
        }
    }
}

/// The first index at or after `i` whose key is `k`.
pub open spec fn first_index<X>(t: Seq<(Seq<char>, X)>, k: Seq<char>, i: int) -> Option<int>
    decreases t.len() - i,
{
    if i < 0 || i >= t.len() {
        None
    } else if t[i].0 == k {
        Some(i)
    } else {
        first_index(t, k, i + 1)
    }
}

/// The value of the first entry with key `k`.
pub open spec fn lookup<X>(t: Seq<(Seq<char>, X)>, k: Seq<char>) -> Option<X> {
    match first_index(t, k, 0) {
        Some(i) => Some(t[i].1),
        None => None,
    }
}

/// `v` stored under `k`: in place of the first entry with key `k`, or last.
pub open spec fn table_insert<X>(t: Seq<(Seq<char>, X)>, k: Seq<char>, v: X) -> Seq<(Seq<char>, X)> {
    match first_index(t, k, 0) {
        Some(i) => t.update(i, (k, v)),
        None => t.push((k, v)),
    }
}

/// A type added to a list of types, unless it is there already.
pub open spec fn add_name(s: Seq<Seq<char>>, n: Seq<char>) -> Seq<Seq<char>> {
    if s.contains(n) {
        s
    } else {
        s.push(n)
    }
}

/// The keys of a table of strings, taken by their views, are found where
/// they are found in the table.
pub proof fn lemma_index_views<V, X>(e: Seq<(String, V)>, t: Seq<(Seq<char>, X)>, k: Seq<char>, i: int)
    requires
        e.len() == t.len(),
        forall|j: int| 0 <= j < e.len() ==> #[trigger] t[j].0 == e[j].0@,
        0 <= i <= e.len(),
    ensures
        first_index(t, k, i) == find_key(e, k, i),
    decreases e.len() - i,
{
    if i < e.len() {
        lemma_index_views(e, t, k, i + 1);
    }
}

pub open spec fn empty_model() -> AnalyzerModel {
    AnalyzerModel { data: Seq::empty(), errors: Seq::empty(), functions: Seq::empty(), instances: Seq::empty() }
}

fn contains_name(v: &Vec<String>, n: &str) -> (r: bool)
    ensures
        r == names(v@).contains(n@),
{
    let mut i: usize = 0;
    while i < v.len()
        invariant
            0 <= i <= v@.len(),
            forall|k: int| 0 <= k < i ==> names(v@)[k] != n@,
        decreases v@.len() - i,
    {
        if str_eq(v[i].as_str(), n) {
            assert(names(v@)[i as int] == n@);
            return true;
        }
        i = i + 1;
    }
    false
}

fn clone_strings(v: &Vec<String>) -> (r: Vec<String>)
    ensures
        names(r@) == names(v@),
{
    let mut r: Vec<String> = Vec::new();
    let mut i: usize = 0;
    while i < v.len()
        invariant
            0 <= i <= v@.len(),
            names(r@) == names(v@.take(i as int)),
        decreases v@.len() - i,
    {
        let ghost before = r@;
        r.push(v[i].clone());
        assert(names(r@) =~= names(before).push(v@[i as int]@));
        assert(v@.take(i + 1) =~= v@.take(i as int).push(v@[i as int]));
        assert(names(v@.take(i + 1)) =~= names(v@.take(i as int)).push(v@[i as int]@));
        i = i + 1;
    }
    assert(v@.take(i as int) =~= v@);
    r
}

impl Analyzer {
    /// An analysis that knows no type, function or instance.
    pub fn new() -> (a: Self)
        ensures
            a@ == empty_model(),
    {
        let a = Analyzer {
            data_types: Vec::new(),
            error_types: Vec::new(),
            functions: NameMap::new(),
            instances: NameMap::new(),
        };
        assert(a@.data =~= Seq::<Seq<char>>::empty());
        assert(a@.errors =~= Seq::<Seq<char>>::empty());
        assert(a@.functions =~= Seq::<(Seq<char>, SigModel)>::empty());
        assert(a@.instances =~= Seq::<(Seq<char>, Seq<char>)>::empty());
        a
    }

    /// Records a data type.
    pub fn define_data(&mut self, name: String)
        ensures
            final(self)@ == (AnalyzerModel { data: add_name(old(self)@.data, name@), ..old(self)@ }),
    {
        if !contains_name(&self.data_types, name.as_str()) {
            self.data_types.push(name);
            assert(self@.data =~= old(self)@.data.push(name@));
        }
    }

    /// Records an error type.
    pub fn define_error(&mut self, name: String)
        ensures
            final(self)@ == (AnalyzerModel { errors: add_name(old(self)@.errors, name@), ..old(self)@ }),
    {
        if !contains_name(&self.error_types, name.as_str()) {
            self.error_types.push(name);
            assert(self@.errors =~= old(self)@.errors.push(name@));
        }
    }

    /// Records the signature of a function, replacing an earlier one.
    pub fn define_function(&mut self, name: String, input: String, outputs: Vec<String>)
        ensures
            final(self)@ == (AnalyzerModel {
                functions: table_insert(
                    old(self)@.functions,
                    name@,
                    SigModel { input: input@, outputs: names(outputs@) },
                ),
                ..old(self)@
            }),
    {
        let ghost e0 = self.functions.entries@;
        let ghost sig = SigModel { input: input@, outputs: names(outputs@) };
        let ghost key = name@;
        proof {
            lemma_index_views(e0, sig_entries(e0), key, 0);
        }
        let f = FunctionSig { input, outputs };
        let ghost fv = f;
        assert(sig_model(fv) == sig);
        self.functions.insert(name, f);
        proof {
            match find_key(e0, key, 0) {
                Some(i) => {
                    lemma_find_key(e0, key, 0);
                    assert(sig_entries(self.functions.entries@) =~= sig_entries(e0).update(i, (key, sig)));
                },
                None => {
                    assert(sig_entries(self.functions.entries@) =~= sig_entries(e0).push((key, sig)));
                },
            }
        }
    }

    /// Records the type of an instance, replacing an earlier one.
    pub fn instantiate(&mut self, var_name: String, var_type: String)
        ensures
            final(self)@ == (AnalyzerModel {
                instances: table_insert(old(self)@.instances, var_name@, var_type@),
                ..old(self)@
            }),
    {
        let ghost e0 = self.instances.entries@;
        let ghost key = var_name@;
        let ghost ty = var_type@;
        proof {
            lemma_index_views(e0, instance_entries(e0), key, 0);
        }
        self.instances.insert(var_name, var_type);
        proof {
            match find_key(e0, key, 0) {
                Some(i) => {
                    lemma_find_key(e0, key, 0);
                    assert(instance_entries(self.instances.entries@) =~= instance_entries(e0).update(i, (key, ty)));
                },
                None => {
                    assert(instance_entries(self.instances.entries@) =~= instance_entries(e0).push((key, ty)));
                },
            }
        }
    }
}

// --- Checking assignments ---

pub enum FindingModel {
    DefinedData { name: Seq<char> },
    DefinedError { name: Seq<char> },
    DefinedFunction { name: Seq<char> },
    TypeMismatch { function: Seq<char>, expected: Seq<char>, argument: Seq<char>, actual: Seq<char> },
    UnhandledErrors { target: Seq<char>, errors: Seq<Seq<char>> },
    Safe { target: Seq<char> },
}

pub open spec fn finding_model(f: Finding) -> FindingModel {
    match f {
        Finding::DefinedData { name } => FindingModel::DefinedData { name: name@ },
        Finding::DefinedError { name } => FindingModel::DefinedError { name: name@ },
        Finding::DefinedFunction { name } => FindingModel::DefinedFunction { name: name@ },
        Finding::TypeMismatch { function, expected, argument, actual } => FindingModel::TypeMismatch {
            function: function@,
            expected: expected@,
            argument: argument@,
            actual: actual@,
        },
        Finding::UnhandledErrors { target, errors } => FindingModel::UnhandledErrors {
            target: target@,
            errors: names(errors@),
        },
        Finding::Safe { target } => FindingModel::Safe { target: target@ },
    }
}

pub open spec fn finding_models(v: Seq<Finding>) -> Seq<FindingModel> {
    v.map_values(|f: Finding| finding_model(f))
}

/// The outputs that are error types, in order.
pub open spec fn error_outputs(outputs: Seq<Seq<char>>, errors: Seq<Seq<char>>) -> Seq<Seq<char>>
    decreases outputs.len(),
{
    if outputs.len() == 0 {
        Seq::empty()
    } else {
        error_outputs(outputs.drop_last(), errors) + if errors.contains(outputs.last()) {
            seq![outputs.last()]
        } else {
            Seq::empty()
        }
    }
}

/// What checking `target = function(argument)` reports: a type mismatch
/// when the argument's type is not the function's input type; then the
/// function's error outputs, or that the assignment is safe.
pub open spec fn assignment_findings(
    m: AnalyzerModel,
    target: Seq<char>,
    function: Seq<char>,
    argument: Seq<char>,
) -> Seq<FindingModel> {
    let sig = lookup(m.functions, function).unwrap();
    let ty = lookup(m.instances, argument).unwrap();
    let errs = error_outputs(sig.outputs, m.errors);
    (if sig.input != ty {
        seq![FindingModel::TypeMismatch { function, expected: sig.input, argument, actual: ty }]
    } else {
        Seq::empty()
    }) + (if errs.len() > 0 {
        seq![FindingModel::UnhandledErrors { target, errors: errs }]
    } else {
        seq![FindingModel::Safe { target }]
    })
}

/// Whether the function and the argument of an assignment are known.
pub open spec fn assignment_resolves(m: AnalyzerModel, function: Seq<char>, argument: Seq<char>) -> bool {
    &&& lookup(m.functions, function) is Some
    &&& lookup(m.instances, argument) is Some
}

fn lookup_sig<'a>(t: &'a NameMap<FunctionSig>, k: &str) -> (r: Option<&'a FunctionSig>)
    ensures
        match r {
            Some(s) => lookup(sig_entries(t.entries@), k@) == Some(sig_model(*s)),
            None => lookup(sig_entries(t.entries@), k@) is None,
        },
{
    proof {
        lemma_index_views(t.entries@, sig_entries(t.entries@), k@, 0);
        lemma_find_key(t.entries@, k@, 0);
        if let Some(i) = find_key(t.entries@, k@, 0) {
            assert(sig_entries(t.entries@)[i] == (t.entries@[i].0@, sig_model(t.entries@[i].1)));
        }
    }
    t.get(k)
}

fn lookup_instance<'a>(t: &'a NameMap<String>, k: &str) -> (r: Option<&'a String>)
    ensures
        match r {
            Some(s) => lookup(instance_entries(t.entries@), k@) == Some(s@),
            None => lookup(instance_entries(t.entries@), k@) is None,
        },
{
    proof {
        lemma_index_views(t.entries@, instance_entries(t.entries@), k@, 0);
        lemma_find_key(t.entries@, k@, 0);
        if let Some(i) = find_key(t.entries@, k@, 0) {
            assert(instance_entries(t.entries@)[i] == (t.entries@[i].0@, t.entries@[i].1@));
        }
    }
    t.get(k)
}

impl Analyzer {
    /// Checks `target = function(argument)`: the argument's type against the
    /// function's input, and the function's outputs for error types.
    pub fn check_assignment(&self, target: &str, function: &str, argument: &str) -> (r: Vec<Finding>)
        requires
            assignment_resolves(self@, function@, argument@),
        ensures
            finding_models(r@) == assignment_findings(self@, target@, function@, argument@),
    {
        let sig = match lookup_sig(&self.functions, function) {
            Some(s) => s,
            None => {
                return Vec::new();
            },
        };
        let ty = match lookup_instance(&self.instances, argument) {
            Some(t) => t,
            None => {
                return Vec::new();
            },
        };
        let ghost m = self@;
        let ghost sm = sig_model(*sig);
        let mut r: Vec<Finding> = Vec::new();
        if !str_eq(sig.input.as_str(), ty.as_str()) {
            r.push(
                Finding::TypeMismatch {
                    function: String::from_str(function),
                    expected: sig.input.clone(),
                    argument: String::from_str(argument),
                    actual: ty.clone(),
                },
            );
        }
        let ghost first = finding_models(r@);
        let mut errs: Vec<String> = Vec::new();
        let mut i: usize = 0;
        while i < sig.outputs.len()
            invariant
                0 <= i <= sig.outputs@.len(),
                sm == sig_model(*sig),
                m == self@,
                names(errs@) == error_outputs(sm.outputs.take(i as int), m.errors),
            decreases sig.outputs@.len() - i,
        {
            let ghost before = errs@;
            assert(sm.outputs.take(i + 1).drop_last() =~= sm.outputs.take(i as int));
            assert(sm.outputs.take(i + 1).last() == sig.outputs@[i as int]@);
            if contains_name(&self.error_types, sig.outputs[i].as_str()) {
                errs.push(sig.outputs[i].clone());
                assert(names(errs@) =~= names(before).push(sig.outputs@[i as int]@));
            }
            assert(names(errs@) =~= error_outputs(sm.outputs.take(i + 1), m.errors));
            i = i + 1;
        }
        assert(sm.outputs.take(i as int) =~= sm.outputs);
        let ghost errs_m = names(errs@);
        if errs.len() > 0 {
            r.push(Finding::UnhandledErrors { target: String::from_str(target), errors: errs });
        } else {
            r.push(Finding::Safe { target: String::from_str(target) });
        }
        assert(finding_models(r@) =~= assignment_findings(m, target@, function@, argument@));
        r
    }
}

// --- Analyzing a program ---

pub enum StatementModel {
    Data { name: Seq<char> },
    Error { name: Seq<char> },
    Function { name: Seq<char>, input: Seq<char>, outputs: Seq<Seq<char>> },
    Instantiation { var_name: Seq<char>, var_type: Seq<char> },
    Assignment { target: Seq<char>, function: Seq<char>, argument: Seq<char> },
}

pub open spec fn statement_model(s: Statement) -> StatementModel {
    match s {
        Statement::Data { name } => StatementModel::Data { name: name@ },
        Statement::Error { name } => StatementModel::Error { name: name@ },
        Statement::Function { name, input, outputs } => StatementModel::Function {
            name: name@,
            input: input@,
            outputs: names(outputs@),
        },
        Statement::Instantiation { var_name, var_type } => StatementModel::Instantiation {
            var_name: var_name@,
            var_type: var_type@,
        },
        Statement::Assignment { target, function, argument } => StatementModel::Assignment {
            target: target@,
            function: function@,
            argument: argument@,
        },
    }
}

pub open spec fn statement_models(v: Seq<Statement>) -> Seq<StatementModel> {
    v.map_values(|s: Statement| statement_model(s))
}

/// One statement: definitions are recorded and reported, instances are
/// recorded, assignments are checked.
pub open spec fn step(m: AnalyzerModel, st: StatementModel) -> (AnalyzerModel, Seq<FindingModel>) {
    match st {
        StatementModel::Data { name } => (
            AnalyzerModel { data: add_name(m.data, name), ..m },
            seq![FindingModel::DefinedData { name }],
        ),
        StatementModel::Error { name } => (
            AnalyzerModel { errors: add_name(m.errors, name), ..m },
            seq![FindingModel::DefinedError { name }],
        ),
        StatementModel::Function { name, input, outputs } => (
            AnalyzerModel {
                functions: table_insert(m.functions, name, SigModel { input, outputs }),
                ..m
            },
            seq![FindingModel::DefinedFunction { name }],
        ),
        StatementModel::Instantiation { var_name, var_type } => (
            AnalyzerModel { instances: table_insert(m.instances, var_name, var_type), ..m },
            Seq::empty(),
        ),
        StatementModel::Assignment { target, function, argument } => (
            m,
            assignment_findings(m, target, function, argument),
        ),
    }
}

/// The statements in order: the final state, and all findings in order.
pub open spec fn run(m: AnalyzerModel, sts: Seq<StatementModel>) -> (AnalyzerModel, Seq<FindingModel>)
    decreases sts.len(),
{
    if sts.len() == 0 {
        (m, Seq::empty())
    } else {
        let prev = run(m, sts.drop_last());
        let next = step(prev.0, sts.last());
        (next.0, prev.1 + next.1)
    }
}

/// Every assignment names a function and an instance known when it is reached.
pub open spec fn resolves(m: AnalyzerModel, sts: Seq<StatementModel>) -> bool
    decreases sts.len(),
{
    if sts.len() == 0 {
        true
    } else {
        &&& resolves(m, sts.drop_last())
        &&& match sts.last() {
            StatementModel::Assignment { function, argument, .. } => assignment_resolves(
                run(m, sts.drop_last()).0,
                function,
                argument,
            ),
            _ => true,
        }
    }
}

proof fn lemma_resolves_prefix(m: AnalyzerModel, sts: Seq<StatementModel>, k: int)
    requires
        resolves(m, sts),
        0 <= k <= sts.len(),
    ensures
        resolves(m, sts.take(k)),
    decreases sts.len() - k,
{
    if k < sts.len() {
        lemma_resolves_prefix(m, sts, k + 1);
        assert(sts.take(k + 1).drop_last() =~= sts.take(k));
    } else {
        assert(sts.take(k) =~= sts);
    }
}

impl Analyzer {
    /// Runs a program statement by statement and returns what it reports.
    pub fn analyze(&mut self, program: Vec<Statement>) -> (r: Vec<Finding>)
        requires
            resolves(old(self)@, statement_models(program@)),
        ensures
            (final(self)@, finding_models(r@)) == run(old(self)@, statement_models(program@)),
    {
        let ghost m0 = self@;
        let ghost sts = statement_models(program@);
        let mut out: Vec<Finding> = Vec::new();
        let mut i: usize = 0;
        while i < program.len()
            invariant
                0 <= i <= program@.len(),
                sts == statement_models(program@),
                resolves(m0, sts),
                (self@, finding_models(out@)) == run(m0, sts.take(i as int)),
            decreases program@.len() - i,
        {
            let ghost before = self@;
            let ghost found = finding_models(out@);
            proof {
                lemma_resolves_prefix(m0, sts, i + 1);
                assert(sts.take(i + 1).drop_last() =~= sts.take(i as int));
                assert(sts.take(i + 1).last() == statement_model(program@[i as int]));
            }
            match &program[i] {
                Statement::Data { name } => {
                    self.define_data(name.clone());
                    out.push(Finding::DefinedData { name: name.clone() });
                },
                Statement::Error { name } => {
                    self.define_error(name.clone());
                    out.push(Finding::DefinedError { name: name.clone() });
                },
                Statement::Function { name, input, outputs } => {
                    self.define_function(name.clone(), input.clone(), clone_strings(outputs));
                    out.push(Finding::DefinedFunction { name: name.clone() });
                },
                Statement::Instantiation { var_name, var_type } => {
                    self.instantiate(var_name.clone(), var_type.clone());
                },
                Statement::Assignment { target, function, argument } => {
                    let mut found_here = self.check_assignment(target.as_str(), function.as_str(), argument.as_str());
                    let ghost fh = finding_models(found_here@);
                    out.append(&mut found_here);
                    assert(finding_models(out@) =~= found + fh);
                },
            }
            assert(finding_models(out@) =~= found + step(before, sts[i as int]).1);
            i = i + 1;
        }
        assert(sts.take(i as int) =~= sts);
        out
    }
}

// --- Diagram ---

/// The edge of a function to one of its outputs; error outputs get the `error` class.
pub open spec fn output_line(name: Seq<char>, out: Seq<char>, errors: Seq<Seq<char>>) -> Seq<char> {
    "  "@ + name + "(["@ + name + "]) --> "@ + out + (if errors.contains(out) {
        ":::error"@
    } else {
        Seq::empty()
    }) + "\n"@
}

pub open spec fn output_lines(name: Seq<char>, outs: Seq<Seq<char>>, errors: Seq<Seq<char>>) -> Seq<char>
    decreases outs.len(),
{
    if outs.len() == 0 {
        Seq::empty()
    } else {
        output_lines(name, outs.drop_last(), errors) + output_line(name, outs.last(), errors)
    }
}

pub open spec fn function_lines(fs: Seq<(Seq<char>, SigModel)>, errors: Seq<Seq<char>>) -> Seq<char>
    decreases fs.len(),
{
    if fs.len() == 0 {
        Seq::empty()
    } else {
        function_lines(fs.drop_last(), errors) + output_lines(fs.last().0, fs.last().1.outputs, errors)
    }
}

/// The Mermaid chart of the signatures: one edge from each function to
/// each of its outputs, functions in order of definition.
pub open spec fn mermaid_chart(m: AnalyzerModel) -> Seq<char> {
    "graph TD\n"@ + function_lines(m.functions, m.errors)
}

impl Analyzer {
    /// Renders the signatures as a Mermaid chart.
    pub fn generate_mermaid(&self) -> (chart: String)
        ensures
            chart@ == mermaid_chart(self@),
    {
        let ghost m = self@;
        let mut out: Vec<char> = Vec::new();
        push_str(&mut out, "graph TD\n");
        let entries = &self.functions.entries;
        let mut i: usize = 0;
        while i < entries.len()
            invariant
                0 <= i <= entries@.len(),
                m == self@,
                entries@ == self.functions.entries@,
                out@ == "graph TD\n"@ + function_lines(m.functions.take(i as int), m.errors),
            decreases entries@.len() - i,
        {
            let name = entries[i].0.as_str();
            let outs = &entries[i].1.outputs;
            let ghost outs_m = names(outs@);
            let ghost mid = out@;
            assert(m.functions[i as int] == (name@, sig_model(entries@[i as int].1)));
            let mut j: usize = 0;
            while j < outs.len()
                invariant
                    0 <= j <= outs@.len(),
                    outs_m == names(outs@),
                    m == self@,
                    out@ == mid + output_lines(name@, outs_m.take(j as int), m.errors),
                decreases outs@.len() - j,
            {
                let ghost before = out@;
                push_str(&mut out, "  ");
                push_str(&mut out, name);
                push_str(&mut out, "([");
                push_str(&mut out, name);
                push_str(&mut out, "]) --> ");
                push_str(&mut out, outs[j].as_str());
                if contains_name(&self.error_types, outs[j].as_str()) {
                    push_str(&mut out, ":::error");
                }
                push_str(&mut out, "\n");
                assert(outs_m.take(j + 1).drop_last() =~= outs_m.take(j as int));
                assert(outs_m.take(j + 1).last() == outs@[j as int]@);
                assert(out@ =~= before + output_line(name@, outs@[j as int]@, m.errors));
                j = j + 1;
            }
            assert(outs_m.take(j as int) =~= outs_m);
            assert(m.functions.take(i + 1).drop_last() =~= m.functions.take(i as int));
            assert(out@ =~= "graph TD\n"@ + function_lines(m.functions.take(i + 1), m.errors));
            i = i + 1;
        }
        assert(m.functions.take(i as int) =~= m.functions);
        string_from_chars(&out)
    }
}

} // verus!
