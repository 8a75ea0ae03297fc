//! The Tect grammar and its parser.
//!
//! A source is read as a sequence of characters. Positions are character
//! offsets. The grammar, as a parsing expression grammar (first match wins,
//! repetitions are greedy):
//!
//! ```text
//! program      = (blank* item)* blank* EOF
//! item         = import | constant_def | variable_def | error_def | group_def
//!              | function_def | comment | flow_step
//! import       = "import" ws+ '"' (!('"' | '\n') ANY)* '"'
//! constant_def = doc_line* "constant" ws+ ident        (also variable, error, group)
//! function_def = doc_line* (ident ws+)? "function" ws+ ident (ws+ token_list)? output_line*
//! output_line  = blank* ('>' | '|') ws* token_list
//! token_list   = token (ws* ',' ws* token)*
//! token        = '[' ws* ident ws* ']' | ident
//! doc_line     = '#' (!'\n' ANY)* '\n' ws*
//! comment      = '#' (!'\n' ANY)*
//! flow_step    = ident
//! ws           = ' ' | '\t' | '\r'
//! blank        = ws | '\n'
//! ident        = word that is not a keyword
//! word         = ('a'..'z' | 'A'..'Z' | '_') ('a'..'z' | 'A'..'Z' | '0'..'9' | '_')*
//! ```
//!
//! Keywords are `constant`, `variable`, `error`, `group`, `function` and `import`.

use vstd::prelude::*;
use crate::text::chars_of;

verus! {

/// A range of character positions `[start, end)`.
#[derive(Debug, Clone, Copy, PartialEq, Eq, Structural, Hash)]
pub struct Extent {
    pub start: usize,
    pub end: usize,
}

pub open spec fn extent(start: int, end: int) -> Extent {
    Extent { start: start as usize, end: end as usize }
}

/// A token of a token list: `Name` or `[Name]`.
#[derive(Debug, Clone, Copy, PartialEq, Eq, Structural, Hash)]
pub struct TokenNode {
    /// The whole token, brackets included.
    pub extent: Extent,
    /// The artifact name.
    pub name: Extent,
    /// Whether the token is written `[Name]`.
    pub collection: bool,
}

/// An output branch of a function: `> tokens` or `| tokens`.
#[derive(Debug)]
pub struct OutputLine {
    pub extent: Extent,
    /// Whether the line starts with `|`.
    pub alternative: bool,
    pub tokens: Vec<TokenNode>,
}

pub struct OutputLineModel {
    pub extent: Extent,
    pub alternative: bool,
    pub tokens: Seq<TokenNode>,
}

impl View for OutputLine {
    type V = OutputLineModel;

    open spec fn view(&self) -> OutputLineModel {
        OutputLineModel { extent: self.extent, alternative: self.alternative, tokens: self.tokens@ }
    }
}

/// The keyword of a definition.
#[derive(Debug, Clone, Copy, PartialEq, Eq, Structural, Hash)]
pub enum DefinitionKind {
    Constant,
    Variable,
    Error,
    Group,
}

/// A top-level item of a program.
#[derive(Debug)]
pub enum Item {
    /// `import "path"`; `path` includes the quotes.
    Import { extent: Extent, keyword: Extent, path: Extent },
    /// `constant Name`, `variable Name`, `error Name` or `group Name`.
    Definition { extent: Extent, kind: DefinitionKind, docs: Vec<Extent>, keyword: Extent, name: Extent },
    /// A function contract.
    Function {
        extent: Extent,
        docs: Vec<Extent>,
        group: Option<Extent>,
        keyword: Extent,
        name: Extent,
        inputs: Vec<TokenNode>,
        outputs: Vec<OutputLine>,
    },
    /// A comment that documents nothing.
    Comment { extent: Extent },
    /// A flow step naming a function.
    FlowStep { extent: Extent, name: Extent },
}

pub enum ItemModel {
    Import { extent: Extent, keyword: Extent, path: Extent },
    Definition { extent: Extent, kind: DefinitionKind, docs: Seq<Extent>, keyword: Extent, name: Extent },
    Function {
        extent: Extent,
        docs: Seq<Extent>,
        group: Option<Extent>,
        keyword: Extent,
        name: Extent,
        inputs: Seq<TokenNode>,
        outputs: Seq<OutputLineModel>,
    },
    Comment { extent: Extent },
    FlowStep { extent: Extent, name: Extent },
}

pub open spec fn output_views(lines: Seq<OutputLine>) -> Seq<OutputLineModel> {
    lines.map_values(|l: OutputLine| l@)
}

impl View for Item {
    type V = ItemModel;

    open spec fn view(&self) -> ItemModel {
        match self {
            Item::Import { extent, keyword, path } => ItemModel::Import { extent: *extent, keyword: *keyword, path: *path },
            Item::Definition { extent, kind, docs, keyword, name } => ItemModel::Definition {
                extent: *extent,
                kind: *kind,
                docs: docs@,
                keyword: *keyword,
                name: *name,
            },
            Item::Function { extent, docs, group, keyword, name, inputs, outputs } => ItemModel::Function {
                extent: *extent,
                docs: docs@,
                group: *group,
                keyword: *keyword,
                name: *name,
                inputs: inputs@,
                outputs: output_views(outputs@),
            },
            Item::Comment { extent } => ItemModel::Comment { extent: *extent },
            Item::FlowStep { extent, name } => ItemModel::FlowStep { extent: *extent, name: *name },
        }
    }
}

impl Item {
    /// The characters the item covers.
    pub open spec fn spec_extent(&self) -> Extent {
        match self {
            Item::Import { extent, .. } => *extent,
            Item::Definition { extent, .. } => *extent,
            Item::Function { extent, .. } => *extent,
            Item::Comment { extent } => *extent,
            Item::FlowStep { extent, .. } => *extent,
        }
    }

    #[verifier::when_used_as_spec(spec_extent)]
    pub fn extent(&self) -> (e: Extent)
        ensures
            e == self.spec_extent(),
    {
        match self {
            Item::Import { extent, .. } => *extent,
            Item::Definition { extent, .. } => *extent,
            Item::Function { extent, .. } => *extent,
            Item::Comment { extent } => *extent,
            Item::FlowStep { extent, .. } => *extent,
        }
    }
}

pub open spec fn item_views(items: Seq<Item>) -> Seq<ItemModel> {
    items.map_values(|it: Item| it@)
}

// --- Character classes ---

pub open spec fn is_ws(c: char) -> bool {
    c == ' ' || c == '\t' || c == '\r'
}

pub open spec fn is_blank(c: char) -> bool {
    is_ws(c) || c == '\n'
}

pub open spec fn is_word_start(c: char) -> bool {
    ('a' <= c && c <= 'z') || ('A' <= c && c <= 'Z') || c == '_'
}

pub open spec fn is_word_char(c: char) -> bool {
    is_word_start(c) || ('0' <= c && c <= '9')
}

fn ws_char(c: char) -> (r: bool)
    ensures
        r == is_ws(c),
{
    c == ' ' || c == '\t' || c == '\r'
}

fn word_start_char(c: char) -> (r: bool)
    ensures
        r == is_word_start(c),
{
    ('a' <= c && c <= 'z') || ('A' <= c && c <= 'Z') || c == '_'
}

fn word_char(c: char) -> (r: bool)
    ensures
        r == is_word_char(c),
{
    word_start_char(c) || ('0' <= c && c <= '9')
}

// --- Scanners ---

/// The end of the run of `ws` starting at `i`.
pub open spec fn skip_ws(s: Seq<char>, i: int) -> int
    decreases s.len() - i,
{
    if 0 <= i < s.len() && is_ws(s[i]) {
        skip_ws(s, i + 1)
    } else {
        i
    }
}

/// The end of the run of `blank` starting at `i`.
pub open spec fn skip_blank(s: Seq<char>, i: int) -> int
    decreases s.len() - i,
{
    if 0 <= i < s.len() && is_blank(s[i]) {
        skip_blank(s, i + 1)
    } else {
        i
    }
}

/// The end of the run of word characters starting at `i`.
pub open spec fn word_run(s: Seq<char>, i: int) -> int
    decreases s.len() - i,
{
    if 0 <= i < s.len() && is_word_char(s[i]) {
        word_run(s, i + 1)
    } else {
        i
    }
}

/// The first newline at or after `i`, or the end.
pub open spec fn line_end(s: Seq<char>, i: int) -> int
    decreases s.len() - i,
{
    if 0 <= i < s.len() && s[i] != '\n' {
        line_end(s, i + 1)
    } else {
        i
    }
}

/// The end of a string body starting at `i`: the first quote or newline, or the end.
pub open spec fn string_end(s: Seq<char>, i: int) -> int
    decreases s.len() - i,
{
    if 0 <= i < s.len() && s[i] != '"' && s[i] != '\n' {
        string_end(s, i + 1)
    } else {
        i
    }
}

pub proof fn lemma_scan_bounds(s: Seq<char>, i: int)
    requires
        0 <= i <= s.len(),
    ensures
        i <= skip_ws(s, i) <= s.len(),
        i <= skip_blank(s, i) <= s.len(),
        i <= word_run(s, i) <= s.len(),
        i <= line_end(s, i) <= s.len(),
        i <= string_end(s, i) <= s.len(),
        line_end(s, i) < s.len() ==> s[line_end(s, i)] == '\n',
        skip_ws(s, i) < s.len() ==> !is_ws(s[skip_ws(s, i)]),
        skip_blank(s, i) < s.len() ==> !is_blank(s[skip_blank(s, i)]),
        word_run(s, i) < s.len() ==> !is_word_char(s[word_run(s, i)]),
        string_end(s, i) < s.len() ==> (s[string_end(s, i)] == '"' || s[string_end(s, i)] == '\n'),
        forall|k: int| i <= k < skip_ws(s, i) ==> is_ws(#[trigger] s[k]),
        forall|k: int| i <= k < skip_blank(s, i) ==> is_blank(#[trigger] s[k]),
        forall|k: int| i <= k < word_run(s, i) ==> is_word_char(#[trigger] s[k]),
        forall|k: int| i <= k < line_end(s, i) ==> #[trigger] s[k] != '\n',
    decreases s.len() - i,
{
    if i < s.len() {
        lemma_scan_bounds(s, i + 1);
    }
}

fn scan_ws(s: &Vec<char>, i: usize) -> (r: usize)
    requires
        i <= s@.len(),
    ensures
        r == skip_ws(s@, i as int),
{
    let mut j = i;
    while j < s.len() && ws_char(s[j])
        invariant
            i <= j <= s@.len(),
            skip_ws(s@, i as int) == skip_ws(s@, j as int),
        decreases s@.len() - j,
    {
        j = j + 1;
    }
    j
}

fn scan_blank(s: &Vec<char>, i: usize) -> (r: usize)
    requires
        i <= s@.len(),
    ensures
        r == skip_blank(s@, i as int),
{
    let mut j = i;
    while j < s.len() && (ws_char(s[j]) || s[j] == '\n')
        invariant
            i <= j <= s@.len(),
            skip_blank(s@, i as int) == skip_blank(s@, j as int),
        decreases s@.len() - j,
    {
        j = j + 1;
    }
    j
}

fn scan_word(s: &Vec<char>, i: usize) -> (r: usize)
    requires
        i <= s@.len(),
    ensures
        r == word_run(s@, i as int),
{
    let mut j = i;
    while j < s.len() && word_char(s[j])
        invariant
            i <= j <= s@.len(),
            word_run(s@, i as int) == word_run(s@, j as int),
        decreases s@.len() - j,
    {
        j = j + 1;
    }
    j
}

fn scan_line(s: &Vec<char>, i: usize) -> (r: usize)
    requires
        i <= s@.len(),
    ensures
        r == line_end(s@, i as int),
{
    let mut j = i;
    while j < s.len() && s[j] != '\n'
        invariant
            i <= j <= s@.len(),
            line_end(s@, i as int) == line_end(s@, j as int),
        decreases s@.len() - j,
    {
        j = j + 1;
    }
    j
}

fn scan_string(s: &Vec<char>, i: usize) -> (r: usize)
    requires
        i <= s@.len(),
    ensures
        r == string_end(s@, i as int),
{
    let mut j = i;
    while j < s.len() && s[j] != '"' && s[j] != '\n'
        invariant
            i <= j <= s@.len(),
            string_end(s@, i as int) == string_end(s@, j as int),
        decreases s@.len() - j,
    {
        j = j + 1;
    }
    j
}

// --- Words, keywords, identifiers ---

/// The end of the word starting at `i`, if a word starts there.
pub open spec fn word_at(s: Seq<char>, i: int) -> Option<int> {
    if 0 <= i < s.len() && is_word_start(s[i]) {
        Some(word_run(s, i + 1))
    } else {
        None
    }
}

pub open spec fn is_keyword(w: Seq<char>) -> bool {
    w == "constant"@ || w == "variable"@ || w == "error"@ || w == "group"@ || w == "function"@
        || w == "import"@
}

/// Whether the word starting at `i` is exactly `kw`.
pub open spec fn keyword_at(s: Seq<char>, i: int, kw: Seq<char>) -> bool {
    match word_at(s, i) {
        Some(e) => s.subrange(i, e) == kw,
        None => false,
    }
}

/// The end of the identifier starting at `i`, if one starts there.
pub open spec fn ident_at(s: Seq<char>, i: int) -> Option<int> {
    match word_at(s, i) {
        Some(e) => if is_keyword(s.subrange(i, e)) {
            None
        } else {
            Some(e)
        },
        None => None,
    }
}

pub proof fn lemma_word_at(s: Seq<char>, i: int)
    requires
        0 <= i <= s.len(),
    ensures
        word_at(s, i) matches Some(e) ==> i < e <= s.len(),
        ident_at(s, i) matches Some(e) ==> i < e <= s.len(),
{
    if i < s.len() {
        lemma_scan_bounds(s, i + 1);
    }
}

/// Whether `s[a..e]` spells `kw`.
fn range_is(s: &Vec<char>, a: usize, e: usize, kw: &Vec<char>) -> (r: bool)
    requires
        a <= e <= s@.len(),
    ensures
        r == (s@.subrange(a as int, e as int) == kw@),
{
    if e - a != kw.len() {
        return false;
    }
    let mut k: usize = 0;
    while k < kw.len()
        invariant
            e - a == kw@.len(),
            a <= e <= s@.len(),
            0 <= k <= kw@.len(),
            forall|j: int| 0 <= j < k ==> s@[a + j] == kw@[j],
        decreases kw@.len() - k,
    {
        if s[a + k] != kw[k] {
            assert(s@.subrange(a as int, e as int)[k as int] != kw@[k as int]);
            return false;
        }
        k = k + 1;
    }
    assert(s@.subrange(a as int, e as int) =~= kw@);
    true
}

/// The characters of the keywords.
pub struct Keywords {
    pub constant: Vec<char>,
    pub variable: Vec<char>,
    pub error: Vec<char>,
    pub group: Vec<char>,
    pub function: Vec<char>,
    pub import: Vec<char>,
}

impl Keywords {
    pub open spec fn wf(&self) -> bool {
        &&& self.constant@ == "constant"@
        &&& self.variable@ == "variable"@
        &&& self.error@ == "error"@
        &&& self.group@ == "group"@
        &&& self.function@ == "function"@
        &&& self.import@ == "import"@
    }

    pub fn new() -> (k: Self)
        ensures
            k.wf(),
    {
        Keywords {
            constant: chars_of("constant"),
            variable: chars_of("variable"),
            error: chars_of("error"),
            group: chars_of("group"),
            function: chars_of("function"),
            import: chars_of("import"),
        }
    }
}

fn word_end(s: &Vec<char>, i: usize) -> (r: Option<usize>)
    requires
        i <= s@.len(),
    ensures
        match r {
            Some(e) => word_at(s@, i as int) == Some(e as int),
            None => word_at(s@, i as int) is None,
        },
{
    if i < s.len() && word_start_char(s[i]) {
        Some(scan_word(s, i + 1))
    } else {
        None
    }
}

fn keyword_end(s: &Vec<char>, i: usize, kw: &Vec<char>) -> (r: Option<usize>)
    requires
        i <= s@.len(),
    ensures
        match r {
            Some(e) => keyword_at(s@, i as int, kw@) && word_at(s@, i as int) == Some(e as int),
            None => !keyword_at(s@, i as int, kw@),
        },
{
    proof {
        lemma_word_at(s@, i as int);
    }
    match word_end(s, i) {
        Some(e) => if range_is(s, i, e, kw) {
            Some(e)
        } else {
            None
        },
        None => None,
    }
}

fn ident_end(s: &Vec<char>, i: usize, kws: &Keywords) -> (r: Option<usize>)
    requires
        i <= s@.len(),
        kws.wf(),
    ensures
        match r {
            Some(e) => ident_at(s@, i as int) == Some(e as int),
            None => ident_at(s@, i as int) is None,
        },
{
    proof {
        lemma_word_at(s@, i as int);
    }
    match word_end(s, i) {
        Some(e) => {
            if range_is(s, i, e, &kws.constant) || range_is(s, i, e, &kws.variable) || range_is(
                s,
                i,
                e,
                &kws.error,
            ) || range_is(s, i, e, &kws.group) || range_is(s, i, e, &kws.function) || range_is(
                s,
                i,
                e,
                &kws.import,
            ) {
                None
            } else {
                Some(e)
            }
        },
        None => None,
    }
}


// --- Productions ---

/// `token = '[' ws* ident ws* ']' | ident`
pub open spec fn token_at(s: Seq<char>, i: int) -> Option<(TokenNode, int)> {
    if 0 <= i < s.len() && s[i] == '[' {
        let a = skip_ws(s, i + 1);
        match ident_at(s, a) {
            Some(e) => {
                let b = skip_ws(s, e);
                if b < s.len() && s[b] == ']' {
                    Some((TokenNode { extent: extent(i, b + 1), name: extent(a, e), collection: true }, b + 1))
                } else {
                    None
                }
            },
            None => None,
        }
    } else {
        match ident_at(s, i) {
            Some(e) => Some((TokenNode { extent: extent(i, e), name: extent(i, e), collection: false }, e)),
            None => None,
        }
    }
}

/// `(ws* ',' ws* token)*` from `j`.
pub open spec fn more_tokens(s: Seq<char>, j: int) -> (Seq<TokenNode>, int)
    decreases s.len() - j,
{
    let a = skip_ws(s, j);
    if 0 <= j && a < s.len() && s[a] == ',' {
        match token_at(s, skip_ws(s, a + 1)) {
            Some((t, e)) => if j < e <= s.len() {
                let r = more_tokens(s, e);
                (seq![t] + r.0, r.1)
            } else {
                (Seq::empty(), j)
            },
            None => (Seq::empty(), j),
        }
    } else {
        (Seq::empty(), j)
    }
}

/// `token_list = token (ws* ',' ws* token)*`
pub open spec fn token_list_at(s: Seq<char>, i: int) -> Option<(Seq<TokenNode>, int)> {
    match token_at(s, i) {
        Some((t, e)) => {
            let r = more_tokens(s, e);
            Some((seq![t] + r.0, r.1))
        },
        None => None,
    }
}

/// `output_line = blank* ('>' | '|') ws* token_list`
pub open spec fn output_line_at(s: Seq<char>, i: int) -> Option<(OutputLineModel, int)> {
    let a = skip_blank(s, i);
    if 0 <= a < s.len() && (s[a] == '>' || s[a] == '|') {
        match token_list_at(s, skip_ws(s, a + 1)) {
            Some((ts, e)) => Some(
                (OutputLineModel { extent: extent(a, e), alternative: s[a] == '|', tokens: ts }, e),
            ),
            None => None,
        }
    } else {
        None
    }
}

/// `output_line*` from `i`.
pub open spec fn outputs_at(s: Seq<char>, i: int) -> (Seq<OutputLineModel>, int)
    decreases s.len() - i,
{
    match output_line_at(s, i) {
        Some((l, e)) => if 0 <= i < e <= s.len() {
            let r = outputs_at(s, e);
            (seq![l] + r.0, r.1)
        } else {
            (Seq::empty(), i)
        },
        None => (Seq::empty(), i),
    }
}

/// `doc_line = '#' (!'\n' ANY)* '\n' ws*`; the extent excludes the newline.
pub open spec fn doc_line_at(s: Seq<char>, i: int) -> Option<(Extent, int)> {
    if 0 <= i < s.len() && s[i] == '#' {
        let e = line_end(s, i);
        if e < s.len() {
            Some((extent(i, e), skip_ws(s, e + 1)))
        } else {
            None
        }
    } else {
        None
    }
}

/// `doc_line*` from `i`.
pub open spec fn doc_lines_at(s: Seq<char>, i: int) -> (Seq<Extent>, int)
    decreases s.len() - i,
{
    match doc_line_at(s, i) {
        Some((d, e)) => if 0 <= i < e <= s.len() {
            let r = doc_lines_at(s, e);
            (seq![d] + r.0, r.1)
        } else {
            (Seq::empty(), i)
        },
        None => (Seq::empty(), i),
    }
}

/// `doc_line* kw ws+ ident`
pub open spec fn definition_at(s: Seq<char>, i: int, kind: DefinitionKind, kw: Seq<char>) -> Option<(ItemModel, int)> {
    let d = doc_lines_at(s, i);
    let a = d.1;
    if keyword_at(s, a, kw) {
        let k = a + kw.len();
        let c = skip_ws(s, k);
        if c > k {
            match ident_at(s, c) {
                Some(e) => Some(
                    (
                        ItemModel::Definition {
                            extent: extent(i, e),
                            kind,
                            docs: d.0,
                            keyword: extent(a, k),
                            name: extent(c, e),
                        },
                        e,
                    ),
                ),
                None => None,
            }
        } else {
            None
        }
    } else {
        None
    }
}

/// The optional group prefix `(ident ws+)?` at `a`.
pub open spec fn group_prefix_at(s: Seq<char>, a: int) -> (Option<Extent>, int) {
    match ident_at(s, a) {
        Some(e) => {
            let w = skip_ws(s, e);
            if w > e {
                (Some(extent(a, e)), w)
            } else {
                (None, a)
            }
        },
        None => (None, a),
    }
}

/// The optional inputs `(ws+ token_list)?` after the name ending at `ne`.
pub open spec fn inputs_at(s: Seq<char>, ne: int) -> (Seq<TokenNode>, int) {
    let w = skip_ws(s, ne);
    if w > ne {
        match token_list_at(s, w) {
            Some(r) => r,
            None => (Seq::empty(), ne),
        }
    } else {
        (Seq::empty(), ne)
    }
}

/// `doc_line* (ident ws+)? "function" ws+ ident (ws+ token_list)? output_line*`
pub open spec fn function_at(s: Seq<char>, i: int) -> Option<(ItemModel, int)> {
    let d = doc_lines_at(s, i);
    let g = group_prefix_at(s, d.1);
    let b = g.1;
    if keyword_at(s, b, "function"@) {
        let k = b + "function"@.len();
        let c = skip_ws(s, k);
        if c > k {
            match ident_at(s, c) {
                Some(ne) => {
                    let inp = inputs_at(s, ne);
                    let outs = outputs_at(s, inp.1);
                    Some(
                        (
                            ItemModel::Function {
                                extent: extent(i, outs.1),
                                docs: d.0,
                                group: g.0,
                                keyword: extent(b, k),
                                name: extent(c, ne),
                                inputs: inp.0,
                                outputs: outs.0,
                            },
                            outs.1,
                        ),
                    )
                },
                None => None,
            }
        } else {
            None
        }
    } else {
        None
    }
}

/// `import = "import" ws+ '"' (!('"' | '\n') ANY)* '"'`
pub open spec fn import_at(s: Seq<char>, i: int) -> Option<(ItemModel, int)> {
    if keyword_at(s, i, "import"@) {
        let k = i + "import"@.len();
        let c = skip_ws(s, k);
        if c > k && c < s.len() && s[c] == '"' {
            let q = string_end(s, c + 1);
            if q < s.len() && s[q] == '"' {
                Some((ItemModel::Import { extent: extent(i, q + 1), keyword: extent(i, k), path: extent(c, q + 1) }, q + 1))
            } else {
                None
            }
        } else {
            None
        }
    } else {
        None
    }
}

/// `comment = '#' (!'\n' ANY)*`
pub open spec fn comment_at(s: Seq<char>, i: int) -> Option<(ItemModel, int)> {
    if 0 <= i < s.len() && s[i] == '#' {
        Some((ItemModel::Comment { extent: extent(i, line_end(s, i)) }, line_end(s, i)))
    } else {
        None
    }
}

/// `flow_step = ident`
pub open spec fn flow_step_at(s: Seq<char>, i: int) -> Option<(ItemModel, int)> {
    match ident_at(s, i) {
        Some(e) => Some((ItemModel::FlowStep { extent: extent(i, e), name: extent(i, e) }, e)),
        None => None,
    }
}

/// The first alternative of `item` that matches at `i`.
pub open spec fn item_at(s: Seq<char>, i: int) -> Option<(ItemModel, int)> {
    if import_at(s, i) is Some {
        import_at(s, i)
    } else if definition_at(s, i, DefinitionKind::Constant, "constant"@) is Some {
        definition_at(s, i, DefinitionKind::Constant, "constant"@)
    } else if definition_at(s, i, DefinitionKind::Variable, "variable"@) is Some {
        definition_at(s, i, DefinitionKind::Variable, "variable"@)
    } else if definition_at(s, i, DefinitionKind::Error, "error"@) is Some {
        definition_at(s, i, DefinitionKind::Error, "error"@)
    } else if definition_at(s, i, DefinitionKind::Group, "group"@) is Some {
        definition_at(s, i, DefinitionKind::Group, "group"@)
    } else if function_at(s, i) is Some {
        function_at(s, i)
    } else if comment_at(s, i) is Some {
        comment_at(s, i)
    } else {
        flow_step_at(s, i)
    }
}

/// `(blank* item)* blank* EOF` from `i`: the items, or the position where no item matches.
pub open spec fn program_from(s: Seq<char>, i: int) -> Result<Seq<ItemModel>, int>
    decreases s.len() - i,
{
    let a = skip_blank(s, i);
    if i < 0 || a >= s.len() {
        Ok(Seq::empty())
    } else {
        match item_at(s, a) {
            Some((it, e)) => if i <= a < e <= s.len() {
                match program_from(s, e) {
                    Ok(rest) => Ok(seq![it] + rest),
                    Err(p) => Err(p),
                }
            } else {
                Err(a)
            },
            None => Err(a),
        }
    }
}

/// The parse of a whole source: its items, or the position of the first item that fails.
pub open spec fn parse_program(s: Seq<char>) -> Result<Seq<ItemModel>, int> {
    program_from(s, 0)
}


// --- Executable parser ---

fn token(s: &Vec<char>, i: usize, kws: &Keywords) -> (r: Option<(TokenNode, usize)>)
    requires
        i <= s@.len(),
        kws.wf(),
    ensures
        match r {
            Some((t, e)) => token_at(s@, i as int) == Some((t, e as int)) && i < e <= s@.len(),
            None => token_at(s@, i as int) is None,
        },
{
    if i < s.len() && s[i] == '[' {
        let a = scan_ws(s, i + 1);
        proof {
            lemma_scan_bounds(s@, i + 1);
        }
        match ident_end(s, a, kws) {
            Some(e) => {
                proof {
                    lemma_word_at(s@, a as int);
                }
                let b = scan_ws(s, e);
                proof {
                    lemma_scan_bounds(s@, e as int);
                }
                if b < s.len() && s[b] == ']' {
                    Some((TokenNode { extent: Extent { start: i, end: b + 1 }, name: Extent { start: a, end: e }, collection: true }, b + 1))
                } else {
                    None
                }
            },
            None => None,
        }
    } else {
        proof {
            lemma_word_at(s@, i as int);
        }
        match ident_end(s, i, kws) {
            Some(e) => Some((TokenNode { extent: Extent { start: i, end: e }, name: Extent { start: i, end: e }, collection: false }, e)),
            None => None,
        }
    }
}

fn token_list(s: &Vec<char>, i: usize, kws: &Keywords) -> (r: Option<(Vec<TokenNode>, usize)>)
    requires
        i <= s@.len(),
        kws.wf(),
    ensures
        match r {
            Some((ts, e)) => token_list_at(s@, i as int) == Some((ts@, e as int)) && i < e <= s@.len(),
            None => token_list_at(s@, i as int) is None,
        },
{
    match token(s, i, kws) {
        Some((t, e)) => {
            let mut ts: Vec<TokenNode> = Vec::new();
            ts.push(t);
            let mut j = e;
            let mut done = false;
            while !done
                invariant
                    e <= j <= s@.len(),
                    i < e,
                    kws.wf(),
                    ts@ + more_tokens(s@, j as int).0 == seq![t] + more_tokens(s@, e as int).0,
                    more_tokens(s@, j as int).1 == more_tokens(s@, e as int).1,
                    done ==> more_tokens(s@, j as int) == (Seq::<TokenNode>::empty(), j as int),
                decreases s@.len() - j + (if done { 0int } else { 1int }),
            {
                let a = scan_ws(s, j);
                proof {
                    lemma_scan_bounds(s@, j as int);
                }
                if a < s.len() && s[a] == ',' {
                    let b = scan_ws(s, a + 1);
                    proof {
                        lemma_scan_bounds(s@, a + 1);
                    }
                    match token(s, b, kws) {
                        Some((t2, e2)) => {
                            let ghost old_ts = ts@;
                            ts.push(t2);
                            assert(more_tokens(s@, j as int).0 == seq![t2] + more_tokens(s@, e2 as int).0);
                            assert(ts@ + more_tokens(s@, e2 as int).0 =~= old_ts + more_tokens(s@, j as int).0);
                            j = e2;
                        },
                        None => {
                            done = true;
                        },
                    }
                } else {
                    done = true;
                }
            }
            assert(ts@ =~= seq![t] + more_tokens(s@, e as int).0);
            Some((ts, j))
        },
        None => None,
    }
}

fn output_line(s: &Vec<char>, i: usize, kws: &Keywords) -> (r: Option<(OutputLine, usize)>)
    requires
        i <= s@.len(),
        kws.wf(),
    ensures
        match r {
            Some((l, e)) => output_line_at(s@, i as int) == Some((l@, e as int)) && i < e <= s@.len(),
            None => output_line_at(s@, i as int) is None,
        },
{
    let a = scan_blank(s, i);
    proof {
        lemma_scan_bounds(s@, i as int);
    }
    if a < s.len() && (s[a] == '>' || s[a] == '|') {
        let alternative = s[a] == '|';
        let b = scan_ws(s, a + 1);
        proof {
            lemma_scan_bounds(s@, a + 1);
        }
        match token_list(s, b, kws) {
            Some((tokens, e)) => Some((OutputLine { extent: Extent { start: a, end: e }, alternative, tokens }, e)),
            None => None,
        }
    } else {
        None
    }
}

fn outputs(s: &Vec<char>, i: usize, kws: &Keywords) -> (r: (Vec<OutputLine>, usize))
    requires
        i <= s@.len(),
        kws.wf(),
    ensures
        outputs_at(s@, i as int) == (output_views(r.0@), r.1 as int),
        i <= r.1 <= s@.len(),
{
    let mut lines: Vec<OutputLine> = Vec::new();
    let mut j = i;
    let mut done = false;
    while !done
        invariant
            i <= j <= s@.len(),
            kws.wf(),
            output_views(lines@) + outputs_at(s@, j as int).0 == outputs_at(s@, i as int).0,
            outputs_at(s@, j as int).1 == outputs_at(s@, i as int).1,
            done ==> outputs_at(s@, j as int) == (Seq::<OutputLineModel>::empty(), j as int),
        decreases s@.len() - j + (if done { 0int } else { 1int }),
    {
        match output_line(s, j, kws) {
            Some((l, e)) => {
                let ghost old_lines = output_views(lines@);
                let ghost lv = l@;
                lines.push(l);
                assert(output_views(lines@) =~= old_lines.push(lv));
                assert(outputs_at(s@, j as int).0 == seq![lv] + outputs_at(s@, e as int).0);
                assert(output_views(lines@) + outputs_at(s@, e as int).0 =~= old_lines + outputs_at(s@, j as int).0);
                j = e;
            },
            None => {
                done = true;
            },
        }
    }
    assert(output_views(lines@) =~= outputs_at(s@, i as int).0);
    (lines, j)
}

fn doc_lines(s: &Vec<char>, i: usize) -> (r: (Vec<Extent>, usize))
    requires
        i <= s@.len(),
    ensures
        doc_lines_at(s@, i as int) == (r.0@, r.1 as int),
        i <= r.1 <= s@.len(),
{
    let mut docs: Vec<Extent> = Vec::new();
    let mut j = i;
    let mut done = false;
    while !done
        invariant
            i <= j <= s@.len(),
            docs@ + doc_lines_at(s@, j as int).0 == doc_lines_at(s@, i as int).0,
            doc_lines_at(s@, j as int).1 == doc_lines_at(s@, i as int).1,
            done ==> doc_lines_at(s@, j as int) == (Seq::<Extent>::empty(), j as int),
        decreases s@.len() - j + (if done { 0int } else { 1int }),
    {
        if j < s.len() && s[j] == '#' {
            let e = scan_line(s, j);
            proof {
                lemma_scan_bounds(s@, j as int);
            }
            if e < s.len() {
                let next = scan_ws(s, e + 1);
                proof {
                    lemma_scan_bounds(s@, e + 1);
                }
                let ghost old_docs = docs@;
                docs.push(Extent { start: j, end: e });
                assert(docs@ + doc_lines_at(s@, next as int).0 =~= old_docs + doc_lines_at(s@, j as int).0);
                j = next;
            } else {
                done = true;
            }
        } else {
            done = true;
        }
    }
    assert(docs@ =~= doc_lines_at(s@, i as int).0);
    (docs, j)
}

fn definition(s: &Vec<char>, i: usize, kind: DefinitionKind, kw: &Vec<char>, kws: &Keywords) -> (r: Option<(Item, usize)>)
    requires
        i <= s@.len(),
        kws.wf(),
    ensures
        match r {
            Some((it, e)) => definition_at(s@, i as int, kind, kw@) == Some((it@, e as int)) && i < e <= s@.len(),
            None => definition_at(s@, i as int, kind, kw@) is None,
        },
{
    let (docs, a) = doc_lines(s, i);
    match keyword_end(s, a, kw) {
        Some(k) => {
            proof {
                lemma_word_at(s@, a as int);
            }
            assert(k == a + kw@.len());
            let c = scan_ws(s, k);
            proof {
                lemma_scan_bounds(s@, k as int);
            }
            if c > k {
                match ident_end(s, c, kws) {
                    Some(e) => {
                        proof {
                            lemma_word_at(s@, c as int);
                        }
                        Some((Item::Definition { extent: Extent { start: i, end: e }, kind, docs, keyword: Extent { start: a, end: k }, name: Extent { start: c, end: e } }, e))
                    },
                    None => None,
                }
            } else {
                None
            }
        },
        None => None,
    }
}

fn function(s: &Vec<char>, i: usize, kws: &Keywords) -> (r: Option<(Item, usize)>)
    requires
        i <= s@.len(),
        kws.wf(),
    ensures
        match r {
            Some((it, e)) => function_at(s@, i as int) == Some((it@, e as int)) && i < e <= s@.len(),
            None => function_at(s@, i as int) is None,
        },
{
    let (docs, a) = doc_lines(s, i);
    proof {
        lemma_word_at(s@, a as int);
    }
    let (group, b) = match ident_end(s, a, kws) {
        Some(e) => {
            let w = scan_ws(s, e);
            proof {
                lemma_scan_bounds(s@, e as int);
            }
            if w > e {
                (Some(Extent { start: a, end: e }), w)
            } else {
                (None, a)
            }
        },
        None => (None, a),
    };
    assert(group_prefix_at(s@, a as int) == (group, b as int));
    match keyword_end(s, b, &kws.function) {
        Some(k) => {
            proof {
                lemma_word_at(s@, b as int);
            }
            let c = scan_ws(s, k);
            proof {
                lemma_scan_bounds(s@, k as int);
            }
            if c > k {
                match ident_end(s, c, kws) {
                    Some(ne) => {
                        proof {
                            lemma_word_at(s@, c as int);
                        }
                        let w = scan_ws(s, ne);
                        proof {
                            lemma_scan_bounds(s@, ne as int);
                        }
                        let (inputs, d) = if w > ne {
                            match token_list(s, w, kws) {
                                Some((ts, e)) => (ts, e),
                                None => (Vec::new(), ne),
                            }
                        } else {
                            (Vec::new(), ne)
                        };
                        assert(inputs_at(s@, ne as int) == (inputs@, d as int));
                        let (outs, f) = outputs(s, d, kws);
                        Some((Item::Function { extent: Extent { start: i, end: f }, docs, group, keyword: Extent { start: b, end: k }, name: Extent { start: c, end: ne }, inputs, outputs: outs }, f))
                    },
                    None => None,
                }
            } else {
                None
            }
        },
        None => None,
    }
}

fn import(s: &Vec<char>, i: usize, kws: &Keywords) -> (r: Option<(Item, usize)>)
    requires
        i <= s@.len(),
        kws.wf(),
    ensures
        match r {
            Some((it, e)) => import_at(s@, i as int) == Some((it@, e as int)) && i < e <= s@.len(),
            None => import_at(s@, i as int) is None,
        },
{
    match keyword_end(s, i, &kws.import) {
        Some(k) => {
            proof {
                lemma_word_at(s@, i as int);
            }
            let c = scan_ws(s, k);
            proof {
                lemma_scan_bounds(s@, k as int);
            }
            if c > k && c < s.len() && s[c] == '"' {
                let q = scan_string(s, c + 1);
                proof {
                    lemma_scan_bounds(s@, c + 1);
                }
                if q < s.len() && s[q] == '"' {
                    Some((Item::Import { extent: Extent { start: i, end: q + 1 }, keyword: Extent { start: i, end: k }, path: Extent { start: c, end: q + 1 } }, q + 1))
                } else {
                    None
                }
            } else {
                None
            }
        },
        None => None,
    }
}

fn item(s: &Vec<char>, i: usize, kws: &Keywords) -> (r: Option<(Item, usize)>)
    requires
        i <= s@.len(),
        kws.wf(),
    ensures
        match r {
            Some((it, e)) => item_at(s@, i as int) == Some((it@, e as int)) && i < e <= s@.len(),
            None => item_at(s@, i as int) is None,
        },
{
    if let Some(r) = import(s, i, kws) {
        return Some(r);
    }
    if let Some(r) = definition(s, i, DefinitionKind::Constant, &kws.constant, kws) {
        return Some(r);
    }
    if let Some(r) = definition(s, i, DefinitionKind::Variable, &kws.variable, kws) {
        return Some(r);
    }
    if let Some(r) = definition(s, i, DefinitionKind::Error, &kws.error, kws) {
        return Some(r);
    }
    if let Some(r) = definition(s, i, DefinitionKind::Group, &kws.group, kws) {
        return Some(r);
    }
    if let Some(r) = function(s, i, kws) {
        return Some(r);
    }
    if i < s.len() && s[i] == '#' {
        let e = scan_line(s, i);
        proof {
            lemma_scan_bounds(s@, i as int);
        }
        return Some((Item::Comment { extent: Extent { start: i, end: e } }, e));
    }
    proof {
        lemma_word_at(s@, i as int);
    }
    match ident_end(s, i, kws) {
        Some(e) => Some((Item::FlowStep { extent: Extent { start: i, end: e }, name: Extent { start: i, end: e } }, e)),
        None => None,
    }
}

/// A syntax error: where no item could be read.
#[derive(Debug, Clone, Copy, PartialEq, Eq, Structural)]
pub struct SyntaxError {
    pub position: usize,
}

/// Parses a whole source given as characters.
pub fn parse_chars(s: &Vec<char>) -> (r: Result<Vec<Item>, SyntaxError>)
    ensures
        match r {
            Ok(items) => parse_program(s@) == Ok::<Seq<ItemModel>, int>(item_views(items@))
                && items_within(item_views(items@), s@.len()),
            Err(e) => parse_program(s@) == Err::<Seq<ItemModel>, int>(e.position as int),
        },
{
    let n = s.len();
    let kws = Keywords::new();
    let mut items: Vec<Item> = Vec::new();
    let mut j: usize = 0;
    loop
        invariant
            j <= s@.len(),
            s@.len() == n,
            kws.wf(),
            program_from(s@, 0) == (match program_from(s@, j as int) {
                Ok(rest) => Ok(item_views(items@) + rest),
                Err(p) => Err(p),
            }),
        decreases s@.len() - j,
    {
        let a = scan_blank(s, j);
        proof {
            lemma_scan_bounds(s@, j as int);
        }
        if a >= s.len() {
            assert(item_views(items@) + Seq::<ItemModel>::empty() =~= item_views(items@));
            proof {
                lemma_program_within(s@, 0);
            }
            return Ok(items);
        }
        match item(s, a, &kws) {
            Some((it, e)) => {
                let ghost old_items = item_views(items@);
                let ghost iv = it@;
                items.push(it);
                assert(item_views(items@) =~= old_items.push(iv));
                proof {
                    match program_from(s@, e as int) {
                        Ok(rest) => {
                            assert(old_items + (seq![iv] + rest) =~= item_views(items@) + rest);
                        },
                        Err(p) => {},
                    }
                }
                j = e;
            },
            None => {
                return Err(SyntaxError { position: a });
            },
        }
    }
}

/// The parser of Tect sources.
pub struct TectParser;

/// The grammar rules that a parse can start from.
#[allow(non_camel_case_types)]
#[derive(Debug, Clone, Copy, PartialEq, Eq, Structural)]
pub enum Rule {
    program,
}

impl TectParser {
    /// Parses `input` as a whole program.
    pub fn parse(rule: Rule, input: &str) -> (r: Result<Vec<Item>, SyntaxError>)
        ensures
            match r {
                Ok(items) => parse_program(input@) == Ok::<Seq<ItemModel>, int>(item_views(items@))
                    && items_within(item_views(items@), input@.len()),
                Err(e) => parse_program(input@) == Err::<Seq<ItemModel>, int>(e.position as int),
            },
    {
        match rule {
            Rule::program => {
                let chars = chars_of(input);
                parse_chars(&chars)
            },
        }
    }
}


// --- Well-formedness of parses ---

pub open spec fn extent_within(e: Extent, n: nat) -> bool {
    e.start <= e.end <= n
}

pub open spec fn token_within(t: TokenNode, n: nat) -> bool {
    extent_within(t.extent, n) && extent_within(t.name, n)
}

pub open spec fn tokens_within(ts: Seq<TokenNode>, n: nat) -> bool {
    forall|k: int| 0 <= k < ts.len() ==> token_within(#[trigger] ts[k], n)
}

pub open spec fn extents_within(es: Seq<Extent>, n: nat) -> bool {
    forall|k: int| 0 <= k < es.len() ==> extent_within(#[trigger] es[k], n)
}

pub open spec fn output_within(l: OutputLineModel, n: nat) -> bool {
    extent_within(l.extent, n) && tokens_within(l.tokens, n)
}

pub open spec fn outputs_within(ls: Seq<OutputLineModel>, n: nat) -> bool {
    forall|k: int| 0 <= k < ls.len() ==> output_within(#[trigger] ls[k], n)
}

impl ItemModel {
    pub open spec fn extent(self) -> Extent {
        match self {
            ItemModel::Import { extent, .. } => extent,
            ItemModel::Definition { extent, .. } => extent,
            ItemModel::Function { extent, .. } => extent,
            ItemModel::Comment { extent } => extent,
            ItemModel::FlowStep { extent, .. } => extent,
        }
    }

    /// Every extent of the item lies within a source of length `n`.
    pub open spec fn within(self, n: nat) -> bool {
        extent_within(self.extent(), n) && match self {
            ItemModel::Import { extent, keyword, path } => extent_within(keyword, n) && extent_within(path, n)
                && path.start + 2 <= path.end,
            ItemModel::Definition { extent, kind, docs, keyword, name } => extents_within(docs, n)
                && extent_within(keyword, n) && extent_within(name, n),
            ItemModel::Function { extent, docs, group, keyword, name, inputs, outputs } => {
                &&& extents_within(docs, n)
                &&& (group matches Some(g) ==> extent_within(g, n))
                &&& extent_within(keyword, n)
                &&& extent_within(name, n)
                &&& tokens_within(inputs, n)
                &&& outputs_within(outputs, n)
            },
            ItemModel::Comment { extent } => true,
            ItemModel::FlowStep { extent, name } => extent_within(name, n),
        }
    }
}

/// The items lie within the source, in order and without overlap.
pub open spec fn items_within(items: Seq<ItemModel>, n: nat) -> bool {
    &&& forall|k: int| 0 <= k < items.len() ==> (#[trigger] items[k]).within(n)
    &&& forall|k: int| 0 <= k < items.len() - 1 ==> (#[trigger] items[k]).extent().end <= items[k + 1].extent().start
}

pub proof fn lemma_token_within(s: Seq<char>, i: int)
    requires
        0 <= i <= s.len(),
        s.len() <= usize::MAX,
    ensures
        token_at(s, i) matches Some((t, e)) ==> token_within(t, s.len()) && i < e <= s.len()
            && t.extent.start == i && t.extent.end == e,
{
    if 0 <= i < s.len() && s[i] == '[' {
        lemma_scan_bounds(s, i + 1);
        let a = skip_ws(s, i + 1);
        lemma_word_at(s, a);
        if let Some(e) = ident_at(s, a) {
            lemma_scan_bounds(s, e);
        }
    } else {
        lemma_word_at(s, i);
    }
}

pub proof fn lemma_more_tokens_within(s: Seq<char>, j: int)
    requires
        0 <= j <= s.len(),
        s.len() <= usize::MAX,
    ensures
        tokens_within(more_tokens(s, j).0, s.len()),
        j <= more_tokens(s, j).1 <= s.len(),
    decreases s.len() - j,
{
    let a = skip_ws(s, j);
    lemma_scan_bounds(s, j);
    if a < s.len() && s[a] == ',' {
        lemma_scan_bounds(s, a + 1);
        let b = skip_ws(s, a + 1);
        lemma_token_within(s, b);
        if let Some((t, e)) = token_at(s, b) {
            if j < e <= s.len() {
                lemma_more_tokens_within(s, e);
                let r = more_tokens(s, e);
                assert forall|k: int| 0 <= k < (seq![t] + r.0).len() implies token_within(#[trigger] (seq![t] + r.0)[k], s.len()) by {
                    if k > 0 {
                        assert((seq![t] + r.0)[k] == r.0[k - 1]);
                    }
                }
            }
        }
    }
}

pub proof fn lemma_token_list_within(s: Seq<char>, i: int)
    requires
        0 <= i <= s.len(),
        s.len() <= usize::MAX,
    ensures
        token_list_at(s, i) matches Some((ts, e)) ==> tokens_within(ts, s.len()) && i < e <= s.len(),
{
    lemma_token_within(s, i);
    if let Some((t, e)) = token_at(s, i) {
        lemma_more_tokens_within(s, e);
        let r = more_tokens(s, e);
        assert forall|k: int| 0 <= k < (seq![t] + r.0).len() implies token_within(#[trigger] (seq![t] + r.0)[k], s.len()) by {
            if k > 0 {
                assert((seq![t] + r.0)[k] == r.0[k - 1]);
            }
        }
    }
}

pub proof fn lemma_outputs_within(s: Seq<char>, i: int)
    requires
        0 <= i <= s.len(),
        s.len() <= usize::MAX,
    ensures
        outputs_within(outputs_at(s, i).0, s.len()),
        i <= outputs_at(s, i).1 <= s.len(),
    decreases s.len() - i,
{
    lemma_scan_bounds(s, i);
    let a = skip_blank(s, i);
    if 0 <= a < s.len() && (s[a] == '>' || s[a] == '|') {
        lemma_scan_bounds(s, a + 1);
        lemma_token_list_within(s, skip_ws(s, a + 1));
    }
    if let Some((l, e)) = output_line_at(s, i) {
        if 0 <= i < e <= s.len() {
            lemma_outputs_within(s, e);
            let r = outputs_at(s, e);
            assert forall|k: int| 0 <= k < (seq![l] + r.0).len() implies output_within(#[trigger] (seq![l] + r.0)[k], s.len()) by {
                if k > 0 {
                    assert((seq![l] + r.0)[k] == r.0[k - 1]);
                }
            }
        }
    }
}

pub proof fn lemma_doc_lines_within(s: Seq<char>, i: int)
    requires
        0 <= i <= s.len(),
        s.len() <= usize::MAX,
    ensures
        extents_within(doc_lines_at(s, i).0, s.len()),
        i <= doc_lines_at(s, i).1 <= s.len(),
    decreases s.len() - i,
{
    if 0 <= i < s.len() && s[i] == '#' {
        lemma_scan_bounds(s, i);
        let e = line_end(s, i);
        if e < s.len() {
            lemma_scan_bounds(s, e + 1);
        }
    }
    if let Some((d, e)) = doc_line_at(s, i) {
        if 0 <= i < e <= s.len() {
            lemma_doc_lines_within(s, e);
            let r = doc_lines_at(s, e);
            assert forall|k: int| 0 <= k < (seq![d] + r.0).len() implies extent_within(#[trigger] (seq![d] + r.0)[k], s.len()) by {
                if k > 0 {
                    assert((seq![d] + r.0)[k] == r.0[k - 1]);
                }
            }
        }
    }
}

pub proof fn lemma_import_within(s: Seq<char>, i: int)
    requires
        0 <= i <= s.len(),
        s.len() <= usize::MAX,
    ensures
        import_at(s, i) matches Some((it, e)) ==> it.within(s.len()) && it.extent() == extent(i, e) && i < e
            <= s.len(),
{
    lemma_word_at(s, i);
    if keyword_at(s, i, "import"@) {
        let k = i + "import"@.len();
        lemma_scan_bounds(s, k);
        let c = skip_ws(s, k);
        if c < s.len() {
            lemma_scan_bounds(s, c + 1);
        }
    }
}

pub proof fn lemma_definition_within(s: Seq<char>, i: int, kind: DefinitionKind, kw: Seq<char>)
    requires
        0 <= i <= s.len(),
        s.len() <= usize::MAX,
    ensures
        definition_at(s, i, kind, kw) matches Some((it, e)) ==> it.within(s.len()) && it.extent() == extent(i, e)
            && i < e <= s.len(),
{
    lemma_doc_lines_within(s, i);
    let d = doc_lines_at(s, i);
    lemma_word_at(s, d.1);
    if keyword_at(s, d.1, kw) {
        lemma_scan_bounds(s, d.1 + kw.len());
        lemma_word_at(s, skip_ws(s, d.1 + kw.len()));
    }
}

pub proof fn lemma_function_within(s: Seq<char>, i: int)
    requires
        0 <= i <= s.len(),
        s.len() <= usize::MAX,
    ensures
        function_at(s, i) matches Some((it, e)) ==> it.within(s.len()) && it.extent() == extent(i, e) && i < e
            <= s.len(),
{
    lemma_doc_lines_within(s, i);
    let d = doc_lines_at(s, i);
    lemma_word_at(s, d.1);
    if let Some(e) = ident_at(s, d.1) {
        lemma_scan_bounds(s, e);
    }
    let g = group_prefix_at(s, d.1);
    lemma_word_at(s, g.1);
    if keyword_at(s, g.1, "function"@) {
        let k = g.1 + "function"@.len();
        lemma_scan_bounds(s, k);
        let c = skip_ws(s, k);
        lemma_word_at(s, c);
        if let Some(ne) = ident_at(s, c) {
            lemma_scan_bounds(s, ne);
            lemma_token_list_within(s, skip_ws(s, ne));
            let inp = inputs_at(s, ne);
            lemma_outputs_within(s, inp.1);
        }
    }
}

pub proof fn lemma_item_within(s: Seq<char>, i: int)
    requires
        0 <= i <= s.len(),
        s.len() <= usize::MAX,
    ensures
        item_at(s, i) matches Some((it, e)) ==> it.within(s.len()) && it.extent() == extent(i, e) && i < e
            <= s.len(),
{
    lemma_word_at(s, i);
    lemma_scan_bounds(s, i);
    lemma_import_within(s, i);
    lemma_definition_within(s, i, DefinitionKind::Constant, "constant"@);
    lemma_definition_within(s, i, DefinitionKind::Variable, "variable"@);
    lemma_definition_within(s, i, DefinitionKind::Error, "error"@);
    lemma_definition_within(s, i, DefinitionKind::Group, "group"@);
    lemma_function_within(s, i);
}

pub proof fn lemma_program_within(s: Seq<char>, i: int)
    requires
        0 <= i <= s.len(),
        s.len() <= usize::MAX,
    ensures
        program_from(s, i) matches Ok(items) ==> items_within(items, s.len()) && (items.len() > 0 ==> i
            <= items[0].extent().start),
    decreases s.len() - i,
{
    lemma_scan_bounds(s, i);
    let a = skip_blank(s, i);
    if a < s.len() {
        lemma_item_within(s, a);
        if let Some((it, e)) = item_at(s, a) {
            if i <= a < e <= s.len() {
                lemma_program_within(s, e);
                if let Ok(rest) = program_from(s, e) {
                    let all = seq![it] + rest;
                    assert forall|k: int| 0 <= k < all.len() implies (#[trigger] all[k]).within(s.len()) by {
                        if k > 0 {
                            assert(all[k] == rest[k - 1]);
                        }
                    }
                    assert forall|k: int| 0 <= k < all.len() - 1 implies (#[trigger] all[k]).extent().end <= all[k
                        + 1].extent().start by {
                        if k > 0 {
                            assert(all[k] == rest[k - 1]);
                            assert(all[k + 1] == rest[k]);
                        } else {
                            assert(all[1] == rest[0]);
                        }
                    }
                }
            }
        }
    }
}

} // verus!
