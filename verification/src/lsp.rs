//! The language server's logic: what hovering, navigation, symbols, hints,
//! completion and diagnostics answer, computed from the analyzed workspace.
//! The protocol itself is served by the application.

use vstd::prelude::*;
use crate::models::{
    Cardinality, Function, FunctionModel, Kind, ProgramStructure, StructureModel, SymbolMetadata, Token,
    TokenModel, ArtifactClass,
};
use crate::source_manager::{Position, Range};
use crate::text::{join, lemma_join_push, str_eq, utf8_len, utf8_width};

verus! {

/// A token as a signature shows it: `Name` or `[Name]`.
pub open spec fn token_label(t: TokenModel) -> Seq<char> {
    match t.cardinality {
        Cardinality::Collection => "["@ + t.kind.name + "]"@,
        Cardinality::Unitary => t.kind.name,
    }
}

pub open spec fn tokens_label(ts: Seq<TokenModel>) -> Seq<char> {
    join(ts.map_values(|t: TokenModel| token_label(t)), ", "@)
}

/// A signature: `inputs -> outputs`, branches separated by ` | `, and `()`
/// for an empty side.
pub open spec fn signature_label(f: FunctionModel) -> Seq<char> {
    let inputs = tokens_label(f.consumes);
    let outputs = join(f.produces.map_values(|b: Seq<TokenModel>| tokens_label(b)), " | "@);
    (if inputs.len() == 0 { "()"@ } else { inputs }) + " -> "@ + (if outputs.len() == 0 { "()"@ } else { outputs })
}

/// Formats a token: `Name`, or `[Name]` for a collection.
pub fn format_token(t: &Token) -> (r: String)
    ensures
        r@ == token_label(t.model()),
{
    match t.cardinality {
        Cardinality::Collection => {
            let mut s = String::from_str("[");
            s.append(t.kind.name());
            s.append("]");
            s
        },
        Cardinality::Unitary => String::from_str(t.kind.name()),
    }
}

fn format_tokens(ts: &Vec<Token>) -> (r: String)
    ensures
        r@ == tokens_label(crate::models::token_models(ts@)),
{
    let ghost parts = crate::models::token_models(ts@).map_values(|t: TokenModel| token_label(t));
    let mut out = String::new();
    let mut i: usize = 0;
    while i < ts.len()
        invariant
            0 <= i <= ts@.len(),
            parts == crate::models::token_models(ts@).map_values(|t: TokenModel| token_label(t)),
            out@ == join(parts.take(i as int), ", "@),
        decreases ts@.len() - i,
    {
        let piece = format_token(&ts[i]);
        if i > 0 {
            out.append(", ");
        }
        out.append(piece.as_str());
        proof {
            assert(parts[i as int] == token_label(ts@[i as int].model()));
            lemma_join_push(parts.take(i as int), parts[i as int], ", "@);
            assert(parts.take(i + 1) =~= parts.take(i as int).push(parts[i as int]));
        }
        i = i + 1;
    }
    assert(parts.take(i as int) =~= parts);
    out
}

/// Formats the signature of a function: `inputs -> outputs`.
pub fn format_signature(f: &Function) -> (r: String)
    ensures
        r@ == signature_label(f.model()),
{
    let mut inputs = format_tokens(&f.consumes);
    let ghost fm = f.model();
    let ghost parts = fm.produces.map_values(|b: Seq<TokenModel>| tokens_label(b));
    let mut outputs = String::new();
    let mut i: usize = 0;
    while i < f.produces.len()
        invariant
            0 <= i <= f.produces@.len(),
            fm == f.model(),
            parts == fm.produces.map_values(|b: Seq<TokenModel>| tokens_label(b)),
            outputs@ == join(parts.take(i as int), " | "@),
        decreases f.produces@.len() - i,
    {
        let piece = format_tokens(&f.produces[i]);
        if i > 0 {
            outputs.append(" | ");
        }
        outputs.append(piece.as_str());
        proof {
            assert(fm.produces[i as int] == crate::models::token_models(f.produces@[i as int]@));
            assert(parts[i as int] == tokens_label(fm.produces[i as int]));
            lemma_join_push(parts.take(i as int), parts[i as int], " | "@);
            assert(parts.take(i + 1) =~= parts.take(i as int).push(parts[i as int]));
        }
        i = i + 1;
    }
    assert(parts.take(i as int) =~= parts);
    if inputs.as_str().is_empty() {
        inputs = String::from_str("()");
    }
    if outputs.as_str().is_empty() {
        outputs = String::from_str("()");
    }
    let mut r = inputs;
    r.append(" -> ");
    r.append(outputs.as_str());
    r
}

/// The metadata of the symbol named `word`: an artifact, else a function,
/// else a group.
pub open spec fn meta_of(m: StructureModel, word: Seq<char>) -> Option<crate::models::SymbolModel> {
    let uid = if m.artifacts.contains_key(word) {
        Some(m.artifacts[word].uid)
    } else if m.catalog.contains_key(word) {
        Some(m.catalog[word].uid)
    } else if m.groups.contains_key(word) {
        Some(m.groups[word].uid)
    } else {
        None
    };
    match uid {
        Some(u) => if m.symbols.contains_key(u) {
            Some(m.symbols[u])
        } else {
            None
        },
        None => None,
    }
}

/// Finds the metadata of the symbol named `word`.
pub fn find_meta<'a>(word: &str, structure: &'a ProgramStructure) -> (r: Option<&'a SymbolMetadata>)
    ensures
        match r {
            Some(meta) => meta_of(structure@, word@) == Some(meta.model()),
            None => meta_of(structure@, word@) is None,
        },
{
    let uid = if let Some(kind) = structure.artifacts.get(word) {
        kind.uid()
    } else if let Some(f) = structure.catalog.get(word) {
        f.uid
    } else if let Some(g) = structure.groups.get(word) {
        g.uid
    } else {
        return None;
    };
    structure.symbol_table.get(&uid)
}

/// The documentation of a keyword.
pub open spec fn keyword_doc_spec(word: Seq<char>) -> Option<Seq<char>> {
    if word == "constant"@ {
        Some("Defines an immutable global architectural artifact."@)
    } else if word == "variable"@ {
        Some("Defines a mutable or stateful architectural artifact."@)
    } else if word == "error"@ {
        Some("Defines an architectural error state or exception branch."@)
    } else if word == "group"@ {
        Some("Organizes functions into logical architectural layers or modules."@)
    } else if word == "function"@ {
        Some("Defines an architectural contract with specific inputs and result branches."@)
    } else if word == "import"@ {
        Some("Imports definitions from another Tect file."@)
    } else {
        None
    }
}

/// The documentation shown when hovering a keyword.
pub fn keyword_doc(word: &str) -> (r: Option<&'static str>)
    ensures
        match r {
            Some(d) => keyword_doc_spec(word@) == Some(d@),
            None => keyword_doc_spec(word@) is None,
        },
{
    if str_eq(word, "constant") {
        Some("Defines an immutable global architectural artifact.")
    } else if str_eq(word, "variable") {
        Some("Defines a mutable or stateful architectural artifact.")
    } else if str_eq(word, "error") {
        Some("Defines an architectural error state or exception branch.")
    } else if str_eq(word, "group") {
        Some("Organizes functions into logical architectural layers or modules.")
    } else if str_eq(word, "function") {
        Some("Defines an architectural contract with specific inputs and result branches.")
    } else if str_eq(word, "import") {
        Some("Imports definitions from another Tect file.")
    } else {
        None
    }
}

pub open spec fn class_label(c: ArtifactClass) -> Seq<char> {
    match c {
        ArtifactClass::Constant => "Constant"@,
        ArtifactClass::Variable => "Variable"@,
        ArtifactClass::Error => "Error"@,
    }
}

pub open spec fn docs_or(d: Option<Seq<char>>, default: Seq<char>) -> Seq<char> {
    match d {
        Some(t) => t,
        None => default,
    }
}

/// The Markdown shown when hovering a word: a keyword's documentation, or
/// the kind, signature, group and documentation of the symbol it names.
pub open spec fn hover_text(m: StructureModel, word: Seq<char>) -> Option<Seq<char>> {
    match keyword_doc_spec(word) {
        Some(doc) => Some("### Keyword: `"@ + word + "`\n\n---\n\n"@ + doc),
        None => if m.artifacts.contains_key(word) {
            let k = m.artifacts[word];
            Some("### "@ + class_label(k.class) + ": `"@ + word + "`\n\n---\n\n"@ + docs_or(k.docs, "*No documentation.*"@))
        } else if m.catalog.contains_key(word) {
            let f = m.catalog[word];
            let group = match f.group {
                Some(g) => "**Group**: `"@ + g.name + "`\n\n"@,
                None => Seq::empty(),
            };
            let signature = "**Signature**: `"@ + signature_label(f) + "`\n\n"@;
            Some("### Function: `"@ + word + "`\n\n"@ + group + signature + "---\n\n"@ + docs_or(f.docs, "*No documentation.*"@))
        } else if m.groups.contains_key(word) {
            Some("### Group: `"@ + word + "`\n\n---\n\n"@ + docs_or(m.groups[word].docs, "*Architectural group.*"@))
        } else {
            None
        },
    }
}

/// The Markdown for hovering `word`, if it is a keyword or names a symbol.
pub fn hover_markdown(structure: &ProgramStructure, word: &str) -> (r: Option<String>)
    ensures
        match r {
            Some(t) => hover_text(structure@, word@) == Some(t@),
            None => hover_text(structure@, word@) is None,
        },
{
    if let Some(doc) = keyword_doc(word) {
        let mut s = String::from_str("### Keyword: `");
        s.append(word);
        s.append("`\n\n---\n\n");
        s.append(doc);
        return Some(s);
    }
    if let Some(kind) = structure.artifacts.get(word) {
        let mut s = String::from_str("### ");
        match kind {
            Kind::Constant(_) => s.append("Constant"),
            Kind::Variable(_) => s.append("Variable"),
            Kind::Error(_) => s.append("Error"),
        }
        s.append(": `");
        s.append(word);
        s.append("`\n\n---\n\n");
        match kind.docs() {
            Some(d) => s.append(d),
            None => s.append("*No documentation.*"),
        }
        return Some(s);
    }
    if let Some(f) = structure.catalog.get(word) {
        let ghost fm = f.model();
        let mut s = String::from_str("### Function: `");
        s.append(word);
        s.append("`\n\n");
        match &f.group {
            Some(g) => {
                s.append("**Group**: `");
                s.append(g.name.as_str());
                s.append("`\n\n");
            },
            None => {},
        }
        s.append("**Signature**: `");
        let sig = format_signature(f);
        s.append(sig.as_str());
        s.append("`\n\n");
        s.append("---\n\n");
        match &f.documentation {
            Some(d) => s.append(d.as_str()),
            None => s.append("*No documentation.*"),
        }
        return Some(s);
    }
    if let Some(g) = structure.groups.get(word) {
        let mut s = String::from_str("### Group: `");
        s.append(word);
        s.append("`\n\n---\n\n");
        match &g.documentation {
            Some(d) => s.append(d.as_str()),
            None => s.append("*Architectural group.*"),
        }
        return Some(s);
    }
    None
}

/// The kind of an outline symbol.
#[derive(Debug, Clone, Copy, PartialEq, Eq, Structural)]
pub enum SymbolKind {
    Struct,
    Function,
    Namespace,
}

/// A symbol of the document outline.
#[derive(Debug)]
pub struct DocumentSymbol {
    pub name: String,
    pub kind: SymbolKind,
    pub range: Range,
    pub selection_range: Range,
}

/// An outline symbol whose range and selection are both `range`.
pub fn make_symbol(name: &str, kind: SymbolKind, range: Range) -> (s: DocumentSymbol)
    ensures
        s.name@ == name@,
        s.kind == kind,
        s.range == range,
        s.selection_range == range,
{
    DocumentSymbol { name: String::from_str(name), kind, range, selection_range: range }
}

} // verus!

verus! {

// --- Lines and offsets ---

/// The bounds of line `k` counted from the line that starts at `start`, as
/// `str::lines` splits a text: at each `\n`, dropping a `\r` before it; a
/// text that ends with a newline has no empty last line.
pub open spec fn line_bounds(s: Seq<char>, start: int, k: nat) -> Option<(int, int)>
    decreases k,
{
    if start < 0 || start >= s.len() {
        None
    } else {
        let e = crate::parser::line_end(s, start);
        let content_end = if e < s.len() && e > start && s[e - 1] == '\r' {
            e - 1
        } else {
            e
        };
        if k == 0 {
            Some((start, content_end))
        } else {
            line_bounds(s, e + 1, (k - 1) as nat)
        }
    }
}

/// Line `k` of a text.
pub open spec fn nth_line(s: Seq<char>, k: nat) -> Option<Seq<char>> {
    match line_bounds(s, 0, k) {
        Some((a, b)) => Some(s.subrange(a, b)),
        None => None,
    }
}

/// The byte offset reached by walking the characters of `line` from `i`
/// while fewer than `target` UTF-16 units (`u16` so far) lie behind.
pub open spec fn walk_bytes(line: Seq<char>, i: int, u16: nat, target: nat) -> nat
    decreases line.len() - i,
{
    if i < 0 || i >= line.len() || u16 >= target {
        0
    } else {
        utf8_width(line[i]) + walk_bytes(line, i + 1, u16 + crate::source_manager::utf16_width(line[i]), target)
    }
}

/// The number of characters that lie entirely within the first `b` bytes.
pub open spec fn chars_within(line: Seq<char>, i: int, bytes: nat, b: nat) -> int
    decreases line.len() - i,
{
    if i < 0 || i >= line.len() || bytes + utf8_width(line[i]) > b {
        i
    } else {
        chars_within(line, i + 1, bytes + utf8_width(line[i]), b)
    }
}

/// The UTF-16 length of the text before byte offset `b`.
pub open spec fn utf16_before(line: Seq<char>, b: nat) -> nat {
    crate::source_manager::utf16_len(line.subrange(0, chars_within(line, 0, 0, b)))
}

// --- Outside calls ---

/// An ASCII letter, digit or underscore.
pub open spec fn is_word_ascii(c: char) -> bool {
    ('a' <= c && c <= 'z') || ('A' <= c && c <= 'Z') || ('0' <= c && c <= '9') || c == '_'
}

/// The match of the run that started at character `si`, byte `sb`, ending
/// at character `i`, byte `b`, if a run is open.
pub open spec fn closed_run(line: Seq<char>, cur: Option<(int, nat)>, i: int, b: nat) -> Seq<(usize, usize, Seq<char>)> {
    match cur {
        Some((si, sb)) => seq![(sb as usize, b as usize, line.subrange(si, i))],
        None => Seq::empty(),
    }
}

/// The maximal runs of word characters from character `i` (at byte `b`),
/// with the run `cur` open: byte start, byte end and text of each, in order.
pub open spec fn word_runs(line: Seq<char>, i: int, b: nat, cur: Option<(int, nat)>) -> Seq<(usize, usize, Seq<char>)>
    decreases line.len() - i,
{
    if i < 0 || i >= line.len() {
        closed_run(line, cur, i, b)
    } else if is_word_ascii(line[i]) {
        word_runs(line, i + 1, b + 1, if cur is None { Some((i, b)) } else { cur })
    } else {
        closed_run(line, cur, i, b) + word_runs(line, i + 1, b + utf8_width(line[i]), None)
    }
}

/// The matches of `([a-zA-Z0-9_]+)` that `Regex::find_iter` of the regex
/// crate yields in a line: its maximal runs of ASCII letters, digits and
/// underscores, with their byte ranges, in order.
pub open spec fn word_matches(line: Seq<char>) -> Seq<(usize, usize, Seq<char>)> {
    word_runs(line, 0, 0, None)
}

pub open spec fn match_views(v: Seq<(usize, usize, String)>) -> Seq<(usize, usize, Seq<char>)> {
    v.map_values(|m: (usize, usize, String)| (m.0, m.1, m.2@))
}

/// Runs `Regex::find_iter` of the regex crate with the word pattern; the
/// pattern is a constant that compiles.
#[verifier::external_body]
fn find_words(line: &str) -> (r: Vec<(usize, usize, String)>)
    ensures
        match_views(r@) == word_matches(line@),
{
    let re = regex::Regex::new(r"([a-zA-Z0-9_]+)").unwrap();
    re.find_iter(line).map(|m| (m.start(), m.end(), m.as_str().to_string())).collect()
}

/// The first character at or after `i` that is not white space (`\s`).
pub open spec fn ws_end(line: Seq<char>, i: int) -> int
    decreases line.len() - i,
{
    if 0 <= i < line.len() && crate::text::is_whitespace(line[i]) {
        ws_end(line, i + 1)
    } else {
        i
    }
}

/// The first `"` at or after `i`, or the end of the line.
pub open spec fn quote_end(line: Seq<char>, i: int) -> int
    decreases line.len() - i,
{
    if 0 <= i < line.len() && line[i] != '"' {
        quote_end(line, i + 1)
    } else {
        i
    }
}

/// What `Regex::captures` of the regex crate finds for the import pattern
/// `^\s*import\s+("([^"]+)")` in a line: the byte range of the quoted path
/// (group 1), and the path without its quotes (group 2). The line starts
/// with white space, `import`, white space and a quoted, non-empty path.
pub open spec fn import_match(line: Seq<char>) -> Option<(usize, usize, Seq<char>)> {
    let a = ws_end(line, 0);
    let k = a + 6;
    let q = ws_end(line, k);
    let e = quote_end(line, q + 1);
    if k <= line.len() && line.subrange(a, k) == "import"@ && q > k && q < line.len() && line[q] == '"' && q + 1 < e
        && e < line.len() {
        Some((utf8_len(line.take(q)) as usize, utf8_len(line.take(e + 1)) as usize, line.subrange(q + 1, e)))
    } else {
        None
    }
}

/// Runs `Regex::captures` of the regex crate with the import pattern.
#[verifier::external_body]
fn match_import(line: &str) -> (r: Option<(usize, usize, String)>)
    ensures
        match r {
            Some(m) => import_match(line@) == Some((m.0, m.1, m.2@)),
            None => import_match(line@) is None,
        },
{
    let re = regex::Regex::new(r#"^\s*import\s+("([^"]+)")"#).ok()?;
    let cap = re.captures(line)?;
    let full = cap.get(1)?;
    let path = cap.get(2)?;
    Some((full.start(), full.end(), path.as_str().to_string()))
}

/// The first match that contains byte offset `b`.
pub open spec fn match_at(ms: Seq<(usize, usize, Seq<char>)>, b: nat, i: int) -> Option<(usize, usize, Seq<char>)>
    decreases ms.len() - i,
{
    if i < 0 || i >= ms.len() {
        None
    } else if ms[i].0 <= b && b <= ms[i].1 {
        Some(ms[i])
    } else {
        match_at(ms, b, i + 1)
    }
}

/// The word under a position, and its range on the line.
pub open spec fn word_at(content: Seq<char>, pos: Position) -> Option<(Seq<char>, Range)> {
    match nth_line(content, pos.line as nat) {
        Some(line) => {
            let b = walk_bytes(line, 0, 0, pos.character as nat);
            match match_at(word_matches(line), b, 0) {
                Some((s, e, w)) => Some(
                    (
                        w,
                        Range {
                            start: Position { line: pos.line, character: utf16_before(line, s as nat) as u32 },
                            end: Position { line: pos.line, character: utf16_before(line, e as nat) as u32 },
                        },
                    ),
                ),
                None => None,
            }
        },
        None => None,
    }
}

/// The target of the import whose quoted path holds the position: the path
/// resolved against `base`. The column counts characters here.
pub open spec fn import_target_at(content: Seq<char>, pos: Position, base: Seq<char>) -> Option<Seq<char>> {
    match nth_line(content, pos.line as nat) {
        Some(line) => match import_match(line) {
            Some((start, end, path)) => {
                let k = if (pos.character as int) < line.len() {
                    pos.character as int
                } else {
                    line.len() as int
                };
                let b = utf8_len(line.subrange(0, k));
                if start < b && b < end {
                    crate::analyzer::joined_uri(base, path)
                } else {
                    None
                }
            },
            None => None,
        },
        None => None,
    }
}


/// The characters of line `k` of a text.
fn line_at(cs: &Vec<char>, k: u32) -> (r: Option<Vec<char>>)
    ensures
        match r {
            Some(l) => nth_line(cs@, k as nat) == Some(l@),
            None => nth_line(cs@, k as nat) is None,
        },
{
    let mut start: usize = 0;
    let mut left: u32 = k;
    loop
        invariant
            start <= cs@.len(),
            line_bounds(cs@, 0, k as nat) == line_bounds(cs@, start as int, left as nat),
        decreases cs@.len() - start,
    {
        if start >= cs.len() {
            return None;
        }
        let mut e = start;
        while e < cs.len() && cs[e] != '\n'
            invariant
                start <= e <= cs@.len(),
                crate::parser::line_end(cs@, start as int) == crate::parser::line_end(cs@, e as int),
            decreases cs@.len() - e,
        {
            e = e + 1;
        }
        proof {
            crate::parser::lemma_scan_bounds(cs@, start as int);
        }
        if left == 0 {
            let content_end = if e < cs.len() && e > start && cs[e - 1] == '\r' {
                e - 1
            } else {
                e
            };
            let mut line: Vec<char> = Vec::new();
            crate::text::push_range(&mut line, cs, start, content_end);
            assert(line@ =~= cs@.subrange(start as int, content_end as int));
            return Some(line);
        }
        if e >= cs.len() {
            assert(line_bounds(cs@, e + 1, (left - 1) as nat) is None);
            return None;
        }
        start = e + 1;
        left = left - 1;
    }
}

/// Finds the word under a position: the run of ASCII letters, digits and
/// `_` that the position touches, and its range.
pub fn get_word_at(content: &str, pos: Position) -> (r: Option<(String, Range)>)
    ensures
        match r {
            Some((w, range)) => word_at(content@, pos) == Some((w@, range)),
            None => word_at(content@, pos) is None,
        },
{
    let cs = crate::text::chars_of(content);
    let line = match line_at(&cs, pos.line) {
        Some(l) => l,
        None => {
            return None;
        },
    };
    let mut u16_off: u64 = 0;
    let mut b_off: u128 = 0;
    let mut i: usize = 0;
    let target = pos.character;
    while i < line.len() && u16_off < target as u64
        invariant
            0 <= i <= line@.len(),
            u16_off <= target,
            walk_bytes(line@, 0, 0, target as nat) == b_off + walk_bytes(line@, i as int, u16_off as nat, target as nat),
            b_off <= 4 * i,
        decreases line@.len() - i,
    {
        let c = line[i];
        let ghost u0 = u16_off as nat;
        let w16: u64 = if (c as u32) >= 0x10000 {
            2
        } else {
            1
        };
        assert(w16 == crate::source_manager::utf16_width(c));
        let next = u16_off + w16;
        let clamped = if next > target as u64 {
            target as u64
        } else {
            next
        };
        proof {
            assert(walk_bytes(line@, i as int, u0, target as nat) == utf8_width(c) + walk_bytes(
                line@,
                i + 1,
                next as nat,
                target as nat,
            ));
            if next > target as u64 {
                assert(walk_bytes(line@, i + 1, next as nat, target as nat) == 0);
                assert(walk_bytes(line@, i + 1, clamped as nat, target as nat) == 0);
            }
        }
        u16_off = clamped;
        b_off = b_off + crate::text::utf8_width_exec(c) as u128;
        i = i + 1;
    }
    assert(walk_bytes(line@, i as int, u16_off as nat, target as nat) == 0);
    assert(walk_bytes(line@, 0, 0, target as nat) == b_off);
    let line_str = crate::text::string_from_chars(&line);
    let matches = find_words(line_str.as_str());
    let mut j: usize = 0;
    while j < matches.len()
        invariant
            0 <= j <= matches@.len(),
            match_views(matches@) == word_matches(line@),
            walk_bytes(line@, 0, 0, target as nat) == b_off,
            target == pos.character,
            nth_line(content@, pos.line as nat) == Some(line@),
            match_at(word_matches(line@), b_off as nat, 0) == match_at(word_matches(line@), b_off as nat, j as int),
        decreases matches@.len() - j,
    {
        let (s, e, w) = (matches[j].0, matches[j].1, &matches[j].2);
        assert(match_views(matches@)[j as int] == (s, e, w@));
        if (s as u128) <= b_off && b_off <= (e as u128) {
            let start = utf16_before_exec(&line, s);
            let end = utf16_before_exec(&line, e);
            let range = Range {
                start: Position { line: pos.line, character: start },
                end: Position { line: pos.line, character: end },
            };
            return Some((String::from_str(w.as_str()), range));
        }
        j = j + 1;
    }
    None
}

/// The UTF-16 length of the text before a byte offset, truncated to 32 bits.
fn utf16_before_exec(line: &Vec<char>, b: usize) -> (r: u32)
    ensures
        r == utf16_before(line@, b as nat) as u32,
{
    let mut k: usize = 0;
    let mut bytes: usize = 0;
    while k < line.len() && crate::text::utf8_width_exec(line[k]) <= b - bytes
        invariant
            0 <= k <= line@.len(),
            bytes <= b,
            chars_within(line@, 0, 0, b as nat) == chars_within(line@, k as int, bytes as nat, b as nat),
        decreases line@.len() - k,
    {
        bytes = bytes + crate::text::utf8_width_exec(line[k]);
        k = k + 1;
    }
    let mut col: u128 = 0;
    let mut m: usize = 0;
    while m < k
        invariant
            0 <= m <= k <= line@.len(),
            col == crate::source_manager::utf16_len(line@.subrange(0, m as int)),
            col <= 2 * m,
        decreases k - m,
    {
        assert(line@.subrange(0, m + 1).drop_last() =~= line@.subrange(0, m as int));
        if (line[m] as u32) >= 0x10000 {
            col = col + 2;
        } else {
            col = col + 1;
        }
        m = m + 1;
    }
    #[verifier::truncate]
    (col as u32)
}

/// The target of the import whose quoted path holds the position, resolved
/// against the document's URI.
pub fn check_import_at(content: &str, pos: Position, base_uri: &str) -> (r: Option<String>)
    ensures
        crate::source_manager::opt_string_view(r) == import_target_at(content@, pos, base_uri@),
{
    let cs = crate::text::chars_of(content);
    let line = match line_at(&cs, pos.line) {
        Some(l) => l,
        None => {
            return None;
        },
    };
    let line_str = crate::text::string_from_chars(&line);
    let (start, end, path) = match match_import(line_str.as_str()) {
        Some(m) => m,
        None => {
            return None;
        },
    };
    let k: usize = if (pos.character as u64) < (line.len() as u64) {
        pos.character as usize
    } else {
        line.len()
    };
    let mut b: u128 = 0;
    let mut i: usize = 0;
    while i < k
        invariant
            0 <= i <= k <= line@.len(),
            b == utf8_len(line@.subrange(0, i as int)),
            b <= 4 * i,
        decreases k - i,
    {
        assert(line@.subrange(0, i + 1).drop_last() =~= line@.subrange(0, i as int));
        b = b + crate::text::utf8_width_exec(line[i]) as u128;
        i = i + 1;
    }
    if (start as u128) < b && b < (end as u128) {
        crate::analyzer::join_uri(base_uri, path.as_str())
    } else {
        None
    }
}

} // verus!

verus! {

/// What hovering a position shows: the Markdown and the range of the word.
pub open spec fn hover_at(m: StructureModel, content: Seq<char>, pos: Position) -> Option<(Seq<char>, Range)> {
    match word_at(content, pos) {
        Some((w, range)) => match hover_text(m, w) {
            Some(t) => Some((t, range)),
            None => None,
        },
        None => None,
    }
}

/// The hover of a position in a document of the analyzed program.
pub fn hover(structure: &ProgramStructure, content: &str, pos: Position) -> (r: Option<(String, Range)>)
    ensures
        match r {
            Some((t, range)) => hover_at(structure@, content@, pos) == Some((t@, range)),
            None => hover_at(structure@, content@, pos) is None,
        },
{
    let (word, range) = match get_word_at(content, pos) {
        Some(x) => x,
        None => {
            return None;
        },
    };
    match hover_markdown(structure, word.as_str()) {
        Some(t) => Some((t, range)),
        None => None,
    }
}

/// An outline entry for a symbol defined in `file`.
pub open spec fn outline_entry(
    m: StructureModel,
    sm: crate::source_manager::SourceModel,
    file: crate::models::FileId,
    name: Seq<char>,
    uid: u32,
    kind: SymbolKind,
) -> Seq<(Seq<char>, SymbolKind, Range)> {
    if m.symbols.contains_key(uid) && m.symbols[uid].definition.file_id == file {
        seq![(name, kind, crate::source_manager::span_range(sm, m.symbols[uid].definition))]
    } else {
        Seq::empty()
    }
}

pub open spec fn artifact_outline(
    es: Seq<(String, Kind)>,
    m: StructureModel,
    sm: crate::source_manager::SourceModel,
    file: crate::models::FileId,
) -> Seq<(Seq<char>, SymbolKind, Range)>
    decreases es.len(),
{
    if es.len() == 0 {
        Seq::empty()
    } else {
        let k = es.last().1;
        artifact_outline(es.drop_last(), m, sm, file) + outline_entry(m, sm, file, k.spec_name(), k.spec_uid(), SymbolKind::Struct)
    }
}

pub open spec fn function_outline(
    es: Seq<(String, std::sync::Arc<Function>)>,
    m: StructureModel,
    sm: crate::source_manager::SourceModel,
    file: crate::models::FileId,
) -> Seq<(Seq<char>, SymbolKind, Range)>
    decreases es.len(),
{
    if es.len() == 0 {
        Seq::empty()
    } else {
        let f = es.last().1;
        function_outline(es.drop_last(), m, sm, file) + outline_entry(m, sm, file, f.name@, f.uid, SymbolKind::Function)
    }
}

pub open spec fn group_outline(
    es: Seq<(String, std::sync::Arc<crate::models::Group>)>,
    m: StructureModel,
    sm: crate::source_manager::SourceModel,
    file: crate::models::FileId,
) -> Seq<(Seq<char>, SymbolKind, Range)>
    decreases es.len(),
{
    if es.len() == 0 {
        Seq::empty()
    } else {
        let g = es.last().1;
        group_outline(es.drop_last(), m, sm, file) + outline_entry(m, sm, file, g.name@, g.uid, SymbolKind::Namespace)
    }
}

pub open spec fn symbol_views(v: Seq<DocumentSymbol>) -> Seq<(Seq<char>, SymbolKind, Range)> {
    v.map_values(|d: DocumentSymbol| (d.name@, d.kind, d.range))
}

fn push_outline_entry(
    out: &mut Vec<DocumentSymbol>,
    structure: &ProgramStructure,
    sm: &crate::source_manager::SourceManager,
    file_id: crate::models::FileId,
    name: &str,
    uid: u32,
    kind: SymbolKind,
)
    requires
        sm.wf(),
    ensures
        symbol_views(final(out)@) == symbol_views(old(out)@) + outline_entry(structure@, sm.model(), file_id, name@, uid, kind),
{
    let ghost before = symbol_views(out@);
    match structure.symbol_table.get(&uid) {
        Some(meta) => {
            if meta.definition_span.file_id == file_id {
                let range = sm.range_of_span(meta.definition_span);
                out.push(make_symbol(name, kind, range));
                assert(symbol_views(out@) =~= before + outline_entry(structure@, sm.model(), file_id, name@, uid, kind));
            } else {
                assert(symbol_views(out@) =~= before + outline_entry(structure@, sm.model(), file_id, name@, uid, kind));
            }
        },
        None => {
            assert(symbol_views(out@) =~= before + outline_entry(structure@, sm.model(), file_id, name@, uid, kind));
        },
    }
}

/// The outline of a file: its artifacts, then its functions, then its
/// groups, each in order of definition.
pub fn document_symbols(
    structure: &ProgramStructure,
    sm: &crate::source_manager::SourceManager,
    file_id: crate::models::FileId,
) -> (r: Vec<DocumentSymbol>)
    requires
        sm.wf(),
    ensures
        symbol_views(r@) == artifact_outline(structure.artifacts.entries@, structure@, sm.model(), file_id)
            + function_outline(structure.catalog.entries@, structure@, sm.model(), file_id) + group_outline(
            structure.groups.entries@,
            structure@,
            sm.model(),
            file_id,
        ),
{
    let mut out: Vec<DocumentSymbol> = Vec::new();
    let ghost m = structure@;
    let ghost smm = sm.model();
    let mut i: usize = 0;
    assert(symbol_views(out@) =~= Seq::<(Seq<char>, SymbolKind, Range)>::empty());
    while i < structure.artifacts.entries.len()
        invariant
            0 <= i <= structure.artifacts.entries@.len(),
            sm.wf(),
            m == structure@,
            smm == sm.model(),
            symbol_views(out@) == artifact_outline(structure.artifacts.entries@.take(i as int), m, smm, file_id),
        decreases structure.artifacts.entries@.len() - i,
    {
        let kind = &structure.artifacts.entries[i].1;
        push_outline_entry(&mut out, structure, sm, file_id, kind.name(), kind.uid(), SymbolKind::Struct);
        assert(structure.artifacts.entries@.take(i + 1).drop_last() =~= structure.artifacts.entries@.take(i as int));
        i = i + 1;
    }
    assert(structure.artifacts.entries@.take(i as int) =~= structure.artifacts.entries@);
    let ghost a = symbol_views(out@);
    let mut i: usize = 0;
    while i < structure.catalog.entries.len()
        invariant
            0 <= i <= structure.catalog.entries@.len(),
            sm.wf(),
            m == structure@,
            smm == sm.model(),
            symbol_views(out@) == a + function_outline(structure.catalog.entries@.take(i as int), m, smm, file_id),
        decreases structure.catalog.entries@.len() - i,
    {
        let f = &structure.catalog.entries[i].1;
        push_outline_entry(&mut out, structure, sm, file_id, f.name.as_str(), f.uid, SymbolKind::Function);
        assert(structure.catalog.entries@.take(i + 1).drop_last() =~= structure.catalog.entries@.take(i as int));
        i = i + 1;
    }
    assert(structure.catalog.entries@.take(i as int) =~= structure.catalog.entries@);
    let ghost b = symbol_views(out@);
    let mut i: usize = 0;
    while i < structure.groups.entries.len()
        invariant
            0 <= i <= structure.groups.entries@.len(),
            sm.wf(),
            m == structure@,
            smm == sm.model(),
            symbol_views(out@) == b + group_outline(structure.groups.entries@.take(i as int), m, smm, file_id),
        decreases structure.groups.entries@.len() - i,
    {
        let g = &structure.groups.entries[i].1;
        push_outline_entry(&mut out, structure, sm, file_id, g.name.as_str(), g.uid, SymbolKind::Namespace);
        assert(structure.groups.entries@.take(i + 1).drop_last() =~= structure.groups.entries@.take(i as int));
        i = i + 1;
    }
    assert(structure.groups.entries@.take(i as int) =~= structure.groups.entries@);
    out
}

/// An inlay hint: a label shown after a position.
#[derive(Debug)]
pub struct InlayHint {
    pub position: Position,
    pub label: String,
}

/// The hint after a flow step of `file`: its function's group and signature.
pub open spec fn step_hint(
    m: StructureModel,
    sm: crate::source_manager::SourceModel,
    file: crate::models::FileId,
    step: (Seq<char>, crate::models::Span),
) -> Seq<(Position, Seq<char>)> {
    if step.1.file_id == file && m.catalog.contains_key(step.0) {
        let f = m.catalog[step.0];
        let label = match f.group {
            Some(g) => g.name + " "@ + signature_label(f),
            None => signature_label(f),
        };
        seq![(crate::source_manager::span_range(sm, step.1).end, label)]
    } else {
        Seq::empty()
    }
}

pub open spec fn flow_hints(
    m: StructureModel,
    sm: crate::source_manager::SourceModel,
    file: crate::models::FileId,
    steps: Seq<(Seq<char>, crate::models::Span)>,
) -> Seq<(Position, Seq<char>)>
    decreases steps.len(),
{
    if steps.len() == 0 {
        Seq::empty()
    } else {
        flow_hints(m, sm, file, steps.drop_last()) + step_hint(m, sm, file, steps.last())
    }
}

pub open spec fn hint_views(v: Seq<InlayHint>) -> Seq<(Position, Seq<char>)> {
    v.map_values(|h: InlayHint| (h.position, h.label@))
}

/// The hints of a file: after each flow step, the signature of its function.
pub fn inlay_hints(
    structure: &ProgramStructure,
    sm: &crate::source_manager::SourceManager,
    file_id: crate::models::FileId,
) -> (r: Vec<InlayHint>)
    requires
        sm.wf(),
    ensures
        hint_views(r@) == flow_hints(structure@, sm.model(), file_id, structure@.flow),
{
    let mut hints: Vec<InlayHint> = Vec::new();
    let ghost m = structure@;
    let mut i: usize = 0;
    assert(hint_views(hints@) =~= Seq::<(Position, Seq<char>)>::empty());
    while i < structure.flow.len()
        invariant
            0 <= i <= structure.flow@.len(),
            sm.wf(),
            m == structure@,
            hint_views(hints@) == flow_hints(m, sm.model(), file_id, m.flow.take(i as int)),
        decreases structure.flow@.len() - i,
    {
        let step = &structure.flow[i];
        let ghost before = hint_views(hints@);
        assert(m.flow[i as int] == (step.function_name@, step.span));
        assert(m.flow.take(i + 1).drop_last() =~= m.flow.take(i as int));
        if step.span.file_id == file_id {
            if let Some(f) = structure.catalog.get(step.function_name.as_str()) {
                let range = sm.range_of_span(step.span);
                let signature = format_signature(f);
                let label = match &f.group {
                    Some(g) => {
                        let mut l = String::from_str(g.name.as_str());
                        l.append(" ");
                        l.append(signature.as_str());
                        l
                    },
                    None => signature,
                };
                hints.push(InlayHint { position: range.end, label });
            }
        }
        assert(hint_views(hints@) =~= before + step_hint(m, sm.model(), file_id, m.flow[i as int]));
        i = i + 1;
    }
    assert(m.flow.take(i as int) =~= m.flow);
    hints
}

} // verus!

verus! {

/// The kind of a completion item.
#[derive(Debug, Clone, Copy, PartialEq, Eq, Structural)]
pub enum CompletionKind {
    Struct,
    Function,
}

/// A completion proposal.
#[derive(Debug)]
pub struct CompletionItem {
    pub label: String,
    pub detail: String,
    pub documentation: Option<String>,
    pub kind: CompletionKind,
}

pub open spec fn completion_view(c: CompletionItem) -> (Seq<char>, Seq<char>, Option<Seq<char>>, CompletionKind) {
    (c.label@, c.detail@, c.documentation.deep_view(), c.kind)
}

pub open spec fn completion_views(v: Seq<CompletionItem>) -> Seq<(Seq<char>, Seq<char>, Option<Seq<char>>, CompletionKind)> {
    v.map_values(|c: CompletionItem| completion_view(c))
}

pub open spec fn artifact_completions(es: Seq<(String, Kind)>) -> Seq<(Seq<char>, Seq<char>, Option<Seq<char>>, CompletionKind)>
    decreases es.len(),
{
    if es.len() == 0 {
        Seq::empty()
    } else {
        artifact_completions(es.drop_last()).push(
            (es.last().0@, "Artifact"@, es.last().1.spec_docs(), CompletionKind::Struct),
        )
    }
}

pub open spec fn function_completions(es: Seq<(String, std::sync::Arc<Function>)>) -> Seq<
    (Seq<char>, Seq<char>, Option<Seq<char>>, CompletionKind),
>
    decreases es.len(),
{
    if es.len() == 0 {
        Seq::empty()
    } else {
        function_completions(es.drop_last()).push(
            (es.last().0@, "Function"@, es.last().1.documentation.deep_view(), CompletionKind::Function),
        )
    }
}

/// The completions: every artifact, then every function, in order of definition.
pub fn completion_items(structure: &ProgramStructure) -> (r: Vec<CompletionItem>)
    ensures
        completion_views(r@) == artifact_completions(structure.artifacts.entries@) + function_completions(
            structure.catalog.entries@,
        ),
{
    let mut items: Vec<CompletionItem> = Vec::new();
    let mut i: usize = 0;
    assert(completion_views(items@) =~= artifact_completions(structure.artifacts.entries@.take(0)));
    while i < structure.artifacts.entries.len()
        invariant
            0 <= i <= structure.artifacts.entries@.len(),
            completion_views(items@) == artifact_completions(structure.artifacts.entries@.take(i as int)),
        decreases structure.artifacts.entries@.len() - i,
    {
        let (name, kind) = (&structure.artifacts.entries[i].0, &structure.artifacts.entries[i].1);
        let documentation = match kind.docs() {
            Some(d) => Some(String::from_str(d)),
            None => None,
        };
        let ghost before = completion_views(items@);
        items.push(
            CompletionItem {
                label: String::from_str(name.as_str()),
                detail: String::from_str("Artifact"),
                documentation,
                kind: CompletionKind::Struct,
            },
        );
        assert(structure.artifacts.entries@.take(i + 1).drop_last() =~= structure.artifacts.entries@.take(i as int));
        assert(completion_views(items@) =~= before.push(
            (name@, "Artifact"@, kind.spec_docs(), CompletionKind::Struct),
        ));
        i = i + 1;
    }
    assert(structure.artifacts.entries@.take(i as int) =~= structure.artifacts.entries@);
    let ghost a = completion_views(items@);
    let mut i: usize = 0;
    while i < structure.catalog.entries.len()
        invariant
            0 <= i <= structure.catalog.entries@.len(),
            completion_views(items@) == a + function_completions(structure.catalog.entries@.take(i as int)),
        decreases structure.catalog.entries@.len() - i,
    {
        let (name, f) = (&structure.catalog.entries[i].0, &structure.catalog.entries[i].1);
        let documentation = crate::models::clone_opt_string(&f.documentation);
        let ghost before = completion_views(items@);
        items.push(
            CompletionItem {
                label: String::from_str(name.as_str()),
                detail: String::from_str("Function"),
                documentation,
                kind: CompletionKind::Function,
            },
        );
        assert(structure.catalog.entries@.take(i + 1).drop_last() =~= structure.catalog.entries@.take(i as int));
        assert(completion_views(items@) =~= before.push(
            (name@, "Function"@, f.documentation.deep_view(), CompletionKind::Function),
        ));
        i = i + 1;
    }
    assert(structure.catalog.entries@.take(i as int) =~= structure.catalog.entries@);
    items
}

/// The signature help for `word`: `Name: signature`, and the documentation.
pub open spec fn signature_help_for(m: StructureModel, word: Seq<char>) -> Option<(Seq<char>, Option<Seq<char>>)> {
    if m.catalog.contains_key(word) {
        let f = m.catalog[word];
        Some((f.name + ": "@ + signature_label(f), f.docs))
    } else {
        None
    }
}

/// The signature help for the function named `word`.
pub fn signature_help(structure: &ProgramStructure, word: &str) -> (r: Option<(String, Option<String>)>)
    ensures
        match r {
            Some((label, docs)) => signature_help_for(structure@, word@) == Some((label@, docs.deep_view())),
            None => signature_help_for(structure@, word@) is None,
        },
{
    match structure.catalog.get(word) {
        Some(f) => {
            let mut label = String::from_str(f.name.as_str());
            label.append(": ");
            let sig = format_signature(f);
            label.append(sig.as_str());
            Some((label, crate::models::clone_opt_string(&f.documentation)))
        },
        None => None,
    }
}

/// The locations of spans: URI and range of each span whose file is known.
pub open spec fn span_locations(sm: crate::source_manager::SourceModel, spans: Seq<crate::models::Span>) -> Seq<(Seq<char>, Range)>
    decreases spans.len(),
{
    if spans.len() == 0 {
        Seq::empty()
    } else {
        let prev = span_locations(sm, spans.drop_last());
        let sp = spans.last();
        if sm.uris.contains_key(sp.file_id) {
            prev.push((sm.uris[sp.file_id], crate::source_manager::span_range(sm, sp)))
        } else {
            prev
        }
    }
}

pub open spec fn location_views(v: Seq<(String, Range)>) -> Seq<(Seq<char>, Range)> {
    v.map_values(|l: (String, Range)| (l.0@, l.1))
}

/// The locations of a list of spans, for references and renaming.
pub fn locations(sm: &crate::source_manager::SourceManager, spans: &Vec<crate::models::Span>) -> (r: Vec<(String, Range)>)
    requires
        sm.wf(),
    ensures
        location_views(r@) == span_locations(sm.model(), spans@),
{
    proof {
        sm.lemma_model();
    }
    let mut out: Vec<(String, Range)> = Vec::new();
    let mut i: usize = 0;
    assert(location_views(out@) =~= Seq::<(Seq<char>, Range)>::empty());
    while i < spans.len()
        invariant
            0 <= i <= spans@.len(),
            sm.wf(),
            location_views(out@) == span_locations(sm.model(), spans@.take(i as int)),
        decreases spans@.len() - i,
    {
        proof {
            sm.lemma_model();
        }
        let sp = spans[i];
        assert(spans@.take(i + 1).drop_last() =~= spans@.take(i as int));
        let ghost before = location_views(out@);
        match sm.get_uri(sp.file_id) {
            Some(u) => {
                let range = sm.range_of_span(sp);
                out.push((String::from_str(u), range));
                assert(location_views(out@) =~= before.push((u@, range)));
            },
            None => {},
        }
        i = i + 1;
    }
    assert(spans@.take(i as int) =~= spans@);
    out
}

/// Where a word at a position leads: the file an import names, or the
/// definition of the symbol under the position.
pub open spec fn definition_at(
    m: StructureModel,
    sm: crate::source_manager::SourceModel,
    content: Seq<char>,
    pos: Position,
    base: Seq<char>,
) -> Option<(Seq<char>, Range)> {
    match import_target_at(content, pos, base) {
        Some(t) => Some((t, crate::source_manager::default_range())),
        None => match word_at(content, pos) {
            Some((w, _)) => match meta_of(m, w) {
                Some(meta) => if sm.uris.contains_key(meta.definition.file_id) {
                    Some((sm.uris[meta.definition.file_id], crate::source_manager::span_range(sm, meta.definition)))
                } else {
                    None
                },
                None => None,
            },
            None => None,
        },
    }
}

/// Goes to the definition of what is under a position.
pub fn goto_definition(
    structure: &ProgramStructure,
    sm: &crate::source_manager::SourceManager,
    content: &str,
    pos: Position,
    base_uri: &str,
) -> (r: Option<(String, Range)>)
    requires
        sm.wf(),
    ensures
        match r {
            Some((u, range)) => definition_at(structure@, sm.model(), content@, pos, base_uri@) == Some((u@, range)),
            None => definition_at(structure@, sm.model(), content@, pos, base_uri@) is None,
        },
{
    proof {
        sm.lemma_model();
    }
    if let Some(target) = check_import_at(content, pos, base_uri) {
        return Some(
            (
                target,
                Range { start: Position { line: 0, character: 0 }, end: Position { line: 0, character: 0 } },
            ),
        );
    }
    if let Some((word, _)) = get_word_at(content, pos) {
        if let Some(meta) = find_meta(word.as_str(), structure) {
            if let Some(u) = sm.get_uri(meta.definition_span.file_id) {
                let range = sm.range_of_span(meta.definition_span);
                return Some((String::from_str(u), range));
            }
        }
    }
    None
}

/// The places where the word under a position is written.
pub open spec fn references_at(
    m: StructureModel,
    sm: crate::source_manager::SourceModel,
    content: Seq<char>,
    pos: Position,
) -> Option<Seq<(Seq<char>, Range)>> {
    match word_at(content, pos) {
        Some((w, _)) => match meta_of(m, w) {
            Some(meta) => Some(span_locations(sm, meta.occurrences)),
            None => None,
        },
        None => None,
    }
}

/// The references of the symbol under a position; renaming edits the same places.
pub fn references(
    structure: &ProgramStructure,
    sm: &crate::source_manager::SourceManager,
    content: &str,
    pos: Position,
) -> (r: Option<Vec<(String, Range)>>)
    requires
        sm.wf(),
    ensures
        match r {
            Some(v) => references_at(structure@, sm.model(), content@, pos) == Some(location_views(v@)),
            None => references_at(structure@, sm.model(), content@, pos) is None,
        },
{
    if let Some((word, _)) = get_word_at(content, pos) {
        if let Some(meta) = find_meta(word.as_str(), structure) {
            return Some(locations(sm, &meta.occurrences));
        }
    }
    None
}

} // verus!

verus! {

/// A diagnostic as published to the client.
#[derive(Debug)]
pub struct LspDiagnostic {
    pub range: Range,
    pub severity: crate::models::Severity,
    pub message: String,
    pub source: String,
    pub tags: Option<Vec<crate::models::DiagnosticTag>>,
}

pub struct LspDiagnosticModel {
    pub range: Range,
    pub severity: crate::models::Severity,
    pub message: Seq<char>,
    pub source: Seq<char>,
    pub tags: Option<Seq<crate::models::DiagnosticTag>>,
}

impl View for LspDiagnostic {
    type V = LspDiagnosticModel;

    open spec fn view(&self) -> LspDiagnosticModel {
        LspDiagnosticModel {
            range: self.range,
            severity: self.severity,
            message: self.message@,
            source: self.source@,
            tags: match self.tags {
                Some(t) => Some(t@),
                None => None,
            },
        }
    }
}

/// A diagnostic of the analysis as the client sees it: the range of its
/// span (the start of the document without one), from source `tect`, with
/// its tags where it has any.
pub open spec fn published(sm: crate::source_manager::SourceModel, d: crate::models::DiagnosticModel) -> LspDiagnosticModel {
    LspDiagnosticModel {
        range: match d.span {
            Some(sp) => crate::source_manager::span_range(sm, sp),
            None => crate::source_manager::default_range(),
        },
        severity: d.severity,
        message: d.message,
        source: "tect"@,
        tags: if d.tags.len() == 0 {
            None
        } else {
            Some(d.tags)
        },
    }
}

pub type DiagnosticTable = Vec<(String, Vec<LspDiagnostic>)>;

pub open spec fn table_view(t: Seq<(String, Vec<LspDiagnostic>)>) -> Seq<(Seq<char>, Seq<LspDiagnosticModel>)> {
    t.map_values(|e: (String, Vec<LspDiagnostic>)| (e.0@, e.1@.map_values(|d: LspDiagnostic| d@)))
}

/// The index of the entry for `uri`.
pub open spec fn table_index(t: Seq<(Seq<char>, Seq<LspDiagnosticModel>)>, uri: Seq<char>, i: int) -> Option<int>
    decreases t.len() - i,
{
    if i < 0 || i >= t.len() {
        None
    } else if t[i].0 == uri {
        Some(i)
    } else {
        table_index(t, uri, i + 1)
    }
}

/// Adds a diagnostic to the list of its file, unless an equal one is there.
pub open spec fn table_add(
    t: Seq<(Seq<char>, Seq<LspDiagnosticModel>)>,
    uri: Seq<char>,
    d: LspDiagnosticModel,
) -> Seq<(Seq<char>, Seq<LspDiagnosticModel>)> {
    match table_index(t, uri, 0) {
        Some(i) => if t[i].1.contains(d) {
            t
        } else {
            t.update(i, (uri, t[i].1.push(d)))
        },
        None => t.push((uri, seq![d])),
    }
}

/// Adds the diagnostics of an analysis, in order, to the table.
pub open spec fn table_collect(
    t: Seq<(Seq<char>, Seq<LspDiagnosticModel>)>,
    sm: crate::source_manager::SourceModel,
    ds: Seq<crate::models::DiagnosticModel>,
) -> Seq<(Seq<char>, Seq<LspDiagnosticModel>)>
    decreases ds.len(),
{
    if ds.len() == 0 {
        t
    } else {
        let prev = table_collect(t, sm, ds.drop_last());
        let d = ds.last();
        if sm.uris.contains_key(d.file_id) {
            table_add(prev, sm.uris[d.file_id], published(sm, d))
        } else {
            prev
        }
    }
}

fn same_tags(a: &Option<Vec<crate::models::DiagnosticTag>>, b: &Option<Vec<crate::models::DiagnosticTag>>) -> (r: bool)
    ensures
        r == ((match *a {
            Some(t) => Some(t@),
            None => None,
        }) == (match *b {
            Some(t) => Some(t@),
            None => None,
        })),
{
    match a {
        Some(x) => match b {
            Some(y) => {
                let same = same_tag_lists(x, y);
                same
            },
            None => false,
        },
        None => b.is_none(),
    }
}

fn same_tag_lists(x: &Vec<crate::models::DiagnosticTag>, y: &Vec<crate::models::DiagnosticTag>) -> (r: bool)
    ensures
        r == (x@ == y@),
{
    if x.len() != y.len() {
        proof {
            if x@ == y@ {
                assert(x@.len() == y@.len());
            }
        }
        return false;
    }
    let mut i: usize = 0;
    while i < x.len()
        invariant
            0 <= i <= x@.len(),
            x@.len() == y@.len(),
            forall|k: int| 0 <= k < i ==> x@[k] == y@[k],
        decreases x@.len() - i,
    {
        if x[i] != y[i] {
            proof {
                if x@ == y@ {
                    assert(x@[i as int] == y@[i as int]);
                }
            }
            return false;
        }
        i = i + 1;
    }
    assert(x@ =~= y@);
    true
}

fn same_diagnostic(a: &LspDiagnostic, b: &LspDiagnostic) -> (r: bool)
    ensures
        r == (a@ == b@),
{
    a.range == b.range && a.severity == b.severity && str_eq(a.message.as_str(), b.message.as_str())
        && str_eq(a.source.as_str(), b.source.as_str()) && same_tags(&a.tags, &b.tags)
}

/// A table with an empty list for each open document.
pub fn new_diagnostic_table(open_docs: &Vec<String>) -> (t: DiagnosticTable)
    ensures
        table_view(t@) == open_docs@.map_values(|u: String| (u@, Seq::<LspDiagnosticModel>::empty())),
{
    let mut t: DiagnosticTable = Vec::new();
    let mut i: usize = 0;
    while i < open_docs.len()
        invariant
            0 <= i <= open_docs@.len(),
            table_view(t@) == open_docs@.take(i as int).map_values(|u: String| (u@, Seq::<LspDiagnosticModel>::empty())),
        decreases open_docs@.len() - i,
    {
        let ghost before = table_view(t@);
        let empty: Vec<LspDiagnostic> = Vec::new();
        assert(empty@.map_values(|d: LspDiagnostic| d@) =~= Seq::<LspDiagnosticModel>::empty());
        t.push((String::from_str(open_docs[i].as_str()), empty));
        assert(table_view(t@) =~= before.push((open_docs@[i as int]@, Seq::<LspDiagnosticModel>::empty())));
        assert(open_docs@.take(i + 1).map_values(|u: String| (u@, Seq::<LspDiagnosticModel>::empty())) =~= before.push(
            (open_docs@[i as int]@, Seq::<LspDiagnosticModel>::empty()),
        ));
        i = i + 1;
    }
    assert(open_docs@.take(i as int) =~= open_docs@);
    t
}

fn table_add_exec(t: &mut DiagnosticTable, uri: &str, d: LspDiagnostic)
    ensures
        table_view(final(t)@) == table_add(table_view(old(t)@), uri@, d@),
{
    let ghost tv = table_view(t@);
    let mut i: usize = 0;
    while i < t.len()
        invariant
            0 <= i <= t@.len(),
            tv == table_view(t@),
            tv == table_view(old(t)@),
            table_index(tv, uri@, 0) == table_index(tv, uri@, i as int),
        decreases t@.len() - i,
    {
        if str_eq(t[i].0.as_str(), uri) {
            assert(tv[i as int].0 == uri@);
            assert(table_index(tv, uri@, i as int) == Some(i as int));
            let mut found = false;
            let mut k: usize = 0;
            while k < t[i].1.len()
                invariant
                    0 <= k <= t@[i as int].1@.len(),
                    tv == table_view(t@),
                    0 <= i < t@.len(),
                    found <==> exists|j: int| 0 <= j < k && tv[i as int].1[j] == d@,
                decreases t@[i as int].1@.len() - k,
            {
                assert(tv[i as int].1[k as int] == t@[i as int].1@[k as int]@);
                if same_diagnostic(&t[i].1[k], &d) {
                    found = true;
                }
                k = k + 1;
            }
            if found {
                assert(tv[i as int].1.contains(d@));
                return;
            }
            assert(!tv[i as int].1.contains(d@));
            let ghost dv = d@;
            let (name, mut list) = t.remove(i);
            let ghost old_list = list@.map_values(|x: LspDiagnostic| x@);
            list.push(d);
            assert(list@.map_values(|x: LspDiagnostic| x@) =~= old_list.push(dv));
            t.insert(i, (name, list));
            assert(table_view(t@) =~= tv.update(i as int, (uri@, tv[i as int].1.push(dv))));
            return;
        }
        i = i + 1;
    }
    let ghost dv = d@;
    let mut list: Vec<LspDiagnostic> = Vec::new();
    list.push(d);
    assert(list@.map_values(|x: LspDiagnostic| x@) =~= seq![dv]);
    t.push((String::from_str(uri), list));
    assert(table_view(t@) =~= tv.push((uri@, seq![dv])));
}

/// Adds the diagnostics of the last analysis to the table, per file, skipping
/// a diagnostic equal to one already listed for its file.
pub fn collect_diagnostics(ws: &crate::analyzer::Workspace, table: &mut DiagnosticTable)
    requires
        ws.source_manager.wf(),
    ensures
        table_view(final(table)@) == table_collect(
            table_view(old(table)@),
            ws.source_manager.model(),
            ws.structure@.diagnostics,
        ),
{
    proof {
        ws.source_manager.lemma_model();
    }
    let ghost ds = ws.structure@.diagnostics;
    let ghost t0 = table_view(table@);
    let mut i: usize = 0;
    while i < ws.structure.diagnostics.len()
        invariant
            0 <= i <= ws.structure.diagnostics@.len(),
            ws.source_manager.wf(),
            ds == ws.structure@.diagnostics,
            table_view(table@) == table_collect(t0, ws.source_manager.model(), ds.take(i as int)),
        decreases ws.structure.diagnostics@.len() - i,
    {
        proof {
            ws.source_manager.lemma_model();
        }
        let d = &ws.structure.diagnostics[i];
        assert(ds[i as int] == d@);
        assert(ds.take(i + 1).drop_last() =~= ds.take(i as int));
        match ws.source_manager.get_uri(d.file_id) {
            Some(u) => {
                let range = match d.span {
                    Some(sp) => ws.source_manager.range_of_span(sp),
                    None => Range {
                        start: Position { line: 0, character: 0 },
                        end: Position { line: 0, character: 0 },
                    },
                };
                let tags = if d.tags.len() == 0 {
                    None
                } else {
                    let mut t: Vec<crate::models::DiagnosticTag> = Vec::new();
                    let mut k: usize = 0;
                    while k < d.tags.len()
                        invariant
                            0 <= k <= d.tags@.len(),
                            t@ == d.tags@.take(k as int),
                        decreases d.tags@.len() - k,
                    {
                        t.push(d.tags[k]);
                        k = k + 1;
                        assert(t@ =~= d.tags@.take(k as int));
                    }
                    assert(d.tags@.take(k as int) =~= d.tags@);
                    Some(t)
                };
                let ld = LspDiagnostic {
                    range,
                    severity: d.severity,
                    message: String::from_str(d.message.as_str()),
                    source: String::from_str("tect"),
                    tags,
                };
                assert(ld@ == published(ws.source_manager.model(), ds[i as int]));
                table_add_exec(table, u, ld);
            },
            None => {},
        }
        i = i + 1;
    }
    assert(ds.take(i as int) =~= ds);
}

/// Whether any diagnostic is an error.
pub fn has_errors(structure: &ProgramStructure) -> (r: bool)
    ensures
        r == exists|k: int|
            0 <= k < structure@.diagnostics.len() && (#[trigger] structure@.diagnostics[k]).severity
                == crate::models::Severity::Error,
{
    let mut i: usize = 0;
    while i < structure.diagnostics.len()
        invariant
            0 <= i <= structure.diagnostics@.len(),
            forall|k: int| 0 <= k < i ==> (#[trigger] structure@.diagnostics[k]).severity != crate::models::Severity::Error,
        decreases structure.diagnostics@.len() - i,
    {
        assert(structure@.diagnostics[i as int] == structure.diagnostics@[i as int]@);
        match structure.diagnostics[i].severity {
            crate::models::Severity::Error => {
                return true;
            },
            _ => {},
        }
        i = i + 1;
    }
    false
}

/// The open documents in the order they are analyzed after a change: the
/// others first, the changed document last.
pub open spec fn analysis_order(open_docs: Seq<Seq<char>>, changed: Seq<char>) -> Seq<Seq<char>> {
    match open_docs.index_of_first(changed) {
        Some(p) => open_docs.remove(p).push(changed),
        None => open_docs.push(changed),
    }
}

/// Orders the open documents for analysis after `changed` changed.
pub fn open_documents_order(open_docs: &Vec<String>, changed: &str) -> (r: Vec<String>)
    ensures
        crate::analyzer::string_views(r@) == analysis_order(crate::analyzer::string_views(open_docs@), changed@),
{
    let ghost ov = crate::analyzer::string_views(open_docs@);
    let mut pos: Option<usize> = None;
    let mut i: usize = 0;
    while i < open_docs.len()
        invariant
            0 <= i <= open_docs@.len(),
            ov == crate::analyzer::string_views(open_docs@),
            pos is None ==> forall|k: int| 0 <= k < i ==> ov[k] != changed@,
            pos matches Some(p) ==> p < i && ov[p as int] == changed@ && forall|k: int| 0 <= k < p ==> ov[k] != changed@,
        decreases open_docs@.len() - i,
    {
        if pos.is_none() && str_eq(open_docs[i].as_str(), changed) {
            pos = Some(i);
        }
        i = i + 1;
    }
    let mut r: Vec<String> = Vec::new();
    let mut j: usize = 0;
    let ghost kept = match pos {
        Some(p) => ov.remove(p as int),
        None => ov,
    };
    proof {
        match pos {
            Some(p) => {
                ov.index_of_first_ensures(changed@);
                assert(ov.contains(changed@)) by {
                    assert(ov[p as int] == changed@);
                }
                match ov.index_of_first(changed@) {
                    Some(q) => {
                        if q < p {
                            assert(ov[q] == changed@);
                        }
                        if q > p {
                            assert(ov[p as int] != changed@);
                        }
                    },
                    None => {},
                }
                assert(ov.index_of_first(changed@) == Some(p as int));
            },
            None => {
                ov.index_of_first_ensures(changed@);
                assert(!ov.contains(changed@));
            },
        }
    }
    while j < open_docs.len()
        invariant
            0 <= j <= open_docs@.len(),
            ov == crate::analyzer::string_views(open_docs@),
            pos matches Some(p) ==> p < open_docs@.len(),
            crate::analyzer::string_views(r@) == match pos {
                Some(p) => if j <= p {
                    ov.take(j as int)
                } else {
                    ov.remove(p as int).take(j - 1)
                },
                None => ov.take(j as int),
            },
        decreases open_docs@.len() - j,
    {
        let ghost before = crate::analyzer::string_views(r@);
        assert(ov[j as int] == open_docs@[j as int]@);
        if pos != Some(j) {
            r.push(String::from_str(open_docs[j].as_str()));
            assert(crate::analyzer::string_views(r@) =~= before.push(ov[j as int]));
        }
        proof {
            match pos {
                Some(p) => {
                    if j < p {
                        assert(crate::analyzer::string_views(r@) =~= ov.take(j + 1));
                    } else if j == p {
                        assert(ov.take(j as int) =~= ov.remove(p as int).take(j as int));
                    } else {
                        assert(ov.remove(p as int)[j - 1] == ov[j as int]);
                        assert(crate::analyzer::string_views(r@) =~= ov.remove(p as int).take(j as int));
                    }
                },
                None => {
                    assert(crate::analyzer::string_views(r@) =~= ov.take(j + 1));
                },
            }
        }
        j = j + 1;
    }
    let ghost before = crate::analyzer::string_views(r@);
    r.push(String::from_str(changed));
    proof {
        match pos {
            Some(p) => {
                assert(ov.remove(p as int).take(j - 1) =~= ov.remove(p as int));
            },
            None => {
                assert(ov.take(j as int) =~= ov);
            },
        }
        assert(crate::analyzer::string_views(r@) =~= before.push(changed@));
    }
    r
}

/// Whether a new graph should be announced: its hash differs from the one
/// last announced for the document, taken as 0 when none was.
pub fn graph_changed(last_hash: Option<u64>, new_hash: u64) -> (r: bool)
    ensures
        r == (new_hash != match last_hash {
            Some(h) => h,
            None => 0,
        }),
{
    let last = match last_hash {
        Some(h) => h,
        None => 0,
    };
    new_hash != last
}

} // verus!
