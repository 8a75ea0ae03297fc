//! The virtual file system: URIs and identifiers of source files, their
//! contents in memory, and the conversion of spans to line and column.
//!
//! Reading a file from disk is left to the caller, which hands the content
//! over through [`SourceManager::load_file`].

use vstd::prelude::*;
use crate::models::{FileId, NameMap, Span, UidMap};
use crate::text::{chars_of, utf8_len, utf8_size, utf8_width};

verus! {

/// A position in a document: zero-based line, and column in UTF-16 code units.
#[derive(Debug, Clone, Copy, PartialEq, Eq, Structural, Hash)]
pub struct Position {
    pub line: u32,
    pub character: u32,
}

/// A range of a document.
#[derive(Debug, Clone, Copy, PartialEq, Eq, Structural, Hash)]
pub struct Range {
    pub start: Position,
    pub end: Position,
}

/// The offsets at which the lines of `s` start: `0`, and one past every newline.
pub open spec fn line_starts(s: Seq<char>) -> Seq<usize>
    decreases s.len(),
{
    if s.len() == 0 {
        seq![0usize]
    } else {
        let p = line_starts(s.drop_last());
        if s.last() == '\n' {
            p.push(s.len() as usize)
        } else {
            p
        }
    }
}

/// The number of UTF-16 code units of a character.
pub open spec fn utf16_width(c: char) -> nat {
    if (c as u32) >= 0x10000 {
        2
    } else {
        1
    }
}

/// The number of UTF-16 code units of a text.
pub open spec fn utf16_len(s: Seq<char>) -> nat
    decreases s.len(),
{
    if s.len() == 0 {
        0
    } else {
        utf16_len(s.drop_last()) + utf16_width(s.last())
    }
}

/// The last line whose start is at or before `offset`.
pub open spec fn line_of(starts: Seq<usize>, offset: int, i: int) -> int
    decreases starts.len() - i,
{
    if i + 1 < starts.len() && starts[i + 1] <= offset {
        line_of(starts, offset, i + 1)
    } else {
        i
    }
}

/// The position of a character offset in a text.
pub open spec fn position_of(s: Seq<char>, offset: int) -> Position {
    let starts = line_starts(s);
    let line = line_of(starts, offset, 0);
    let start = starts[line] as int;
    Position { line: line as u32, character: utf16_len(s.subrange(start, offset)) as u32 }
}

/// The character at which byte offset `b` of a text falls: the number of
/// characters whose encoding lies entirely before it.
pub open spec fn char_index(s: Seq<char>, b: int) -> int {
    crate::lsp::chars_within(s, 0, 0, b as nat)
}

/// The range of a span, given in bytes, in a text; the end is clamped to
/// the text.
pub open spec fn range_of(s: Seq<char>, span: Span) -> Range {
    let n = utf8_len(s);
    let end = if span.end <= n {
        span.end as int
    } else {
        n as int
    };
    Range { start: position_of(s, char_index(s, span.start as int)), end: position_of(s, char_index(s, end)) }
}

proof fn lemma_chars_within_bounds(s: Seq<char>, i: int, bytes: nat, b: nat)
    requires
        0 <= i <= s.len(),
    ensures
        i <= crate::lsp::chars_within(s, i, bytes, b) <= s.len(),
    decreases s.len() - i,
{
    if i < s.len() && bytes + utf8_width(s[i]) <= b {
        lemma_chars_within_bounds(s, i + 1, bytes + utf8_width(s[i]), b);
    }
}

/// The character at which a byte offset falls.
fn char_index_of(cs: &Vec<char>, b: usize) -> (r: usize)
    ensures
        r == char_index(cs@, b as int),
        r <= cs@.len(),
{
    proof {
        lemma_chars_within_bounds(cs@, 0, 0, b as nat);
    }
    let mut k: usize = 0;
    let mut bytes: usize = 0;
    while k < cs.len() && crate::text::utf8_width_exec(cs[k]) <= b - bytes
        invariant
            0 <= k <= cs@.len(),
            bytes <= b,
            crate::lsp::chars_within(cs@, 0, 0, b as nat) == crate::lsp::chars_within(cs@, k as int, bytes as nat, b as nat),
        decreases cs@.len() - k,
    {
        bytes = bytes + crate::text::utf8_width_exec(cs[k]);
        k = k + 1;
    }
    k
}

pub open spec fn opt_string_view(o: Option<String>) -> Option<Seq<char>> {
    match o {
        Some(s) => Some(s@),
        None => None,
    }
}

/// The content of a source manager, as maps.
pub struct SourceModel {
    pub ids: Map<Seq<char>, FileId>,
    pub uris: Map<FileId, Seq<char>>,
    pub contents: Map<FileId, Seq<char>>,
    pub next_id: u32,
}

/// `get_id` on the model: the known identifier, or the next one for a new URI.
pub open spec fn model_get_id(m: SourceModel, uri: Seq<char>) -> (SourceModel, FileId) {
    if m.ids.contains_key(uri) {
        (m, m.ids[uri])
    } else {
        let id = m.next_id;
        (
            SourceModel {
                ids: m.ids.insert(uri, id),
                uris: m.uris.insert(id, uri),
                next_id: id.wrapping_add(1),
                ..m
            },
            id,
        )
    }
}

/// Identifiers and URIs correspond one to one: every identifier given out
/// is below the next one, starting from 1, and names the URI it was given to.
pub open spec fn ids_consistent(m: SourceModel) -> bool {
    &&& m.next_id >= 1
    &&& forall|u: Seq<char>|
        #[trigger] m.ids.contains_key(u) ==> 1 <= m.ids[u] < m.next_id && m.uris.contains_key(m.ids[u])
            && m.uris[m.ids[u]] == u
    &&& forall|f: FileId|
        #[trigger] m.uris.contains_key(f) ==> 1 <= f < m.next_id && m.ids.contains_key(m.uris[f])
            && m.ids[m.uris[f]] == f
}

/// Stores a content on the model.
pub open spec fn model_update(m: SourceModel, id: FileId, content: Seq<char>) -> SourceModel {
    SourceModel { contents: m.contents.insert(id, content), ..m }
}

pub open spec fn default_range() -> Range {
    Range { start: Position { line: 0, character: 0 }, end: Position { line: 0, character: 0 } }
}

/// The range of a span, its start clamped to the text; the empty range at
/// the start of the document for a file that is not loaded.
pub open spec fn span_range(m: SourceModel, span: Span) -> Range {
    if m.contents.contains_key(span.file_id) {
        let c = m.contents[span.file_id];
        let start = if span.start <= utf8_len(c) {
            span.start
        } else {
            utf8_len(c) as usize
        };
        range_of(c, Span { start, ..span })
    } else {
        default_range()
    }
}

/// Source files: identifiers, URIs and contents.
#[derive(Debug)]
pub struct SourceManager {
    file_map: NameMap<FileId>,
    id_map: UidMap<String>,
    contents: UidMap<String>,
    line_indices: UidMap<Vec<usize>>,
    next_id: u32,
}

impl SourceManager {
    /// The identifier of a URI, if it has one.
    pub closed spec fn spec_id(&self, uri: Seq<char>) -> Option<FileId> {
        self.file_map.spec_get(uri)
    }

    /// The URI of an identifier, if it has one.
    pub closed spec fn spec_uri(&self, id: FileId) -> Option<Seq<char>> {
        opt_string_view(self.id_map.spec_get(id))
    }

    /// The content in memory of a file, if it has been loaded.
    pub closed spec fn spec_content(&self, id: FileId) -> Option<Seq<char>> {
        opt_string_view(self.contents.spec_get(id))
    }

    /// The identifier that the next new URI receives.
    pub closed spec fn spec_next_id(&self) -> u32 {
        self.next_id
    }

    pub closed spec fn model(&self) -> SourceModel {
        SourceModel {
            ids: Map::new(|u: Seq<char>| self.spec_id(u) is Some, |u: Seq<char>| self.spec_id(u)->0),
            uris: Map::new(|f: FileId| self.spec_uri(f) is Some, |f: FileId| self.spec_uri(f)->0),
            contents: Map::new(|f: FileId| self.spec_content(f) is Some, |f: FileId| self.spec_content(f)->0),
            next_id: self.next_id,
        }
    }

    /// The model agrees with the queries.
    pub proof fn lemma_model(&self)
        ensures
            forall|u: Seq<char>| #[trigger] self.model().ids.contains_key(u) <==> self.spec_id(u) is Some,
            forall|u: Seq<char>| self.spec_id(u) is Some ==> #[trigger] self.model().ids[u] == self.spec_id(u)->0,
            forall|f: FileId| #[trigger] self.model().uris.contains_key(f) <==> self.spec_uri(f) is Some,
            forall|f: FileId| self.spec_uri(f) is Some ==> #[trigger] self.model().uris[f] == self.spec_uri(f)->0,
            forall|f: FileId| #[trigger] self.model().contents.contains_key(f) <==> self.spec_content(f) is Some,
            forall|f: FileId| self.spec_content(f) is Some ==> #[trigger] self.model().contents[f]
                == self.spec_content(f)->0,
            self.model().next_id == self.spec_next_id(),
    {
    }

    /// Every loaded file has the line starts of its content.
    pub closed spec fn wf(&self) -> bool {
        forall|id: FileId|
            #![trigger self.contents.spec_get(id)]
            #![trigger self.line_indices.spec_get(id)]
            match (self.contents.spec_get(id), self.line_indices.spec_get(id)) {
                (Some(c), Some(l)) => l@ == line_starts(c@),
                (None, None) => true,
                _ => false,
            }
    }

    /// An empty file system; identifiers start at 1.
    pub fn new() -> (sm: Self)
        ensures
            sm.wf(),
            sm.spec_next_id() == 1,
            ids_consistent(sm.model()),
            forall|u: Seq<char>| #[trigger] sm.spec_id(u) is None,
            forall|id: FileId| #[trigger] sm.spec_uri(id) is None,
            forall|id: FileId| #[trigger] sm.spec_content(id) is None,
    {
        let sm = SourceManager {
            file_map: NameMap::new(),
            id_map: UidMap::new(),
            contents: UidMap::new(),
            line_indices: UidMap::new(),
            next_id: 1,
        };
        proof {
            sm.lemma_model();
        }
        sm
    }

    /// The identifier of a URI, allocating the next one for a new URI.
    /// Identifiers are allocated in sequence and wrap around. While fewer
    /// than `u32::MAX` identifiers have been given out, different URIs get
    /// different identifiers, each naming its URI.
    pub fn get_id(&mut self, uri: &str) -> (id: FileId)
        ensures
            match old(self).spec_id(uri@) {
                Some(known) => {
                    &&& id == known
                    &&& final(self).spec_next_id() == old(self).spec_next_id()
                    &&& forall|u: Seq<char>| #[trigger] final(self).spec_id(u) == old(self).spec_id(u)
                    &&& forall|f: FileId| #[trigger] final(self).spec_uri(f) == old(self).spec_uri(f)
                },
                None => {
                    &&& id == old(self).spec_next_id()
                    &&& final(self).spec_next_id() == old(self).spec_next_id().wrapping_add(1)
                    &&& final(self).spec_id(uri@) == Some(id)
                    &&& forall|u: Seq<char>| u != uri@ ==> #[trigger] final(self).spec_id(u) == old(self).spec_id(u)
                    &&& final(self).spec_uri(id) == Some(uri@)
                    &&& forall|f: FileId| f != id ==> #[trigger] final(self).spec_uri(f) == old(self).spec_uri(f)
                },
            },
            forall|f: FileId| #[trigger] final(self).spec_content(f) == old(self).spec_content(f),
            old(self).wf() ==> final(self).wf(),
            (final(self).model(), id) == model_get_id(old(self).model(), uri@),
            ids_consistent(old(self).model()) && old(self).spec_next_id() < u32::MAX ==> {
                &&& ids_consistent(final(self).model())
                &&& final(self).spec_uri(id) == Some(uri@)
                &&& forall|w: Seq<char>| w != uri@ ==> #[trigger] final(self).spec_id(w) != Some(id)
            },
    {
        let ghost m0 = self.model();
        let id = match self.file_map.get(uri) {
            Some(id) => *id,
            None => {
                let id = self.next_id;
                self.next_id = self.next_id.wrapping_add(1);
                self.file_map.insert(String::from_str(uri), id);
                self.id_map.insert(id, String::from_str(uri));
                assert(self.model().ids =~= m0.ids.insert(uri@, id));
                assert(self.model().uris =~= m0.uris.insert(id, uri@));
                assert(self.model().contents =~= m0.contents);
                id
            },
        };
        proof {
            if ids_consistent(m0) && m0.next_id < u32::MAX {
                self.lemma_model();
                let m1 = self.model();
                assert(ids_consistent(m1));
                assert(m1.ids.contains_key(uri@) && m1.ids[uri@] == id);
                assert(m1.uris.contains_key(id) && m1.uris[id] == uri@);
                assert forall|w: Seq<char>| w != uri@ implies #[trigger] self.spec_id(w) != Some(id) by {
                    if self.spec_id(w) == Some(id) {
                        assert(m1.ids.contains_key(w));
                        assert(m1.uris[m1.ids[w]] == w);
                    }
                }
            }
        }
        id
    }

    /// The URI of a file.
    pub fn get_uri(&self, id: FileId) -> (r: Option<&str>)
        ensures
            match r {
                Some(u) => self.spec_uri(id) == Some(u@),
                None => self.spec_uri(id) is None,
            },
    {
        match self.id_map.get(&id) {
            Some(u) => Some(u.as_str()),
            None => None,
        }
    }

    /// The content in memory of a file.
    pub fn get_content(&self, id: FileId) -> (r: Option<&str>)
        ensures
            match r {
                Some(c) => self.spec_content(id) == Some(c@),
                None => self.spec_content(id) is None,
            },
    {
        match self.contents.get(&id) {
            Some(c) => Some(c.as_str()),
            None => None,
        }
    }

    /// Stores the content of a file, with the starts of its lines.
    pub fn update_content(&mut self, id: FileId, content: String)
        ensures
            final(self).spec_content(id) == Some(content@),
            forall|f: FileId| f != id ==> #[trigger] final(self).spec_content(f) == old(self).spec_content(f),
            forall|u: Seq<char>| #[trigger] final(self).spec_id(u) == old(self).spec_id(u),
            forall|f: FileId| #[trigger] final(self).spec_uri(f) == old(self).spec_uri(f),
            final(self).spec_next_id() == old(self).spec_next_id(),
            old(self).wf() ==> final(self).wf(),
            final(self).model() == model_update(old(self).model(), id, content@),
    {
        let ghost m0 = self.model();
        let ghost c = content@;
        let indices = self.compute_line_indices(content.as_str());
        self.contents.insert(id, content);
        self.line_indices.insert(id, indices);
        assert(self.model().contents =~= m0.contents.insert(id, c));
        assert(self.model().ids =~= m0.ids);
        assert(self.model().uris =~= m0.uris);
    }

    /// Loads the content of a file from memory: an explicit content replaces
    /// what is stored; without one, the stored content stays. Returns whether
    /// a content is available. Reading the disk is the caller's part: when
    /// this returns `false`, the caller reads the file and loads its content.
    pub fn load_file(&mut self, id: FileId, explicit_content: Option<String>) -> (loaded: bool)
        ensures
            match explicit_content {
                Some(c) => loaded && final(self).spec_content(id) == Some(c@),
                None => loaded == (old(self).spec_content(id) is Some) && final(self).spec_content(id)
                    == old(self).spec_content(id),
            },
            forall|f: FileId| f != id ==> #[trigger] final(self).spec_content(f) == old(self).spec_content(f),
            forall|u: Seq<char>| #[trigger] final(self).spec_id(u) == old(self).spec_id(u),
            forall|f: FileId| #[trigger] final(self).spec_uri(f) == old(self).spec_uri(f),
            final(self).spec_next_id() == old(self).spec_next_id(),
            old(self).wf() ==> final(self).wf(),
            final(self).model() == match explicit_content {
                Some(c) => model_update(old(self).model(), id, c@),
                None => old(self).model(),
            },
    {
        match explicit_content {
            Some(content) => {
                self.update_content(id, content);
                true
            },
            None => self.contents.get(&id).is_some(),
        }
    }

    /// The offsets at which the lines of a text start, in characters.
    fn compute_line_indices(&self, content: &str) -> (indices: Vec<usize>)
        ensures
            indices@ == line_starts(content@),
    {
        let cs = chars_of(content);
        let mut indices: Vec<usize> = vec![0];
        let mut i: usize = 0;
        while i < cs.len()
            invariant
                0 <= i <= cs@.len(),
                indices@ == line_starts(cs@.take(i as int)),
            decreases cs@.len() - i,
        {
            assert(cs@.take(i + 1).drop_last() =~= cs@.take(i as int));
            if cs[i] == '\n' {
                indices.push(i + 1);
            }
            i = i + 1;
        }
        assert(cs@.take(i as int) =~= cs@);
        indices
    }

    /// The line and column range of a span. A span of a file that is not
    /// loaded resolves to the empty range at the start of the document.
    pub fn resolve_range(&self, span: Span) -> (r: Range)
        requires
            self.wf(),
            self.spec_content(span.file_id) matches Some(c) ==> span.start <= utf8_len(c),
        ensures
            match self.spec_content(span.file_id) {
                Some(c) => r == range_of(c, span),
                None => r == (Range { start: Position { line: 0, character: 0 }, end: Position { line: 0, character: 0 } }),
            },
    {
        let default = Range { start: Position { line: 0, character: 0 }, end: Position { line: 0, character: 0 } };
        let indices = match self.line_indices.get(&span.file_id) {
            Some(l) => l,
            None => {
                return default;
            },
        };
        let content = match self.contents.get(&span.file_id) {
            Some(c) => c,
            None => {
                return default;
            },
        };
        let cs = chars_of(content.as_str());
        let n = utf8_size(content.as_str());
        let len = cs.len();
        proof {
            assert(cs@.len() == len);
            lemma_line_starts(cs@);
        }
        let start = find_pos(&cs, indices, char_index_of(&cs, span.start));
        let end_offset = if span.end <= n {
            span.end
        } else {
            n
        };
        let end = find_pos(&cs, indices, char_index_of(&cs, end_offset));
        Range { start, end }
    }
}

impl SourceManager {
    /// The range of a span whose start may lie past the end of the loaded
    /// text (a span of an older version of it): the start is clamped.
    pub fn range_of_span(&self, span: Span) -> (r: Range)
        requires
            self.wf(),
        ensures
            r == span_range(self.model(), span),
    {
        proof {
            self.lemma_model();
        }
        let start = match self.get_content(span.file_id) {
            Some(c) => {
                let n = utf8_size(c);
                if span.start <= n {
                    span.start
                } else {
                    n
                }
            },
            None => span.start,
        };
        self.resolve_range(Span { start, ..span })
    }
}

/// The line starts are increasing, begin at 0, and stay within the text.
pub proof fn lemma_line_starts(s: Seq<char>)
    requires
        s.len() <= usize::MAX,
    ensures
        line_starts(s).len() >= 1,
        line_starts(s)[0] == 0,
        forall|k: int| 0 <= k < line_starts(s).len() ==> #[trigger] line_starts(s)[k] <= s.len(),
        forall|k: int| 0 < k < line_starts(s).len() ==> s[line_starts(s)[k] - 1] == '\n',
        forall|j: int, k: int| 0 <= j < k < line_starts(s).len() ==> line_starts(s)[j] < line_starts(s)[k],
    decreases s.len(),
{
    if s.len() > 0 {
        lemma_line_starts(s.drop_last());
        let p = line_starts(s.drop_last());
        let q = line_starts(s);
        assert forall|k: int| 0 < k < p.len() implies s[p[k] - 1] == '\n' by {
            assert(s.drop_last()[p[k] - 1] == s[p[k] - 1]);
        }
        if s.last() == '\n' {
            assert(q == p.push(s.len() as usize));
            assert forall|k: int| 0 < k < q.len() implies s[q[k] - 1] == '\n' by {
                if k < p.len() {
                    assert(q[k] == p[k]);
                }
            }
            assert forall|j: int, k: int| 0 <= j < k < q.len() implies q[j] < q[k] by {
                if k < p.len() {
                    assert(q[j] == p[j] && q[k] == p[k]);
                } else {
                    assert(q[j] == p[j]);
                }
            }
        }
    }
}

fn find_pos(cs: &Vec<char>, indices: &Vec<usize>, offset: usize) -> (p: Position)
    requires
        offset <= cs@.len(),
        indices@ == line_starts(cs@),
        indices@.len() >= 1,
        indices@[0] == 0,
        forall|k: int| 0 <= k < indices@.len() ==> #[trigger] indices@[k] <= cs@.len(),
    ensures
        p == position_of(cs@, offset as int),
{
    let n = indices.len();
    let mut line: usize = 0;
    while line + 1 < n && indices[line + 1] <= offset
        invariant
            n == indices@.len(),
            0 <= line < indices@.len(),
            indices@[line as int] <= offset,
            line_of(indices@, offset as int, 0) == line_of(indices@, offset as int, line as int),
        decreases indices@.len() - line,
    {
        line = line + 1;
    }
    let line_start = indices[line];
    let mut col: u128 = 0;
    let mut k = line_start;
    while k < offset
        invariant
            line_start <= k <= offset,
            offset <= cs@.len(),
            col == utf16_len(cs@.subrange(line_start as int, k as int)),
            col <= 2 * (k - line_start),
        decreases offset - k,
    {
        assert(cs@.subrange(line_start as int, k + 1).drop_last() =~= cs@.subrange(line_start as int, k as int));
        let c = cs[k];
        if (c as u32) >= 0x10000 {
            col = col + 2;
        } else {
            col = col + 1;
        }
        k = k + 1;
    }
    Position { line: #[verifier::truncate] (line as u32), character: #[verifier::truncate] (col as u32) }
}

} // verus!
