//! The Tect formatter: one standard layout for every source.

use vstd::prelude::*;
use crate::parser::{
    item_views, items_within, parse_chars, parse_program, Extent, Item, ItemModel, OutputLine,
    OutputLineModel, TokenNode, output_views, extent_within, extents_within, output_within,
    outputs_within, token_within, tokens_within,
};
use crate::text::{
    chars_of, count_newlines, join, lemma_join_push, newlines_in, push_range, string_from_chars,
    trim_range, trimmed,
};

verus! {

/// A token as the formatter writes it: `Name` or `[Name]`.
pub open spec fn token_text(s: Seq<char>, t: TokenNode) -> Seq<char> {
    if t.collection {
        seq!['['] + trimmed(s, t.name.start as int, t.name.end as int) + seq![']']
    } else {
        trimmed(s, t.extent.start as int, t.extent.end as int)
    }
}

/// A token list as the formatter writes it: tokens separated by `, `.
pub open spec fn tokens_text(s: Seq<char>, ts: Seq<TokenNode>) -> Seq<char> {
    join(ts.map_values(|t: TokenNode| token_text(s, t)), seq![',', ' '])
}

/// An output line, indented by four spaces.
pub open spec fn output_text(s: Seq<char>, l: OutputLineModel) -> Seq<char> {
    seq![' ', ' ', ' ', ' ', if l.alternative { '|' } else { '>' }, ' '] + tokens_text(s, l.tokens)
}

pub open spec fn extent_text(s: Seq<char>, e: Extent) -> Seq<char> {
    trimmed(s, e.start as int, e.end as int)
}

/// The header of a function: group, keyword, name and inputs, separated by spaces.
pub open spec fn header_parts(
    s: Seq<char>,
    group: Option<Extent>,
    keyword: Extent,
    name: Extent,
    inputs: Seq<TokenNode>,
) -> Seq<Seq<char>> {
    (match group {
        Some(g) => seq![extent_text(s, g)],
        None => Seq::empty(),
    }) + seq![extent_text(s, keyword), extent_text(s, name)] + (if inputs.len() > 0 {
        seq![tokens_text(s, inputs)]
    } else {
        Seq::empty()
    })
}

/// A function: its documentation lines, its header and its output lines, one per line.
pub open spec fn function_text(
    s: Seq<char>,
    docs: Seq<Extent>,
    group: Option<Extent>,
    keyword: Extent,
    name: Extent,
    inputs: Seq<TokenNode>,
    outputs: Seq<OutputLineModel>,
) -> Seq<char> {
    join(
        docs.map_values(|d: Extent| extent_text(s, d)) + seq![join(header_parts(s, group, keyword, name, inputs), seq![' '])]
            + outputs.map_values(|l: OutputLineModel| output_text(s, l)),
        seq!['\n'],
    )
}

/// The formatted text of an item: functions are rebuilt, other items are trimmed.
pub open spec fn block_text(s: Seq<char>, it: ItemModel) -> Seq<char> {
    match it {
        ItemModel::Function { extent, docs, group, keyword, name, inputs, outputs } => function_text(
            s,
            docs,
            group,
            keyword,
            name,
            inputs,
            outputs,
        ),
        _ => extent_text(s, it.extent()),
    }
}

/// The blocks of a program: items whose formatted text is not empty.
pub open spec fn blocks(s: Seq<char>, items: Seq<ItemModel>) -> Seq<(Seq<char>, Extent)>
    decreases items.len(),
{
    if items.len() == 0 {
        Seq::empty()
    } else {
        let prev = blocks(s, items.drop_last());
        let t = block_text(s, items.last());
        if t.len() == 0 {
            prev
        } else {
            prev.push((t, items.last().extent()))
        }
    }
}

/// The separator between two blocks: a blank line when the source had one.
pub open spec fn separator(s: Seq<char>, prev: Extent, next: Extent) -> Seq<char> {
    if count_newlines(s.subrange(prev.end as int, next.start as int)) >= 2 {
        seq!['\n', '\n']
    } else {
        seq!['\n']
    }
}

/// The blocks joined by their separators.
pub open spec fn glue(s: Seq<char>, bs: Seq<(Seq<char>, Extent)>) -> Seq<char>
    decreases bs.len(),
{
    if bs.len() == 0 {
        Seq::empty()
    } else if bs.len() == 1 {
        bs[0].0
    } else {
        glue(s, bs.drop_last()) + separator(s, bs[bs.len() - 2].1, bs.last().1) + bs.last().0
    }
}

/// The formatted source, or `None` when it does not parse.
pub open spec fn formatted(s: Seq<char>) -> Option<Seq<char>> {
    match parse_program(s) {
        Ok(items) => {
            let bs = blocks(s, items);
            if bs.len() == 0 {
                Some(Seq::empty())
            } else {
                Some(glue(s, bs).push('\n'))
            }
        },
        Err(_) => None,
    }
}

} // verus!

verus! {

/// Appends `s[a..b]` without surrounding white space.
fn push_trimmed(out: &mut Vec<char>, s: &Vec<char>, a: usize, b: usize)
    requires
        a <= b <= s@.len(),
    ensures
        final(out)@ == old(out)@ + trimmed(s@, a as int, b as int),
{
    let (l, r) = trim_range(s, a, b);
    push_range(out, s, l, r);
}

fn push_token(out: &mut Vec<char>, s: &Vec<char>, t: TokenNode)
    requires
        token_within(t, s@.len()),
    ensures
        final(out)@ == old(out)@ + token_text(s@, t),
{
    if t.collection {
        let ghost start = out@;
        out.push('[');
        push_trimmed(out, s, t.name.start, t.name.end);
        out.push(']');
        assert(out@ =~= start + (seq!['['] + trimmed(s@, t.name.start as int, t.name.end as int) + seq![']']));
    } else {
        push_trimmed(out, s, t.extent.start, t.extent.end);
    }
}

fn push_tokens(out: &mut Vec<char>, s: &Vec<char>, ts: &Vec<TokenNode>)
    requires
        tokens_within(ts@, s@.len()),
    ensures
        final(out)@ == old(out)@ + tokens_text(s@, ts@),
{
    let ghost parts = ts@.map_values(|t: TokenNode| token_text(s@, t));
    let ghost start = out@;
    let mut i: usize = 0;
    while i < ts.len()
        invariant
            0 <= i <= ts@.len(),
            tokens_within(ts@, s@.len()),
            parts == ts@.map_values(|t: TokenNode| token_text(s@, t)),
            out@ == start + join(parts.take(i as int), seq![',', ' ']),
        decreases ts@.len() - i,
    {
        let ghost before = out@;
        if i > 0 {
            out.push(',');
            out.push(' ');
        }
        assert(token_within(ts@[i as int], s@.len()));
        push_token(out, s, ts[i]);
        proof {
            lemma_join_push(parts.take(i as int), parts[i as int], seq![',', ' ']);
            assert(parts.take(i + 1) =~= parts.take(i as int).push(parts[i as int]));
            if i == 0 {
                assert(out@ =~= start + join(parts.take(i + 1), seq![',', ' ']));
            } else {
                assert(out@ =~= start + join(parts.take(i + 1), seq![',', ' ']));
            }
        }
        i = i + 1;
    }
    assert(parts.take(i as int) =~= parts);
}

fn push_output(out: &mut Vec<char>, s: &Vec<char>, l: &OutputLine)
    requires
        output_within(l@, s@.len()),
    ensures
        final(out)@ == old(out)@ + output_text(s@, l@),
{
    let ghost start = out@;
    out.push(' ');
    out.push(' ');
    out.push(' ');
    out.push(' ');
    if l.alternative {
        out.push('|');
    } else {
        out.push('>');
    }
    out.push(' ');
    push_tokens(out, s, &l.tokens);
    assert(out@ =~= start + output_text(s@, l@));
}

fn push_header(
    out: &mut Vec<char>,
    s: &Vec<char>,
    group: Option<Extent>,
    keyword: Extent,
    name: Extent,
    inputs: &Vec<TokenNode>,
)
    requires
        group matches Some(g) ==> extent_within(g, s@.len()),
        extent_within(keyword, s@.len()),
        extent_within(name, s@.len()),
        tokens_within(inputs@, s@.len()),
    ensures
        final(out)@ == old(out)@ + join(header_parts(s@, group, keyword, name, inputs@), seq![' ']),
{
    let ghost start = out@;
    let ghost sp = seq![' '];
    let ghost mut parts: Seq<Seq<char>> = Seq::empty();
    match group {
        Some(g) => {
            push_trimmed(out, s, g.start, g.end);
            out.push(' ');
            proof {
                lemma_join_push(parts, extent_text(s@, g), sp);
                parts = parts.push(extent_text(s@, g));
            }
        },
        None => {},
    }
    push_trimmed(out, s, keyword.start, keyword.end);
    proof {
        lemma_join_push(parts, extent_text(s@, keyword), sp);
        parts = parts.push(extent_text(s@, keyword));
        assert(out@ =~= start + join(parts, sp));
    }
    out.push(' ');
    push_trimmed(out, s, name.start, name.end);
    proof {
        lemma_join_push(parts, extent_text(s@, name), sp);
        parts = parts.push(extent_text(s@, name));
        assert(out@ =~= start + join(parts, sp));
    }
    if inputs.len() > 0 {
        out.push(' ');
        push_tokens(out, s, inputs);
        proof {
            lemma_join_push(parts, tokens_text(s@, inputs@), sp);
            parts = parts.push(tokens_text(s@, inputs@));
            assert(out@ =~= start + join(parts, sp));
        }
    }
    assert(parts =~= header_parts(s@, group, keyword, name, inputs@));
}

fn push_function(
    out: &mut Vec<char>,
    s: &Vec<char>,
    docs: &Vec<Extent>,
    group: Option<Extent>,
    keyword: Extent,
    name: Extent,
    inputs: &Vec<TokenNode>,
    outputs: &Vec<OutputLine>,
)
    requires
        extents_within(docs@, s@.len()),
        group matches Some(g) ==> extent_within(g, s@.len()),
        extent_within(keyword, s@.len()),
        extent_within(name, s@.len()),
        tokens_within(inputs@, s@.len()),
        outputs_within(output_views(outputs@), s@.len()),
    ensures
        final(out)@ == old(out)@ + function_text(s@, docs@, group, keyword, name, inputs@, output_views(outputs@)),
{
    let ghost nl = seq!['\n'];
    let ghost doc_parts = docs@.map_values(|d: Extent| extent_text(s@, d));
    let ghost header = join(header_parts(s@, group, keyword, name, inputs@), seq![' ']);
    let ghost out_parts = output_views(outputs@).map_values(|l: OutputLineModel| output_text(s@, l));
    let ghost start = out@;
    let mut i: usize = 0;
    while i < docs.len()
        invariant
            0 <= i <= docs@.len(),
            extents_within(docs@, s@.len()),
            doc_parts == docs@.map_values(|d: Extent| extent_text(s@, d)),
            nl == seq!['\n'],
            out@ == start + join(doc_parts.take(i as int), nl),
        decreases docs@.len() - i,
    {
        let ghost before = out@;
        if i > 0 {
            out.push('\n');
            assert(out@ =~= before + nl);
        }
        let ghost mid = out@;
        assert(extent_within(docs@[i as int], s@.len()));
        push_trimmed(out, s, docs[i].start, docs[i].end);
        proof {
            assert(doc_parts[i as int] == extent_text(s@, docs@[i as int]));
            if i > 0 {
                assert(out@ =~= before + nl + doc_parts[i as int]);
            } else {
                assert(out@ =~= before + doc_parts[i as int]);
            }
            lemma_join_push(doc_parts.take(i as int), doc_parts[i as int], nl);
            assert(doc_parts.take(i + 1) =~= doc_parts.take(i as int).push(doc_parts[i as int]));
            assert(out@ =~= start + join(doc_parts.take(i + 1), nl));
        }
        i = i + 1;
    }
    assert(doc_parts.take(i as int) =~= doc_parts);
    if docs.len() > 0 {
        out.push('\n');
    }
    push_header(out, s, group, keyword, name, inputs);
    let ghost mut parts = doc_parts.push(header);
    proof {
        lemma_join_push(doc_parts, header, nl);
        assert(out@ =~= start + join(parts, nl));
    }
    let mut j: usize = 0;
    while j < outputs.len()
        invariant
            0 <= j <= outputs@.len(),
            outputs_within(output_views(outputs@), s@.len()),
            out_parts == output_views(outputs@).map_values(|l: OutputLineModel| output_text(s@, l)),
            parts == doc_parts.push(header) + out_parts.take(j as int),
            nl == seq!['\n'],
            out@ == start + join(parts, nl),
        decreases outputs@.len() - j,
    {
        let ghost before = out@;
        out.push('\n');
        assert(out@ =~= before + nl);
        let ghost mid = out@;
        assert(output_views(outputs@)[j as int] == outputs@[j as int]@);
        assert(output_within(output_views(outputs@)[j as int], s@.len()));
        push_output(out, s, &outputs[j]);
        proof {
            assert(out_parts[j as int] == output_text(s@, output_views(outputs@)[j as int]));
            assert(out@ =~= before + nl + out_parts[j as int]);
            lemma_join_push(parts, out_parts[j as int], nl);
            assert(doc_parts.push(header).len() > 0);
            assert(out@ =~= start + join(parts.push(out_parts[j as int]), nl));
            assert(doc_parts.push(header) + out_parts.take(j + 1) =~= parts.push(out_parts[j as int]));
            parts = parts.push(out_parts[j as int]);
        }
        j = j + 1;
    }
    assert(out_parts.take(j as int) =~= out_parts);
    assert(parts =~= doc_parts + seq![header] + out_parts);
}

fn push_block(out: &mut Vec<char>, s: &Vec<char>, it: &Item)
    requires
        it@.within(s@.len()),
    ensures
        final(out)@ == old(out)@ + block_text(s@, it@),
{
    match it {
        Item::Function { extent, docs, group, keyword, name, inputs, outputs } => {
            push_function(out, s, docs, *group, *keyword, *name, inputs, outputs);
        },
        _ => {
            let e = it.extent();
            push_trimmed(out, s, e.start, e.end);
        },
    }
}

/// Formats a Tect source: every item is written in its standard layout, and
/// items are separated by one newline, or by a blank line where the source had
/// one. Returns `None` when the source does not parse.
pub fn format_tect_source(content: &str) -> (r: Option<String>)
    ensures
        match r {
            Some(o) => formatted(content@) == Some(o@),
            None => formatted(content@) is None,
        },
{
    let s = chars_of(content);
    let items = match parse_chars(&s) {
        Ok(items) => items,
        Err(_) => {
            return None;
        },
    };
    let ghost iv = item_views(items@);
    let mut out: Vec<char> = Vec::new();
    let mut prev: Option<Extent> = None;
    let mut i: usize = 0;
    while i < items.len()
        invariant
            0 <= i <= items@.len(),
            iv == item_views(items@),
            parse_program(s@) == Ok::<Seq<ItemModel>, int>(iv),
            items_within(iv, s@.len()),
            prev is None <==> blocks(s@, iv.take(i as int)).len() == 0,
            prev matches Some(e) ==> {
                &&& e == blocks(s@, iv.take(i as int)).last().1
                &&& e.end <= s@.len()
                &&& (i < iv.len() ==> e.end <= iv[i as int].extent().start)
            },
            out@ == glue(s@, blocks(s@, iv.take(i as int))),
        decreases items@.len() - i,
    {
        assert(iv[i as int] == items@[i as int]@);
        assert(iv[i as int].within(s@.len()));
        let mut text: Vec<char> = Vec::new();
        push_block(&mut text, &s, &items[i]);
        let e = items[i].extent();
        let ghost bs = blocks(s@, iv.take(i as int));
        assert(iv.take(i + 1).drop_last() =~= iv.take(i as int));
        assert(iv.take(i + 1).last() == iv[i as int]);
        if text.len() > 0 {
            let ghost before = out@;
            match prev {
                Some(p) => {
                    let n = newlines_in(&s, p.end, e.start);
                    if n >= 2 {
                        out.push('\n');
                        out.push('\n');
                    } else {
                        out.push('\n');
                    }
                    assert(out@ =~= before + separator(s@, bs.last().1, e));
                },
                None => {},
            }
            push_range(&mut out, &text, 0, text.len());
            proof {
                let nb = bs.push((text@, e));
                assert(text@.subrange(0, text@.len() as int) =~= text@);
                assert(nb.drop_last() =~= bs);
                if bs.len() > 0 {
                    assert(nb[nb.len() - 2] == bs.last());
                }
            }
            prev = Some(e);
        }
        proof {
            if i + 1 < iv.len() {
                assert(iv[i as int].extent().end <= iv[i + 1].extent().start);
            }
        }
        i = i + 1;
    }
    assert(iv.take(i as int) =~= iv);
    if prev.is_none() {
        return Some(String::new());
    }
    out.push('\n');
    Some(string_from_chars(&out))
}

} // verus!
