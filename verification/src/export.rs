//! Static exporters of the execution graph, and what they share.
//!
//! Nodes are listed group by group. Groups come in the order in which their
//! first node appears in the graph; within a group, nodes keep graph order.

pub mod theme;
pub mod dot;
pub mod mermaid;
pub mod tikz;

use vstd::prelude::*;
use crate::models::Node;
use crate::text::{chars_of, push_str, str_eq, string_from_chars};

verus! {

pub open spec fn is_ascii_alnum(c: char) -> bool {
    ('a' <= c && c <= 'z') || ('A' <= c && c <= 'Z') || ('0' <= c && c <= '9')
}

/// An identifier in which every character that is not an ASCII letter or
/// digit is replaced by `_`.
pub open spec fn sanitized(s: Seq<char>) -> Seq<char> {
    s.map_values(|c: char| if is_ascii_alnum(c) { c } else { '_' })
}

/// Makes a name safe as an identifier of the exported formats.
pub fn sanitize_id(s: &str) -> (r: String)
    ensures
        r@ == sanitized(s@),
{
    let cs = chars_of(s);
    let mut out: Vec<char> = Vec::new();
    push_sanitized(&mut out, &cs);
    string_from_chars(&out)
}

/// Appends the sanitized form of `cs`.
pub fn push_sanitized(out: &mut Vec<char>, cs: &Vec<char>)
    ensures
        final(out)@ == old(out)@ + sanitized(cs@),
{
    let ghost start = out@;
    let mut i: usize = 0;
    while i < cs.len()
        invariant
            0 <= i <= cs@.len(),
            out@ == start + sanitized(cs@.take(i as int)),
        decreases cs@.len() - i,
    {
        let c = cs[i];
        let ok = ('a' <= c && c <= 'z') || ('A' <= c && c <= 'Z') || ('0' <= c && c <= '9');
        if ok {
            out.push(c);
        } else {
            out.push('_');
        }
        assert(sanitized(cs@.take(i + 1)) =~= sanitized(cs@.take(i as int)).push(if ok { c } else { '_' }));
        i = i + 1;
    }
    assert(cs@.take(i as int) =~= cs@);
}

/// The characters `&`, `<` and `>` written as HTML entities.
pub open spec fn escape_char(c: char) -> Seq<char> {
    if c == '&' {
        "&amp;"@
    } else if c == '<' {
        "&lt;"@
    } else if c == '>' {
        "&gt;"@
    } else {
        seq![c]
    }
}

pub open spec fn html_escaped(s: Seq<char>) -> Seq<char>
    decreases s.len(),
{
    if s.len() == 0 {
        Seq::empty()
    } else {
        html_escaped(s.drop_last()) + escape_char(s.last())
    }
}

/// Appends `s` with `&`, `<` and `>` escaped.
pub fn push_escaped(out: &mut Vec<char>, s: &str)
    ensures
        final(out)@ == old(out)@ + html_escaped(s@),
{
    let cs = chars_of(s);
    let ghost start = out@;
    let mut i: usize = 0;
    while i < cs.len()
        invariant
            0 <= i <= cs@.len(),
            cs@ == s@,
            out@ == start + html_escaped(cs@.take(i as int)),
        decreases cs@.len() - i,
    {
        let c = cs[i];
        let ghost before = out@;
        if c == '&' {
            push_str(out, "&amp;");
        } else if c == '<' {
            push_str(out, "&lt;");
        } else if c == '>' {
            push_str(out, "&gt;");
        } else {
            out.push(c);
        }
        assert(out@ =~= before + escape_char(c));
        assert(cs@.take(i + 1).drop_last() =~= cs@.take(i as int));
        i = i + 1;
    }
    assert(cs@.take(i as int) =~= cs@);
}

/// The name of the group a node belongs to, if any.
pub open spec fn node_group(n: Node) -> Option<Seq<char>> {
    match n.function.group {
        Some(g) => Some(g.name@),
        None => None,
    }
}

pub open spec fn opt_view(o: Option<String>) -> Option<Seq<char>> {
    match o {
        Some(s) => Some(s@),
        None => None,
    }
}

pub open spec fn opt_views(keys: Seq<Option<String>>) -> Seq<Option<Seq<char>>> {
    keys.map_values(|k: Option<String>| opt_view(k))
}

/// The distinct groups of the nodes, in order of first appearance.
pub open spec fn group_order(nodes: Seq<Node>) -> Seq<Option<Seq<char>>>
    decreases nodes.len(),
{
    if nodes.len() == 0 {
        Seq::empty()
    } else {
        let prev = group_order(nodes.drop_last());
        let k = node_group(nodes.last());
        if prev.contains(k) {
            prev
        } else {
            prev.push(k)
        }
    }
}

/// The group name of a node, as an owned string.
pub fn group_name_of(n: &Node) -> (r: Option<String>)
    ensures
        opt_view(r) == node_group(*n),
{
    match &n.function.group {
        Some(g) => Some(g.name.clone()),
        None => None,
    }
}

/// Whether a node belongs to the group `key` (`None`: to no group).
pub fn in_group(n: &Node, key: &Option<String>) -> (r: bool)
    ensures
        r == (node_group(*n) == opt_view(*key)),
{
    match (&n.function.group, key) {
        (Some(g), Some(k)) => str_eq(g.name.as_str(), k.as_str()),
        (None, None) => true,
        _ => false,
    }
}

/// The distinct groups of the nodes, in order of first appearance.
pub fn group_keys(nodes: &Vec<Node>) -> (r: Vec<Option<String>>)
    ensures
        opt_views(r@) == group_order(nodes@),
{
    let mut keys: Vec<Option<String>> = Vec::new();
    let mut i: usize = 0;
    while i < nodes.len()
        invariant
            0 <= i <= nodes@.len(),
            opt_views(keys@) == group_order(nodes@.take(i as int)),
        decreases nodes@.len() - i,
    {
        let key = group_name_of(&nodes[i]);
        let mut found = false;
        let mut j: usize = 0;
        while j < keys.len()
            invariant
                0 <= j <= keys@.len(),
                found <==> exists|m: int| 0 <= m < j && opt_views(keys@)[m] == opt_view(key),
            decreases keys@.len() - j,
        {
            let same = match (&keys[j], &key) {
                (Some(a), Some(b)) => str_eq(a.as_str(), b.as_str()),
                (None, None) => true,
                _ => false,
            };
            assert(opt_views(keys@)[j as int] == opt_view(keys@[j as int]));
            if same {
                found = true;
            }
            j = j + 1;
        }
        let ghost prev = opt_views(keys@);
        assert(nodes@.take(i + 1).drop_last() =~= nodes@.take(i as int));
        assert(nodes@.take(i + 1).last() == nodes@[i as int]);
        proof {
            if found {
                let m = choose|m: int| 0 <= m < j && opt_views(keys@)[m] == opt_view(key);
                assert(prev[m] == opt_view(key));
                assert(prev.contains(opt_view(key)));
            } else {
                assert forall|m: int| 0 <= m < prev.len() implies prev[m] != opt_view(key) by {
                    assert(opt_views(keys@)[m] == prev[m]);
                }
                assert(!prev.contains(opt_view(key)));
            }
        }
        if !found {
            keys.push(key);
            assert(opt_views(keys@) =~= prev.push(opt_view(key)));
        }
        i = i + 1;
    }
    assert(nodes@.take(i as int) =~= nodes@);
    keys
}

} // verus!
