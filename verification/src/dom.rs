//! A plain, indexable rendering of a parsed HTML fragment.
//!
//! The booking system's pages are parsed by an HTML parser behind a small
//! trusted boundary; what comes back is a flat arena of nodes in document
//! (pre-order) order, each holding its element name and attributes or its
//! text, plus the indices of its children. All sibling/child navigation the
//! extractor performs is verified over this arena.

use vstd::prelude::*;
use crate::strutil;

verus! {

/// One attribute of an element node.
pub struct Attr {
    pub name: String,
    pub value: String,
}

/// What one DOM node holds.
pub enum NodeData {
    Element { name: String, attrs: Vec<Attr> },
    Text { text: String },
    Other,
}

/// One node of the arena; `children` holds arena indices.
pub struct DomNode {
    pub data: NodeData,
    pub children: Vec<usize>,
}

/// The arena the HTML parser yields for a fragment, in document order.
/// The parser is deterministic: the arena is a function of the markup alone.
pub uninterp spec fn dom_of(s: Seq<char>) -> Seq<DomNode>;

#[verifier::external_type_specification]
#[verifier::external_body]
pub struct ExScraperNode(scraper::Node);

#[verifier::external_type_specification]
#[verifier::external_body]
#[verifier::reject_recursive_types(T)]
pub struct ExNodeRef<'a, T: 'a>(ego_tree::NodeRef<'a, T>);

/// Relies on scraper::Node: copies one node's own data out, one enum arm
/// per case; element name and attributes, or the text, are cloned into
/// plain strings.
#[verifier::external_body]
fn node_data_of(n: &scraper::Node) -> NodeData {
    match n {
        scraper::Node::Element(e) => {
            let mut attrs: Vec<Attr> = Vec::new();
            for (k, v) in e.attrs() {
                attrs.push(Attr { name: k.to_string(), value: v.to_string() });
            }
            NodeData::Element { name: e.name().to_string(), attrs }
        },
        scraper::Node::Text(t) => {
            let s: &str = t;
            NodeData::Text { text: s.to_string() }
        },
        _ => NodeData::Other,
    }
}

/// Relies on ego_tree::NodeRef::children: appends the subtree under `n` to
/// the arena in pre-order, recording each node's child indices. Recursion
/// depth equals the markup's nesting depth, so absurdly nested input could
/// exhaust the stack; the legacy template is a few levels deep.
#[verifier::external_body]
fn copy_subtree(n: ego_tree::NodeRef<'_, scraper::Node>, out: &mut Vec<DomNode>) {
    let idx = out.len();
    out.push(DomNode { data: node_data_of(n.value()), children: Vec::new() });
    let mut kids: Vec<usize> = Vec::new();
    for c in n.children() {
        kids.push(out.len());
        copy_subtree(c, out);
    }
    out[idx].children = kids;
}

/// Relies on scraper::Html::parse_fragment: parses the markup as an HTML
/// fragment; the resulting tree is copied into the arena in document order.
#[verifier::external_body]
pub(crate) fn parse_fragment_dom(html: &str) -> (r: Vec<DomNode>)
    ensures
        r@ == dom_of(html@),
{
    let doc = scraper::Html::parse_fragment(html);
    let mut out: Vec<DomNode> = Vec::new();
    copy_subtree(doc.tree.root(), &mut out);
    out
}

/// The first position at or after `k` where `cs` holds `target`.
pub open spec fn find_child(cs: Seq<usize>, target: usize, k: int) -> Option<int>
    decreases cs.len() - k,
{
    if k < 0 || k >= cs.len() {
        None
    } else if cs[k] == target {
        Some(k)
    } else {
        find_child(cs, target, k + 1)
    }
}

/// The first node at or after `j` listing `target` among its children,
/// together with the child position.
pub open spec fn find_parent_from(t: Seq<DomNode>, target: usize, j: int) -> Option<(int, int)>
    decreases t.len() - j,
{
    if j < 0 || j >= t.len() {
        None
    } else {
        match find_child(t[j].children@, target, 0) {
            Some(k) => Some((j, k)),
            None => find_parent_from(t, target, j + 1),
        }
    }
}

pub open spec fn next_sibling_spec(t: Seq<DomNode>, i: usize) -> Option<usize> {
    match find_parent_from(t, i, 0) {
        Some(pk) => {
            let cs = t[pk.0].children@;
            if pk.1 + 1 < cs.len() {
                Some(cs[pk.1 + 1])
            } else {
                None
            }
        },
        None => None,
    }
}

pub open spec fn prev_sibling_spec(t: Seq<DomNode>, i: usize) -> Option<usize> {
    match find_parent_from(t, i, 0) {
        Some(pk) => {
            let cs = t[pk.0].children@;
            if pk.1 >= 1 {
                Some(cs[pk.1 - 1])
            } else {
                None
            }
        },
        None => None,
    }
}

pub open spec fn first_child_spec(t: Seq<DomNode>, i: usize) -> Option<usize> {
    if 0 <= i < t.len() && t[i as int].children@.len() > 0 {
        Some(t[i as int].children@[0])
    } else {
        None
    }
}

/// The text a node holds, when it is a text node.
pub open spec fn text_spec(t: Seq<DomNode>, i: int) -> Option<Seq<char>> {
    if 0 <= i < t.len() {
        match t[i].data {
            NodeData::Text { text } => Some(text@),
            _ => None,
        }
    } else {
        None
    }
}

/// Whether node `i` is an element named `name`.
pub open spec fn is_element(t: Seq<DomNode>, i: int, name: Seq<char>) -> bool {
    0 <= i < t.len() && match t[i].data {
        NodeData::Element { name: n, attrs } => n@ == name,
        _ => false,
    }
}

/// The first attribute at or after `k` named `key`.
pub open spec fn attr_from(attrs: Seq<Attr>, key: Seq<char>, k: int) -> Option<Seq<char>>
    decreases attrs.len() - k,
{
    if k < 0 || k >= attrs.len() {
        None
    } else if attrs[k].name@ == key {
        Some(attrs[k].value@)
    } else {
        attr_from(attrs, key, k + 1)
    }
}

/// The value of attribute `key` on node `i`, when `i` is an element
/// carrying it.
pub open spec fn attr_spec(t: Seq<DomNode>, i: int, key: Seq<char>) -> Option<Seq<char>> {
    if 0 <= i < t.len() {
        match t[i].data {
            NodeData::Element { name, attrs } => attr_from(attrs@, key, 0),
            _ => None,
        }
    } else {
        None
    }
}

fn find_child_exec(cs: &Vec<usize>, target: usize) -> (r: Option<usize>)
    ensures
        match r {
            Some(k) => find_child(cs@, target, 0) == Some(k as int) && k < cs@.len() && cs@[k
                as int] == target,
            None => find_child(cs@, target, 0) is None,
        },
{
    let mut k: usize = 0;
    while k < cs.len()
        invariant
            k <= cs@.len(),
            find_child(cs@, target, 0) == find_child(cs@, target, k as int),
        decreases cs@.len() - k,
    {
        if cs[k] == target {
            assert(find_child(cs@, target, k as int) == Some(k as int));
            return Some(k);
        }
        k += 1;
    }
    None
}

/// Finds the (unique, in a well-formed arena) node listing `target` as a
/// child, and the position of `target` among its children.
pub fn find_parent(t: &Vec<DomNode>, target: usize) -> (r: Option<(usize, usize)>)
    ensures
        match r {
            Some(p) => find_parent_from(t@, target, 0) == Some((p.0 as int, p.1 as int)) && p.0
                < t@.len() && p.1 < t@[p.0 as int].children@.len() && t@[p.0 as int].children@[p.1
                as int] == target,
            None => find_parent_from(t@, target, 0) is None,
        },
{
    let mut j: usize = 0;
    while j < t.len()
        invariant
            j <= t@.len(),
            find_parent_from(t@, target, 0) == find_parent_from(t@, target, j as int),
        decreases t@.len() - j,
    {
        match find_child_exec(&t[j].children, target) {
            Some(k) => {
                assert(find_parent_from(t@, target, j as int) == Some((j as int, k as int)));
                return Some((j, k));
            },
            None => {
                assert(find_parent_from(t@, target, j as int) == find_parent_from(
                    t@,
                    target,
                    j + 1,
                ));
            },
        }
        j += 1;
    }
    None
}

/// The sibling immediately after node `i`, in document order.
pub fn next_sibling(t: &Vec<DomNode>, i: usize) -> (r: Option<usize>)
    ensures
        r == next_sibling_spec(t@, i),
{
    match find_parent(t, i) {
        Some((j, k)) => {
            let cs_len = t[j].children.len();
            if k < cs_len - 1 {
                Some(t[j].children[k + 1])
            } else {
                None
            }
        },
        None => None,
    }
}

/// The sibling immediately before node `i`.
pub fn prev_sibling(t: &Vec<DomNode>, i: usize) -> (r: Option<usize>)
    ensures
        r == prev_sibling_spec(t@, i),
{
    match find_parent(t, i) {
        Some((j, k)) => {
            if k >= 1 {
                Some(t[j].children[k - 1])
            } else {
                None
            }
        },
        None => None,
    }
}

/// The first child of node `i`.
pub fn first_child(t: &Vec<DomNode>, i: usize) -> (r: Option<usize>)
    ensures
        r == first_child_spec(t@, i),
{
    if i < t.len() {
        if t[i].children.len() > 0 {
            Some(t[i].children[0])
        } else {
            None
        }
    } else {
        None
    }
}

/// The text of node `i`, when it is a text node.
pub fn text_of<'a>(t: &'a Vec<DomNode>, i: usize) -> (r: Option<&'a String>)
    ensures
        match r {
            Some(s) => text_spec(t@, i as int) == Some(s@),
            None => text_spec(t@, i as int) is None,
        },
{
    if i < t.len() {
        match &t[i].data {
            NodeData::Text { text } => Some(text),
            _ => None,
        }
    } else {
        None
    }
}

/// Whether node `i` is an element named `name`.
pub fn is_element_named(t: &Vec<DomNode>, i: usize, name: &str) -> (r: bool)
    ensures
        r == is_element(t@, i as int, name@),
{
    if i < t.len() {
        match &t[i].data {
            NodeData::Element { name: n, attrs } => strutil::str_eq(n.as_str(), name),
            _ => false,
        }
    } else {
        false
    }
}

/// The value of attribute `key` on node `i`.
pub fn element_attr<'a>(t: &'a Vec<DomNode>, i: usize, key: &str) -> (r: Option<&'a String>)
    ensures
        match r {
            Some(v) => attr_spec(t@, i as int, key@) == Some(v@),
            None => attr_spec(t@, i as int, key@) is None,
        },
{
    if i >= t.len() {
        return None;
    }
    match &t[i].data {
        NodeData::Element { name, attrs } => {
            let mut k: usize = 0;
            while k < attrs.len()
                invariant
                    k <= attrs@.len(),
                    attr_spec(t@, i as int, key@) == attr_from(attrs@, key@, 0),
                    attr_from(attrs@, key@, 0) == attr_from(attrs@, key@, k as int),
                decreases attrs@.len() - k,
            {
                if strutil::str_eq(attrs[k].name.as_str(), key) {
                    assert(attr_from(attrs@, key@, k as int) == Some(attrs@[k as int].value@));
                    return Some(&attrs[k].value);
                }
                k += 1;
            }
            None
        },
        _ => None,
    }
}

} // verus!
