//! HTML documents as the pages' parser sees them: the nodes in document
//! order, each with its depth, and for a CSS selector the nodes it matches.
//! Parsing and selector matching are the `scraper` crate's; what the pages
//! mean is read from these plain values.

use vstd::prelude::*;
use crate::text::{chars_of, same};

verus! {

#[derive(Debug)]
pub struct HtmlElement {
    /// The local name, e.g. "a".
    pub name: String,
    /// (namespace, local name, value) of each attribute.
    pub attrs: Vec<(String, String, String)>,
    /// The classes, in the order the parser lists them.
    pub classes: Vec<String>,
}

#[derive(Debug)]
pub struct HtmlNode {
    /// The number of ancestors: 0 for the document itself.
    pub depth: usize,
    pub element: Option<HtmlElement>,
    pub text: Option<String>,
}

pub struct ElementView {
    pub name: Seq<char>,
    pub attrs: Seq<(Seq<char>, Seq<char>, Seq<char>)>,
    pub classes: Seq<Seq<char>>,
}

pub struct NodeView {
    pub depth: nat,
    pub element: Option<ElementView>,
    pub text: Option<Seq<char>>,
}

impl View for HtmlElement {
    type V = ElementView;

    open spec fn view(&self) -> ElementView {
        ElementView {
            name: self.name@,
            attrs: self.attrs@.map_values(|a: (String, String, String)| (a.0@, a.1@, a.2@)),
            classes: self.classes@.map_values(|c: String| c@),
        }
    }
}

impl View for HtmlNode {
    type V = NodeView;

    open spec fn view(&self) -> NodeView {
        NodeView {
            depth: self.depth as nat,
            element: match self.element {
                Some(e) => Some(e@),
                None => None,
            },
            text: match self.text {
                Some(t) => Some(t@),
                None => None,
            },
        }
    }
}

pub open spec fn nodes_view(v: Seq<HtmlNode>) -> Seq<NodeView> {
    v.map_values(|n: HtmlNode| n@)
}

/// The nodes of the document that `scraper::Html::parse_document` builds
/// from `html`, in document order (a pre-order walk from the document
/// node), each with its depth.
pub uninterp spec fn html_tree(html: Seq<char>) -> Seq<NodeView>;

/// The elements that `scraper::Html::select` yields for `selector` on the
/// document parsed from `html`, in the order it yields them, as positions
/// in `html_tree(html)`; empty when the selector does not parse.
pub uninterp spec fn html_select(html: Seq<char>, selector: Seq<char>) -> Seq<usize>;

/// Calls `scraper::Html::parse_document` and lists the document's nodes in
/// a pre-order walk: each node's depth (its number of ancestors), and the
/// element's name, attributes and classes, or the text. The result is named
/// by `html_tree`.
#[verifier::external_body]
pub(crate) fn parse_tree(html: &str) -> (nodes: Vec<HtmlNode>)
    ensures
        nodes_view(nodes@) == html_tree(html@),
{
    let doc = scraper::Html::parse_document(html);
    doc.tree.root().descendants().map(|n| HtmlNode {
        depth: n.ancestors().count(),
        element: n.value().as_element().map(|e| HtmlElement {
            name: e.name().to_string(),
            attrs: e.attrs.iter().map(|(q, v)| (q.ns.to_string(), q.local.to_string(), v.to_string())).collect(),
            classes: e.classes().map(|c| c.to_string()).collect(),
        }),
        text: n.value().as_text().map(|t| t.to_string()),
    }).collect()
}

/// Calls `scraper::Selector::parse` and `scraper::Html::select`, and gives
/// each selected element as its position in the pre-order walk of the
/// document (the walk `parse_tree` lists). The result is named by
/// `html_select`.
#[verifier::external_body]
pub(crate) fn select_positions(html: &str, selector: &str) -> (r: Vec<usize>)
    ensures
        r@ == html_select(html@, selector@),
{
    let doc = scraper::Html::parse_document(html);
    let Ok(sel) = scraper::Selector::parse(selector) else { return Vec::new() };
    let order: Vec<_> = doc.tree.root().descendants().map(|n| n.id()).collect();
    doc.select(&sel).filter_map(|e| order.iter().position(|id| *id == e.id())).collect()
}

// ---------------------------------------------------------------------------
// Walking the tree

/// The first position at or after `j` whose depth is at most `d`.
pub open spec fn end_from(nodes: Seq<NodeView>, d: nat, j: int) -> int
    decreases nodes.len() - j,
{
    if j >= nodes.len() || nodes[j].depth <= d {
        j
    } else {
        end_from(nodes, d, j + 1)
    }
}

/// The end of the subtree of node `i`: its descendants are the nodes after
/// it and before this position.
pub open spec fn subtree_end(nodes: Seq<NodeView>, i: int) -> int {
    end_from(nodes, nodes[i].depth, i + 1)
}

/// The last position before `j` whose depth is below `d`.
pub open spec fn parent_from(nodes: Seq<NodeView>, d: nat, j: int) -> Option<int>
    decreases j,
{
    if j <= 0 {
        None
    } else if nodes[j - 1].depth < d {
        Some(j - 1)
    } else {
        parent_from(nodes, d, j - 1)
    }
}

/// The parent of node `i`.
pub open spec fn parent_of(nodes: Seq<NodeView>, i: int) -> Option<int> {
    parent_from(nodes, nodes[i].depth, i)
}

pub open spec fn node_text(n: NodeView) -> Seq<char> {
    match n.text {
        Some(t) => t,
        None => seq![],
    }
}

/// The texts of the nodes at positions `a..b`, concatenated.
pub open spec fn texts_in(nodes: Seq<NodeView>, a: int, b: int) -> Seq<char>
    decreases b - a,
{
    if b <= a {
        seq![]
    } else {
        texts_in(nodes, a, b - 1) + node_text(nodes[b - 1])
    }
}

/// The text of node `i` and its descendants, as `ElementRef::text`
/// yields it, concatenated.
pub open spec fn text_of(nodes: Seq<NodeView>, i: int) -> Seq<char> {
    texts_in(nodes, i, subtree_end(nodes, i))
}

/// The text nodes at positions `a..b`, each on its own.
pub open spec fn pieces_in(nodes: Seq<NodeView>, a: int, b: int) -> Seq<Seq<char>>
    decreases b - a,
{
    if b <= a {
        seq![]
    } else {
        match nodes[b - 1].text {
            Some(t) => pieces_in(nodes, a, b - 1).push(t),
            None => pieces_in(nodes, a, b - 1),
        }
    }
}

/// The texts of the children of node `i` that are text nodes, concatenated.
pub open spec fn child_texts_in(nodes: Seq<NodeView>, d: nat, a: int, b: int) -> Seq<char>
    decreases b - a,
{
    if b <= a {
        seq![]
    } else {
        child_texts_in(nodes, d, a, b - 1) + if nodes[b - 1].depth == d + 1 {
            node_text(nodes[b - 1])
        } else {
            seq![]
        }
    }
}

pub open spec fn own_text(nodes: Seq<NodeView>, i: int) -> Seq<char> {
    child_texts_in(nodes, nodes[i].depth, i + 1, subtree_end(nodes, i))
}

/// The positions strictly inside the subtree of `root`, in document order,
/// that `sel` lists.
pub open spec fn scoped_in(sel: Seq<usize>, a: int, b: int) -> Seq<int>
    decreases b - a,
{
    if b <= a {
        seq![]
    } else if sel.contains((b - 1) as usize) {
        scoped_in(sel, a, b - 1).push(b - 1)
    } else {
        scoped_in(sel, a, b - 1)
    }
}

/// The elements under `root` that `ElementRef::select` yields for a
/// selector whose matches in the whole document are `sel`.
pub open spec fn scoped(nodes: Seq<NodeView>, sel: Seq<usize>, root: int) -> Seq<int> {
    scoped_in(sel, root + 1, subtree_end(nodes, root))
}

/// The value of the attribute `key` (no namespace) of an element.
pub open spec fn attr_in(attrs: Seq<(Seq<char>, Seq<char>, Seq<char>)>, key: Seq<char>) -> Option<
    Seq<char>,
>
    decreases attrs.len(),
{
    if attrs.len() == 0 {
        None
    } else if attrs[0].0.len() == 0 && attrs[0].1 == key {
        Some(attrs[0].2)
    } else {
        attr_in(attrs.drop_first(), key)
    }
}

/// The value of attribute `key` of node `i`, when it is an element that
/// has one.
pub open spec fn attr_of(nodes: Seq<NodeView>, i: int, key: Seq<char>) -> Option<Seq<char>> {
    match nodes[i].element {
        Some(e) => attr_in(e.attrs, key),
        None => None,
    }
}

pub fn subtree_end_exec(nodes: &Vec<HtmlNode>, i: usize) -> (e: usize)
    requires
        i < nodes.len(),
    ensures
        e == subtree_end(nodes_view(nodes@), i as int),
        i < e <= nodes.len(),
{
    let ghost v = nodes_view(nodes@);
    let d = nodes[i].depth;
    let mut j = i + 1;
    while j < nodes.len() && nodes[j].depth > d
        invariant
            i < j <= nodes.len(),
            v == nodes_view(nodes@),
            d == v[i as int].depth,
            end_from(v, d as nat, i + 1) == end_from(v, d as nat, j as int),
        decreases nodes.len() - j,
    {
        j += 1;
    }
    j
}

pub fn parent_exec(nodes: &Vec<HtmlNode>, i: usize) -> (p: Option<usize>)
    requires
        i < nodes.len(),
    ensures
        match (p, parent_of(nodes_view(nodes@), i as int)) {
            (Some(a), Some(b)) => a == b && a < i,
            (None, None) => true,
            _ => false,
        },
{
    let ghost v = nodes_view(nodes@);
    let d = nodes[i].depth;
    let mut j = i;
    while j > 0 && nodes[j - 1].depth >= d
        invariant
            j <= i < nodes.len(),
            v == nodes_view(nodes@),
            d == v[i as int].depth,
            parent_from(v, d as nat, i as int) == parent_from(v, d as nat, j as int),
        decreases j,
    {
        j -= 1;
    }
    if j == 0 {
        None
    } else {
        Some(j - 1)
    }
}

/// The text under node `i`, concatenated.
pub fn text_exec(nodes: &Vec<HtmlNode>, i: usize) -> (t: Vec<char>)
    requires
        i < nodes.len(),
    ensures
        t@ == text_of(nodes_view(nodes@), i as int),
{
    let ghost v = nodes_view(nodes@);
    let e = subtree_end_exec(nodes, i);
    let mut out: Vec<char> = Vec::new();
    let mut k = i;
    while k < e
        invariant
            i <= k <= e <= nodes.len(),
            v == nodes_view(nodes@),
            out@ == texts_in(v, i as int, k as int),
        decreases e - k,
    {
        if let Some(t) = &nodes[k].text {
            crate::text::push_all(&mut out, &chars_of(t.as_str()));
        }
        k += 1;
    }
    out
}

/// The text nodes under node `i`, each on its own.
pub fn pieces_exec(nodes: &Vec<HtmlNode>, i: usize) -> (r: Vec<Vec<char>>)
    requires
        i < nodes.len(),
    ensures
        r@.map_values(|p: Vec<char>| p@) == pieces_in(
            nodes_view(nodes@),
            i as int,
            subtree_end(nodes_view(nodes@), i as int),
        ),
{
    let ghost v = nodes_view(nodes@);
    let e = subtree_end_exec(nodes, i);
    let mut out: Vec<Vec<char>> = Vec::new();
    let mut k = i;
    while k < e
        invariant
            i <= k <= e <= nodes.len(),
            v == nodes_view(nodes@),
            out@.map_values(|p: Vec<char>| p@) == pieces_in(v, i as int, k as int),
        decreases e - k,
    {
        if let Some(t) = &nodes[k].text {
            out.push(chars_of(t.as_str()));
        }
        k += 1;
        assert(out@.map_values(|p: Vec<char>| p@) == pieces_in(v, i as int, k as int));
    }
    out
}

/// The texts of the text children of node `i`, concatenated.
pub fn own_text_exec(nodes: &Vec<HtmlNode>, i: usize) -> (t: Vec<char>)
    requires
        i < nodes.len(),
    ensures
        t@ == own_text(nodes_view(nodes@), i as int),
{
    let ghost v = nodes_view(nodes@);
    let e = subtree_end_exec(nodes, i);
    let d = nodes[i].depth;
    let mut out: Vec<char> = Vec::new();
    let mut k = i + 1;
    while k < e
        invariant
            i < k <= e <= nodes.len(),
            v == nodes_view(nodes@),
            d == v[i as int].depth,
            out@ == child_texts_in(v, d as nat, i + 1, k as int),
        decreases e - k,
    {
        if nodes[k].depth as u128 == d as u128 + 1 {
            if let Some(t) = &nodes[k].text {
                crate::text::push_all(&mut out, &chars_of(t.as_str()));
            }
        }
        k += 1;
    }
    out
}

/// Whether position `p` is one of `sel`.
pub fn listed(sel: &Vec<usize>, p: usize) -> (b: bool)
    ensures
        b == sel@.contains(p),
{
    let mut i: usize = 0;
    while i < sel.len()
        invariant
            i <= sel.len(),
            forall|j: int| 0 <= j < i ==> sel@[j] != p,
        decreases sel.len() - i,
    {
        if sel[i] == p {
            assert(sel@[i as int] == p);
            return true;
        }
        i += 1;
    }
    false
}

/// The elements under node `root` that `sel` lists, in document order.
pub fn scoped_exec(nodes: &Vec<HtmlNode>, sel: &Vec<usize>, root: usize) -> (r: Vec<usize>)
    requires
        root < nodes.len(),
    ensures
        r@.map_values(|p: usize| p as int) == scoped(nodes_view(nodes@), sel@, root as int),
        forall|k: int| 0 <= k < r@.len() ==> root < #[trigger] r@[k] < nodes.len(),
{
    let e = subtree_end_exec(nodes, root);
    let mut out: Vec<usize> = Vec::new();
    let mut k = root + 1;
    while k < e
        invariant
            root < k <= e <= nodes.len(),
            out@.map_values(|p: usize| p as int) == scoped_in(sel@, root + 1, k as int),
            forall|j: int| 0 <= j < out@.len() ==> root < #[trigger] out@[j] < k,
        decreases e - k,
    {
        if listed(sel, k) {
            out.push(k);
        }
        k += 1;
        assert(out@.map_values(|p: usize| p as int) == scoped_in(sel@, root + 1, k as int));
    }
    out
}

/// The value of attribute `key` of node `i`.
pub fn attr_exec(nodes: &Vec<HtmlNode>, i: usize, key: &str) -> (r: Option<String>)
    requires
        i < nodes.len(),
    ensures
        match (r, attr_of(nodes_view(nodes@), i as int, key@)) {
            (Some(a), Some(b)) => a@ == b,
            (None, None) => true,
            _ => false,
        },
{
    let ghost v = nodes_view(nodes@);
    match &nodes[i].element {
        None => None,
        Some(el) => {
            let ghost attrs = el@.attrs;
            let k = chars_of(key);
            let mut j: usize = 0;
            assert(attrs.skip(0) == attrs);
            assert(v[i as int].element == Some(el@));
            while j < el.attrs.len()
                invariant
                    j <= el.attrs.len(),
                    attrs == el@.attrs,
                    v == nodes_view(nodes@),
                    v[i as int].element == Some(el@),
                    attr_in(attrs, key@) == attr_in(attrs.skip(j as int), key@),
                    k@ == key@,
                decreases el.attrs.len() - j,
            {
                let a = &el.attrs[j];
                assert(attrs.skip(j as int)[0] == attrs[j as int]);
                assert(attrs.skip(j as int).drop_first() == attrs.skip(j + 1));
                if chars_of(a.0.as_str()).len() == 0 && same(&chars_of(a.1.as_str()), &k) {
                    return Some(a.2.clone());
                }
                j += 1;
            }
            None
        },
    }
}

} // verus!
