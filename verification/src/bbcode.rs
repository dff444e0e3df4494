//! The BBCode document tree.

use vstd::prelude::*;
use vstd::string::*;
use crate::text::{
    byte_slice, eq_ignore_ascii_case, eq_ignore_case, lemma_after_ascii, lemma_ascii_boundary,
    lemma_str_valid, trim, trim_spec,
};

verus! {

/// Mathematical model of a tree node: text and tags as byte sequences.
pub enum SpecNode {
    Text(Seq<u8>),
    Elem(SpecElement),
}

pub struct SpecElement {
    pub tag: Seq<u8>,
    pub attr: Option<Seq<u8>>,
    pub raw_open: Seq<u8>,
    pub children: Seq<SpecNode>,
    pub auto_closed: bool,
}

#[derive(Debug, PartialEq, Eq)]
pub struct Document<'a> {
    pub children: Vec<Node<'a>>,
}

#[derive(Debug, PartialEq, Eq)]
pub enum Node<'a> {
    Text(&'a str),
    Element(Element<'a>),
}

#[derive(Debug, PartialEq, Eq)]
pub struct Element<'a> {
    pub tag: &'a str,
    pub attr: Option<&'a str>,
    pub raw_open: &'a str,
    pub children: Vec<Node<'a>>,
    pub auto_closed: bool,
}

pub open spec fn opt_bytes(o: Option<&str>) -> Option<Seq<u8>> {
    match o {
        Some(s) => Some(s.spec_bytes()),
        None => None,
    }
}

pub open spec fn node_view(n: Node) -> SpecNode
    decreases n, 0nat,
{
    match n {
        Node::Text(s) => SpecNode::Text(s.spec_bytes()),
        Node::Element(e) => SpecNode::Elem(
            SpecElement {
                tag: e.tag.spec_bytes(),
                attr: opt_bytes(e.attr),
                raw_open: e.raw_open.spec_bytes(),
                children: nodes_view(e.children@, e.children@.len()),
                auto_closed: e.auto_closed,
            },
        ),
    }
}

/// The models of the first `k` nodes of `ns`.
pub open spec fn nodes_view(ns: Seq<Node>, k: nat) -> Seq<SpecNode>
    decreases ns, k,
{
    if k == 0 || k > ns.len() {
        Seq::empty()
    } else {
        nodes_view(ns, (k - 1) as nat).push(node_view(ns[k - 1]))
    }
}

/// How deeply elements nest in a node: 0 for text, one more than its
/// deepest child for an element.
pub open spec fn node_depth(n: SpecNode) -> nat
    decreases n, 0nat,
{
    match n {
        SpecNode::Text(_) => 0,
        SpecNode::Elem(e) => 1 + nodes_depth(e.children, e.children.len()),
    }
}

/// The deepest nesting among the first `k` nodes of `ns`.
pub open spec fn nodes_depth(ns: Seq<SpecNode>, k: nat) -> nat
    decreases ns, k,
{
    if k == 0 || k > ns.len() {
        0
    } else {
        let d = nodes_depth(ns, (k - 1) as nat);
        let e = node_depth(ns[k - 1]);
        if d >= e {
            d
        } else {
            e
        }
    }
}

/// `b` trimmed, without one pair of matching surrounding quotes.
pub open spec fn unquote_spec(b: Seq<u8>) -> Seq<u8> {
    let t = trim_spec(b);
    if t.len() >= 2 && ((t[0] == 0x22 && t.last() == 0x22) || (t[0] == 0x27 && t.last() == 0x27)) {
        t.subrange(1, t.len() - 1)
    } else {
        t
    }
}

impl<'a> Element<'a> {
    /// Whether the tag is `name`, ignoring ASCII case.
    pub fn is(&self, name: &str) -> (r: bool)
        ensures
            r == eq_ignore_case(self.tag.spec_bytes(), name.spec_bytes()),
    {
        eq_ignore_ascii_case(self.tag, name)
    }

    /// The attribute with surrounding quotes removed.
    pub fn attr_value(&self) -> (r: Option<&'a str>)
        ensures
            match self.attr {
                Some(a) => r matches Some(v) && v.spec_bytes() == unquote_spec(a.spec_bytes()),
                None => r is None,
            },
    {
        match self.attr {
            Some(a) => Some(unquote(a)),
            None => None,
        }
    }
}

/// Trims `s` and strips one pair of matching single or double quotes.
pub fn unquote(s: &str) -> (r: &str)
    ensures
        r.spec_bytes() == unquote_spec(s.spec_bytes()),
{
    let s = trim(s);
    let bytes = s.as_bytes();
    let n = bytes.len();
    if n >= 2 && ((bytes[0] == 0x22 && bytes[n - 1] == 0x22) || (bytes[0] == 0x27 && bytes[n - 1]
        == 0x27)) {
        proof {
            lemma_str_valid(s);
            lemma_after_ascii(s.spec_bytes(), 0);
            lemma_ascii_boundary(s.spec_bytes(), n - 1);
        }
        byte_slice(s, 1, n - 1)
    } else {
        s
    }
}

} // verus!
