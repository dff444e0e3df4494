//! S-expression rendering of a parsed document, used to inspect trees.

use vstd::prelude::*;
use vstd::string::*;
use vstd::utf8::*;
use crate::bbcode::{Document, Element, Node, unquote, unquote_spec};
use crate::text::{push_char, push_str, str_chars};

verus! {

pub open spec fn hex_digit(n: int) -> char {
    if n < 10 {
        ((n + 0x30) as u32) as char
    } else {
        ((n - 10 + 0x61) as u32) as char
    }
}

/// How one character appears inside a quoted string.
pub open spec fn quote_char(c: char) -> Seq<char> {
    if c == '"' {
        seq!['\\', '"']
    } else if c == '\\' {
        seq!['\\', '\\']
    } else if c == '\n' {
        seq!['\\', 'n']
    } else if c == '\r' {
        seq!['\\', 'r']
    } else if c == '\t' {
        seq!['\\', 't']
    } else if (c as u32) < 0x20 {
        seq!['\\', 'x', hex_digit((c as u32) as int / 16), hex_digit((c as u32) as int % 16)]
    } else {
        seq![c]
    }
}

pub open spec fn quote_chars(cs: Seq<char>) -> Seq<char>
    decreases cs.len(),
{
    if cs.len() == 0 {
        Seq::empty()
    } else {
        quote_chars(cs.drop_last()) + quote_char(cs.last())
    }
}

/// `cs` in double quotes, with quotes, backslashes and control characters escaped.
pub open spec fn quoted(cs: Seq<char>) -> Seq<char> {
    seq!['"'] + quote_chars(cs) + seq!['"']
}

pub open spec fn attr_sexp(attr: Option<&str>) -> Seq<char> {
    match attr {
        Some(a) => seq![' ', ':', 'a', 't', 't', 'r', ' '] + quoted(decode_utf8(unquote_spec(a.spec_bytes()))),
        None => Seq::empty(),
    }
}

pub open spec fn auto_sexp(auto_closed: bool) -> Seq<char> {
    if auto_closed {
        seq![' ', ':', 'a', 'u', 't', 'o', '-', 'c', 'l', 'o', 's', 'e', 'd']
    } else {
        Seq::empty()
    }
}

/// `(tag :attr "value" :auto-closed child...)` for elements, a quoted string for text.
pub open spec fn node_sexp(n: Node) -> Seq<char>
    decreases n, 0nat,
{
    match n {
        Node::Text(s) => quoted(s@),
        Node::Element(e) => seq!['('] + e.tag@ + attr_sexp(e.attr) + auto_sexp(e.auto_closed)
            + children_sexp(e.children@, e.children@.len()) + seq![')'],
    }
}

/// The first `k` nodes, each preceded by a space.
pub open spec fn children_sexp(ns: Seq<Node>, k: nat) -> Seq<char>
    decreases ns, k,
{
    if k == 0 || k > ns.len() {
        Seq::empty()
    } else {
        children_sexp(ns, (k - 1) as nat) + seq![' '] + node_sexp(ns[k - 1])
    }
}

pub open spec fn document_sexp(d: Document) -> Seq<char> {
    seq!['(', 'd', 'o', 'c'] + children_sexp(d.children@, d.children@.len()) + seq![')']
}

fn hex_char(n: u32) -> (c: char)
    requires
        n < 16,
    ensures
        c == hex_digit(n as int),
{
    if n < 10 {
        ((n as u8) + 0x30) as char
    } else {
        ((n as u8) - 10 + 0x61) as char
    }
}

proof fn lemma_quote_chars_push(cs: Seq<char>, i: int)
    requires
        0 <= i < cs.len(),
    ensures
        quote_chars(cs.take(i + 1)) == quote_chars(cs.take(i)) + quote_char(cs[i]),
{
    assert(cs.take(i + 1).drop_last() =~= cs.take(i));
}

/// Appends `s` quoted, with special characters escaped.
fn write_quoted(out: &mut String, s: &str)
    ensures
        final(out)@ == old(out)@ + quoted(s@),
{
    let cs = str_chars(s);
    let ghost start = out@;
    proof {
        reveal_strlit("\"");
    }
    push_str(out, "\"");
    let mut i: usize = 0;
    proof {
        assert(cs@.take(0) =~= Seq::<char>::empty());
        assert(out@ =~= start + seq!['"'] + quote_chars(cs@.take(0)));
    }
    while i < cs.len()
        invariant
            cs@ == s@,
            i <= cs.len(),
            out@ == start + seq!['"'] + quote_chars(cs@.take(i as int)),
        decreases cs.len() - i,
    {
        let c = cs[i];
        let ghost before = out@;
        proof {
            lemma_quote_chars_push(cs@, i as int);
        }
        if c == '"' {
            proof {
                reveal_strlit("\\\"");
            }
            push_str(out, "\\\"");
        } else if c == '\\' {
            proof {
                reveal_strlit("\\\\");
            }
            push_str(out, "\\\\");
        } else if c == '\n' {
            proof {
                reveal_strlit("\\n");
            }
            push_str(out, "\\n");
        } else if c == '\r' {
            proof {
                reveal_strlit("\\r");
            }
            push_str(out, "\\r");
        } else if c == '\t' {
            proof {
                reveal_strlit("\\t");
            }
            push_str(out, "\\t");
        } else if (c as u32) < 0x20 {
            proof {
                reveal_strlit("\\x");
            }
            push_str(out, "\\x");
            let n = c as u32;
            push_char(out, hex_char(n / 16));
            push_char(out, hex_char(n % 16));
        } else {
            push_char(out, c);
        }
        proof {
            assert(out@ =~= before + quote_char(c));
        }
        i += 1;
    }
    proof {
        assert(cs@.take(cs@.len() as int) =~= cs@);
    }
    push_str(out, "\"");
}

proof fn lemma_children_sexp_prefix(ns: Seq<Node>, k: nat)
    requires
        k < ns.len(),
    ensures
        children_sexp(ns, k + 1) == children_sexp(ns, k) + seq![' '] + node_sexp(ns[k as int]),
{
}

fn write_node(out: &mut String, n: &Node)
    ensures
        final(out)@ == old(out)@ + node_sexp(*n),
    decreases n, 0nat,
{
    match n {
        Node::Text(s) => write_quoted(out, s),
        Node::Element(e) => write_element(out, e),
    }
}

fn write_element(out: &mut String, e: &Element)
    ensures
        final(out)@ == old(out)@ + node_sexp(Node::Element(*e)),
    decreases e, 0nat,
{
    broadcast use vstd::utf8::encode_utf8_decode_utf8;

    let ghost start = out@;
    proof {
        reveal_strlit("(");
    }
    push_str(out, "(");
    push_str(out, e.tag);
    match e.attr {
        Some(a) => {
            proof {
                reveal_strlit(" :attr ");
            }
            push_str(out, " :attr ");
            write_quoted(out, unquote(a));
        },
        None => {},
    }
    if e.auto_closed {
        proof {
            reveal_strlit(" :auto-closed");
        }
        push_str(out, " :auto-closed");
    }
    write_children(out, &e.children);
    proof {
        reveal_strlit(")");
    }
    push_str(out, ")");
    proof {
        assert(out@ =~= start + node_sexp(Node::Element(*e)));
    }
}

fn write_children(out: &mut String, ns: &Vec<Node>)
    ensures
        final(out)@ == old(out)@ + children_sexp(ns@, ns@.len()),
    decreases ns, 1nat,
{
    let ghost start = out@;
    let mut i: usize = 0;
    proof {
        assert(out@ =~= start + children_sexp(ns@, 0));
    }
    while i < ns.len()
        invariant
            i <= ns.len(),
            out@ == start + children_sexp(ns@, i as nat),
        decreases ns.len() - i,
    {
        proof {
            lemma_children_sexp_prefix(ns@, i as nat);
            reveal_strlit(" ");
        }
        push_str(out, " ");
        write_node(out, &ns[i]);
        proof {
            assert(out@ =~= start + children_sexp(ns@, (i + 1) as nat));
        }
        i += 1;
    }
}

impl<'a> Document<'a> {
    /// The document as an s-expression: `(doc child...)`.
    pub fn to_string(&self) -> (r: String)
        ensures
            r@ == document_sexp(*self),
    {
        let mut out = String::new();
        proof {
            reveal_strlit("(doc");
        }
        push_str(&mut out, "(doc");
        write_children(&mut out, &self.children);
        proof {
            reveal_strlit(")");
        }
        push_str(&mut out, ")");
        proof {
            assert(out@ =~= document_sexp(*self));
        }
        out
    }
}

impl<'a> Node<'a> {
    /// The node as an s-expression: a quoted string, or `(tag ...)`.
    pub fn to_string(&self) -> (r: String)
        ensures
            r@ == node_sexp(*self),
    {
        let mut out = String::new();
        write_node(&mut out, self);
        proof {
            assert(out@ =~= node_sexp(*self));
        }
        out
    }
}

impl<'a> Element<'a> {
    /// The element as an s-expression: `(tag :attr "..." :auto-closed child...)`.
    pub fn to_string(&self) -> (r: String)
        ensures
            r@ == node_sexp(Node::Element(*self)),
    {
        let mut out = String::new();
        write_element(&mut out, self);
        proof {
            assert(out@ =~= node_sexp(Node::Element(*self)));
        }
        out
    }
}

} // verus!
