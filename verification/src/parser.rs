//! BBCode tree parser: a stack machine over the tokens.

use vstd::prelude::*;
use vstd::string::*;
use vstd::utf8::*;
use crate::bbcode::{Document, Element, Node, SpecElement, SpecNode, node_depth, node_view, nodes_depth, nodes_view};
use crate::lexer::{SpecToken, Token, tokenize, tokenize_spec, tokens_view};
use crate::text::{byte_slice, eq_ignore_ascii_case, eq_ignore_case, eq_ignore_case_bytes};

verus! {

/// Frames deeper than this turn further opening tags into text.
pub const MAX_DEPTH: usize = 64;

/// Model of an open element on the parse stack.
pub struct SpecFrame {
    pub tag: Seq<u8>,
    pub attr: Option<Seq<u8>>,
    pub raw_open: Seq<u8>,
    pub children: Seq<SpecNode>,
}

pub open spec fn list_name() -> Seq<u8> {
    seq![0x6cu8, 0x69, 0x73, 0x74]
}

pub open spec fn ul_name() -> Seq<u8> {
    seq![0x75u8, 0x6c]
}

pub open spec fn ol_name() -> Seq<u8> {
    seq![0x6fu8, 0x6c]
}

pub open spec fn li_name() -> Seq<u8> {
    seq![0x6cu8, 0x69]
}

pub open spec fn star_name() -> Seq<u8> {
    seq![0x2au8]
}

/// `list`, `ul` and `ol`, in any ASCII case.
pub open spec fn is_list_tag_spec(t: Seq<u8>) -> bool {
    eq_ignore_case(t, list_name()) || eq_ignore_case(t, ul_name()) || eq_ignore_case(t, ol_name())
}

/// `*`, or `li` in any ASCII case.
pub open spec fn is_list_item_tag_spec(t: Seq<u8>) -> bool {
    t == star_name() || eq_ignore_case(t, li_name())
}

/// The last index below `n` whose frame has tag `tag` (ignoring ASCII case).
pub open spec fn rpos_tag(st: Seq<SpecFrame>, tag: Seq<u8>, n: int) -> Option<int>
    decreases n,
{
    if n <= 0 {
        None
    } else if eq_ignore_case(st[n - 1].tag, tag) {
        Some(n - 1)
    } else {
        rpos_tag(st, tag, n - 1)
    }
}

/// The last index below `n` whose frame is a list.
pub open spec fn rpos_list(st: Seq<SpecFrame>, n: int) -> Option<int>
    decreases n,
{
    if n <= 0 {
        None
    } else if is_list_tag_spec(st[n - 1].tag) {
        Some(n - 1)
    } else {
        rpos_list(st, n - 1)
    }
}

/// The last index below `n` whose frame is a list item.
pub open spec fn rpos_item(st: Seq<SpecFrame>, n: int) -> Option<int>
    decreases n,
{
    if n <= 0 {
        None
    } else if is_list_item_tag_spec(st[n - 1].tag) {
        Some(n - 1)
    } else {
        rpos_item(st, n - 1)
    }
}

pub open spec fn add_child(f: SpecFrame, n: SpecNode) -> SpecFrame {
    SpecFrame { children: f.children.push(n), ..f }
}

pub open spec fn push_text_spec(st: Seq<SpecFrame>, s: Seq<u8>) -> Seq<SpecFrame> {
    if s.len() == 0 || st.len() == 0 {
        st
    } else {
        st.update(st.len() - 1, add_child(st.last(), SpecNode::Text(s)))
    }
}

pub open spec fn frame_element(f: SpecFrame, auto_closed: bool) -> SpecElement {
    SpecElement {
        tag: f.tag,
        attr: f.attr,
        raw_open: f.raw_open,
        children: f.children,
        auto_closed,
    }
}

/// Pops the top frame into an element of the frame below.
pub open spec fn close_top_spec(st: Seq<SpecFrame>, auto_closed: bool) -> Seq<SpecFrame> {
    if st.len() < 2 {
        st
    } else {
        let r = st.drop_last();
        r.update(r.len() - 1, add_child(r.last(), SpecNode::Elem(frame_element(st.last(), auto_closed))))
    }
}

/// Closes frames until at most `n` remain.
pub open spec fn close_to(st: Seq<SpecFrame>, n: int, auto_closed: bool) -> Seq<SpecFrame>
    decreases st.len(),
{
    if st.len() > n && n >= 1 && st.len() >= 2 {
        close_to(close_top_spec(st, auto_closed), n, auto_closed)
    } else {
        st
    }
}

pub open spec fn push_frame(st: Seq<SpecFrame>, tag: Seq<u8>, attr: Option<Seq<u8>>, raw: Seq<u8>) -> Seq<SpecFrame> {
    st.push(SpecFrame { tag, attr, raw_open: raw, children: Seq::empty() })
}

/// A list item opens inside the innermost list, closing a sibling item that
/// is still open; outside any list it is text.
pub open spec fn open_list_item_spec(st: Seq<SpecFrame>, tag: Seq<u8>, attr: Option<Seq<u8>>, raw: Seq<u8>) -> Seq<SpecFrame> {
    match (rpos_list(st, st.len() as int), rpos_item(st, st.len() as int)) {
        (Some(li), Some(ii)) => if ii > li {
            push_frame(close_top_spec(close_to(st, ii + 1, true), true), tag, attr, raw)
        } else {
            push_frame(st, tag, attr, raw)
        },
        (Some(_), None) => push_frame(st, tag, attr, raw),
        _ => push_text_spec(st, raw),
    }
}

/// One parser step.
pub open spec fn step(st: Seq<SpecFrame>, tok: SpecToken) -> Seq<SpecFrame> {
    match tok {
        SpecToken::Text(s) => push_text_spec(st, s),
        SpecToken::Open { tag, attr, raw } => if st.len() > MAX_DEPTH {
            push_text_spec(st, raw)
        } else if is_list_item_tag_spec(tag) {
            open_list_item_spec(st, tag, attr, raw)
        } else {
            push_frame(st, tag, attr, raw)
        },
        SpecToken::Close { tag, raw } => match rpos_tag(st, tag, st.len() as int) {
            Some(t) => if t >= 1 {
                close_top_spec(close_to(st, t + 1, true), false)
            } else {
                push_text_spec(st, raw)
            },
            None => push_text_spec(st, raw),
        },
        SpecToken::Star { raw } => open_list_item_spec(st, star_name(), None, raw),
    }
}

/// The stack after all the tokens in order.
pub open spec fn run(st: Seq<SpecFrame>, toks: Seq<SpecToken>) -> Seq<SpecFrame>
    decreases toks.len(),
{
    if toks.len() == 0 {
        st
    } else {
        step(run(st, toks.drop_last()), toks.last())
    }
}

pub open spec fn root_frame() -> SpecFrame {
    SpecFrame { tag: Seq::empty(), attr: None, raw_open: Seq::empty(), children: Seq::empty() }
}

/// The top-level nodes of the document parsed from `b`: the tokens run
/// through the stack machine, then every frame still open is closed.
pub open spec fn parse_spec(b: Seq<u8>) -> Seq<SpecNode> {
    close_to(run(seq![root_frame()], tokenize_spec(b)), 1, true)[0].children
}

fn is_list_tag(tag: &str) -> (r: bool)
    ensures
        r == is_list_tag_spec(tag.spec_bytes()),
{
    let list: [u8; 4] = [0x6c, 0x69, 0x73, 0x74];
    let ul: [u8; 2] = [0x75, 0x6c];
    let ol: [u8; 2] = [0x6f, 0x6c];
    assert(list@ =~= list_name());
    assert(ul@ =~= ul_name());
    assert(ol@ =~= ol_name());
    eq_ignore_case_bytes(tag, list.as_slice()) || eq_ignore_case_bytes(tag, ul.as_slice())
        || eq_ignore_case_bytes(tag, ol.as_slice())
}

fn is_list_item_tag(tag: &str) -> (r: bool)
    ensures
        r == is_list_item_tag_spec(tag.spec_bytes()),
{
    let b = tag.as_bytes();
    let li: [u8; 2] = [0x6c, 0x69];
    assert(li@ =~= li_name());
    let star = b.len() == 1 && b[0] == 0x2a;
    assert(star ==> b@ =~= star_name());
    star || eq_ignore_case_bytes(tag, li.as_slice())
}

struct Frame<'a> {
    tag: &'a str,
    attr: Option<&'a str>,
    raw_open: &'a str,
    children: Vec<Node<'a>>,
}

spec fn frame_view(f: Frame) -> SpecFrame {
    SpecFrame {
        tag: f.tag.spec_bytes(),
        attr: crate::bbcode::opt_bytes(f.attr),
        raw_open: f.raw_open.spec_bytes(),
        children: nodes_view(f.children@, f.children@.len()),
    }
}

spec fn stack_view(st: Seq<Frame>) -> Seq<SpecFrame> {
    st.map_values(|f: Frame| frame_view(f))
}

proof fn lemma_nodes_view_prefix(ns: Seq<Node>, ms: Seq<Node>, k: nat)
    requires
        k <= ns.len(),
        k <= ms.len(),
        forall|i: int| 0 <= i < k ==> ns[i] == ms[i],
    ensures
        nodes_view(ns, k) == nodes_view(ms, k),
    decreases k,
{
    if k > 0 {
        lemma_nodes_view_prefix(ns, ms, (k - 1) as nat);
    }
}

proof fn lemma_nodes_view_push(ns: Seq<Node>, n: Node)
    ensures
        nodes_view(ns.push(n), ns.len() + 1) == nodes_view(ns, ns.len()).push(node_view(n)),
{
    lemma_nodes_view_prefix(ns.push(n), ns, ns.len());
}

/// Appends a text node to the innermost open frame.
fn push_text<'a>(stack: &mut Vec<Frame<'a>>, s: &'a str)
    requires
        old(stack).len() >= 1,
    ensures
        final(stack).len() == old(stack).len(),
        stack_view(final(stack)@) == push_text_spec(stack_view(old(stack)@), s.spec_bytes()),
{
    if s.is_empty() {
        proof {
            assert(s.spec_bytes() =~= Seq::<u8>::empty());
        }
        return;
    }
    proof {
        crate::text::lemma_nonempty_bytes(s);
    }
    let ghost old_st = stack@;
    let mut f = stack.pop().unwrap();
    let ghost old_children = f.children@;
    f.children.push(Node::Text(s));
    proof {
        lemma_nodes_view_push(old_children, Node::Text(s));
    }
    stack.push(f);
    proof {
        assert(stack_view(stack@) =~= push_text_spec(stack_view(old_st), s.spec_bytes()));
    }
}

/// Pops the innermost frame and appends it, as an element, to its parent.
fn close_top<'a>(stack: &mut Vec<Frame<'a>>, auto_closed: bool)
    requires
        old(stack).len() >= 2,
    ensures
        final(stack).len() == old(stack).len() - 1,
        stack_view(final(stack)@) == close_top_spec(stack_view(old(stack)@), auto_closed),
{
    let ghost old_st = stack@;
    let frame = stack.pop().unwrap();
    let mut parent = stack.pop().unwrap();
    let ghost old_children = parent.children@;
    let element = Element {
        tag: frame.tag,
        attr: frame.attr,
        raw_open: frame.raw_open,
        children: frame.children,
        auto_closed,
    };
    let ghost node = Node::Element(element);
    parent.children.push(Node::Element(element));
    proof {
        lemma_nodes_view_push(old_children, node);
    }
    stack.push(parent);
    proof {
        let sv = stack_view(old_st);
        assert(node_view(node) == SpecNode::Elem(frame_element(sv.last(), auto_closed)));
        assert(stack_view(stack@) =~= close_top_spec(sv, auto_closed));
    }
}

fn star_tag() -> (r: &'static str)
    ensures
        r.spec_bytes() == star_name(),
{
    let r = "*";
    proof {
        reveal_strlit("*");
        let c = seq!['*'];
        assert(r@ == c);
        assert(c.drop_first() =~= Seq::<char>::empty());
        assert(encode_utf8(Seq::<char>::empty()) =~= Seq::<u8>::empty());
        assert(('*' as u32) == 0x2a);
        assert((0x2au32 & 0x7f) as u8 == 0x2au8) by (bit_vector);
        assert(encode_scalar('*' as u32) =~= seq![0x2au8]);
        assert(encode_utf8(c) =~= seq![0x2au8]);
    }
    r
}

/// The last frame whose tag equals `tag`, ignoring ASCII case.
fn rposition_tag(stack: &Vec<Frame>, tag: &str) -> (r: Option<usize>)
    ensures
        match r {
            Some(k) => rpos_tag(stack_view(stack@), tag.spec_bytes(), stack@.len() as int) == Some(k as int),
            None => rpos_tag(stack_view(stack@), tag.spec_bytes(), stack@.len() as int) is None,
        },
        match r {
            Some(k) => k < stack@.len() && eq_ignore_case(stack@[k as int].tag.spec_bytes(), tag.spec_bytes())
                && forall|j: int| k < j < stack@.len() ==> !eq_ignore_case((#[trigger] stack@[j]).tag.spec_bytes(), tag.spec_bytes()),
            None => forall|j: int| 0 <= j < stack@.len() ==> !eq_ignore_case((#[trigger] stack@[j]).tag.spec_bytes(), tag.spec_bytes()),
        },
{
    let ghost sv = stack_view(stack@);
    proof {
        lemma_rpos_tag_innermost(sv, tag.spec_bytes(), stack@.len() as int);
        assert forall|j: int| 0 <= j < stack@.len() implies sv[j].tag == (#[trigger] stack@[j]).tag.spec_bytes() by {}
    }
    let mut i = stack.len();
    while i > 0
        invariant
            sv == stack_view(stack@),
            i <= stack@.len(),
            rpos_tag(sv, tag.spec_bytes(), stack@.len() as int) == rpos_tag(sv, tag.spec_bytes(), i as int),
            forall|j: int| 0 <= j < stack@.len() ==> sv[j].tag == (#[trigger] stack@[j]).tag.spec_bytes(),
            match rpos_tag(sv, tag.spec_bytes(), stack@.len() as int) {
                Some(k) => 0 <= k < stack@.len() && eq_ignore_case(sv[k].tag, tag.spec_bytes()) && forall|j: int|
                    k < j < stack@.len() ==> !eq_ignore_case(#[trigger] sv[j].tag, tag.spec_bytes()),
                None => forall|j: int| 0 <= j < stack@.len() ==> !eq_ignore_case(#[trigger] sv[j].tag, tag.spec_bytes()),
            },
        decreases i,
    {
        assert(sv[i - 1].tag == stack@[i - 1].tag.spec_bytes());
        if eq_ignore_ascii_case(stack[i - 1].tag, tag) {
            proof {
                assert forall|j: int| i - 1 < j < stack@.len() implies !eq_ignore_case((#[trigger] stack@[j]).tag.spec_bytes(), tag.spec_bytes()) by {
                    assert(sv[j].tag == stack@[j].tag.spec_bytes());
                }
            }
            return Some(i - 1);
        }
        i -= 1;
    }
    proof {
        assert forall|j: int| 0 <= j < stack@.len() implies !eq_ignore_case((#[trigger] stack@[j]).tag.spec_bytes(), tag.spec_bytes()) by {
            assert(sv[j].tag == stack@[j].tag.spec_bytes());
        }
    }
    None
}

/// The last frame that is a list.
fn rposition_list(stack: &Vec<Frame>) -> (r: Option<usize>)
    ensures
        match r {
            Some(k) => rpos_list(stack_view(stack@), stack@.len() as int) == Some(k as int),
            None => rpos_list(stack_view(stack@), stack@.len() as int) is None,
        },
{
    let ghost sv = stack_view(stack@);
    let mut i = stack.len();
    while i > 0
        invariant
            sv == stack_view(stack@),
            i <= stack@.len(),
            rpos_list(sv, stack@.len() as int) == rpos_list(sv, i as int),
        decreases i,
    {
        assert(sv[i - 1].tag == stack@[i - 1].tag.spec_bytes());
        if is_list_tag(stack[i - 1].tag) {
            return Some(i - 1);
        }
        i -= 1;
    }
    None
}

/// The last frame that is a list item.
fn rposition_item(stack: &Vec<Frame>) -> (r: Option<usize>)
    ensures
        match r {
            Some(k) => rpos_item(stack_view(stack@), stack@.len() as int) == Some(k as int),
            None => rpos_item(stack_view(stack@), stack@.len() as int) is None,
        },
{
    let ghost sv = stack_view(stack@);
    let mut i = stack.len();
    while i > 0
        invariant
            sv == stack_view(stack@),
            i <= stack@.len(),
            rpos_item(sv, stack@.len() as int) == rpos_item(sv, i as int),
        decreases i,
    {
        assert(sv[i - 1].tag == stack@[i - 1].tag.spec_bytes());
        if is_list_item_tag(stack[i - 1].tag) {
            return Some(i - 1);
        }
        i -= 1;
    }
    None
}

proof fn lemma_rpos_bound(st: Seq<SpecFrame>, n: int)
    requires
        0 <= n,
    ensures
        rpos_list(st, n) matches Some(k) ==> 0 <= k < n,
        rpos_item(st, n) matches Some(k) ==> 0 <= k < n,
    decreases n,
{
    if n > 0 {
        lemma_rpos_bound(st, n - 1);
    }
}

proof fn lemma_rpos_tag_bound(st: Seq<SpecFrame>, t: Seq<u8>, n: int)
    requires
        0 <= n,
    ensures
        rpos_tag(st, t, n) matches Some(k) ==> 0 <= k < n,
    decreases n,
{
    if n > 0 {
        lemma_rpos_tag_bound(st, t, n - 1);
    }
}

/// Closes frames, all marked `auto_closed`, until at most `n` remain.
fn close_down_to<'a>(stack: &mut Vec<Frame<'a>>, n: usize, auto_closed: bool)
    requires
        n >= 1,
        old(stack).len() >= 1,
    ensures
        final(stack).len() == if old(stack).len() > n { n as int } else { old(stack).len() as int },
        stack_view(final(stack)@) == close_to(stack_view(old(stack)@), n as int, auto_closed),
{
    let ghost sv0 = stack_view(stack@);
    let ghost len0 = stack.len();
    while stack.len() > n
        invariant
            n >= 1,
            stack.len() >= 1,
            stack.len() >= n || stack.len() == len0,
            len0 > n ==> stack.len() >= n,
            len0 <= n ==> stack.len() == len0,
            close_to(sv0, n as int, auto_closed) == close_to(stack_view(stack@), n as int, auto_closed),
        decreases stack.len(),
    {
        close_top(stack, auto_closed);
    }
}

fn push_new_frame<'a>(stack: &mut Vec<Frame<'a>>, tag: &'a str, attr: Option<&'a str>, raw: &'a str)
    ensures
        final(stack).len() == old(stack).len() + 1,
        stack_view(final(stack)@) == push_frame(
            stack_view(old(stack)@),
            tag.spec_bytes(),
            crate::bbcode::opt_bytes(attr),
            raw.spec_bytes(),
        ),
{
    let ghost old_st = stack@;
    stack.push(Frame { tag, attr, raw_open: raw, children: Vec::new() });
    proof {
        assert(nodes_view(Seq::<Node>::empty(), 0) == Seq::<SpecNode>::empty());
        assert(stack_view(stack@) =~= push_frame(
            stack_view(old_st),
            tag.spec_bytes(),
            crate::bbcode::opt_bytes(attr),
            raw.spec_bytes(),
        ));
    }
}

/// Opens a list item inside the innermost list, first closing a sibling item
/// that is still open; outside any list the tag is kept as text.
fn open_list_item<'a>(stack: &mut Vec<Frame<'a>>, tag: &'a str, attr: Option<&'a str>, raw: &'a str)
    requires
        old(stack).len() >= 1,
    ensures
        final(stack).len() >= 1,
        stack_view(final(stack)@) == open_list_item_spec(
            stack_view(old(stack)@),
            tag.spec_bytes(),
            crate::bbcode::opt_bytes(attr),
            raw.spec_bytes(),
        ),
{
    proof {
        lemma_rpos_bound(stack_view(stack@), stack@.len() as int);
    }
    let list_idx = rposition_list(stack);
    let item_idx = rposition_item(stack);
    match (list_idx, item_idx) {
        (Some(li), Some(ii)) => {
            if ii > li {
                close_down_to(stack, ii + 1, true);
                close_top(stack, true);
                push_new_frame(stack, tag, attr, raw);
            } else {
                push_new_frame(stack, tag, attr, raw);
            }
        },
        (Some(_), None) => {
            push_new_frame(stack, tag, attr, raw);
        },
        _ => {
            push_text(stack, raw);
        },
    }
}

/// Parses BBCode into a tree. Unmatched closing tags and list items outside
/// a list stay text, tags left open at the end are closed (and marked
/// `auto_closed`), and a closing tag closes every tag opened after its match.
pub fn parse(input: &str) -> (d: Document<'_>)
    ensures
        nodes_view(d.children@, d.children@.len()) == parse_spec(input.spec_bytes()),
{
    let tokens = tokenize(input);
    let ghost toks = tokens_view(tokens@);
    let empty = byte_slice(input, 0, 0);
    let mut stack: Vec<Frame<'_>> = Vec::new();
    push_new_frame(&mut stack, empty, None, empty);
    proof {
        assert(empty.spec_bytes() =~= Seq::<u8>::empty());
        assert(stack_view(stack@) =~= seq![root_frame()]);
        assert(toks.take(0) =~= Seq::<SpecToken>::empty());
    }
    let mut i: usize = 0;
    while i < tokens.len()
        invariant
            toks == tokens_view(tokens@),
            i <= tokens.len(),
            stack.len() >= 1,
            stack_view(stack@) == run(seq![root_frame()], toks.take(i as int)),
        decreases tokens.len() - i,
    {
        let ghost before = stack_view(stack@);
        let tok = tokens[i];
        proof {
            lemma_rpos_tag_bound(before, Seq::empty(), 0);
            assert(toks.take(i + 1).drop_last() =~= toks.take(i as int));
            assert(toks.take(i + 1).last() == tok.spec_view());
        }
        match tok {
            Token::Text(s) => push_text(&mut stack, s),
            Token::Open { tag, attr, raw } => {
                if stack.len() > MAX_DEPTH {
                    push_text(&mut stack, raw);
                } else if is_list_item_tag(tag) {
                    open_list_item(&mut stack, tag, attr, raw);
                } else {
                    push_new_frame(&mut stack, tag, attr, raw);
                }
            },
            Token::Close { tag, raw } => {
                proof {
                    lemma_rpos_tag_bound(before, tag.spec_bytes(), stack@.len() as int);
                }
                let idx = rposition_tag(&stack, tag);
                match idx {
                    Some(target) => {
                        if target >= 1 {
                            close_down_to(&mut stack, target + 1, true);
                            close_top(&mut stack, false);
                        } else {
                            push_text(&mut stack, raw);
                        }
                    },
                    None => push_text(&mut stack, raw),
                }
            },
            Token::Star { raw } => {
                open_list_item(&mut stack, star_tag(), None, raw);
            },
        }
        i += 1;
    }
    proof {
        assert(toks.take(tokens@.len() as int) =~= toks);
    }
    close_down_to(&mut stack, 1, true);
    let root = stack.pop().unwrap();
    Document { children: root.children }
}

/// What the parser's stack keeps at every step: the root and at most
/// `MAX_DEPTH + 1` open frames, the last of which can only be a list item,
/// and no frame holding elements nested deeper than its place allows.
pub open spec fn stack_ok(st: Seq<SpecFrame>) -> bool {
    &&& 1 <= st.len() <= MAX_DEPTH + 2
    &&& st.len() == MAX_DEPTH + 2 ==> is_list_item_tag_spec(st[MAX_DEPTH + 1].tag)
    &&& forall|i: int| 0 <= i < st.len() ==> nodes_depth((#[trigger] st[i]).children, st[i].children.len()) + i <= MAX_DEPTH + 1
}

proof fn lemma_nodes_depth_prefix(ns: Seq<SpecNode>, ms: Seq<SpecNode>, k: nat)
    requires
        k <= ns.len(),
        k <= ms.len(),
        forall|i: int| 0 <= i < k ==> ns[i] == ms[i],
    ensures
        nodes_depth(ns, k) == nodes_depth(ms, k),
    decreases k,
{
    if k > 0 {
        lemma_nodes_depth_prefix(ns, ms, (k - 1) as nat);
    }
}

proof fn lemma_nodes_depth_push(ns: Seq<SpecNode>, n: SpecNode)
    ensures
        nodes_depth(ns.push(n), ns.len() + 1) == (if nodes_depth(ns, ns.len()) >= node_depth(n) {
            nodes_depth(ns, ns.len())
        } else {
            node_depth(n)
        }),
{
    lemma_nodes_depth_prefix(ns.push(n), ns, ns.len());
}

proof fn lemma_push_text_ok(st: Seq<SpecFrame>, s: Seq<u8>)
    requires
        stack_ok(st),
    ensures
        stack_ok(push_text_spec(st, s)),
{
    if s.len() > 0 {
        let l = st.last();
        lemma_nodes_depth_push(l.children, SpecNode::Text(s));
        let r = push_text_spec(st, s);
        assert forall|i: int| 0 <= i < r.len() implies nodes_depth((#[trigger] r[i]).children, r[i].children.len()) + i <= MAX_DEPTH + 1 by {
            if i < st.len() - 1 {
                assert(r[i] == st[i]);
            } else {
                assert(st[i] == l);
            }
        }
    }
}

proof fn lemma_close_top_ok(st: Seq<SpecFrame>, ac: bool)
    requires
        stack_ok(st),
        st.len() >= 2,
    ensures
        stack_ok(close_top_spec(st, ac)),
        close_top_spec(st, ac).len() == st.len() - 1,
{
    let r = close_top_spec(st, ac);
    let top = st.last();
    let el = SpecNode::Elem(frame_element(top, ac));
    let below = st[st.len() - 2];
    lemma_nodes_depth_push(below.children, el);
    assert(node_depth(el) == 1 + nodes_depth(top.children, top.children.len()));
    assert(nodes_depth(top.children, top.children.len()) + (st.len() - 1) <= MAX_DEPTH + 1) by {
        assert(st[st.len() - 1] == top);
    }
    assert forall|i: int| 0 <= i < r.len() implies nodes_depth((#[trigger] r[i]).children, r[i].children.len()) + i <= MAX_DEPTH + 1 by {
        if i < r.len() - 1 {
            assert(r[i] == st[i]);
        }
    }
}

proof fn lemma_close_to_ok(st: Seq<SpecFrame>, n: int, ac: bool)
    requires
        stack_ok(st),
        n >= 1,
    ensures
        stack_ok(close_to(st, n, ac)),
        close_to(st, n, ac).len() == if st.len() > n { n } else { st.len() as int },
    decreases st.len(),
{
    if st.len() > n && st.len() >= 2 {
        lemma_close_top_ok(st, ac);
        lemma_close_to_ok(close_top_spec(st, ac), n, ac);
    }
}

proof fn lemma_push_frame_ok(st: Seq<SpecFrame>, tag: Seq<u8>, attr: Option<Seq<u8>>, raw: Seq<u8>)
    requires
        stack_ok(st),
        st.len() <= MAX_DEPTH + 1,
        st.len() == MAX_DEPTH + 1 ==> is_list_item_tag_spec(tag),
    ensures
        stack_ok(push_frame(st, tag, attr, raw)),
{
    let r = push_frame(st, tag, attr, raw);
    assert forall|i: int| 0 <= i < r.len() implies nodes_depth((#[trigger] r[i]).children, r[i].children.len()) + i <= MAX_DEPTH + 1 by {
        if i < st.len() {
            assert(r[i] == st[i]);
        }
    }
}

proof fn lemma_rpos_list_found(st: Seq<SpecFrame>, n: int)
    requires
        0 <= n <= st.len(),
    ensures
        rpos_list(st, n) matches Some(i) ==> 0 <= i < n && is_list_tag_spec(st[i].tag),
    decreases n,
{
    if n > 0 && !is_list_tag_spec(st[n - 1].tag) {
        lemma_rpos_list_found(st, n - 1);
    }
}

proof fn lemma_rpos_item_found(st: Seq<SpecFrame>, n: int)
    requires
        0 <= n <= st.len(),
    ensures
        rpos_item(st, n) matches Some(i) ==> 0 <= i < n && is_list_item_tag_spec(st[i].tag),
    decreases n,
{
    if n > 0 && !is_list_item_tag_spec(st[n - 1].tag) {
        lemma_rpos_item_found(st, n - 1);
    }
}

/// No tag is both a list and a list item.
proof fn lemma_item_not_list(t: Seq<u8>)
    requires
        is_list_item_tag_spec(t),
    ensures
        !is_list_tag_spec(t),
{
    if t.len() == 2 && eq_ignore_case(t, li_name()) {
        assert(crate::text::ascii_lower(t[0]) == crate::text::ascii_lower(li_name()[0]));
        assert(crate::text::ascii_lower(li_name()[0]) == 0x6c);
        assert(crate::text::ascii_lower(ul_name()[0]) == 0x75);
        assert(crate::text::ascii_lower(ol_name()[0]) == 0x6f);
    }
}

proof fn lemma_open_list_item_ok(st: Seq<SpecFrame>, tag: Seq<u8>, attr: Option<Seq<u8>>, raw: Seq<u8>)
    requires
        stack_ok(st),
        is_list_item_tag_spec(tag),
    ensures
        stack_ok(open_list_item_spec(st, tag, attr, raw)),
{
    let n = st.len() as int;
    lemma_rpos_list_found(st, n);
    lemma_rpos_item_found(st, n);
    if n == MAX_DEPTH + 2 {
        let t = st[MAX_DEPTH + 1].tag;
        lemma_item_not_list(t);
        assert(rpos_item(st, n) == Some(n - 1));
    }
    match (rpos_list(st, n), rpos_item(st, n)) {
        (Some(li), Some(ii)) => if ii > li {
            lemma_close_to_ok(st, ii + 1, true);
            lemma_close_top_ok(close_to(st, ii + 1, true), true);
            lemma_push_frame_ok(close_top_spec(close_to(st, ii + 1, true), true), tag, attr, raw);
        } else {
            lemma_push_frame_ok(st, tag, attr, raw);
        },
        (Some(_), None) => lemma_push_frame_ok(st, tag, attr, raw),
        _ => lemma_push_text_ok(st, raw),
    }
}

/// A closing tag closes the innermost open element of its name: the frame
/// found below `n` has the tag's name, ignoring ASCII case, and no frame
/// above it and below `n` has; when none is found, no frame below `n` has
/// the name.
pub proof fn lemma_rpos_tag_innermost(st: Seq<SpecFrame>, tag: Seq<u8>, n: int)
    requires
        0 <= n <= st.len(),
    ensures
        match rpos_tag(st, tag, n) {
            Some(k) => 0 <= k < n && eq_ignore_case(st[k].tag, tag) && forall|j: int|
                k < j < n ==> !eq_ignore_case(#[trigger] st[j].tag, tag),
            None => forall|j: int| 0 <= j < n ==> !eq_ignore_case(#[trigger] st[j].tag, tag),
        },
    decreases n,
{
    if n > 0 {
        lemma_rpos_tag_innermost(st, tag, n - 1);
    }
}

proof fn lemma_rpos_tag_found(st: Seq<SpecFrame>, tag: Seq<u8>, n: int)
    requires
        0 <= n <= st.len(),
    ensures
        rpos_tag(st, tag, n) matches Some(i) ==> 0 <= i < n,
    decreases n,
{
    if n > 0 && !eq_ignore_case(st[n - 1].tag, tag) {
        lemma_rpos_tag_found(st, tag, n - 1);
    }
}

proof fn lemma_step_ok(st: Seq<SpecFrame>, tok: SpecToken)
    requires
        stack_ok(st),
    ensures
        stack_ok(step(st, tok)),
{
    match tok {
        SpecToken::Text(s) => lemma_push_text_ok(st, s),
        SpecToken::Open { tag, attr, raw } => if st.len() > MAX_DEPTH {
            lemma_push_text_ok(st, raw);
        } else if is_list_item_tag_spec(tag) {
            lemma_open_list_item_ok(st, tag, attr, raw);
        } else {
            lemma_push_frame_ok(st, tag, attr, raw);
        },
        SpecToken::Close { tag, raw } => {
            lemma_rpos_tag_found(st, tag, st.len() as int);
            match rpos_tag(st, tag, st.len() as int) {
                Some(t) => if t >= 1 {
                    lemma_close_to_ok(st, t + 1, true);
                    lemma_close_top_ok(close_to(st, t + 1, true), false);
                } else {
                    lemma_push_text_ok(st, raw);
                },
                None => lemma_push_text_ok(st, raw),
            }
        },
        SpecToken::Star { raw } => lemma_open_list_item_ok(st, star_name(), None, raw),
    }
}

proof fn lemma_run_ok(st: Seq<SpecFrame>, toks: Seq<SpecToken>)
    requires
        stack_ok(st),
    ensures
        stack_ok(run(st, toks)),
    decreases toks.len(),
{
    if toks.len() > 0 {
        lemma_run_ok(st, toks.drop_last());
        lemma_step_ok(run(st, toks.drop_last()), toks.last());
    }
}

/// Elements never nest more than `MAX_DEPTH + 1` deep: opening tags past
/// `MAX_DEPTH` levels turn into text, and only a bare `[*]` item can open
/// one level more.
pub proof fn lemma_parse_depth(b: Seq<u8>)
    ensures
        nodes_depth(parse_spec(b), parse_spec(b).len()) <= MAX_DEPTH + 1,
{
    let root = seq![root_frame()];
    assert(stack_ok(root)) by {
        assert(nodes_depth(root[0].children, 0) == 0);
    }
    let st = run(root, tokenize_spec(b));
    lemma_run_ok(root, tokenize_spec(b));
    lemma_close_to_ok(st, 1, true);
    let fin = close_to(st, 1, true);
    assert(nodes_depth(fin[0].children, fin[0].children.len()) + 0 <= MAX_DEPTH + 1);
}

} // verus!
