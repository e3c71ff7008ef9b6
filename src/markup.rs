//! Embedded markup: the tree that rphtml's tag-soup parser gives for a fragment.
use std::cell::RefCell;
use std::rc::Rc;
use rphtml::parser::Node as SoupNode;
use vstd::prelude::*;
use crate::node::opt_view;

verus! {

/// std's `RefCell`, opaque: rphtml keeps its nodes in them.
#[verifier::external_type_specification]
#[verifier::external_body]
#[verifier::reject_recursive_types(T)]
pub struct ExRefCell<T: ?Sized>(RefCell<T>);

/// rphtml's node, opaque: it is read through the accessors below.
#[verifier::external_type_specification]
#[verifier::external_body]
pub struct ExSoupNode(SoupNode);

/// A handle on a node of the tree that rphtml built.
pub type HtmlNode = Rc<RefCell<SoupNode>>;

/// What kind of node rphtml found.
enum MarkupKind {
    Root,
    Tag,
    Text,
    Other,
}

/// An attribute as the markup wrote it: a key and a value, either of which may be missing.
#[derive(Debug, PartialEq, Eq)]
pub struct MarkupAttr {
    pub key: Option<String>,
    pub value: Option<String>,
}

/// A node of a parsed markup fragment.
#[derive(Debug, PartialEq, Eq)]
pub enum MarkupNode {
    /// The fragment itself, holding its top-level nodes.
    Root(Vec<MarkupNode>),
    Element { name: String, attrs: Vec<MarkupAttr>, children: Vec<MarkupNode> },
    Text(String),
    /// A comment, a doctype, spaces between tags, or anything else that carries no content.
    Other,
}

pub struct MarkupAttrV {
    pub key: Option<Seq<char>>,
    pub value: Option<Seq<char>>,
}

/// The mathematical value of a [`MarkupNode`].
pub enum MarkupNodeV {
    Root(Seq<MarkupNodeV>),
    Element { name: Seq<char>, attrs: Seq<MarkupAttrV>, children: Seq<MarkupNodeV> },
    Text(Seq<char>),
    Other,
}

impl View for MarkupAttr {
    type V = MarkupAttrV;

    open spec fn view(&self) -> MarkupAttrV {
        MarkupAttrV { key: opt_view(self.key), value: opt_view(self.value) }
    }
}

pub open spec fn markup_attrs_view(s: Seq<MarkupAttr>) -> Seq<MarkupAttrV> {
    s.map_values(|a: MarkupAttr| a@)
}

pub open spec fn markup_view(n: MarkupNode) -> MarkupNodeV
    decreases n, 1int,
{
    match n {
        MarkupNode::Root(children) => MarkupNodeV::Root(markup_seq_view(children@)),
        MarkupNode::Element { name, attrs, children } => MarkupNodeV::Element {
            name: name@,
            attrs: markup_attrs_view(attrs@),
            children: markup_seq_view(children@),
        },
        MarkupNode::Text(s) => MarkupNodeV::Text(s@),
        MarkupNode::Other => MarkupNodeV::Other,
    }
}

pub open spec fn markup_seq_view(s: Seq<MarkupNode>) -> Seq<MarkupNodeV>
    decreases s, 0int,
{
    if s.len() == 0 {
        Seq::empty()
    } else {
        markup_seq_view(s.drop_last()).push(markup_view(s.last()))
    }
}

impl View for MarkupNode {
    type V = MarkupNodeV;

    open spec fn view(&self) -> MarkupNodeV {
        markup_view(*self)
    }
}

pub proof fn lemma_markup_seq_view_len(s: Seq<MarkupNode>)
    ensures
        markup_seq_view(s).len() == s.len(),
    decreases s.len(),
{
    if s.len() > 0 {
        lemma_markup_seq_view_len(s.drop_last());
    }
}

pub proof fn lemma_markup_seq_view_take(s: Seq<MarkupNode>, i: int)
    requires
        0 <= i < s.len(),
    ensures
        markup_seq_view(s.take(i + 1)) == markup_seq_view(s.take(i)).push(s[i]@),
{
    assert(s.take(i + 1).drop_last() =~= s.take(i));
}

/// What rphtml's tolerant parse gives for `html`: `None` where it reports an error.
pub uninterp spec fn markup_tree_of(html: Seq<char>) -> Option<MarkupNodeV>;

/// Relies on the `node_type` field of rphtml's `Node`.
#[verifier::external_body]
fn html_node_kind(n: &HtmlNode) -> MarkupKind {
    match n.borrow().node_type {
        rphtml::parser::NodeType::AbstractRoot => MarkupKind::Root,
        rphtml::parser::NodeType::Tag => MarkupKind::Tag,
        rphtml::parser::NodeType::Text => MarkupKind::Text,
        _ => MarkupKind::Other,
    }
}

/// Relies on the `content` field of rphtml's `Node`: the characters of a text node.
#[verifier::external_body]
fn html_node_content(n: &HtmlNode) -> Option<String> {
    n.borrow().content.as_ref().map(|c| c.iter().collect())
}

/// Relies on the `childs` field of rphtml's `Node`: handles on its children, in order.
#[verifier::external_body]
fn html_node_children(n: &HtmlNode) -> Vec<HtmlNode> {
    n.borrow().childs.clone().unwrap_or_default()
}

/// Relies on the `meta` field of rphtml's `Node`: the name of a tag.
#[verifier::external_body]
fn html_node_tag_name(n: &HtmlNode) -> Option<String> {
    n.borrow().meta.as_ref().map(|m| m.borrow().name.iter().collect())
}

/// Relies on the `meta` field of rphtml's `Node`: the attributes of a tag, in order.
#[verifier::external_body]
fn html_node_attrs(n: &HtmlNode) -> Vec<MarkupAttr> {
    let node = n.borrow();
    let attrs = node.meta.as_ref().map(|m| m.borrow().attrs.clone()).unwrap_or_default();
    attrs.iter().map(|a| MarkupAttr {
        key: a.key.as_ref().map(|k| k.content.iter().collect()),
        value: a.value.as_ref().map(|v| v.content.iter().collect()),
    }).collect()
}

impl MarkupNode {
    /// Reads the node that `n` designates, and its descendants down to `depth` levels.
    pub fn from_html(n: &HtmlNode, depth: usize) -> (r: MarkupNode)
        decreases depth, 1int,
    {
        match html_node_kind(n) {
            MarkupKind::Root => MarkupNode::Root(MarkupNode::children_from_html(n, depth)),
            MarkupKind::Tag => match html_node_tag_name(n) {
                Some(name) => MarkupNode::Element {
                    name,
                    attrs: html_node_attrs(n),
                    children: MarkupNode::children_from_html(n, depth),
                },
                None => MarkupNode::Other,
            },
            MarkupKind::Text => match html_node_content(n) {
                Some(c) => MarkupNode::Text(c),
                None => MarkupNode::Other,
            },
            MarkupKind::Other => MarkupNode::Other,
        }
    }

    fn children_from_html(n: &HtmlNode, depth: usize) -> (r: Vec<MarkupNode>)
        decreases depth, 0int,
    {
        let mut out: Vec<MarkupNode> = Vec::new();
        if depth == 0 {
            return out;
        }
        let kids = html_node_children(n);
        let mut i: usize = 0;
        while i < kids.len()
            invariant
                depth > 0,
            decreases kids.len() - i,
        {
            out.push(MarkupNode::from_html(&kids[i], depth - 1));
            i = i + 1;
        }
        out
    }
}

/// Relies on rphtml's `Doc::parse`, with tag names read without regard to case
/// and unclosed tags, stray end tags and stray `<` repaired; the tree is read
/// down to as many levels as `html` has bytes, which no tree of `html` exceeds,
/// each level opening with a `<` of its own.
#[verifier::external_body]
pub(crate) fn parse_markup(html: &str) -> (r: Result<MarkupNode, String>)
    ensures
        r is Ok == markup_tree_of(html@) is Some,
        r matches Ok(t) ==> markup_tree_of(html@) == Some(t@),
{
    let options = rphtml::config::ParseOptions {
        case_sensitive_tagname: false,
        allow_self_closing: true,
        auto_fix_unclosed_tag: true,
        auto_fix_unexpected_endtag: true,
        auto_fix_unescaped_lt: true,
        ..Default::default()
    };
    rphtml::parser::Doc::parse(html, options)
        .map(|doc| MarkupNode::from_html(&doc.get_root_node(), html.len()))
        .map_err(|e| e.to_string())
}

} // verus!
