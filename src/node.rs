//! The document tree: elements, their attributes, and text.
use vstd::prelude::*;

verus! {

/// An attribute of an element: a name and an optional value.
#[derive(Debug, PartialEq, Eq)]
pub struct Attribute {
    pub name: String,
    pub value: Option<String>,
}

/// An element: a tag, its attributes in order, its children in order,
/// and whether it is written without a closing tag.
#[derive(Debug, PartialEq, Eq)]
pub struct Element {
    pub tag: String,
    pub attrs: Vec<Attribute>,
    pub children: Vec<Node>,
    pub self_closing: bool,
}

/// A node of the document tree.
#[derive(Debug, PartialEq, Eq)]
pub enum Node {
    Element(Element),
    Text(String),
}

/// The mathematical value of an [`Attribute`].
pub struct AttributeV {
    pub name: Seq<char>,
    pub value: Option<Seq<char>>,
}

/// The mathematical value of an [`Element`].
pub struct ElementV {
    pub tag: Seq<char>,
    pub attrs: Seq<AttributeV>,
    pub children: Seq<NodeV>,
    pub self_closing: bool,
}

/// The mathematical value of a [`Node`].
pub enum NodeV {
    Element(ElementV),
    Text(Seq<char>),
}

pub open spec fn opt_view(o: Option<String>) -> Option<Seq<char>> {
    match o {
        Some(s) => Some(s@),
        None => None,
    }
}

/// A copy of an optional string.
pub fn clone_opt(o: &Option<String>) -> (r: Option<String>)
    ensures
        opt_view(r) == opt_view(*o),
{
    match o {
        Some(s) => Some(s.clone()),
        None => None,
    }
}

impl View for Attribute {
    type V = AttributeV;

    open spec fn view(&self) -> AttributeV {
        AttributeV { name: self.name@, value: opt_view(self.value) }
    }
}

pub open spec fn attrs_view(s: Seq<Attribute>) -> Seq<AttributeV> {
    s.map_values(|a: Attribute| a@)
}

pub open spec fn element_view(e: Element) -> ElementV
    decreases e, 2int,
{
    ElementV {
        tag: e.tag@,
        attrs: attrs_view(e.attrs@),
        children: nodes_view(e.children@),
        self_closing: e.self_closing,
    }
}

pub open spec fn node_view(n: Node) -> NodeV
    decreases n, 1int,
{
    match n {
        Node::Element(e) => NodeV::Element(element_view(e)),
        Node::Text(s) => NodeV::Text(s@),
    }
}

pub open spec fn nodes_view(s: Seq<Node>) -> Seq<NodeV>
    decreases s, 0int,
{
    if s.len() == 0 {
        Seq::empty()
    } else {
        nodes_view(s.drop_last()).push(node_view(s.last()))
    }
}

impl View for Element {
    type V = ElementV;

    open spec fn view(&self) -> ElementV {
        element_view(*self)
    }
}

impl View for Node {
    type V = NodeV;

    open spec fn view(&self) -> NodeV {
        node_view(*self)
    }
}


/// An element with the given tag and attributes and no children yet.
pub open spec fn element_v(tag: Seq<char>, attrs: Seq<AttributeV>, self_closing: bool) -> ElementV {
    ElementV { tag, attrs, children: Seq::empty(), self_closing }
}

pub open spec fn attr_v(name: Seq<char>, value: Seq<char>) -> AttributeV {
    AttributeV { name, value: Some(value) }
}

/// `e` with one more child at the end.
pub open spec fn with_child(e: ElementV, c: NodeV) -> ElementV {
    ElementV { children: e.children.push(c), ..e }
}

/// `e` with one more attribute at the end.
pub open spec fn with_attr(e: ElementV, a: AttributeV) -> ElementV {
    ElementV { attrs: e.attrs.push(a), ..e }
}

pub proof fn lemma_nodes_view_len(s: Seq<Node>)
    ensures
        nodes_view(s).len() == s.len(),
    decreases s.len(),
{
    if s.len() > 0 {
        lemma_nodes_view_len(s.drop_last());
    }
}

pub proof fn lemma_nodes_view_index(s: Seq<Node>, i: int)
    requires
        0 <= i < s.len(),
    ensures
        nodes_view(s)[i] == s[i]@,
    decreases s.len(),
{
    lemma_nodes_view_len(s.drop_last());
    if i < s.len() - 1 {
        lemma_nodes_view_index(s.drop_last(), i);
    }
}

pub proof fn lemma_nodes_view_push(s: Seq<Node>, n: Node)
    ensures
        nodes_view(s.push(n)) == nodes_view(s).push(n@),
{
    assert(s.push(n).drop_last() =~= s);
}

impl Attribute {
    /// An attribute with a value.
    pub fn new(name: &str, value: String) -> (r: Attribute)
        ensures
            r@ == attr_v(name@, value@),
    {
        Attribute { name: String::from_str(name), value: Some(value) }
    }
}

impl Element {
    /// An element with no children.
    pub fn new(tag: &str, attrs: Vec<Attribute>, self_closing: bool) -> (r: Element)
        ensures
            r@ == element_v(tag@, attrs_view(attrs@), self_closing),
    {
        let r = Element { tag: String::from_str(tag), attrs, children: Vec::new(), self_closing };
        assert(nodes_view(r.children@) =~= Seq::empty());
        r
    }

    /// An element with no attributes and no children.
    pub fn bare(tag: &str, self_closing: bool) -> (r: Element)
        ensures
            r@ == element_v(tag@, Seq::empty(), self_closing),
    {
        let r = Element::new(tag, Vec::new(), self_closing);
        assert(attrs_view(Seq::<Attribute>::empty()) =~= Seq::empty());
        r
    }

    /// Appends a child.
    pub fn push_child(&mut self, child: Node)
        ensures
            final(self)@ == with_child(old(self)@, child@),
    {
        proof {
            lemma_nodes_view_push(self.children@, child);
        }
        self.children.push(child);
    }

    /// Appends an attribute.
    pub fn push_attr(&mut self, a: Attribute)
        ensures
            final(self)@ == with_attr(old(self)@, a@),
    {
        self.attrs.push(a);
        assert(attrs_view(self.attrs@) =~= attrs_view(old(self).attrs@).push(a@));
    }
}

/// The digit `d` as a character.
pub open spec fn digit_char(d: nat) -> char {
    if d == 0 { '0' } else if d == 1 { '1' } else if d == 2 { '2' } else if d == 3 { '3' }
    else if d == 4 { '4' } else if d == 5 { '5' } else if d == 6 { '6' } else if d == 7 { '7' }
    else if d == 8 { '8' } else { '9' }
}

/// The decimal digits of `n`, most significant first, without leading zeros.
pub open spec fn decimal(n: nat) -> Seq<char>
    decreases n,
{
    if n < 10 {
        seq![digit_char(n)]
    } else {
        decimal(n / 10).push(digit_char(n % 10))
    }
}

fn digit_str(d: u64) -> (r: &'static str)
    requires
        d < 10,
    ensures
        r@ == seq![digit_char(d as nat)],
{
    proof {
        reveal_strlit("0");
        reveal_strlit("1");
        reveal_strlit("2");
        reveal_strlit("3");
        reveal_strlit("4");
        reveal_strlit("5");
        reveal_strlit("6");
        reveal_strlit("7");
        reveal_strlit("8");
        reveal_strlit("9");
    }
    if d == 0 { "0" } else if d == 1 { "1" } else if d == 2 { "2" } else if d == 3 { "3" }
    else if d == 4 { "4" } else if d == 5 { "5" } else if d == 6 { "6" } else if d == 7 { "7" }
    else if d == 8 { "8" } else { "9" }
}

/// Writes `n` in decimal.
pub fn decimal_string(n: u64) -> (r: String)
    ensures
        r@ == decimal(n as nat),
    decreases n,
{
    if n < 10 {
        String::from_str(digit_str(n))
    } else {
        let mut s = decimal_string(n / 10);
        s.append(digit_str(n % 10));
        s
    }
}

} // verus!
