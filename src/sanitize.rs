//! Filtering embedded markup against the allow-lists into document nodes.
//!
//! An element whose tag is not in the allow-list is dropped together with its
//! whole subtree. Attributes outside the allow-list are dropped, and so is
//! every attribute that carries a URL, whatever its value. Text passes
//! through, but a text of whitespace alone that would be the only child of an
//! element is dropped. Comments and the like are dropped.
use vstd::prelude::*;
use crate::error::ParseError;
use crate::lookup::{is_known_attribute, is_known_tag, is_void_tag, is_self_closing, match_attribute, match_tag};
use crate::markup::{
    MarkupAttr, MarkupAttrV, MarkupNode, MarkupNodeV, markup_attrs_view, markup_seq_view,
    markup_tree_of, parse_markup, lemma_markup_seq_view_len, lemma_markup_seq_view_take,
};
use crate::node::{
    Attribute, AttributeV, Element, ElementV, Node, NodeV, attrs_view, nodes_view,
    lemma_nodes_view_push, lemma_nodes_view_len, lemma_nodes_view_index, clone_opt,
};

verus! {

/// Whether some attribute of `s` is named `name`.
pub open spec fn has_attr(s: Seq<AttributeV>, name: Seq<char>) -> bool {
    exists|i: int| 0 <= i < s.len() && #[trigger] s[i].name == name
}

/// Whether no two attributes of `s` share a name.
pub open spec fn names_unique(s: Seq<AttributeV>) -> bool {
    forall|i: int, j: int| 0 <= i < j < s.len() ==> #[trigger] s[i].name != #[trigger] s[j].name
}

/// Whether `name` is an attribute that carries a URL, and so a script
/// through a `javascript:` scheme. Sanitizing never admits one, whatever its value.
pub open spec fn is_url_attribute(name: Seq<char>) -> bool {
    name == "href"@ || name == "src"@ || name == "srcset"@ || name == "xlink:href"@
        || name == "action"@ || name == "formaction"@ || name == "background"@
        || name == "cite"@ || name == "codebase"@ || name == "data"@ || name == "poster"@
        || name == "longdesc"@ || name == "ping"@ || name == "manifest"@ || name == "icon"@
        || name == "profile"@ || name == "usemap"@ || name == "archive"@ || name == "classid"@
        || name == "lowsrc"@ || name == "dynsrc"@
}

/// The allow-list for embedded markup: the attribute names that sauron knows,
/// less those that carry a URL.
pub open spec fn admitted_attribute(name: Seq<char>) -> bool {
    is_known_attribute(name) && !is_url_attribute(name)
}

/// The attributes that pass the allow-list, in order, each under its key; of
/// several with one name the first is kept.
pub open spec fn clean_attrs(s: Seq<MarkupAttrV>) -> Seq<AttributeV>
    decreases s.len(),
{
    if s.len() == 0 {
        Seq::empty()
    } else {
        let rest = clean_attrs(s.drop_last());
        let a = s.last();
        if a.key is Some && admitted_attribute(a.key->0) && !has_attr(rest, a.key->0) {
            rest.push(AttributeV { name: a.key->0, value: a.value })
        } else {
            rest
        }
    }
}

/// Whether `c` is ASCII whitespace.
pub open spec fn is_blank_char(c: char) -> bool {
    c == ' ' || c == '\t' || c == '\n' || c == '\r' || c == '\x0C'
}

pub open spec fn is_blank(s: Seq<char>) -> bool {
    forall|i: int| 0 <= i < s.len() ==> is_blank_char(#[trigger] s[i])
}

/// Children with a lone whitespace-only text removed.
pub open spec fn drop_lone_blank(s: Seq<NodeV>) -> Seq<NodeV> {
    if s.len() == 1 && s[0] is Text && is_blank(s[0]->Text_0) {
        Seq::empty()
    } else {
        s
    }
}

/// The document node that a markup node becomes, if it is kept.
pub open spec fn clean_node(n: MarkupNodeV) -> Option<NodeV>
    decreases n, 1int,
{
    match n {
        MarkupNodeV::Element { name, attrs, children } => {
            if is_known_tag(name) {
                Some(
                    NodeV::Element(
                        ElementV {
                            tag: name,
                            attrs: clean_attrs(attrs),
                            children: drop_lone_blank(clean_nodes(children)),
                            self_closing: is_void_tag(name),
                        },
                    ),
                )
            } else {
                None
            }
        },
        MarkupNodeV::Text(s) => Some(NodeV::Text(s)),
        _ => None,
    }
}

/// The document nodes that a sequence of markup nodes becomes: those kept, in order.
pub open spec fn clean_nodes(s: Seq<MarkupNodeV>) -> Seq<NodeV>
    decreases s, 0int,
{
    if s.len() == 0 {
        Seq::empty()
    } else {
        let rest = clean_nodes(s.drop_last());
        match clean_node(s.last()) {
            Some(n) => rest.push(n),
            None => rest,
        }
    }
}

/// The document nodes of a parsed fragment: those of its top-level nodes.
pub open spec fn fragment_nodes(t: MarkupNodeV) -> Seq<NodeV> {
    match t {
        MarkupNodeV::Root(children) => clean_nodes(children),
        _ => clean_nodes(seq![t]),
    }
}

/// The document nodes that the markup `raw` becomes: none where it cannot be parsed.
pub open spec fn sanitized(raw: Seq<char>) -> Seq<NodeV> {
    match markup_tree_of(raw) {
        Some(t) => fragment_nodes(t),
        None => Seq::empty(),
    }
}

/// Whether `name` carries a URL.
pub fn url_attribute(name: &String) -> (r: bool)
    ensures
        r == is_url_attribute(name@),
{
    let names = [
        "href", "src", "srcset", "xlink:href", "action", "formaction", "background", "cite",
        "codebase", "data", "poster", "longdesc", "ping", "manifest", "icon", "profile", "usemap",
        "archive", "classid", "lowsrc", "dynsrc",
    ];
    let mut i: usize = 0;
    while i < names.len()
        invariant
            names@ == seq![
                "href", "src", "srcset", "xlink:href", "action", "formaction", "background", "cite",
                "codebase", "data", "poster", "longdesc", "ping", "manifest", "icon", "profile",
                "usemap", "archive", "classid", "lowsrc", "dynsrc",
            ],
            forall|j: int| 0 <= j < i ==> name@ != (#[trigger] names@[j])@,
        decreases names.len() - i,
    {
        if *name == String::from_str(names[i]) {
            return true;
        }
        i = i + 1;
    }
    assert(forall|j: int| 0 <= j < 21 ==> name@ != (#[trigger] names@[j])@);
    assert(name@ != names@[0]@);
    false
}

/// Whether some attribute of `v` is named `name`.
fn has_attr_named(v: &Vec<Attribute>, name: &String) -> (r: bool)
    ensures
        r == has_attr(attrs_view(v@), name@),
{
    let mut i: usize = 0;
    while i < v.len()
        invariant
            i <= v.len(),
            forall|j: int| 0 <= j < i ==> attrs_view(v@)[j].name != name@,
        decreases v.len() - i,
    {
        if v[i].name == *name {
            assert(attrs_view(v@)[i as int].name == name@);
            return true;
        }
        i = i + 1;
    }
    false
}

/// The attributes of `attrs` that pass the allow-list, the first of each name.
pub fn sanitize_attrs(attrs: &Vec<MarkupAttr>) -> (r: Vec<Attribute>)
    ensures
        attrs_view(r@) == clean_attrs(markup_attrs_view(attrs@)),
{
    let mut out: Vec<Attribute> = Vec::new();
    let mut i: usize = 0;
    while i < attrs.len()
        invariant
            i <= attrs.len(),
            attrs_view(out@) == clean_attrs(markup_attrs_view(attrs@.take(i as int))),
        decreases attrs.len() - i,
    {
        let a = &attrs[i];
        assert(markup_attrs_view(attrs@.take(i + 1)).drop_last() =~= markup_attrs_view(attrs@.take(i as int)));
        let ghost before = out@;
        match &a.key {
            Some(k) => match match_attribute(k.as_str()) {
                Some(name) => {
                    if !url_attribute(&name) && !has_attr_named(&out, &name) {
                        out.push(Attribute { name, value: clone_opt(&a.value) });
                        assert(attrs_view(out@) =~= attrs_view(before).push(out@.last()@));
                    }
                },
                None => {},
            },
            None => {},
        }
        i = i + 1;
    }
    assert(attrs@.take(attrs.len() as int) =~= attrs@);
    out
}

/// Whether `s` holds nothing but ASCII whitespace.
pub fn blank(s: &String) -> (r: bool)
    ensures
        r == is_blank(s@),
{
    let n = s.as_str().unicode_len();
    let mut i: usize = 0;
    while i < n
        invariant
            n == s@.len(),
            i <= n,
            forall|j: int| 0 <= j < i ==> is_blank_char(#[trigger] s@[j]),
        decreases n - i,
    {
        let c = s.as_str().get_char(i);
        if !(c == ' ' || c == '\t' || c == '\n' || c == '\r' || c == '\x0C') {
            return false;
        }
        i = i + 1;
    }
    true
}

/// The document node that `n` becomes, if it is kept.
pub fn sanitize_node(n: &MarkupNode) -> (r: Option<Node>)
    ensures
        match r {
            Some(x) => clean_node(n@) == Some(x@),
            None => clean_node(n@) is None,
        },
    decreases n, 1int,
{
    match n {
        MarkupNode::Element { name, attrs, children } => {
            match match_tag(name.as_str()) {
                Some(tag) => {
                    let mut kids = sanitize_nodes(children);
                    let ghost cleaned = nodes_view(kids@);
                    proof {
                        lemma_nodes_view_len(kids@);
                        if kids.len() == 1 {
                            lemma_nodes_view_index(kids@, 0);
                        }
                    }
                    if kids.len() == 1 {
                        let lone = match &kids[0] {
                            Node::Text(t) => blank(t),
                            _ => false,
                        };
                        if lone {
                            kids = Vec::new();
                            assert(nodes_view(kids@) =~= Seq::empty());
                        }
                    }
                    assert(nodes_view(kids@) == drop_lone_blank(cleaned));
                    let self_closing = is_self_closing(name.as_str());
                    let e = Element { tag, attrs: sanitize_attrs(attrs), children: kids, self_closing };
                    Some(Node::Element(e))
                },
                None => None,
            }
        },
        MarkupNode::Text(s) => Some(Node::Text(s.clone())),
        _ => None,
    }
}

/// The document nodes that `s` becomes: those kept, in order.
pub fn sanitize_nodes(s: &Vec<MarkupNode>) -> (r: Vec<Node>)
    ensures
        nodes_view(r@) == clean_nodes(markup_seq_view(s@)),
    decreases s, 0int,
{
    let mut out: Vec<Node> = Vec::new();
    let mut i: usize = 0;
    while i < s.len()
        invariant
            i <= s.len(),
            nodes_view(out@) == clean_nodes(markup_seq_view(s@.take(i as int))),
        decreases s.len() - i,
    {
        proof {
            lemma_markup_seq_view_take(s@, i as int);
            lemma_markup_seq_view_len(s@.take(i + 1));
            assert(markup_seq_view(s@.take(i + 1)).drop_last() =~= markup_seq_view(s@.take(i as int)));
        }
        match sanitize_node(&s[i]) {
            Some(x) => {
                proof {
                    lemma_nodes_view_push(out@, x);
                }
                out.push(x);
            },
            None => {},
        }
        i = i + 1;
    }
    assert(s@.take(s.len() as int) =~= s@);
    out
}


/// The document nodes of a parsed fragment.
fn fragment(t: &MarkupNode) -> (r: Vec<Node>)
    ensures
        nodes_view(r@) == fragment_nodes(t@),
{
    match t {
        MarkupNode::Root(children) => sanitize_nodes(children),
        _ => {
            let mut out: Vec<Node> = Vec::new();
            assert(seq![t@].drop_last() =~= Seq::<MarkupNodeV>::empty());
            assert(seq![t@].last() == t@);
            assert(clean_nodes(Seq::<MarkupNodeV>::empty()) == Seq::<NodeV>::empty());
            assert(nodes_view(out@) =~= Seq::empty());
            match sanitize_node(t) {
                Some(x) => {
                    proof {
                        lemma_nodes_view_push(out@, x);
                    }
                    out.push(x);
                },
                None => {},
            }
            out
        },
    }
}

/// Parses the markup `raw` and keeps what the allow-lists admit. A fragment
/// that cannot be parsed gives no nodes.
pub fn sanitize_markup(raw: &str) -> (r: Vec<Node>)
    ensures
        nodes_view(r@) == sanitized(raw@),
{
    match parse_markup(raw) {
        Ok(t) => fragment(&t),
        Err(_) => {
            let out: Vec<Node> = Vec::new();
            assert(nodes_view(out@) =~= Seq::empty());
            out
        },
    }
}

/// The nodes of a fragment as one node: none, the only one, or an `html`
/// element holding them all.
pub open spec fn gathered(s: Seq<NodeV>) -> Option<NodeV> {
    if s.len() == 0 {
        None
    } else if s.len() == 1 {
        Some(s[0])
    } else {
        Some(NodeV::Element(ElementV { tag: "html"@, attrs: Seq::empty(), children: s, self_closing: false }))
    }
}

/// Parses a markup fragment that is not wrapped in an `html` element, and keeps
/// what the allow-lists admit.
pub fn parse_simple(html: &str) -> (r: Result<Option<Node>, ParseError>)
    ensures
        match r {
            Ok(o) => markup_tree_of(html@) matches Some(t) && match o {
                Some(x) => gathered(fragment_nodes(t)) == Some(x@),
                None => gathered(fragment_nodes(t)) is None,
            },
            Err(e) => markup_tree_of(html@) is None && e is Markup,
        },
{
    match parse_markup(html) {
        Ok(t) => {
            let mut nodes = fragment(&t);
            proof {
                lemma_nodes_view_len(nodes@);
            }
            if nodes.len() == 0 {
                Ok(None)
            } else if nodes.len() == 1 {
                proof {
                    lemma_nodes_view_index(nodes@, 0);
                }
                Ok(nodes.pop())
            } else {
                let e = Element { tag: String::from_str("html"), attrs: Vec::new(), children: nodes, self_closing: false };
                assert(attrs_view(e.attrs@) =~= Seq::empty());
                Ok(Some(Node::Element(e)))
            }
        },
        Err(msg) => Err(ParseError::Markup(msg)),
    }
}

/// What a node filtered against the allow-lists looks like, at every depth:
/// its tag and each of its attribute names are in the allow-lists, it is
/// self-closing exactly when its tag is, and it has no lone whitespace-only text.
pub open spec fn well_sanitized(n: NodeV) -> bool
    decreases n,
{
    match n {
        NodeV::Element(e) => {
            &&& is_known_tag(e.tag)
            &&& e.self_closing == is_void_tag(e.tag)
            &&& forall|i: int| 0 <= i < e.attrs.len() ==> admitted_attribute(#[trigger] e.attrs[i].name)
            &&& names_unique(e.attrs)
            &&& drop_lone_blank(e.children) == e.children
            &&& forall|i: int| 0 <= i < e.children.len() ==> well_sanitized(#[trigger] e.children[i])
        },
        NodeV::Text(_) => true,
    }
}

/// The markup tree that a document node stands for.
pub open spec fn as_markup(n: NodeV) -> MarkupNodeV
    decreases n, 1int,
{
    match n {
        NodeV::Element(e) => MarkupNodeV::Element {
            name: e.tag,
            attrs: attrs_as_markup(e.attrs),
            children: as_markup_seq(e.children),
        },
        NodeV::Text(s) => MarkupNodeV::Text(s),
    }
}

pub open spec fn attrs_as_markup(s: Seq<AttributeV>) -> Seq<MarkupAttrV> {
    s.map_values(|a: AttributeV| MarkupAttrV { key: Some(a.name), value: a.value })
}

pub open spec fn as_markup_seq(s: Seq<NodeV>) -> Seq<MarkupNodeV>
    decreases s, 0int,
{
    if s.len() == 0 {
        Seq::empty()
    } else {
        as_markup_seq(s.drop_last()).push(as_markup(s.last()))
    }
}

proof fn lemma_clean_attrs_known(s: Seq<MarkupAttrV>)
    ensures
        forall|i: int| 0 <= i < clean_attrs(s).len() ==> admitted_attribute(#[trigger] clean_attrs(s)[i].name),
        names_unique(clean_attrs(s)),
    decreases s.len(),
{
    if s.len() > 0 {
        lemma_clean_attrs_known(s.drop_last());
    }
}

proof fn lemma_clean_attrs_unlisted(s: Seq<MarkupAttrV>)
    requires
        forall|i: int| 0 <= i < s.len() ==> (#[trigger] s[i]).key is None || !is_known_attribute(s[i].key->0),
    ensures
        clean_attrs(s) == Seq::<AttributeV>::empty(),
    decreases s.len(),
{
    if s.len() > 0 {
        lemma_clean_attrs_unlisted(s.drop_last());
    }
}

proof fn lemma_clean_attrs_fixed(s: Seq<AttributeV>)
    requires
        forall|i: int| 0 <= i < s.len() ==> admitted_attribute(#[trigger] s[i].name),
        names_unique(s),
    ensures
        clean_attrs(attrs_as_markup(s)) == s,
    decreases s.len(),
{
    if s.len() > 0 {
        assert(attrs_as_markup(s).drop_last() =~= attrs_as_markup(s.drop_last()));
        lemma_clean_attrs_fixed(s.drop_last());
        let rest = s.drop_last();
        assert(!has_attr(rest, s.last().name)) by {
            if has_attr(rest, s.last().name) {
                let i = choose|i: int| 0 <= i < rest.len() && #[trigger] rest[i].name == s.last().name;
                assert(s[i].name == s[s.len() - 1].name);
            }
        }
        assert(s.drop_last().push(s.last()) =~= s);
    }
}

proof fn lemma_clean_node_sanitized(t: MarkupNodeV)
    ensures
        clean_node(t) matches Some(n) ==> well_sanitized(n),
    decreases t, 1int,
{
    match t {
        MarkupNodeV::Element { name, attrs, children } => {
            lemma_clean_attrs_known(attrs);
            lemma_clean_nodes_sanitized(children);
            let c = clean_nodes(children);
            assert(drop_lone_blank(drop_lone_blank(c)) == drop_lone_blank(c));
        },
        _ => {},
    }
}

proof fn lemma_clean_nodes_sanitized(s: Seq<MarkupNodeV>)
    ensures
        forall|i: int| 0 <= i < clean_nodes(s).len() ==> well_sanitized(#[trigger] clean_nodes(s)[i]),
    decreases s, 0int,
{
    if s.len() > 0 {
        lemma_clean_nodes_sanitized(s.drop_last());
        lemma_clean_node_sanitized(s.last());
        let rest = clean_nodes(s.drop_last());
        assert forall|i: int| 0 <= i < clean_nodes(s).len() implies well_sanitized(#[trigger] clean_nodes(s)[i]) by {
            if i < rest.len() {
                assert(clean_nodes(s)[i] == rest[i]);
            }
        }
    }
}

proof fn lemma_sanitized_fixed(n: NodeV)
    requires
        well_sanitized(n),
    ensures
        clean_node(as_markup(n)) == Some(n),
    decreases n, 1int,
{
    match n {
        NodeV::Element(e) => {
            lemma_clean_attrs_fixed(e.attrs);
            lemma_sanitized_seq_fixed(e.children);
        },
        NodeV::Text(_) => {},
    }
}

proof fn lemma_sanitized_seq_fixed(s: Seq<NodeV>)
    requires
        forall|i: int| 0 <= i < s.len() ==> well_sanitized(#[trigger] s[i]),
    ensures
        clean_nodes(as_markup_seq(s)) == s,
    decreases s, 0int,
{
    if s.len() > 0 {
        let m = as_markup_seq(s);
        assert(m.drop_last() == as_markup_seq(s.drop_last()));
        lemma_sanitized_seq_fixed(s.drop_last());
        lemma_sanitized_fixed(s.last());
        assert(s.drop_last().push(s.last()) =~= s);
    }
}

/// Allow-list soundness: every node that filtering markup gives, at every
/// depth, carries only tags and attribute names of the allow-lists.
pub proof fn lemma_sanitized_allowed(raw: Seq<char>)
    ensures
        forall|i: int| 0 <= i < sanitized(raw).len() ==> well_sanitized(#[trigger] sanitized(raw)[i]),
{
    match markup_tree_of(raw) {
        Some(t) => match t {
            MarkupNodeV::Root(children) => lemma_clean_nodes_sanitized(children),
            _ => lemma_clean_nodes_sanitized(seq![t]),
        },
        None => {},
    }
}

/// Filtering is idempotent: reading back what filtering a sequence of markup
/// nodes gave, and filtering it again, strips nothing more.
pub proof fn lemma_sanitize_idempotent(s: Seq<MarkupNodeV>)
    ensures
        clean_nodes(as_markup_seq(clean_nodes(s))) == clean_nodes(s),
{
    lemma_clean_nodes_sanitized(s);
    lemma_sanitized_seq_fixed(clean_nodes(s));
}

/// An element of a known tag whose attributes are all outside the allow-list
/// comes out with no attribute at all, and with its children filtered as usual.
pub proof fn lemma_unlisted_attributes_dropped(
    name: Seq<char>,
    attrs: Seq<MarkupAttrV>,
    children: Seq<MarkupNodeV>,
)
    requires
        is_known_tag(name),
        forall|i: int| 0 <= i < attrs.len() ==> (#[trigger] attrs[i]).key is None || !is_known_attribute(attrs[i].key->0),
    ensures
        clean_node(MarkupNodeV::Element { name, attrs, children }) == Some(
            NodeV::Element(
                ElementV {
                    tag: name,
                    attrs: Seq::empty(),
                    children: drop_lone_blank(clean_nodes(children)),
                    self_closing: is_void_tag(name),
                },
            ),
        ),
{
    lemma_clean_attrs_unlisted(attrs);
}

proof fn lemma_clean_attrs_no_url(s: Seq<MarkupAttrV>, name: Seq<char>)
    requires
        is_url_attribute(name),
    ensures
        !has_attr(clean_attrs(s), name),
{
    lemma_clean_attrs_known(s);
    if has_attr(clean_attrs(s), name) {
        let i = choose|i: int| 0 <= i < clean_attrs(s).len() && #[trigger] clean_attrs(s)[i].name == name;
        assert(admitted_attribute(clean_attrs(s)[i].name));
    }
}

/// Embedded anchors carry no link: an `a` element comes out of filtering
/// with no `href`, whatever its attributes and their values, and with its
/// children filtered as usual.
pub proof fn lemma_embedded_anchor_has_no_href(attrs: Seq<MarkupAttrV>, children: Seq<MarkupNodeV>)
    requires
        is_known_tag("a"@),
    ensures
        clean_node(MarkupNodeV::Element { name: "a"@, attrs, children }) matches Some(NodeV::Element(e))
            && !has_attr(e.attrs, "href"@)
            && e.children == drop_lone_blank(clean_nodes(children)),
{
    lemma_clean_attrs_no_url(attrs, "href"@);
}

} // verus!
