//! The tree builder: turns a stream of events into a forest of nodes, keeping
//! the open elements on a stack (the spine) and attaching each element to its
//! parent when it closes.
use vstd::prelude::*;
use crate::error::ParseError;
use crate::event::{Alignment, Event, EventV, Tag, TagV, balanced, depth_after, events_view};
use crate::node::{
    Attribute, AttributeV, Element, ElementV, Node, NodeV, attr_v, element_v, with_child,
    with_attr, decimal, decimal_string, nodes_view, lemma_nodes_view_len, lemma_nodes_view_index,
    lemma_nodes_view_push, opt_view, attrs_view,
};
use crate::sanitize::{
    admitted_attribute, drop_lone_blank, lemma_sanitized_allowed, sanitize_markup, sanitized,
    well_sanitized,
};

verus! {

/// The mathematical value of the builder's state.
pub struct ParserV {
    /// The open elements, outermost first.
    pub spine: Seq<ElementV>,
    /// The closed top-level nodes.
    pub nodes: Seq<NodeV>,
    pub in_code_block: bool,
    pub code_fence: Option<Seq<char>>,
    pub in_table_head: bool,
    pub is_title_heading: bool,
    pub title: Option<Seq<char>>,
    /// Footnote names in the order first seen; a name's number is its position plus one.
    pub footnotes: Seq<Seq<char>>,
    /// The column alignments of the last table opened.
    pub alignments: Seq<Alignment>,
    /// Raw markup seen since the last event of another kind.
    pub pending: Seq<char>,
}

pub open spec fn initial() -> ParserV {
    ParserV {
        spine: Seq::empty(),
        nodes: Seq::empty(),
        in_code_block: false,
        code_fence: None,
        in_table_head: false,
        is_title_heading: false,
        title: None,
        footnotes: Seq::empty(),
        alignments: Seq::empty(),
        pending: Seq::empty(),
    }
}

/// `s` with `n` attached: as the last child of the innermost open element, or
/// as the last top-level node when no element is open.
pub open spec fn attach(s: ParserV, n: NodeV) -> ParserV {
    if s.spine.len() == 0 {
        ParserV { nodes: s.nodes.push(n), ..s }
    } else {
        ParserV { spine: s.spine.drop_last().push(with_child(s.spine.last(), n)), ..s }
    }
}

/// `s` with each of `ns` attached in order.
pub open spec fn attach_all(s: ParserV, ns: Seq<NodeV>) -> ParserV
    decreases ns.len(),
{
    if ns.len() == 0 {
        s
    } else {
        attach(attach_all(s, ns.drop_last()), ns.last())
    }
}

/// The position of the first `name` in `names`.
pub open spec fn position(names: Seq<Seq<char>>, name: Seq<char>) -> Option<nat>
    decreases names.len(),
{
    if names.len() == 0 {
        None
    } else {
        match position(names.drop_last(), name) {
            Some(i) => Some(i),
            None => if names.last() == name {
                Some((names.len() - 1) as nat)
            } else {
                None
            },
        }
    }
}

/// The footnote names once `name` has been seen.
pub open spec fn register(names: Seq<Seq<char>>, name: Seq<char>) -> Seq<Seq<char>> {
    if position(names, name) is Some {
        names
    } else {
        names.push(name)
    }
}

/// The number of the footnote `name` once it has been seen.
pub open spec fn footnote_number(names: Seq<Seq<char>>, name: Seq<char>) -> nat {
    match position(names, name) {
        Some(i) => i + 1,
        None => names.len() + 1,
    }
}

pub open spec fn text_node(s: Seq<char>) -> NodeV {
    NodeV::Text(s)
}

pub open spec fn leaf(tag: Seq<char>, attrs: Seq<AttributeV>, child: NodeV) -> NodeV {
    NodeV::Element(with_child(element_v(tag, attrs, false), child))
}

/// The label that opens a footnote definition.
pub open spec fn footnote_label(n: nat) -> NodeV {
    leaf("sup"@, seq![attr_v("class"@, "footnote-label"@)], text_node(decimal(n)))
}

/// The marker that a footnote reference becomes.
pub open spec fn footnote_marker(name: Seq<char>, n: nat) -> NodeV {
    leaf(
        "sup"@,
        seq![attr_v("class"@, "footnote-reference"@)],
        leaf("a"@, seq![attr_v("href"@, "#"@ + name)], text_node(decimal(n))),
    )
}

/// The class attribute for a fence language, if there is one.
pub open spec fn fence_attrs(lang: Option<Seq<char>>) -> Seq<AttributeV> {
    match lang {
        Some(l) => seq![attr_v("class"@, l)],
        None => Seq::empty(),
    }
}

pub open spec fn heading_name(n: u32) -> Seq<char> {
    if n == 1 {
        "h1"@
    } else if n == 2 {
        "h2"@
    } else if n == 3 {
        "h3"@
    } else if n == 4 {
        "h4"@
    } else if n == 5 {
        "h5"@
    } else {
        "h6"@
    }
}

/// The element that a start tag opens; `footnotes` already holds the name of a
/// footnote definition.
pub open spec fn tag_element(t: TagV, in_table_head: bool, footnotes: Seq<Seq<char>>) -> ElementV {
    match t {
        TagV::Paragraph => element_v("p"@, Seq::empty(), false),
        TagV::Heading(n) => element_v(heading_name(n), Seq::empty(), false),
        TagV::BlockQuote => element_v("blockquote"@, Seq::empty(), false),
        TagV::CodeBlock(lang) => element_v("code"@, fence_attrs(lang), false),
        TagV::List(start) => match start {
            None => element_v("ul"@, Seq::empty(), false),
            Some(k) => if k == 1 {
                element_v("ol"@, Seq::empty(), false)
            } else {
                element_v("ol"@, seq![attr_v("start"@, decimal(k as nat))], false)
            },
        },
        TagV::Item => element_v("li"@, Seq::empty(), false),
        TagV::FootnoteDefinition(name) => with_child(
            element_v(
                "footer"@,
                seq![attr_v("class"@, "footnote-definition"@), attr_v("id"@, name)],
                false,
            ),
            footnote_label(footnote_number(footnotes, name)),
        ),
        TagV::Table(_) => element_v("table"@, Seq::empty(), false),
        TagV::TableHead => element_v("tr"@, Seq::empty(), false),
        TagV::TableRow => element_v("tr"@, Seq::empty(), false),
        TagV::TableCell => if in_table_head {
            element_v("th"@, Seq::empty(), false)
        } else {
            element_v("td"@, Seq::empty(), false)
        },
        TagV::Emphasis => element_v("em"@, Seq::empty(), false),
        TagV::Strong => element_v("strong"@, Seq::empty(), false),
        TagV::Strikethrough => element_v("s"@, Seq::empty(), false),
        TagV::Link(url, title) => element_v("a"@, seq![attr_v("href"@, url), attr_v("title"@, title)], false),
        TagV::Image(url, title) => element_v("img"@, seq![attr_v("src"@, url), attr_v("title"@, title)], true),
    }
}

/// The state once a start tag has been seen: the flags it sets, and its element
/// on top of the spine. A heading level outside 1 to 6 is an error.
pub open spec fn start_tag(s: ParserV, t: TagV) -> Result<ParserV, ParseError> {
    if t matches TagV::Heading(n) && (n < 1 || n > 6) {
        Err(ParseError::InvalidHeadingLevel(t->Heading_0))
    } else {
        let s1 = match t {
            TagV::Heading(n) => if n == 1 { ParserV { is_title_heading: true, ..s } } else { s },
            TagV::CodeBlock(lang) => ParserV { in_code_block: true, code_fence: lang, ..s },
            TagV::Table(al) => ParserV { alignments: al, ..s },
            TagV::TableHead => ParserV { in_table_head: true, ..s },
            TagV::TableRow => ParserV { in_table_head: false, ..s },
            TagV::FootnoteDefinition(name) => ParserV { footnotes: register(s.footnotes, name), ..s },
            _ => s,
        };
        Ok(ParserV { spine: s1.spine.push(tag_element(t, s1.in_table_head, s1.footnotes)), ..s1 })
    }
}

/// The class that marks an alignment, if any.
pub open spec fn alignment_class(a: Alignment) -> Option<Seq<char>> {
    match a {
        Alignment::Left => Some("text-left"@),
        Alignment::Center => Some("text-center"@),
        Alignment::Right => Some("text-right"@),
        Alignment::Unset => None,
    }
}

/// A cell in column `j`, marked with that column's alignment class; cells past
/// the declared columns, and texts, stay as they are.
pub open spec fn align_cell(c: NodeV, al: Seq<Alignment>, j: int) -> NodeV {
    match c {
        NodeV::Element(e) => if 0 <= j < al.len() && alignment_class(al[j]) is Some {
            NodeV::Element(with_attr(e, attr_v("class"@, alignment_class(al[j])->0)))
        } else {
            c
        },
        NodeV::Text(_) => c,
    }
}

/// A row with each of its cells aligned.
pub open spec fn align_row(r: NodeV, al: Seq<Alignment>) -> NodeV {
    match r {
        NodeV::Element(e) => NodeV::Element(
            ElementV { children: e.children.map(|j: int, c: NodeV| align_cell(c, al, j)), ..e },
        ),
        NodeV::Text(_) => r,
    }
}

/// A table with the alignment of each column carried to every cell of it.
pub open spec fn align_table(t: ElementV, al: Seq<Alignment>) -> ElementV {
    ElementV { children: t.children.map(|i: int, r: NodeV| align_row(r, al)), ..t }
}

/// The state once an end tag has been seen: the innermost open element is
/// closed, fixed up, and attached. With no element open it is an error.
pub open spec fn end_tag(s: ParserV, t: TagV) -> Result<ParserV, ParseError> {
    if s.spine.len() == 0 {
        Err(ParseError::UnmatchedEnd)
    } else {
        let top = s.spine.last();
        let s1 = ParserV { spine: s.spine.drop_last(), ..s };
        let (s2, closed) = match t {
            TagV::Heading(n) => if n == 1 { (ParserV { is_title_heading: false, ..s1 }, top) } else { (s1, top) },
            TagV::CodeBlock(_) => (ParserV { in_code_block: false, code_fence: None, ..s1 }, top),
            TagV::Table(_) => (s1, align_table(top, s1.alignments)),
            _ => (s1, top),
        };
        Ok(attach(s2, NodeV::Element(closed)))
    }
}

/// The node that a text becomes: inside a code block, a code element marked
/// with the fence language.
pub open spec fn text_leaf(s: ParserV, text: Seq<char>) -> NodeV {
    if s.in_code_block {
        leaf("code"@, fence_attrs(s.code_fence), text_node(text))
    } else {
        text_node(text)
    }
}

/// The title is the first text of the first level-1 heading that holds one.
pub open spec fn capture_title(s: ParserV, text: Seq<char>) -> ParserV {
    if s.is_title_heading && s.title is None {
        ParserV { title: Some(text), ..s }
    } else {
        s
    }
}

pub open spec fn checkbox_attrs(checked: bool) -> Seq<AttributeV> {
    if checked {
        seq![attr_v("type"@, "checkbox"@), AttributeV { name: "checked"@, value: None }]
    } else {
        seq![attr_v("type"@, "checkbox"@)]
    }
}

/// The state once an event has been handled, before any flush of raw markup.
pub open spec fn apply(s: ParserV, e: EventV) -> Result<ParserV, ParseError> {
    match e {
        EventV::Start(t) => start_tag(s, t),
        EventV::End(t) => end_tag(s, t),
        EventV::Text(text) => Ok(attach(capture_title(s, text), text_leaf(s, text))),
        EventV::Code(text) => Ok(attach(s, leaf("code"@, Seq::empty(), text_node(text)))),
        EventV::Html(raw) => Ok(ParserV { pending: s.pending + raw, ..s }),
        EventV::FootnoteReference(name) => {
            let names = register(s.footnotes, name);
            Ok(attach(ParserV { footnotes: names, ..s }, footnote_marker(name, footnote_number(names, name))))
        },
        EventV::SoftBreak => Ok(attach(s, text_node(seq!['\n']))),
        EventV::HardBreak => Ok(attach(s, NodeV::Element(element_v("br"@, Seq::empty(), true)))),
        EventV::Rule => Ok(attach(s, NodeV::Element(element_v("hr"@, Seq::empty(), true)))),
        EventV::TaskListMarker(checked) => Ok(
            attach(s, NodeV::Element(element_v("input"@, checkbox_attrs(checked), true))),
        ),
    }
}

/// The state with the pending raw markup filtered and attached.
pub open spec fn flush(s: ParserV) -> ParserV {
    if s.pending.len() == 0 {
        s
    } else {
        attach_all(ParserV { pending: Seq::empty(), ..s }, sanitized(s.pending))
    }
}

/// One event: unless it is raw markup, first flush what markup is pending,
/// so that it lands where it stood in the stream; then handle the event.
pub open spec fn step(s: ParserV, e: EventV) -> Result<ParserV, ParseError> {
    if e is Html {
        apply(s, e)
    } else {
        apply(flush(s), e)
    }
}

/// The state after a run of events; the first error stops the run.
pub open spec fn run(s: ParserV, evs: Seq<EventV>) -> Result<ParserV, ParseError>
    decreases evs.len(),
{
    if evs.len() == 0 {
        Ok(s)
    } else {
        match run(s, evs.drop_last()) {
            Ok(s1) => step(s1, evs.last()),
            Err(err) => Err(err),
        }
    }
}

/// What building from `evs` gives: the forest and the title, after a last
/// flush. Elements still open at the end are dropped.
pub open spec fn built(evs: Seq<EventV>) -> Result<(Seq<NodeV>, Option<Seq<char>>), ParseError> {
    match run(initial(), evs) {
        Ok(s) => {
            let f = flush(s);
            Ok((f.nodes, f.title))
        },
        Err(err) => Err(err),
    }
}


pub proof fn lemma_position_bound(names: Seq<Seq<char>>, name: Seq<char>)
    ensures
        position(names, name) matches Some(i) ==> i < names.len() && names[i as int] == name,
        position(names, name) is None ==> forall|i: int| 0 <= i < names.len() ==> names[i] != name,
    decreases names.len(),
{
    if names.len() > 0 {
        lemma_position_bound(names.drop_last(), name);
        if position(names, name) is None {
            assert forall|i: int| 0 <= i < names.len() implies names[i] != name by {
                if i < names.len() - 1 {
                    assert(names.drop_last()[i] == names[i]);
                }
            }
        }
    }
}

/// A name found in a prefix is found at the same place in the whole.
pub proof fn lemma_position_prefix(names: Seq<Seq<char>>, name: Seq<char>, k: int)
    requires
        0 <= k <= names.len(),
    ensures
        position(names.take(k), name) matches Some(j) ==> position(names, name) == Some(j),
    decreases names.len(),
{
    if k < names.len() {
        assert(names.drop_last().take(k) =~= names.take(k));
        lemma_position_prefix(names.drop_last(), name, k);
    } else {
        assert(names.take(k) =~= names);
    }
}

/// The builder's state for one parse.
pub struct MdParser {
    spine: Vec<Element>,
    nodes: Vec<Node>,
    in_code_block: bool,
    code_fence: Option<String>,
    in_table_head: bool,
    is_title_heading: bool,
    title: Option<String>,
    footnotes: Vec<String>,
    alignments: Vec<Alignment>,
    pending: String,
}

pub open spec fn elements_view(s: Seq<Element>) -> Seq<ElementV> {
    s.map_values(|e: Element| e@)
}

pub open spec fn strings_view(s: Seq<String>) -> Seq<Seq<char>> {
    s.map_values(|x: String| x@)
}

impl View for MdParser {
    type V = ParserV;

    closed spec fn view(&self) -> ParserV {
        ParserV {
            spine: elements_view(self.spine@),
            nodes: nodes_view(self.nodes@),
            in_code_block: self.in_code_block,
            code_fence: opt_view(self.code_fence),
            in_table_head: self.in_table_head,
            is_title_heading: self.is_title_heading,
            title: opt_view(self.title),
            footnotes: strings_view(self.footnotes@),
            alignments: self.alignments@,
            pending: self.pending@,
        }
    }
}

/// The position of the first `name` in `names`.
fn find_position(names: &Vec<String>, name: &String) -> (r: Option<usize>)
    ensures
        match r {
            Some(i) => position(strings_view(names@), name@) == Some(i as nat),
            None => position(strings_view(names@), name@) is None,
        },
{
    let mut i: usize = 0;
    while i < names.len()
        invariant
            i <= names.len(),
            position(strings_view(names@.take(i as int)), name@) is None,
        decreases names.len() - i,
    {
        assert(strings_view(names@.take(i + 1)).drop_last() =~= strings_view(names@.take(i as int)));
        if names[i] == *name {
            proof {
                assert(strings_view(names@.take(i + 1)).last() == name@);
                lemma_position_prefix(strings_view(names@), name@, i + 1);
                assert(strings_view(names@).take(i + 1) =~= strings_view(names@.take(i + 1)));
            }
            return Some(i);
        }
        i = i + 1;
    }
    assert(names@.take(i as int) =~= names@);
    None
}

impl MdParser {
    /// A builder with nothing seen yet.
    pub fn new() -> (r: MdParser)
        ensures
            r@ == initial(),
    {
        let r = MdParser {
            spine: Vec::new(),
            nodes: Vec::new(),
            in_code_block: false,
            code_fence: None,
            in_table_head: false,
            is_title_heading: false,
            title: None,
            footnotes: Vec::new(),
            alignments: Vec::new(),
            pending: String::new(),
        };
        assert(r@.spine =~= Seq::empty());
        assert(r@.nodes =~= Seq::empty());
        assert(r@.footnotes =~= Seq::empty());
        r
    }

    /// Attaches `child` to the innermost open element, or as a top-level node
    /// when none is open.
    pub fn add_child(&mut self, child: Node)
        ensures
            final(self)@ == attach(old(self)@, child@),
    {
        match self.spine.pop() {
            Some(mut top) => {
                top.push_child(child);
                self.spine.push(top);
                assert(elements_view(self.spine@) =~= elements_view(old(self).spine@).drop_last().push(
                    with_child(elements_view(old(self).spine@).last(), child@),
                ));
            },
            None => {
                self.push_to_nodes(child);
            },
        }
    }

    /// Opens `e` as the innermost element.
    pub fn push_to_spine(&mut self, e: Element)
        ensures
            final(self)@ == (ParserV { spine: old(self)@.spine.push(e@), ..old(self)@ }),
    {
        self.spine.push(e);
        assert(elements_view(self.spine@) =~= elements_view(old(self).spine@).push(e@));
    }

    /// Appends a top-level node.
    pub fn push_to_nodes(&mut self, n: Node)
        ensures
            final(self)@ == (ParserV { nodes: old(self)@.nodes.push(n@), ..old(self)@ }),
    {
        proof {
            lemma_nodes_view_push(self.nodes@, n);
        }
        self.nodes.push(n);
    }

    /// Attaches each of `ns` in order.
    fn add_children(&mut self, ns: Vec<Node>)
        ensures
            final(self)@ == attach_all(old(self)@, nodes_view(ns@)),
    {
        let mut rest = ns;
        let ghost all = nodes_view(ns@);
        proof {
            lemma_nodes_view_len(ns@);
        }
        let total = rest.len();
        let mut i: usize = 0;
        while rest.len() > 0
            invariant
                i + rest@.len() == total,
                total == all.len(),
                all == nodes_view(ns@),
                all.len() == ns@.len(),
                rest@ == ns@.skip(i as int),
                self@ == attach_all(old(self)@, all.take(i as int)),
            decreases rest.len(),
        {
            let n = rest.remove(0);
            proof {
                lemma_nodes_view_index(ns@, i as int);
                assert(n == ns@[i as int]);
                assert(all.take(i + 1).last() == all[i as int]);
                assert(all.take(i + 1).drop_last() =~= all.take(i as int));
                assert(ns@.skip(i + 1) =~= ns@.skip(i as int).remove(0));
            }
            let ghost prev = self@;
            self.add_child(n);
            assert(attach_all(old(self)@, all.take(i + 1)) == attach(prev, all[i as int]));
            i = i + 1;
        }
        assert(all.take(i as int) =~= all);
    }

    /// Filters the pending raw markup and attaches what it gives.
    fn flush(&mut self)
        ensures
            final(self)@ == flush(old(self)@),
    {
        if self.pending.as_str().unicode_len() > 0 {
            let nodes = sanitize_markup(self.pending.as_str());
            self.pending = String::new();
            self.add_children(nodes);
        }
    }

    /// Numbers the footnote `name`, registering it if it is new.
    fn footnote(&mut self, name: &String) -> (r: u64)
        ensures
            final(self)@ == (ParserV { footnotes: register(old(self)@.footnotes, name@), ..old(self)@ }),
            r as nat == footnote_number(final(self)@.footnotes, name@),
    {
        match find_position(&self.footnotes, name) {
            Some(i) => {
                proof {
                    lemma_position_bound(strings_view(self.footnotes@), name@);
                }
                assert(i < self.footnotes.len());
                (i as u64) + 1
            },
            None => {
                let ghost names = strings_view(self.footnotes@);
                self.footnotes.push(name.clone());
                proof {
                    assert(strings_view(self.footnotes@) =~= names.push(name@));
                    assert(names.push(name@).drop_last() =~= names);
                }
                self.footnotes.len() as u64
            },
        }
    }

    /// Handles a start tag.
    fn open_tag(&mut self, t: Tag) -> (r: Result<(), ParseError>)
        ensures
            match start_tag(old(self)@, t@) {
                Ok(s) => r is Ok && final(self)@ == s,
                Err(e) => r == Err::<(), ParseError>(e),
            },
    {
        match t {
            Tag::Heading(n) => {
                if n < 1 || n > 6 {
                    return Err(ParseError::InvalidHeadingLevel(n));
                }
                if n == 1 {
                    self.is_title_heading = true;
                }
                self.push_to_spine(Element::bare(heading_tag(n), false));
            },
            Tag::Paragraph => self.push_to_spine(Element::bare("p", false)),
            Tag::BlockQuote => self.push_to_spine(Element::bare("blockquote", false)),
            Tag::CodeBlock(lang) => {
                let attrs = fence_attributes(&lang);
                self.in_code_block = true;
                self.code_fence = lang;
                self.push_to_spine(Element::new("code", attrs, false));
            },
            Tag::List(start) => match start {
                None => self.push_to_spine(Element::bare("ul", false)),
                Some(k) => {
                    if k == 1 {
                        self.push_to_spine(Element::bare("ol", false));
                    } else {
                        let attrs = one_attr(Attribute::new("start", decimal_string(k)));
                        self.push_to_spine(Element::new("ol", attrs, false));
                    }
                },
            },
            Tag::Item => self.push_to_spine(Element::bare("li", false)),
            Tag::FootnoteDefinition(name) => {
                let n = self.footnote(&name);
                let attrs = two_attrs(
                    Attribute::new("class", String::from_str("footnote-definition")),
                    Attribute::new("id", name),
                );
                let mut e = Element::new("footer", attrs, false);
                e.push_child(footnote_label_node(n));
                self.push_to_spine(e);
            },
            Tag::Table(al) => {
                self.alignments = al;
                self.push_to_spine(Element::bare("table", false));
            },
            Tag::TableHead => {
                self.in_table_head = true;
                self.push_to_spine(Element::bare("tr", false));
            },
            Tag::TableRow => {
                self.in_table_head = false;
                self.push_to_spine(Element::bare("tr", false));
            },
            Tag::TableCell => {
                if self.in_table_head {
                    self.push_to_spine(Element::bare("th", false));
                } else {
                    self.push_to_spine(Element::bare("td", false));
                }
            },
            Tag::Emphasis => self.push_to_spine(Element::bare("em", false)),
            Tag::Strong => self.push_to_spine(Element::bare("strong", false)),
            Tag::Strikethrough => self.push_to_spine(Element::bare("s", false)),
            Tag::Link(url, title) => {
                let attrs = two_attrs(Attribute::new("href", url), Attribute::new("title", title));
                self.push_to_spine(Element::new("a", attrs, false));
            },
            Tag::Image(url, title) => {
                let attrs = two_attrs(Attribute::new("src", url), Attribute::new("title", title));
                self.push_to_spine(Element::new("img", attrs, true));
            },
        }
        Ok(())
    }

    /// Handles an end tag.
    fn close_tag(&mut self, t: Tag) -> (r: Result<(), ParseError>)
        ensures
            match end_tag(old(self)@, t@) {
                Ok(s) => r is Ok && final(self)@ == s,
                Err(e) => r == Err::<(), ParseError>(e),
            },
    {
        let ghost spine = self@.spine;
        match self.spine.pop() {
            None => Err(ParseError::UnmatchedEnd),
            Some(top) => {
                assert(elements_view(self.spine@) =~= spine.drop_last());
                assert(top@ == spine.last());
                let closed = match t {
                    Tag::Heading(n) => {
                        if n == 1 {
                            self.is_title_heading = false;
                        }
                        top
                    },
                    Tag::CodeBlock(_) => {
                        self.in_code_block = false;
                        self.code_fence = None;
                        top
                    },
                    Tag::Table(_) => align_table_element(top, &self.alignments),
                    _ => top,
                };
                self.add_child(Node::Element(closed));
                Ok(())
            },
        }
    }

    /// Handles an event without flushing raw markup.
    fn apply(&mut self, ev: Event) -> (r: Result<(), ParseError>)
        ensures
            match apply(old(self)@, ev@) {
                Ok(s) => r is Ok && final(self)@ == s,
                Err(e) => r == Err::<(), ParseError>(e),
            },
    {
        match ev {
            Event::Start(t) => self.open_tag(t),
            Event::End(t) => self.close_tag(t),
            Event::Text(text) => {
                let node = if self.in_code_block {
                    let attrs = fence_attributes(&self.code_fence);
                    leaf_node("code", attrs, Node::Text(text.clone()))
                } else {
                    Node::Text(text.clone())
                };
                if self.is_title_heading && self.title.is_none() {
                    self.title = Some(text);
                }
                self.add_child(node);
                Ok(())
            },
            Event::Code(text) => {
                self.add_child(leaf_node("code", no_attrs(), Node::Text(text)));
                Ok(())
            },
            Event::Html(raw) => {
                self.pending.append(raw.as_str());
                Ok(())
            },
            Event::FootnoteReference(name) => {
                let n = self.footnote(&name);
                self.add_child(footnote_marker_node(&name, n));
                Ok(())
            },
            Event::SoftBreak => {
                let nl = String::from_str("\n");
                proof {
                    reveal_strlit("\n");
                }
                assert(nl@ =~= seq!['\n']);
                self.add_child(Node::Text(nl));
                Ok(())
            },
            Event::HardBreak => {
                self.add_child(Node::Element(Element::bare("br", true)));
                Ok(())
            },
            Event::Rule => {
                self.add_child(Node::Element(Element::bare("hr", true)));
                Ok(())
            },
            Event::TaskListMarker(checked) => {
                let attrs = checkbox_attributes(checked);
                self.add_child(Node::Element(Element::new("input", attrs, true)));
                Ok(())
            },
        }
    }

    /// Handles one event: unless it is raw markup, first flushes the pending
    /// raw markup, then applies it.
    pub fn handle(&mut self, ev: Event) -> (r: Result<(), ParseError>)
        ensures
            match step(old(self)@, ev@) {
                Ok(s) => r is Ok && final(self)@ == s,
                Err(e) => r == Err::<(), ParseError>(e),
            },
    {
        if !matches!(ev, Event::Html(_)) {
            self.flush();
        }
        self.apply(ev)
    }

    /// Ends the stream: flushes the pending raw markup and hands out the forest
    /// and the title.
    pub fn finish(self) -> (r: (Vec<Node>, Option<String>))
        ensures
            nodes_view(r.0@) == flush(self@).nodes,
            opt_view(r.1) == flush(self@).title,
    {
        let mut p = self;
        p.flush();
        (p.nodes, p.title)
    }
}

fn heading_tag(n: u32) -> (r: &'static str)
    requires
        1 <= n <= 6,
    ensures
        r@ == heading_name(n),
{
    if n == 1 {
        "h1"
    } else if n == 2 {
        "h2"
    } else if n == 3 {
        "h3"
    } else if n == 4 {
        "h4"
    } else if n == 5 {
        "h5"
    } else {
        "h6"
    }
}

fn no_attrs() -> (r: Vec<Attribute>)
    ensures
        attrs_view(r@) == Seq::<AttributeV>::empty(),
{
    let v: Vec<Attribute> = Vec::new();
    assert(attrs_view(v@) =~= Seq::empty());
    v
}

fn one_attr(a: Attribute) -> (r: Vec<Attribute>)
    ensures
        attrs_view(r@) == seq![a@],
{
    let mut v: Vec<Attribute> = Vec::new();
    v.push(a);
    assert(attrs_view(v@) =~= seq![a@]);
    v
}

fn two_attrs(a: Attribute, b: Attribute) -> (r: Vec<Attribute>)
    ensures
        attrs_view(r@) == seq![a@, b@],
{
    let mut v: Vec<Attribute> = Vec::new();
    v.push(a);
    v.push(b);
    assert(attrs_view(v@) =~= seq![a@, b@]);
    v
}

fn fence_attributes(lang: &Option<String>) -> (r: Vec<Attribute>)
    ensures
        attrs_view(r@) == fence_attrs(opt_view(*lang)),
{
    match lang {
        Some(l) => one_attr(Attribute::new("class", l.clone())),
        None => {
            let v: Vec<Attribute> = Vec::new();
            assert(attrs_view(v@) =~= Seq::empty());
            v
        },
    }
}

fn checkbox_attributes(checked: bool) -> (r: Vec<Attribute>)
    ensures
        attrs_view(r@) == checkbox_attrs(checked),
{
    let kind = Attribute::new("type", String::from_str("checkbox"));
    if checked {
        two_attrs(kind, Attribute { name: String::from_str("checked"), value: None })
    } else {
        one_attr(kind)
    }
}

fn leaf_node(tag: &str, attrs: Vec<Attribute>, child: Node) -> (r: Node)
    ensures
        r@ == leaf(tag@, attrs_view(attrs@), child@),
{
    let mut e = Element::new(tag, attrs, false);
    e.push_child(child);
    Node::Element(e)
}

fn footnote_label_node(n: u64) -> (r: Node)
    ensures
        r@ == footnote_label(n as nat),
{
    let attrs = one_attr(Attribute::new("class", String::from_str("footnote-label")));
    leaf_node("sup", attrs, Node::Text(decimal_string(n)))
}

fn footnote_marker_node(name: &String, n: u64) -> (r: Node)
    ensures
        r@ == footnote_marker(name@, n as nat),
{
    let mut target = String::from_str("#");
    target.append(name.as_str());
    let link = leaf_node("a", one_attr(Attribute::new("href", target)), Node::Text(decimal_string(n)));
    let attrs = one_attr(Attribute::new("class", String::from_str("footnote-reference")));
    leaf_node("sup", attrs, link)
}

fn alignment_class_name(a: Alignment) -> (r: Option<&'static str>)
    ensures
        match r {
            Some(c) => alignment_class(a) == Some(c@),
            None => alignment_class(a) is None,
        },
{
    match a {
        Alignment::Left => Some("text-left"),
        Alignment::Center => Some("text-center"),
        Alignment::Right => Some("text-right"),
        Alignment::Unset => None,
    }
}

fn align_cell_node(c: Node, al: &Vec<Alignment>, j: usize) -> (r: Node)
    ensures
        r@ == align_cell(c@, al@, j as int),
{
    match c {
        Node::Element(mut e) => {
            if j < al.len() {
                match alignment_class_name(al[j]) {
                    Some(cls) => e.push_attr(Attribute::new("class", String::from_str(cls))),
                    None => {},
                }
            }
            Node::Element(e)
        },
        Node::Text(s) => Node::Text(s),
    }
}

fn align_cells(cells: Vec<Node>, al: &Vec<Alignment>) -> (r: Vec<Node>)
    ensures
        nodes_view(r@) == nodes_view(cells@).map(|j: int, c: NodeV| align_cell(c, al@, j)),
{
    let ghost all = nodes_view(cells@);
    let ghost target = all.map(|j: int, c: NodeV| align_cell(c, al@, j));
    proof {
        lemma_nodes_view_len(cells@);
    }
    let total = cells.len();
    let mut rest = cells;
    let mut out: Vec<Node> = Vec::new();
    let mut i: usize = 0;
    while rest.len() > 0
        invariant
            i + rest@.len() == total,
            total == all.len(),
            total == cells@.len(),
            all == nodes_view(cells@),
            target == all.map(|j: int, c: NodeV| align_cell(c, al@, j)),
            rest@ == cells@.skip(i as int),
            nodes_view(out@) == target.take(i as int),
        decreases rest.len(),
    {
        let c = rest.remove(0);
        proof {
            lemma_nodes_view_index(cells@, i as int);
            assert(cells@.skip(i + 1) =~= cells@.skip(i as int).remove(0));
        }
        let x = align_cell_node(c, al, i);
        proof {
            lemma_nodes_view_push(out@, x);
            assert(target.take(i + 1) =~= target.take(i as int).push(x@));
        }
        out.push(x);
        i = i + 1;
    }
    assert(target.take(i as int) =~= target);
    out
}

fn align_row_node(r: Node, al: &Vec<Alignment>) -> (o: Node)
    ensures
        o@ == align_row(r@, al@),
{
    match r {
        Node::Element(e) => {
            let Element { tag, attrs, children, self_closing } = e;
            Node::Element(Element { tag, attrs, children: align_cells(children, al), self_closing })
        },
        Node::Text(s) => Node::Text(s),
    }
}

fn align_table_element(t: Element, al: &Vec<Alignment>) -> (r: Element)
    ensures
        r@ == align_table(t@, al@),
{
    let Element { tag, attrs, children, self_closing } = t;
    let ghost all = nodes_view(children@);
    let ghost target = all.map(|i: int, row: NodeV| align_row(row, al@));
    proof {
        lemma_nodes_view_len(children@);
    }
    let total = children.len();
    let mut rest = children;
    let mut out: Vec<Node> = Vec::new();
    let mut i: usize = 0;
    while rest.len() > 0
        invariant
            i + rest@.len() == total,
            total == all.len(),
            total == children@.len(),
            all == nodes_view(children@),
            target == all.map(|i: int, row: NodeV| align_row(row, al@)),
            rest@ == children@.skip(i as int),
            nodes_view(out@) == target.take(i as int),
        decreases rest.len(),
    {
        let row = rest.remove(0);
        proof {
            lemma_nodes_view_index(children@, i as int);
            assert(children@.skip(i + 1) =~= children@.skip(i as int).remove(0));
        }
        let x = align_row_node(row, al);
        proof {
            lemma_nodes_view_push(out@, x);
            assert(target.take(i + 1) =~= target.take(i as int).push(x@));
        }
        out.push(x);
        i = i + 1;
    }
    assert(target.take(i as int) =~= target);
    Element { tag, attrs, children: out, self_closing }
}

/// An error stops a run for good.
pub proof fn lemma_run_error_prefix(s: ParserV, evs: Seq<EventV>, k: int)
    requires
        0 <= k <= evs.len(),
        run(s, evs.take(k)) is Err,
    ensures
        run(s, evs) == run(s, evs.take(k)),
    decreases evs.len(),
{
    if k < evs.len() {
        assert(evs.drop_last().take(k) =~= evs.take(k));
        lemma_run_error_prefix(s, evs.drop_last(), k);
    } else {
        assert(evs.take(k) =~= evs);
    }
}

/// Builds the forest and the title out of `events`, in order.
pub fn build(events: Vec<Event>) -> (r: Result<(Vec<Node>, Option<String>), ParseError>)
    ensures
        match built(events_view(events@)) {
            Ok(res) => r matches Ok((ns, t)) && nodes_view(ns@) == res.0 && opt_view(t) == res.1,
            Err(e) => r == Err::<(Vec<Node>, Option<String>), ParseError>(e),
        },
{
    let ghost evs = events_view(events@);
    let total = events.len();
    let mut rest = events;
    let mut p = MdParser::new();
    let mut i: usize = 0;
    while rest.len() > 0
        invariant
            i + rest@.len() == total,
            total == evs.len(),
            total == events@.len(),
            evs == events_view(events@),
            rest@ == events@.skip(i as int),
            run(initial(), evs.take(i as int)) == Ok::<ParserV, ParseError>(p@),
        decreases rest.len(),
    {
        let ev = rest.remove(0);
        proof {
            assert(events@.skip(i + 1) =~= events@.skip(i as int).remove(0));
            assert(evs.take(i + 1).drop_last() =~= evs.take(i as int));
            assert(evs.take(i + 1).last() == ev@);
        }
        match p.handle(ev) {
            Ok(()) => {},
            Err(e) => {
                proof {
                    lemma_run_error_prefix(initial(), evs, i + 1);
                }
                return Err(e);
            },
        }
        i = i + 1;
    }
    assert(evs.take(i as int) =~= evs);
    Ok(p.finish())
}


/// Whether every heading that `evs` opens has a level from 1 to 6.
pub open spec fn headings_valid(evs: Seq<EventV>) -> bool {
    forall|i: int| 0 <= i < evs.len() ==> (#[trigger] evs[i] matches EventV::Start(TagV::Heading(n)) ==> 1 <= n <= 6)
}

proof fn lemma_attach_all_spine(s: ParserV, ns: Seq<NodeV>)
    ensures
        attach_all(s, ns).spine.len() == s.spine.len(),
    decreases ns.len(),
{
    if ns.len() > 0 {
        lemma_attach_all_spine(s, ns.drop_last());
    }
}

proof fn lemma_step_depth(s: ParserV, e: EventV)
    requires
        e is End ==> s.spine.len() > 0,
        e matches EventV::Start(TagV::Heading(n)) ==> 1 <= n <= 6,
    ensures
        step(s, e) matches Ok(s2) && s2.spine.len() == s.spine.len() + if e is Start {
            1int
        } else if e is End {
            -1int
        } else {
            0int
        },
{
    lemma_attach_all_spine(ParserV { pending: Seq::empty(), ..s }, sanitized(s.pending));
}

proof fn lemma_run_depth(evs: Seq<EventV>, k: int)
    requires
        balanced(evs),
        headings_valid(evs),
        0 <= k <= evs.len(),
    ensures
        run(initial(), evs.take(k)) matches Ok(s) && s.spine.len() == depth_after(evs.take(k)),
    decreases k,
{
    if k > 0 {
        lemma_run_depth(evs, k - 1);
        let pre = evs.take(k);
        assert(pre.drop_last() =~= evs.take(k - 1));
        assert(pre.last() == evs[k - 1]);
        assert(depth_after(evs.take(k)) >= 0);
        let s = run(initial(), evs.take(k - 1))->Ok_0;
        lemma_step_depth(s, evs[k - 1]);
    }
}

/// The balance law: on events whose starts and ends pair up, and whose
/// headings have valid levels, building succeeds and every element opened has
/// been closed and attached by the end of the stream.
pub proof fn lemma_balanced_closes_all(evs: Seq<EventV>)
    requires
        balanced(evs),
        headings_valid(evs),
    ensures
        run(initial(), evs) matches Ok(s) && s.spine.len() == 0,
        built(evs) is Ok,
{
    lemma_run_depth(evs, evs.len() as int);
    assert(evs.take(evs.len() as int) =~= evs);
}

/// The other half of the balance law: each event handled while an element is
/// the innermost open one, and no raw markup is pending, adds exactly one child
/// to it, except raw markup, which waits, and a start, which opens a new
/// element above it; an end adds the closed element to its parent.
pub proof fn lemma_one_child_per_event(s: ParserV, e: EventV)
    requires
        s.spine.len() > 0,
        s.pending.len() == 0,
        !(e is Html),
        !(e is Start),
        e is End ==> s.spine.len() > 1,
    ensures
        step(s, e) matches Ok(s2) && {
            let n = if e is End { (s.spine.len() - 1) as int } else { s.spine.len() as int };
            &&& s2.spine.len() == n
            &&& s2.spine[n - 1].children.len() == s.spine[n - 1].children.len() + 1
            &&& forall|i: int| 0 <= i < n - 1 ==> s2.spine[i] == s.spine[i]
        },
{
}

/// Footnote numbering: numbers start at 1, in the order names are first seen;
/// a name keeps its number once seen, and two names seen get two numbers.
pub proof fn lemma_footnote_numbering(names: Seq<Seq<char>>, a: Seq<char>, b: Seq<char>)
    ensures
        footnote_number(Seq::empty(), a) == 1,
        position(names, a) is None ==> footnote_number(names, a) == names.len() + 1,
        position(register(names, a), a) is Some,
        footnote_number(register(names, a), a) == footnote_number(names, a),
        position(names, a) is Some ==> footnote_number(register(names, b), a) == footnote_number(names, a),
        position(names, a) is Some && position(names, b) is Some && a != b ==> footnote_number(names, a)
            != footnote_number(names, b),
{
    assert(names.push(a).drop_last() =~= names);
    assert(names.push(b).drop_last() =~= names);
    lemma_position_bound(names, a);
    lemma_position_bound(names, b);
}

/// Table alignment broadcast: once a table closes, the cell in column `j` of
/// each of its rows, the head row included, carries the class of column `j`,
/// if the column declares one, and is left as it was otherwise.
pub proof fn lemma_alignment_broadcast(t: ElementV, al: Seq<Alignment>, i: int, j: int)
    requires
        0 <= i < t.children.len(),
        t.children[i] is Element,
        0 <= j < t.children[i]->Element_0.children.len(),
    ensures
        align_table(t, al).children[i] matches NodeV::Element(row) && row.children[j] == if 0 <= j < al.len()
            && t.children[i]->Element_0.children[j] is Element && alignment_class(al[j]) is Some {
            NodeV::Element(
                with_attr(
                    t.children[i]->Element_0.children[j]->Element_0,
                    attr_v("class"@, alignment_class(al[j])->0),
                ),
            )
        } else {
            t.children[i]->Element_0.children[j]
        },
{
}

/// The attribute names that the builder writes itself.
pub open spec fn builder_attribute(name: Seq<char>) -> bool {
    name == "class"@ || name == "id"@ || name == "start"@ || name == "href"@ || name == "title"@
        || name == "src"@ || name == "type"@ || name == "checked"@
}

/// Whether every attribute of `n`, at every depth, is one that the allow-list
/// admits for embedded markup or one that the builder writes itself.
pub open spec fn attrs_allowed(n: NodeV) -> bool
    decreases n,
{
    match n {
        NodeV::Element(e) => {
            &&& forall|i: int| 0 <= i < e.attrs.len() ==> (admitted_attribute(#[trigger] e.attrs[i].name)
                || builder_attribute(e.attrs[i].name))
            &&& forall|i: int| 0 <= i < e.children.len() ==> attrs_allowed(#[trigger] e.children[i])
        },
        NodeV::Text(_) => true,
    }
}

pub open spec fn state_allowed(s: ParserV) -> bool {
    &&& forall|i: int| 0 <= i < s.spine.len() ==> attrs_allowed(NodeV::Element(#[trigger] s.spine[i]))
    &&& forall|i: int| 0 <= i < s.nodes.len() ==> attrs_allowed(#[trigger] s.nodes[i])
}

proof fn lemma_well_sanitized_allowed(n: NodeV)
    requires
        well_sanitized(n),
    ensures
        attrs_allowed(n),
    decreases n,
{
    match n {
        NodeV::Element(e) => {
            assert forall|i: int| 0 <= i < e.children.len() implies attrs_allowed(#[trigger] e.children[i]) by {
                lemma_well_sanitized_allowed(e.children[i]);
            }
        },
        NodeV::Text(_) => {},
    }
}

proof fn lemma_with_child_allowed(e: ElementV, c: NodeV)
    requires
        attrs_allowed(NodeV::Element(e)),
        attrs_allowed(c),
    ensures
        attrs_allowed(NodeV::Element(with_child(e, c))),
{
    let e2 = with_child(e, c);
    assert forall|i: int| 0 <= i < e2.children.len() implies attrs_allowed(#[trigger] e2.children[i]) by {
        if i < e.children.len() {
            assert(e2.children[i] == e.children[i]);
        }
    }
}

proof fn lemma_attach_allowed(s: ParserV, n: NodeV)
    requires
        state_allowed(s),
        attrs_allowed(n),
    ensures
        state_allowed(attach(s, n)),
{
    if s.spine.len() == 0 {
        let t = attach(s, n);
        assert forall|i: int| 0 <= i < t.nodes.len() implies attrs_allowed(#[trigger] t.nodes[i]) by {
            if i < s.nodes.len() {
                assert(t.nodes[i] == s.nodes[i]);
            }
        }
    } else {
        let top = s.spine.last();
        assert(attrs_allowed(NodeV::Element(s.spine[s.spine.len() - 1])));
        lemma_with_child_allowed(top, n);
        let t = attach(s, n);
        assert forall|i: int| 0 <= i < t.spine.len() implies attrs_allowed(NodeV::Element(#[trigger] t.spine[i])) by {
            if i < s.spine.len() - 1 {
                assert(t.spine[i] == s.spine[i]);
            }
        }
    }
}

proof fn lemma_attach_all_allowed(s: ParserV, ns: Seq<NodeV>)
    requires
        state_allowed(s),
        forall|i: int| 0 <= i < ns.len() ==> attrs_allowed(#[trigger] ns[i]),
    ensures
        state_allowed(attach_all(s, ns)),
    decreases ns.len(),
{
    if ns.len() > 0 {
        assert forall|i: int| 0 <= i < ns.drop_last().len() implies attrs_allowed(#[trigger] ns.drop_last()[i]) by {
            assert(ns.drop_last()[i] == ns[i]);
        }
        lemma_attach_all_allowed(s, ns.drop_last());
        assert(attrs_allowed(ns[ns.len() - 1]));
        lemma_attach_allowed(attach_all(s, ns.drop_last()), ns.last());
    }
}

proof fn lemma_flush_allowed(s: ParserV)
    requires
        state_allowed(s),
    ensures
        state_allowed(flush(s)),
{
    if s.pending.len() > 0 {
        lemma_sanitized_allowed(s.pending);
        let ns = sanitized(s.pending);
        assert forall|i: int| 0 <= i < ns.len() implies attrs_allowed(#[trigger] ns[i]) by {
            lemma_well_sanitized_allowed(ns[i]);
        }
        lemma_attach_all_allowed(ParserV { pending: Seq::empty(), ..s }, ns);
    }
}

proof fn lemma_leaf_allowed(tag: Seq<char>, attrs: Seq<AttributeV>, child: NodeV)
    requires
        forall|i: int| 0 <= i < attrs.len() ==> builder_attribute(#[trigger] attrs[i].name),
        attrs_allowed(child),
    ensures
        attrs_allowed(leaf(tag, attrs, child)),
{
    assert(attrs_allowed(NodeV::Element(element_v(tag, attrs, false))));
    lemma_with_child_allowed(element_v(tag, attrs, false), child);
}

proof fn lemma_tag_element_allowed(t: TagV, in_head: bool, names: Seq<Seq<char>>)
    ensures
        attrs_allowed(NodeV::Element(tag_element(t, in_head, names))),
{
    match t {
        TagV::FootnoteDefinition(name) => {
            let label = footnote_label(footnote_number(names, name));
            lemma_leaf_allowed("sup"@, seq![attr_v("class"@, "footnote-label"@)], text_node(decimal(footnote_number(names, name))));
            let f = element_v("footer"@, seq![attr_v("class"@, "footnote-definition"@), attr_v("id"@, name)], false);
            assert(attrs_allowed(NodeV::Element(f)));
            lemma_with_child_allowed(f, label);
        },
        _ => {},
    }
}

proof fn lemma_align_table_allowed(t: ElementV, al: Seq<Alignment>)
    requires
        attrs_allowed(NodeV::Element(t)),
    ensures
        attrs_allowed(NodeV::Element(align_table(t, al))),
{
    let t2 = align_table(t, al);
    assert forall|i: int| 0 <= i < t2.children.len() implies attrs_allowed(#[trigger] t2.children[i]) by {
        let r = t.children[i];
        assert(attrs_allowed(r));
        assert(t2.children[i] == align_row(r, al));
        match r {
            NodeV::Element(e) => {
                let r2 = align_row(r, al)->Element_0;
                assert forall|j: int| 0 <= j < r2.children.len() implies attrs_allowed(#[trigger] r2.children[j]) by {
                    let c = e.children[j];
                    assert(attrs_allowed(c));
                    assert(r2.children[j] == align_cell(c, al, j));
                    match c {
                        NodeV::Element(ce) => {
                            if 0 <= j < al.len() && alignment_class(al[j]) is Some {
                                let ce2 = with_attr(ce, attr_v("class"@, alignment_class(al[j])->0));
                                assert forall|k: int| 0 <= k < ce2.attrs.len() implies (admitted_attribute(#[trigger] ce2.attrs[k].name)
                                    || builder_attribute(ce2.attrs[k].name)) by {
                                    if k < ce.attrs.len() {
                                        assert(ce2.attrs[k] == ce.attrs[k]);
                                    }
                                }
                                assert forall|k: int| 0 <= k < ce2.children.len() implies attrs_allowed(#[trigger] ce2.children[k]) by {
                                    assert(ce2.children[k] == ce.children[k]);
                                }
                            }
                        },
                        NodeV::Text(_) => {},
                    }
                }
            },
            NodeV::Text(_) => {},
        }
    }
}

proof fn lemma_step_allowed(s: ParserV, e: EventV)
    requires
        state_allowed(s),
    ensures
        step(s, e) matches Ok(s2) ==> state_allowed(s2),
{
    let f = if e is Html { s } else { flush(s) };
    lemma_flush_allowed(s);
    assert(state_allowed(f));
    match e {
        EventV::Start(t) => {
            if start_tag(f, t) is Ok {
                let s2 = start_tag(f, t)->Ok_0;
                let s1 = ParserV { spine: s2.spine.drop_last(), ..s2 };
                assert(s1.spine =~= f.spine);
                lemma_tag_element_allowed(t, s1.in_table_head, s1.footnotes);
                assert forall|i: int| 0 <= i < s2.spine.len() implies attrs_allowed(NodeV::Element(#[trigger] s2.spine[i])) by {
                    if i < f.spine.len() {
                        assert(s2.spine[i] == f.spine[i]);
                    }
                }
            }
        },
        EventV::End(t) => {
            if f.spine.len() > 0 {
                let top = f.spine.last();
                assert(attrs_allowed(NodeV::Element(f.spine[f.spine.len() - 1])));
                lemma_align_table_allowed(top, f.alignments);
                let s1 = ParserV { spine: f.spine.drop_last(), ..f };
                assert forall|i: int| 0 <= i < s1.spine.len() implies attrs_allowed(NodeV::Element(#[trigger] s1.spine[i])) by {
                    assert(s1.spine[i] == f.spine[i]);
                }
                lemma_attach_allowed(s1, NodeV::Element(top));
                lemma_attach_allowed(ParserV { is_title_heading: false, ..s1 }, NodeV::Element(top));
                lemma_attach_allowed(ParserV { in_code_block: false, code_fence: None, ..s1 }, NodeV::Element(top));
                lemma_attach_allowed(s1, NodeV::Element(align_table(top, s1.alignments)));
            }
        },
        EventV::Text(text) => {
            lemma_leaf_allowed("code"@, fence_attrs(f.code_fence), text_node(text));
            lemma_attach_allowed(capture_title(f, text), text_leaf(f, text));
        },
        EventV::Code(text) => {
            lemma_leaf_allowed("code"@, Seq::empty(), text_node(text));
            lemma_attach_allowed(f, leaf("code"@, Seq::empty(), text_node(text)));
        },
        EventV::Html(_) => {},
        EventV::FootnoteReference(name) => {
            let names = register(f.footnotes, name);
            let n = footnote_number(names, name);
            lemma_leaf_allowed("a"@, seq![attr_v("href"@, "#"@ + name)], text_node(decimal(n)));
            lemma_leaf_allowed(
                "sup"@,
                seq![attr_v("class"@, "footnote-reference"@)],
                leaf("a"@, seq![attr_v("href"@, "#"@ + name)], text_node(decimal(n))),
            );
            lemma_attach_allowed(ParserV { footnotes: names, ..f }, footnote_marker(name, n));
        },
        EventV::SoftBreak => {
            lemma_attach_allowed(f, text_node(seq!['\n']));
        },
        EventV::HardBreak => {
            lemma_attach_allowed(f, NodeV::Element(element_v("br"@, Seq::empty(), true)));
        },
        EventV::Rule => {
            lemma_attach_allowed(f, NodeV::Element(element_v("hr"@, Seq::empty(), true)));
        },
        EventV::TaskListMarker(checked) => {
            lemma_attach_allowed(f, NodeV::Element(element_v("input"@, checkbox_attrs(checked), true)));
        },
    }
}

proof fn lemma_run_allowed(evs: Seq<EventV>)
    ensures
        run(initial(), evs) matches Ok(s) ==> state_allowed(s),
    decreases evs.len(),
{
    if evs.len() > 0 {
        lemma_run_allowed(evs.drop_last());
        if run(initial(), evs.drop_last()) is Ok {
            lemma_step_allowed(run(initial(), evs.drop_last())->Ok_0, evs.last());
        }
    }
}

/// Allow-list soundness over a whole parse: every attribute of every node that
/// building gives, at every depth, is either admitted by the allow-list for
/// embedded markup or one of the few names the builder writes itself; no
/// other attribute name, in any casing, reaches the forest.
pub proof fn lemma_forest_attributes_allowed(evs: Seq<EventV>)
    ensures
        built(evs) matches Ok(res) ==> forall|i: int| 0 <= i < res.0.len() ==> attrs_allowed(#[trigger] res.0[i]),
{
    lemma_run_allowed(evs);
    if run(initial(), evs) is Ok {
        lemma_flush_allowed(run(initial(), evs)->Ok_0);
    }
}

} // verus!
