//! Markdown text in, document tree out: pulldown-cmark reads the text into
//! events, and the tree builder does the rest.
use pulldown_cmark::Alignment as MdAlignment;
use pulldown_cmark::CodeBlockKind as MdCodeBlockKind;
use pulldown_cmark::CowStr as MdCowStr;
use pulldown_cmark::Event as MdEvent;
use pulldown_cmark::LinkType as MdLinkType;
use pulldown_cmark::Tag as MdTag;
use vstd::prelude::*;
use crate::builder::{build, built, headings_valid, lemma_balanced_closes_all};
use crate::error::ParseError;
use crate::event::{Alignment, Event, EventV, Tag, TagV, balanced, events_view};
use crate::node::{Node, nodes_view, opt_view};

verus! {

/// pulldown-cmark's string, opaque: its text is taken out whole by `owned`.
#[verifier::external_type_specification]
#[verifier::external_body]
pub struct ExMdCowStr<'a>(MdCowStr<'a>);

/// pulldown-cmark's kind of link, opaque: the tree does not depend on it.
#[verifier::external_type_specification]
#[verifier::external_body]
pub struct ExMdLinkType(MdLinkType);

/// pulldown-cmark's column alignment, its variants visible to the conversion;
/// so are those of the three types below.
#[verifier::external_type_specification]
pub struct ExMdAlignment(MdAlignment);

#[verifier::external_type_specification]
pub struct ExMdCodeBlockKind<'a>(MdCodeBlockKind<'a>);

#[verifier::external_type_specification]
pub struct ExMdTag<'a>(MdTag<'a>);

#[verifier::external_type_specification]
pub struct ExMdEvent<'a>(MdEvent<'a>);

/// Relies on pulldown_cmark's `CowStr::into_string`: the text held, owned.
#[verifier::external_body]
fn owned(s: MdCowStr) -> String {
    s.into_string()
}

pub open spec fn alignment_of(a: MdAlignment) -> Alignment {
    match a {
        MdAlignment::None => Alignment::Unset,
        MdAlignment::Left => Alignment::Left,
        MdAlignment::Center => Alignment::Center,
        MdAlignment::Right => Alignment::Right,
    }
}

/// How a pulldown-cmark tag and a tag of this library correspond: the same
/// kind, with the same levels, start numbers and column alignments.
pub open spec fn tag_corresponds(t: MdTag, u: TagV) -> bool {
    match t {
        MdTag::Paragraph => u is Paragraph,
        MdTag::Heading(n) => u == TagV::Heading(n),
        MdTag::BlockQuote => u is BlockQuote,
        MdTag::CodeBlock(kind) => match kind {
            MdCodeBlockKind::Indented => u == TagV::CodeBlock(None),
            MdCodeBlockKind::Fenced(_) => u matches TagV::CodeBlock(Some(_)),
        },
        MdTag::List(start) => u == TagV::List(start),
        MdTag::Item => u is Item,
        MdTag::FootnoteDefinition(_) => u is FootnoteDefinition,
        MdTag::Table(al) => u == TagV::Table(al@.map_values(|a: MdAlignment| alignment_of(a))),
        MdTag::TableHead => u is TableHead,
        MdTag::TableRow => u is TableRow,
        MdTag::TableCell => u is TableCell,
        MdTag::Emphasis => u is Emphasis,
        MdTag::Strong => u is Strong,
        MdTag::Strikethrough => u is Strikethrough,
        MdTag::Link(_, _, _) => u is Link,
        MdTag::Image(_, _, _) => u is Image,
    }
}

/// How a pulldown-cmark event and an event of this library correspond: the
/// same kind, with corresponding tags and the same checkbox state.
pub open spec fn event_corresponds(e: MdEvent, v: EventV) -> bool {
    match e {
        MdEvent::Start(t) => v matches EventV::Start(u) && tag_corresponds(t, u),
        MdEvent::End(t) => v matches EventV::End(u) && tag_corresponds(t, u),
        MdEvent::Text(_) => v is Text,
        MdEvent::Code(_) => v is Code,
        MdEvent::Html(_) => v is Html,
        MdEvent::FootnoteReference(_) => v is FootnoteReference,
        MdEvent::SoftBreak => v is SoftBreak,
        MdEvent::HardBreak => v is HardBreak,
        MdEvent::Rule => v is Rule,
        MdEvent::TaskListMarker(b) => v == EventV::TaskListMarker(b),
    }
}

fn convert_alignments(al: Vec<MdAlignment>) -> (r: Vec<Alignment>)
    ensures
        r@ == al@.map_values(|a: MdAlignment| alignment_of(a)),
{
    let total = al.len();
    let mut out: Vec<Alignment> = Vec::new();
    let mut i: usize = 0;
    while i < total
        invariant
            total == al@.len(),
            i <= total,
            out@.len() == i,
            forall|j: int| 0 <= j < i ==> out@[j] == alignment_of(#[trigger] al@[j]),
        decreases total - i,
    {
        let a = match al[i] {
            MdAlignment::None => Alignment::Unset,
            MdAlignment::Left => Alignment::Left,
            MdAlignment::Center => Alignment::Center,
            MdAlignment::Right => Alignment::Right,
        };
        out.push(a);
        i = i + 1;
    }
    assert(out@ =~= al@.map_values(|a: MdAlignment| alignment_of(a)));
    out
}

fn convert_tag(t: MdTag) -> (r: Tag)
    ensures
        tag_corresponds(t, r@),
{
    match t {
        MdTag::Paragraph => Tag::Paragraph,
        MdTag::Heading(n) => Tag::Heading(n),
        MdTag::BlockQuote => Tag::BlockQuote,
        MdTag::CodeBlock(kind) => match kind {
            MdCodeBlockKind::Indented => Tag::CodeBlock(None),
            MdCodeBlockKind::Fenced(lang) => Tag::CodeBlock(Some(owned(lang))),
        },
        MdTag::List(start) => Tag::List(start),
        MdTag::Item => Tag::Item,
        MdTag::FootnoteDefinition(name) => Tag::FootnoteDefinition(owned(name)),
        MdTag::Table(al) => Tag::Table(convert_alignments(al)),
        MdTag::TableHead => Tag::TableHead,
        MdTag::TableRow => Tag::TableRow,
        MdTag::TableCell => Tag::TableCell,
        MdTag::Emphasis => Tag::Emphasis,
        MdTag::Strong => Tag::Strong,
        MdTag::Strikethrough => Tag::Strikethrough,
        MdTag::Link(_, url, title) => Tag::Link(owned(url), owned(title)),
        MdTag::Image(_, url, title) => Tag::Image(owned(url), owned(title)),
    }
}

/// The event of this library that a pulldown-cmark event stands for.
pub fn convert_event(e: MdEvent) -> (r: Event)
    ensures
        event_corresponds(e, r@),
{
    match e {
        MdEvent::Start(t) => Event::Start(convert_tag(t)),
        MdEvent::End(t) => Event::End(convert_tag(t)),
        MdEvent::Text(s) => Event::Text(owned(s)),
        MdEvent::Code(s) => Event::Code(owned(s)),
        MdEvent::Html(s) => Event::Html(owned(s)),
        MdEvent::FootnoteReference(s) => Event::FootnoteReference(owned(s)),
        MdEvent::SoftBreak => Event::SoftBreak,
        MdEvent::HardBreak => Event::HardBreak,
        MdEvent::Rule => Event::Rule,
        MdEvent::TaskListMarker(b) => Event::TaskListMarker(b),
    }
}

/// The events that pulldown-cmark reads out of `src`, with every extension on.
pub uninterp spec fn markdown_events_of(src: Seq<char>) -> Seq<EventV>;

/// Relies on `pulldown_cmark::Parser::new_ext` with `Options::all()`: its events
/// depend on the text alone, and its documentation guarantees that start and
/// end events are balanced, which `convert_event` keeps.
#[verifier::external_body]
fn markdown_events(src: &str) -> (r: Vec<Event>)
    ensures
        events_view(r@) == markdown_events_of(src@),
        balanced(events_view(r@)),
{
    pulldown_cmark::Parser::new_ext(src, pulldown_cmark::Options::all()).map(convert_event).collect()
}

/// Reads the markdown `src` and returns the nodes of its document tree.
pub fn parse(src: &str) -> (r: Result<Vec<Node>, ParseError>)
    ensures
        match built(markdown_events_of(src@)) {
            Ok(res) => r matches Ok(ns) && nodes_view(ns@) == res.0,
            Err(e) => r == Err::<Vec<Node>, ParseError>(e),
        },
        headings_valid(markdown_events_of(src@)) ==> r is Ok,
{
    let events = markdown_events(src);
    proof {
        if headings_valid(events_view(events@)) {
            lemma_balanced_closes_all(events_view(events@));
        }
    }
    match build(events) {
        Ok((nodes, _)) => Ok(nodes),
        Err(e) => Err(e),
    }
}

/// Reads the markdown `src` and returns its title, the first text of its first
/// level-1 heading, with the nodes of its document tree.
pub fn parse_with_title(src: &str) -> (r: Result<(Option<String>, Vec<Node>), ParseError>)
    ensures
        match built(markdown_events_of(src@)) {
            Ok(res) => r matches Ok((t, ns)) && nodes_view(ns@) == res.0 && opt_view(t) == res.1,
            Err(e) => r == Err::<(Option<String>, Vec<Node>), ParseError>(e),
        },
        headings_valid(markdown_events_of(src@)) ==> r is Ok,
{
    let events = markdown_events(src);
    proof {
        if headings_valid(events_view(events@)) {
            lemma_balanced_closes_all(events_view(events@));
        }
    }
    match build(events) {
        Ok((nodes, title)) => Ok((title, nodes)),
        Err(e) => Err(e),
    }
}

} // verus!
