//! The markdown events that the tree builder consumes.
use vstd::prelude::*;
use crate::node::opt_view;

verus! {

/// The alignment of a table column.
#[derive(Clone, Copy, PartialEq, Eq, Structural, Debug)]
pub enum Alignment {
    /// No alignment given.
    Unset,
    Left,
    Center,
    Right,
}

/// The kind of a block or span that a start or end event opens or closes.
#[derive(Debug, PartialEq, Eq)]
pub enum Tag {
    Paragraph,
    /// A heading of the given level.
    Heading(u32),
    BlockQuote,
    /// A code block, with its fence language; `None` for an indented block.
    CodeBlock(Option<String>),
    /// A list; ordered ones carry the number of their first item.
    List(Option<u64>),
    Item,
    /// A footnote definition, with its name.
    FootnoteDefinition(String),
    /// A table, with the alignment of each column.
    Table(Vec<Alignment>),
    TableHead,
    TableRow,
    TableCell,
    Emphasis,
    Strong,
    Strikethrough,
    /// A link: its destination and its title.
    Link(String, String),
    /// An image: its source and its title.
    Image(String, String),
}

/// One event of the stream.
#[derive(Debug, PartialEq, Eq)]
pub enum Event {
    Start(Tag),
    End(Tag),
    Text(String),
    /// Inline code.
    Code(String),
    /// Raw embedded markup.
    Html(String),
    /// A reference to the footnote of the given name.
    FootnoteReference(String),
    SoftBreak,
    HardBreak,
    Rule,
    /// A task list checkbox, checked or not.
    TaskListMarker(bool),
}

/// The mathematical value of a [`Tag`].
pub enum TagV {
    Paragraph,
    Heading(u32),
    BlockQuote,
    CodeBlock(Option<Seq<char>>),
    List(Option<u64>),
    Item,
    FootnoteDefinition(Seq<char>),
    Table(Seq<Alignment>),
    TableHead,
    TableRow,
    TableCell,
    Emphasis,
    Strong,
    Strikethrough,
    Link(Seq<char>, Seq<char>),
    Image(Seq<char>, Seq<char>),
}

/// The mathematical value of an [`Event`].
pub enum EventV {
    Start(TagV),
    End(TagV),
    Text(Seq<char>),
    Code(Seq<char>),
    Html(Seq<char>),
    FootnoteReference(Seq<char>),
    SoftBreak,
    HardBreak,
    Rule,
    TaskListMarker(bool),
}

impl View for Tag {
    type V = TagV;

    open spec fn view(&self) -> TagV {
        match self {
            Tag::Paragraph => TagV::Paragraph,
            Tag::Heading(n) => TagV::Heading(*n),
            Tag::BlockQuote => TagV::BlockQuote,
            Tag::CodeBlock(lang) => TagV::CodeBlock(opt_view(*lang)),
            Tag::List(start) => TagV::List(*start),
            Tag::Item => TagV::Item,
            Tag::FootnoteDefinition(name) => TagV::FootnoteDefinition(name@),
            Tag::Table(al) => TagV::Table(al@),
            Tag::TableHead => TagV::TableHead,
            Tag::TableRow => TagV::TableRow,
            Tag::TableCell => TagV::TableCell,
            Tag::Emphasis => TagV::Emphasis,
            Tag::Strong => TagV::Strong,
            Tag::Strikethrough => TagV::Strikethrough,
            Tag::Link(url, title) => TagV::Link(url@, title@),
            Tag::Image(url, title) => TagV::Image(url@, title@),
        }
    }
}

impl View for Event {
    type V = EventV;

    open spec fn view(&self) -> EventV {
        match self {
            Event::Start(t) => EventV::Start(t@),
            Event::End(t) => EventV::End(t@),
            Event::Text(s) => EventV::Text(s@),
            Event::Code(s) => EventV::Code(s@),
            Event::Html(s) => EventV::Html(s@),
            Event::FootnoteReference(s) => EventV::FootnoteReference(s@),
            Event::SoftBreak => EventV::SoftBreak,
            Event::HardBreak => EventV::HardBreak,
            Event::Rule => EventV::Rule,
            Event::TaskListMarker(b) => EventV::TaskListMarker(*b),
        }
    }
}

pub open spec fn events_view(s: Seq<Event>) -> Seq<EventV> {
    s.map_values(|e: Event| e@)
}

/// How many elements the events leave open: starts less ends.
pub open spec fn depth_after(evs: Seq<EventV>) -> int
    decreases evs.len(),
{
    if evs.len() == 0 {
        0
    } else {
        depth_after(evs.drop_last()) + if evs.last() is Start {
            1int
        } else if evs.last() is End {
            -1int
        } else {
            0int
        }
    }
}

/// Whether every end event closes an element opened before it, and every
/// element opened is closed.
pub open spec fn balanced(evs: Seq<EventV>) -> bool {
    &&& forall|k: int| 0 <= k <= evs.len() ==> depth_after(#[trigger] evs.take(k)) >= 0
    &&& depth_after(evs) == 0
}

} // verus!
