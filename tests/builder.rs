use sauron_markdown::builder::{build, MdParser};
use sauron_markdown::error::ParseError;
use sauron_markdown::event::{Alignment, Event, Tag};
use sauron_markdown::node::{Element, Node};

fn render_tree(nodes: &[Node]) -> String {
    let mut out = String::new();
    for n in nodes {
        match n {
            Node::Text(t) => out.push_str(t),
            Node::Element(e) => {
                out.push('<');
                out.push_str(&e.tag);
                for a in &e.attrs {
                    out.push(' ');
                    out.push_str(&a.name);
                    if let Some(v) = &a.value {
                        out.push_str("=\"");
                        out.push_str(v);
                        out.push('"');
                    }
                }
                if e.self_closing && e.children.is_empty() {
                    out.push_str("/>");
                } else {
                    out.push('>');
                    out.push_str(&render_tree(&e.children));
                    out.push_str("</");
                    out.push_str(&e.tag);
                    out.push('>');
                }
            }
        }
    }
    out
}

fn s(x: &str) -> String {
    x.to_string()
}

fn build_html(events: Vec<Event>) -> String {
    let (nodes, _) = build(events).expect("balanced events");
    render_tree(&nodes)
}

fn first_element(nodes: &[Node]) -> &Element {
    match &nodes[0] {
        Node::Element(e) => e,
        Node::Text(t) => panic!("text {:?} where an element was expected", t),
    }
}

#[test]
fn nested_elements_attach_on_close() {
    let html = build_html(vec![
        Event::Start(Tag::Paragraph),
        Event::Text(s("a ")),
        Event::Start(Tag::Emphasis),
        Event::Text(s("b")),
        Event::End(Tag::Emphasis),
        Event::End(Tag::Paragraph),
        Event::Start(Tag::BlockQuote),
        Event::End(Tag::BlockQuote),
    ]);
    assert_eq!(html, "<p>a <em>b</em></p><blockquote></blockquote>");
}

#[test]
fn end_without_start_is_an_error() {
    let r = build(vec![Event::Text(s("x")), Event::End(Tag::Paragraph)]);
    assert_eq!(r.err(), Some(ParseError::UnmatchedEnd));
}

#[test]
fn heading_level_out_of_range_is_an_error() {
    let r = build(vec![Event::Start(Tag::Heading(7)), Event::End(Tag::Heading(7))]);
    assert_eq!(r.err(), Some(ParseError::InvalidHeadingLevel(7)));
    let r = build(vec![Event::Start(Tag::Heading(0))]);
    assert_eq!(r.err(), Some(ParseError::InvalidHeadingLevel(0)));
}

#[test]
fn every_heading_level_maps_to_its_tag() {
    for n in 1..7u32 {
        let html = build_html(vec![Event::Start(Tag::Heading(n)), Event::End(Tag::Heading(n))]);
        assert_eq!(html, format!("<h{}></h{}>", n, n));
    }
}

#[test]
fn empty_stream_gives_empty_forest() {
    let (nodes, title) = build(vec![]).unwrap();
    assert!(nodes.is_empty());
    assert_eq!(title, None);
}

#[test]
fn unterminated_elements_are_dropped() {
    let html = build_html(vec![
        Event::Start(Tag::Paragraph),
        Event::Text(s("done")),
        Event::End(Tag::Paragraph),
        Event::Start(Tag::Paragraph),
        Event::Text(s("open")),
    ]);
    assert_eq!(html, "<p>done</p>");
}

#[test]
fn leaf_events_outside_any_element_become_top_level_nodes() {
    let html = build_html(vec![Event::Rule, Event::Text(s("t")), Event::HardBreak]);
    assert_eq!(html, "<hr/>t<br/>");
}

#[test]
fn breaks_code_and_task_markers() {
    let html = build_html(vec![
        Event::Start(Tag::Item),
        Event::TaskListMarker(true),
        Event::Code(s("x")),
        Event::SoftBreak,
        Event::TaskListMarker(false),
        Event::HardBreak,
        Event::End(Tag::Item),
    ]);
    assert_eq!(
        html,
        "<li><input type=\"checkbox\" checked/><code>x</code>\n<input type=\"checkbox\"/><br/></li>"
    );
}

#[test]
fn lists_links_images_and_strikethrough() {
    let html = build_html(vec![
        Event::Start(Tag::List(Some(3))),
        Event::Start(Tag::Item),
        Event::Start(Tag::Link(s("u.html"), s("t"))),
        Event::Text(s("l")),
        Event::End(Tag::Link(s("u.html"), s("t"))),
        Event::End(Tag::Item),
        Event::End(Tag::List(Some(3))),
        Event::Start(Tag::List(Some(1))),
        Event::End(Tag::List(Some(1))),
        Event::Start(Tag::List(None)),
        Event::Start(Tag::Item),
        Event::Start(Tag::Strikethrough),
        Event::Text(s("gone")),
        Event::End(Tag::Strikethrough),
        Event::Start(Tag::Image(s("i.png"), s("pic"))),
        Event::End(Tag::Image(s("i.png"), s("pic"))),
        Event::End(Tag::Item),
        Event::End(Tag::List(None)),
    ]);
    assert_eq!(
        html,
        "<ol start=\"3\"><li><a href=\"u.html\" title=\"t\">l</a></li></ol><ol></ol>\
         <ul><li><s>gone</s><img src=\"i.png\" title=\"pic\"/></li></ul>"
    );
}

#[test]
fn footnote_numbers_follow_first_sight() {
    let refs = ["first", "second", "second", "first"];
    let mut events = vec![Event::Start(Tag::Paragraph)];
    for r in refs.iter() {
        events.push(Event::FootnoteReference(s(r)));
    }
    events.push(Event::End(Tag::Paragraph));
    events.push(Event::Start(Tag::FootnoteDefinition(s("second"))));
    events.push(Event::End(Tag::FootnoteDefinition(s("second"))));
    events.push(Event::Start(Tag::FootnoteDefinition(s("third"))));
    events.push(Event::End(Tag::FootnoteDefinition(s("third"))));
    let html = build_html(events);
    assert_eq!(
        html,
        "<p><sup class=\"footnote-reference\"><a href=\"#first\">1</a></sup>\
         <sup class=\"footnote-reference\"><a href=\"#second\">2</a></sup>\
         <sup class=\"footnote-reference\"><a href=\"#second\">2</a></sup>\
         <sup class=\"footnote-reference\"><a href=\"#first\">1</a></sup></p>\
         <footer class=\"footnote-definition\" id=\"second\"><sup class=\"footnote-label\">2</sup></footer>\
         <footer class=\"footnote-definition\" id=\"third\"><sup class=\"footnote-label\">3</sup></footer>"
    );
}

fn table_events(alignments: Vec<Alignment>, rows: &[&[&str]]) -> Vec<Event> {
    let mut ev = vec![Event::Start(Tag::Table(alignments.clone()))];
    for (i, row) in rows.iter().enumerate() {
        let head = i == 0;
        ev.push(Event::Start(if head { Tag::TableHead } else { Tag::TableRow }));
        for cell in row.iter() {
            ev.push(Event::Start(Tag::TableCell));
            ev.push(Event::Text(s(cell)));
            ev.push(Event::End(Tag::TableCell));
        }
        ev.push(Event::End(if head { Tag::TableHead } else { Tag::TableRow }));
    }
    ev.push(Event::End(Tag::Table(alignments)));
    ev
}

#[test]
fn table_alignment_reaches_every_row() {
    let rows: &[&[&str]] = &[&["A", "B"], &["1", "2"], &["3", "4"], &["5", "6"]];
    let html = build_html(table_events(vec![Alignment::Left, Alignment::Right], rows));
    assert_eq!(
        html,
        "<table><tr><th class=\"text-left\">A</th><th class=\"text-right\">B</th></tr>\
         <tr><td class=\"text-left\">1</td><td class=\"text-right\">2</td></tr>\
         <tr><td class=\"text-left\">3</td><td class=\"text-right\">4</td></tr>\
         <tr><td class=\"text-left\">5</td><td class=\"text-right\">6</td></tr></table>"
    );
}

#[test]
fn ragged_table_is_tolerated() {
    let rows: &[&[&str]] = &[&["A", "B", "C"], &["1"]];
    let html = build_html(table_events(vec![Alignment::Center, Alignment::Unset], rows));
    assert_eq!(
        html,
        "<table><tr><th class=\"text-center\">A</th><th>B</th><th>C</th></tr>\
         <tr><td class=\"text-center\">1</td></tr></table>"
    );
}

#[test]
fn title_is_the_first_text_of_the_first_h1() {
    let (nodes, title) = build(vec![
        Event::Start(Tag::Heading(2)),
        Event::Text(s("not me")),
        Event::End(Tag::Heading(2)),
        Event::Start(Tag::Heading(1)),
        Event::Text(s("Hello")),
        Event::Start(Tag::Emphasis),
        Event::Text(s("world")),
        Event::End(Tag::Emphasis),
        Event::End(Tag::Heading(1)),
        Event::Start(Tag::Paragraph),
        Event::Text(s("body")),
        Event::End(Tag::Paragraph),
        Event::Start(Tag::Heading(1)),
        Event::Text(s("Later")),
        Event::End(Tag::Heading(1)),
    ])
    .unwrap();
    assert_eq!(title, Some(s("Hello")));
    assert_eq!(nodes.len(), 4);
    assert_eq!(first_element(&nodes[1..]).tag, "h1");
}

#[test]
fn code_block_text_carries_the_fence_language() {
    let html = build_html(vec![
        Event::Start(Tag::CodeBlock(Some(s("rust")))),
        Event::Text(s("code\n")),
        Event::End(Tag::CodeBlock(Some(s("rust")))),
        Event::Start(Tag::CodeBlock(None)),
        Event::Text(s("plain\n")),
        Event::End(Tag::CodeBlock(None)),
        Event::Text(s("after")),
    ]);
    assert_eq!(
        html,
        "<code class=\"rust\"><code class=\"rust\">code\n</code></code><code><code>plain\n</code></code>after"
    );
}

#[test]
fn raw_markup_run_is_flushed_where_it_stood() {
    let html = build_html(vec![
        Event::Start(Tag::Paragraph),
        Event::Html(s("<b>")),
        Event::Html(s("x</b>")),
        Event::Text(s("y")),
        Event::End(Tag::Paragraph),
    ]);
    assert_eq!(html, "<p><b>x</b>y</p>");
}

#[test]
fn raw_markup_before_an_end_stays_inside() {
    let html = build_html(vec![
        Event::Start(Tag::Paragraph),
        Event::Html(s("<i>k</i>")),
        Event::End(Tag::Paragraph),
    ]);
    assert_eq!(html, "<p><i>k</i></p>");
}

#[test]
fn raw_markup_at_end_of_stream_is_flushed() {
    let html = build_html(vec![Event::Html(s("<div onclick=\"evil()\" id=\"k\">z</div>"))]);
    assert_eq!(html, "<div id=\"k\">z</div>");
}

#[test]
fn parser_steps_one_event_at_a_time() {
    let mut p = MdParser::new();
    p.handle(Event::Start(Tag::Paragraph)).unwrap();
    p.add_child(Node::Text(s("direct")));
    assert_eq!(p.handle(Event::End(Tag::Paragraph)), Ok(()));
    assert_eq!(p.handle(Event::End(Tag::Paragraph)), Err(ParseError::UnmatchedEnd));
    let (nodes, title) = p.finish();
    assert_eq!(render_tree(&nodes), "<p>direct</p>");
    assert_eq!(title, None);
}
