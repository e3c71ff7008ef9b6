use sauron_markdown::lookup::{attribute_function, is_self_closing, match_attribute, match_tag};
use sauron_markdown::markup::{MarkupAttr, MarkupNode};
use sauron_markdown::node::Node;
use sauron_markdown::sanitize::{parse_simple, sanitize_markup, sanitize_node, url_attribute};

fn render_markup(nodes: &[Node]) -> String {
    let mut out = String::new();
    for n in nodes {
        match n {
            Node::Text(t) => out.push_str(t),
            Node::Element(e) => {
                out.push('<');
                out.push_str(&e.tag);
                for a in &e.attrs {
                    out.push(' ');
                    out.push_str(&a.name);
                    if let Some(v) = &a.value {
                        out.push_str("=\"");
                        out.push_str(v);
                        out.push('"');
                    }
                }
                if e.self_closing && e.children.is_empty() {
                    out.push_str("/>");
                } else {
                    out.push('>');
                    out.push_str(&render_markup(&e.children));
                    out.push_str("</");
                    out.push_str(&e.tag);
                    out.push('>');
                }
            }
        }
    }
    out
}

#[test]
fn should_match_tags() {
    assert_eq!(Some("div".to_string()), match_tag(&String::from("div")));
    assert_eq!(Some("svg".to_string()), match_tag(&String::from("svg")));
    assert_eq!(Some("color-profile".to_string()), match_tag(&String::from("color-profile")));
    assert_eq!(None, match_tag("blink-not-a-tag"));
}

#[test]
fn attribute_lookups() {
    assert_eq!(match_attribute("href"), Some("href".to_string()));
    assert_eq!(match_attribute("accept-charset"), Some("accept-charset".to_string()));
    assert_eq!(attribute_function("accept-charset"), Some("accept_charset".to_string()));
    assert_eq!(attribute_function("type"), Some("r#type".to_string()));
    assert_eq!(match_attribute("onclick"), None);
    assert_eq!(attribute_function("onclick"), None);
}

#[test]
fn self_closing_tags() {
    assert!(is_self_closing("br"));
    assert!(is_self_closing("img"));
    assert!(!is_self_closing("div"));
    assert!(!is_self_closing("not-a-tag"));
}

#[test]
fn test_html_child() {
    let html = r#"<article class="side-to-side">
    <div>
        This is div content1
    </div>
    <footer>
        This is footer
    </footer>
</article>"#;
    let expected = "<article class=\"side-to-side\"><div>\n        This is div content1\n    </div><footer>\n        This is footer\n    </footer></article>";
    let node: Node = parse_simple(html).ok().flatten().expect("must parse");
    assert_eq!(expected, render_markup(&[node]));
}

#[test]
fn parse_simple_gathers_several_nodes() {
    assert_eq!(parse_simple("").unwrap(), None);
    let node = parse_simple("<b>x</b><i>y</i>").unwrap().expect("two nodes");
    assert_eq!(render_markup(&[node]), "<html><b>x</b><i>y</i></html>");
}

#[test]
fn unknown_tags_are_dropped_with_their_subtree() {
    let nodes = sanitize_markup("<p>a<blink-x><b>kept?</b></blink-x>c</p>");
    assert_eq!(render_markup(&nodes), "<p>ac</p>");
}

#[test]
fn unknown_attributes_are_dropped_at_any_depth_and_case() {
    let nodes = sanitize_markup("<div ONCLICK=\"x()\" id=\"a\"><p><span onmouseover=\"y()\" title=\"t\">z</span></p></div>");
    assert_eq!(render_markup(&nodes), "<div id=\"a\"><p><span title=\"t\">z</span></p></div>");
}

#[test]
fn anchor_with_only_unlisted_attributes_keeps_its_children() {
    let nodes = sanitize_markup("<a onclick=\"alert('xss')\" onmouseover=\"x\"><em>you</em></a>");
    assert_eq!(render_markup(&nodes), "<a><em>you</em></a>");
}

#[test]
fn lone_whitespace_text_is_dropped() {
    let nodes = sanitize_markup("<p>   </p><p> a </p>");
    assert_eq!(render_markup(&nodes), "<p></p><p> a </p>");
}

#[test]
fn self_closing_comes_from_the_vocabulary() {
    let nodes = sanitize_markup("<img src=\"img.jpeg\"/><div/>");
    assert_eq!(render_markup(&nodes), "<img/><div></div>");
}

#[test]
fn sanitizing_twice_changes_nothing() {
    let raw = "<section data-x=\"1\" class=\"c\"><p onclick=\"e()\">t<u>u</u><video-x>v</video-x></p>  </section>";
    let once = render_markup(&sanitize_markup(raw));
    let twice = render_markup(&sanitize_markup(&once));
    assert_eq!(once, twice);
}

#[test]
fn sanitize_node_on_a_built_tree() {
    let tree = MarkupNode::Element {
        name: "p".to_string(),
        attrs: vec![
            MarkupAttr { key: Some("onclick".to_string()), value: Some("x".to_string()) },
            MarkupAttr { key: None, value: Some("v".to_string()) },
            MarkupAttr { key: Some("hidden".to_string()), value: None },
        ],
        children: vec![MarkupNode::Text(" \n\t".to_string())],
    };
    let node = sanitize_node(&tree).expect("p is known");
    assert_eq!(render_markup(&[node]), "<p hidden></p>");
    assert_eq!(sanitize_node(&MarkupNode::Other), None);
    let unknown = MarkupNode::Element { name: "nope-x".to_string(), attrs: vec![], children: vec![] };
    assert_eq!(sanitize_node(&unknown), None);
}

#[test]
fn repeated_attribute_names_keep_the_first() {
    let nodes = sanitize_markup("<p id=\"a\" title=\"t\" id=\"b\">x</p>");
    assert_eq!(render_markup(&nodes), "<p id=\"a\" title=\"t\">x</p>");
}

#[test]
fn script_link_in_an_anchor_is_dropped() {
    let node = parse_simple("<a name=\"n\" href=\"javascript:alert('xss')\">*you*</a>").unwrap().expect("one anchor");
    assert_eq!(render_markup(&[node]), "<a name=\"n\">*you*</a>");
}

#[test]
fn url_attributes_are_never_admitted() {
    let nodes = sanitize_markup("<div><a HREF=\"x\" href=\"javascript:1\" title=\"t\"><img src=\"javascript:2\" alt=\"a\"/></a><form action=\"javascript:3\"></form></div>");
    let html = render_markup(&nodes);
    assert!(!html.contains("javascript"), "{}", html);
    assert_eq!(html, "<div><a title=\"t\"><img alt=\"a\"/></a><form></form></div>");
    assert!(url_attribute(&"href".to_string()));
    assert!(url_attribute(&"xlink:href".to_string()));
    assert!(url_attribute(&"dynsrc".to_string()));
    assert!(!url_attribute(&"title".to_string()));
}
