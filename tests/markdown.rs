use sauron_markdown::node::Node;
use sauron_markdown::{parse, parse_with_title};

fn render_forest(nodes: &[Node]) -> String {
    let mut out = String::new();
    for n in nodes {
        match n {
            Node::Text(t) => out.push_str(t),
            Node::Element(e) => {
                out.push('<');
                out.push_str(&e.tag);
                for a in &e.attrs {
                    out.push(' ');
                    out.push_str(&a.name);
                    if let Some(v) = &a.value {
                        out.push_str("=\"");
                        out.push_str(v);
                        out.push('"');
                    }
                }
                if e.self_closing && e.children.is_empty() {
                    out.push_str("/>");
                } else {
                    out.push('>');
                    out.push_str(&render_forest(&e.children));
                    out.push_str("</");
                    out.push_str(&e.tag);
                    out.push('>');
                }
            }
        }
    }
    out
}

fn md(src: &str) -> String {
    render_forest(&parse(src).expect("markdown parses"))
}

#[test]
fn title_extraction() {
    let (title, nodes) = parse_with_title("# Hello\nbody text").unwrap();
    assert_eq!(title, Some("Hello".to_string()));
    assert_eq!(render_forest(&nodes), "<h1>Hello</h1><p>body text</p>");
}

#[test]
fn no_title_without_h1() {
    let (title, _) = parse_with_title("## Sub\n\ntext").unwrap();
    assert_eq!(title, None);
}

#[test]
fn fenced_code_attribute() {
    assert_eq!(md("```rust\ncode\n```"), "<code class=\"rust\"><code class=\"rust\">code\n</code></code>");
}

#[test]
fn test_inline_htmls() {
    let src = r#"<article class="side-to-side">
    <div>
        This is div content1
    </div>
    <footer>
        This is footer
    </footer>
</article>"#;
    assert_eq!(
        md(src),
        "<article class=\"side-to-side\"><div>\n        This is div content1\n    </div><footer>\n        This is footer\n    </footer></article>"
    );
}

#[test]
fn source_code() {
    let src = r#"
```rust
    fn main(){
        println!("Hello world!");
    }
```
        "#;
    assert_eq!(
        md(src),
        "<code class=\"rust\"><code class=\"rust\">    fn main(){\n        println!(\"Hello world!\");\n    }\n</code></code>"
    );
}

#[test]
fn code() {
    let src = r#"
This is has some `code` and other..
        "#;
    assert_eq!(md(src), "<p>This is has some <code>code</code> and other..</p>");
}

#[test]
fn footnotes() {
    let src = r#"
### [Footnotes](https://github.com/markdown-it/markdown-it-footnote)

Footnote 1 link[^first].

Footnote 2 link[^second].

Inline footnote^[Text of inline footnote] definition.

Duplicated footnote reference[^second].

[^first]: Footnote **can have markup**

    and multiple paragraphs.

[^second]: Footnote text.
        "#;
    let expected = "<h3><a href=\"https://github.com/markdown-it/markdown-it-footnote\" title=\"\">Footnotes</a></h3><p>Footnote 1 link<sup class=\"footnote-reference\"><a href=\"#first\">1</a></sup>.</p><p>Footnote 2 link<sup class=\"footnote-reference\"><a href=\"#second\">2</a></sup>.</p><p>Inline footnote^[Text of inline footnote] definition.</p><p>Duplicated footnote reference<sup class=\"footnote-reference\"><a href=\"#second\">2</a></sup>.</p><footer class=\"footnote-definition\" id=\"first\"><sup class=\"footnote-label\">1</sup><p>Footnote <strong>can have markup</strong></p></footer><code><code>and multiple paragraphs.\n</code></code><footer class=\"footnote-definition\" id=\"second\"><sup class=\"footnote-label\">2</sup><p>Footnote text.</p></footer>";
    assert_eq!(expected, md(src));
}

#[test]
fn test_md_with_html() {
    let src = r#"
[Hello](link.html)
<img src="img.jpeg"/>"#;
    assert_eq!(md(src), "<p><a href=\"link.html\" title=\"\">Hello</a>\n<img/></p>");
}

#[test]
fn test_md_with_image() {
    let src = r#"
[Hello](link.html)
![](img.jpeg "Image title")"#;
    assert_eq!(
        md(src),
        "<p><a href=\"link.html\" title=\"\">Hello</a>\n<img src=\"img.jpeg\" title=\"Image title\"/></p>"
    );
}

#[test]
fn test_list() {
    let src = r#"
# List
- list 1
- list 2
- list 3
    - sublist 1
        - some other sublist A
        - some other sublist B
    - sublist 2
    - sublist 3
"#;
    let expected = r#"<h1>List</h1><ul><li>list 1</li><li>list 2</li><li>list 3<ul><li>sublist 1<ul><li>some other sublist A</li><li>some other sublist B</li></ul></li><li>sublist 2</li><li>sublist 3</li></ul></li></ul>"#;
    assert_eq!(expected, md(src));
}

#[test]
fn test_md() {
    let src = r#"
An h1 header
============
look like:
  * this one
  * that one
  * the other one"#;
    assert_eq!(
        md(src),
        "<h1>An h1 header</h1><p>look like:</p><ul><li>this one</li><li>that one</li><li>the other one</li></ul>"
    );
}

#[test]
fn test_md_links() {
    let src = r#"
[link text](http://dev.nodeca.com)

[link with title](http://nodeca.github.io/pica/demo/ "title text!")"#;
    assert_eq!(
        md(src),
        "<p><a href=\"http://dev.nodeca.com\" title=\"\">link text</a></p><p><a href=\"http://nodeca.github.io/pica/demo/\" title=\"title text!\">link with title</a></p>"
    );
}

#[test]
fn test_md_tables() {
    let src = r#"
## Tables

| Option | Description |
|:------ | -----------:|
| data   | path to data files to supply the data that will be passed into templates. |
| engine | engine to be used for processing templates. Handlebars is the default. |
| ext    | extension to be used for dest files. |
}
"#;
    let expected = "<h2>Tables</h2><table>\
<tr><th class=\"text-left\">Option</th><th class=\"text-right\">Description</th></tr>\
<tr><td class=\"text-left\">data</td><td class=\"text-right\">path to data files to supply the data that will be passed into templates.</td></tr>\
<tr><td class=\"text-left\">engine</td><td class=\"text-right\">engine to be used for processing templates. Handlebars is the default.</td></tr>\
<tr><td class=\"text-left\">ext</td><td class=\"text-right\">extension to be used for dest files.</td></tr>\
<tr><td class=\"text-left\">}</td><td class=\"text-right\"></td></tr></table>";
    assert_eq!(md(src), expected);
}

#[test]
fn markdown_footnote_numbering() {
    let html = md("a[^first] b[^second] c[^second]\n\n[^first]: one\n\n[^second]: two\n");
    assert!(html.contains("<a href=\"#first\">1</a>"));
    assert_eq!(html.matches("<a href=\"#second\">2</a>").count(), 2);
}

#[test]
fn markdown_rule_and_task_list() {
    assert_eq!(md("a\n\n---\n\nb"), "<p>a</p><hr/><p>b</p>");
    assert_eq!(
        md("- [x] done\n- [ ] todo"),
        "<ul><li><input type=\"checkbox\" checked/>done</li><li><input type=\"checkbox\"/>todo</li></ul>"
    );
}

const XSS_ANCHOR: &str = r#"
<a name="n" href="javascript:alert('xss')">*you*</a>
"#;

const XSS_BLOCKQUOTE: &str = r#"
> hello<a name="n"
> href="javascript:alert('xss')">*you*</a>
"#;

#[test]
fn test_xss_anchor() {
    let html = md(XSS_ANCHOR);
    assert_eq!(html, "<p><a name=\"n\"></a><em>you</em></p>");
}

#[test]
fn test_xss_blockqupte_xss() {
    let html = md(XSS_BLOCKQUOTE);
    assert_eq!(
        html,
        "<blockquote><p>hello<a name=\"n\"></a>href=\u{201c}javascript:alert(\u{2018}xss\u{2019})\u{201d}><em>you</em></p></blockquote>"
    );
}

#[test]
fn xss_anchor() {
    let (_, nodes) = parse_with_title(XSS_ANCHOR).unwrap();
    let html = render_forest(&nodes);
    assert!(!html.contains("href"), "{}", html);
    assert!(html.contains("<em>you</em>"));
}

#[test]
fn xss_blockqupte_xss() {
    let (_, nodes) = parse_with_title(XSS_BLOCKQUOTE).unwrap();
    let html = render_forest(&nodes);
    assert!(!html.contains("href=\""), "{}", html);
    assert!(html.contains("<em>you</em>"));
}

#[test]
fn footnote_example_first_second_second() {
    let html = md("x[^first] y[^second] z[^second]\n");
    assert_eq!(
        html,
        "<p>x<sup class=\"footnote-reference\"><a href=\"#first\">1</a></sup> y\
<sup class=\"footnote-reference\"><a href=\"#second\">2</a></sup> z\
<sup class=\"footnote-reference\"><a href=\"#second\">2</a></sup></p>"
    );
}

#[test]
fn table_example_left_right_three_rows() {
    let html = md("| a | b |\n|:--|--:|\n| 1 | 2 |\n| 3 | 4 |\n| 5 | 6 |\n");
    assert_eq!(
        html,
        "<table><tr><th class=\"text-left\">a</th><th class=\"text-right\">b</th></tr>\
<tr><td class=\"text-left\">1</td><td class=\"text-right\">2</td></tr>\
<tr><td class=\"text-left\">3</td><td class=\"text-right\">4</td></tr>\
<tr><td class=\"text-left\">5</td><td class=\"text-right\">6</td></tr></table>"
    );
}
