use kale::html::HTMLElement;
use kale::parser::parse;
use kale::text::tokenize;

#[test]
fn parses_a_heading() {
    let nodes = parse("<h1 id=\"t\">Hello World</h1>").unwrap();
    assert_eq!(nodes.len(), 1);
    match &nodes[0] {
        HTMLElement::Element { tag, attributes, children } => {
            assert_eq!(tag, "h1");
            assert_eq!(attributes.len(), 1);
            assert_eq!(attributes[0].0, "id");
            assert_eq!(attributes[0].1, "t");
            assert_eq!(children.len(), 1);
            match &children[0] {
                HTMLElement::Text(t) => assert_eq!(t, "Hello World"),
                HTMLElement::Element { .. } => panic!("expected text"),
            }
        },
        HTMLElement::Text(_) => panic!("expected an element"),
    }
}

#[test]
fn parses_nested_elements() {
    let nodes = parse("<p>go <a href=\"u\">here</a></p>").unwrap();
    assert_eq!(nodes.len(), 1);
    match &nodes[0] {
        HTMLElement::Element { tag, children, .. } => {
            assert_eq!(tag, "p");
            assert_eq!(children.len(), 2);
            match &children[0] {
                HTMLElement::Text(t) => assert_eq!(t, "go "),
                HTMLElement::Element { .. } => panic!(),
            }
            match &children[1] {
                HTMLElement::Element { tag, attributes, children } => {
                    assert_eq!(tag, "a");
                    assert_eq!(attributes[0], (String::from("href"), String::from("u")));
                    assert_eq!(children.len(), 1);
                },
                HTMLElement::Text(_) => panic!(),
            }
        },
        HTMLElement::Text(_) => panic!(),
    }
}

#[test]
fn parses_sibling_elements_and_text() {
    // whitespace between the two elements separates them without becoming
    // a text node of its own
    let nodes = parse("<h1>a</h1>\n<p>b</p>").unwrap();
    assert_eq!(nodes.len(), 2);
    assert!(matches!(&nodes[0], HTMLElement::Element { .. }));
    assert!(matches!(&nodes[1], HTMLElement::Element { .. }));
}

#[test]
fn parses_empty_input_and_bare_text() {
    assert_eq!(parse("").unwrap().len(), 0);
    let nodes = parse("just words").unwrap();
    assert_eq!(nodes.len(), 1);
    match &nodes[0] {
        HTMLElement::Text(t) => assert_eq!(t, "just words"),
        HTMLElement::Element { .. } => panic!(),
    }
}

#[test]
fn whitespace_only_input_parses_to_no_elements() {
    assert_eq!(parse(" \n\t ").unwrap().len(), 0);
    let nodes = parse("  <p>x</p>  ").unwrap();
    assert_eq!(nodes.len(), 1);
    assert!(matches!(&nodes[0], HTMLElement::Element { .. }));
}

#[test]
fn parses_multiple_attributes() {
    let nodes = parse("<a id=\"l\" href=\"https://example.com\">x</a>").unwrap();
    match &nodes[0] {
        HTMLElement::Element { attributes, .. } => {
            assert_eq!(attributes.len(), 2);
            assert_eq!(attributes[0], (String::from("id"), String::from("l")));
            assert_eq!(
                attributes[1],
                (String::from("href"), String::from("https://example.com"))
            );
        },
        HTMLElement::Text(_) => panic!(),
    }
}

#[test]
fn rejects_malformed_input() {
    assert!(parse("<h1>unclosed").is_err());
    assert!(parse("<a></b>").is_err());
    assert!(parse("stray</h1>").is_err());
    assert!(parse("<>empty</>").is_err());
    assert!(parse("<p id=unquoted>x</p>").is_err());
    assert!(parse("<p id=\"open>x</p>").is_err());
}

#[test]
fn tokenizes_on_whitespace() {
    let tokens = tokenize("  hello\t worl d\n");
    let views: Vec<&str> = tokens.iter().map(|t| t.as_str()).collect();
    assert_eq!(views, vec!["hello", "worl", "d"]);
    assert_eq!(tokenize("").len(), 0);
    assert_eq!(tokenize(" \n\t").len(), 0);
}

#[test]
fn parses_a_small_page() {
    let page = "<h1 id=\"title\">Hello World</h1>\
<p>This page is laid out by a verified engine. \
<a id=\"link1\" href=\"https://example.com\">A link</a> changes color once clicked.</p>";
    let nodes = parse(page).unwrap();
    assert_eq!(nodes.len(), 2);
    match &nodes[1] {
        HTMLElement::Element { tag, children, .. } => {
            assert_eq!(tag, "p");
            assert_eq!(children.len(), 3);
            match &children[1] {
                HTMLElement::Element { tag, attributes, .. } => {
                    assert_eq!(tag, "a");
                    assert_eq!(attributes.len(), 2);
                },
                HTMLElement::Text(_) => panic!(),
            }
        },
        HTMLElement::Text(_) => panic!(),
    }
}
