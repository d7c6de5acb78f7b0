use jsx_dom_expressions::structs::{SomeTemplate, StringTemplate, VectorTemplate};

fn text(s: &str) -> SomeTemplate {
    SomeTemplate::StringTemplate(StringTemplate(s.to_string()))
}

fn frags(v: &[&str]) -> SomeTemplate {
    SomeTemplate::VectorTemplate(VectorTemplate(v.iter().map(|s| s.to_string()).collect()))
}

#[test]
fn append_and_prepend_text() {
    let mut t = text("<b>");
    t.append("x</b>");
    t.prepend("<i>");
    assert_eq!(t.into_string(), "<i><b>x</b>");
}

#[test]
fn append_and_prepend_fragments() {
    let mut t = frags(&["b"]);
    t.append("c");
    t.prepend("a");
    assert!(t == frags(&["a", "b", "c"]));
    assert_eq!(t.into_string(), "abc");
}

#[test]
fn emptiness() {
    assert!(text("").is_empty());
    assert!(!text("a").is_empty());
    assert!(frags(&[]).is_empty());
    assert!(!frags(&[""]).is_empty());
    assert!(SomeTemplate::default().is_empty());
}

#[test]
fn append_template_adds_text() {
    let mut t = frags(&["<p>"]);
    t.append_template(&text("</p>"));
    assert!(t == frags(&["<p>", "</p>"]));
    let mut s = text("<p>");
    s.append_template(&text("</p>"));
    assert!(s == text("<p></p>"));
}

#[test]
fn equality_needs_same_kind() {
    assert!(text("a") == text("a"));
    assert!(text("a") != text("b"));
    assert!(text("a") != frags(&["a"]));
    assert!(frags(&["a", "b"]) != frags(&["ab"]));
}

#[test]
fn duplicate_keeps_markup() {
    let t = frags(&["x", "y"]);
    assert!(t.duplicate() == t);
}
