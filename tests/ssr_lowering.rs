use jsx_dom_expressions::ast::{Expr, Ident, Prop, Stmt, VarDecl};
use jsx_dom_expressions::ssr::{
    append_to_template, create_element, is_void_element, transform_children, JsxAttr, JsxChild,
    JsxElement, TransformInfo,
};
use jsx_dom_expressions::structs::{
    Config, GenerateMode, SomeTemplate, StringTemplate, TemplateInstantiation, TransformVisitor,
    VectorTemplate,
};
use jsx_dom_expressions::text::{decode_entities, text_content, trim_text};

fn strings(v: &[&str]) -> Vec<String> {
    v.iter().map(|s| s.to_string()).collect()
}

fn frags(v: &[&str]) -> SomeTemplate {
    SomeTemplate::VectorTemplate(VectorTemplate(strings(v)))
}

fn fragments_of(t: &SomeTemplate) -> Vec<String> {
    match t {
        SomeTemplate::VectorTemplate(VectorTemplate(v)) => v.clone(),
        SomeTemplate::StringTemplate(_) => panic!("contiguous template"),
    }
}

fn visitor(hydratable: bool) -> TransformVisitor {
    TransformVisitor::new(Config {
        effect_wrapper: "effect".to_string(),
        memo_wrapper: String::new(),
        hydratable,
        generate: GenerateMode::Ssr,
    })
}

fn ident(s: &str) -> Expr {
    Expr::Ident(Ident::plain(s))
}

fn expr_child(e: Expr) -> JsxChild {
    let mut c = TemplateInstantiation::default();
    c.exprs = vec![e];
    JsxChild::Node(c)
}

fn info(top_level: bool) -> TransformInfo {
    TransformInfo { top_level, do_not_escape: false }
}

fn node(tag: &str, attrs: Vec<JsxAttr>, children: Vec<JsxChild>) -> JsxElement {
    JsxElement { tag_name: tag.to_string(), attrs, children }
}

#[test]
fn fragments_accumulate_without_new_holes() {
    let mut t = frags(&["<div"]);
    append_to_template(&mut t, strings(&[" class=\"a\""]));
    assert_eq!(fragments_of(&t), strings(&["<div class=\"a\""]));
    append_to_template(&mut t, strings(&[">", "x"]));
    assert_eq!(fragments_of(&t), strings(&["<div class=\"a\">", "x"]));
}

#[test]
fn empty_fragment_text_passes_expression_through() {
    let mut v = visitor(false);
    let mut r = TemplateInstantiation::default();
    r.template = frags(&[""]);
    r.exprs = vec![Expr::Host(6)];
    assert_eq!(v.create_template_ssr(r), Expr::Host(6));
}

#[test]
fn appending_to_contiguous_text_does_nothing() {
    let mut t = SomeTemplate::StringTemplate(StringTemplate("<p>".to_string()));
    append_to_template(&mut t, strings(&["x"]));
    assert_eq!(t.into_string(), "<p>");
}

#[test]
fn empty_markup_passes_expression_through() {
    let mut v = visitor(false);
    let mut r = TemplateInstantiation::default();
    r.exprs = vec![Expr::Host(4)];
    r.dynamic = true;
    assert_eq!(v.create_template_ssr(r), Expr::Host(4));
}

#[test]
fn markup_becomes_template_literal() {
    let mut v = visitor(false);
    let mut r = TemplateInstantiation::default();
    r.template = frags(&["<b>", "</b>"]);
    r.template_values = vec![Expr::Host(1)];
    assert_eq!(v.create_template_ssr(r), Expr::Template(strings(&["<b>", "</b>"]), vec![Expr::Host(1)]));
}

#[test]
fn contiguous_markup_becomes_string() {
    let mut v = visitor(false);
    let mut r = TemplateInstantiation::default();
    r.template = SomeTemplate::StringTemplate(StringTemplate("<i></i>".to_string()));
    assert_eq!(v.create_template_ssr(r), Expr::Str("<i></i>".to_string()));
}

#[test]
fn text_is_decoded_then_trimmed() {
    assert_eq!(text_content("  a &amp; b \n"), "a & b");
    assert_eq!(text_content(" \t "), "");
}

#[test]
fn decoding_replaces_references() {
    assert_eq!(decode_entities("&lt;p&gt;"), "<p>");
    assert_eq!(decode_entities("plain"), "plain");
}

#[test]
fn trimming_keeps_inner_whitespace() {
    assert_eq!(trim_text("\n  a  b\t"), "a  b");
    assert_eq!(trim_text(""), "");
}

#[test]
fn void_elements() {
    assert!(is_void_element("br"));
    assert!(is_void_element("input"));
    assert!(!is_void_element("div"));
}

#[test]
fn static_element_renders_markup() {
    let mut v = visitor(false);
    let n = node(
        "div",
        vec![JsxAttr::Static("class".to_string(), "a".to_string())],
        vec![JsxChild::Text(" hi &amp; bye ".to_string())],
    );
    let r = v.transform_element_ssr(n, &info(true));
    assert_eq!(fragments_of(&r.template), strings(&["<div class=\"a\">hi &amp; bye</div>"]));
    assert!(r.template_values.is_empty());
    assert!(r.exprs.is_empty());
}

#[test]
fn void_element_has_no_closing_tag() {
    let mut v = visitor(false);
    let r = v.transform_element_ssr(node("br", vec![], vec![]), &info(false));
    assert_eq!(fragments_of(&r.template), strings(&["<br>"]));
}

#[test]
fn hydratable_top_level_element_gets_key() {
    let mut v = visitor(true);
    let r = v.transform_element_ssr(node("div", vec![], vec![]), &info(true));
    assert_eq!(fragments_of(&r.template), strings(&["<div", "></div>"]));
    assert_eq!(r.template_values, vec![Expr::Call(Box::new(ident("_$ssrHydrationKey")), vec![])]);
}

#[test]
fn nested_element_gets_no_key() {
    let mut v = visitor(true);
    let r = v.transform_element_ssr(node("div", vec![], vec![]), &info(false));
    assert_eq!(fragments_of(&r.template), strings(&["<div></div>"]));
    assert!(r.template_values.is_empty());
}

#[test]
fn dynamic_child_fills_an_escaped_hole() {
    let mut v = visitor(false);
    let r = v.transform_element_ssr(node("p", vec![], vec![expr_child(Expr::Host(2))]), &info(false));
    assert_eq!(fragments_of(&r.template), strings(&["<p>", "</p>"]));
    assert_eq!(r.template_values, vec![Expr::Escape(Box::new(Expr::Host(2)))]);
}

#[test]
fn script_content_is_not_escaped() {
    let mut v = visitor(false);
    let r = v.transform_element_ssr(node("script", vec![], vec![expr_child(Expr::Host(2))]), &info(false));
    assert_eq!(r.template_values, vec![Expr::Host(2)]);
}

#[test]
fn hydration_markers_surround_dynamic_children() {
    let mut v = visitor(true);
    let r = v.transform_element_ssr(
        node("ul", vec![], vec![expr_child(Expr::Host(1)), expr_child(Expr::Host(2))]),
        &info(false),
    );
    assert_eq!(
        fragments_of(&r.template),
        strings(&["<ul><!--#-->", "<!--/--><!--#-->", "<!--/--></ul>"])
    );
    assert_eq!(
        r.template_values,
        vec![Expr::Escape(Box::new(Expr::Host(1))), Expr::Escape(Box::new(Expr::Host(2)))]
    );
}

#[test]
fn static_child_markup_is_spliced() {
    let mut v = visitor(false);
    let mut child = TemplateInstantiation::default();
    child.template = frags(&["<b>", "</b>"]);
    child.template_values = vec![Expr::Host(8)];
    let r = v.transform_element_ssr(node("p", vec![], vec![JsxChild::Node(child)]), &info(false));
    assert_eq!(fragments_of(&r.template), strings(&["<p><b>", "</b></p>"]));
    assert_eq!(r.template_values, vec![Expr::Host(8)]);
}

#[test]
fn head_is_wrapped_in_no_hydration() {
    let mut v = visitor(true);
    let r = v.transform_element_ssr(node("head", vec![], vec![]), &info(true));
    assert!(r.template.is_empty());
    let getter = Prop::Getter(
        Ident::plain("children"),
        vec![Stmt::Return(Expr::Template(strings(&["<head></head>"]), vec![]))],
    );
    let expected = Expr::Call(
        Box::new(ident("_$createComponent")),
        vec![ident("_$NoHydration"), Expr::Object(vec![getter])],
    );
    assert_eq!(r.exprs, vec![expected]);
}

#[test]
fn spread_element_uses_element_helper() {
    let mut v = visitor(false);
    let n = node(
        "div",
        vec![JsxAttr::Spread(Expr::Host(1)), JsxAttr::Static("id".to_string(), "x".to_string())],
        vec![JsxChild::Text("hi".to_string())],
    );
    let r = v.transform_element_ssr(n, &info(true));
    assert!(r.template.is_empty());
    let expected = Expr::Call(
        Box::new(ident("_$ssrElement")),
        vec![
            Expr::Str("div".to_string()),
            Expr::Array(vec![
                Expr::Host(1),
                Expr::Object(vec![Prop::KeyValue(Ident::plain("id"), Expr::Str("x".to_string()))]),
            ]),
            Expr::Template(strings(&["hi"]), vec![]),
            Expr::Bool(false),
        ],
    );
    assert_eq!(r.exprs, vec![expected]);
}

#[test]
fn create_element_asks_for_key_at_top_level() {
    let mut v = visitor(true);
    let r = create_element(&mut v, node("div", vec![JsxAttr::Spread(Expr::Host(1))], vec![]), &info(true));
    match &r.exprs[0] {
        Expr::Call(_, args) => assert_eq!(args[3], Expr::Bool(true)),
        _ => panic!("not a call"),
    }
}

#[test]
fn children_compile_into_fragments() {
    let mut v = visitor(false);
    let mut r = TemplateInstantiation::default();
    r.template = frags(&["<p>"]);
    transform_children(
        &mut v,
        vec![JsxChild::Text("a".to_string()), expr_child(Expr::Host(1)), JsxChild::Text("   ".to_string())],
        &mut r,
        false,
        false,
    );
    assert_eq!(fragments_of(&r.template), strings(&["<p>a", ""]));
    assert_eq!(r.template_values, vec![Expr::Host(1)]);
}

#[test]
fn ssr_flush_hoists_markup() {
    let mut v = visitor(false);
    jsx_dom_expressions::dom::register(
        &mut v,
        &SomeTemplate::StringTemplate(StringTemplate("<a></a>".to_string())),
        false,
        false,
    );
    let mut body = vec![];
    v.append_templates(&mut body);
    assert_eq!(
        body,
        vec![Stmt::Const(vec![VarDecl {
            name: Ident { sym: "_tmpl$".to_string(), suffix: 0 },
            init: Expr::Str("<a></a>".to_string()),
        }])]
    );
    let mut again = vec![];
    v.append_templates(&mut again);
    assert!(again.is_empty());
}

#[test]
fn ssr_mode_create_template_dispatches() {
    let mut v = visitor(false);
    let mut r = TemplateInstantiation::default();
    r.exprs = vec![Expr::Host(3)];
    assert_eq!(v.create_template(r, true), Expr::Host(3));
}

#[test]
fn decoded_text_is_escaped_again() {
    let mut v = visitor(false);
    let n = node("p", vec![], vec![JsxChild::Text("a &lt;b&gt;".to_string())]);
    let r = v.transform_element_ssr(n, &info(false));
    assert_eq!(fragments_of(&r.template), strings(&["<p>a &lt;b&gt;</p>"]));
}

#[test]
fn style_text_is_not_escaped() {
    let mut v = visitor(false);
    let n = node("style", vec![], vec![JsxChild::Text("a &gt; b".to_string())]);
    let r = v.transform_element_ssr(n, &info(false));
    assert_eq!(fragments_of(&r.template), strings(&["<style>a > b</style>"]));
}

#[test]
fn attribute_values_are_escaped() {
    let mut v = visitor(false);
    let n = node("a", vec![JsxAttr::Static("title".to_string(), "say \"hi\" & go".to_string())], vec![]);
    let r = v.transform_element_ssr(n, &info(false));
    assert_eq!(fragments_of(&r.template), strings(&["<a title=\"say &quot;hi&quot; &amp; go\"></a>"]));
}

#[test]
fn whitespace_text_does_not_count_for_markers() {
    let mut v = visitor(true);
    let r = v.transform_element_ssr(
        node("p", vec![], vec![JsxChild::Text("\n  ".to_string()), expr_child(Expr::Host(1))]),
        &info(false),
    );
    assert_eq!(fragments_of(&r.template), strings(&["<p>", "</p>"]));
}

#[test]
fn helpers_are_imported() {
    let mut v = visitor(true);
    v.transform_element_ssr(node("div", vec![], vec![]), &info(true));
    assert_eq!(v.imports.len(), 1);
    assert_eq!(v.imports[0].0, "ssrHydrationKey");
}
