use crate::ast::{call, named, Expr, Ident, Prop, Stmt, VarDecl};
use crate::structs::{
    import_name, literal_of, texts, SomeTemplate, StringTemplate, TemplateInstantiation,
    TemplateView, TransformVisitor, VectorTemplate,
};
use crate::text::{
    decoded_entities, encode_attribute, encode_text, escaped_attr, escaped_text, same_text,
    text_content, trim_text, trimmed,
};
use vstd::prelude::*;

verus! {

/// The fragments `f` after appending `v`: the first of `v` runs on at the end
/// of the last fragment, and the rest follow as fragments of their own. It is
/// only used on lists that have a last fragment.
pub open spec fn frag_append(f: Seq<Seq<char>>, v: Seq<Seq<char>>) -> Seq<Seq<char>> {
    let joined = if f.len() > 0 && v.len() > 0 {
        f.update(f.len() - 1, f.last() + v[0])
    } else {
        f
    };
    if v.len() > 1 {
        joined + v.drop_first()
    } else {
        joined
    }
}

/// Appends `value` to a fragment template as `frag_append` says; a contiguous
/// template is left as it is.
pub fn append_to_template(template: &mut SomeTemplate, value: Vec<String>)
    requires
        old(template)@ is Fragments ==> old(template)@->Fragments_0.len() > 0,
    ensures
        final(template)@ is Fragments ==> final(template)@->Fragments_0.len() > 0,
        final(template)@ == match old(template)@ {
            TemplateView::Fragments(f) => TemplateView::Fragments(frag_append(f, texts(value@))),
            TemplateView::Text(t) => TemplateView::Text(t),
        },
{
    match template {
        SomeTemplate::VectorTemplate(VectorTemplate(frags)) => {
            let ghost f = texts(frags@);
            let ghost v = texts(value@);
            let n = frags.len();
            if n > 0 && value.len() > 0 {
                let mut last = frags.pop().unwrap();
                last.append(value[0].as_str());
                frags.push(last);
            }
            let ghost f1 = texts(frags@);
            assert(f1 =~= if f.len() > 0 && v.len() > 0 {
                f.update(f.len() - 1, f.last() + v[0])
            } else {
                f
            });
            if value.len() > 1 {
                let mut i: usize = 1;
                while i < value.len()
                    invariant
                        1 <= i <= value.len(),
                        v == texts(value@),
                        texts(frags@) == f1 + v.subrange(1, i as int),
                    decreases value.len() - i,
                {
                    let ghost before = frags@;
                    frags.push(value[i].clone());
                    assert(texts(frags@) =~= texts(before).push(value@[i as int]@));
                    assert(v.subrange(1, i + 1) =~= v.subrange(1, i as int).push(v[i as int]));
                    i = i + 1;
                }
                assert(v.subrange(1, v.len() as int) =~= v.drop_first());
            }
        },
        SomeTemplate::StringTemplate(_) => {},
    }
}

/// Appending one fragment to a non-empty list opens no hole: it runs on at
/// the end of the last fragment. Appending several joins the first the same
/// way and adds each other one as a fragment after it.
pub proof fn lemma_fragment_accumulation(f: Seq<Seq<char>>, v: Seq<Seq<char>>)
    requires
        f.len() > 0,
        v.len() > 0,
    ensures
        frag_append(f, v).len() == f.len() + v.len() - 1,
        frag_append(f, v).subrange(0, f.len() - 1) == f.subrange(0, f.len() - 1),
        frag_append(f, v)[f.len() - 1] == f.last() + v[0],
        frag_append(f, v).subrange(f.len() as int, f.len() + v.len() - 1) == v.drop_first(),
{
    let r = frag_append(f, v);
    assert(r.subrange(0, f.len() - 1) =~= f.subrange(0, f.len() - 1));
    assert(r.subrange(f.len() as int, f.len() + v.len() - 1) =~= v.drop_first());
}

/// What a subtree lowers to in server-rendering mode: its expression when its
/// markup text is empty, else its markup as a literal with its values in the
/// holes.
pub open spec fn ssr_lowered(result: TemplateInstantiation) -> Expr {
    if result.template@.text().len() == 0 {
        result.exprs@[0]
    } else {
        match result.template {
            SomeTemplate::StringTemplate(StringTemplate(s)) => Expr::Str(s),
            SomeTemplate::VectorTemplate(VectorTemplate(v)) => Expr::Template(v, result.template_values),
        }
    }
}

/// Whether a subtree can be lowered in server-rendering mode: one without
/// markup text has an expression.
pub open spec fn ssr_ready(result: &TemplateInstantiation) -> bool {
    result.template@.text().len() == 0 ==> result.exprs@.len() > 0
}

/// Whether flushing registry `a` into a module body turned `b0` into `b1` and
/// `a` into `b`: with nothing registered nothing changes; else one `const`
/// statement goes in front, binding each entry's name, in order, to its markup.
pub open spec fn ssr_flushed(a: &TransformVisitor, b: &TransformVisitor, b0: Seq<Stmt>, b1: Seq<Stmt>) -> bool {
    &&& a.templates@.len() == 0 ==> b1 == b0 && *b == *a
    &&& a.templates@.len() > 0 ==> {
        &&& b1.len() == b0.len() + 1
        &&& b1.subrange(1, b1.len() as int) == b0
        &&& b1[0] is Const
        &&& b1[0]->Const_0@.len() == a.templates@.len()
        &&& forall|i: int|
            0 <= i < a.templates@.len() ==> {
                let d = #[trigger] b1[0]->Const_0@[i];
                &&& d.name == a.templates@[i].id
                &&& literal_of(d.init, a.templates@[i].template)
            }
    }
}

impl TransformVisitor {
    pub fn create_template_ssr(&mut self, result: TemplateInstantiation) -> (r: Expr)
        requires
            ssr_ready(&result),
        ensures
            r == ssr_lowered(result),
            *final(self) == *old(self),
    {
        let mut result = result;
        if result.template.has_no_text() {
            return result.exprs.remove(0);
        }
        match result.template {
            SomeTemplate::StringTemplate(StringTemplate(s)) => Expr::Str(s),
            SomeTemplate::VectorTemplate(VectorTemplate(v)) => Expr::Template(v, result.template_values),
        }
    }

    /// Hoists the registered templates to the front of `body` as one `const`
    /// statement, each bound to its markup literal, and empties the registry;
    /// with nothing registered `body` stays as it is.
    pub fn append_templates_ssr(&mut self, body: &mut Vec<Stmt>)
        requires
            old(self).wf(),
        ensures
            final(self).wf(),
            final(self).registry_wf(),
            final(self).templates@.len() == 0,
            ssr_flushed(old(self), final(self), old(body)@, final(body)@),
    {
        if self.templates.len() == 0 {
            return;
        }
        let ghost ts = self.templates@;
        let n = self.templates.len();
        let mut decls: Vec<VarDecl> = Vec::new();
        let mut i: usize = 0;
        while i < n
            invariant
                self.wf(),
                n == ts.len(),
                i <= n,
                self.templates@ == ts.subrange(i as int, n as int),
                decls@.len() == i,
                forall|j: int|
                    0 <= j < i ==> {
                        let d = #[trigger] decls@[j];
                        &&& d.name == ts[j].id
                        &&& literal_of(d.init, ts[j].template)
                    },
            decreases n - i,
        {
            let t = self.templates.remove(0);
            assert(t == ts[i as int]);
            decls.push(VarDecl { name: t.id, init: t.template.into_literal() });
            assert(self.templates@ =~= ts.subrange(i + 1, n as int));
            i = i + 1;
        }
        let ghost b0 = body@;
        body.insert(0, Stmt::Const(decls));
        assert(body@.subrange(1, body@.len() as int) =~= b0);
    }
}

/// An attribute of an element as the parser gives it: a static `name="value"`
/// pair, or a spread of an expression.
#[derive(Debug)]
pub enum JsxAttr {
    Static(String, String),
    Spread(Expr),
}

/// A child of an element: raw text, or a subtree that was already compiled.
#[derive(Debug)]
pub enum JsxChild {
    Text(String),
    Node(TemplateInstantiation),
}

#[derive(Debug)]
pub struct JsxElement {
    pub tag_name: String,
    pub attrs: Vec<JsxAttr>,
    pub children: Vec<JsxChild>,
}

/// Where an element stands: at the top of a tree, and whether an ancestor
/// turned escaping off.
#[derive(Debug)]
pub struct TransformInfo {
    pub top_level: bool,
    pub do_not_escape: bool,
}

/// The fragments that a child's own markup brings in.
pub open spec fn child_frags(t: TemplateView) -> Seq<Seq<char>> {
    match t {
        TemplateView::Text(s) => seq![s],
        TemplateView::Fragments(f) => f,
    }
}

/// The fragments and values after one child: decoded, trimmed text runs on as
/// static text when any is left, escaped again unless `escape` is off; a child with an expression fills a new hole,
/// escaped unless `escape` is off and between hydration markers when `markers`
/// is on; a child of markup alone is spliced in with its own values.
pub open spec fn after_child(
    f: Seq<Seq<char>>,
    v: Seq<Expr>,
    child: JsxChild,
    markers: bool,
    escape: bool,
) -> (Seq<Seq<char>>, Seq<Expr>) {
    match child {
        JsxChild::Text(raw) => {
            let t = trimmed(decoded_entities(raw@));
            if t.len() > 0 {
                (frag_append(f, seq![if escape { escaped_text(t) } else { t }]), v)
            } else {
                (f, v)
            }
        },
        JsxChild::Node(c) => {
            if c.exprs@.len() > 0 {
                let opened = if markers {
                    frag_append(f, seq!["<!--#-->"@])
                } else {
                    f
                };
                let hole = frag_append(opened, seq![Seq::<char>::empty(), Seq::<char>::empty()]);
                let closed = if markers {
                    frag_append(hole, seq!["<!--/-->"@])
                } else {
                    hole
                };
                let value = if escape {
                    Expr::Escape(Box::new(ssr_lowered(c)))
                } else {
                    ssr_lowered(c)
                };
                (closed, v.push(value))
            } else {
                (frag_append(f, child_frags(c.template@)), v + c.template_values@)
            }
        },
    }
}

/// The fragments and values after the children `cs`, in order.
pub open spec fn after_children(
    f: Seq<Seq<char>>,
    v: Seq<Expr>,
    cs: Seq<JsxChild>,
    markers: bool,
    escape: bool,
) -> (Seq<Seq<char>>, Seq<Expr>)
    decreases cs.len(),
{
    if cs.len() == 0 {
        (f, v)
    } else {
        let prev = after_children(f, v, cs.drop_last(), markers, escape);
        after_child(prev.0, prev.1, cs.last(), markers, escape)
    }
}

fn one_string(s: String) -> (r: Vec<String>)
    ensures
        r@ == seq![s],
{
    let mut r: Vec<String> = Vec::new();
    r.push(s);
    r
}

/// The two empty fragments that open a new hole.
fn hole_fragments() -> (r: Vec<String>)
    ensures
        texts(r@) == seq![Seq::<char>::empty(), Seq::<char>::empty()],
{
    let mut r: Vec<String> = Vec::new();
    r.push(String::new());
    r.push(String::new());
    assert(texts(r@) =~= seq![Seq::<char>::empty(), Seq::<char>::empty()]);
    r
}

/// Whether `b` is `a` with at most its template and its values changed.
pub open spec fn same_but_markup(a: TemplateInstantiation, b: TemplateInstantiation) -> bool {
    &&& b.component == a.component
    &&& b.declarations == a.declarations
    &&& b.id == a.id
    &&& b.tag_name == a.tag_name
    &&& b.exprs == a.exprs
    &&& b.dynamics == a.dynamics
    &&& b.post_exprs == a.post_exprs
    &&& b.is_svg == a.is_svg
    &&& b.is_void == a.is_void
    &&& b.has_custom_element == a.has_custom_element
    &&& b.text == a.text
    &&& b.dynamic == a.dynamic
    &&& b.to_be_closed == a.to_be_closed
    &&& b.skip_template == a.skip_template
}

/// Adds the compiled children to the fragment template of `results`.
pub fn transform_children(
    visitor: &mut TransformVisitor,
    children: Vec<JsxChild>,
    results: &mut TemplateInstantiation,
    markers: bool,
    escape: bool,
)
    requires
        old(results).template@ is Fragments,
        old(results).template@->Fragments_0.len() > 0,
        forall|i: int|
            0 <= i < children@.len() ==> match #[trigger] children@[i] {
                JsxChild::Node(c) => ssr_ready(&c),
                JsxChild::Text(_) => true,
            },
    ensures
        *final(visitor) == *old(visitor),
        same_but_markup(*old(results), *final(results)),
        final(results).template@->Fragments_0.len() > 0,
        final(results).template@ == TemplateView::Fragments(
            after_children(
                old(results).template@->Fragments_0,
                old(results).template_values@,
                children@,
                markers,
                escape,
            ).0,
        ),
        final(results).template_values@ == after_children(
            old(results).template@->Fragments_0,
            old(results).template_values@,
            children@,
            markers,
            escape,
        ).1,
{
    let ghost cs = children@;
    let ghost f0 = results.template@->Fragments_0;
    let ghost v0 = results.template_values@;
    let mut children = children;
    let n = children.len();
    let mut i: usize = 0;
    while i < n
        invariant
            n == cs.len(),
            i <= n,
            children@ == cs.subrange(i as int, n as int),
            *visitor == *old(visitor),
            same_but_markup(*old(results), *results),
            forall|j: int|
                0 <= j < cs.len() ==> match #[trigger] cs[j] {
                    JsxChild::Node(c) => ssr_ready(&c),
                    JsxChild::Text(_) => true,
                },
            results.template@ is Fragments,
            results.template@->Fragments_0.len() > 0,
            (results.template@->Fragments_0, results.template_values@) == after_children(
                f0,
                v0,
                cs.subrange(0, i as int),
                markers,
                escape,
            ),
        decreases n - i,
    {
        let child = children.remove(0);
        assert(child == cs[i as int]);
        proof {
            assert(cs.subrange(0, i + 1).drop_last() =~= cs.subrange(0, i as int));
        }
        let ghost fb = results.template@->Fragments_0;
        let ghost vb = results.template_values@;
        match child {
            JsxChild::Text(raw) => {
                let plain = text_content(raw.as_str());
                if plain.as_str().unicode_len() > 0 {
                    let t = if escape {
                        encode_text(plain.as_str())
                    } else {
                        plain
                    };
                    let ghost tv = t@;
                    append_to_template(&mut results.template, one_string(t));
                    assert(texts(seq![t]) =~= seq![tv]);
                }
            },
            JsxChild::Node(c) => {
                if c.exprs.len() > 0 {
                    if markers {
                        append_to_template(&mut results.template, one_string(String::from_str("<!--#-->")));
                    }
                    append_to_template(&mut results.template, hole_fragments());
                    let lowered = visitor.create_template_ssr(c);
                    let value = if escape {
                        Expr::Escape(Box::new(lowered))
                    } else {
                        lowered
                    };
                    results.template_values.push(value);
                    if markers {
                        append_to_template(&mut results.template, one_string(String::from_str("<!--/-->")));
                    }
                } else {
                    let ghost ct = c.template@;
                    let ghost cv = c.template_values@;
                    let frags = match c.template {
                        SomeTemplate::StringTemplate(StringTemplate(s)) => one_string(s),
                        SomeTemplate::VectorTemplate(VectorTemplate(v)) => v,
                    };
                    assert(texts(frags@) =~= child_frags(ct));
                    append_to_template(&mut results.template, frags);
                    let mut values = c.template_values;
                    results.template_values.append(&mut values);
                    assert(results.template_values@ =~= vb + cv);
                }
            },
        }
        assert(children@ =~= cs.subrange(i + 1, n as int));
        i = i + 1;
    }
    assert(cs.subrange(0, n as int) =~= cs);
}

/// The text of a static attribute: ` name="value"`, the value escaped.
pub open spec fn attr_text(name: Seq<char>, value: Seq<char>) -> Seq<char> {
    seq![' '] + name + seq!['=', '"'] + escaped_attr(value) + seq!['"']
}

/// The fragments after the static attributes `attrs`, in order.
pub open spec fn after_attrs(f: Seq<Seq<char>>, attrs: Seq<JsxAttr>) -> Seq<Seq<char>>
    decreases attrs.len(),
{
    if attrs.len() == 0 {
        f
    } else {
        let prev = after_attrs(f, attrs.drop_last());
        match attrs.last() {
            JsxAttr::Static(n, v) => frag_append(prev, seq![attr_text(n@, v@)]),
            JsxAttr::Spread(_) => prev,
        }
    }
}

/// Writes the static attributes into the opening tag.
pub fn transform_attributes(attrs: Vec<JsxAttr>, results: &mut TemplateInstantiation)
    requires
        old(results).template@ is Fragments,
        old(results).template@->Fragments_0.len() > 0,
    ensures
        same_but_markup(*old(results), *final(results)),
        final(results).template_values == old(results).template_values,
        final(results).template@->Fragments_0.len() > 0,
        final(results).template@ == TemplateView::Fragments(
            after_attrs(old(results).template@->Fragments_0, attrs@),
        ),
{
    let ghost all = attrs@;
    let ghost f0 = results.template@->Fragments_0;
    let mut attrs = attrs;
    let n = attrs.len();
    let mut i: usize = 0;
    let space = " ";
    let eq_quote = "=\"";
    let quote = "\"";
    proof {
        reveal_strlit(" ");
        reveal_strlit("=\"");
        reveal_strlit("\"");
    }
    while i < n
        invariant
            n == all.len(),
            i <= n,
            attrs@ == all.subrange(i as int, n as int),
            same_but_markup(*old(results), *results),
            results.template_values == old(results).template_values,
            results.template@ is Fragments,
            results.template@->Fragments_0.len() > 0,
            results.template@->Fragments_0 == after_attrs(f0, all.subrange(0, i as int)),
            space@ == seq![' '],
            eq_quote@ == seq!['=', '"'],
            quote@ == seq!['"'],
        decreases n - i,
    {
        let a = attrs.remove(0);
        assert(a == all[i as int]);
        assert(all.subrange(0, i + 1).drop_last() =~= all.subrange(0, i as int));
        match a {
            JsxAttr::Static(name, value) => {
                let escaped = encode_attribute(value.as_str());
                let text = String::from_str(space).concat(name.as_str()).concat(eq_quote).concat(
                    escaped.as_str(),
                ).concat(quote);
                let ghost tv = text@;
                assert(tv == attr_text(name@, value@));
                append_to_template(&mut results.template, one_string(text));
                assert(texts(seq![text]) =~= seq![tv]);
            },
            JsxAttr::Spread(_) => {},
        }
        assert(attrs@ =~= all.subrange(i + 1, n as int));
        i = i + 1;
    }
    assert(all.subrange(0, n as int) =~= all);
}

/// The tags of elements that have no content and no closing tag.
pub open spec fn is_void_tag(t: Seq<char>) -> bool {
    t == "area"@ || t == "base"@ || t == "br"@ || t == "col"@ || t == "embed"@ || t == "hr"@
        || t == "img"@ || t == "input"@ || t == "keygen"@ || t == "link"@ || t == "menuitem"@
        || t == "meta"@ || t == "param"@ || t == "source"@ || t == "track"@ || t == "wbr"@
}

pub fn is_void_element(tag: &str) -> (r: bool)
    ensures
        r == is_void_tag(tag@),
{
    same_text(tag, "area") || same_text(tag, "base") || same_text(tag, "br") || same_text(tag, "col")
        || same_text(tag, "embed") || same_text(tag, "hr") || same_text(tag, "img") || same_text(
        tag,
        "input",
    ) || same_text(tag, "keygen") || same_text(tag, "link") || same_text(tag, "menuitem")
        || same_text(tag, "meta") || same_text(tag, "param") || same_text(tag, "source")
        || same_text(tag, "track") || same_text(tag, "wbr")
}

/// Whether a child counts when deciding if an element has several children:
/// text that is only whitespace does not.
pub open spec fn counts_as_child(c: JsxChild) -> bool {
    match c {
        JsxChild::Text(raw) => trimmed(raw@).len() > 0,
        JsxChild::Node(_) => true,
    }
}

/// How many of `cs` count as children.
pub open spec fn child_count(cs: Seq<JsxChild>) -> nat
    decreases cs.len(),
{
    if cs.len() == 0 {
        0
    } else {
        child_count(cs.drop_last()) + if counts_as_child(cs.last()) {
            1nat
        } else {
            0nat
        }
    }
}

fn count_children(cs: &Vec<JsxChild>) -> (r: usize)
    ensures
        r == child_count(cs@),
{
    let mut n: usize = 0;
    let mut i: usize = 0;
    while i < cs.len()
        invariant
            i <= cs.len(),
            n <= i,
            n == child_count(cs@.subrange(0, i as int)),
        decreases cs.len() - i,
    {
        assert(cs@.subrange(0, i + 1).drop_last() =~= cs@.subrange(0, i as int));
        let counted = match &cs[i] {
            JsxChild::Text(raw) => trim_text(raw.as_str()).as_str().unicode_len() > 0,
            JsxChild::Node(_) => true,
        };
        if counted {
            n = n + 1;
        }
        i = i + 1;
    }
    assert(cs@.subrange(0, cs.len() as int) =~= cs@);
    n
}

/// Whether any attribute is a spread.
pub open spec fn has_spread(attrs: Seq<JsxAttr>) -> bool {
    exists|i: int| 0 <= i < attrs.len() && attrs[i] is Spread
}

fn any_spread(attrs: &Vec<JsxAttr>) -> (r: bool)
    ensures
        r == has_spread(attrs@),
{
    let mut i: usize = 0;
    while i < attrs.len()
        invariant
            i <= attrs.len(),
            forall|j: int| 0 <= j < i ==> !(attrs@[j] is Spread),
        decreases attrs.len() - i,
    {
        if let JsxAttr::Spread(_) = &attrs[i] {
            return true;
        }
        i = i + 1;
    }
    false
}

/// Whether every child subtree can be lowered.
pub open spec fn children_ready(cs: Seq<JsxChild>) -> bool {
    forall|i: int|
        0 <= i < cs.len() ==> match #[trigger] cs[i] {
            JsxChild::Node(c) => ssr_ready(&c),
            JsxChild::Text(_) => true,
        }
}

/// Whether `e` is what attribute `a` gives to the element helper: the spread
/// expression, or an object with the one static property.
pub open spec fn is_attr_prop(e: Expr, a: JsxAttr) -> bool {
    match a {
        JsxAttr::Spread(x) => e == x,
        JsxAttr::Static(n, v) => {
            &&& e is Object
            &&& e->Object_0@ == seq![Prop::KeyValue(Ident { sym: n, suffix: 0 }, Expr::Str(v))]
        },
    }
}

/// Whether `r` is the compiled element `node` with a spread: no markup, and
/// one call of the element helper with the tag, the attributes, the compiled
/// children and whether a hydration key is needed.
pub open spec fn is_spread_result(r: TemplateInstantiation, node: JsxElement, info: TransformInfo, hydratable: bool) -> bool {
    &&& r.template@ == TemplateView::Text(Seq::empty())
    &&& r.tag_name@ == node.tag_name@
    &&& r.exprs@.len() == 1
    &&& r.exprs@[0] is Call
    &&& *r.exprs@[0]->Call_0 is Ident
    &&& named(r.exprs@[0]->Call_0->Ident_0, import_name("ssrElement"@), 0)
    &&& {
        let args = r.exprs@[0]->Call_1@;
        let markers = hydratable && child_count(node.children@) > 1;
        let out = after_children(seq![Seq::<char>::empty()], Seq::empty(), node.children@, markers, !info.do_not_escape);
        &&& args.len() == 4
        &&& args[0] == Expr::Str(node.tag_name)
        &&& args[1] is Array
        &&& args[1]->Array_0@.len() == node.attrs@.len()
        &&& forall|i: int| 0 <= i < node.attrs@.len() ==> is_attr_prop(#[trigger] args[1]->Array_0@[i], node.attrs@[i])
        &&& args[2] is Template
        &&& texts(args[2]->Template_0@) == out.0
        &&& args[2]->Template_1@ == out.1
        &&& args[3] == Expr::Bool(info.top_level && hydratable)
    }
}

/// Compiles an element with a spread attribute, whose markup cannot be
/// written ahead.
pub fn create_element(visitor: &mut TransformVisitor, node: JsxElement, info: &TransformInfo) -> (r: TemplateInstantiation)
    requires
        old(visitor).wf(),
        children_ready(node.children@),
    ensures
        final(visitor).wf(),
        TransformVisitor::same_but_imports(old(visitor), final(visitor)),
        is_spread_result(r, node, *info, old(visitor).config.hydratable),
        final(visitor).has_import("ssrElement"@),
        forall|i: int|
            0 <= i < old(visitor).imports@.len() ==> final(visitor).imports@.len() >= old(visitor).imports@.len()
                && final(visitor).imports@[i] == old(visitor).imports@[i],
{
    let JsxElement { tag_name, attrs, children } = node;
    let helper = visitor.register_import_method("ssrElement");
    let markers = visitor.config.hydratable && count_children(&children) > 1;
    let mut results = TemplateInstantiation::default();
    let mut start: Vec<String> = Vec::new();
    start.push(String::new());
    results.template = SomeTemplate::VectorTemplate(VectorTemplate(start));
    assert(results.template@->Fragments_0 =~= seq![Seq::<char>::empty()]);
    assert(results.template_values@ =~= Seq::<Expr>::empty());
    transform_children(visitor, children, &mut results, markers, !info.do_not_escape);
    let ghost all = attrs@;
    let mut attrs = attrs;
    let mut props: Vec<Expr> = Vec::new();
    let n = attrs.len();
    let mut i: usize = 0;
    while i < n
        invariant
            n == all.len(),
            i <= n,
            attrs@ == all.subrange(i as int, n as int),
            props@.len() == i,
            forall|j: int| 0 <= j < i ==> is_attr_prop(#[trigger] props@[j], all[j]),
        decreases n - i,
    {
        let a = attrs.remove(0);
        assert(a == all[i as int]);
        let e = match a {
            JsxAttr::Spread(x) => x,
            JsxAttr::Static(name, value) => {
                let mut ps: Vec<Prop> = Vec::new();
                ps.push(Prop::KeyValue(Ident { sym: name, suffix: 0 }, Expr::Str(value)));
                Expr::Object(ps)
            },
        };
        props.push(e);
        assert(attrs@ =~= all.subrange(i + 1, n as int));
        i = i + 1;
    }
    let frags = match results.template {
        SomeTemplate::VectorTemplate(VectorTemplate(v)) => v,
        SomeTemplate::StringTemplate(_) => Vec::new(),
    };
    let tag_copy = tag_name.clone();
    let mut args: Vec<Expr> = Vec::new();
    args.push(Expr::Str(tag_name));
    args.push(Expr::Array(props));
    args.push(Expr::Template(frags, results.template_values));
    args.push(Expr::Bool(info.top_level && visitor.config.hydratable));
    let mut out = TemplateInstantiation::default();
    out.tag_name = tag_copy;
    out.exprs.push(call(Expr::Ident(helper), args));
    out
}

proof fn lemma_after_children_len(f: Seq<Seq<char>>, v: Seq<Expr>, cs: Seq<JsxChild>, markers: bool, escape: bool)
    requires
        f.len() > 0,
    ensures
        after_children(f, v, cs, markers, escape).0.len() > 0,
    decreases cs.len(),
{
    if cs.len() > 0 {
        lemma_after_children_len(f, v, cs.drop_last(), markers, escape);
    }
}

proof fn lemma_after_attrs_len(f: Seq<Seq<char>>, attrs: Seq<JsxAttr>)
    requires
        f.len() > 0,
    ensures
        after_attrs(f, attrs).len() > 0,
    decreases attrs.len(),
{
    if attrs.len() > 0 {
        lemma_after_attrs_len(f, attrs.drop_last());
    }
}

/// The fragments that open tag `tag`; with a hydration key, a hole for it
/// follows the tag name.
pub open spec fn open_frags(tag: Seq<char>, key: bool) -> Seq<Seq<char>> {
    if key {
        seq![seq!['<'] + tag, Seq::<char>::empty()]
    } else {
        seq![seq!['<'] + tag]
    }
}

pub open spec fn close_tag(tag: Seq<char>) -> Seq<char> {
    seq!['<', '/'] + tag + seq!['>']
}

/// The fragments and values of element `node` without spreads: the opening
/// tag with the hydration key `kc` when `key`, the attributes, `>`, and for a
/// tag that is not void the children and the closing tag.
pub open spec fn element_markup(
    node: JsxElement,
    key: bool,
    kc: Expr,
    markers: bool,
    escape: bool,
) -> (Seq<Seq<char>>, Seq<Expr>) {
    let tag = node.tag_name@;
    let f1 = after_attrs(open_frags(tag, key), node.attrs@);
    let f2 = frag_append(f1, seq![seq!['>']]);
    let v0 = if key {
        seq![kc]
    } else {
        Seq::<Expr>::empty()
    };
    if is_void_tag(tag) {
        (f2, v0)
    } else {
        let out = after_children(f2, v0, node.children@, markers, escape);
        (frag_append(out.0, seq![close_tag(tag)]), out.1)
    }
}

/// Whether `r` holds the markup of element `node` without spreads, compiled
/// where `info` says, with hydration as `hydratable` says and hydration key `kc`.
pub open spec fn is_element_result(
    r: TemplateInstantiation,
    node: JsxElement,
    kc: Expr,
    info: TransformInfo,
    hydratable: bool,
) -> bool {
    let tag = node.tag_name@;
    let key = info.top_level && hydratable;
    let markers = hydratable && child_count(node.children@) > 1;
    let escape = !(info.do_not_escape || tag == "script"@ || tag == "style"@);
    let m = element_markup(node, key, kc, markers, escape);
    &&& key ==> is_helper_call(kc, "ssrHydrationKey"@)
    &&& r.template@ == TemplateView::Fragments(m.0)
    &&& r.template_values@ == m.1
}

/// Whether `e` is a call of the imported helper `name` without arguments.
pub open spec fn is_helper_call(e: Expr, name: Seq<char>) -> bool {
    &&& e is Call
    &&& *e->Call_0 is Ident
    &&& named(e->Call_0->Ident_0, import_name(name), 0)
    &&& e->Call_1@.len() == 0
}

/// Whether `e` is `createComponent(NoHydration, { get children() { return m; } })`
/// where `m` is the markup of `node` compiled below the top level.
pub open spec fn is_no_hydration_boundary(e: Expr, node: JsxElement, hydratable: bool, do_not_escape: bool) -> bool {
    let tag = node.tag_name@;
    let markers = hydratable && child_count(node.children@) > 1;
    let escape = !(do_not_escape || tag == "script"@ || tag == "style"@);
    let m = element_markup(node, false, Expr::Bool(false), markers, escape);
    &&& e is Call
    &&& *e->Call_0 is Ident
    &&& named(e->Call_0->Ident_0, import_name("createComponent"@), 0)
    &&& e->Call_1@.len() == 2
    &&& e->Call_1@[0] is Ident
    &&& named(e->Call_1@[0]->Ident_0, import_name("NoHydration"@), 0)
    &&& e->Call_1@[1] is Object
    &&& e->Call_1@[1]->Object_0@.len() == 1
    &&& e->Call_1@[1]->Object_0@[0] is Getter
    &&& named(e->Call_1@[1]->Object_0@[0]->Getter_0, "children"@, 0)
    &&& e->Call_1@[1]->Object_0@[0]->Getter_1@.len() == 1
    &&& e->Call_1@[1]->Object_0@[0]->Getter_1@[0] is Return
    &&& {
        let inner = e->Call_1@[1]->Object_0@[0]->Getter_1@[0]->Return_0;
        &&& inner is Template
        &&& texts(inner->Template_0@) == m.0
        &&& inner->Template_1@ == m.1
    }
}

impl TransformVisitor {
    /// Compiles one element into server-rendered markup.
    pub fn transform_element_ssr(&mut self, node: JsxElement, info: &TransformInfo) -> (r: TemplateInstantiation)
        requires
            old(self).wf(),
            children_ready(node.children@),
        ensures
            final(self).wf(),
            TransformVisitor::same_but_imports(old(self), final(self)),
            ssr_ready(&r),
            forall|i: int|
                0 <= i < old(self).imports@.len() ==> final(self).imports@.len() >= old(self).imports@.len()
                    && final(self).imports@[i] == old(self).imports@[i],
            has_spread(node.attrs@) ==> final(self).has_import("ssrElement"@),
            !has_spread(node.attrs@) && info.top_level && old(self).config.hydratable ==> if node.tag_name@
                == "head"@ {
                final(self).has_import("NoHydration"@) && final(self).has_import("createComponent"@)
            } else {
                final(self).has_import("ssrHydrationKey"@)
            },
            r.tag_name@ == node.tag_name@,
            has_spread(node.attrs@) ==> is_spread_result(r, node, *info, old(self).config.hydratable),
            !has_spread(node.attrs@) && info.top_level && old(self).config.hydratable && node.tag_name@
                == "head"@ ==> r.template@ == TemplateView::Text(Seq::empty()) && r.exprs@.len() == 1
                && is_no_hydration_boundary(r.exprs@[0], node, old(self).config.hydratable, info.do_not_escape),
            !has_spread(node.attrs@) && !(info.top_level && old(self).config.hydratable
                && node.tag_name@ == "head"@) ==> r.exprs@.len() == 0 && exists|kc: Expr|
                #[trigger] is_element_result(r, node, kc, *info, old(self).config.hydratable),
        decreases if info.top_level {
            1int
        } else {
            0int
        },
    {
        if any_spread(&node.attrs) {
            return create_element(self, node, info);
        }
        let ghost orig = node;
        let tag_copy = node.tag_name.clone();
        let void_tag = is_void_element(node.tag_name.as_str());
        let raw = info.do_not_escape || same_text(node.tag_name.as_str(), "script") || same_text(
            node.tag_name.as_str(),
            "style",
        );
        if info.top_level && self.config.hydratable {
            if same_text(node.tag_name.as_str(), "head") {
                let nh = self.register_import_method("NoHydration");
                let cc = self.register_import_method("createComponent");
                let child = self.transform_element_ssr(
                    node,
                    &TransformInfo { top_level: false, do_not_escape: info.do_not_escape },
                );
                let ghost cg = child;
                let inner = self.create_template_ssr(child);
                proof {
                    let kc = choose|kc: Expr| #[trigger] is_element_result(cg, orig, kc, TransformInfo { top_level: false, do_not_escape: info.do_not_escape }, old(self).config.hydratable);
                    assert(is_element_result(cg, orig, kc, TransformInfo { top_level: false, do_not_escape: info.do_not_escape }, old(self).config.hydratable));
                }
                let mut body: Vec<Stmt> = Vec::new();
                body.push(Stmt::Return(inner));
                let mut ps: Vec<Prop> = Vec::new();
                ps.push(Prop::Getter(Ident::plain("children"), body));
                let mut args: Vec<Expr> = Vec::new();
                args.push(Expr::Ident(nh));
                args.push(Expr::Object(ps));
                let mut results = TemplateInstantiation::default();
                results.tag_name = tag_copy;
                results.exprs.push(call(Expr::Ident(cc), args));
                return results;
            }
        }
        let JsxElement { tag_name, attrs, children } = node;
        let mut results = TemplateInstantiation::default();
        results.tag_name = tag_copy;
        let lt = "<";
        proof {
            reveal_strlit("<");
        }
        let open = String::from_str(lt).concat(tag_name.as_str());
        let ghost ov = open@;
        let ghost open_copy = open;
        results.template = SomeTemplate::VectorTemplate(VectorTemplate(one_string(open)));
        let key = info.top_level && self.config.hydratable;
        let ghost mut kc = Expr::Bool(false);
        if key {
            append_to_template(&mut results.template, hole_fragments());
            let k = self.register_import_method("ssrHydrationKey");
            let e = call(Expr::Ident(k), Vec::new());
            proof {
                kc = e;
            }
            results.template_values.push(e);
        }
        proof {
            assert(lt@ =~= seq!['<']);
            assert(ov =~= seq!['<'] + orig.tag_name@);
            assert(texts(seq![open_copy]) =~= seq![ov]);
            assert(ov + Seq::<char>::empty() =~= ov);
            assert(results.template@->Fragments_0 =~= open_frags(orig.tag_name@, key));
            if key {
                assert(results.template_values@ =~= seq![kc]);
            } else {
                assert(results.template_values@ =~= Seq::<Expr>::empty());
            }
        }
        transform_attributes(attrs, &mut results);
        let gt = ">";
        proof {
            reveal_strlit(">");
        }
        let gt_text = String::from_str(gt);
        let ghost gv = gt_text;
        append_to_template(&mut results.template, one_string(gt_text));
        proof {
            assert(texts(seq![gv]) =~= seq![seq!['>']]) by {
                assert(gt@ =~= seq!['>']);
            }
        }
        if !void_tag {
            let markers = self.config.hydratable && count_children(&children) > 1;
            transform_children(self, children, &mut results, markers, !raw);
            let close_open = "</";
            proof {
                reveal_strlit("</");
            }
            let close = String::from_str(close_open).concat(tag_name.as_str()).concat(gt);
            let ghost cv = close@;
            append_to_template(&mut results.template, one_string(close));
            proof {
                assert(cv =~= close_tag(orig.tag_name@));
                assert(texts(seq![close]) =~= seq![cv]);
            }
        }
        assert(is_helper_call(kc, "ssrHydrationKey"@) || !key);
        proof {
            lemma_after_attrs_len(open_frags(orig.tag_name@, key), orig.attrs@);
            let f2 = frag_append(after_attrs(open_frags(orig.tag_name@, key), orig.attrs@), seq![seq!['>']]);
            if !is_void_tag(orig.tag_name@) {
                lemma_after_children_len(f2, if key { seq![kc] } else { Seq::<Expr>::empty() }, orig.children@, self.config.hydratable && child_count(orig.children@) > 1, !raw);
            }
        }
        assert(is_element_result(results, orig, kc, *info, old(self).config.hydratable));
        results
    }
}

} // verus!
