use jsx_dom_expressions::ast::{AttrApply, Body, Expr, Ident, Prop, Stmt, VarDecl};
use jsx_dom_expressions::dom::{
    append_templates_dom, create_template_dom, is_merge, normalize_class_value, register,
    register_template, wrap_dynamics,
};
use jsx_dom_expressions::structs::{
    Config, DynamicAttr, GenerateMode, SomeTemplate, StringTemplate, TemplateInstantiation,
    TransformVisitor,
};

fn id(s: &str) -> Ident {
    Ident::plain(s)
}

fn uid(s: &str, suffix: usize) -> Ident {
    Ident { sym: s.to_string(), suffix }
}

fn ident(s: &str) -> Expr {
    Expr::Ident(id(s))
}

fn visitor(memo: &str) -> TransformVisitor {
    TransformVisitor::new(Config {
        effect_wrapper: "effect".to_string(),
        memo_wrapper: memo.to_string(),
        hydratable: false,
        generate: GenerateMode::Dom,
    })
}

fn text(s: &str) -> SomeTemplate {
    SomeTemplate::StringTemplate(StringTemplate(s.to_string()))
}

fn dynamic(key: &str, value: Expr) -> DynamicAttr {
    DynamicAttr {
        elem: id("_el$"),
        key: key.to_string(),
        value,
        is_svg: false,
        is_ce: false,
        tag_name: "div".to_string(),
    }
}

fn field(rec: &str, name: Ident) -> Expr {
    Expr::Member(Box::new(ident(rec)), name)
}

fn gated(key: &str, v: Ident, prev: Expr) -> Stmt {
    Stmt::Expr(Expr::And(
        Box::new(Expr::StrictNe(Box::new(Expr::Ident(v.duplicate())), Box::new(field("_p$", v.duplicate())))),
        Box::new(Expr::Apply(Box::new(AttrApply {
            elem: id("_el$"),
            key: key.to_string(),
            value: Expr::Assign(Box::new(field("_p$", v.duplicate())), Box::new(Expr::Ident(v))),
            is_svg: false,
            is_ce: false,
            dynamic: true,
            prev: Some(prev),
            tag_name: String::new(),
        }))),
    ))
}

fn element(dynamics: Vec<DynamicAttr>) -> TemplateInstantiation {
    let mut r = TemplateInstantiation::default();
    r.template = text("<div></div>");
    r.id = Some(id("_el$"));
    r.declarations = vec![];
    r.dynamics = dynamics;
    r
}

#[test]
fn class_toggle_gets_double_negation() {
    let r = normalize_class_value("class:active", Expr::Host(3));
    assert_eq!(r, Expr::Not(Box::new(Expr::Not(Box::new(Expr::Host(3))))));
}

#[test]
fn class_toggle_keeps_boolean_and_negation() {
    assert_eq!(normalize_class_value("class:on", Expr::Bool(true)), Expr::Bool(true));
    assert_eq!(normalize_class_value("class:on", Expr::Bool(false)), Expr::Bool(false));
    let neg = Expr::Not(Box::new(Expr::Host(1)));
    assert_eq!(normalize_class_value("class:on", neg), Expr::Not(Box::new(Expr::Host(1))));
}

#[test]
fn plain_key_value_unchanged() {
    assert_eq!(normalize_class_value("title", Expr::Host(2)), Expr::Host(2));
    assert_eq!(normalize_class_value("classList", Expr::Host(2)), Expr::Host(2));
}

#[test]
fn merge_keys() {
    assert!(is_merge("classList"));
    assert!(is_merge("style"));
    assert!(!is_merge("style:color"));
    assert!(!is_merge("class"));
}

#[test]
fn uid_names_count_per_prefix() {
    let mut v = visitor("");
    assert_eq!(v.generate_uid_identifier("v$"), uid("_v$", 0));
    assert_eq!(v.generate_uid_identifier("_v$"), uid("_v$", 2));
    assert_eq!(v.generate_uid_identifier("v$"), uid("_v$", 3));
    assert_eq!(v.generate_uid_identifier("el$"), uid("_el$", 0));
}

#[test]
fn imports_are_recorded_once() {
    let mut v = visitor("");
    assert_eq!(v.register_import_method("effect"), uid("_$effect", 0));
    assert_eq!(v.register_import_method("effect"), uid("_$effect", 0));
    assert_eq!(v.imports.len(), 1);
}

#[test]
fn same_markup_registers_once() {
    let mut v = visitor("");
    let a = register(&mut v, &text("<div></div>"), false, false);
    let b = register(&mut v, &text("<div></div>"), false, false);
    let c = register(&mut v, &text("<span></span>"), false, false);
    assert_eq!(a, uid("_tmpl$", 0));
    assert_eq!(b, uid("_tmpl$", 0));
    assert_eq!(c, uid("_tmpl$", 2));
    assert_eq!(v.templates.len(), 2);
}

#[test]
fn register_template_declares_root() {
    let mut v = visitor("");
    let mut r = element(vec![]);
    register_template(&mut v, &mut r);
    assert_eq!(r.declarations.len(), 1);
    assert_eq!(r.declarations[0].name, id("_el$"));
    assert_eq!(r.declarations[0].init, Expr::Call(Box::new(Expr::Ident(uid("_tmpl$", 0))), vec![]));
}

#[test]
fn skipped_template_is_not_registered() {
    let mut v = visitor("");
    let mut r = element(vec![]);
    r.skip_template = true;
    register_template(&mut v, &mut r);
    assert!(r.declarations.is_empty());
    assert!(v.templates.is_empty());
}

#[test]
fn no_dynamics_compiles_to_nothing() {
    let mut v = visitor("");
    assert!(wrap_dynamics(&mut v, vec![]).is_none());
    assert!(v.imports.is_empty());
}

#[test]
fn single_dynamic_has_no_record() {
    let mut v = visitor("");
    let out = wrap_dynamics(&mut v, vec![dynamic("title", Expr::Host(1))]).unwrap();
    let expected = Expr::Call(
        Box::new(ident("_$effect")),
        vec![Expr::Arrow(
            vec![],
            Box::new(Body::Expr(Expr::Apply(Box::new(AttrApply {
                elem: id("_el$"),
                key: "title".to_string(),
                value: Expr::Host(1),
                is_svg: false,
                is_ce: false,
                dynamic: true,
                prev: None,
                tag_name: "div".to_string(),
            })))),
        )],
    );
    assert_eq!(out, vec![expected]);
}

#[test]
fn single_merge_dynamic_takes_previous_value() {
    let mut v = visitor("");
    let out = wrap_dynamics(&mut v, vec![dynamic("classList", Expr::Host(1))]).unwrap();
    match &out[0] {
        Expr::Call(_, args) => match &args[0] {
            Expr::Arrow(params, body) => {
                assert_eq!(params, &vec![id("_$p")]);
                match &**body {
                    Body::Expr(Expr::Apply(a)) => assert_eq!(a.prev, Some(ident("_$p"))),
                    _ => panic!("unexpected body"),
                }
            }
            _ => panic!("not a closure"),
        },
        _ => panic!("not a call"),
    }
}

#[test]
fn single_class_toggle_is_normalized() {
    let mut v = visitor("");
    let out = wrap_dynamics(&mut v, vec![dynamic("class:on", Expr::Host(4))]).unwrap();
    match &out[0] {
        Expr::Call(_, args) => match &args[0] {
            Expr::Arrow(_, body) => match &**body {
                Body::Expr(Expr::Apply(a)) => {
                    assert_eq!(a.value, Expr::Not(Box::new(Expr::Not(Box::new(Expr::Host(4))))))
                }
                _ => panic!("unexpected body"),
            },
            _ => panic!("not a closure"),
        },
        _ => panic!("not a call"),
    }
}

#[test]
fn batched_dynamics_gate_and_merge() {
    let mut v = visitor("");
    let out = wrap_dynamics(
        &mut v,
        vec![
            dynamic("style", Expr::Host(1)),
            dynamic("style:color", Expr::Host(2)),
            dynamic("class:on", Expr::Bool(true)),
        ],
    )
    .unwrap();
    let v1 = uid("_v$", 0);
    let v2 = uid("_v$", 2);
    let v3 = uid("_v$", 3);
    let merge = Stmt::Expr(Expr::Assign(
        Box::new(field("_p$", v1.duplicate())),
        Box::new(Expr::Apply(Box::new(AttrApply {
            elem: id("_el$"),
            key: "style".to_string(),
            value: Expr::Ident(v1.duplicate()),
            is_svg: false,
            is_ce: false,
            dynamic: true,
            prev: Some(field("_p$", v1.duplicate())),
            tag_name: "div".to_string(),
        }))),
    ));
    let expected = Expr::Call(
        Box::new(ident("_$effect")),
        vec![
            Expr::Arrow(
                vec![id("_p$")],
                Box::new(Body::Block(vec![
                    Stmt::Const(vec![
                        VarDecl { name: v1.duplicate(), init: Expr::Host(1) },
                        VarDecl { name: v2.duplicate(), init: Expr::Host(2) },
                        VarDecl { name: v3.duplicate(), init: Expr::Bool(true) },
                    ]),
                    merge,
                    gated("style:color", v2.duplicate(), Expr::Ident(v2.duplicate())),
                    gated("class:on", v3.duplicate(), ident("undefined")),
                    Stmt::Return(ident("_p$")),
                ])),
            ),
            Expr::Object(vec![
                Prop::KeyValue(v1, ident("undefined")),
                Prop::KeyValue(v2, ident("undefined")),
                Prop::KeyValue(v3, ident("undefined")),
            ]),
        ],
    );
    assert_eq!(out, vec![expected]);
}

#[test]
fn collapse_returns_template_call() {
    let mut v = visitor("");
    let r = create_template_dom(&mut v, element(vec![]), false);
    assert_eq!(r, Expr::Call(Box::new(Expr::Ident(uid("_tmpl$", 0))), vec![]));
    assert_eq!(v.templates.len(), 1);
}

#[test]
fn collapse_with_existing_declaration() {
    let mut v = visitor("");
    let mut r = TemplateInstantiation::default();
    r.id = Some(id("_el$"));
    r.declarations = vec![VarDecl { name: id("_el$"), init: Expr::Host(9) }];
    let out = create_template_dom(&mut v, r, false);
    assert_eq!(out, Expr::Host(9));
    assert!(v.templates.is_empty());
}

#[test]
fn setup_expressions_get_a_wrapper() {
    let mut v = visitor("");
    let mut r = element(vec![]);
    r.exprs = vec![Expr::Host(5)];
    r.post_exprs = vec![Expr::Host(6)];
    let out = create_template_dom(&mut v, r, false);
    let expected = Expr::Call(
        Box::new(Expr::Arrow(
            vec![],
            Box::new(Body::Block(vec![
                Stmt::Const(vec![VarDecl {
                    name: id("_el$"),
                    init: Expr::Call(Box::new(Expr::Ident(uid("_tmpl$", 0))), vec![]),
                }]),
                Stmt::Expr(Expr::Host(5)),
                Stmt::Expr(Expr::Host(6)),
                Stmt::Return(ident("_el$")),
            ])),
        )),
        vec![],
    );
    assert_eq!(out, expected);
}

#[test]
fn two_dynamic_attributes_end_to_end() {
    let mut v = visitor("");
    let r = element(vec![dynamic("title", Expr::Host(1)), dynamic("id", Expr::Host(2))]);
    let out = create_template_dom(&mut v, r, false);
    let v1 = uid("_v$", 0);
    let v2 = uid("_v$", 2);
    let binding = Expr::Call(
        Box::new(ident("_$effect")),
        vec![
            Expr::Arrow(
                vec![id("_p$")],
                Box::new(Body::Block(vec![
                    Stmt::Const(vec![
                        VarDecl { name: v1.duplicate(), init: Expr::Host(1) },
                        VarDecl { name: v2.duplicate(), init: Expr::Host(2) },
                    ]),
                    gated("title", v1.duplicate(), ident("undefined")),
                    gated("id", v2.duplicate(), ident("undefined")),
                    Stmt::Return(ident("_p$")),
                ])),
            ),
            Expr::Object(vec![
                Prop::KeyValue(v1, ident("undefined")),
                Prop::KeyValue(v2, ident("undefined")),
            ]),
        ],
    );
    let expected = Expr::Call(
        Box::new(Expr::Arrow(
            vec![],
            Box::new(Body::Block(vec![
                Stmt::Const(vec![VarDecl {
                    name: id("_el$"),
                    init: Expr::Call(Box::new(Expr::Ident(uid("_tmpl$", 0))), vec![]),
                }]),
                Stmt::Expr(binding),
                Stmt::Return(ident("_el$")),
            ])),
        )),
        vec![],
    );
    assert_eq!(out, expected);
    assert_eq!(v.templates.len(), 1);
}

#[test]
fn recompiling_gives_identical_output() {
    let run = || {
        let mut v = visitor("");
        let a = create_template_dom(
            &mut v,
            element(vec![dynamic("title", Expr::Host(1)), dynamic("id", Expr::Host(2))]),
            false,
        );
        let b = create_template_dom(&mut v, element(vec![dynamic("class:x", Expr::Host(3))]), false);
        let mut body = vec![];
        append_templates_dom(&mut v, &mut body);
        (a, b, body)
    };
    assert_eq!(run(), run());
}

#[test]
fn expression_passes_through_without_memo() {
    let mut v = visitor("");
    let mut r = TemplateInstantiation::default();
    r.exprs = vec![Expr::Host(7)];
    r.dynamic = true;
    assert_eq!(create_template_dom(&mut v, r, true), Expr::Host(7));
}

#[test]
fn dynamic_expression_is_memoized() {
    let mut v = visitor("memo");
    let mut r = TemplateInstantiation::default();
    r.exprs = vec![Expr::Host(7)];
    r.dynamic = true;
    let out = create_template_dom(&mut v, r, true);
    assert_eq!(out, Expr::Call(Box::new(ident("_$memo")), vec![Expr::Host(7)]));
}

#[test]
fn static_expression_is_not_memoized() {
    let mut v = visitor("memo");
    let mut r = TemplateInstantiation::default();
    r.exprs = vec![Expr::Host(7)];
    r.dynamic = false;
    assert_eq!(create_template_dom(&mut v, r, true), Expr::Host(7));
}

#[test]
fn flush_of_empty_registry_emits_nothing() {
    let mut v = visitor("");
    let mut body = vec![Stmt::Expr(Expr::Host(1))];
    append_templates_dom(&mut v, &mut body);
    assert_eq!(body, vec![Stmt::Expr(Expr::Host(1))]);
    assert!(v.imports.is_empty());
}

#[test]
fn flush_hoists_templates_in_order() {
    let mut v = visitor("");
    register(&mut v, &text("<a></a>"), false, true);
    register(&mut v, &text("<svg></svg>"), true, false);
    let mut body = vec![Stmt::Expr(Expr::Host(1))];
    v.append_templates(&mut body);
    let expected = Stmt::Const(vec![
        VarDecl {
            name: uid("_tmpl$", 0),
            init: Expr::Call(
                Box::new(ident("_$template")),
                vec![Expr::Str("<a></a>".to_string()), Expr::Bool(true), Expr::Bool(false)],
            ),
        },
        VarDecl {
            name: uid("_tmpl$", 2),
            init: Expr::Call(
                Box::new(ident("_$template")),
                vec![Expr::Str("<svg></svg>".to_string()), Expr::Bool(false), Expr::Bool(true)],
            ),
        },
    ]);
    assert_eq!(body, vec![expected, Stmt::Expr(Expr::Host(1))]);
    assert!(v.templates.is_empty());
}

#[test]
fn registry_hit_hands_out_no_name() {
    let mut v = visitor("");
    register(&mut v, &text("<a></a>"), false, false);
    register(&mut v, &text("<a></a>"), false, false);
    let c = register(&mut v, &text("<b></b>"), false, false);
    assert_eq!(c, uid("_tmpl$", 2));
}

#[test]
fn collapse_imports_nothing() {
    let mut v = visitor("");
    create_template_dom(&mut v, element(vec![]), false);
    assert!(v.imports.is_empty());
}
