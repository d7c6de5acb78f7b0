use crate::ast::{
    call, expr_stmts, is_call, member, named, push_expr_stmts, AttrApply, Body,
    Expr, Ident, Prop, Stmt, VarDecl,
};
use crate::structs::{
    literal_of, import_name, uid_name, uid_suffix, DynamicAttr, SomeTemplate, TemplateConstruction,
    TemplateInstantiation, TemplateView, TransformVisitor,
};
use crate::text::{has_prefix, same_text, starts_with};
use vstd::prelude::*;

verus! {

/// Keys whose setter merges the old and the new value: it must see the
/// previous value on every run.
pub open spec fn is_merge_key(k: Seq<char>) -> bool {
    k == "classList"@ || k == "style"@
}

/// Keys that toggle one class.
pub open spec fn is_class_key(k: Seq<char>) -> bool {
    starts_with(k, "class:"@)
}

/// Keys that set one style property.
pub open spec fn is_style_key(k: Seq<char>) -> bool {
    starts_with(k, "style:"@)
}

/// The value written for `key`: a class toggle gets `!!v`, unless `v` is a
/// boolean literal or already a negation.
pub open spec fn class_value(key: Seq<char>, v: Expr) -> Expr {
    if is_class_key(key) && !(v is Bool) && !(v is Not) {
        Expr::Not(Box::new(Expr::Not(Box::new(v))))
    } else {
        v
    }
}

pub fn is_merge(key: &str) -> (r: bool)
    ensures
        r == is_merge_key(key@),
{
    same_text(key, "classList") || same_text(key, "style")
}

/// Coerces the value of a class toggle to a boolean; any other value is
/// handed back as it is.
pub fn normalize_class_value(key: &str, value: Expr) -> (r: Expr)
    ensures
        r == class_value(key@, value),
{
    if has_prefix(key, "class:") {
        match value {
            Expr::Bool(_) => value,
            Expr::Not(_) => value,
            _ => Expr::Not(Box::new(Expr::Not(Box::new(value)))),
        }
    } else {
        value
    }
}

/// What the single binding of `d` asks the setter to write.
pub open spec fn single_apply(d: DynamicAttr, prev: Ident) -> AttrApply {
    AttrApply {
        elem: d.elem,
        key: d.key,
        value: class_value(d.key@, d.value),
        is_svg: d.is_svg,
        is_ce: d.is_ce,
        dynamic: true,
        prev: if is_merge_key(d.key@) {
            Some(Expr::Ident(prev))
        } else {
            None
        },
        tag_name: d.tag_name,
    }
}

/// Whether `r` is `effect(prev => set(...))` for the one attribute `d`, the
/// closure taking the previous value only for a merged key.
pub open spec fn is_single_binding(r: Expr, effect: Ident, d: DynamicAttr, prev: Ident) -> bool {
    &&& r is Call
    &&& *r->Call_0 == Expr::Ident(effect)
    &&& r->Call_1@.len() == 1
    &&& r->Call_1@[0] is Arrow
    &&& r->Call_1@[0]->Arrow_0@ == if is_merge_key(d.key@) {
        seq![prev]
    } else {
        Seq::<Ident>::empty()
    }
    &&& *r->Call_1@[0]->Arrow_1 == Body::Expr(Expr::Apply(Box::new(single_apply(d, prev))))
}

/// The field `rec.id` of the record that carries the previous values.
pub open spec fn field(rec: Ident, id: Ident) -> Expr {
    Expr::Member(Box::new(Expr::Ident(rec)), id)
}

/// Whether `s` is the update of `d` inside a batched closure, whose current
/// value is bound to `id` and whose previous value is `rec.id`. A merged key
/// is written on every run and its result stored; any other key is written
/// only when `id !== rec.id`, storing `id` in `rec.id` as it goes.
pub open spec fn is_gated_update(s: Stmt, d: DynamicAttr, id: Ident, rec: Ident, undef: Ident) -> bool {
    if is_merge_key(d.key@) {
        s == Stmt::Expr(
            Expr::Assign(
                Box::new(field(rec, id)),
                Box::new(
                    Expr::Apply(
                        Box::new(
                            AttrApply {
                                elem: d.elem,
                                key: d.key,
                                value: Expr::Ident(id),
                                is_svg: d.is_svg,
                                is_ce: d.is_ce,
                                dynamic: true,
                                prev: Some(field(rec, id)),
                                tag_name: d.tag_name,
                            },
                        ),
                    ),
                ),
            ),
        )
    } else {
        &&& s is Expr
        &&& s->Expr_0 is And
        &&& *s->Expr_0->And_0 == Expr::StrictNe(
            Box::new(Expr::Ident(id)),
            Box::new(field(rec, id)),
        )
        &&& *s->Expr_0->And_1 is Apply
        &&& {
            let a = *s->Expr_0->And_1->Apply_0;
            &&& a.elem == d.elem
            &&& a.key == d.key
            &&& a.value == Expr::Assign(Box::new(field(rec, id)), Box::new(Expr::Ident(id)))
            &&& a.is_svg == d.is_svg
            &&& a.is_ce == d.is_ce
            &&& a.dynamic
            &&& a.prev == Some(
                if is_style_key(d.key@) {
                    Expr::Ident(id)
                } else {
                    Expr::Ident(undef)
                },
            )
            &&& a.tag_name@.len() == 0
        }
    }
}

/// The declarations that bind each current value to its generated name.
pub open spec fn value_decls(ds: Seq<DynamicAttr>, ids: Seq<Ident>) -> Seq<VarDecl> {
    Seq::new(ds.len(), |i: int| VarDecl { name: ids[i], init: class_value(ds[i].key@, ds[i].value) })
}

/// The record literal whose fields all start as `undefined`.
pub open spec fn undefined_fields(ids: Seq<Ident>, undef: Ident) -> Seq<Prop> {
    ids.map_values(|id: Ident| Prop::KeyValue(id, Expr::Ident(undef)))
}

/// Whether `r` is the batched binding of `ds`:
/// `effect(rec => { const ...; updates...; return rec; }, { ids: undefined })`.
pub open spec fn is_batched_binding(
    r: Expr,
    effect: Ident,
    ds: Seq<DynamicAttr>,
    ids: Seq<Ident>,
    rec: Ident,
    undef: Ident,
) -> bool {
    let n = ds.len() as int;
    &&& r is Call
    &&& *r->Call_0 == Expr::Ident(effect)
    &&& r->Call_1@.len() == 2
    &&& r->Call_1@[0] is Arrow
    &&& r->Call_1@[0]->Arrow_0@ == seq![rec]
    &&& *r->Call_1@[0]->Arrow_1 is Block
    &&& {
        let st = r->Call_1@[0]->Arrow_1->Block_0@;
        &&& st.len() == n + 2
        &&& st[0] is Const
        &&& st[0]->Const_0@ == value_decls(ds, ids)
        &&& forall|i: int| 0 <= i < n ==> is_gated_update(#[trigger] st[i + 1], ds[i], ids[i], rec, undef)
        &&& st[n + 1] == Stmt::Return(Expr::Ident(rec))
    }
    &&& r->Call_1@[1] is Object
    &&& r->Call_1@[1]->Object_0@ == undefined_fields(ids, undef)
}

/// Whether `ids` are the names `_v$...` handed out after `c` earlier ones.
pub open spec fn value_names(ids: Seq<Ident>, c: nat) -> bool {
    forall|i: int| 0 <= i < ids.len() ==> named(#[trigger] ids[i], uid_name("v$"@), uid_suffix(c + i as nat))
}

/// Whether `ws` are the compiled bindings of `ds`: none for no attribute, one
/// closure without a record for one attribute, one batched closure with a
/// record for more.
pub open spec fn bindings_of(ws: Seq<Expr>, effect_name: Seq<char>, c: nat, ds: Seq<DynamicAttr>) -> bool {
    &&& ds.len() == 0 ==> ws.len() == 0
    &&& ds.len() == 1 ==> ws.len() == 1 && exists|effect: Ident, prev: Ident|
        named(effect, import_name(effect_name), 0) && named(prev, "_$p"@, 0) && is_single_binding(
            ws[0],
            effect,
            ds[0],
            prev,
        )
    &&& ds.len() >= 2 ==> ws.len() == 1 && exists|effect: Ident, ids: Seq<Ident>, rec: Ident, undef: Ident|
        named(effect, import_name(effect_name), 0) && ids.len() == ds.len() && value_names(ids, c)
            && named(rec, "_p$"@, 0) && named(undef, "undefined"@, 0) && is_batched_binding(
            ws[0],
            effect,
            ds,
            ids,
            rec,
            undef,
        )
}

/// Whether `b` is `a` after a compilation of dynamic attributes, which may
/// import the effect helper and hand out value names.
pub open spec fn same_registry(a: &TransformVisitor, b: &TransformVisitor) -> bool {
    &&& b.config == a.config
    &&& b.template == a.template
    &&& b.templates == a.templates
    &&& b.events == a.events
}

/// Compiles the dynamic attributes of one element into reactive bindings.
pub fn wrap_dynamics(visitor: &mut TransformVisitor, dynamics: Vec<DynamicAttr>) -> (r: Option<Vec<Expr>>)
    requires
        old(visitor).wf(),
        old(visitor).uid_count(uid_name("v$"@)) + dynamics@.len() + 1 < usize::MAX,
    ensures
        final(visitor).wf(),
        same_registry(old(visitor), final(visitor)),
        r is None <==> dynamics@.len() == 0,
        r is Some ==> bindings_of(
            r->0@,
            old(visitor).config.effect_wrapper@,
            old(visitor).uid_count(uid_name("v$"@)),
            dynamics@,
        ),
        dynamics@.len() < 2 ==> final(visitor).uid_count(uid_name("v$"@)) == old(visitor).uid_count(
            uid_name("v$"@),
        ),
        dynamics@.len() >= 2 ==> final(visitor).uid_count(uid_name("v$"@)) == old(visitor).uid_count(
            uid_name("v$"@),
        ) + dynamics@.len(),
        forall|k: Seq<char>|
            k != uid_name("v$"@) ==> final(visitor).uid_count(k) == old(visitor).uid_count(k),
        dynamics@.len() == 0 ==> *final(visitor) == *old(visitor),
        dynamics@.len() > 0 ==> final(visitor).has_import(old(visitor).config.effect_wrapper@),
        forall|i: int|
            0 <= i < old(visitor).imports@.len() ==> final(visitor).imports@.len() >= old(visitor).imports@.len()
                && final(visitor).imports@[i] == old(visitor).imports@[i],
        old(visitor).registry_wf() ==> final(visitor).registry_wf(),
{
    let ghost ds = dynamics@;
    let ghost c = visitor.uid_count(uid_name("v$"@));
    if dynamics.len() == 0 {
        return None;
    }
    let effect_name = visitor.config.effect_wrapper.clone();
    let effect = visitor.register_import_method(effect_name.as_str());
    let mut dynamics = dynamics;
    if dynamics.len() == 1 {
        let d = dynamics.remove(0);
        assert(d == ds[0]);
        let merge = is_merge(d.key.as_str());
        let prev = Ident::plain("_$p");
        let value = normalize_class_value(d.key.as_str(), d.value);
        let mut params: Vec<Ident> = Vec::new();
        let prev_value = if merge {
            params.push(prev.duplicate());
            Some(Expr::Ident(prev.duplicate()))
        } else {
            None
        };
        let apply = AttrApply {
            elem: d.elem,
            key: d.key,
            value,
            is_svg: d.is_svg,
            is_ce: d.is_ce,
            dynamic: true,
            prev: prev_value,
            tag_name: d.tag_name,
        };
        let closure = Expr::Arrow(params, Box::new(Body::Expr(Expr::Apply(Box::new(apply)))));
        let mut args: Vec<Expr> = Vec::new();
        args.push(closure);
        let binding = call(Expr::Ident(effect), args);
        let ghost ghost_effect = effect;
        assert(params@ =~= if is_merge_key(ds[0].key@) {
            seq![prev]
        } else {
            Seq::<Ident>::empty()
        });
        assert(is_single_binding(binding, ghost_effect, ds[0], prev));
        let mut out: Vec<Expr> = Vec::new();
        out.push(binding);
        assert(out@[0] == binding);
        assert(exists|e: Ident, p: Ident|
            named(e, import_name(effect_name@), 0) && named(p, "_$p"@, 0) && is_single_binding(
                binding,
                e,
                ds[0],
                p,
            ));
        return Some(out);
    }
    let rec = Ident::plain("_p$");
    let undef = Ident::plain("undefined");
    let mut decls: Vec<VarDecl> = Vec::new();
    let mut statements: Vec<Stmt> = Vec::new();
    let mut props: Vec<Prop> = Vec::new();
    let ghost mut ids: Seq<Ident> = Seq::empty();
    let n = dynamics.len();
    let mut i: usize = 0;
    while i < n
        invariant
            visitor.wf(),
            same_registry(old(visitor), visitor),
            visitor.has_import(old(visitor).config.effect_wrapper@),
            forall|j: int|
                0 <= j < old(visitor).imports@.len() ==> visitor.imports@.len() >= old(visitor).imports@.len()
                    && visitor.imports@[j] == old(visitor).imports@[j],
            old(visitor).registry_wf() ==> visitor.registry_wf(),
            n == ds.len(),
            n >= 2,
            i <= n,
            dynamics@ == ds.subrange(i as int, n as int),
            c == old(visitor).uid_count(uid_name("v$"@)),
            visitor.uid_count(uid_name("v$"@)) == c + i,
            c + n + 1 < usize::MAX,
            forall|k: Seq<char>| k != uid_name("v$"@) ==> visitor.uid_count(k) == old(visitor).uid_count(k),
            ids.len() == i,
            value_names(ids, c),
            decls@ == value_decls(ds.subrange(0, i as int), ids),
            statements@.len() == i,
            forall|j: int| 0 <= j < i ==> is_gated_update(#[trigger] statements@[j], ds[j], ids[j], rec, undef),
            props@ == undefined_fields(ids, undef),
            named(rec, "_p$"@, 0),
            named(undef, "undefined"@, 0),
        decreases n - i,
    {
        let d = dynamics.remove(0);
        assert(d == ds[i as int]);
        let id = visitor.generate_uid_identifier("v$");
        let merge = is_merge(d.key.as_str());
        let value = normalize_class_value(d.key.as_str(), d.value);
        decls.push(VarDecl { name: id.duplicate(), init: value });
        let stmt = if merge {
            let apply = AttrApply {
                elem: d.elem,
                key: d.key,
                value: Expr::Ident(id.duplicate()),
                is_svg: d.is_svg,
                is_ce: d.is_ce,
                dynamic: true,
                prev: Some(member(rec.duplicate(), id.duplicate())),
                tag_name: d.tag_name,
            };
            Stmt::Expr(
                Expr::Assign(
                    Box::new(member(rec.duplicate(), id.duplicate())),
                    Box::new(Expr::Apply(Box::new(apply))),
                ),
            )
        } else {
            let style = has_prefix(d.key.as_str(), "style:");
            let prev = if style {
                Expr::Ident(id.duplicate())
            } else {
                Expr::Ident(undef.duplicate())
            };
            let apply = AttrApply {
                elem: d.elem,
                key: d.key,
                value: Expr::Assign(
                    Box::new(member(rec.duplicate(), id.duplicate())),
                    Box::new(Expr::Ident(id.duplicate())),
                ),
                is_svg: d.is_svg,
                is_ce: d.is_ce,
                dynamic: true,
                prev: Some(prev),
                tag_name: String::new(),
            };
            let test = Expr::StrictNe(
                Box::new(Expr::Ident(id.duplicate())),
                Box::new(member(rec.duplicate(), id.duplicate())),
            );
            Stmt::Expr(Expr::And(Box::new(test), Box::new(Expr::Apply(Box::new(apply)))))
        };
        statements.push(stmt);
        props.push(Prop::KeyValue(id.duplicate(), Expr::Ident(undef.duplicate())));
        proof {
            let ids0 = ids;
            ids = ids.push(id);
            assert(is_gated_update(stmt, ds[i as int], id, rec, undef));
            assert(value_names(ids, c)) by {
                assert forall|j: int| 0 <= j < ids.len() implies named(
                    #[trigger] ids[j],
                    uid_name("v$"@),
                    uid_suffix(c + j as nat),
                ) by {
                    if j < i {
                        assert(ids[j] == ids0[j]);
                    }
                }
            }
            assert(decls@ =~= value_decls(ds.subrange(0, i + 1), ids));
            assert(props@ =~= undefined_fields(ids, undef));
            assert(dynamics@ =~= ds.subrange(i + 1, n as int));
        }
        i = i + 1;
    }
    proof {
        assert(ds.subrange(0, n as int) =~= ds);
    }
    let mut stmts: Vec<Stmt> = Vec::new();
    stmts.push(Stmt::Const(decls));
    let ghost head = stmts@;
    let ghost ups = statements@;
    stmts.append(&mut statements);
    stmts.push(Stmt::Return(Expr::Ident(rec.duplicate())));
    let mut params: Vec<Ident> = Vec::new();
    params.push(rec.duplicate());
    let closure = Expr::Arrow(params, Box::new(Body::Block(stmts)));
    let record = Expr::Object(props);
    let mut args: Vec<Expr> = Vec::new();
    args.push(closure);
    args.push(record);
    let binding = call(Expr::Ident(effect), args);
    proof {
        let st = stmts@;
        assert(params@ =~= seq![rec]);
        assert forall|j: int| 0 <= j < n implies is_gated_update(#[trigger] st[j + 1], ds[j], ids[j], rec, undef) by {
            assert(st[j + 1] == ups[j]);
        }
        assert(is_batched_binding(binding, effect, ds, ids, rec, undef));
    }
    let mut out: Vec<Expr> = Vec::new();
    out.push(binding);
    assert(out@[0] == binding);
    assert(exists|e: Ident, v: Seq<Ident>, p: Ident, u: Ident|
        named(e, import_name(effect_name@), 0) && v.len() == ds.len() && value_names(v, c) && named(
            p,
            "_p$"@,
            0,
        ) && named(u, "undefined"@, 0) && is_batched_binding(binding, e, ds, v, p, u));
    Some(out)
}

/// Whether some entry of the registry holds the markup `t`.
pub open spec fn registry_has(ts: Seq<TemplateConstruction>, t: TemplateView) -> bool {
    exists|i: int| 0 <= i < ts.len() && ts[i].template@ == t
}

/// The entry of the registry that holds the markup `t`.
pub open spec fn registry_index(ts: Seq<TemplateConstruction>, t: TemplateView) -> int {
    choose|i: int| 0 <= i < ts.len() && ts[i].template@ == t
}

/// Whether registering markup `t` turned registry `ts0` into `ts1` and gave
/// `id`: the entry already there and its name, or else a new entry at the end
/// with the next name `_tmpl$...` after `c` earlier ones.
pub open spec fn registry_step(
    ts0: Seq<TemplateConstruction>,
    ts1: Seq<TemplateConstruction>,
    t: TemplateView,
    id: Ident,
    is_svg: bool,
    is_ce: bool,
    c: nat,
) -> bool {
    if registry_has(ts0, t) {
        &&& ts1 == ts0
        &&& id == ts0[registry_index(ts0, t)].id
    } else {
        &&& ts1.len() == ts0.len() + 1
        &&& ts1.subrange(0, ts0.len() as int) == ts0
        &&& ts1.last().template@ == t
        &&& ts1.last().id == id
        &&& ts1.last().is_svg == is_svg
        &&& ts1.last().is_ce == is_ce
        &&& named(id, uid_name("tmpl$"@), uid_suffix(c))
    }
}

/// Whether `b` is `a` after a registration, which changes the registry and
/// the template name counter only.
pub open spec fn same_but_registry(a: &TransformVisitor, b: &TransformVisitor) -> bool {
    &&& b.config == a.config
    &&& b.template == a.template
    &&& b.imports == a.imports
    &&& b.events == a.events
    &&& forall|k: Seq<char>| k != uid_name("tmpl$"@) ==> b.uid_count(k) == a.uid_count(k)
}

/// Looks `template` up in the registry by its markup and hands back the
/// name of its entry, adding an entry under a fresh name on a miss.
pub fn register(visitor: &mut TransformVisitor, template: &SomeTemplate, is_svg: bool, is_ce: bool) -> (r: Ident)
    requires
        old(visitor).wf(),
        old(visitor).registry_wf(),
        old(visitor).uid_count(uid_name("tmpl$"@)) + 1 < usize::MAX,
    ensures
        final(visitor).wf(),
        final(visitor).registry_wf(),
        same_but_registry(old(visitor), final(visitor)),
        registry_step(
            old(visitor).templates@,
            final(visitor).templates@,
            template@,
            r,
            is_svg,
            is_ce,
            old(visitor).uid_count(uid_name("tmpl$"@)),
        ),
        registry_has(final(visitor).templates@, template@),
        final(visitor).templates@[registry_index(final(visitor).templates@, template@)].id == r,
        registry_has(old(visitor).templates@, template@) ==> *final(visitor) == *old(visitor),
        !registry_has(old(visitor).templates@, template@) ==> final(visitor).uid_count(
            uid_name("tmpl$"@),
        ) == old(visitor).uid_count(uid_name("tmpl$"@)) + 1,
{
    let n = visitor.templates.len();
    let mut i: usize = 0;
    while i < n
        invariant
            n == visitor.templates@.len(),
            i <= n,
            *visitor == *old(visitor),
            visitor.wf(),
            visitor.registry_wf(),
            visitor.uid_count(uid_name("tmpl$"@)) + 1 < usize::MAX,
            forall|j: int| 0 <= j < i ==> visitor.templates@[j].template@ != template@,
        decreases n - i,
    {
        if visitor.templates[i].template.eq(template) {
            proof {
                let ts = visitor.templates@;
                assert(ts[i as int].template@ == template@);
                assert(registry_has(ts, template@));
                let k = registry_index(ts, template@);
                assert(k == i);
            }
            return visitor.templates[i].id.duplicate();
        }
        i = i + 1;
    }
    let ghost ts0 = visitor.templates@;
    let ghost c = visitor.uid_count(uid_name("tmpl$"@));
    let id = visitor.generate_uid_identifier("tmpl$");
    let ghost v1 = *visitor;
    assert(v1.uid_count(uid_name("tmpl$"@)) == c + 1);
    visitor.templates.push(
        TemplateConstruction { template: template.duplicate(), id: id.duplicate(), is_svg, is_ce },
    );
    proof {
        let ts1 = visitor.templates@;
        assert(uid_suffix(c) < uid_suffix(c + 1));
        assert(forall|j: int| 0 <= j < n ==> ts1[j] == ts0[j]);
        let cn = visitor.uid_count(uid_name("tmpl$"@));
        assert(visitor.uid_identifier_map == v1.uid_identifier_map);
        assert(cn == c + 1);
        assert forall|j: int| 0 <= j < ts1.len() implies (#[trigger] ts1[j]).id.sym@ == uid_name("tmpl$"@)
            && ts1[j].id.suffix < uid_suffix(cn) by {
            if j < n {
                assert(ts0[j] == ts1[j]);
            }
        }
        assert forall|a: int, b: int| 0 <= a < b < ts1.len() implies ts1[a].id.suffix != ts1[b].id.suffix by {
            if b == n {
                assert(ts0[a] == ts1[a]);
                assert(ts1[a].id.suffix < uid_suffix(c));
            }
        }
        assert forall|a: int, b: int| 0 <= a < b < ts1.len() implies ts1[a].template@ != ts1[b].template@ by {
            if b == n {
                assert(ts0[a] == ts1[a]);
            }
        }
        assert(visitor.registry_wf());
        assert(ts1.subrange(0, n as int) =~= ts0);
        assert(ts1[n as int].template@ == template@);
        assert(registry_has(ts1, template@));
        let k = registry_index(ts1, template@);
        assert(k == n);
    }
    id
}

/// Whether the subtree has markup that lowering registers.
pub open spec fn registers(result: TemplateInstantiation) -> bool {
    !result.template@.empty() && !result.skip_template
}

/// Whether `d` binds `root` to a fresh copy of template `tid`: `root = tid()`.
pub open spec fn template_decl(d: VarDecl, root: Ident, tid: Ident) -> bool {
    &&& d.name == root
    &&& is_call(d.init, Expr::Ident(tid), Seq::empty())
}

/// Whether `ds` are the declarations of `result` after registration in
/// registry `ts`: its root's template declaration first when it registers.
pub open spec fn root_decls(ds: Seq<VarDecl>, result: TemplateInstantiation, ts: Seq<TemplateConstruction>) -> bool {
    if registers(result) {
        &&& ds.len() == result.declarations@.len() + 1
        &&& ds.subrange(1, ds.len() as int) == result.declarations@
        &&& template_decl(ds[0], result.id->0, ts[registry_index(ts, result.template@)].id)
    } else {
        ds == result.declarations@
    }
}

/// Whether `a` and `b` agree on every field but the declarations.
pub open spec fn same_but_declarations(a: TemplateInstantiation, b: TemplateInstantiation) -> bool {
    &&& b.component == a.component
    &&& b.template == a.template
    &&& b.template_values == a.template_values
    &&& b.id == a.id
    &&& b.tag_name == a.tag_name
    &&& b.exprs == a.exprs
    &&& b.dynamics == a.dynamics
    &&& b.post_exprs == a.post_exprs
    &&& b.is_svg == a.is_svg
    &&& b.is_void == a.is_void
    &&& b.has_custom_element == a.has_custom_element
    &&& b.text == a.text
    &&& b.dynamic == a.dynamic
    &&& b.to_be_closed == a.to_be_closed
    &&& b.skip_template == a.skip_template
}

/// Registers the markup of `results`, unless it has none or its root was made
/// elsewhere, and declares its root as a fresh copy of the template.
pub fn register_template(visitor: &mut TransformVisitor, results: &mut TemplateInstantiation)
    requires
        old(visitor).wf(),
        old(visitor).registry_wf(),
        old(visitor).uid_count(uid_name("tmpl$"@)) + 1 < usize::MAX,
        registers(*old(results)) ==> old(results).id is Some,
    ensures
        final(visitor).wf(),
        final(visitor).registry_wf(),
        same_but_registry(old(visitor), final(visitor)),
        same_but_declarations(*old(results), *final(results)),
        root_decls(final(results).declarations@, *old(results), final(visitor).templates@),
        registers(*old(results)) ==> registry_has(final(visitor).templates@, old(results).template@)
            && registry_step(
            old(visitor).templates@,
            final(visitor).templates@,
            old(results).template@,
            final(visitor).templates@[registry_index(final(visitor).templates@, old(results).template@)].id,
            old(results).is_svg,
            old(results).has_custom_element,
            old(visitor).uid_count(uid_name("tmpl$"@)),
        ),
        !registers(*old(results)) ==> *final(visitor) == *old(visitor),
        registers(*old(results)) && registry_has(old(visitor).templates@, old(results).template@)
            ==> *final(visitor) == *old(visitor),
        registers(*old(results)) && !registry_has(old(visitor).templates@, old(results).template@)
            ==> final(visitor).uid_count(uid_name("tmpl$"@)) == old(visitor).uid_count(
            uid_name("tmpl$"@),
        ) + 1,
{
    if !results.template.is_empty() {
        if !results.skip_template {
            let template_id = register(
                visitor,
                &results.template,
                results.is_svg,
                results.has_custom_element,
            );
            if let Some(root_id) = &results.id {
                let root = root_id.duplicate();
                let init = call(Expr::Ident(template_id), Vec::new());
                let ghost before = results.declarations@;
                results.declarations.insert(0, VarDecl { name: root, init });
                assert(results.declarations@.subrange(1, results.declarations@.len() as int) =~= before);
            }
        }
    }
}

/// Whether `ready` holds for lowering `result` into live-construction code:
/// it has a root or an expression, and the name counters have room.
pub open spec fn dom_ready(v: &TransformVisitor, result: &TemplateInstantiation) -> bool {
    &&& result.id is Some || result.exprs@.len() > 0
    &&& v.uid_count(uid_name("tmpl$"@)) + 1 < usize::MAX
    &&& v.uid_count(uid_name("v$"@)) + result.dynamics@.len() + 1 < usize::MAX
}

/// Whether a subtree with nothing to run but its root declaration collapses.
pub open spec fn collapses(result: TemplateInstantiation) -> bool {
    &&& result.exprs@.len() == 0
    &&& result.dynamics@.len() == 0
    &&& result.post_exprs@.len() == 0
    &&& result.declarations@.len() + (if registers(result) { 1int } else { 0 }) == 1
}

/// Whether `r` is the lowering of `result`, which has a root, against registry
/// `ts`: the root's initializer alone when it collapses, else
/// `(() => { const decls; exprs; bindings; post_exprs; return root; })()`.
pub open spec fn is_dom_lowering(
    r: Expr,
    result: TemplateInstantiation,
    ts: Seq<TemplateConstruction>,
    effect_name: Seq<char>,
    c: nat,
) -> bool {
    if collapses(result) {
        if registers(result) {
            is_call(r, Expr::Ident(ts[registry_index(ts, result.template@)].id), Seq::empty())
        } else {
            r == result.declarations@[0].init
        }
    } else {
        &&& r is Call
        &&& r->Call_1@.len() == 0
        &&& *r->Call_0 is Arrow
        &&& r->Call_0->Arrow_0@.len() == 0
        &&& *r->Call_0->Arrow_1 is Block
        &&& {
            let st = r->Call_0->Arrow_1->Block_0@;
            exists|ws: Seq<Expr>|
                {
                    &&& bindings_of(ws, effect_name, c, result.dynamics@)
                    &&& st.len() >= 2
                    &&& st[0] is Const
                    &&& root_decls(st[0]->Const_0@, result, ts)
                    &&& st.subrange(1, st.len() - 1) == expr_stmts(result.exprs@) + expr_stmts(ws)
                        + expr_stmts(result.post_exprs@)
                    &&& st.last() == Stmt::Return(Expr::Ident(result.id->0))
                }
        }
    }
}

/// Lowers a finished subtree into code that builds it: a registered template
/// with its setup and bindings, or, with no root, its expression, memoized when
/// asked for and the subtree is dynamic.
pub fn create_template_dom(visitor: &mut TransformVisitor, result: TemplateInstantiation, wrap: bool) -> (r: Expr)
    requires
        old(visitor).wf(),
        old(visitor).registry_wf(),
        dom_ready(old(visitor), &result),
    ensures
        final(visitor).wf(),
        final(visitor).registry_wf(),
        result.id is Some ==> is_dom_lowering(
            r,
            result,
            final(visitor).templates@,
            old(visitor).config.effect_wrapper@,
            old(visitor).uid_count(uid_name("v$"@)),
        ),
        final(visitor).config == old(visitor).config,
        final(visitor).events == old(visitor).events,
        final(visitor).template == old(visitor).template,
        result.id is Some && registers(result) ==> registry_has(final(visitor).templates@, result.template@)
            && registry_step(
            old(visitor).templates@,
            final(visitor).templates@,
            result.template@,
            final(visitor).templates@[registry_index(final(visitor).templates@, result.template@)].id,
            result.is_svg,
            result.has_custom_element,
            old(visitor).uid_count(uid_name("tmpl$"@)),
        ),
        result.id is Some && registers(result) && registry_has(old(visitor).templates@, result.template@)
            ==> final(visitor).uid_count(uid_name("tmpl$"@)) == old(visitor).uid_count(uid_name("tmpl$"@)),
        result.id is Some && registers(result) && !registry_has(old(visitor).templates@, result.template@)
            ==> final(visitor).uid_count(uid_name("tmpl$"@)) == old(visitor).uid_count(uid_name("tmpl$"@)) + 1,
        result.id is Some && !registers(result) ==> final(visitor).templates == old(visitor).templates
            && final(visitor).uid_count(uid_name("tmpl$"@)) == old(visitor).uid_count(uid_name("tmpl$"@)),
        result.id is Some && (collapses(result) || result.dynamics@.len() == 0) ==> final(visitor).imports
            == old(visitor).imports && final(visitor).uid_count(uid_name("v$"@)) == old(visitor).uid_count(
            uid_name("v$"@),
        ),
        result.id is Some && !collapses(result) && result.dynamics@.len() > 0 ==> final(visitor).has_import(
            old(visitor).config.effect_wrapper@,
        ),
        result.id is Some && !collapses(result) && result.dynamics@.len() == 1 ==> final(visitor).uid_count(
            uid_name("v$"@),
        ) == old(visitor).uid_count(uid_name("v$"@)),
        result.id is Some && !collapses(result) && result.dynamics@.len() >= 2 ==> final(visitor).uid_count(
            uid_name("v$"@),
        ) == old(visitor).uid_count(uid_name("v$"@)) + result.dynamics@.len(),
        forall|k: Seq<char>|
            k != uid_name("tmpl$"@) && k != uid_name("v$"@) ==> final(visitor).uid_count(k) == old(
                visitor,
            ).uid_count(k),
        result.id is None && !(wrap && result.dynamic && old(visitor).config.memo_wrapper@.len() > 0)
            ==> *final(visitor) == *old(visitor),
        result.id is None && wrap && result.dynamic && old(visitor).config.memo_wrapper@.len() > 0
            ==> TransformVisitor::same_but_imports(old(visitor), final(visitor)) && final(visitor).has_import(
            old(visitor).config.memo_wrapper@,
        ),
        result.id is None && !(wrap && result.dynamic && old(visitor).config.memo_wrapper@.len() > 0)
            ==> r == result.exprs@[0],
        result.id is None && wrap && result.dynamic && old(visitor).config.memo_wrapper@.len() > 0
            ==> exists|m: Ident|
            named(m, import_name(old(visitor).config.memo_wrapper@), 0) && is_call(
                r,
                Expr::Ident(m),
                seq![result.exprs@[0]],
            ),
{
    let ghost orig = result;
    let mut result = result;
    let root = match &result.id {
        Some(id) => Some(id.duplicate()),
        None => None,
    };
    if let Some(id) = root {
        proof {
            reveal_strlit("tmpl$");
            reveal_strlit("v$");
            assert(uid_name("tmpl$"@) != uid_name("v$"@)) by {
                assert(uid_name("tmpl$"@).len() != uid_name("v$"@).len());
            }
        }
        register_template(visitor, &mut result);
        let ghost ts = visitor.templates@;
        if result.exprs.len() == 0 && result.dynamics.len() == 0 && result.post_exprs.len() == 0
            && result.declarations.len() == 1 {
            let d = result.declarations.remove(0);
            return d.init;
        }
        let ghost decls = result.declarations@;
        let mut stmts: Vec<Stmt> = Vec::new();
        stmts.push(Stmt::Const(result.declarations));
        let ghost s0 = stmts@;
        push_expr_stmts(&mut stmts, result.exprs);
        let ghost c = visitor.uid_count(uid_name("v$"@));
        let ghost v0 = *visitor;
        let wrapped = wrap_dynamics(visitor, result.dynamics);
        let ws = match wrapped {
            Some(w) => w,
            None => Vec::new(),
        };
        let ghost wsv = ws@;
        push_expr_stmts(&mut stmts, ws);
        push_expr_stmts(&mut stmts, result.post_exprs);
        stmts.push(Stmt::Return(Expr::Ident(id)));
        let r = call(Expr::Arrow(Vec::new(), Box::new(Body::Block(stmts))), Vec::new());
        proof {
            let st = stmts@;
            assert(st.subrange(1, st.len() - 1) =~= expr_stmts(orig.exprs@) + expr_stmts(wsv)
                + expr_stmts(orig.post_exprs@));
            assert(bindings_of(wsv, v0.config.effect_wrapper@, c, orig.dynamics@));
        }
        return r;
    }
    let memo_on = visitor.config.memo_wrapper.as_str().unicode_len() > 0;
    if wrap && result.dynamic && memo_on {
        let memo_name = visitor.config.memo_wrapper.clone();
        let memo = visitor.register_import_method(memo_name.as_str());
        let e = result.exprs.remove(0);
        let mut args: Vec<Expr> = Vec::new();
        args.push(e);
        let r = call(Expr::Ident(memo), args);
        assert(args@ =~= seq![orig.exprs@[0]]);
        return r;
    }
    result.exprs.remove(0)
}

/// Whether flushing registry `a` into a module body turned `b0` into `b1` and
/// `a` into `b`: with nothing registered nothing changes; else one `const`
/// statement goes in front, binding each entry's name, in order, to a call of
/// the imported template helper on its markup and flags.
pub open spec fn dom_flushed(a: &TransformVisitor, b: &TransformVisitor, b0: Seq<Stmt>, b1: Seq<Stmt>) -> bool {
    &&& a.templates@.len() == 0 ==> b1 == b0 && *b == *a
    &&& a.templates@.len() > 0 ==> {
        &&& b.has_import("template"@)
        &&& b1.len() == b0.len() + 1
        &&& b1.subrange(1, b1.len() as int) == b0
        &&& b1[0] is Const
        &&& b1[0]->Const_0@.len() == a.templates@.len()
        &&& forall|i: int|
            0 <= i < a.templates@.len() ==> {
                let d = #[trigger] b1[0]->Const_0@[i];
                let t = a.templates@[i];
                &&& d.name == t.id
                &&& d.init is Call
                &&& *d.init->Call_0 is Ident
                &&& named(d.init->Call_0->Ident_0, import_name("template"@), 0)
                &&& d.init->Call_1@.len() == 3
                &&& literal_of(d.init->Call_1@[0], t.template)
                &&& d.init->Call_1@[1] == Expr::Bool(t.is_ce)
                &&& d.init->Call_1@[2] == Expr::Bool(t.is_svg)
            }
    }
}

/// Hoists the registered templates to the front of `body` as one `const`
/// statement, each bound to a call of the template helper on its markup, and
/// empties the registry; with nothing registered `body` stays as it is.
pub fn append_templates_dom(visitor: &mut TransformVisitor, body: &mut Vec<Stmt>)
    requires
        old(visitor).wf(),
    ensures
        final(visitor).wf(),
        final(visitor).registry_wf(),
        final(visitor).templates@.len() == 0,
        dom_flushed(old(visitor), final(visitor), old(body)@, final(body)@),
{
    if visitor.templates.len() == 0 {
        return;
    }
    let helper = visitor.register_import_method("template");
    let ghost v_after = *visitor;
    let ghost ts = visitor.templates@;
    let n = visitor.templates.len();
    let mut decls: Vec<VarDecl> = Vec::new();
    let mut i: usize = 0;
    while i < n
        invariant
            visitor.wf(),
            visitor.imports == v_after.imports,
            visitor.uid_identifier_map == v_after.uid_identifier_map,
            visitor.config == v_after.config,
            n == ts.len(),
            i <= n,
            visitor.templates@ == ts.subrange(i as int, n as int),
            named(helper, import_name("template"@), 0),
            decls@.len() == i,
            forall|j: int|
                0 <= j < i ==> {
                    let d = #[trigger] decls@[j];
                    let t = ts[j];
                    &&& d.name == t.id
                    &&& d.init is Call
                    &&& *d.init->Call_0 == Expr::Ident(helper)
                    &&& d.init->Call_1@.len() == 3
                    &&& literal_of(d.init->Call_1@[0], t.template)
                    &&& d.init->Call_1@[1] == Expr::Bool(t.is_ce)
                    &&& d.init->Call_1@[2] == Expr::Bool(t.is_svg)
                },
        decreases n - i,
    {
        let t = visitor.templates.remove(0);
        assert(t == ts[i as int]);
        let mut args: Vec<Expr> = Vec::new();
        args.push(t.template.into_literal());
        args.push(Expr::Bool(t.is_ce));
        args.push(Expr::Bool(t.is_svg));
        decls.push(VarDecl { name: t.id, init: call(Expr::Ident(helper.duplicate()), args) });
        assert(visitor.templates@ =~= ts.subrange(i + 1, n as int));
        i = i + 1;
    }
    let ghost b0 = body@;
    body.insert(0, Stmt::Const(decls));
    assert(body@.subrange(1, body@.len() as int) =~= b0);
    assert(v_after.has_import("template"@));
    let ghost w = choose|i: int| 0 <= i < v_after.imports@.len() && v_after.imports@[i].0@ == "template"@;
    assert(visitor.imports@[w].0@ == "template"@);
}

/// Registering the same markup twice, from a registry that holds each markup
/// once, gives the same name both times and leaves exactly one entry for it.
pub proof fn lemma_registry_dedup(
    ts0: Seq<TemplateConstruction>,
    ts1: Seq<TemplateConstruction>,
    ts2: Seq<TemplateConstruction>,
    t1: TemplateView,
    t2: TemplateView,
    id1: Ident,
    id2: Ident,
    is_svg: bool,
    is_ce: bool,
    c1: nat,
    c2: nat,
)
    requires
        forall|i: int, j: int| 0 <= i < j < ts0.len() ==> ts0[i].template@ != ts0[j].template@,
        registry_step(ts0, ts1, t1, id1, is_svg, is_ce, c1),
        registry_step(ts1, ts2, t2, id2, is_svg, is_ce, c2),
        t1 == t2,
    ensures
        id1 == id2,
        ts2 == ts1,
        registry_has(ts2, t1),
        forall|i: int| 0 <= i < ts2.len() && ts2[i].template@ == t1 ==> i == registry_index(ts2, t1),
{
    if registry_has(ts0, t1) {
        let k = registry_index(ts0, t1);
        assert(ts1 == ts0);
    } else {
        let n = ts0.len();
        assert(ts1[n as int].template@ == t1);
        assert(registry_has(ts1, t1));
        let k = registry_index(ts1, t1);
        if k < n {
            assert(ts1[k] == ts0[k]) by {
                assert(ts1.subrange(0, n as int)[k] == ts1[k]);
            }
        }
        assert(k == n);
        assert forall|i: int| 0 <= i < ts2.len() && ts2[i].template@ == t1 implies i == n by {
            if i < n {
                assert(ts1.subrange(0, n as int)[i] == ts1[i]);
            }
        }
    }
    if registry_has(ts0, t1) {
        let k = registry_index(ts0, t1);
        assert forall|i: int| 0 <= i < ts2.len() && ts2[i].template@ == t1 implies i == k by {
            if i != k {
                if i < k {
                    assert(ts0[i].template@ != ts0[k].template@);
                } else {
                    assert(ts0[k].template@ != ts0[i].template@);
                }
            }
        }
    }
}

/// A registration is fixed by the registry, the markup and the name counter:
/// two registrations from equal states register the same entries and give
/// names with the same text and suffix.
pub proof fn lemma_registry_deterministic(
    ts0: Seq<TemplateConstruction>,
    ts1: Seq<TemplateConstruction>,
    ts2: Seq<TemplateConstruction>,
    t: TemplateView,
    id1: Ident,
    id2: Ident,
    is_svg: bool,
    is_ce: bool,
    c: nat,
)
    requires
        registry_step(ts0, ts1, t, id1, is_svg, is_ce, c),
        registry_step(ts0, ts2, t, id2, is_svg, is_ce, c),
    ensures
        id1.sym@ == id2.sym@,
        id1.suffix == id2.suffix,
        ts1.len() == ts2.len(),
        forall|i: int|
            0 <= i < ts1.len() ==> #[trigger] ts1[i].template@ == ts2[i].template@ && ts1[i].id.sym@
                == ts2[i].id.sym@ && ts1[i].id.suffix == ts2[i].id.suffix,
{
    if !registry_has(ts0, t) {
        let n = ts0.len() as int;
        assert forall|i: int| 0 <= i < ts1.len() implies #[trigger] ts1[i].template@ == ts2[i].template@
            && ts1[i].id.sym@ == ts2[i].id.sym@ && ts1[i].id.suffix == ts2[i].id.suffix by {
            if i < n {
                assert(ts1.subrange(0, n)[i] == ts1[i]);
                assert(ts2.subrange(0, n)[i] == ts2[i]);
            }
        }
    }
}

/// A registration that misses hands out a name that differs from the name of
/// every entry already in the registry.
pub proof fn lemma_registry_fresh_name(
    v: &TransformVisitor,
    ts1: Seq<TemplateConstruction>,
    t: TemplateView,
    id: Ident,
    is_svg: bool,
    is_ce: bool,
)
    requires
        v.registry_wf(),
        !registry_has(v.templates@, t),
        registry_step(v.templates@, ts1, t, id, is_svg, is_ce, v.uid_count(uid_name("tmpl$"@))),
    ensures
        forall|i: int| 0 <= i < v.templates@.len() ==> v.templates@[i].id.suffix != id.suffix,
        forall|i: int, j: int| 0 <= i < j < ts1.len() ==> ts1[i].id.suffix != ts1[j].id.suffix,
{
    let n = v.templates@.len() as int;
    assert forall|i: int, j: int| 0 <= i < j < ts1.len() implies ts1[i].id.suffix != ts1[j].id.suffix by {
        assert(ts1.subrange(0, n)[i] == ts1[i]);
        if j < n {
            assert(ts1.subrange(0, n)[j] == ts1[j]);
        }
    }
}

} // verus!
