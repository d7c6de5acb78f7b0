use vstd::prelude::*;

verus! {

/// A binding name in generated code: a name and a suffix, 0 for none. Two
/// names are the same binding only when both parts are equal; the host prints
/// the suffix after the name and gives each binding its own hygiene mark, so
/// `_v$2` with no suffix and `_v$` with suffix 2 stay two bindings.
#[derive(Debug, PartialEq)]
pub struct Ident {
    pub sym: String,
    pub suffix: usize,
}

/// Whether `id` is the name `text` with the given suffix.
pub open spec fn named(id: Ident, text: Seq<char>, suffix: nat) -> bool {
    id.sym@ == text && id.suffix as nat == suffix
}

impl Ident {
    /// A bare name.
    pub fn plain(s: &str) -> (r: Ident)
        ensures
            named(r, s@, 0),
    {
        Ident { sym: String::from_str(s), suffix: 0 }
    }

    /// A copy of this name.
    pub fn duplicate(&self) -> (r: Ident)
        ensures
            r == *self,
    {
        Ident { sym: self.sym.clone(), suffix: self.suffix }
    }
}

/// An expression of the generated program.
#[derive(Debug, PartialEq)]
pub enum Expr {
    Ident(Ident),
    Bool(bool),
    Str(String),
    /// An expression written by the user, held by the host and named by a handle.
    Host(usize),
    /// Logical negation `!e`.
    Not(Box<Expr>),
    Call(Box<Expr>, Vec<Expr>),
    /// An arrow function with its parameters and body.
    Arrow(Vec<Ident>, Box<Body>),
    /// Property access `obj.prop`.
    Member(Box<Expr>, Ident),
    /// Assignment `target = value`.
    Assign(Box<Expr>, Box<Expr>),
    /// Strict inequality `a !== b`.
    StrictNe(Box<Expr>, Box<Expr>),
    /// Short-circuit conjunction `a && b`.
    And(Box<Expr>, Box<Expr>),
    Object(Vec<Prop>),
    Array(Vec<Expr>),
    /// A template literal: the fragments, with one expression between each two.
    Template(Vec<String>, Vec<Expr>),
    /// A write of an attribute or property, lowered by the host's setter.
    Apply(Box<AttrApply>),
    /// The value of the inner expression, entity-escaped when it is rendered.
    Escape(Box<Expr>),
}

/// The body of an arrow function.
#[derive(Debug, PartialEq)]
pub enum Body {
    Expr(Expr),
    Block(Vec<Stmt>),
}

#[derive(Debug, PartialEq)]
pub enum Stmt {
    /// One `const` statement with its declarators.
    Const(Vec<VarDecl>),
    Expr(Expr),
    Return(Expr),
}

#[derive(Debug, PartialEq)]
pub struct VarDecl {
    pub name: Ident,
    pub init: Expr,
}

#[derive(Debug, PartialEq)]
pub enum Prop {
    KeyValue(Ident, Expr),
    /// A getter, `get key() { body }`.
    Getter(Ident, Vec<Stmt>),
}

/// What the attribute setter is asked to write: the element, the key, the value
/// and the options that select how the value is applied.
#[derive(Debug, PartialEq)]
pub struct AttrApply {
    pub elem: Ident,
    pub key: String,
    pub value: Expr,
    pub is_svg: bool,
    pub is_ce: bool,
    pub dynamic: bool,
    pub prev: Option<Expr>,
    pub tag_name: String,
}

/// Whether `e` is a call of `callee` with exactly `args`.
pub open spec fn is_call(e: Expr, callee: Expr, args: Seq<Expr>) -> bool {
    &&& e is Call
    &&& *e->Call_0 == callee
    &&& e->Call_1@ == args
}

/// The statements that evaluate each of `es` in order.
pub open spec fn expr_stmts(es: Seq<Expr>) -> Seq<Stmt> {
    es.map_values(|e: Expr| Stmt::Expr(e))
}

/// Builds `callee(args)`.
pub fn call(callee: Expr, args: Vec<Expr>) -> (r: Expr)
    ensures
        is_call(r, callee, args@),
{
    Expr::Call(Box::new(callee), args)
}

/// Builds `obj.prop`.
pub fn member(obj: Ident, prop: Ident) -> (r: Expr)
    ensures
        r == Expr::Member(Box::new(Expr::Ident(obj)), prop),
{
    Expr::Member(Box::new(Expr::Ident(obj)), prop)
}

/// Moves each of `es` into a statement of its own, appending them to `stmts`.
pub fn push_expr_stmts(stmts: &mut Vec<Stmt>, es: Vec<Expr>)
    ensures
        final(stmts)@ == old(stmts)@ + expr_stmts(es@),
{
    let mut es = es;
    let ghost orig = es@;
    let ghost start = stmts@;
    let mut i: usize = 0;
    let n = es.len();
    while i < n
        invariant
            n == orig.len(),
            i <= n,
            es@ == orig.subrange(i as int, n as int),
            stmts@ == start + expr_stmts(orig.subrange(0, i as int)),
        decreases n - i,
    {
        let e = es.remove(0);
        stmts.push(Stmt::Expr(e));
        proof {
            assert(es@ =~= orig.subrange(i + 1, n as int));
            assert(orig.subrange(0, i + 1) =~= orig.subrange(0, i as int).push(orig[i as int]));
            assert(expr_stmts(orig.subrange(0, i + 1)) =~= expr_stmts(orig.subrange(0, i as int)).push(
                Stmt::Expr(orig[i as int]),
            ));
        }
        i = i + 1;
    }
    assert(orig.subrange(0, n as int) =~= orig);
}

} // verus!
