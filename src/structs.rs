use crate::ast::{named, Expr, Ident, Stmt, VarDecl};
use crate::text::{has_prefix, same_text};
use vstd::prelude::*;

verus! {

/// A template hoisted to module scope: its markup, the name it is bound to,
/// and the flags that select how it is instantiated.
#[derive(Debug)]
pub struct TemplateConstruction {
    pub template: SomeTemplate,
    pub id: Ident,
    pub is_svg: bool,
    pub is_ce: bool,
}

/// One reactive binding still to be compiled: the value of `key` on `elem`.
#[derive(Debug)]
pub struct DynamicAttr {
    pub elem: Ident,
    pub key: String,
    pub value: Expr,
    pub is_svg: bool,
    pub is_ce: bool,
    pub tag_name: String,
}

/// Static markup as one contiguous text.
#[derive(Debug)]
pub struct StringTemplate(pub String);

/// Static markup as fragments, with an expression hole between each two.
#[derive(Debug)]
pub struct VectorTemplate(pub Vec<String>);

#[derive(Debug)]
pub enum SomeTemplate {
    StringTemplate(StringTemplate),
    VectorTemplate(VectorTemplate),
}

/// The mathematical content of a template.
pub ghost enum TemplateView {
    Text(Seq<char>),
    Fragments(Seq<Seq<char>>),
}

/// The texts of a list of strings.
pub open spec fn texts(v: Seq<String>) -> Seq<Seq<char>> {
    v.map_values(|s: String| s@)
}

/// The fragments run together.
pub open spec fn joined(f: Seq<Seq<char>>) -> Seq<char>
    decreases f.len(),
{
    if f.len() == 0 {
        Seq::empty()
    } else {
        joined(f.drop_last()) + f.last()
    }
}

/// Fragments run together are empty exactly when every fragment is.
pub proof fn lemma_joined_empty(f: Seq<Seq<char>>)
    ensures
        (joined(f).len() == 0) <==> (forall|i: int| 0 <= i < f.len() ==> (#[trigger] f[i]).len() == 0),
    decreases f.len(),
{
    if f.len() > 0 {
        lemma_joined_empty(f.drop_last());
        if joined(f).len() == 0 {
            assert forall|i: int| 0 <= i < f.len() implies (#[trigger] f[i]).len() == 0 by {
                if i < f.len() - 1 {
                    assert(f.drop_last()[i] == f[i]);
                }
            }
        }
        if forall|i: int| 0 <= i < f.len() ==> (#[trigger] f[i]).len() == 0 {
            assert forall|i: int| 0 <= i < f.drop_last().len() implies (#[trigger] f.drop_last()[i]).len() == 0 by {
                assert(f.drop_last()[i] == f[i]);
            }
            assert(f.last().len() == 0);
        }
    }
}

impl View for SomeTemplate {
    type V = TemplateView;

    open spec fn view(&self) -> TemplateView {
        match self {
            SomeTemplate::StringTemplate(StringTemplate(s)) => TemplateView::Text(s@),
            SomeTemplate::VectorTemplate(VectorTemplate(v)) => TemplateView::Fragments(texts(v@)),
        }
    }
}

impl TemplateView {
    /// The markup text that the template stands for.
    pub open spec fn text(self) -> Seq<char> {
        match self {
            TemplateView::Text(s) => s,
            TemplateView::Fragments(f) => joined(f),
        }
    }

    /// Whether the template holds nothing: no text, or no fragment at all.
    pub open spec fn empty(self) -> bool {
        match self {
            TemplateView::Text(s) => s.len() == 0,
            TemplateView::Fragments(f) => f.len() == 0,
        }
    }
}

/// Compares two lists of strings text by text.
fn same_fragments(a: &Vec<String>, b: &Vec<String>) -> (r: bool)
    ensures
        r == (texts(a@) == texts(b@)),
{
    if a.len() != b.len() {
        assert(texts(a@).len() != texts(b@).len());
        return false;
    }
    let mut i: usize = 0;
    while i < a.len()
        invariant
            a.len() == b.len(),
            i <= a.len(),
            forall|j: int| 0 <= j < i ==> a@[j]@ == b@[j]@,
        decreases a.len() - i,
    {
        if !same_text(a[i].as_str(), b[i].as_str()) {
            assert(texts(a@)[i as int] != texts(b@)[i as int]);
            return false;
        }
        i = i + 1;
    }
    assert(texts(a@) =~= texts(b@));
    true
}

/// Copies a list of strings.
fn copy_strings(v: &Vec<String>) -> (r: Vec<String>)
    ensures
        r@ == v@,
{
    let mut r: Vec<String> = Vec::new();
    let mut i: usize = 0;
    while i < v.len()
        invariant
            i <= v.len(),
            r@ == v@.subrange(0, i as int),
        decreases v.len() - i,
    {
        r.push(v[i].clone());
        i = i + 1;
    }
    assert(r@ =~= v@);
    r
}

/// Whether `e` is the literal that stands for template `t`.
pub open spec fn literal_of(e: Expr, t: SomeTemplate) -> bool {
    match t {
        SomeTemplate::StringTemplate(StringTemplate(s)) => e == Expr::Str(s),
        SomeTemplate::VectorTemplate(VectorTemplate(v)) => {
            &&& e is Template
            &&& e->Template_0 == v
            &&& e->Template_1@.len() == 0
        },
    }
}

impl Default for SomeTemplate {
    fn default() -> (r: Self)
        ensures
            r@ == TemplateView::Text(Seq::empty()),
    {
        SomeTemplate::StringTemplate(StringTemplate(String::new()))
    }
}

impl PartialEq for SomeTemplate {
    fn eq(&self, other: &Self) -> (r: bool) {
        match (self, other) {
            (
                SomeTemplate::StringTemplate(StringTemplate(a)),
                SomeTemplate::StringTemplate(StringTemplate(b)),
            ) => same_text(a.as_str(), b.as_str()),
            (
                SomeTemplate::VectorTemplate(VectorTemplate(a)),
                SomeTemplate::VectorTemplate(VectorTemplate(b)),
            ) => same_fragments(a, b),
            _ => false,
        }
    }
}

impl vstd::std_specs::cmp::PartialEqSpecImpl for SomeTemplate {
    open spec fn obeys_eq_spec() -> bool {
        true
    }

    open spec fn eq_spec(&self, other: &SomeTemplate) -> bool {
        self@ == other@
    }
}

impl SomeTemplate {
    /// A copy of this template.
    pub fn duplicate(&self) -> (r: SomeTemplate)
        ensures
            r@ == self@,
    {
        match self {
            SomeTemplate::StringTemplate(StringTemplate(s)) => SomeTemplate::StringTemplate(
                StringTemplate(s.clone()),
            ),
            SomeTemplate::VectorTemplate(VectorTemplate(v)) => {
                SomeTemplate::VectorTemplate(VectorTemplate(copy_strings(v)))
            },
        }
    }

    /// The template as a literal of the generated program: a string for a
    /// contiguous text, a template literal without holes for fragments.
    pub fn into_literal(self) -> (r: Expr)
        ensures
            literal_of(r, self),
    {
        match self {
            SomeTemplate::StringTemplate(StringTemplate(s)) => Expr::Str(s),
            SomeTemplate::VectorTemplate(VectorTemplate(v)) => Expr::Template(v, Vec::new()),
        }
    }

    /// The markup text, with the fragments run together.
    pub fn into_string(self) -> (r: String)
        ensures
            r@ == self@.text(),
    {
        match self {
            SomeTemplate::StringTemplate(StringTemplate(s)) => s,
            SomeTemplate::VectorTemplate(VectorTemplate(v)) => {
                let mut r = String::new();
                let mut i: usize = 0;
                while i < v.len()
                    invariant
                        i <= v.len(),
                        r@ == joined(texts(v@.subrange(0, i as int))),
                    decreases v.len() - i,
                {
                    r.append(v[i].as_str());
                    assert(texts(v@.subrange(0, i + 1)).drop_last() =~= texts(
                        v@.subrange(0, i as int),
                    ));
                    i = i + 1;
                }
                assert(v@.subrange(0, v.len() as int) =~= v@);
                r
            },
        }
    }

    /// Adds `s` at the end: onto the text, or as a fragment of its own.
    pub fn append(&mut self, s: &str)
        ensures
            final(self)@ == match old(self)@ {
                TemplateView::Text(t) => TemplateView::Text(t + s@),
                TemplateView::Fragments(f) => TemplateView::Fragments(f.push(s@)),
            },
    {
        match self {
            SomeTemplate::StringTemplate(StringTemplate(string)) => {
                string.append(s);
            },
            SomeTemplate::VectorTemplate(VectorTemplate(vec)) => {
                let ghost before = vec@;
                vec.push(String::from_str(s));
                assert(texts(vec@) =~= texts(before).push(s@));
            },
        }
    }

    /// Adds `s` at the front: before the text, or as a first fragment.
    pub fn prepend(&mut self, s: &str)
        ensures
            final(self)@ == match old(self)@ {
                TemplateView::Text(t) => TemplateView::Text(s@ + t),
                TemplateView::Fragments(f) => TemplateView::Fragments(seq![s@] + f),
            },
    {
        match self {
            SomeTemplate::StringTemplate(StringTemplate(string)) => {
                let front = String::from_str(s);
                let whole = front.concat(string.as_str());
                *string = whole;
            },
            SomeTemplate::VectorTemplate(VectorTemplate(vec)) => {
                let ghost before = vec@;
                vec.insert(0, String::from_str(s));
                assert(texts(vec@) =~= seq![s@] + texts(before));
            },
        }
    }

    /// Whether the markup text is empty, however many fragments hold it.
    pub fn has_no_text(&self) -> (r: bool)
        ensures
            r == (self@.text().len() == 0),
    {
        match self {
            SomeTemplate::StringTemplate(StringTemplate(string)) => string.as_str().unicode_len() == 0,
            SomeTemplate::VectorTemplate(VectorTemplate(vec)) => {
                proof {
                    lemma_joined_empty(texts(vec@));
                }
                let mut i: usize = 0;
                while i < vec.len()
                    invariant
                        i <= vec.len(),
                        self@.text() == joined(texts(vec@)),
                        forall|j: int| 0 <= j < i ==> (#[trigger] vec@[j])@.len() == 0,
                    decreases vec.len() - i,
                {
                    if vec[i].as_str().unicode_len() > 0 {
                        proof {
                            lemma_joined_empty(texts(vec@));
                            assert(texts(vec@)[i as int].len() > 0);
                        }
                        return false;
                    }
                    i = i + 1;
                }
                assert forall|j: int| 0 <= j < texts(vec@).len() implies (#[trigger] texts(vec@)[j]).len() == 0 by {
                    assert(texts(vec@)[j] == vec@[j]@);
                }
                true
            },
        }
    }

    pub fn is_empty(&self) -> (r: bool)
        ensures
            r == self@.empty(),
    {
        match self {
            SomeTemplate::StringTemplate(StringTemplate(string)) => string.as_str().unicode_len()
                == 0,
            SomeTemplate::VectorTemplate(VectorTemplate(vec)) => vec.len() == 0,
        }
    }

    /// Adds the text of `template` at the end of this one.
    pub fn append_template(&mut self, template: &SomeTemplate)
        requires
            template@ is Text,
        ensures
            final(self)@ == match old(self)@ {
                TemplateView::Text(t) => TemplateView::Text(t + template@.text()),
                TemplateView::Fragments(f) => TemplateView::Fragments(f.push(template@.text())),
            },
    {
        match template {
            SomeTemplate::StringTemplate(StringTemplate(string)) => {
                self.append(string.as_str());
            },
            SomeTemplate::VectorTemplate(_) => {},
        }
    }
}

/// The working form of one element or fragment while it is compiled.
#[derive(Debug)]
pub struct TemplateInstantiation {
    pub component: bool,
    pub template: SomeTemplate,
    /// The expressions that fill the holes between the template's fragments.
    pub template_values: Vec<Expr>,
    pub declarations: Vec<VarDecl>,
    pub id: Option<Ident>,
    pub tag_name: String,
    pub exprs: Vec<Expr>,
    pub dynamics: Vec<DynamicAttr>,
    pub post_exprs: Vec<Expr>,
    pub is_svg: bool,
    pub is_void: bool,
    pub has_custom_element: bool,
    pub text: bool,
    pub dynamic: bool,
    pub to_be_closed: Option<Vec<String>>,
    pub skip_template: bool,
}

impl TemplateInstantiation {
    /// Whether the attribute names that wait for a closing marker are each
    /// listed once.
    pub open spec fn closers_unique(&self) -> bool {
        match self.to_be_closed {
            Some(v) => forall|i: int, j: int| 0 <= i < j < v@.len() ==> v@[i]@ != v@[j]@,
            None => true,
        }
    }
}

impl Default for TemplateInstantiation {
    fn default() -> (r: Self)
        ensures
            r.template@ == TemplateView::Text(Seq::empty()),
            r.template_values@.len() == 0,
            r.declarations@.len() == 0,
            r.id is None,
            r.tag_name@.len() == 0,
            r.exprs@.len() == 0,
            r.dynamics@.len() == 0,
            r.post_exprs@.len() == 0,
            !r.component && !r.is_svg && !r.is_void && !r.has_custom_element,
            !r.text && !r.dynamic && !r.skip_template,
            r.to_be_closed is None,
            r.closers_unique(),
    {
        TemplateInstantiation {
            component: false,
            template: SomeTemplate::default(),
            template_values: Vec::new(),
            declarations: Vec::new(),
            id: None,
            tag_name: String::new(),
            exprs: Vec::new(),
            dynamics: Vec::new(),
            post_exprs: Vec::new(),
            is_svg: false,
            is_void: false,
            has_custom_element: false,
            text: false,
            dynamic: false,
            to_be_closed: None,
            skip_template: false,
        }
    }
}

/// Which kind of code the compiler produces.
#[derive(Debug)]
pub enum GenerateMode {
    /// Code that builds live DOM nodes.
    Dom,
    /// Code that renders markup strings on the server.
    Ssr,
}

/// The options that a compilation reads and never changes.
#[derive(Debug)]
pub struct Config {
    /// The runtime helper that reruns a closure when what it reads changes.
    pub effect_wrapper: String,
    /// The runtime helper that memoizes an expression; empty turns it off.
    pub memo_wrapper: String,
    pub hydratable: bool,
    pub generate: GenerateMode,
}

/// Options of the element-level server-rendering pass.
#[derive(Debug)]
pub struct ProcessSpreadsInfo {
    pub elem: Option<Ident>,
    pub is_svg: bool,
    pub has_children: bool,
    pub wrap_conditionals: bool,
}

/// The prefix of a generated name: `name` itself if it starts with `_`, else
/// `name` after a `_`.
pub open spec fn uid_name(name: Seq<char>) -> Seq<char> {
    if name.len() > 0 && name[0] == '_' {
        name
    } else {
        seq!['_'] + name
    }
}

/// The suffix of the name that is handed out when `count` names with the same
/// prefix were handed out before: none the first time, then 2, 3, ...
pub open spec fn uid_suffix(count: nat) -> nat {
    if count == 0 {
        0
    } else {
        count + 1
    }
}

/// The name handed out is fixed by the prefix and by how many names with it
/// were handed out before: equal counts give names with equal text and suffix,
/// different counts give different names.
pub proof fn lemma_uid_deterministic(a: Ident, b: Ident, name: Seq<char>, ca: nat, cb: nat)
    requires
        named(a, uid_name(name), uid_suffix(ca)),
        named(b, uid_name(name), uid_suffix(cb)),
    ensures
        ca == cb ==> a.sym@ == b.sym@ && a.suffix == b.suffix,
        ca != cb ==> a.suffix != b.suffix,
{
}

/// The name under which the runtime helper `name` is imported.
pub open spec fn import_name(name: Seq<char>) -> Seq<char> {
    seq!['_', '$'] + name
}

/// The state of one compilation unit: its options, the templates registered
/// so far, the helpers imported so far and the counters of generated names.
pub struct TransformVisitor {
    pub config: Config,
    pub template: Option<TemplateInstantiation>,
    pub templates: Vec<TemplateConstruction>,
    pub imports: Vec<(String, Ident)>,
    pub events: Vec<String>,
    pub uid_identifier_map: Vec<(String, usize)>,
}

impl TransformVisitor {
    /// The counters are kept once per prefix, and each imported helper under
    /// its import name.
    pub open spec fn wf(&self) -> bool {
        &&& forall|i: int, j: int|
            0 <= i < j < self.uid_identifier_map@.len() ==> self.uid_identifier_map@[i].0@
                != self.uid_identifier_map@[j].0@
        &&& forall|i: int|
            0 <= i < self.uid_identifier_map@.len() ==> self.uid_identifier_map@[i].1 >= 1
        &&& forall|i: int|
            0 <= i < self.imports@.len() ==> named(
                self.imports@[i].1,
                import_name(self.imports@[i].0@),
                0,
            )
        &&& forall|i: int, j: int|
            0 <= i < j < self.imports@.len() ==> self.imports@[i].0@ != self.imports@[j].0@
        &&& forall|i: int, j: int|
            0 <= i < j < self.events@.len() ==> self.events@[i]@ != self.events@[j]@
    }

    /// Whether the runtime helper `name` is recorded as imported.
    pub open spec fn has_import(&self, name: Seq<char>) -> bool {
        exists|i: int| 0 <= i < self.imports@.len() && self.imports@[i].0@ == name
    }

    /// How many names with prefix `k` were handed out so far.
    pub open spec fn uid_count(&self, k: Seq<char>) -> nat {
        if exists|i: int| 0 <= i < self.uid_identifier_map@.len() && self.uid_identifier_map@[i].0@ == k {
            self.uid_identifier_map@[choose|i: int|
                0 <= i < self.uid_identifier_map@.len() && self.uid_identifier_map@[i].0@
                    == k].1 as nat
        } else {
            0
        }
    }

    /// Whether the registry holds each template text once, under names
    /// `_tmpl$...` that differ from each other and were all handed out before
    /// the next one.
    pub open spec fn registry_wf(&self) -> bool {
        &&& forall|i: int, j: int|
            0 <= i < j < self.templates@.len() ==> self.templates@[i].template@
                != self.templates@[j].template@
        &&& forall|i: int|
            0 <= i < self.templates@.len() ==> (#[trigger] self.templates@[i]).id.sym@ == uid_name(
                "tmpl$"@,
            ) && self.templates@[i].id.suffix < uid_suffix(self.uid_count(uid_name("tmpl$"@)))
        &&& forall|i: int, j: int|
            0 <= i < j < self.templates@.len() ==> self.templates@[i].id.suffix
                != self.templates@[j].id.suffix
    }

    /// Whether `b` is `a` with at most its name counters changed.
    pub open spec fn same_but_counters(a: &TransformVisitor, b: &TransformVisitor) -> bool {
        &&& b.config == a.config
        &&& b.template == a.template
        &&& b.templates == a.templates
        &&& b.imports == a.imports
        &&& b.events == a.events
    }

    /// Whether `b` is `a` with at most its imports changed.
    pub open spec fn same_but_imports(a: &TransformVisitor, b: &TransformVisitor) -> bool {
        &&& b.config == a.config
        &&& b.template == a.template
        &&& b.templates == a.templates
        &&& b.events == a.events
        &&& forall|k: Seq<char>| b.uid_count(k) == a.uid_count(k)
    }

    pub fn new(config: Config) -> (r: TransformVisitor)
        ensures
            r.wf(),
            r.registry_wf(),
            r.config == config,
            r.template is None,
            r.templates@.len() == 0,
            r.imports@.len() == 0,
            r.events@.len() == 0,
            forall|k: Seq<char>| r.uid_count(k) == 0,
    {
        TransformVisitor {
            config,
            template: None,
            templates: Vec::new(),
            imports: Vec::new(),
            events: Vec::new(),
            uid_identifier_map: Vec::new(),
        }
    }

    /// Hands out a name that no earlier call handed out: the prefix (with a
    /// leading `_`) the first time, then the prefix followed by 2, 3, ...
    pub fn generate_uid_identifier(&mut self, name: &str) -> (r: Ident)
        requires
            old(self).wf(),
            old(self).uid_count(uid_name(name@)) + 1 < usize::MAX,
        ensures
            final(self).wf(),
            named(r, uid_name(name@), uid_suffix(old(self).uid_count(uid_name(name@)))),
            final(self).uid_count(uid_name(name@)) == old(self).uid_count(uid_name(name@)) + 1,
            forall|k: Seq<char>|
                k != uid_name(name@) ==> final(self).uid_count(k) == old(self).uid_count(k),
            TransformVisitor::same_but_counters(old(self), final(self)),
            old(self).registry_wf() ==> final(self).registry_wf(),
    {
        let under = "_";
        proof {
            reveal_strlit("_");
        }
        let key = if has_prefix(name, under) {
            String::from_str(name)
        } else {
            String::from_str(under).concat(name)
        };
        assert(key@ == uid_name(name@)) by {
            if name@.len() > 0 && name@[0] == '_' {
                assert(name@.subrange(0, 1) =~= under@);
            } else if name@.len() > 0 {
                assert(name@.subrange(0, 1)[0] == name@[0]);
            }
        }
        let ghost k = key@;
        let n = self.uid_identifier_map.len();
        let mut i: usize = 0;
        while i < n
            invariant
                self.wf(),
                n == self.uid_identifier_map@.len(),
                i <= n,
                key@ == k,
                k == uid_name(name@),
                old(self).uid_count(k) + 1 < usize::MAX,
                *self == *old(self),
                forall|j: int| 0 <= j < i ==> self.uid_identifier_map@[j].0@ != k,
            decreases n - i,
        {
            if same_text(self.uid_identifier_map[i].0.as_str(), key.as_str()) {
                let ghost old_map = self.uid_identifier_map@;
                proof {
                    assert(self.uid_count(k) == old_map[i as int].1) by {
                        let c = choose|j: int| 0 <= j < old_map.len() && old_map[j].0@ == k;
                        assert(c == i);
                    }
                }
                let count = self.uid_identifier_map[i].1 + 1;
                let stored = self.uid_identifier_map[i].0.clone();
                self.uid_identifier_map.set(i, (stored, count));
                let ghost new_map = self.uid_identifier_map@;
                proof {
                    assert(forall|j: int| 0 <= j < n && j != i ==> new_map[j] == old_map[j]);
                    assert(self.uid_count(k) == count) by {
                        assert(new_map[i as int].0@ == k);
                        let c = choose|j: int| 0 <= j < new_map.len() && new_map[j].0@ == k;
                        assert(c == i);
                    }
                    assert forall|k2: Seq<char>| k2 != k implies self.uid_count(k2)
                        == old(self).uid_count(k2) by {
                        if exists|j: int| 0 <= j < new_map.len() && new_map[j].0@ == k2 {
                            let c = choose|j: int| 0 <= j < new_map.len() && new_map[j].0@ == k2;
                            assert(old_map[c].0@ == k2);
                            let c2 = choose|j: int| 0 <= j < old_map.len() && old_map[j].0@ == k2;
                            assert(c == c2);
                        } else {
                            assert forall|j: int| 0 <= j < old_map.len() implies old_map[j].0@ != k2 by {
                                if j != i {
                                    assert(new_map[j] == old_map[j]);
                                }
                            }
                        }
                    }
                }
                return Ident { sym: key, suffix: count };
            }
            i = i + 1;
        }
        let ghost old_map = self.uid_identifier_map@;
        proof {
            assert(self.uid_count(k) == 0);
        }
        let stored = key.clone();
        self.uid_identifier_map.push((stored, 1));
        let ghost new_map = self.uid_identifier_map@;
        proof {
            assert(self.uid_count(k) == 1) by {
                assert(new_map[n as int].0@ == k);
                let c = choose|j: int| 0 <= j < new_map.len() && new_map[j].0@ == k;
                assert(c == n);
            }
            assert forall|k2: Seq<char>| k2 != k implies self.uid_count(k2) == old(self).uid_count(
                k2,
            ) by {
                if exists|j: int| 0 <= j < new_map.len() && new_map[j].0@ == k2 {
                    let c = choose|j: int| 0 <= j < new_map.len() && new_map[j].0@ == k2;
                    assert(c < n);
                    assert(old_map[c].0@ == k2);
                    let c2 = choose|j: int| 0 <= j < old_map.len() && old_map[j].0@ == k2;
                    assert(c == c2);
                } else {
                    assert forall|j: int| 0 <= j < old_map.len() implies old_map[j].0@ != k2 by {
                        assert(new_map[j] == old_map[j]);
                    }
                }
            }
        }
        Ident { sym: key, suffix: 0 }
    }

    /// The name under which the runtime helper `name` is called; the helper is
    /// recorded as imported, once however often it is asked for.
    pub fn register_import_method(&mut self, name: &str) -> (r: Ident)
        requires
            old(self).wf(),
        ensures
            final(self).wf(),
            named(r, import_name(name@), 0),
            final(self).has_import(name@),
            TransformVisitor::same_but_imports(old(self), final(self)),
            old(self).has_import(name@) ==> final(self).imports == old(self).imports,
            final(self).imports@.len() >= old(self).imports@.len(),
            forall|i: int| 0 <= i < old(self).imports@.len() ==> final(self).imports@[i] == old(self).imports@[i],
            old(self).registry_wf() ==> final(self).registry_wf(),
    {
        let n = self.imports.len();
        let mut i: usize = 0;
        while i < n
            invariant
                self.wf(),
                *self == *old(self),
                n == self.imports@.len(),
                i <= n,
                forall|j: int| 0 <= j < i ==> self.imports@[j].0@ != name@,
            decreases n - i,
        {
            if same_text(self.imports[i].0.as_str(), name) {
                assert(self.has_import(name@));
                return self.imports[i].1.duplicate();
            }
            i = i + 1;
        }
        let marker = "_$";
        proof {
            reveal_strlit("_$");
        }
        assert(marker@ =~= seq!['_', '$']);
        let id = Ident { sym: String::from_str(marker).concat(name), suffix: 0 };
        self.imports.push((String::from_str(name), id.duplicate()));
        assert(self.imports@[n as int].0@ == name@);
        assert(self.uid_identifier_map == old(self).uid_identifier_map);
        id
    }

    /// Lowers a finished subtree in the mode the options select.
    pub fn create_template(&mut self, result: TemplateInstantiation, wrap: bool) -> (r: Expr)
        requires
            old(self).wf(),
            old(self).registry_wf(),
            old(self).config.generate is Dom ==> crate::dom::dom_ready(old(self), &result),
            old(self).config.generate is Ssr ==> crate::ssr::ssr_ready(&result),
        ensures
            final(self).wf(),
            final(self).registry_wf(),
            old(self).config.generate is Ssr ==> r == crate::ssr::ssr_lowered(result),
            old(self).config.generate is Dom && result.id is Some ==> crate::dom::is_dom_lowering(
                r,
                result,
                final(self).templates@,
                old(self).config.effect_wrapper@,
                old(self).uid_count(uid_name("v$"@)),
            ),
            old(self).config.generate is Dom && result.id is None && !(wrap && result.dynamic
                && old(self).config.memo_wrapper@.len() > 0) ==> r == result.exprs@[0],
            old(self).config.generate is Dom && result.id is None && wrap && result.dynamic
                && old(self).config.memo_wrapper@.len() > 0 ==> exists|m: Ident|
                named(m, import_name(old(self).config.memo_wrapper@), 0) && crate::ast::is_call(
                    r,
                    Expr::Ident(m),
                    seq![result.exprs@[0]],
                ),
            final(self).config == old(self).config,
            final(self).events == old(self).events,
    {
        match self.config.generate {
            GenerateMode::Dom => crate::dom::create_template_dom(self, result, wrap),
            GenerateMode::Ssr => self.create_template_ssr(result),
        }
    }

    /// Hoists the registered templates, in the mode the options select, to
    /// the front of `body`.
    pub fn append_templates(&mut self, body: &mut Vec<Stmt>)
        requires
            old(self).wf(),
        ensures
            final(self).wf(),
            final(self).templates@.len() == 0,
            old(self).config.generate is Dom ==> crate::dom::dom_flushed(
                old(self),
                final(self),
                old(body)@,
                final(body)@,
            ),
            old(self).config.generate is Ssr ==> crate::ssr::ssr_flushed(
                old(self),
                final(self),
                old(body)@,
                final(body)@,
            ),
    {
        match self.config.generate {
            GenerateMode::Dom => crate::dom::append_templates_dom(self, body),
            GenerateMode::Ssr => self.append_templates_ssr(body),
        }
    }
}

} // verus!
