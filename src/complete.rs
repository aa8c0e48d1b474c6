//! Completion candidates and the per-request state that collects them.
use vstd::prelude::*;

use crate::model::{Binding, CastInfo, FontFamily, Value, ValueData, ValueFilter, World};
use crate::scope::{bound_names, lemma_texts_push, texts};
use crate::syntax::Source;
use crate::text::{concat3, str_eq, text_less, text_lt, trim_quote_marks, trim_quotes};

verus! {

/// A kind of item that can be completed.
#[derive(Clone, Copy, Debug, PartialEq, Eq, Structural)]
pub enum CompletionKind {
    /// A syntactical structure.
    Syntax,
    /// A function.
    Func,
    /// A function parameter.
    Param,
    /// A constant.
    Constant,
    /// A font family.
    Font,
    /// A symbol.
    Symbol(char),
}

/// An autocompletion option.
#[derive(Clone, Debug)]
pub struct Completion {
    /// The kind of item this completes to.
    pub kind: CompletionKind,
    /// The label the completion is shown with.
    pub label: String,
    /// The completed version of the input, possibly described with snippet
    /// syntax like `${lhs} + ${rhs}`. The label stands in for it where it is
    /// `None`.
    pub apply: Option<String>,
    /// An optional short description, at most one sentence.
    pub detail: Option<String>,
}

/// A completion as text.
pub struct CompletionView {
    pub kind: CompletionKind,
    pub label: Seq<char>,
    pub apply: Option<Seq<char>>,
    pub detail: Option<Seq<char>>,
}

pub open spec fn opt_text(s: Option<String>) -> Option<Seq<char>> {
    match s {
        Some(t) => Some(t@),
        None => None,
    }
}

impl View for Completion {
    type V = CompletionView;

    open spec fn view(&self) -> CompletionView {
        CompletionView {
            kind: self.kind,
            label: self.label@,
            apply: opt_text(self.apply),
            detail: opt_text(self.detail),
        }
    }
}

pub open spec fn views(s: Seq<Completion>) -> Seq<CompletionView> {
    s.map_values(|c: Completion| c@)
}

pub proof fn lemma_views_push(s: Seq<Completion>, c: Completion)
    ensures
        views(s.push(c)) == views(s).push(c@),
{
    assert(views(s.push(c)) =~= views(s).push(c@));
}

/// A snippet: a syntactic completion with its template and description.
pub open spec fn snippet(label: Seq<char>, apply: Seq<char>, docs: Seq<char>) -> CompletionView {
    CompletionView {
        kind: CompletionKind::Syntax,
        label,
        apply: Some(apply),
        detail: Some(docs),
    }
}

/// The completion for a value: labelled with `label`, or else with the
/// value's representation. A quoted label is shown without its quote marks
/// and inserted with them.
pub open spec fn value_view(
    label: Option<Seq<char>>,
    v: Value,
    docs: Option<Seq<char>>,
) -> CompletionView {
    let l = match label {
        Some(l) => l,
        None => v.repr@,
    };
    let quoted = l.len() > 0 && l[0] == '"';
    CompletionView {
        kind: match v.data {
            ValueData::Func(_) => CompletionKind::Func,
            ValueData::Symbol(s) => CompletionKind::Symbol(s.glyph),
            _ => CompletionKind::Constant,
        },
        label: if quoted {
            trim_quotes(l)
        } else {
            l
        },
        apply: if quoted {
            Some(l)
        } else {
            None
        },
        detail: match docs {
            Some(d) => Some(d),
            None => match v.data {
                ValueData::Symbol(_) => None,
                ValueData::Content => None,
                ValueData::Func(f) => match f.info {
                    Some(info) => Some(info.docs@),
                    None => None,
                },
                _ => Some(v.repr@),
            },
        },
    }
}

/// The text that accepting a completion inserts, wrapped in a prefix and a
/// suffix.
pub open spec fn enriched(c: CompletionView, prefix: Seq<char>, suffix: Seq<char>) -> CompletionView {
    let current = match c.apply {
        Some(a) => a,
        None => c.label,
    };
    CompletionView { apply: Some(prefix + current + suffix), ..c }
}

/// The completions for the font families.
pub open spec fn font_views(fonts: Seq<FontFamily>) -> Seq<CompletionView>
    decreases fonts.len(),
{
    if fonts.len() == 0 {
        Seq::empty()
    } else {
        let f = fonts.last();
        font_views(fonts.drop_last()).push(
            CompletionView {
                kind: CompletionKind::Font,
                label: f.name@,
                apply: Some("\""@ + f.name@ + "\""@),
                detail: Some(f.summary@),
            },
        )
    }
}

/// Sorted names with `x` added in its place, where it is not among them yet.
pub open spec fn insert_sorted(acc: Seq<Seq<char>>, x: Seq<char>) -> Seq<Seq<char>>
    decreases acc.len(),
{
    if acc.len() == 0 {
        seq![x]
    } else if acc[0] == x {
        acc
    } else if text_lt(x, acc[0]) {
        seq![x] + acc
    } else {
        seq![acc[0]] + insert_sorted(acc.drop_first(), x)
    }
}

/// The names, each once, in ascending character order.
pub open spec fn sorted_names(s: Seq<Seq<char>>) -> Seq<Seq<char>>
    decreases s.len(),
{
    if s.len() == 0 {
        Seq::empty()
    } else {
        insert_sorted(sorted_names(s.drop_last()), s.last())
    }
}

/// The names, each once, in ascending character order.
pub fn sorted_local_names(raw: &Vec<String>) -> (r: Vec<String>)
    ensures
        texts(r@) == sorted_names(texts(raw@)),
{
    let mut defined: Vec<String> = Vec::new();
    let mut k: usize = 0;
    assert(texts(raw@).take(0) =~= Seq::<Seq<char>>::empty());
    assert(texts(defined@) =~= Seq::<Seq<char>>::empty());
    while k < raw.len()
        invariant
            k <= raw@.len(),
            texts(defined@) == sorted_names(texts(raw@).take(k as int)),
        decreases raw@.len() - k,
    {
        assert(texts(raw@).take(k + 1).drop_last() =~= texts(raw@).take(k as int));
        insert_name(&mut defined, &raw[k]);
        k = k + 1;
    }
    assert(texts(raw@).take(raw@.len() as int) =~= texts(raw@));
    defined
}

/// Adds a name to sorted names, in its place, unless it is there already.
pub fn insert_name(v: &mut Vec<String>, x: &String)
    ensures
        texts(final(v)@) == insert_sorted(texts(old(v)@), x@),
{
    let ghost t = texts(v@);
    let mut i: usize = 0;
    assert(t.take(0) + t.skip(0) =~= t);
    assert(t.skip(0) =~= t);
    while i < v.len()
        invariant
            v@ == old(v)@,
            t == texts(v@),
            i <= v@.len(),
            insert_sorted(t, x@) == t.take(i as int) + insert_sorted(t.skip(i as int), x@),
        decreases v@.len() - i,
    {
        assert(t.skip(i as int)[0] == v@[i as int]@);
        if v[i] == *x {
            assert(t.take(i as int) + t.skip(i as int) =~= t);
            return;
        }
        if text_less(x.as_str(), v[i].as_str()) {
            v.insert(i, x.clone());
            assert(texts(v@) =~= t.take(i as int) + (seq![x@] + t.skip(i as int)));
            return;
        }
        assert(t.skip(i as int).drop_first() =~= t.skip(i + 1));
        assert(t.take(i + 1) =~= t.take(i as int) + seq![t[i as int]]);
        i = i + 1;
    }
    let y = x.clone();
    proof {
        lemma_texts_push(v@, y);
    }
    v.push(y);
    assert(t.skip(i as int) =~= Seq::<Seq<char>>::empty());
    assert(t.take(i as int) =~= t);
    assert(texts(v@) =~= t + seq![x@]);
}

/// A label-only constant completion for each non-empty local name.
pub open spec fn local_views(s: Seq<Seq<char>>) -> Seq<CompletionView>
    decreases s.len(),
{
    if s.len() == 0 {
        Seq::empty()
    } else {
        let rest = local_views(s.drop_last());
        if s.last().len() > 0 {
            rest.push(
                CompletionView {
                    kind: CompletionKind::Constant,
                    label: s.last(),
                    apply: None,
                    detail: None,
                },
            )
        } else {
            rest
        }
    }
}

/// A completion for each binding of the scope that the filter accepts and
/// that no local name shadows.
pub open spec fn builtin_views(
    scope: Seq<Binding>,
    filter: ValueFilter,
    names: Seq<Seq<char>>,
) -> Seq<CompletionView>
    decreases scope.len(),
{
    if scope.len() == 0 {
        Seq::empty()
    } else {
        let rest = builtin_views(scope.drop_last(), filter, names);
        let b = scope.last();
        if filter.spec_accepts(&b.value) && !names.contains(b.name@) {
            rest.push(value_view(Some(b.name@), b.value, None))
        } else {
            rest
        }
    }
}

/// Whether the cursor's leaf sits directly in math.
pub open spec fn in_math(env: Env) -> bool {
    match env.source.spec_parent_kind(env.leaf as int) {
        Some(k) => k.spec_is_math(),
        None => false,
    }
}

/// The builtin scope at the cursor: the math scope in math, else the global
/// one.
pub open spec fn scope_of(env: Env) -> Seq<Binding> {
    if in_math(env) {
        env.world.math@
    } else {
        env.world.global@
    }
}

/// The completions for the definitions available at the cursor.
pub open spec fn scope_views(env: Env, filter: ValueFilter) -> Seq<CompletionView> {
    let names = bound_names(env.source.nodes@, env.leaf as int);
    builtin_views(scope_of(env), filter, names) + local_views(sorted_names(names))
}

/// The completions for a value of a named type: dedicated snippets for
/// `none`, `auto`, `boolean`, `color` and `function`; for another type a
/// placeholder. For `color` and the other types, then the values of the scope
/// of that type.
pub open spec fn type_views(env: Env, t: String) -> Seq<CompletionView> {
    if t@ == "none"@ {
        seq![snippet("none"@, "none"@, "Nothing."@)]
    } else if t@ == "auto"@ {
        seq![snippet("auto"@, "auto"@, "A smart default."@)]
    } else if t@ == "boolean"@ {
        seq![
            snippet("false"@, "false"@, "No / Disabled."@),
            snippet("true"@, "true"@, "Yes / Enabled."@),
        ]
    } else if t@ == "color"@ {
        seq![
            snippet("luma()"@, "luma(${v})"@, "A custom grayscale color."@),
            snippet("rgb()"@, "rgb(${r}, ${g}, ${b}, ${a})"@, "A custom RGBA color."@),
            snippet("cmyk()"@, "cmyk(${c}, ${m}, ${y}, ${k})"@, "A custom CMYK color."@),
        ] + scope_views(env, ValueFilter::TypeName(t))
    } else if t@ == "function"@ {
        seq![snippet("function"@, "(${params}) => ${output}"@, "A custom function."@)]
    } else {
        seq![snippet(t@, "${"@ + t@ + "}"@, "A value of type "@ + t@ + "."@)] + scope_views(
            env,
            ValueFilter::TypeName(t),
        )
    }
}

/// What expanding a constraint adds, given the identities expanded before:
/// the identities after, and the completions. An identity met before adds
/// nothing.
pub open spec fn cast_out(env: Env, seen: Seq<CastKeyView>, cast: CastInfo) -> (
    Seq<CastKeyView>,
    Seq<CompletionView>,
)
    decreases cast, 0int,
{
    match cast {
        CastInfo::Any => (seen, Seq::empty()),
        CastInfo::Value(v, d) => {
            let k = CastKeyView::Value(v.ty@, v.repr@, d@);
            if seen.contains(k) {
                (seen, Seq::empty())
            } else {
                (seen.push(k), seq![value_view(None, v, Some(d@))])
            }
        },
        CastInfo::Type(t) => {
            let k = CastKeyView::Type(t@);
            if seen.contains(k) {
                (seen, Seq::empty())
            } else {
                (seen.push(k), type_views(env, t))
            }
        },
        CastInfo::Union(vs) => union_out(env, seen, vs, vs.len() as int),
    }
}

/// Expanding the first `i` branches of a union, one after another.
pub open spec fn union_out(env: Env, seen: Seq<CastKeyView>, vs: Vec<CastInfo>, i: int) -> (
    Seq<CastKeyView>,
    Seq<CompletionView>,
)
    decreases vs, i,
{
    if i <= 0 || i > vs.len() {
        (seen, Seq::empty())
    } else {
        let (s1, o1) = union_out(env, seen, vs, i - 1);
        let (s2, o2) = cast_out(env, s1, vs[i - 1]);
        (s2, o1 + o2)
    }
}

/// Whether two identities are the same.
fn same_key(a: &CastKey, b: &CastKey) -> (r: bool)
    ensures
        r == (a@ == b@),
{
    match (a, b) {
        (CastKey::Value(a1, a2, a3), CastKey::Value(b1, b2, b3)) => *a1 == *b1 && *a2 == *b2 && *a3
            == *b3,
        (CastKey::Type(x), CastKey::Type(y)) => *x == *y,
        _ => false,
    }
}

/// Whether one of the strings holds the same characters as `s`.
pub fn contains_text(v: &Vec<String>, s: &String) -> (r: bool)
    ensures
        r == texts(v@).contains(s@),
{
    let mut i: usize = 0;
    while i < v.len()
        invariant
            i <= v@.len(),
            forall|k: int| 0 <= k < i ==> (#[trigger] v@[k])@ != s@,
        decreases v@.len() - i,
    {
        if v[i] == *s {
            assert(texts(v@)[i as int] == s@);
            return true;
        }
        i = i + 1;
    }
    assert(!texts(v@).contains(s@)) by {
        if texts(v@).contains(s@) {
            let k = choose|k: int| 0 <= k < texts(v@).len() && texts(v@)[k] == s@;
            assert(v@[k]@ == s@);
        }
    }
    false
}

/// Every completion with its insertion text wrapped in a prefix and a suffix.
pub open spec fn enrich_all(s: Seq<CompletionView>, prefix: Seq<char>, suffix: Seq<char>) -> Seq<
    CompletionView,
> {
    s.map_values(|c: CompletionView| enriched(c, prefix, suffix))
}

/// What a request has collected: where the accepted completion starts, the
/// identities of the constraints expanded, and the completions.
pub struct State {
    pub from: int,
    pub seen: Seq<CastKeyView>,
    pub out: Seq<CompletionView>,
}

impl State {
    pub open spec fn add(self, added: Seq<CompletionView>) -> State {
        State { out: self.out + added, ..self }
    }

    pub open spec fn at(self, from: int) -> State {
        State { from, ..self }
    }

    pub open spec fn enrich(self, prefix: Seq<char>, suffix: Seq<char>) -> State {
        State { out: enrich_all(self.out, prefix, suffix), ..self }
    }

    /// Wraps only the completions from index `start` on.
    pub open spec fn enrich_from(self, start: int, prefix: Seq<char>, suffix: Seq<char>) -> State {
        State {
            out: self.out.take(start) + enrich_all(self.out.skip(start), prefix, suffix),
            ..self
        }
    }

    pub open spec fn cast(self, env: Env, cast: CastInfo) -> State {
        let (seen, added) = cast_out(env, self.seen, cast);
        State { seen, out: self.out + added, ..self }
    }
}

/// What a completion request reads: the world, the document, the leaf at the
/// cursor, the cursor and whether the user asked for completion explicitly.
#[derive(Clone, Copy)]
pub struct Env<'a> {
    pub world: &'a World,
    pub source: &'a Source,
    pub leaf: usize,
    pub cursor: usize,
    pub explicit: bool,
}

/// What identifies a constraint that has been expanded once: a value by its
/// type name, its representation and its description, so that two values
/// equal in those three count as one; a type by its name. A union is not
/// recorded itself: expanding it again adds nothing anyway, since all of its
/// branches are recorded.
pub enum CastKey {
    Value(String, String, String),
    Type(String),
}

pub enum CastKeyView {
    Value(Seq<char>, Seq<char>, Seq<char>),
    Type(Seq<char>),
}

impl View for CastKey {
    type V = CastKeyView;

    open spec fn view(&self) -> CastKeyView {
        match self {
            CastKey::Value(a, b, c) => CastKeyView::Value(a@, b@, c@),
            CastKey::Type(t) => CastKeyView::Type(t@),
        }
    }
}

pub open spec fn key_views(s: Seq<CastKey>) -> Seq<CastKeyView> {
    s.map_values(|k: CastKey| k@)
}

/// Context for autocompletion: what the request reads, where the accepted
/// completion starts, the completions so far and the constraints expanded
/// so far.
pub struct CompletionContext<'a> {
    pub env: Env<'a>,
    pub from: usize,
    pub completions: Vec<Completion>,
    pub seen_casts: Vec<CastKey>,
}

impl<'a> CompletionContext<'a> {
    pub open spec fn env_wf(&self) -> bool {
        &&& self.env.source.wf()
        &&& self.env.source.spec_leaf_at(self.env.cursor as int) == Some(self.env.leaf as int)
        &&& self.env.leaf < self.env.source.nodes@.len()
        &&& self.env.source.nodes@[self.env.leaf as int].reaches(self.env.cursor as int)
        &&& (self.env.source.nodes@[self.env.leaf as int].is_leaf() || self.env.leaf == 0)
    }

    pub open spec fn out(&self) -> Seq<CompletionView> {
        views(self.completions@)
    }

    pub open spec fn seen(&self) -> Seq<CastKeyView> {
        key_views(self.seen_casts@)
    }

    pub open spec fn state(&self) -> State {
        State { from: self.from as int, seen: self.seen(), out: self.out() }
    }

    /// `self` is `old` with `added` after its completions.
    pub open spec fn appended(&self, old: Self, added: Seq<CompletionView>) -> bool {
        &&& self.env == old.env
        &&& self.from == old.from
        &&& self.seen() == old.seen()
        &&& self.out() == old.out() + added
    }

    /// Create a new autocompletion context; none where no node of the tree is
    /// at the cursor, which is outside the document then.
    pub fn new(world: &'a World, source: &'a Source, cursor: usize, explicit: bool) -> (r: Option<
        Self,
    >)
        requires
            source.wf(),
        ensures
            match source.spec_leaf_at(cursor as int) {
                Some(leaf) => r matches Some(ctx) && ctx.env == (Env {
                    world,
                    source,
                    leaf: leaf as usize,
                    cursor,
                    explicit,
                }) && ctx.from == cursor && ctx.out() == Seq::<CompletionView>::empty()
                    && ctx.seen() == Seq::<CastKeyView>::empty() && ctx.env_wf(),
                None => r is None,
            },
    {
        let leaf = match source.leaf_at(cursor) {
            Some(leaf) => leaf,
            None => return None,
        };
        proof {
            crate::syntax::lemma_node_at(source.nodes@, cursor as int);
        }
        let ctx = CompletionContext {
            env: Env { world, source, leaf, cursor, explicit },
            from: cursor,
            completions: Vec::new(),
            seen_casts: Vec::new(),
        };
        assert(ctx.out() =~= Seq::<CompletionView>::empty());
        assert(ctx.seen() =~= Seq::<CastKeyView>::empty());
        Some(ctx)
    }

    /// Add one completion.
    pub fn push(&mut self, c: Completion)
        ensures
            final(self).appended(*old(self), seq![c@]),
    {
        proof {
            lemma_views_push(self.completions@, c);
        }
        self.completions.push(c);
        assert(self.out() =~= old(self).out() + seq![c@]);
    }

    /// Add a prefix and suffix to all applications.
    pub fn enrich(&mut self, prefix: &str, suffix: &str)
        ensures
            final(self).env == old(self).env,
            final(self).from == old(self).from,
            final(self).seen() == old(self).seen(),
            final(self).out() == enrich_all(old(self).out(), prefix@, suffix@),
    {
        self.enrich_from(0, prefix, suffix);
        assert(old(self).out().take(0) + enrich_all(old(self).out().skip(0), prefix@, suffix@)
            =~= enrich_all(old(self).out(), prefix@, suffix@));
    }

    /// Add a prefix and suffix to the applications of the completions from
    /// index `start` on.
    pub fn enrich_from(&mut self, start: usize, prefix: &str, suffix: &str)
        requires
            start <= old(self).out().len(),
        ensures
            final(self).env == old(self).env,
            final(self).from == old(self).from,
            final(self).seen() == old(self).seen(),
            final(self).out() == old(self).out().take(start as int) + enrich_all(
                old(self).out().skip(start as int),
                prefix@,
                suffix@,
            ),
    {
        let mut next: Vec<Completion> = Vec::new();
        let mut i: usize = 0;
        while i < self.completions.len()
            invariant
                i <= self.completions@.len(),
                start <= self.completions@.len(),
                next@.len() == i,
                forall|k: int|
                    0 <= k < i ==> (#[trigger] next@[k])@ == if k < start {
                        self.completions@[k]@
                    } else {
                        enriched(self.completions@[k]@, prefix@, suffix@)
                    },
            decreases self.completions@.len() - i,
        {
            let c = &self.completions[i];
            let detail = match &c.detail {
                Some(d) => Some(d.clone()),
                None => None,
            };
            let apply = if i < start {
                match &c.apply {
                    Some(a) => Some(a.clone()),
                    None => None,
                }
            } else {
                let current = match &c.apply {
                    Some(a) => a.as_str(),
                    None => c.label.as_str(),
                };
                Some(concat3(prefix, current, suffix))
            };
            next.push(Completion { kind: c.kind, label: c.label.clone(), apply, detail });
            i = i + 1;
        }
        self.completions = next;
        assert(self.out() =~= old(self).out().take(start as int) + enrich_all(
            old(self).out().skip(start as int),
            prefix@,
            suffix@,
        ));
    }

    /// Add a snippet completion.
    pub fn snippet_completion(&mut self, label: &str, snippet_text: &str, docs: &str)
        ensures
            final(self).appended(*old(self), seq![snippet(label@, snippet_text@, docs@)]),
    {
        self.push(
            Completion {
                kind: CompletionKind::Syntax,
                label: String::from_str(label),
                apply: Some(String::from_str(snippet_text)),
                detail: Some(String::from_str(docs)),
            },
        );
    }

    /// Add completions for all font families.
    pub fn font_completions(&mut self)
        ensures
            final(self).appended(*old(self), font_views(old(self).env.world.fonts@)),
    {
        let world = self.env.world;
        let fonts = &world.fonts;
        let mut i: usize = 0;
        while i < fonts.len()
            invariant
                fonts == &old(self).env.world.fonts,
                i <= fonts@.len(),
                self.appended(*old(self), font_views(fonts@.take(i as int))),
            decreases fonts@.len() - i,
        {
            let f = &fonts[i];
            proof {
                assert(fonts@.take(i + 1).drop_last() =~= fonts@.take(i as int));
            }
            self.push(
                Completion {
                    kind: CompletionKind::Font,
                    label: f.name.clone(),
                    apply: Some(concat3("\"", f.name.as_str(), "\"")),
                    detail: Some(f.summary.clone()),
                },
            );
            assert(self.out() =~= old(self).out() + font_views(fonts@.take(i + 1)));
            i = i + 1;
        }
        assert(fonts@.take(fonts@.len() as int) =~= fonts@);
    }

    /// Add completions for the definitions that are available at the cursor:
    /// the builtin scope's values that the filter accepts and that no local
    /// name shadows, then each local name once, in ascending order.
    pub fn scope_completions(&mut self, filter: &ValueFilter)
        requires
            old(self).env_wf(),
        ensures
            final(self).appended(*old(self), scope_views(old(self).env, *filter)),
    {
        let source = self.env.source;
        let raw = source.bound_names(self.env.leaf);
        let in_math = match source.parent_kind(self.env.leaf) {
            Some(k) => k.is_math(),
            None => false,
        };
        let world = self.env.world;
        let scope = if in_math {
            &world.math
        } else {
            &world.global
        };
        self.builtin_completions(scope, filter, &raw);
        let defined = sorted_local_names(&raw);
        self.local_completions(&defined);
        assert(self.out() =~= old(self).out() + scope_views(old(self).env, *filter));
    }

    /// Add a completion for each binding of the scope that the filter accepts
    /// and whose name is not among the local names.
    fn builtin_completions(&mut self, scope: &Vec<Binding>, filter: &ValueFilter, names: &Vec<String>)
        ensures
            final(self).appended(*old(self), builtin_views(scope@, *filter, texts(names@))),
    {
        let mut i: usize = 0;
        assert(self.out() =~= old(self).out() + builtin_views(scope@.take(0), *filter, texts(names@)));
        while i < scope.len()
            invariant
                i <= scope@.len(),
                self.appended(*old(self), builtin_views(scope@.take(i as int), *filter, texts(names@))),
            decreases scope@.len() - i,
        {
            let b = &scope[i];
            proof {
                assert(scope@.take(i + 1).drop_last() =~= scope@.take(i as int));
            }
            if filter.accepts(&b.value) && !contains_text(names, &b.name) {
                self.value_completion(Some(b.name.clone()), &b.value, None);
            }
            assert(self.out() =~= old(self).out() + builtin_views(scope@.take(i + 1), *filter, texts(names@)));
            i = i + 1;
        }
        assert(scope@.take(scope@.len() as int) =~= scope@);
    }

    /// Add a label-only constant for each non-empty name.
    fn local_completions(&mut self, names: &Vec<String>)
        ensures
            final(self).appended(*old(self), local_views(texts(names@))),
    {
        let mut m: usize = 0;
        assert(texts(names@).take(0) =~= Seq::<Seq<char>>::empty());
        assert(self.out() =~= old(self).out() + local_views(texts(names@).take(0)));
        while m < names.len()
            invariant
                m <= names@.len(),
                self.appended(*old(self), local_views(texts(names@).take(m as int))),
            decreases names@.len() - m,
        {
            assert(texts(names@).take(m + 1).drop_last() =~= texts(names@).take(m as int));
            if names[m].as_str().unicode_len() > 0 {
                self.push(
                    Completion {
                        kind: CompletionKind::Constant,
                        label: names[m].clone(),
                        apply: None,
                        detail: None,
                    },
                );
            }
            assert(self.out() =~= old(self).out() + local_views(texts(names@).take(m + 1)));
            m = m + 1;
        }
        assert(texts(names@).take(names@.len() as int) =~= texts(names@));
    }

    /// Record an identity as expanded; false where it was already.
    pub fn mark_seen(&mut self, key: CastKey) -> (r: bool)
        ensures
            r == !old(self).seen().contains(key@),
            final(self).seen() == if r {
                old(self).seen().push(key@)
            } else {
                old(self).seen()
            },
            final(self).env == old(self).env,
            final(self).from == old(self).from,
            final(self).out() == old(self).out(),
    {
        let mut i: usize = 0;
        while i < self.seen_casts.len()
            invariant
                i <= self.seen_casts@.len(),
                forall|k: int| 0 <= k < i ==> (#[trigger] self.seen_casts@[k])@ != key@,
            decreases self.seen_casts@.len() - i,
        {
            if same_key(&self.seen_casts[i], &key) {
                assert(self.seen()[i as int] == key@);
                return false;
            }
            i = i + 1;
        }
        assert(!self.seen().contains(key@)) by {
            if self.seen().contains(key@) {
                let k = choose|k: int| 0 <= k < self.seen().len() && self.seen()[k] == key@;
                assert(self.seen_casts@[k]@ == key@);
            }
        }
        self.seen_casts.push(key);
        assert(self.seen() =~= old(self).seen().push(key@));
        true
    }

    /// Add completions for a value of a named type.
    pub fn type_completions(&mut self, t: &String)
        requires
            old(self).env_wf(),
        ensures
            final(self).appended(*old(self), type_views(old(self).env, *t)),
    {
        if str_eq(t.as_str(), "none") {
            self.snippet_completion("none", "none", "Nothing.");
        } else if str_eq(t.as_str(), "auto") {
            self.snippet_completion("auto", "auto", "A smart default.");
        } else if str_eq(t.as_str(), "boolean") {
            self.snippet_completion("false", "false", "No / Disabled.");
            self.snippet_completion("true", "true", "Yes / Enabled.");
            assert(self.out() =~= old(self).out() + type_views(old(self).env, *t));
        } else if str_eq(t.as_str(), "color") {
            self.snippet_completion("luma()", "luma(${v})", "A custom grayscale color.");
            self.snippet_completion("rgb()", "rgb(${r}, ${g}, ${b}, ${a})", "A custom RGBA color.");
            self.snippet_completion(
                "cmyk()",
                "cmyk(${c}, ${m}, ${y}, ${k})",
                "A custom CMYK color.",
            );
            self.scope_completions(&ValueFilter::TypeName(t.clone()));
            assert(self.out() =~= old(self).out() + type_views(old(self).env, *t));
        } else if str_eq(t.as_str(), "function") {
            self.snippet_completion("function", "(${params}) => ${output}", "A custom function.");
        } else {
            self.push(
                Completion {
                    kind: CompletionKind::Syntax,
                    label: t.clone(),
                    apply: Some(concat3("${", t.as_str(), "}")),
                    detail: Some(concat3("A value of type ", t.as_str(), ".")),
                },
            );
            self.scope_completions(&ValueFilter::TypeName(t.clone()));
            assert(self.out() =~= old(self).out() + type_views(old(self).env, *t));
        }
    }

    /// Add completions for a constraint, skipping every part whose identity
    /// was expanded before in this request.
    pub fn cast_completions(&mut self, cast: &CastInfo)
        requires
            old(self).env_wf(),
        ensures
            final(self).env == old(self).env,
            final(self).from == old(self).from,
            final(self).seen() == cast_out(old(self).env, old(self).seen(), *cast).0,
            final(self).out() == old(self).out() + cast_out(
                old(self).env,
                old(self).seen(),
                *cast,
            ).1,
        decreases cast,
    {
        match cast {
            CastInfo::Any => {
                assert(self.out() =~= old(self).out() + Seq::<CompletionView>::empty());
            },
            CastInfo::Value(v, d) => {
                let key = CastKey::Value(v.ty.clone(), v.repr.clone(), d.clone());
                if self.mark_seen(key) {
                    self.value_completion(None, v, Some(d));
                } else {
                    assert(self.out() =~= old(self).out() + Seq::<CompletionView>::empty());
                }
            },
            CastInfo::Type(t) => {
                if self.mark_seen(CastKey::Type(t.clone())) {
                    self.type_completions(t);
                } else {
                    assert(self.out() =~= old(self).out() + Seq::<CompletionView>::empty());
                }
            },
            CastInfo::Union(vs) => {
                let mut i: usize = 0;
                assert(self.out() =~= old(self).out() + Seq::<CompletionView>::empty());
                while i < vs.len()
                    invariant
                        i <= vs@.len(),
                        *cast == CastInfo::Union(*vs),
                        self.env_wf(),
                        self.env == old(self).env,
                        self.from == old(self).from,
                        self.seen() == union_out(old(self).env, old(self).seen(), *vs, i as int).0,
                        self.out() == old(self).out() + union_out(
                            old(self).env,
                            old(self).seen(),
                            *vs,
                            i as int,
                        ).1,
                    decreases vs@.len() - i,
                {
                    proof {
                        assert(decreases_to!(*cast => (*cast)->Union_0));
                        assert(decreases_to!(*vs => vs[i as int]));
                    }
                    self.cast_completions(&vs[i]);
                    assert(self.out() =~= old(self).out() + union_out(
                        old(self).env,
                        old(self).seen(),
                        *vs,
                        i + 1,
                    ).1);
                    i = i + 1;
                }
            },
        }
    }

    /// Add a completion for a specific value.
    pub fn value_completion(&mut self, label: Option<String>, value: &Value, docs: Option<&String>)
        ensures
            final(self).appended(
                *old(self),
                seq![
                    value_view(
                        opt_text(label),
                        *value,
                        match docs {
                            Some(d) => Some(d@),
                            None => None,
                        },
                    ),
                ],
            ),
    {
        let l = match label {
            Some(l) => l,
            None => value.repr.clone(),
        };
        let quoted = crate::text::starts_with_char(l.as_str(), '"');
        let (shown, apply) = if quoted {
            (trim_quote_marks(l.as_str()), Some(l))
        } else {
            (l, None)
        };
        let detail = match docs {
            Some(d) => Some(d.clone()),
            None => match &value.data {
                ValueData::Symbol(_) => None,
                ValueData::Content => None,
                ValueData::Func(f) => match &f.info {
                    Some(info) => Some(info.docs.clone()),
                    None => None,
                },
                _ => Some(value.repr.clone()),
            },
        };
        let kind = match &value.data {
            ValueData::Func(_) => CompletionKind::Func,
            ValueData::Symbol(s) => CompletionKind::Symbol(s.glyph),
            _ => CompletionKind::Constant,
        };
        self.push(Completion { kind, label: shown, apply, detail });
    }
}

} // verus!
