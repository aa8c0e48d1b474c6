//! The completers of each syntactic situation, and the dispatcher that tries
//! them in turn.
use vstd::prelude::*;

use crate::complete::{
    font_views, snippet, views, value_view, Completion, CompletionContext, CompletionKind,
    CompletionView, Env, State,
};
use crate::model::{
    find_binding, find_evaluation, find_methods, find_module, lookup, Binding, FuncInfo, Method,
    ParamInfo, SymbolVariant, Value, ValueData, ValueFilter, World,
};
use crate::scope::{binding_name, lemma_texts_push, texts};
use crate::syntax::{node_text, KindWanted, Source, SyntaxKind, SyntaxNode};
use crate::text::concat2;

verus! {

/// The value that the evaluator gives for the expression at a node.
pub open spec fn eval_at(env: Env, node: int) -> Option<Value> {
    match find_evaluation(env.world.evaluations@, node as usize, 0) {
        Some(k) => Some(env.world.evaluations@[k].value),
        None => None,
    }
}

pub open spec fn kind_at(env: Env, i: int) -> SyntaxKind {
    env.source.nodes@[i].kind
}

pub open spec fn offset_at(env: Env, i: int) -> int {
    env.source.nodes@[i].offset as int
}

pub open spec fn leaf_kind(env: Env) -> SyntaxKind {
    kind_at(env, env.leaf as int)
}

/// The texts of the children of `p` from index `j` on that have kind `k`.
pub open spec fn spec_child_texts(n: Seq<SyntaxNode>, p: int, k: SyntaxKind, j: int) -> Seq<Seq<char>>
    decreases n.len() - j,
{
    if j < 0 || j >= n.len() {
        Seq::empty()
    } else {
        let here = if n[j].parent == Some(p as usize) && n[j].kind == k {
            seq![node_text(n, j)]
        } else {
            Seq::empty()
        };
        here + spec_child_texts(n, p, k, j + 1)
    }
}

/// A completion for each method: a call with a place for the arguments, or
/// a call without arguments.
pub open spec fn method_views(ms: Seq<Method>) -> Seq<CompletionView>
    decreases ms.len(),
{
    if ms.len() == 0 {
        Seq::empty()
    } else {
        let m = ms.last();
        method_views(ms.drop_last()).push(
            CompletionView {
                kind: CompletionKind::Func,
                label: m.name@,
                apply: Some(
                    if m.takes_args {
                        m.name@ + "(${})"@
                    } else {
                        m.name@ + "()${}"@
                    },
                ),
                detail: None,
            },
        )
    }
}

/// A completion for each modifier of a symbol, shown with the glyph that it
/// selects.
pub open spec fn symbol_views(vs: Seq<SymbolVariant>) -> Seq<CompletionView>
    decreases vs.len(),
{
    if vs.len() == 0 {
        Seq::empty()
    } else {
        let v = vs.last();
        symbol_views(vs.drop_last()).push(
            CompletionView {
                kind: CompletionKind::Symbol(v.glyph),
                label: v.modifier@,
                apply: None,
                detail: None,
            },
        )
    }
}

/// A completion for each binding whose name is not among `existing`.
pub open spec fn binding_views(bs: Seq<Binding>, existing: Seq<Seq<char>>) -> Seq<CompletionView>
    decreases bs.len(),
{
    if bs.len() == 0 {
        Seq::empty()
    } else {
        let b = bs.last();
        let rest = binding_views(bs.drop_last(), existing);
        if existing.contains(b.name@) {
            rest
        } else {
            rest.push(value_view(Some(b.name@), b.value, None))
        }
    }
}

/// The completions for the fields of a value: the methods of its type, then
/// a symbol's modifiers, a dictionary's entries or a module's exports.
pub open spec fn field_views(env: Env, v: Value) -> Seq<CompletionView> {
    let methods = match find_methods(env.world.methods@, v.ty@, 0) {
        Some(k) => method_views(env.world.methods@[k].methods@),
        None => Seq::empty(),
    };
    methods + match v.data {
        ValueData::Symbol(s) => symbol_views(s.variants@),
        ValueData::Dict(es) => binding_views(es@, Seq::empty()),
        ValueData::Module(sc) => binding_views(sc@, Seq::empty()),
        _ => Seq::empty(),
    }
}

/// Completing a field access: behind an expression and a dot that ends at
/// the cursor, or behind such a dot and a started identifier.
pub open spec fn field_access_spec(env: Env, st: State) -> Option<State> {
    let leaf = env.leaf as int;
    let n = env.source.nodes@;
    if (leaf_kind(env) == SyntaxKind::Dot || (leaf_kind(env) == SyntaxKind::Text && node_text(
        n,
        leaf,
    ) == "."@)) && n[leaf].end() == env.cursor && env.source.spec_prev_sibling(leaf) is Some
        && kind_at(env, env.source.spec_prev_sibling(leaf)->0).spec_is_expr() && eval_at(
        env,
        env.source.spec_prev_sibling(leaf)->0,
    ) is Some {
        let v = eval_at(env, env.source.spec_prev_sibling(leaf)->0)->0;
        Some(st.at(env.cursor as int).add(field_views(env, v)))
    } else if leaf_kind(env) == SyntaxKind::Ident && env.source.spec_prev_sibling(leaf) is Some
        && kind_at(env, env.source.spec_prev_sibling(leaf)->0) == SyntaxKind::Dot
        && env.source.spec_prev_sibling(env.source.spec_prev_sibling(leaf)->0) is Some && kind_at(
        env,
        env.source.spec_prev_sibling(env.source.spec_prev_sibling(leaf)->0)->0,
    ).spec_is_expr() && eval_at(
        env,
        env.source.spec_prev_sibling(env.source.spec_prev_sibling(leaf)->0)->0,
    ) is Some {
        let v = eval_at(
            env,
            env.source.spec_prev_sibling(env.source.spec_prev_sibling(leaf)->0)->0,
        )->0;
        Some(st.at(offset_at(env, leaf)).add(field_views(env, v)))
    } else {
        None
    }
}

/// The module that an import's source value names: a path that the world
/// resolves, or a module.
pub open spec fn import_scope(env: Env, v: Value) -> Option<Seq<Binding>> {
    match v.data {
        ValueData::Str(path) => match find_module(env.world.modules@, path@, 0) {
            Some(k) => Some(env.world.modules@[k].scope@),
            None => None,
        },
        ValueData::Module(sc) => Some(sc@),
        _ => None,
    }
}

/// The completions for an import list: everything, where the list is empty,
/// then each export that the list does not name yet.
pub open spec fn import_views(env: Env, items: int, v: Value) -> Seq<CompletionView> {
    let existing = spec_child_texts(env.source.nodes@, items, SyntaxKind::Ident, items + 1);
    match import_scope(env, v) {
        Some(sc) => (if existing.len() == 0 {
            seq![snippet("*"@, "*"@, "Import everything."@)]
        } else {
            Seq::empty()
        }) + binding_views(sc, existing),
        None => Seq::empty(),
    }
}

/// The import node's item list and the value of its source, where it has both.
pub open spec fn spec_import_parts(env: Env, import: int) -> Option<(int, Value)> {
    let s = env.source;
    match s.spec_find_child(import, KindWanted::Imports) {
        Some(items) => if kind_at(env, items) == SyntaxKind::ImportItems {
            match s.spec_find_child(import, KindWanted::Expr) {
                Some(src) => match eval_at(env, src) {
                    Some(v) => Some((items, v)),
                    None => None,
                },
                None => None,
            }
        } else {
            None
        },
        None => None,
    }
}

/// Completing an import list: behind the list, or in a started identifier
/// inside it.
pub open spec fn imports_spec(env: Env, st: State) -> Option<State> {
    let leaf = env.leaf as int;
    let s = env.source;
    let n = s.nodes@;
    if s.spec_prev_sibling(leaf) is Some && kind_at(env, s.spec_prev_sibling(leaf)->0)
        == SyntaxKind::ModuleImport && spec_import_parts(env, s.spec_prev_sibling(leaf)->0) is Some {
        let (items, v) = spec_import_parts(env, s.spec_prev_sibling(leaf)->0)->0;
        Some(st.at(env.cursor as int).add(import_views(env, items, v)))
    } else if leaf_kind(env) == SyntaxKind::Ident && n[leaf].parent is Some && kind_at(
        env,
        n[leaf].parent->0 as int,
    ) == SyntaxKind::ImportItems && n[n[leaf].parent->0 as int].parent is Some && kind_at(
        env,
        n[n[leaf].parent->0 as int].parent->0 as int,
    ) == SyntaxKind::ModuleImport && spec_import_parts(
        env,
        n[n[leaf].parent->0 as int].parent->0 as int,
    ) is Some {
        let (items, v) = spec_import_parts(env, n[n[leaf].parent->0 as int].parent->0 as int)->0;
        Some(st.at(offset_at(env, leaf)).add(import_views(env, items, v)))
    } else {
        None
    }
}

/// The snippets for a show rule's selector.
pub open spec fn selector_snippets() -> Seq<CompletionView> {
    seq![
        snippet("text selector"@, "\"${text}\": ${}"@, "Replace occurances of specific text."@),
        snippet(
            "regex selector"@,
            "regex(\"${regex}\"): ${}"@,
            "Replace matches of a regular expression."@,
        ),
    ]
}

/// The snippets for a show rule's recipe.
pub open spec fn recipe_snippets() -> Seq<CompletionView> {
    seq![
        snippet("replacement"@, "[${content}]"@, "Replace the selected element with content."@),
        snippet(
            "replacement (string)"@,
            "\"${text}\""@,
            "Replace the selected element with a string of text."@,
        ),
        snippet(
            "transformation"@,
            "element => [${content}]"@,
            "Transform the element with a function."@,
        ),
    ]
}

/// Completing a set or show rule, on trivia behind `set`, behind `show`, or
/// behind a show rule's colon.
pub open spec fn rules_spec(env: Env, st: State) -> Option<State> {
    let leaf = env.leaf as int;
    let s = env.source;
    if !leaf_kind(env).spec_is_trivia() || s.spec_prev_leaf(leaf) is None {
        None
    } else {
        let prev = s.spec_prev_leaf(leaf)->0;
        let st1 = st.at(env.cursor as int);
        if kind_at(env, prev) == SyntaxKind::SetKeyword {
            Some(st1.add(crate::complete::scope_views(env, ValueFilter::Settable)))
        } else if kind_at(env, prev) == SyntaxKind::ShowKeyword {
            Some(
                st1.add(crate::complete::scope_views(env, ValueFilter::Selectable)).enrich(
                    ""@,
                    ": "@,
                ).add(selector_snippets()),
            )
        } else if kind_at(env, prev) == SyntaxKind::Colon && s.spec_parent_kind(prev) == Some(
            SyntaxKind::ShowRule,
        ) {
            Some(
                st1.add(recipe_snippets()).add(
                    crate::complete::scope_views(env, ValueFilter::Func),
                ),
            )
        } else {
            None
        }
    }
}

/// The character just before the cursor, inside the node at the cursor, is
/// `c`.
pub open spec fn char_before_is(env: Env, c: char) -> bool {
    env.source.spec_char_before_is(env.leaf as int, env.cursor as int, c)
}

/// What is known of the global function with the given name.
pub open spec fn callee_info(env: Env, name: Seq<char>) -> Option<FuncInfo> {
    match find_binding(env.world.global@, name, 0) {
        Some(k) => match env.world.global@[k].value.data {
            ValueData::Func(f) => f.info,
            _ => None,
        },
        None => None,
    }
}

/// The first parameter at or after index `i` with the given name.
pub open spec fn find_param(ps: Seq<ParamInfo>, name: Seq<char>, i: int) -> Option<int>
    decreases ps.len() - i,
{
    if i < 0 || i >= ps.len() {
        None
    } else if ps[i].name@ == name {
        Some(i)
    } else {
        find_param(ps, name, i + 1)
    }
}

/// The completion for a parameter passed by name.
pub open spec fn param_view(p: ParamInfo) -> CompletionView {
    CompletionView {
        kind: CompletionKind::Param,
        label: p.name@,
        apply: Some(p.name@ + ": ${}"@),
        detail: Some(p.docs@),
    }
}

/// The completions for the parameters, one after another: each that is not
/// excluded (and, in a set rule, settable) gets its name where it is named,
/// and the expansion of what it accepts where it is positional.
pub open spec fn params_state(
    env: Env,
    st: State,
    ps: Seq<ParamInfo>,
    exclude: Seq<Seq<char>>,
    set: bool,
) -> State
    decreases ps.len(),
{
    if ps.len() == 0 {
        st
    } else {
        let s1 = params_state(env, st, ps.drop_last(), exclude, set);
        let p = ps.last();
        if exclude.contains(p.name@) || (set && !p.settable) {
            s1
        } else {
            let s2 = if p.named {
                s1.add(seq![param_view(p)])
            } else {
                s1
            };
            if p.positional {
                s2.cast(env, p.cast)
            } else {
                s2
            }
        }
    }
}

/// The completions for the parameters of a function: the font families first
/// for `text`; a space before each new insertion where a comma precedes the
/// cursor.
pub open spec fn param_completions_spec(
    env: Env,
    st: State,
    callee: Seq<char>,
    set: bool,
    exclude: Seq<Seq<char>>,
) -> State {
    match callee_info(env, callee) {
        Some(info) => {
            let s1 = if callee == "text"@ {
                st.add(font_views(env.world.fonts@))
            } else {
                st
            };
            let s2 = params_state(env, s1, info.params@, exclude, set);
            if char_before_is(env, ',') {
                s2.enrich_from(st.out.len() as int, " "@, ""@)
            } else {
                s2
            }
        },
        None => st,
    }
}

/// The completions for the value of a named parameter: the expansion of what
/// it accepts; a space before each new insertion where a colon precedes the
/// cursor.
pub open spec fn named_value_spec(env: Env, st: State, callee: Seq<char>, name: Seq<char>) -> State {
    match callee_info(env, callee) {
        Some(info) => match find_param(info.params@, name, 0) {
            Some(k) => if info.params@[k].named {
                let s1 = st.cast(env, info.params@[k].cast);
                if char_before_is(env, ':') {
                    s1.enrich_from(st.out.len() as int, " "@, ""@)
                } else {
                    s1
                }
            } else {
                st
            },
            None => st,
        },
        None => st,
    }
}

/// The names of the named arguments among the children of `a` from index
/// `j` on.
pub open spec fn named_args(n: Seq<SyntaxNode>, a: int, j: int) -> Seq<Seq<char>>
    decreases n.len() - j,
{
    if j < 0 || j >= n.len() {
        Seq::empty()
    } else {
        let here = if n[j].parent == Some(a as usize) && n[j].kind == SyntaxKind::Named {
            seq![binding_name(n, j)]
        } else {
            Seq::empty()
        };
        here + named_args(n, a, j + 1)
    }
}

/// The argument list around the cursor's leaf (directly, or through a named
/// argument).
pub open spec fn args_node(env: Env) -> Option<int> {
    let n = env.source.nodes@;
    match n[env.leaf as int].parent {
        Some(outer) => {
            let p = if kind_at(env, outer as int) == SyntaxKind::Named {
                n[outer as int].parent
            } else {
                Some(outer)
            };
            match p {
                Some(a) => if kind_at(env, a as int) == SyntaxKind::Args {
                    Some(a as int)
                } else {
                    None
                },
                None => None,
            }
        },
        None => None,
    }
}

/// The argument list, the callee identifier and whether it is a set rule,
/// where the cursor is in the arguments of a call or set rule whose callee is
/// an identifier.
pub open spec fn call_parts(env: Env) -> Option<(int, int, bool)> {
    let n = env.source.nodes@;
    match args_node(env) {
        Some(a) => match n[a].parent {
            Some(g) => if kind_at(env, g as int) == SyntaxKind::FuncCall || kind_at(env, g as int)
                == SyntaxKind::SetRule {
                match env.source.spec_find_child(g as int, KindWanted::Expr) {
                    Some(c) => if kind_at(env, c) == SyntaxKind::Ident {
                        Some((a, c, kind_at(env, g as int) == SyntaxKind::SetRule))
                    } else {
                        None
                    },
                    None => None,
                }
            } else {
                None
            },
            None => None,
        },
        None => None,
    }
}

/// The identifier before a parameter's colon, where the cursor sits on or
/// behind that colon.
pub open spec fn before_colon(env: Env) -> Option<int> {
    let s = env.source;
    match s.spec_prev_leaf(env.leaf as int) {
        Some(prev) => if leaf_kind(env) == SyntaxKind::Colon {
            Some(prev)
        } else if kind_at(env, prev) == SyntaxKind::Colon {
            s.spec_prev_leaf(prev)
        } else {
            None
        },
        None => None,
    }
}

/// The leaf that decides whether a parameter name is wanted: the one before
/// trivia, else the cursor's leaf.
pub open spec fn deciding(env: Env) -> Option<int> {
    if leaf_kind(env).spec_is_trivia() {
        env.source.spec_prev_leaf(env.leaf as int)
    } else {
        Some(env.leaf as int)
    }
}

/// Completing the parameters of a call or set rule: a parameter's value
/// behind its colon, or a parameter's name after the opening parenthesis, a
/// comma or in a started identifier.
pub open spec fn params_spec(env: Env, st: State) -> Option<State> {
    let n = env.source.nodes@;
    match call_parts(env) {
        Some((a, c, set)) => {
            let callee = node_text(n, c);
            if before_colon(env) is Some && kind_at(env, before_colon(env)->0) == SyntaxKind::Ident {
                let from = if leaf_kind(env) == SyntaxKind::Colon || leaf_kind(env)
                    == SyntaxKind::Space {
                    env.cursor as int
                } else {
                    offset_at(env, env.leaf as int)
                };
                Some(named_value_spec(env, st.at(from), callee, node_text(n, before_colon(env)->0)))
            } else if deciding(env) is Some && (kind_at(env, deciding(env)->0)
                == SyntaxKind::LeftParen || kind_at(env, deciding(env)->0) == SyntaxKind::Comma
                || kind_at(env, deciding(env)->0) == SyntaxKind::Ident) {
                let d = deciding(env)->0;
                let from = if kind_at(env, d) == SyntaxKind::Ident {
                    offset_at(env, d)
                } else {
                    env.cursor as int
                };
                Some(param_completions_spec(env, st.at(from), callee, set, named_args(n, a, a + 1)))
            } else {
                None
            }
        },
        None => None,
    }
}

/// What is known of the global function with the given name.
fn get_callee_info<'a>(env: Env<'a>, name: &String) -> (r: Option<&'a FuncInfo>)
    ensures
        match callee_info(env, name@) {
            Some(info) => r == Some(&info),
            None => r is None,
        },
{
    let global = &env.world.global;
    match lookup(global, name) {
        Some(k) => match &global[k].value.data {
            ValueData::Func(f) => match &f.info {
                Some(info) => Some(info),
                None => None,
            },
            _ => None,
        },
        None => None,
    }
}

/// Add completions for the parameters of a function.
pub fn param_completions(ctx: &mut CompletionContext, callee: &String, set: bool, exclude: &Vec<String>)
    requires
        old(ctx).env_wf(),
    ensures
        final(ctx).env == old(ctx).env,
        final(ctx).state() == param_completions_spec(old(ctx).env, old(ctx).state(), callee@, set, texts(exclude@)),
{
    let env = ctx.env;
    let info = match get_callee_info(env, callee) {
        Some(info) => info,
        None => return,
    };
    let start = ctx.completions.len();
    if crate::text::str_eq(callee.as_str(), "text") {
        ctx.font_completions();
    }
    let ghost s1 = ctx.state();
    let ps = &info.params;
    let mut i: usize = 0;
    assert(ps@.take(0) =~= Seq::<ParamInfo>::empty());
    while i < ps.len()
        invariant
            i <= ps@.len(),
            ctx.env == env,
            ctx.env_wf(),
            start <= ctx.out().len(),
            start == old(ctx).out().len(),
            ctx.state() == params_state(env, s1, ps@.take(i as int), texts(exclude@), set),
        decreases ps@.len() - i,
    {
        let p = &ps[i];
        proof {
            assert(ps@.take(i + 1).drop_last() =~= ps@.take(i as int));
        }
        if !crate::complete::contains_text(exclude, &p.name) && !(set && !p.settable) {
            if p.named {
                ctx.push(
                    Completion {
                        kind: CompletionKind::Param,
                        label: p.name.clone(),
                        apply: Some(concat2(p.name.as_str(), ": ${}")),
                        detail: Some(p.docs.clone()),
                    },
                );
            }
            if p.positional {
                ctx.cast_completions(&p.cast);
            }
        }
        i = i + 1;
    }
    assert(ps@.take(ps@.len() as int) =~= ps@);
    if ctx.env.source.char_before_is(ctx.env.leaf, ctx.env.cursor, ',') {
        ctx.enrich_from(start, " ", "");
    }
}

/// The first parameter with the given name.
fn param_index(ps: &Vec<ParamInfo>, name: &String) -> (r: Option<usize>)
    ensures
        r matches Some(j) ==> find_param(ps@, name@, 0) == Some(j as int) && j < ps@.len(),
        r is None ==> find_param(ps@, name@, 0) is None,
{
    let mut i: usize = 0;
    while i < ps.len()
        invariant
            i <= ps@.len(),
            find_param(ps@, name@, 0) == find_param(ps@, name@, i as int),
        decreases ps@.len() - i,
    {
        if ps[i].name == *name {
            return Some(i);
        }
        i = i + 1;
    }
    None
}

/// Add completions for the values of a named function parameter.
pub fn named_param_value_completions(ctx: &mut CompletionContext, callee: &String, name: &String)
    requires
        old(ctx).env_wf(),
    ensures
        final(ctx).env == old(ctx).env,
        final(ctx).state() == named_value_spec(old(ctx).env, old(ctx).state(), callee@, name@),
{
    let env = ctx.env;
    let info = match get_callee_info(env, callee) {
        Some(info) => info,
        None => return,
    };
    let k = match param_index(&info.params, name) {
        Some(k) => k,
        None => return,
    };
    let param = &info.params[k];
    if !param.named {
        return;
    }
    let start = ctx.completions.len();
    ctx.cast_completions(&param.cast);
    if ctx.env.source.char_before_is(ctx.env.leaf, ctx.env.cursor, ':') {
        ctx.enrich_from(start, " ", "");
    }
}

/// The names of the named arguments of an argument list.
fn collect_named_args(source: &Source, a: usize) -> (r: Vec<String>)
    requires
        a < source.nodes@.len(),
    ensures
        texts(r@) == named_args(source.nodes@, a as int, a + 1),
{
    let ghost n = source.nodes@;
    let mut out: Vec<String> = Vec::new();
    let count = source.nodes.len();
    let mut j: usize = a + 1;
    assert(texts(out@) + named_args(n, a as int, j as int) =~= named_args(n, a as int, a + 1));
    while j < count
        invariant
            n == source.nodes@,
            count == n.len(),
            a < j <= count,
            texts(out@) + named_args(n, a as int, j as int) == named_args(n, a as int, a + 1),
        decreases count - j,
    {
        let node = &source.nodes[j];
        let ghost before = out@;
        let is_child = match node.parent {
            Some(q) => q == a,
            None => false,
        };
        if is_child && node.kind == SyntaxKind::Named {
            let t = source.binding_name(j);
            proof {
                lemma_texts_push(out@, t);
            }
            out.push(t);
            assert(texts(out@) + named_args(n, a as int, j + 1) =~= texts(before) + named_args(n, a as int, j as int));
        } else {
            assert(named_args(n, a as int, j as int) =~= named_args(n, a as int, j + 1));
        }
        j = j + 1;
    }
    assert(named_args(n, a as int, j as int) =~= Seq::<Seq<char>>::empty());
    assert(texts(out@) =~= texts(out@) + named_args(n, a as int, j as int));
    out
}

/// The argument list, the callee identifier and whether it is a set rule.
fn locate_call(env: Env) -> (r: Option<(usize, usize, bool)>)
    requires
        env.source.wf(),
        env.leaf < env.source.nodes@.len(),
    ensures
        r matches Some((a, c, set)) ==> call_parts(env) == Some((a as int, c as int, set)) && a
            < env.source.nodes@.len() && c < env.source.nodes@.len(),
        r is None ==> call_parts(env) is None,
{
    let source = env.source;
    let outer = match source.parent(env.leaf) {
        Some(outer) => outer,
        None => return None,
    };
    let a = if source.kind(outer) == SyntaxKind::Named {
        match source.parent(outer) {
            Some(a) => a,
            None => return None,
        }
    } else {
        outer
    };
    if source.kind(a) != SyntaxKind::Args {
        return None;
    }
    let g = match source.parent(a) {
        Some(g) => g,
        None => return None,
    };
    let gk = source.kind(g);
    if gk != SyntaxKind::FuncCall && gk != SyntaxKind::SetRule {
        return None;
    }
    let c = match source.find_child(g, KindWanted::Expr) {
        Some(c) => c,
        None => return None,
    };
    if source.kind(c) != SyntaxKind::Ident {
        return None;
    }
    Some((a, c, gk == SyntaxKind::SetRule))
}

/// Complete call and set rule parameters.
pub fn complete_params(ctx: &mut CompletionContext) -> (r: bool)
    requires
        old(ctx).env_wf(),
    ensures
        final(ctx).env == old(ctx).env,
        match params_spec(old(ctx).env, old(ctx).state()) {
            Some(st) => r && final(ctx).state() == st,
            None => !r && final(ctx).state() == old(ctx).state(),
        },
{
    let env = ctx.env;
    let source = env.source;
    let leaf = env.leaf;
    // Ensure that we are in a function call or set rule's argument list.
    let (a, c, set) = match locate_call(env) {
        Some(parts) => parts,
        None => return false,
    };
    let callee = source.text(c);
    let kind = source.kind(leaf);
    // Parameter values: "func(param:|)", "func(param: |)".
    let before = match source.prev_leaf(leaf) {
        Some(prev) => if kind == SyntaxKind::Colon {
            Some(prev)
        } else if source.kind(prev) == SyntaxKind::Colon {
            source.prev_leaf(prev)
        } else {
            None
        },
        None => None,
    };
    if let Some(b) = before {
        if source.kind(b) == SyntaxKind::Ident {
            ctx.from = if kind == SyntaxKind::Colon || kind == SyntaxKind::Space {
                env.cursor
            } else {
                source.nodes[leaf].offset
            };
            named_param_value_completions(ctx, &callee, &source.text(b));
            return true;
        }
    }
    // Parameters: "func(|)", "func(hi|)", "func(12,|)".
    let decider = if kind.is_trivia() {
        source.prev_leaf(leaf)
    } else {
        Some(leaf)
    };
    if let Some(d) = decider {
        let dk = source.kind(d);
        if dk == SyntaxKind::LeftParen || dk == SyntaxKind::Comma || dk == SyntaxKind::Ident {
            ctx.from = if dk == SyntaxKind::Ident {
                source.nodes[d].offset
            } else {
                env.cursor
            };
            // Exclude arguments which are already present.
            let exclude = collect_named_args(source, a);
            param_completions(ctx, &callee, set, &exclude);
            return true;
        }
    }
    false
}

/// The snippets of markup syntax.
pub open spec fn markup_snippets() -> Seq<CompletionView> {
    seq![
        snippet("expression"@, "#${}"@, "Variables, function calls, blocks, and more."@),
        snippet("linebreak"@, "\\\n${}"@, "Inserts a forced linebreak."@),
        snippet("strong text"@, "*${strong}*"@, "Strongly emphasizes content by increasing the font weight."@),
        snippet("emphasized text"@, "_${emphasized}_"@, "Emphasizes content by setting it in italic font style."@),
        snippet("raw text"@, "`${text}`"@, "Displays text verbatim, in monospace."@),
        snippet("code listing"@, "```${lang}\n${code}\n```"@, "Inserts computer code with syntax highlighting."@),
        snippet("hyperlink"@, "https://${example.com}"@, "Links to a URL."@),
        snippet("label"@, "<${name}>"@, "Makes the preceding element referencable."@),
        snippet("reference"@, "@${name}"@, "Inserts a reference to a label."@),
        snippet("heading"@, "= ${title}"@, "Inserts a section heading."@),
        snippet("list item"@, "- ${item}"@, "Inserts an item of a bullet list."@),
        snippet("enumeration item"@, "+ ${item}"@, "Inserts an item of a numbered list."@),
        snippet("enumeration item (numbered)"@, "${number}. ${item}"@, "Inserts an explicitly numbered list item."@),
        snippet("term list item"@, "/ ${term}: ${description}"@, "Inserts an item of a term list."@),
        snippet("math (inline)"@, "$${x}$"@, "Inserts an inline-level mathematical formula."@),
        snippet("math (block)"@, "$ ${sum_x^2} $"@, "Inserts a block-level mathematical formula."@),
    ]
}

/// The snippets of math syntax.
pub open spec fn math_snippets() -> Seq<CompletionView> {
    seq![
        snippet("subscript"@, "${x}_${2:2}"@, "Sets something in subscript."@),
        snippet("superscript"@, "${x}^${2:2}"@, "Sets something in superscript."@),
        snippet("fraction"@, "${x}/${y}"@, "Inserts a fraction."@),
    ]
}

/// The snippets of statements and expressions.
pub open spec fn code_snippets() -> Seq<CompletionView> {
    seq![
        snippet("function call"@, "${function}(${arguments})[${body}]"@, "Evaluates a function."@),
        snippet("code block"@, "{ ${} }"@, "Inserts a nested code block."@),
        snippet("content block"@, "[${content}]"@, "Switches into markup mode."@),
        snippet("set rule"@, "set ${}"@, "Sets style properties on an element."@),
        snippet("show rule"@, "show ${}"@, "Redefines the look of an element."@),
        snippet("let binding"@, "let ${name} = ${value}"@, "Saves a value in a variable."@),
        snippet("let binding (function)"@, "let ${name}(${params}) = ${output}"@, "Defines a function."@),
        snippet("if conditional"@, "if ${1 < 2} {\n\t${}\n}"@, "Computes or inserts something conditionally."@),
        snippet("if-else conditional"@, "if ${1 < 2} {\n\t${}\n} else {\n\t${}\n}"@, "Computes or inserts different things based on a condition."@),
        snippet("while loop"@, "while ${1 < 2} {\n\t${}\n}"@, "Computes or inserts somthing while a condition is met."@),
        snippet("for loop"@, "for ${value} in ${(1, 2, 3)} {\n\t${}\n}"@, "Computes or inserts somthing for each value in a collection."@),
        snippet("for loop (with key)"@, "for ${key}, ${value} in ${(a: 1, b: 2)} {\n\t${}\n}"@, "Computes or inserts somthing for each key and value in a collection."@),
        snippet("break"@, "break"@, "Exits early from a loop."@),
        snippet("continue"@, "continue"@, "Continues with the next iteration of a loop."@),
        snippet("return"@, "return ${output}"@, "Returns early from a function."@),
        snippet("import"@, "import \"${file.typ}\": ${items}"@, "Imports variables from another file."@),
        snippet("include"@, "include \"${file.typ}\""@, "Includes content from another file."@),
        snippet("array"@, "(${1, 2, 3})"@, "Creates a sequence of values."@),
        snippet("dictionary"@, "(${a: 1, b: 2})"@, "Creates a mapping from names to value."@),
    ]
}

/// The snippet of an unnamed function.
pub open spec fn function_snippet() -> CompletionView {
    snippet("function"@, "(${params}) => ${output}"@, "Creates an unnamed function."@)
}

/// The completions in code: the scope's definitions (behind an inline-code
/// escape only symbols, functions and modules), the code snippets, and,
/// except behind an escape, the unnamed function.
pub open spec fn code_views(env: Env, hashtag: bool) -> Seq<CompletionView> {
    crate::complete::scope_views(
        env,
        if hashtag {
            ValueFilter::Interpolable
        } else {
            ValueFilter::All
        },
    ) + code_snippets() + if hashtag {
        Seq::empty()
    } else {
        seq![function_snippet()]
    }
}

/// The completions in math: the scope's definitions, then the math snippets.
pub open spec fn math_views(env: Env) -> Seq<CompletionView> {
    crate::complete::scope_views(env, ValueFilter::All) + math_snippets()
}

/// Completing in markup: behind an inline-code escape, in a started
/// identifier, behind a binding's `=`, or anywhere when asked explicitly.
pub open spec fn markup_spec(env: Env, st: State) -> Option<State> {
    let leaf = env.leaf as int;
    let s = env.source;
    let pk = s.spec_parent_kind(leaf);
    if !(pk is None || pk == Some(SyntaxKind::Markup)) {
        None
    } else if leaf_kind(env) == SyntaxKind::Hashtag {
        Some(st.at(env.cursor as int).add(code_views(env, true)))
    } else if leaf_kind(env) == SyntaxKind::Ident {
        Some(st.at(offset_at(env, leaf)).add(code_views(env, true)))
    } else if s.spec_prev_leaf(leaf) is Some && kind_at(env, s.spec_prev_leaf(leaf)->0)
        == SyntaxKind::Eq && s.spec_parent_kind(s.spec_prev_leaf(leaf)->0) == Some(
        SyntaxKind::LetBinding,
    ) {
        Some(st.at(env.cursor as int).add(code_views(env, false)))
    } else if env.explicit {
        Some(st.at(env.cursor as int).add(markup_snippets()))
    } else {
        None
    }
}

/// Completing in math: behind an inline-code escape, behind an atom or
/// identifier, or anywhere when asked explicitly.
pub open spec fn math_spec(env: Env, st: State) -> Option<State> {
    let leaf = env.leaf as int;
    let pk = env.source.spec_parent_kind(leaf);
    if !(pk is Some && pk->0.spec_is_math()) {
        None
    } else if leaf_kind(env) == SyntaxKind::Hashtag {
        Some(st.at(env.cursor as int).add(code_views(env, true)))
    } else if leaf_kind(env) == SyntaxKind::Text || leaf_kind(env) == SyntaxKind::MathIdent {
        Some(st.at(offset_at(env, leaf)).add(math_views(env)))
    } else if env.explicit {
        Some(st.at(env.cursor as int).add(math_views(env)))
    } else {
        None
    }
}

/// Completing in code, outside markup and math: in a started identifier, or,
/// when asked explicitly, on trivia or behind an opening parenthesis or
/// brace.
pub open spec fn code_spec(env: Env, st: State) -> Option<State> {
    let leaf = env.leaf as int;
    let pk = env.source.spec_parent_kind(leaf);
    if pk is None || pk == Some(SyntaxKind::Markup) || pk->0.spec_is_math() {
        None
    } else if leaf_kind(env) == SyntaxKind::Ident {
        Some(st.at(offset_at(env, leaf)).add(code_views(env, false)))
    } else if env.explicit && (leaf_kind(env).spec_is_trivia() || leaf_kind(env)
        == SyntaxKind::LeftParen || leaf_kind(env) == SyntaxKind::LeftBrace) {
        Some(st.at(env.cursor as int).add(code_views(env, false)))
    } else {
        None
    }
}

/// What each completer makes of the request, in the order the dispatcher
/// tries them.
pub open spec fn mode_spec(m: int, env: Env, st: State) -> Option<State> {
    if m == 0 {
        field_access_spec(env, st)
    } else if m == 1 {
        imports_spec(env, st)
    } else if m == 2 {
        rules_spec(env, st)
    } else if m == 3 {
        params_spec(env, st)
    } else if m == 4 {
        markup_spec(env, st)
    } else if m == 5 {
        math_spec(env, st)
    } else if m == 6 {
        code_spec(env, st)
    } else {
        None
    }
}

/// The first completer from the `m`-th on that claims the request decides
/// it; where none does, nothing changes.
pub open spec fn dispatch_from(m: int, env: Env, st: State) -> State
    decreases 7 - m,
{
    if m >= 7 || m < 0 {
        st
    } else {
        match mode_spec(m, env, st) {
            Some(s) => s,
            None => dispatch_from(m + 1, env, st),
        }
    }
}

pub open spec fn dispatch(env: Env, st: State) -> State {
    dispatch_from(0, env, st)
}

/// Complete in markup mode.
pub fn complete_markup(ctx: &mut CompletionContext) -> (r: bool)
    requires
        old(ctx).env_wf(),
    ensures
        final(ctx).env == old(ctx).env,
        match markup_spec(old(ctx).env, old(ctx).state()) {
            Some(st) => r && final(ctx).state() == st,
            None => !r && final(ctx).state() == old(ctx).state(),
        },
{
    let source = ctx.env.source;
    let leaf = ctx.env.leaf;
    let kind = source.kind(leaf);
    // Bail if we aren't even in markup.
    match source.parent_kind(leaf) {
        None | Some(SyntaxKind::Markup) => {},
        _ => return false,
    }
    // Start of an interpolated identifier: "#|".
    if kind == SyntaxKind::Hashtag {
        ctx.from = ctx.env.cursor;
        code_completions(ctx, true);
        return true;
    }
    // An existing identifier: "#pa|".
    if kind == SyntaxKind::Ident {
        ctx.from = source.nodes[leaf].offset;
        code_completions(ctx, true);
        return true;
    }
    // Behind a half-completed binding: "#let x = |".
    if let Some(prev) = source.prev_leaf(leaf) {
        if source.kind(prev) == SyntaxKind::Eq && source.parent_kind(prev) == Some(
            SyntaxKind::LetBinding,
        ) {
            ctx.from = ctx.env.cursor;
            code_completions(ctx, false);
            return true;
        }
    }
    // Anywhere: "|".
    if ctx.env.explicit {
        ctx.from = ctx.env.cursor;
        markup_completions(ctx);
        return true;
    }
    false
}

/// Add completions for markup snippets.
pub fn markup_completions(ctx: &mut CompletionContext)
    ensures
        final(ctx).appended(*old(ctx), markup_snippets()),
{
    ctx.snippet_completion("expression", "#${}", "Variables, function calls, blocks, and more.");
    ctx.snippet_completion("linebreak", "\\\n${}", "Inserts a forced linebreak.");
    ctx.snippet_completion("strong text", "*${strong}*", "Strongly emphasizes content by increasing the font weight.");
    ctx.snippet_completion("emphasized text", "_${emphasized}_", "Emphasizes content by setting it in italic font style.");
    ctx.snippet_completion("raw text", "`${text}`", "Displays text verbatim, in monospace.");
    ctx.snippet_completion("code listing", "```${lang}\n${code}\n```", "Inserts computer code with syntax highlighting.");
    ctx.snippet_completion("hyperlink", "https://${example.com}", "Links to a URL.");
    ctx.snippet_completion("label", "<${name}>", "Makes the preceding element referencable.");
    ctx.snippet_completion("reference", "@${name}", "Inserts a reference to a label.");
    ctx.snippet_completion("heading", "= ${title}", "Inserts a section heading.");
    ctx.snippet_completion("list item", "- ${item}", "Inserts an item of a bullet list.");
    ctx.snippet_completion("enumeration item", "+ ${item}", "Inserts an item of a numbered list.");
    ctx.snippet_completion("enumeration item (numbered)", "${number}. ${item}", "Inserts an explicitly numbered list item.");
    ctx.snippet_completion("term list item", "/ ${term}: ${description}", "Inserts an item of a term list.");
    ctx.snippet_completion("math (inline)", "$${x}$", "Inserts an inline-level mathematical formula.");
    ctx.snippet_completion("math (block)", "$ ${sum_x^2} $", "Inserts a block-level mathematical formula.");
    assert(ctx.out() =~= old(ctx).out() + markup_snippets());
}

/// Complete in math mode.
pub fn complete_math(ctx: &mut CompletionContext) -> (r: bool)
    requires
        old(ctx).env_wf(),
    ensures
        final(ctx).env == old(ctx).env,
        match math_spec(old(ctx).env, old(ctx).state()) {
            Some(st) => r && final(ctx).state() == st,
            None => !r && final(ctx).state() == old(ctx).state(),
        },
{
    let source = ctx.env.source;
    let leaf = ctx.env.leaf;
    let kind = source.kind(leaf);
    match source.parent_kind(leaf) {
        Some(k) => if !k.is_math() {
            return false;
        },
        None => return false,
    }
    // Start of an interpolated identifier: "#|".
    if kind == SyntaxKind::Hashtag {
        ctx.from = ctx.env.cursor;
        code_completions(ctx, true);
        return true;
    }
    // Behind existing atom or identifier: "$a|$" or "$abc|$".
    if kind == SyntaxKind::Text || kind == SyntaxKind::MathIdent {
        ctx.from = source.nodes[leaf].offset;
        math_completions(ctx);
        return true;
    }
    // Anywhere: "$|$".
    if ctx.env.explicit {
        ctx.from = ctx.env.cursor;
        math_completions(ctx);
        return true;
    }
    false
}

/// Add completions for math snippets.
pub fn math_completions(ctx: &mut CompletionContext)
    requires
        old(ctx).env_wf(),
    ensures
        final(ctx).appended(*old(ctx), math_views(old(ctx).env)),
{
    ctx.scope_completions(&ValueFilter::All);
    ctx.snippet_completion("subscript", "${x}_${2:2}", "Sets something in subscript.");
    ctx.snippet_completion("superscript", "${x}^${2:2}", "Sets something in superscript.");
    ctx.snippet_completion("fraction", "${x}/${y}", "Inserts a fraction.");
    assert(ctx.out() =~= old(ctx).out() + math_views(old(ctx).env));
}

/// Complete in code mode.
pub fn complete_code(ctx: &mut CompletionContext) -> (r: bool)
    requires
        old(ctx).env_wf(),
    ensures
        final(ctx).env == old(ctx).env,
        match code_spec(old(ctx).env, old(ctx).state()) {
            Some(st) => r && final(ctx).state() == st,
            None => !r && final(ctx).state() == old(ctx).state(),
        },
{
    let source = ctx.env.source;
    let leaf = ctx.env.leaf;
    let kind = source.kind(leaf);
    // Bail in markup and in math.
    match source.parent_kind(leaf) {
        None | Some(SyntaxKind::Markup) => return false,
        Some(k) => if k.is_math() {
            return false;
        },
    }
    // An existing identifier: "{ pa| }".
    if kind == SyntaxKind::Ident {
        ctx.from = source.nodes[leaf].offset;
        code_completions(ctx, false);
        return true;
    }
    // Anywhere: "{ | }", but not within or after an expression.
    if ctx.env.explicit && (kind.is_trivia() || kind == SyntaxKind::LeftParen || kind
        == SyntaxKind::LeftBrace) {
        ctx.from = ctx.env.cursor;
        code_completions(ctx, false);
        return true;
    }
    false
}

/// Add completions for expression snippets.
pub fn code_completions(ctx: &mut CompletionContext, hashtag: bool)
    requires
        old(ctx).env_wf(),
    ensures
        final(ctx).appended(*old(ctx), code_views(old(ctx).env, hashtag)),
{
    if hashtag {
        ctx.scope_completions(&ValueFilter::Interpolable);
    } else {
        ctx.scope_completions(&ValueFilter::All);
    }
    let ghost mid = ctx.out();
    ctx.snippet_completion("function call", "${function}(${arguments})[${body}]", "Evaluates a function.");
    ctx.snippet_completion("code block", "{ ${} }", "Inserts a nested code block.");
    ctx.snippet_completion("content block", "[${content}]", "Switches into markup mode.");
    ctx.snippet_completion("set rule", "set ${}", "Sets style properties on an element.");
    ctx.snippet_completion("show rule", "show ${}", "Redefines the look of an element.");
    ctx.snippet_completion("let binding", "let ${name} = ${value}", "Saves a value in a variable.");
    ctx.snippet_completion("let binding (function)", "let ${name}(${params}) = ${output}", "Defines a function.");
    ctx.snippet_completion("if conditional", "if ${1 < 2} {\n\t${}\n}", "Computes or inserts something conditionally.");
    ctx.snippet_completion("if-else conditional", "if ${1 < 2} {\n\t${}\n} else {\n\t${}\n}", "Computes or inserts different things based on a condition.");
    ctx.snippet_completion("while loop", "while ${1 < 2} {\n\t${}\n}", "Computes or inserts somthing while a condition is met.");
    ctx.snippet_completion("for loop", "for ${value} in ${(1, 2, 3)} {\n\t${}\n}", "Computes or inserts somthing for each value in a collection.");
    ctx.snippet_completion("for loop (with key)", "for ${key}, ${value} in ${(a: 1, b: 2)} {\n\t${}\n}", "Computes or inserts somthing for each key and value in a collection.");
    ctx.snippet_completion("break", "break", "Exits early from a loop.");
    ctx.snippet_completion("continue", "continue", "Continues with the next iteration of a loop.");
    ctx.snippet_completion("return", "return ${output}", "Returns early from a function.");
    ctx.snippet_completion("import", "import \"${file.typ}\": ${items}", "Imports variables from another file.");
    ctx.snippet_completion("include", "include \"${file.typ}\"", "Includes content from another file.");
    ctx.snippet_completion("array", "(${1, 2, 3})", "Creates a sequence of values.");
    ctx.snippet_completion("dictionary", "(${a: 1, b: 2})", "Creates a mapping from names to value.");
    assert(ctx.out() =~= mid + code_snippets());
    if !hashtag {
        ctx.snippet_completion("function", "(${params}) => ${output}", "Creates an unnamed function.");
    }
    assert(ctx.out() =~= old(ctx).out() + code_views(old(ctx).env, hashtag));
}

/// Add completions for all fields on a value.
pub fn field_access_completions(ctx: &mut CompletionContext, value: &Value)
    ensures
        final(ctx).appended(*old(ctx), field_views(old(ctx).env, *value)),
{
    let world = ctx.env.world;
    match world.methods_on(&value.ty) {
        Some(ms) => method_completions(ctx, ms),
        None => {
            assert(ctx.out() =~= old(ctx).out() + Seq::<CompletionView>::empty());
        },
    }
    let ghost mid = ctx.out();
    let none: Vec<String> = Vec::new();
    assert(texts(none@) =~= Seq::<Seq<char>>::empty());
    match &value.data {
        ValueData::Symbol(sym) => symbol_completions(ctx, &sym.variants),
        ValueData::Dict(es) => binding_completions(ctx, es, &none),
        ValueData::Module(sc) => binding_completions(ctx, sc, &none),
        _ => {
            assert(ctx.out() =~= mid + Seq::<CompletionView>::empty());
        },
    }
    assert(ctx.out() =~= old(ctx).out() + field_views(old(ctx).env, *value));
}

/// Add a completion for each method.
fn method_completions(ctx: &mut CompletionContext, ms: &Vec<Method>)
    ensures
        final(ctx).appended(*old(ctx), method_views(ms@)),
{
    let mut i: usize = 0;
    assert(ms@.take(0) =~= Seq::<Method>::empty());
    assert(ctx.out() =~= old(ctx).out() + method_views(ms@.take(0)));
    while i < ms.len()
        invariant
            i <= ms@.len(),
            ctx.appended(*old(ctx), method_views(ms@.take(i as int))),
        decreases ms@.len() - i,
    {
        let m = &ms[i];
        proof {
            assert(ms@.take(i + 1).drop_last() =~= ms@.take(i as int));
        }
        let apply = if m.takes_args {
            concat2(m.name.as_str(), "(${})")
        } else {
            concat2(m.name.as_str(), "()${}")
        };
        ctx.push(
            Completion {
                kind: CompletionKind::Func,
                label: m.name.clone(),
                apply: Some(apply),
                detail: None,
            },
        );
        assert(ctx.out() =~= old(ctx).out() + method_views(ms@.take(i + 1)));
        i = i + 1;
    }
    assert(ms@.take(ms@.len() as int) =~= ms@);
}

/// Add a completion for each modifier of a symbol.
fn symbol_completions(ctx: &mut CompletionContext, vs: &Vec<SymbolVariant>)
    ensures
        final(ctx).appended(*old(ctx), symbol_views(vs@)),
{
    let mut i: usize = 0;
    assert(vs@.take(0) =~= Seq::<SymbolVariant>::empty());
    assert(ctx.out() =~= old(ctx).out() + symbol_views(vs@.take(0)));
    while i < vs.len()
        invariant
            i <= vs@.len(),
            ctx.appended(*old(ctx), symbol_views(vs@.take(i as int))),
        decreases vs@.len() - i,
    {
        let v = &vs[i];
        proof {
            assert(vs@.take(i + 1).drop_last() =~= vs@.take(i as int));
        }
        ctx.push(
            Completion {
                kind: CompletionKind::Symbol(v.glyph),
                label: v.modifier.clone(),
                apply: None,
                detail: None,
            },
        );
        assert(ctx.out() =~= old(ctx).out() + symbol_views(vs@.take(i + 1)));
        i = i + 1;
    }
    assert(vs@.take(vs@.len() as int) =~= vs@);
}

/// Add a completion for each binding whose name is not among `existing`.
fn binding_completions(ctx: &mut CompletionContext, bs: &Vec<Binding>, existing: &Vec<String>)
    ensures
        final(ctx).appended(*old(ctx), binding_views(bs@, texts(existing@))),
{
    let mut i: usize = 0;
    assert(bs@.take(0) =~= Seq::<Binding>::empty());
    assert(ctx.out() =~= old(ctx).out() + binding_views(bs@.take(0), texts(existing@)));
    while i < bs.len()
        invariant
            i <= bs@.len(),
            ctx.appended(*old(ctx), binding_views(bs@.take(i as int), texts(existing@))),
        decreases bs@.len() - i,
    {
        let b = &bs[i];
        proof {
            assert(bs@.take(i + 1).drop_last() =~= bs@.take(i as int));
        }
        if !crate::complete::contains_text(existing, &b.name) {
            ctx.value_completion(Some(b.name.clone()), &b.value, None);
        }
        assert(ctx.out() =~= old(ctx).out() + binding_views(bs@.take(i + 1), texts(existing@)));
        i = i + 1;
    }
    assert(bs@.take(bs@.len() as int) =~= bs@);
}

/// Complete field accesses.
pub fn complete_field_accesses(ctx: &mut CompletionContext) -> (r: bool)
    requires
        old(ctx).env_wf(),
    ensures
        final(ctx).env == old(ctx).env,
        match field_access_spec(old(ctx).env, old(ctx).state()) {
            Some(st) => r && final(ctx).state() == st,
            None => !r && final(ctx).state() == old(ctx).state(),
        },
{
    let source = ctx.env.source;
    let world = ctx.env.world;
    let leaf = ctx.env.leaf;
    let kind = source.kind(leaf);
    // Behind an expression plus dot: "emoji.|".
    let dot = kind == SyntaxKind::Dot || (kind == SyntaxKind::Text && crate::text::str_eq(
        source.text(leaf).as_str(),
        ".",
    ));
    if dot && ends_at(source, leaf, ctx.env.cursor) {
        if let Some(prev) = source.prev_sibling(leaf) {
            if source.kind(prev).is_expr() {
                if let Some(value) = world.evaluation(prev) {
                    ctx.from = ctx.env.cursor;
                    field_access_completions(ctx, value);
                    return true;
                }
            }
        }
    }
    // Behind a started field access: "emoji.fa|".
    if kind == SyntaxKind::Ident {
        if let Some(prev) = source.prev_sibling(leaf) {
            if source.kind(prev) == SyntaxKind::Dot {
                if let Some(prev_prev) = source.prev_sibling(prev) {
                    if source.kind(prev_prev).is_expr() {
                        if let Some(value) = world.evaluation(prev_prev) {
                            ctx.from = source.nodes[leaf].offset;
                            field_access_completions(ctx, value);
                            return true;
                        }
                    }
                }
            }
        }
    }
    false
}

/// The texts of the children of `p` that have kind `k`.
pub fn child_texts(source: &Source, p: usize, k: SyntaxKind) -> (r: Vec<String>)
    requires
        p < source.nodes@.len(),
    ensures
        texts(r@) == spec_child_texts(source.nodes@, p as int, k, p + 1),
{
    let ghost n = source.nodes@;
    let mut out: Vec<String> = Vec::new();
    let count = source.nodes.len();
    let mut j: usize = p + 1;
    assert(texts(out@) + spec_child_texts(n, p as int, k, j as int) =~= spec_child_texts(n, p as int, k, p + 1));
    while j < count
        invariant
            n == source.nodes@,
            count == n.len(),
            p < j <= count,
            texts(out@) + spec_child_texts(n, p as int, k, j as int) == spec_child_texts(n, p as int, k, p + 1),
        decreases count - j,
    {
        let node = &source.nodes[j];
        let ghost before = out@;
        let is_child = match node.parent {
            Some(q) => q == p,
            None => false,
        };
        if is_child && node.kind == k {
            let t = source.text(j);
            proof {
                lemma_texts_push(out@, t);
            }
            out.push(t);
            assert(texts(out@) + spec_child_texts(n, p as int, k, j + 1) =~= texts(before) + spec_child_texts(n, p as int, k, j as int));
        } else {
            assert(spec_child_texts(n, p as int, k, j as int) =~= spec_child_texts(n, p as int, k, j + 1));
        }
        j = j + 1;
    }
    assert(spec_child_texts(n, p as int, k, j as int) =~= Seq::<Seq<char>>::empty());
    assert(texts(out@) =~= texts(out@) + spec_child_texts(n, p as int, k, j as int));
    out
}

/// Add completions for all exports of a module.
pub fn import_completions(ctx: &mut CompletionContext, items: usize, value: &Value)
    requires
        items < old(ctx).env.source.nodes@.len(),
    ensures
        final(ctx).appended(*old(ctx), import_views(old(ctx).env, items as int, *value)),
{
    let world = ctx.env.world;
    let scope = match &value.data {
        ValueData::Str(path) => match world.resolve_import(path) {
            Some(scope) => scope,
            None => {
                assert(ctx.out() =~= old(ctx).out() + Seq::<CompletionView>::empty());
                return;
            },
        },
        ValueData::Module(scope) => scope,
        _ => {
            assert(ctx.out() =~= old(ctx).out() + Seq::<CompletionView>::empty());
            return;
        },
    };
    let existing = child_texts(ctx.env.source, items, SyntaxKind::Ident);
    if existing.len() == 0 {
        ctx.snippet_completion("*", "*", "Import everything.");
    } else {
        assert(ctx.out() =~= old(ctx).out() + Seq::<CompletionView>::empty());
    }
    binding_completions(ctx, scope, &existing);
    assert(ctx.out() =~= old(ctx).out() + import_views(old(ctx).env, items as int, *value));
}

/// The item list of an import and the value of its source, where it has
/// both.
fn import_parts(env: Env, import: usize) -> (r: Option<(usize, &Value)>)
    requires
        import < env.source.nodes@.len(),
    ensures
        match spec_import_parts(env, import as int) {
            Some((items, v)) => r matches Some((i, w)) && i == items && *w == v && i
                < env.source.nodes@.len(),
            None => r is None,
        },
{
    let source = env.source;
    let world = env.world;
    let items = match source.find_child(import, KindWanted::Imports) {
        Some(items) => items,
        None => return None,
    };
    if source.kind(items) != SyntaxKind::ImportItems {
        return None;
    }
    let src = match source.find_child(import, KindWanted::Expr) {
        Some(src) => src,
        None => return None,
    };
    match world.evaluation(src) {
        Some(v) => Some((items, v)),
        None => None,
    }
}

/// Complete imports.
pub fn complete_imports(ctx: &mut CompletionContext) -> (r: bool)
    requires
        old(ctx).env_wf(),
    ensures
        final(ctx).env == old(ctx).env,
        match imports_spec(old(ctx).env, old(ctx).state()) {
            Some(st) => r && final(ctx).state() == st,
            None => !r && final(ctx).state() == old(ctx).state(),
        },
{
    let env = ctx.env;
    let source = env.source;
    let leaf = env.leaf;
    // Behind an import list: "#import "path.typ": |", "#import "path.typ": a, b, |".
    if let Some(prev) = source.prev_sibling(leaf) {
        if source.kind(prev) == SyntaxKind::ModuleImport {
            if let Some((items, value)) = import_parts(env, prev) {
                ctx.from = env.cursor;
                import_completions(ctx, items, value);
                return true;
            }
        }
    }
    // Behind a half-started identifier in an import list: "#import "path.typ": thi|".
    if source.kind(leaf) == SyntaxKind::Ident {
        if let Some(parent) = source.parent(leaf) {
            if source.kind(parent) == SyntaxKind::ImportItems {
                if let Some(grand) = source.parent(parent) {
                    if source.kind(grand) == SyntaxKind::ModuleImport {
                        if let Some((items, value)) = import_parts(env, grand) {
                            ctx.from = source.nodes[leaf].offset;
                            import_completions(ctx, items, value);
                            return true;
                        }
                    }
                }
            }
        }
    }
    false
}

/// Add completions for all functions from the global scope.
pub fn set_rule_completions(ctx: &mut CompletionContext)
    requires
        old(ctx).env_wf(),
    ensures
        final(ctx).appended(
            *old(ctx),
            crate::complete::scope_views(old(ctx).env, ValueFilter::Settable),
        ),
{
    ctx.scope_completions(&ValueFilter::Settable);
}

/// Add completions for selectors.
pub fn show_rule_selector_completions(ctx: &mut CompletionContext)
    requires
        old(ctx).env_wf(),
    ensures
        final(ctx).env == old(ctx).env,
        final(ctx).state() == old(ctx).state().add(
            crate::complete::scope_views(old(ctx).env, ValueFilter::Selectable),
        ).enrich(""@, ": "@).add(selector_snippets()),
{
    ctx.scope_completions(&ValueFilter::Selectable);
    ctx.enrich("", ": ");
    ctx.snippet_completion("text selector", "\"${text}\": ${}", "Replace occurances of specific text.");
    ctx.snippet_completion(
        "regex selector",
        "regex(\"${regex}\"): ${}",
        "Replace matches of a regular expression.",
    );
    assert(ctx.out() =~= old(ctx).state().add(
        crate::complete::scope_views(old(ctx).env, ValueFilter::Selectable),
    ).enrich(""@, ": "@).add(selector_snippets()).out);
}

/// Add completions for recipes.
pub fn show_rule_recipe_completions(ctx: &mut CompletionContext)
    requires
        old(ctx).env_wf(),
    ensures
        final(ctx).appended(
            *old(ctx),
            recipe_snippets() + crate::complete::scope_views(old(ctx).env, ValueFilter::Func),
        ),
{
    ctx.snippet_completion("replacement", "[${content}]", "Replace the selected element with content.");
    ctx.snippet_completion(
        "replacement (string)",
        "\"${text}\"",
        "Replace the selected element with a string of text.",
    );
    ctx.snippet_completion(
        "transformation",
        "element => [${content}]",
        "Transform the element with a function.",
    );
    ctx.scope_completions(&ValueFilter::Func);
    assert(ctx.out() =~= old(ctx).out() + (recipe_snippets() + crate::complete::scope_views(old(ctx).env, ValueFilter::Func)));
}

/// Complete set and show rules.
pub fn complete_rules(ctx: &mut CompletionContext) -> (r: bool)
    requires
        old(ctx).env_wf(),
    ensures
        final(ctx).env == old(ctx).env,
        match rules_spec(old(ctx).env, old(ctx).state()) {
            Some(st) => r && final(ctx).state() == st,
            None => !r && final(ctx).state() == old(ctx).state(),
        },
{
    let source = ctx.env.source;
    let leaf = ctx.env.leaf;
    // We don't want to complete directly behind the keyword.
    if !source.kind(leaf).is_trivia() {
        return false;
    }
    let prev = match source.prev_leaf(leaf) {
        Some(prev) => prev,
        None => return false,
    };
    // Behind the set keyword: "set |".
    if source.kind(prev) == SyntaxKind::SetKeyword {
        ctx.from = ctx.env.cursor;
        set_rule_completions(ctx);
        return true;
    }
    // Behind the show keyword: "show |".
    if source.kind(prev) == SyntaxKind::ShowKeyword {
        ctx.from = ctx.env.cursor;
        show_rule_selector_completions(ctx);
        return true;
    }
    // Behind a half-completed show rule: "show strong: |".
    if source.kind(prev) == SyntaxKind::Colon && source.parent_kind(prev) == Some(
        SyntaxKind::ShowRule,
    ) {
        ctx.from = ctx.env.cursor;
        show_rule_recipe_completions(ctx);
        assert(ctx.out() =~= old(ctx).out() + recipe_snippets() + crate::complete::scope_views(old(ctx).env, ValueFilter::Func));
        return true;
    }
    false
}

/// Whether the leaf ends at the cursor.
fn ends_at(source: &Source, leaf: usize, cursor: usize) -> (r: bool)
    requires
        leaf < source.nodes@.len(),
        source.nodes@[leaf as int].reaches(cursor as int),
    ensures
        r == (source.nodes@[leaf as int].end() == cursor),
{
    match &source.nodes[leaf].text {
        Some(t) => cursor - source.nodes[leaf].offset == t.as_str().unicode_len(),
        None => cursor == source.nodes[leaf].offset,
    }
}

/// The state of a fresh request.
pub open spec fn initial(cursor: usize) -> State {
    State { from: cursor as int, seen: Seq::empty(), out: Seq::empty() }
}

/// The request that a cursor on `leaf` makes.
pub open spec fn env_of<'a>(world: &'a World, source: &'a Source, leaf: int, cursor: usize, explicit: bool) -> Env<'a> {
    Env { world, source, leaf: leaf as usize, cursor, explicit }
}

/// Autocomplete a cursor position in a source file.
///
/// Returns the position from which the completions apply and a list of
/// completions; nothing where no node of the tree is at the cursor, which is
/// then outside the document. The cursor and the returned position count
/// characters from the start of the document. The world's scopes must bind
/// each name once (`World::is_well_formed` tells). When `explicit` is
/// `true`, the user requested the completion by pressing control and space or
/// something similar.
pub fn autocomplete(world: &World, source: &Source, cursor: usize, explicit: bool) -> (r: Option<
    (usize, Vec<Completion>),
>)
    requires
        world.wf(),
        source.wf(),
    ensures
        match source.spec_leaf_at(cursor as int) {
            Some(leaf) => r matches Some((from, cs)) && from as int == dispatch(
                env_of(world, source, leaf, cursor, explicit),
                initial(cursor),
            ).from && views(cs@) == dispatch(
                env_of(world, source, leaf, cursor, explicit),
                initial(cursor),
            ).out && from <= cursor,
            None => r is None,
        },
{
    let mut ctx = match CompletionContext::new(world, source, cursor, explicit) {
        Some(ctx) => ctx,
        None => return None,
    };
    let ghost env = ctx.env;
    let ghost st0 = ctx.state();
    assert(st0 == initial(cursor));
    proof {
        reveal_with_fuel(dispatch_from, 8);
        crate::laws::lemma_from_le_cursor(env, st0);
    }
    if !complete_field_accesses(&mut ctx) {
        if !complete_imports(&mut ctx) {
            if !complete_rules(&mut ctx) {
                if !complete_params(&mut ctx) {
                    if !complete_markup(&mut ctx) {
                        if !complete_math(&mut ctx) {
                            complete_code(&mut ctx);
                        }
                    }
                }
            }
        }
    }
    Some((ctx.from, ctx.completions))
}

} // verus!
