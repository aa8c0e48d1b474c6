//! Properties that hold of every completion request.
use vstd::prelude::*;

use crate::complete::{
    cast_out, font_views, union_out, value_view, CastKeyView, CompletionKind,
    CompletionView, Env, State,
};
use crate::modes::{
    code_snippets, code_spec, code_views, leaf_kind, markup_spec, rules_spec, selector_snippets,
    call_parts, callee_info, deciding, dispatch, dispatch_from, mode_spec, offset_at,
    param_completions_spec, params_state,
};
use crate::complete::{
    builtin_views, in_math, insert_sorted, local_views, scope_of, scope_views, sorted_names,
};
use crate::model::{Binding, CastInfo, FontFamily, ParamInfo, Value, ValueFilter};
use crate::scope::{binding_name, bound_names, lets_before};
use crate::syntax::SyntaxNode;
use crate::text::{text_lt, trim_end_quotes, trim_quotes, trim_start_quotes};
use crate::syntax::{lemma_leaf_before, leaves_ordered, SyntaxKind};
use crate::complete::{enrich_all, enriched, type_views};
use crate::modes::param_view;

verus! {

/// The request is well formed: the tree is, and the node at the cursor holds
/// it and is a leaf unless it is the root of a tree without leaves.
pub open spec fn env_ok(env: Env) -> bool {
    &&& env.source.wf()
    &&& env.leaf < env.source.nodes@.len()
    &&& env.source.nodes@[env.leaf as int].reaches(env.cursor as int)
    &&& (env.source.nodes@[env.leaf as int].is_leaf() || env.leaf == 0)
}

/// Expanding parameters leaves the start of the replaced text alone.
pub proof fn lemma_params_keep_from(
    env: Env,
    st: State,
    ps: Seq<ParamInfo>,
    exclude: Seq<Seq<char>>,
    set: bool,
)
    ensures
        params_state(env, st, ps, exclude, set).from == st.from,
    decreases ps.len(),
{
    if ps.len() > 0 {
        lemma_params_keep_from(env, st, ps.drop_last(), exclude, set);
    }
}

/// The leaf before the cursor's leaf starts before the cursor.
pub proof fn lemma_prev_leaf_before_cursor(env: Env, j: int)
    requires
        env_ok(env),
        0 <= j <= env.leaf,
    ensures
        env.source.spec_prev_leaf(j) matches Some(k) ==> 0 <= k < j && k
            < env.source.nodes@.len() && offset_at(env, k) <= env.cursor,
{
    let n = env.source.nodes@;
    lemma_leaf_before(n, j);
    if let Some(k) = env.source.spec_prev_leaf(j) {
        assert(n[k].is_leaf() && n[env.leaf as int].is_leaf());
        assert(leaves_ordered(n));
        assert(n[k].end() <= n[env.leaf as int].offset);
    }
}

/// Whatever completer decides a request, the completions apply from a
/// position at or before the cursor.
pub proof fn lemma_from_le_cursor(env: Env, st: State)
    requires
        env_ok(env),
        st.from <= env.cursor,
    ensures
        dispatch(env, st).from <= env.cursor,
{
    let leaf = env.leaf as int;
    let s = env.source;
    reveal_with_fuel(dispatch_from, 8);
    lemma_prev_leaf_before_cursor(env, leaf);
    if let Some(p) = s.spec_prev_leaf(leaf) {
        lemma_prev_leaf_before_cursor(env, p);
    }
    if let Some((a, c, set)) = call_parts(env) {
        if let Some(info) = callee_info(env, crate::syntax::node_text(s.nodes@, c)) {
            if let Some(d) = deciding(env) {
                let from = if crate::modes::kind_at(env, d) == crate::syntax::SyntaxKind::Ident {
                    offset_at(env, d)
                } else {
                    env.cursor as int
                };
                let callee = crate::syntax::node_text(s.nodes@, c);
                let st1 = st.at(from);
                let s1 = if callee == "text"@ {
                    st1.add(crate::complete::font_views(env.world.fonts@))
                } else {
                    st1
                };
                lemma_params_keep_from(
                    env,
                    s1,
                    info.params@,
                    crate::modes::named_args(s.nodes@, a, a + 1),
                    set,
                );
            }
        }
    }
}

/// From the `m`-th completer on, either all decline and nothing changes, or
/// one of them decides, every one before it declining.
pub proof fn lemma_dispatch_from(m: int, env: Env, st: State)
    requires
        0 <= m <= 7,
    ensures
        (dispatch_from(m, env, st) == st && forall|k: int|
            m <= k < 7 ==> #[trigger] mode_spec(k, env, st) is None) || exists|j: int|
            m <= j < 7 && mode_spec(j, env, st) == Some(dispatch_from(m, env, st)) && forall|k: int|
                m <= k < j ==> #[trigger] mode_spec(k, env, st) is None,
    decreases 7 - m,
{
    if m < 7 {
        if mode_spec(m, env, st) is Some {
            assert(mode_spec(m, env, st) == Some(dispatch_from(m, env, st)));
        } else {
            lemma_dispatch_from(m + 1, env, st);
            if dispatch_from(m + 1, env, st) == st && forall|k: int|
                m + 1 <= k < 7 ==> #[trigger] mode_spec(k, env, st) is None {
                assert forall|k: int| m <= k < 7 implies #[trigger] mode_spec(k, env, st) is None by {
                    if k > m {
                        assert(m + 1 <= k < 7);
                    }
                }
            } else {
                let j = choose|j: int|
                    m + 1 <= j < 7 && mode_spec(j, env, st) == Some(dispatch_from(m + 1, env, st))
                        && forall|k: int| m + 1 <= k < j ==> #[trigger] mode_spec(k, env, st) is None;
                assert forall|k: int| m <= k < j implies #[trigger] mode_spec(k, env, st) is None by {
                    if k > m {
                        assert(m + 1 <= k < j);
                    }
                }
            }
        }
    }
}

/// At most one completer contributes to a request: the result is either the
/// request unchanged, every completer declining, or exactly what one completer
/// makes of it, every completer tried before it declining.
pub proof fn lemma_one_mode(env: Env, st: State)
    ensures
        (dispatch(env, st) == st && forall|k: int| 0 <= k < 7 ==> #[trigger] mode_spec(k, env, st) is None)
            || exists|j: int|
            0 <= j < 7 && mode_spec(j, env, st) == Some(dispatch(env, st)) && forall|k: int|
                0 <= k < j ==> #[trigger] mode_spec(k, env, st) is None,
{
    lemma_dispatch_from(0, env, st);
}

/// Every identity of a constraint is among `seen`.
pub open spec fn covered(seen: Seq<CastKeyView>, cast: CastInfo) -> bool
    decreases cast, 0int,
{
    match cast {
        CastInfo::Any => true,
        CastInfo::Value(v, d) => seen.contains(CastKeyView::Value(v.ty@, v.repr@, d@)),
        CastInfo::Type(t) => seen.contains(CastKeyView::Type(t@)),
        CastInfo::Union(vs) => covered_union(seen, vs, vs.len() as int),
    }
}

/// Every identity of the first `i` branches is among `seen`.
pub open spec fn covered_union(seen: Seq<CastKeyView>, vs: Vec<CastInfo>, i: int) -> bool
    decreases vs, i,
{
    if i <= 0 || i > vs.len() {
        true
    } else {
        covered_union(seen, vs, i - 1) && covered(seen, vs[i - 1])
    }
}

pub open spec fn includes(a: Seq<CastKeyView>, b: Seq<CastKeyView>) -> bool {
    forall|x: CastKeyView| #[trigger] b.contains(x) ==> a.contains(x)
}

/// Coverage survives adding identities.
pub proof fn lemma_covered_grows(s1: Seq<CastKeyView>, s2: Seq<CastKeyView>, cast: CastInfo)
    requires
        includes(s2, s1),
        covered(s1, cast),
    ensures
        covered(s2, cast),
    decreases cast, 0int,
{
    if let CastInfo::Union(vs) = cast {
        lemma_covered_union_grows(s1, s2, vs, vs.len() as int);
    }
}

pub proof fn lemma_covered_union_grows(
    s1: Seq<CastKeyView>,
    s2: Seq<CastKeyView>,
    vs: Vec<CastInfo>,
    i: int,
)
    requires
        includes(s2, s1),
        covered_union(s1, vs, i),
    ensures
        covered_union(s2, vs, i),
    decreases vs, i,
{
    if 0 < i <= vs.len() {
        assert(decreases_to!(vs => vs[i - 1]));
        lemma_covered_union_grows(s1, s2, vs, i - 1);
        lemma_covered_grows(s1, s2, vs[i - 1]);
    }
}

/// Expanding a constraint keeps the identities seen before and records all of
/// its own.
pub proof fn lemma_cast_records(env: Env, seen: Seq<CastKeyView>, cast: CastInfo)
    ensures
        includes(cast_out(env, seen, cast).0, seen),
        covered(cast_out(env, seen, cast).0, cast),
    decreases cast, 0int,
{
    match cast {
        CastInfo::Any => {},
        CastInfo::Value(v, d) => {
            let k = CastKeyView::Value(v.ty@, v.repr@, d@);
            if !seen.contains(k) {
                assert(seen.push(k)[seen.len() as int] == k);
                assert forall|x: CastKeyView| #[trigger] seen.contains(x) implies seen.push(
                    k,
                ).contains(x) by {
                    let i = choose|i: int| 0 <= i < seen.len() && seen[i] == x;
                    assert(seen.push(k)[i] == x);
                }
            }
        },
        CastInfo::Type(t) => {
            let k = CastKeyView::Type(t@);
            if !seen.contains(k) {
                assert(seen.push(k)[seen.len() as int] == k);
                assert forall|x: CastKeyView| #[trigger] seen.contains(x) implies seen.push(
                    k,
                ).contains(x) by {
                    let i = choose|i: int| 0 <= i < seen.len() && seen[i] == x;
                    assert(seen.push(k)[i] == x);
                }
            }
        },
        CastInfo::Union(vs) => {
            lemma_union_records(env, seen, vs, vs.len() as int);
        },
    }
}

pub proof fn lemma_union_records(env: Env, seen: Seq<CastKeyView>, vs: Vec<CastInfo>, i: int)
    ensures
        includes(union_out(env, seen, vs, i).0, seen),
        covered_union(union_out(env, seen, vs, i).0, vs, i),
    decreases vs, i,
{
    if 0 < i <= vs.len() {
        assert(decreases_to!(vs => vs[i - 1]));
        lemma_union_records(env, seen, vs, i - 1);
        let s1 = union_out(env, seen, vs, i - 1).0;
        lemma_cast_records(env, s1, vs[i - 1]);
        let s2 = cast_out(env, s1, vs[i - 1]).0;
        lemma_covered_union_grows(s1, s2, vs, i - 1);
    }
}

/// A constraint whose identities were all seen adds nothing.
pub proof fn lemma_covered_adds_nothing(env: Env, seen: Seq<CastKeyView>, cast: CastInfo)
    requires
        covered(seen, cast),
    ensures
        cast_out(env, seen, cast) == (seen, Seq::<CompletionView>::empty()),
    decreases cast, 0int,
{
    if let CastInfo::Union(vs) = cast {
        lemma_covered_union_adds_nothing(env, seen, vs, vs.len() as int);
    }
}

pub proof fn lemma_covered_union_adds_nothing(
    env: Env,
    seen: Seq<CastKeyView>,
    vs: Vec<CastInfo>,
    i: int,
)
    requires
        covered_union(seen, vs, i),
    ensures
        union_out(env, seen, vs, i) == (seen, Seq::<CompletionView>::empty()),
    decreases vs, i,
{
    if 0 < i <= vs.len() {
        assert(decreases_to!(vs => vs[i - 1]));
        lemma_covered_union_adds_nothing(env, seen, vs, i - 1);
        lemma_covered_adds_nothing(env, seen, vs[i - 1]);
        assert(Seq::<CompletionView>::empty() + Seq::<CompletionView>::empty() =~= Seq::<
            CompletionView,
        >::empty());
    }
}

/// Expanding a constraint a second time in the same request adds nothing.
pub proof fn lemma_expand_twice(env: Env, seen: Seq<CastKeyView>, cast: CastInfo)
    ensures
        cast_out(env, cast_out(env, seen, cast).0, cast) == (
            cast_out(env, seen, cast).0,
            Seq::<CompletionView>::empty(),
        ),
{
    lemma_cast_records(env, seen, cast);
    lemma_covered_adds_nothing(env, cast_out(env, seen, cast).0, cast);
}

/// A constraint that accepts "A or A" expands exactly as A alone does.
pub proof fn lemma_same_branch_twice(env: Env, seen: Seq<CastKeyView>, vs: Vec<CastInfo>)
    requires
        vs.len() == 2,
        vs[0] == vs[1],
    ensures
        cast_out(env, seen, CastInfo::Union(vs)) == cast_out(env, seen, vs[0]),
{
    let first = cast_out(env, seen, vs[0]);
    lemma_expand_twice(env, seen, vs[0]);
    assert(union_out(env, seen, vs, 0) == (seen, Seq::<CompletionView>::empty()));
    assert(Seq::<CompletionView>::empty() + first.1 =~= first.1);
    assert(union_out(env, seen, vs, 1) == first);
    assert(first.1 + Seq::<CompletionView>::empty() =~= first.1);
}

/// A value represented as a quoted text is shown with the text alone and
/// inserted as the quoted literal, which starts and ends with a quote mark.
pub proof fn lemma_quoted_round_trip(v: Value, t: Seq<char>)
    requires
        v.repr@ == seq!['"'] + t + seq!['"'],
        t.len() == 0 || (t[0] != '"' && t.last() != '"'),
    ensures
        value_view(None, v, None).label == t,
        value_view(None, v, None).apply == Some(v.repr@),
        v.repr@[0] == '"' && v.repr@.last() == '"',
{
    let q = seq!['"'];
    let l = q + t + q;
    assert(l[0] == '"');
    assert(l.drop_first() =~= t + q);
    if t.len() == 0 {
        assert((t + q).drop_first() =~= Seq::<char>::empty());
        assert(trim_start_quotes(Seq::<char>::empty()) == Seq::<char>::empty());
        assert(trim_start_quotes(t + q) == Seq::<char>::empty());
        assert(trim_end_quotes(Seq::<char>::empty()) == Seq::<char>::empty());
        assert(t =~= Seq::<char>::empty());
    } else {
        assert((t + q)[0] == t[0]);
        assert(trim_start_quotes(t + q) == t + q);
        assert((t + q).drop_last() =~= t);
        assert((t + q).last() == '"');
        assert(trim_end_quotes(t) == t);
    }
    assert(trim_quotes(l) == t);
}

/// `b` starts with `a`.
pub open spec fn extends(b: Seq<CompletionView>, a: Seq<CompletionView>) -> bool {
    &&& a.len() <= b.len()
    &&& forall|i: int| 0 <= i < a.len() ==> #[trigger] b[i] == a[i]
}

/// Completing parameters only adds completions after the ones before.
pub proof fn lemma_params_extend(
    env: Env,
    st: State,
    ps: Seq<ParamInfo>,
    exclude: Seq<Seq<char>>,
    set: bool,
)
    ensures
        extends(params_state(env, st, ps, exclude, set).out, st.out),
    decreases ps.len(),
{
    if ps.len() > 0 {
        lemma_params_extend(env, st, ps.drop_last(), exclude, set);
        let s1 = params_state(env, st, ps.drop_last(), exclude, set);
        let p = ps.last();
        let s2 = if p.named {
            s1.add(seq![crate::modes::param_view(p)])
        } else {
            s1
        };
        assert(extends(s2.out, st.out));
        if p.positional {
            assert(extends(s2.cast(env, p.cast).out, s2.out));
        }
    }
}

/// The completions for the font families follow the catalog, one per family.
pub proof fn lemma_font_views(fonts: Seq<FontFamily>)
    ensures
        font_views(fonts).len() == fonts.len(),
        forall|i: int|
            0 <= i < fonts.len() ==> (#[trigger] font_views(fonts)[i]).label == fonts[i].name@
                && font_views(fonts)[i].kind == CompletionKind::Font,
    decreases fonts.len(),
{
    if fonts.len() > 0 {
        lemma_font_views(fonts.drop_last());
        assert forall|i: int| 0 <= i < fonts.len() implies (#[trigger] font_views(
            fonts,
        )[i]).label == fonts[i].name@ && font_views(fonts)[i].kind == CompletionKind::Font by {
            if i < fonts.len() - 1 {
                assert(fonts.drop_last()[i] == fonts[i]);
            }
        }
    }
}

/// Completing the arguments of `text` offers one completion per font family
/// of the catalog, in its order, labelled with the family's name, right after
/// the completions before.
pub proof fn lemma_text_offers_fonts(
    env: Env,
    st: State,
    set: bool,
    exclude: Seq<Seq<char>>,
)
    requires
        callee_info(env, "text"@) is Some,
    ensures
        ({
            let r = param_completions_spec(env, st, "text"@, set, exclude);
            let fonts = env.world.fonts@;
            st.out.len() + fonts.len() <= r.out.len() && forall|i: int|
                0 <= i < fonts.len() ==> (#[trigger] r.out[st.out.len() + i]).label
                    == fonts[i].name@ && r.out[st.out.len() + i].kind == CompletionKind::Font
        }),
{
    let info = callee_info(env, "text"@)->0;
    let fonts = env.world.fonts@;
    let s1 = st.add(font_views(fonts));
    lemma_font_views(fonts);
    lemma_params_extend(env, s1, info.params@, exclude, set);
    let s2 = params_state(env, s1, info.params@, exclude, set);
    let r = param_completions_spec(env, st, "text"@, set, exclude);
    assert forall|i: int| 0 <= i < fonts.len() implies (#[trigger] r.out[st.out.len() + i]).label
        == fonts[i].name@ && r.out[st.out.len() + i].kind == CompletionKind::Font by {
        assert(s1.out[st.out.len() + i] == font_views(fonts)[i]);
        assert(s2.out[st.out.len() + i] == s1.out[st.out.len() + i]);
    }
}

/// The builtin part offers exactly the bindings that the filter accepts and
/// that no local name shadows: each entry stems from such a binding, and each
/// such binding has its entry.
pub proof fn lemma_builtin_views(scope: Seq<Binding>, filter: ValueFilter, names: Seq<Seq<char>>)
    ensures
        forall|i: int|
            0 <= i < builtin_views(scope, filter, names).len() ==> exists|j: int|
                0 <= j < scope.len() && filter.spec_accepts(&scope[j].value) && !names.contains(
                    scope[j].name@,
                ) && #[trigger] builtin_views(scope, filter, names)[i] == value_view(
                    Some(scope[j].name@),
                    scope[j].value,
                    None,
                ),
        forall|j: int|
            0 <= j < scope.len() && filter.spec_accepts(&scope[j].value) && !names.contains(
                #[trigger] scope[j].name@,
            ) ==> builtin_views(scope, filter, names).contains(
                value_view(Some(scope[j].name@), scope[j].value, None),
            ),
    decreases scope.len(),
{
    if scope.len() > 0 {
        let rest = scope.drop_last();
        lemma_builtin_views(rest, filter, names);
        let out = builtin_views(scope, filter, names);
        let prev = builtin_views(rest, filter, names);
        let b = scope.last();
        assert forall|i: int| 0 <= i < out.len() implies exists|j: int|
            0 <= j < scope.len() && filter.spec_accepts(&scope[j].value) && !names.contains(
                scope[j].name@,
            ) && #[trigger] out[i] == value_view(Some(scope[j].name@), scope[j].value, None) by {
            if i < prev.len() {
                assert(out[i] == prev[i]);
                let j = choose|j: int|
                    0 <= j < rest.len() && filter.spec_accepts(&rest[j].value) && !names.contains(
                        rest[j].name@,
                    ) && #[trigger] prev[i] == value_view(Some(rest[j].name@), rest[j].value, None);
                assert(scope[j] == rest[j]);
            } else {
                assert(scope[scope.len() - 1] == b);
            }
        }
        assert forall|j: int|
            0 <= j < scope.len() && filter.spec_accepts(&scope[j].value) && !names.contains(
                #[trigger] scope[j].name@,
            ) implies out.contains(value_view(Some(scope[j].name@), scope[j].value, None)) by {
            let e = value_view(Some(scope[j].name@), scope[j].value, None);
            if j < rest.len() {
                assert(rest[j] == scope[j]);
                assert(prev.contains(e));
                let i = choose|i: int| 0 <= i < prev.len() && prev[i] == e;
                assert(out[i] == e);
            } else {
                assert(out[out.len() - 1] == e);
            }
        }
    }
}

/// Adding a name to sorted names keeps the names and adds that one.
pub proof fn lemma_insert_sorted_contains(acc: Seq<Seq<char>>, x: Seq<char>, z: Seq<char>)
    ensures
        insert_sorted(acc, x).contains(z) <==> (acc.contains(z) || z == x),
    decreases acc.len(),
{
    if acc.len() > 0 && acc[0] != x && !crate::text::text_lt(x, acc[0]) {
        lemma_insert_sorted_contains(acc.drop_first(), x, z);
        let r = insert_sorted(acc, x);
        let t = insert_sorted(acc.drop_first(), x);
        assert(r == seq![acc[0]] + t);
        if t.contains(z) {
            let i = choose|i: int| 0 <= i < t.len() && t[i] == z;
            assert(r[i + 1] == z);
        }
        if r.contains(z) {
            let i = choose|i: int| 0 <= i < r.len() && r[i] == z;
            if i > 0 {
                assert(t[i - 1] == z);
            }
        }
        if acc.contains(z) {
            let i = choose|i: int| 0 <= i < acc.len() && acc[i] == z;
            if i > 0 {
                assert(acc.drop_first()[i - 1] == z);
            } else {
                assert(r[0] == z);
            }
        }
        if acc.drop_first().contains(z) {
            let i = choose|i: int| 0 <= i < acc.drop_first().len() && acc.drop_first()[i] == z;
            assert(acc[i + 1] == z);
        }
    } else if acc.len() > 0 && acc[0] != x {
        let r = seq![x] + acc;
        if acc.contains(z) {
            let i = choose|i: int| 0 <= i < acc.len() && acc[i] == z;
            assert(r[i + 1] == z);
        }
        if r.contains(z) {
            let i = choose|i: int| 0 <= i < r.len() && r[i] == z;
            if i > 0 {
                assert(acc[i - 1] == z);
            }
        }
        assert(r[0] == x);
    } else if acc.len() > 0 {
        assert(acc[0] == x);
    } else {
        assert(seq![x][0] == x);
    }
}

/// The sorted names are exactly the names.
pub proof fn lemma_sorted_names_contains(s: Seq<Seq<char>>, z: Seq<char>)
    ensures
        sorted_names(s).contains(z) <==> s.contains(z),
    decreases s.len(),
{
    if s.len() > 0 {
        lemma_sorted_names_contains(s.drop_last(), z);
        lemma_insert_sorted_contains(sorted_names(s.drop_last()), s.last(), z);
        if s.drop_last().contains(z) {
            let i = choose|i: int| 0 <= i < s.drop_last().len() && s.drop_last()[i] == z;
            assert(s[i] == z);
        }
        if s.contains(z) && z != s.last() {
            let i = choose|i: int| 0 <= i < s.len() && s[i] == z;
            assert(s.drop_last()[i] == z);
        }
        if z == s.last() {
            assert(s[s.len() - 1] == z);
        }
    }
}

/// The label-only constant for a name.
pub open spec fn local_view(x: Seq<char>) -> CompletionView {
    CompletionView { kind: CompletionKind::Constant, label: x, apply: None, detail: None }
}

/// Each non-empty name among `s` has its label-only constant.
pub proof fn lemma_local_views_contains(s: Seq<Seq<char>>, x: Seq<char>)
    requires
        s.contains(x),
        x.len() > 0,
    ensures
        local_views(s).contains(local_view(x)),
    decreases s.len(),
{
    let out = local_views(s);
    if s.last() == x {
        assert(out[out.len() - 1] == local_view(x));
    } else {
        let i = choose|i: int| 0 <= i < s.len() && s[i] == x;
        assert(s.drop_last()[i] == x);
        lemma_local_views_contains(s.drop_last(), x);
        let prev = local_views(s.drop_last());
        let k = choose|k: int| 0 <= k < prev.len() && prev[k] == local_view(x);
        assert(out[k] == local_view(x));
    }
}

/// What completing from a scope offers. The builtin part, which comes first,
/// offers exactly the builtin bindings that the filter accepts and whose name
/// no local binding at the cursor shadows. Then every non-empty local name is
/// offered as a label-only constant.
pub proof fn lemma_scope_offers(env: Env, filter: ValueFilter)
    ensures
        ({
            let names = bound_names(env.source.nodes@, env.leaf as int);
            let scope = scope_of(env);
            let builtin = builtin_views(scope, filter, names);
            &&& scope_views(env, filter) == builtin + local_views(sorted_names(names))
            &&& forall|i: int|
                0 <= i < builtin.len() ==> exists|j: int|
                    0 <= j < scope.len() && filter.spec_accepts(&scope[j].value)
                        && !names.contains(scope[j].name@) && #[trigger] builtin[i] == value_view(
                        Some(scope[j].name@),
                        scope[j].value,
                        None,
                    )
            &&& forall|j: int|
                0 <= j < scope.len() && filter.spec_accepts(&scope[j].value) && !names.contains(
                    #[trigger] scope[j].name@,
                ) ==> scope_views(env, filter).contains(
                    value_view(Some(scope[j].name@), scope[j].value, None),
                )
            &&& forall|x: Seq<char>|
                #[trigger] names.contains(x) && x.len() > 0 ==> scope_views(env, filter).contains(
                    local_view(x),
                )
        }),
{
    let names = bound_names(env.source.nodes@, env.leaf as int);
    let scope = scope_of(env);
    let builtin = builtin_views(scope, filter, names);
    let locals = local_views(sorted_names(names));
    let all = scope_views(env, filter);
    lemma_builtin_views(scope, filter, names);
    assert forall|j: int|
        0 <= j < scope.len() && filter.spec_accepts(&scope[j].value) && !names.contains(
            #[trigger] scope[j].name@,
        ) implies all.contains(value_view(Some(scope[j].name@), scope[j].value, None)) by {
        let e = value_view(Some(scope[j].name@), scope[j].value, None);
        let i = choose|i: int| 0 <= i < builtin.len() && builtin[i] == e;
        assert(all[i] == e);
    }
    assert forall|x: Seq<char>| #[trigger] names.contains(x) && x.len() > 0 implies all.contains(
        local_view(x),
    ) by {
        lemma_sorted_names_contains(names, x);
        lemma_local_views_contains(sorted_names(names), x);
        let k = choose|k: int| 0 <= k < locals.len() && locals[k] == local_view(x);
        assert(all[builtin.len() + k] == local_view(x));
    }
}

/// Behind an inline-code escape in markup, completion starts at the cursor
/// and offers every global function that no local binding shadows.
pub proof fn lemma_escape_offers_functions(env: Env, st: State, j: int)
    requires
        env_ok(env),
        leaf_kind(env) == SyntaxKind::Hashtag,
        env.source.spec_parent_kind(env.leaf as int) is None || env.source.spec_parent_kind(
            env.leaf as int,
        ) == Some(SyntaxKind::Markup),
        0 <= j < env.world.global@.len(),
        env.world.global@[j].value.data is Func,
        !bound_names(env.source.nodes@, env.leaf as int).contains(env.world.global@[j].name@),
    ensures
        markup_spec(env, st) matches Some(r) && r.from == env.cursor && r.out.contains(
            value_view(Some(env.world.global@[j].name@), env.world.global@[j].value, None),
        ),
{
    let b = env.world.global@[j];
    let e = value_view(Some(b.name@), b.value, None);
    assert(!in_math(env));
    assert(ValueFilter::Interpolable.spec_accepts(&b.value));
    lemma_scope_offers(env, ValueFilter::Interpolable);
    let sv = scope_views(env, ValueFilter::Interpolable);
    let i = choose|i: int| 0 <= i < sv.len() && sv[i] == e;
    let r = markup_spec(env, st)->0;
    assert(code_views(env, true)[i] == e);
    assert(r.out[st.out.len() + i] == e);
}

/// On trivia in code, completion happens only when asked explicitly, and
/// then offers the statement snippets.
pub proof fn lemma_code_snippets_only_when_explicit(env: Env, st: State)
    requires
        leaf_kind(env).spec_is_trivia(),
    ensures
        code_spec(env, st) is Some ==> env.explicit && code_spec(env, st)->0.out == st.out
            + code_views(env, false),
        code_views(env, false).subrange(
            scope_views(env, ValueFilter::All).len() as int,
            (scope_views(env, ValueFilter::All).len() + code_snippets().len()) as int,
        ) == code_snippets(),
{
    let a = scope_views(env, ValueFilter::All);
    assert(code_views(env, false).subrange(a.len() as int, (a.len() + code_snippets().len()) as int)
        =~= code_snippets());
}

/// Behind `show`, completion offers each global function that can select
/// and that no local binding shadows, with `: ` after its insertion text; any
/// other global is left out; the two selector snippets follow.
pub proof fn lemma_show_offers_selectors(env: Env, st: State)
    requires
        env_ok(env),
        leaf_kind(env).spec_is_trivia(),
        env.source.spec_prev_leaf(env.leaf as int) matches Some(p) && crate::modes::kind_at(env, p)
            == SyntaxKind::ShowKeyword,
        !in_math(env),
    ensures
        ({
            let names = bound_names(env.source.nodes@, env.leaf as int);
            let g = env.world.global@;
            let builtin = builtin_views(g, ValueFilter::Selectable, names);
            let r = rules_spec(env, st)->0;
            &&& rules_spec(env, st) is Some
            &&& r.from == env.cursor
            &&& forall|j: int|
                0 <= j < g.len() && ValueFilter::Selectable.spec_accepts(&g[j].value)
                    && !names.contains(#[trigger] g[j].name@) ==> r.out.contains(
                    enriched(value_view(Some(g[j].name@), g[j].value, None), ""@, ": "@),
                )
            &&& forall|i: int|
                0 <= i < builtin.len() ==> exists|j: int|
                    0 <= j < g.len() && ValueFilter::Selectable.spec_accepts(&g[j].value)
                        && #[trigger] r.out[st.out.len() + i] == enriched(
                        value_view(Some(g[j].name@), g[j].value, None),
                        ""@,
                        ": "@,
                    )
            &&& r.out.subrange(r.out.len() - 2, r.out.len() as int) == selector_snippets()
        }),
{
    let names = bound_names(env.source.nodes@, env.leaf as int);
    let g = env.world.global@;
    let f = ValueFilter::Selectable;
    let builtin = builtin_views(g, f, names);
    let sv = scope_views(env, f);
    let r = rules_spec(env, st)->0;
    let mid = st.out + sv;
    lemma_scope_offers(env, f);
    assert(r.out == enrich_all(mid, ""@, ": "@) + selector_snippets());
    assert forall|j: int|
        0 <= j < g.len() && f.spec_accepts(&g[j].value) && !names.contains(#[trigger] g[j].name@)
        implies r.out.contains(enriched(value_view(Some(g[j].name@), g[j].value, None), ""@, ": "@)) by {
        let e = value_view(Some(g[j].name@), g[j].value, None);
        let i = choose|i: int| 0 <= i < sv.len() && sv[i] == e;
        assert(mid[st.out.len() + i] == e);
        assert(r.out[st.out.len() + i] == enriched(e, ""@, ": "@));
    }
    assert forall|i: int| 0 <= i < builtin.len() implies exists|j: int|
        0 <= j < g.len() && f.spec_accepts(&g[j].value) && #[trigger] r.out[st.out.len() + i]
            == enriched(value_view(Some(g[j].name@), g[j].value, None), ""@, ": "@) by {
        assert(sv[i] == builtin[i]);
        assert(mid[st.out.len() + i] == builtin[i]);
        let j = choose|j: int|
            0 <= j < g.len() && f.spec_accepts(&g[j].value) && !names.contains(g[j].name@)
                && #[trigger] builtin[i] == value_view(Some(g[j].name@), g[j].value, None);
        assert(r.out[st.out.len() + i] == enriched(builtin[i], ""@, ": "@));
    }
    assert(r.out.subrange(r.out.len() - 2, r.out.len() as int) =~= selector_snippets());
}

/// An inserted text that does not start with a quote mark gets `: ` after it
/// behind `show`.
pub proof fn lemma_selector_apply(name: Seq<char>, v: Value)
    requires
        name.len() == 0 || name[0] != '"',
    ensures
        enriched(value_view(Some(name), v, None), ""@, ": "@).apply == Some(name + ": "@),
{
    assert(""@ + name =~= name) by {
        reveal_strlit("");
    }
}

/// No completion of a scope is a parameter.
pub proof fn lemma_scope_no_param(env: Env, filter: ValueFilter)
    ensures
        forall|i: int|
            0 <= i < scope_views(env, filter).len() ==> (#[trigger] scope_views(env, filter)[i]).kind
                != CompletionKind::Param,
{
    let names = bound_names(env.source.nodes@, env.leaf as int);
    let builtin = builtin_views(scope_of(env), filter, names);
    let locals = local_views(sorted_names(names));
    lemma_scope_offers(env, filter);
    lemma_local_views_constant(sorted_names(names));
    assert forall|i: int| 0 <= i < scope_views(env, filter).len() implies (
    #[trigger] scope_views(env, filter)[i]).kind != CompletionKind::Param by {
        if i < builtin.len() {
            assert(scope_views(env, filter)[i] == builtin[i]);
        } else {
            assert(scope_views(env, filter)[i] == locals[i - builtin.len()]);
        }
    }
}

/// The local names are offered as constants.
pub proof fn lemma_local_views_constant(s: Seq<Seq<char>>)
    ensures
        forall|i: int|
            0 <= i < local_views(s).len() ==> (#[trigger] local_views(s)[i]).kind
                == CompletionKind::Constant,
    decreases s.len(),
{
    if s.len() > 0 {
        lemma_local_views_constant(s.drop_last());
    }
}

/// No completion of a constraint is a parameter.
pub proof fn lemma_cast_no_param(env: Env, seen: Seq<CastKeyView>, cast: CastInfo)
    ensures
        forall|i: int|
            0 <= i < cast_out(env, seen, cast).1.len() ==> (#[trigger] cast_out(env, seen, cast).1[i]).kind
                != CompletionKind::Param,
    decreases cast, 0int,
{
    match cast {
        CastInfo::Type(t) => {
            lemma_scope_no_param(env, ValueFilter::TypeName(t));
            let o = type_views(env, t);
            assert forall|i: int| 0 <= i < o.len() implies (#[trigger] o[i]).kind
                != CompletionKind::Param by {
                let sv = scope_views(env, ValueFilter::TypeName(t));
                if t@ == "color"@ && i >= 3 {
                    assert(o[i] == sv[i - 3]);
                } else if !(t@ == "none"@ || t@ == "auto"@ || t@ == "boolean"@ || t@ == "color"@
                    || t@ == "function"@) && i >= 1 {
                    assert(o[i] == sv[i - 1]);
                }
            }
        },
        CastInfo::Union(vs) => {
            lemma_union_no_param(env, seen, vs, vs.len() as int);
        },
        _ => {},
    }
}

pub proof fn lemma_union_no_param(env: Env, seen: Seq<CastKeyView>, vs: Vec<CastInfo>, i: int)
    ensures
        forall|k: int|
            0 <= k < union_out(env, seen, vs, i).1.len() ==> (#[trigger] union_out(
                env,
                seen,
                vs,
                i,
            ).1[k]).kind != CompletionKind::Param,
    decreases vs, i,
{
    if 0 < i <= vs.len() {
        assert(decreases_to!(vs => vs[i - 1]));
        lemma_union_no_param(env, seen, vs, i - 1);
        let (s1, o1) = union_out(env, seen, vs, i - 1);
        lemma_cast_no_param(env, s1, vs[i - 1]);
        let o2 = cast_out(env, s1, vs[i - 1]).1;
        assert forall|k: int| 0 <= k < (o1 + o2).len() implies (#[trigger] (o1 + o2)[k]).kind
            != CompletionKind::Param by {
            if k >= o1.len() {
                assert((o1 + o2)[k] == o2[k - o1.len()]);
            }
        }
    }
}

/// The parameter completions that completing parameters adds are exactly
/// those of the parameters passed by name that are not excluded (and, in a
/// set rule, settable): each such parameter has its completion, and every
/// added completion of a parameter belongs to such a parameter.
pub proof fn lemma_params_offer_named(
    env: Env,
    st: State,
    ps: Seq<ParamInfo>,
    exclude: Seq<Seq<char>>,
    set: bool,
)
    ensures
        ({
            let r = params_state(env, st, ps, exclude, set);
            &&& extends(r.out, st.out)
            &&& forall|k: int|
                0 <= k < ps.len() && ps[k].named && !exclude.contains(ps[k].name@) && (!set
                    || ps[k].settable) ==> r.out.contains(param_view(#[trigger] ps[k]))
            &&& forall|i: int|
                st.out.len() <= i < r.out.len() && (#[trigger] r.out[i]).kind
                    == CompletionKind::Param ==> exists|k: int|
                    0 <= k < ps.len() && ps[k].named && !exclude.contains(ps[k].name@) && (!set
                        || ps[k].settable) && r.out[i] == param_view(ps[k])
        }),
    decreases ps.len(),
{
    lemma_params_extend(env, st, ps, exclude, set);
    if ps.len() > 0 {
        let rest = ps.drop_last();
        lemma_params_offer_named(env, st, rest, exclude, set);
        let s1 = params_state(env, st, rest, exclude, set);
        let p = ps.last();
        let r = params_state(env, st, ps, exclude, set);
        let skip = exclude.contains(p.name@) || (set && !p.settable);
        let s2 = if p.named {
            s1.add(seq![param_view(p)])
        } else {
            s1
        };
        if !skip && p.positional {
            lemma_cast_no_param(env, s2.seen, p.cast);
        }
        assert forall|k: int|
            0 <= k < ps.len() && ps[k].named && !exclude.contains(ps[k].name@) && (!set
                || ps[k].settable) implies r.out.contains(param_view(#[trigger] ps[k])) by {
            if k < rest.len() {
                assert(rest[k] == ps[k]);
                let i = choose|i: int| 0 <= i < s1.out.len() && s1.out[i] == param_view(rest[k]);
                if !skip {
                    assert(s2.out[i] == s1.out[i]);
                }
                assert(r.out[i] == param_view(ps[k]));
            } else {
                assert(s2.out[s1.out.len() as int] == param_view(p));
                assert(r.out[s1.out.len() as int] == param_view(p));
            }
        }
        assert forall|i: int|
            st.out.len() <= i < r.out.len() && (#[trigger] r.out[i]).kind == CompletionKind::Param
            implies exists|k: int|
            0 <= k < ps.len() && ps[k].named && !exclude.contains(ps[k].name@) && (!set
                || ps[k].settable) && r.out[i] == param_view(ps[k]) by {
            if i < s1.out.len() {
                if !skip {
                    assert(s2.out[i] == s1.out[i]);
                }
                assert(r.out[i] == s1.out[i]);
                let k = choose|k: int|
                    0 <= k < rest.len() && rest[k].named && !exclude.contains(rest[k].name@) && (
                    !set || rest[k].settable) && s1.out[i] == param_view(rest[k]);
                assert(ps[k] == rest[k]);
            } else if p.named && i == s1.out.len() {
                assert(ps[ps.len() - 1] == p);
            } else {
                let o = cast_out(env, s2.seen, p.cast).1;
                assert(r.out[i] == o[i - s2.out.len()]);
            }
        }
    }
}

/// Bindings are not hoisted: a name that the let bindings before index `j`
/// contribute is bound by a let binding under the same parent that stands
/// before `j`. At the cursor's level `j` is just past the cursor's node, so a
/// binding declared after it is never among them.
pub proof fn lemma_lets_declared_before(
    n: Seq<SyntaxNode>,
    p: Option<usize>,
    j: int,
    x: Seq<char>,
)
    requires
        lets_before(n, p, j).contains(x),
    ensures
        exists|k: int|
            0 <= k < j && k < n.len() && n[k].parent == p && n[k].kind == SyntaxKind::LetBinding
                && #[trigger] binding_name(n, k) == x,
    decreases j,
{
    let l = lets_before(n, p, j);
    let i = choose|i: int| 0 <= i < l.len() && l[i] == x;
    let here = if n[j - 1].parent == p && n[j - 1].kind == SyntaxKind::LetBinding {
        seq![binding_name(n, j - 1)]
    } else {
        Seq::<Seq<char>>::empty()
    };
    if i < here.len() {
        assert(binding_name(n, j - 1) == x);
    } else {
        let rest = lets_before(n, p, j - 1);
        assert(rest[i - here.len()] == x);
        lemma_lets_declared_before(n, p, j - 1, x);
    }
}

/// Character order never puts a text before itself or both ways round.
pub proof fn lemma_text_lt_asym(a: Seq<char>, b: Seq<char>)
    ensures
        text_lt(a, b) ==> !text_lt(b, a),
    decreases a.len(),
{
    if a.len() > 0 && b.len() > 0 && a[0] == b[0] {
        lemma_text_lt_asym(a.drop_first(), b.drop_first());
    }
}

/// Different characters have different code points.
pub proof fn lemma_char_code(c: char, d: char)
    requires
        c != d,
    ensures
        (c as u32) != (d as u32),
{
}

/// Of two different texts, one comes before the other.
pub proof fn lemma_text_lt_total(a: Seq<char>, b: Seq<char>)
    ensures
        a != b ==> text_lt(a, b) || text_lt(b, a),
    decreases a.len(),
{
    if a.len() > 0 && b.len() > 0 {
        if a[0] == b[0] {
            lemma_text_lt_total(a.drop_first(), b.drop_first());
            if a.drop_first() == b.drop_first() {
                assert(a =~= seq![a[0]] + a.drop_first());
                assert(b =~= seq![b[0]] + b.drop_first());
            }
        } else {
            lemma_char_code(a[0], b[0]);
        }
    } else if a.len() == 0 && b.len() == 0 {
        assert(a =~= b);
    }
}

/// Character order is transitive.
pub proof fn lemma_text_lt_trans(a: Seq<char>, b: Seq<char>, c: Seq<char>)
    requires
        text_lt(a, b),
        text_lt(b, c),
    ensures
        text_lt(a, c),
    decreases a.len(),
{
    if a.len() > 0 && a[0] == b[0] && b[0] == c[0] {
        lemma_text_lt_trans(a.drop_first(), b.drop_first(), c.drop_first());
    }
}

/// Every text comes after the one before it.
pub open spec fn ascending(s: Seq<Seq<char>>) -> bool {
    forall|i: int, j: int| 0 <= i < j < s.len() ==> text_lt(#[trigger] s[i], #[trigger] s[j])
}

/// Adding a name to ascending names keeps them ascending.
pub proof fn lemma_insert_sorted_ascending(acc: Seq<Seq<char>>, x: Seq<char>)
    requires
        ascending(acc),
    ensures
        ascending(insert_sorted(acc, x)),
    decreases acc.len(),
{
    let r = insert_sorted(acc, x);
    if acc.len() == 0 {
    } else if acc[0] == x {
    } else if text_lt(x, acc[0]) {
        assert forall|i: int, j: int| 0 <= i < j < r.len() implies text_lt(
            #[trigger] r[i],
            #[trigger] r[j],
        ) by {
            if i == 0 {
                if j > 1 {
                    assert(text_lt(acc[0], acc[j - 1]));
                    lemma_text_lt_trans(x, acc[0], acc[j - 1]);
                }
            } else {
                assert(text_lt(acc[i - 1], acc[j - 1]));
            }
        }
    } else {
        let rest = acc.drop_first();
        assert forall|i: int, j: int| 0 <= i < j < rest.len() implies text_lt(
            #[trigger] rest[i],
            #[trigger] rest[j],
        ) by {
            assert(text_lt(acc[i + 1], acc[j + 1]));
        }
        lemma_insert_sorted_ascending(rest, x);
        let t = insert_sorted(rest, x);
        lemma_text_lt_total(x, acc[0]);
        assert forall|i: int, j: int| 0 <= i < j < r.len() implies text_lt(
            #[trigger] r[i],
            #[trigger] r[j],
        ) by {
            if i == 0 {
                assert(t.contains(t[j - 1]));
                lemma_insert_sorted_contains(rest, x, t[j - 1]);
                if t[j - 1] == x {
                } else {
                    let k = choose|k: int| 0 <= k < rest.len() && rest[k] == t[j - 1];
                    assert(text_lt(acc[0], acc[k + 1]));
                }
            } else {
                assert(r[i] == t[i - 1] && r[j] == t[j - 1]);
            }
        }
    }
}

/// The local names are offered in strictly ascending character order.
pub proof fn lemma_sorted_names_ascending(s: Seq<Seq<char>>)
    ensures
        ascending(sorted_names(s)),
    decreases s.len(),
{
    if s.len() > 0 {
        lemma_sorted_names_ascending(s.drop_last());
        lemma_insert_sorted_ascending(sorted_names(s.drop_last()), s.last());
    }
}

} // verus!
