//! The names that local bindings make visible at a node.
//!
//! Walking up from a node through its ancestors, each level contributes the
//! names of the let bindings among the node and its earlier siblings (never a
//! later one: bindings are not hoisted), and, where the parent is a for loop
//! reached from anywhere but its iterable, the names of the loop's pattern.
use vstd::prelude::*;

use crate::syntax::{
    child_before, child_from, node_text, parent_ok, KindWanted, Source, SyntaxKind,
    SyntaxNode,
};

verus! {

pub open spec fn texts(v: Seq<String>) -> Seq<Seq<char>> {
    v.map_values(|s: String| s@)
}

pub proof fn lemma_texts_push(v: Seq<String>, s: String)
    ensures
        texts(v.push(s)) == texts(v).push(s@),
{
    assert(texts(v.push(s)) =~= texts(v).push(s@));
}

/// The name that the let binding at `j` binds: the text of its first
/// identifier, or nothing.
pub open spec fn binding_name(n: Seq<SyntaxNode>, j: int) -> Seq<char> {
    match child_from(n, j, j + 1, KindWanted::Exactly(SyntaxKind::Ident)) {
        Some(c) => node_text(n, c),
        None => Seq::empty(),
    }
}

/// The names of the let bindings before index `j` whose parent is `p`,
/// nearest first.
pub open spec fn lets_before(n: Seq<SyntaxNode>, p: Option<usize>, j: int) -> Seq<Seq<char>>
    decreases j,
{
    if j <= 0 || j > n.len() {
        Seq::empty()
    } else {
        let here = if n[j - 1].parent == p && n[j - 1].kind == SyntaxKind::LetBinding {
            seq![binding_name(n, j - 1)]
        } else {
            Seq::empty()
        };
        here + lets_before(n, p, j - 1)
    }
}

/// The names that a for loop's pattern binds: the key, where the pattern has
/// two identifiers or more, then the value (its last identifier, or nothing).
pub open spec fn pattern_names(n: Seq<SyntaxNode>, loop_node: int) -> Seq<Seq<char>> {
    match child_from(n, loop_node, loop_node + 1, KindWanted::Exactly(SyntaxKind::ForPattern)) {
        Some(q) => {
            let first = child_from(n, q, q + 1, KindWanted::Exactly(SyntaxKind::Ident));
            let last = child_before(n, q, n.len() as int, KindWanted::Exactly(SyntaxKind::Ident));
            let key = match (first, last) {
                (Some(f), Some(l)) => if f != l {
                    seq![node_text(n, f)]
                } else {
                    Seq::empty()
                },
                _ => Seq::empty(),
            };
            let value = match last {
                Some(l) => node_text(n, l),
                None => Seq::empty(),
            };
            key.push(value)
        },
        None => seq![Seq::empty()],
    }
}

/// The previous sibling of node `a` is the `in` keyword: `a` is a loop's
/// iterable.
pub open spec fn after_in(n: Seq<SyntaxNode>, a: int) -> bool {
    match n[a].parent {
        Some(p) => match crate::syntax::sibling_before(n, p as int, a) {
            Some(s) => n[s].kind == SyntaxKind::InKeyword,
            None => false,
        },
        None => false,
    }
}

/// The names that node `a`'s parent binds for `a` as a for loop.
pub open spec fn loop_names(n: Seq<SyntaxNode>, a: int) -> Seq<Seq<char>> {
    match n[a].parent {
        Some(p) => if n[p as int].kind == SyntaxKind::ForLoop && !after_in(n, a) {
            pattern_names(n, p as int)
        } else {
            Seq::empty()
        },
        None => Seq::empty(),
    }
}

/// All names bound by local bindings visible at node `a`, level by level
/// from `a` upward.
pub open spec fn bound_names(n: Seq<SyntaxNode>, a: int) -> Seq<Seq<char>>
    decreases a,
{
    if a < 0 || a >= n.len() {
        Seq::empty()
    } else {
        lets_before(n, n[a].parent, a + 1) + names_above(n, a)
    }
}

/// What a level contributes after its let bindings: the loop names, then the
/// levels above.
pub open spec fn names_above(n: Seq<SyntaxNode>, a: int) -> Seq<Seq<char>>
    decreases a, 0int,
{
    if a < 0 || a >= n.len() {
        Seq::empty()
    } else {
        loop_names(n, a) + match n[a].parent {
            Some(p) => if p < a {
                bound_names(n, p as int)
            } else {
                Seq::empty()
            },
            None => Seq::empty(),
        }
    }
}

/// Whether two optional indices are equal.
fn same_parent(a: Option<usize>, b: Option<usize>) -> (r: bool)
    ensures
        r == (a == b),
{
    match (a, b) {
        (Some(x), Some(y)) => x == y,
        (None, None) => true,
        _ => false,
    }
}

impl Source {
    /// The name that a let binding binds.
    pub fn binding_name(&self, j: usize) -> (r: String)
        requires
            j < self.nodes@.len(),
        ensures
            r@ == binding_name(self.nodes@, j as int),
    {
        match self.find_child(j, KindWanted::Exactly(SyntaxKind::Ident)) {
            Some(c) => self.text(c),
            None => String::new(),
        }
    }

    /// The names that a for loop's pattern binds.
    pub fn pattern_names(&self, loop_node: usize) -> (r: Vec<String>)
        requires
            loop_node < self.nodes@.len(),
        ensures
            texts(r@) == pattern_names(self.nodes@, loop_node as int),
    {
        let mut r: Vec<String> = Vec::new();
        match self.find_child(loop_node, KindWanted::Exactly(SyntaxKind::ForPattern)) {
            Some(q) => {
                let first = self.find_child(q, KindWanted::Exactly(SyntaxKind::Ident));
                let last = self.find_last_child(q, KindWanted::Exactly(SyntaxKind::Ident));
                match (first, last) {
                    (Some(f), Some(l)) => {
                        if f != l {
                            r.push(self.text(f));
                        }
                    },
                    _ => {},
                }
                let value = match last {
                    Some(l) => self.text(l),
                    None => String::new(),
                };
                r.push(value);
            },
            None => {
                r.push(String::new());
            },
        }
        assert(texts(r@) =~= pattern_names(self.nodes@, loop_node as int));
        r
    }

    /// The names bound by local bindings visible at a node, nearest level
    /// first, in the order the walk meets them.
    pub fn bound_names(&self, leaf: usize) -> (r: Vec<String>)
        requires
            self.wf(),
            leaf < self.nodes@.len(),
        ensures
            texts(r@) == bound_names(self.nodes@, leaf as int),
    {
        let ghost n = self.nodes@;
        let mut out: Vec<String> = Vec::new();
        let mut a: usize = leaf;
        assert(texts(out@) + bound_names(n, a as int) =~= bound_names(n, leaf as int));
        loop
            invariant
                n == self.nodes@,
                self.wf(),
                a < n.len(),
                texts(out@) + bound_names(n, a as int) == bound_names(n, leaf as int),
            decreases a,
        {
            let p = self.nodes[a].parent;
            let count = self.nodes.len();
            let mut j: usize = if a < count {
                a + 1
            } else {
                a
            };
            while j > 0
                invariant
                    n == self.nodes@,
                    a < n.len(),
                    j <= a + 1,
                    p == n[a as int].parent,
                    texts(out@) + lets_before(n, p, j as int) + names_above(n, a as int)
                        == bound_names(n, leaf as int),
                decreases j,
            {
                let node = &self.nodes[j - 1];
                if same_parent(node.parent, p) && node.kind == SyntaxKind::LetBinding {
                    let name = self.binding_name(j - 1);
                    let ghost before = out@;
                    proof {
                        lemma_texts_push(out@, name);
                    }
                    out.push(name);
                    assert(texts(out@) + lets_before(n, p, j - 1) =~= texts(before) + lets_before(n, p, j as int));
                }
                j = j - 1;
            }
            assert(parent_ok(n, a as int));
            match p {
                Some(q) => {
                    let in_loop = self.nodes[q].kind == SyntaxKind::ForLoop;
                    let iterable = match self.prev_sibling(a) {
                        Some(s) => self.nodes[s].kind == SyntaxKind::InKeyword,
                        None => false,
                    };
                    assert(lets_before(n, p, 0) =~= Seq::<Seq<char>>::empty());
                    assert(names_above(n, a as int) == loop_names(n, a as int) + bound_names(n, q as int));
                    if in_loop && !iterable {
                        assert(texts(out@) + loop_names(n, a as int) + bound_names(n, q as int) == bound_names(n, leaf as int));
                        let names = self.pattern_names(q);
                        let mut k: usize = 0;
                        assert(texts(names@).skip(0) =~= texts(names@));
                        while k < names.len()
                            invariant
                                n == self.nodes@,
                                k <= names@.len(),
                                texts(out@) + texts(names@).skip(k as int) + bound_names(n, q as int)
                                    == bound_names(n, leaf as int),
                            decreases names@.len() - k,
                        {
                            proof {
                                lemma_texts_push(out@, names@[k as int]);
                            }
                            out.push(names[k].clone());
                            assert(texts(names@).skip(k as int) =~= seq![names@[k as int]@] + texts(
                                names@,
                            ).skip(k + 1));
                            k = k + 1;
                        }
                        assert(texts(names@).skip(names@.len() as int) =~= Seq::<Seq<char>>::empty());
                        assert(texts(out@) + bound_names(n, q as int) =~= texts(out@) + Seq::<Seq<char>>::empty() + bound_names(n, q as int));
                    } else {
                        assert(loop_names(n, a as int) =~= Seq::<Seq<char>>::empty());
                        assert(texts(out@) + bound_names(n, q as int) =~= texts(out@) + lets_before(n, p, 0) + names_above(n, a as int));
                    }
                    a = q;
                },
                None => {
                    assert(texts(out@) + lets_before(n, p, 0) + names_above(n, a as int) =~= texts(out@));
                    return out;
                },
            }
        }
    }
}

} // verus!
