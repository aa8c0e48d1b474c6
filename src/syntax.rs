//! A syntax tree stored as an arena of nodes in document pre-order.
//!
//! Every node names its parent by index, and a parent always stands before
//! its children, so the children of a node are the later nodes that name it,
//! in order. Leaves carry their text and their offset (in characters) in the
//! document; inner nodes carry no text.
use vstd::prelude::*;

verus! {

/// The kind of a syntax node.
#[derive(Clone, Copy, Debug, PartialEq, Eq, Structural)]
pub enum SyntaxKind {
    Markup,
    Text,
    Space,
    LineComment,
    BlockComment,
    Hashtag,
    Ident,
    Dot,
    Eq,
    Colon,
    Comma,
    Star,
    LeftParen,
    RightParen,
    LeftBrace,
    RightBrace,
    LeftBracket,
    RightBracket,
    LetKeyword,
    SetKeyword,
    ShowKeyword,
    ImportKeyword,
    ForKeyword,
    InKeyword,
    Str,
    Int,
    Math,
    Formula,
    MathIdent,
    MathFrac,
    MathAttach,
    Code,
    CodeBlock,
    ContentBlock,
    FuncCall,
    FieldAccess,
    Args,
    Named,
    LetBinding,
    SetRule,
    ShowRule,
    ModuleImport,
    ImportItems,
    ForLoop,
    ForPattern,
    Closure,
    Error,
}

impl SyntaxKind {
    /// Whitespace and comments.
    pub open spec fn spec_is_trivia(self) -> bool {
        self == SyntaxKind::Space || self == SyntaxKind::LineComment || self
            == SyntaxKind::BlockComment
    }

    #[verifier::when_used_as_spec(spec_is_trivia)]
    pub fn is_trivia(self) -> (r: bool)
        ensures
            r == self.spec_is_trivia(),
    {
        self == SyntaxKind::Space || self == SyntaxKind::LineComment || self
            == SyntaxKind::BlockComment
    }

    /// The kinds that form an expression.
    pub open spec fn spec_is_expr(self) -> bool {
        match self {
            SyntaxKind::Text | SyntaxKind::Ident | SyntaxKind::MathIdent | SyntaxKind::Str
            | SyntaxKind::Int | SyntaxKind::Formula | SyntaxKind::CodeBlock
            | SyntaxKind::ContentBlock | SyntaxKind::FuncCall | SyntaxKind::FieldAccess
            | SyntaxKind::LetBinding | SyntaxKind::SetRule | SyntaxKind::ShowRule
            | SyntaxKind::ModuleImport | SyntaxKind::ForLoop | SyntaxKind::Closure => true,
            _ => false,
        }
    }

    #[verifier::when_used_as_spec(spec_is_expr)]
    pub fn is_expr(self) -> (r: bool)
        ensures
            r == self.spec_is_expr(),
    {
        match self {
            SyntaxKind::Text | SyntaxKind::Ident | SyntaxKind::MathIdent | SyntaxKind::Str
            | SyntaxKind::Int | SyntaxKind::Formula | SyntaxKind::CodeBlock
            | SyntaxKind::ContentBlock | SyntaxKind::FuncCall | SyntaxKind::FieldAccess
            | SyntaxKind::LetBinding | SyntaxKind::SetRule | SyntaxKind::ShowRule
            | SyntaxKind::ModuleImport | SyntaxKind::ForLoop | SyntaxKind::Closure => true,
            _ => false,
        }
    }

    /// The kinds of math mode.
    pub open spec fn spec_is_math(self) -> bool {
        self == SyntaxKind::Formula || self == SyntaxKind::Math || self == SyntaxKind::MathFrac
            || self == SyntaxKind::MathAttach
    }

    #[verifier::when_used_as_spec(spec_is_math)]
    pub fn is_math(self) -> (r: bool)
        ensures
            r == self.spec_is_math(),
    {
        self == SyntaxKind::Formula || self == SyntaxKind::Math || self == SyntaxKind::MathFrac
            || self == SyntaxKind::MathAttach
    }
}

/// One node of the arena.
pub struct SyntaxNode {
    pub kind: SyntaxKind,
    /// The index of the parent node; `None` for the root.
    pub parent: Option<usize>,
    /// Where the node starts in the document, in characters.
    pub offset: usize,
    /// The text of a leaf; `None` for an inner node.
    pub text: Option<String>,
}

impl SyntaxNode {
    pub open spec fn is_leaf(self) -> bool {
        self.text is Some
    }

    /// The length of a leaf's text, in characters.
    pub open spec fn len(self) -> nat {
        match self.text {
            Some(t) => t@.len(),
            None => 0,
        }
    }

    pub open spec fn end(self) -> int {
        self.offset + self.len()
    }

    /// The leaf's range `(offset, end]` holds the cursor.
    pub open spec fn covers(self, cursor: int) -> bool {
        self.is_leaf() && self.offset < cursor <= self.end()
    }

    /// The node's range `[offset, end]` holds the cursor.
    pub open spec fn reaches(self, cursor: int) -> bool {
        self.offset <= cursor <= self.end()
    }
}

/// A parsed document: its syntax tree.
pub struct Source {
    pub nodes: Vec<SyntaxNode>,
}

/// An optional node index, as an integer.
pub open spec fn opt_index(o: Option<usize>) -> Option<int> {
    match o {
        Some(i) => Some(i as int),
        None => None,
    }
}

/// The parent of node `i` stands before it and is an inner node.
pub open spec fn parent_ok(n: Seq<SyntaxNode>, i: int) -> bool {
    match n[i].parent {
        Some(p) => p < i && !n[p as int].is_leaf(),
        None => true,
    }
}

/// The leaves do not overlap and come in document order.
pub open spec fn leaves_ordered(n: Seq<SyntaxNode>) -> bool {
    forall|j: int, k: int|
        0 <= j < k < n.len() && #[trigger] n[j].is_leaf() && #[trigger] n[k].is_leaf() ==> n[j].end()
            <= n[k].offset
}

pub open spec fn tree_wf(n: Seq<SyntaxNode>) -> bool {
    &&& forall|i: int| 0 <= i < n.len() ==> #[trigger] parent_ok(n, i)
    &&& forall|i: int| 0 <= i < n.len() ==> #[trigger] n[i].end() <= usize::MAX
    &&& leaves_ordered(n)
}

/// The first leaf at or after index `i` whose range holds the cursor.
pub open spec fn leaf_from(n: Seq<SyntaxNode>, cursor: int, i: int) -> Option<int>
    decreases n.len() - i,
{
    if i < 0 || i >= n.len() {
        None
    } else if n[i].covers(cursor) {
        Some(i)
    } else {
        leaf_from(n, cursor, i + 1)
    }
}

/// The first leaf at or after index `i` that starts at the cursor.
pub open spec fn leaf_starting_from(n: Seq<SyntaxNode>, cursor: int, i: int) -> Option<int>
    decreases n.len() - i,
{
    if i < 0 || i >= n.len() {
        None
    } else if n[i].is_leaf() && n[i].offset == cursor {
        Some(i)
    } else {
        leaf_starting_from(n, cursor, i + 1)
    }
}

/// The first leaf at or after index `i`.
pub open spec fn first_leaf_from(n: Seq<SyntaxNode>, i: int) -> Option<int>
    decreases n.len() - i,
{
    if i < 0 || i >= n.len() {
        None
    } else if n[i].is_leaf() {
        Some(i)
    } else {
        first_leaf_from(n, i + 1)
    }
}

/// The node at the cursor: the first leaf whose range `(offset, end]` holds
/// it; else, at the start of a leaf that no leaf ends at, the first leaf
/// starting there; else, in a tree without leaves, the root at its start.
pub open spec fn node_at(n: Seq<SyntaxNode>, cursor: int) -> Option<int> {
    match leaf_from(n, cursor, 0) {
        Some(i) => Some(i),
        None => match leaf_starting_from(n, cursor, 0) {
            Some(i) => Some(i),
            None => if n.len() > 0 && first_leaf_from(n, 0) is None && n[0].offset == cursor {
                Some(0)
            } else {
                None
            },
        },
    }
}

/// A leaf starting at the cursor found from index `i` on stands at or after
/// `i`.
pub proof fn lemma_leaf_starting_from(n: Seq<SyntaxNode>, cursor: int, i: int)
    ensures
        leaf_starting_from(n, cursor, i) matches Some(j) ==> i <= j < n.len() && n[j].is_leaf()
            && n[j].offset == cursor,
    decreases n.len() - i,
{
    if 0 <= i < n.len() && !(n[i].is_leaf() && n[i].offset == cursor) {
        lemma_leaf_starting_from(n, cursor, i + 1);
    }
}

/// The node at the cursor is a node of the tree whose range holds the cursor,
/// and a leaf unless it is the first node.
pub proof fn lemma_node_at(n: Seq<SyntaxNode>, cursor: int)
    ensures
        node_at(n, cursor) matches Some(j) ==> 0 <= j < n.len() && n[j].reaches(cursor) && (
        n[j].is_leaf() || j == 0),
{
    lemma_leaf_from(n, cursor, 0);
    lemma_leaf_starting_from(n, cursor, 0);
}

/// A leaf found from index `i` on stands at or after `i` and covers the
/// cursor.
pub proof fn lemma_leaf_from(n: Seq<SyntaxNode>, cursor: int, i: int)
    ensures
        leaf_from(n, cursor, i) matches Some(j) ==> i <= j < n.len() && n[j].covers(cursor),
    decreases n.len() - i,
{
    if 0 <= i < n.len() && !n[i].covers(cursor) {
        lemma_leaf_from(n, cursor, i + 1);
    }
}

/// A leaf found before index `j` stands before it and is a non-trivia leaf.
pub proof fn lemma_leaf_before(n: Seq<SyntaxNode>, j: int)
    ensures
        leaf_before(n, j) matches Some(k) ==> 0 <= k < j && k < n.len() && n[k].is_leaf()
            && !n[k].kind.spec_is_trivia(),
    decreases j,
{
    if 0 < j <= n.len() && !(n[j - 1].is_leaf() && !n[j - 1].kind.spec_is_trivia()) {
        lemma_leaf_before(n, j - 1);
    }
}

/// The last node before index `j` that is a non-trivia child of `p`.
pub open spec fn sibling_before(n: Seq<SyntaxNode>, p: int, j: int) -> Option<int>
    decreases j,
{
    if j <= 0 || j > n.len() {
        None
    } else if n[j - 1].parent == Some(p as usize) && !n[j - 1].kind.spec_is_trivia() {
        Some(j - 1)
    } else {
        sibling_before(n, p, j - 1)
    }
}

/// The last non-trivia leaf before index `j`.
pub open spec fn leaf_before(n: Seq<SyntaxNode>, j: int) -> Option<int>
    decreases j,
{
    if j <= 0 || j > n.len() {
        None
    } else if n[j - 1].is_leaf() && !n[j - 1].kind.spec_is_trivia() {
        Some(j - 1)
    } else {
        leaf_before(n, j - 1)
    }
}

/// The first child of `p` at or after index `j` that satisfies `kind_ok`.
pub open spec fn child_from(n: Seq<SyntaxNode>, p: int, j: int, want: KindWanted) -> Option<int>
    decreases n.len() - j,
{
    if j < 0 || j >= n.len() {
        None
    } else if n[j].parent == Some(p as usize) && want.spec_accepts(n[j].kind) {
        Some(j)
    } else {
        child_from(n, p, j + 1, want)
    }
}

/// The last child of `p` before index `j` that satisfies `want`.
pub open spec fn child_before(n: Seq<SyntaxNode>, p: int, j: int, want: KindWanted) -> Option<int>
    decreases j,
{
    if j <= 0 || j > n.len() {
        None
    } else if n[j - 1].parent == Some(p as usize) && want.spec_accepts(n[j - 1].kind) {
        Some(j - 1)
    } else {
        child_before(n, p, j - 1, want)
    }
}

/// The text of a leaf; empty for an inner node.
pub open spec fn node_text(n: Seq<SyntaxNode>, i: int) -> Seq<char> {
    match n[i].text {
        Some(t) => t@,
        None => Seq::empty(),
    }
}

/// Which children a search over a node's children looks for.
#[derive(Clone, Copy, PartialEq, Eq, Structural)]
pub enum KindWanted {
    Exactly(SyntaxKind),
    Expr,
    Imports,
}

impl KindWanted {
    pub open spec fn spec_accepts(self, k: SyntaxKind) -> bool {
        match self {
            KindWanted::Exactly(w) => k == w,
            KindWanted::Expr => k.spec_is_expr(),
            KindWanted::Imports => k == SyntaxKind::Star || k == SyntaxKind::ImportItems,
        }
    }

    #[verifier::when_used_as_spec(spec_accepts)]
    pub fn accepts(self, k: SyntaxKind) -> (r: bool)
        ensures
            r == self.spec_accepts(k),
    {
        match self {
            KindWanted::Exactly(w) => k == w,
            KindWanted::Expr => k.is_expr(),
            KindWanted::Imports => k == SyntaxKind::Star || k == SyntaxKind::ImportItems,
        }
    }
}

fn is_child_of(parent: Option<usize>, p: usize) -> (r: bool)
    ensures
        r == (parent == Some(p)),
{
    match parent {
        Some(q) => q == p,
        None => false,
    }
}

impl Source {
    pub open spec fn wf(&self) -> bool {
        tree_wf(self.nodes@)
    }

    pub open spec fn spec_leaf_at(&self, cursor: int) -> Option<int> {
        node_at(self.nodes@, cursor)
    }

    pub open spec fn spec_parent_kind(&self, i: int) -> Option<SyntaxKind> {
        match self.nodes@[i].parent {
            Some(p) => Some(self.nodes@[p as int].kind),
            None => None,
        }
    }

    pub open spec fn spec_prev_sibling(&self, i: int) -> Option<int> {
        match self.nodes@[i].parent {
            Some(p) => sibling_before(self.nodes@, p as int, i),
            None => None,
        }
    }

    pub open spec fn spec_prev_leaf(&self, i: int) -> Option<int> {
        leaf_before(self.nodes@, i)
    }

    pub open spec fn spec_find_child(&self, p: int, want: KindWanted) -> Option<int> {
        child_from(self.nodes@, p, p + 1, want)
    }

    pub open spec fn kind_of(&self, i: int) -> SyntaxKind {
        self.nodes@[i].kind
    }

    pub open spec fn spec_find_last_child(&self, p: int, want: KindWanted) -> Option<int> {
        child_before(self.nodes@, p, self.nodes@.len() as int, want)
    }

    pub open spec fn text_of(&self, i: int) -> Seq<char> {
        node_text(self.nodes@, i)
    }

    /// The text of a leaf; empty for an inner node.
    pub fn text(&self, i: usize) -> (r: String)
        requires
            i < self.nodes@.len(),
        ensures
            r@ == self.text_of(i as int),
    {
        match &self.nodes[i].text {
            Some(t) => t.clone(),
            None => String::new(),
        }
    }

    /// Whether the character just before the cursor, inside the node at the
    /// cursor, is `c`; false where the cursor is at the node's start.
    pub open spec fn spec_char_before_is(&self, i: int, cursor: int, c: char) -> bool {
        self.nodes@[i].offset < cursor && self.text_of(i)[cursor - 1 - self.nodes@[i].offset] == c
    }

    /// Whether the character just before the cursor, inside the node at the
    /// cursor, is `c`.
    pub fn char_before_is(&self, i: usize, cursor: usize, c: char) -> (r: bool)
        requires
            i < self.nodes@.len(),
            self.nodes@[i as int].reaches(cursor as int),
        ensures
            r == self.spec_char_before_is(i as int, cursor as int, c),
    {
        let offset = self.nodes[i].offset;
        if offset >= cursor {
            return false;
        }
        match &self.nodes[i].text {
            Some(t) => t.as_str().get_char(cursor - 1 - offset) == c,
            None => false,
        }
    }

    /// The last child of `p` of the wanted kind.
    pub fn find_last_child(&self, p: usize, want: KindWanted) -> (r: Option<usize>)
        requires
            p < self.nodes@.len(),
        ensures
            opt_index(r) == self.spec_find_last_child(p as int, want),
            r matches Some(j) ==> j < self.nodes@.len(),
    {
        let mut j: usize = self.nodes.len();
        while j > 0
            invariant
                j <= self.nodes@.len(),
                child_before(self.nodes@, p as int, self.nodes@.len() as int, want)
                    == child_before(self.nodes@, p as int, j as int, want),
            decreases j,
        {
            let node = &self.nodes[j - 1];
            if is_child_of(node.parent, p) && want.accepts(node.kind) {
                return Some(j - 1);
            }
            j = j - 1;
        }
        None
    }

    /// The node at the cursor: the first leaf whose range `(offset, end]`
    /// holds it; else the first leaf starting at the cursor; else, in a tree
    /// without leaves, the root where it starts. None for a cursor outside the
    /// document.
    pub fn leaf_at(&self, cursor: usize) -> (r: Option<usize>)
        ensures
            opt_index(r) == self.spec_leaf_at(cursor as int),
    {
        let ghost n = self.nodes@;
        let mut i: usize = 0;
        while i < self.nodes.len()
            invariant
                n == self.nodes@,
                i <= n.len(),
                leaf_from(n, cursor as int, 0) == leaf_from(n, cursor as int, i as int),
            decreases n.len() - i,
        {
            let node = &self.nodes[i];
            match &node.text {
                Some(t) => {
                    let len = t.as_str().unicode_len();
                    if node.offset < cursor && cursor - node.offset <= len {
                        return Some(i);
                    }
                },
                None => {},
            }
            i = i + 1;
        }
        let mut j: usize = 0;
        let mut any_leaf = false;
        while j < self.nodes.len()
            invariant
                n == self.nodes@,
                j <= n.len(),
                leaf_from(n, cursor as int, 0) is None,
                leaf_starting_from(n, cursor as int, 0) == leaf_starting_from(
                    n,
                    cursor as int,
                    j as int,
                ),
                any_leaf ==> first_leaf_from(n, 0) is Some,
                !any_leaf ==> first_leaf_from(n, 0) == first_leaf_from(n, j as int),
            decreases n.len() - j,
        {
            let node = &self.nodes[j];
            if node.text.is_some() {
                if node.offset == cursor {
                    return Some(j);
                }
                if !any_leaf {
                    assert(first_leaf_from(n, j as int) == Some(j as int));
                }
                any_leaf = true;
            }
            j = j + 1;
        }
        assert(first_leaf_from(n, n.len() as int) is None);
        if !any_leaf && self.nodes.len() > 0 && self.nodes[0].offset == cursor {
            Some(0)
        } else {
            None
        }
    }

    /// The kind of a node.
    pub fn kind(&self, i: usize) -> (r: SyntaxKind)
        requires
            i < self.nodes@.len(),
        ensures
            r == self.kind_of(i as int),
    {
        self.nodes[i].kind
    }

    /// The kind of a node's parent.
    pub fn parent_kind(&self, i: usize) -> (r: Option<SyntaxKind>)
        requires
            self.wf(),
            i < self.nodes@.len(),
        ensures
            r == self.spec_parent_kind(i as int),
    {
        assert(parent_ok(self.nodes@, i as int));
        match self.nodes[i].parent {
            Some(p) => Some(self.nodes[p].kind),
            None => None,
        }
    }

    /// The parent of a node.
    pub fn parent(&self, i: usize) -> (r: Option<usize>)
        requires
            self.wf(),
            i < self.nodes@.len(),
        ensures
            r == self.nodes@[i as int].parent,
            r matches Some(p) ==> p < i,
    {
        assert(parent_ok(self.nodes@, i as int));
        self.nodes[i].parent
    }

    /// The nearest earlier sibling that is not trivia.
    pub fn prev_sibling(&self, i: usize) -> (r: Option<usize>)
        requires
            i < self.nodes@.len(),
        ensures
            opt_index(r) == self.spec_prev_sibling(i as int),
            r matches Some(j) ==> j < i,
    {
        let p = match self.nodes[i].parent {
            Some(p) => p,
            None => return None,
        };
        let mut j: usize = i;
        while j > 0
            invariant
                j <= i < self.nodes@.len(),
                self.nodes@[i as int].parent == Some(p),
                sibling_before(self.nodes@, p as int, i as int) == sibling_before(
                    self.nodes@,
                    p as int,
                    j as int,
                ),
            decreases j,
        {
            let node = &self.nodes[j - 1];
            if is_child_of(node.parent, p) && !node.kind.is_trivia() {
                return Some(j - 1);
            }
            j = j - 1;
        }
        None
    }

    /// The nearest earlier leaf that is not trivia.
    pub fn prev_leaf(&self, i: usize) -> (r: Option<usize>)
        requires
            i < self.nodes@.len(),
        ensures
            opt_index(r) == self.spec_prev_leaf(i as int),
            r matches Some(j) ==> j < i,
    {
        let mut j: usize = i;
        while j > 0
            invariant
                j <= i < self.nodes@.len(),
                leaf_before(self.nodes@, i as int) == leaf_before(self.nodes@, j as int),
            decreases j,
        {
            let node = &self.nodes[j - 1];
            if node.text.is_some() && !node.kind.is_trivia() {
                return Some(j - 1);
            }
            j = j - 1;
        }
        None
    }

    /// The first child of `p` of the wanted kind.
    pub fn find_child(&self, p: usize, want: KindWanted) -> (r: Option<usize>)
        requires
            p < self.nodes@.len(),
        ensures
            opt_index(r) == self.spec_find_child(p as int, want),
            r matches Some(j) ==> p < j < self.nodes@.len(),
    {
        let n = self.nodes.len();
        let mut j: usize = p + 1;
        while j < self.nodes.len()
            invariant
                p < j <= self.nodes@.len(),
                child_from(self.nodes@, p as int, p + 1, want) == child_from(
                    self.nodes@,
                    p as int,
                    j as int,
                    want,
                ),
            decreases self.nodes@.len() - j,
        {
            let node = &self.nodes[j];
            if is_child_of(node.parent, p) && want.accepts(node.kind) {
                return Some(j);
            }
            j = j + 1;
        }
        None
    }
}

/// Builds a well-formed tree node by node, in document order: inner nodes
/// are opened and closed around their children, and each leaf's text follows
/// the text before it.
pub struct SourceBuilder {
    /// The nodes so far.
    pub nodes: Vec<SyntaxNode>,
    /// The open inner nodes, innermost last.
    pub open: Vec<usize>,
    /// Where the next leaf starts.
    pub end: usize,
}

impl SourceBuilder {
    pub open spec fn inv(&self) -> bool {
        &&& tree_wf(self.nodes@)
        &&& self.open@.len() > 0
        &&& forall|k: int|
            0 <= k < self.open@.len() ==> #[trigger] self.open@[k] < self.nodes@.len()
                && !self.nodes@[self.open@[k] as int].is_leaf()
        &&& forall|i: int|
            0 <= i < self.nodes@.len() && #[trigger] self.nodes@[i].is_leaf() ==> self.nodes@[i].end()
                <= self.end
    }

    /// `self` is `old` with one more node, a child of the innermost open node
    /// that starts where the next leaf would.
    pub open spec fn appended(&self, old: Self, kind: SyntaxKind) -> bool {
        &&& self.nodes@.len() == old.nodes@.len() + 1
        &&& self.nodes@.take(old.nodes@.len() as int) == old.nodes@
        &&& self.nodes@.last().kind == kind
        &&& self.nodes@.last().parent == Some(old.open@.last())
        &&& self.nodes@.last().offset == old.end
    }

    /// A tree whose root has the given kind.
    pub fn new(kind: SyntaxKind) -> (r: Self)
        ensures
            r.inv(),
            r.nodes@.len() == 1,
            r.nodes@[0].kind == kind,
            r.nodes@[0].parent is None,
            r.nodes@[0].text is None,
            r.open@ == seq![0usize],
            r.end == 0,
    {
        let mut nodes: Vec<SyntaxNode> = Vec::new();
        nodes.push(SyntaxNode { kind, parent: None, offset: 0, text: None });
        let mut open: Vec<usize> = Vec::new();
        open.push(0);
        let r = SourceBuilder { nodes, open, end: 0 };
        assert(parent_ok(r.nodes@, 0));
        assert(r.open@ =~= seq![0usize]);
        r
    }

    fn top(&self) -> (r: usize)
        requires
            self.inv(),
        ensures
            r < self.nodes@.len(),
            !self.nodes@[r as int].is_leaf(),
            r == self.open@.last(),
    {
        let k = self.open.len() - 1;
        assert(self.open@[k as int] < self.nodes@.len());
        self.open[k]
    }

    /// Opens an inner node as the next child of the innermost open node.
    pub fn start(&mut self, kind: SyntaxKind)
        requires
            old(self).inv(),
        ensures
            final(self).inv(),
            final(self).appended(*old(self), kind),
            final(self).nodes@.last().text is None,
            final(self).open@ == old(self).open@.push(old(self).nodes@.len() as usize),
            final(self).end == old(self).end,
    {
        let p = self.top();
        let k = self.nodes.len();
        let ghost before = self.nodes@;
        self.nodes.push(SyntaxNode { kind, parent: Some(p), offset: self.end, text: None });
        assert(self.nodes@.take(before.len() as int) =~= before);
        assert forall|i: int| 0 <= i < self.nodes@.len() implies #[trigger] parent_ok(
            self.nodes@,
            i,
        ) by {
            if i < k {
                assert(parent_ok(before, i));
            }
        }
        assert forall|i: int| 0 <= i < self.nodes@.len() implies #[trigger] self.nodes@[i].end()
            <= usize::MAX by {
            if i < k {
                assert(before[i].end() <= usize::MAX);
            }
        }
        self.open.push(k);
        assert forall|m: int| 0 <= m < self.open@.len() implies #[trigger] self.open@[m]
            < self.nodes@.len() && !self.nodes@[self.open@[m] as int].is_leaf() by {
            if m < self.open@.len() - 1 {
                assert(old(self).open@[m] < before.len());
            }
        }
    }

    /// Adds a leaf with the given text as the next child of the innermost open
    /// node.
    pub fn leaf(&mut self, kind: SyntaxKind, text: &str)
        requires
            old(self).inv(),
            old(self).end + text@.len() <= usize::MAX,
        ensures
            final(self).inv(),
            final(self).appended(*old(self), kind),
            final(self).nodes@.last().text matches Some(t) && t@ == text@,
            final(self).open@ == old(self).open@,
            final(self).end == old(self).end + text@.len(),
    {
        let p = self.top();
        let k = self.nodes.len();
        let len = text.unicode_len();
        let ghost before = self.nodes@;
        let offset = self.end;
        self.nodes.push(
            SyntaxNode { kind, parent: Some(p), offset, text: Some(String::from_str(text)) },
        );
        self.end = offset + len;
        assert(self.nodes@.take(before.len() as int) =~= before);
        assert forall|i: int| 0 <= i < self.nodes@.len() implies #[trigger] parent_ok(
            self.nodes@,
            i,
        ) by {
            if i < k {
                assert(parent_ok(before, i));
            }
        }
        assert forall|i: int| 0 <= i < self.nodes@.len() implies #[trigger] self.nodes@[i].end()
            <= usize::MAX by {
            if i < k {
                assert(before[i].end() <= usize::MAX);
            }
        }
        assert forall|j: int, m: int|
            0 <= j < m < self.nodes@.len() && #[trigger] self.nodes@[j].is_leaf()
                && #[trigger] self.nodes@[m].is_leaf() implies self.nodes@[j].end()
            <= self.nodes@[m].offset by {
            if m < k {
                assert(before[j].is_leaf() && before[m].is_leaf());
            } else {
                assert(before[j].is_leaf());
            }
        }
        assert forall|i: int|
            0 <= i < self.nodes@.len() && #[trigger] self.nodes@[i].is_leaf() implies self.nodes@[i].end()
            <= self.end by {
            if i < k {
                assert(before[i].is_leaf());
            }
        }
        assert forall|m: int| 0 <= m < self.open@.len() implies #[trigger] self.open@[m]
            < self.nodes@.len() && !self.nodes@[self.open@[m] as int].is_leaf() by {
            assert(old(self).open@[m] < before.len());
        }
    }

    /// Closes the innermost open node; the root stays open.
    pub fn end(&mut self)
        requires
            old(self).inv(),
        ensures
            final(self).inv(),
            final(self).nodes@ == old(self).nodes@,
            final(self).open@ == if old(self).open@.len() > 1 {
                old(self).open@.drop_last()
            } else {
                old(self).open@
            },
            final(self).end == old(self).end,
    {
        if self.open.len() > 1 {
            self.open.pop();
            assert forall|m: int| 0 <= m < self.open@.len() implies #[trigger] self.open@[m]
                < self.nodes@.len() && !self.nodes@[self.open@[m] as int].is_leaf() by {
                assert(old(self).open@[m] == self.open@[m]);
            }
        }
    }

    /// The finished tree.
    pub fn finish(self) -> (r: Source)
        requires
            self.inv(),
        ensures
            r.wf(),
            r.nodes@ == self.nodes@,
    {
        Source { nodes: self.nodes }
    }
}

} // verus!
