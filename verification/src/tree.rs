//! The immutable syntax tree.
//!
//! A tree is a hierarchy of [`Node`]s whose leaves are [`SyntaxToken`]s.
//! Every token of the input, trivia included, appears as exactly one leaf,
//! so concatenating the leaf texts in tree order reproduces the source text.
//! Nodes own their children outright as plain immutable values; sharing
//! unchanged subtrees across repeated parses of edited input would take
//! reference-counted nodes instead, and belongs to the incremental layer
//! built on top of this crate.

use crate::source::TextSpan;
use crate::syntax::{is_trivia_kind, SyntaxKind};
use vstd::prelude::*;

verus! {

/// The context-free content of a leaf: a kind and the exact source text.
#[derive(Debug, PartialEq, Eq, Hash)]
pub struct RawSyntaxToken {
    pub kind: SyntaxKind,
    pub text: String,
}

impl RawSyntaxToken {
    pub fn with(kind: SyntaxKind, text: String) -> (r: Self)
        ensures
            r.kind == kind,
            r.text == text,
    {
        RawSyntaxToken { kind, text }
    }
}

/// A leaf of the tree: a raw token placed at a span of the source text.
#[derive(Debug, PartialEq, Eq)]
pub struct SyntaxToken {
    pub raw: RawSyntaxToken,
    pub span: TextSpan,
}

impl SyntaxToken {
    pub fn with(raw: RawSyntaxToken, span: TextSpan) -> (t: Self)
        requires
            span.start <= span.end,
        ensures
            t.raw == raw,
            t.span == span,
    {
        SyntaxToken { raw, span }
    }

    /// A zero-width token of the given kind, synthesized at `pos` where a
    /// required token was absent from the input.
    pub fn missing(kind: SyntaxKind, pos: usize) -> (t: Self)
        ensures
            t.raw.kind == kind,
            t.raw.text@ == Seq::<char>::empty(),
            t.span.start == pos,
            t.span.end == pos,
    {
        SyntaxToken {
            raw: RawSyntaxToken { kind, text: String::new() },
            span: TextSpan { start: pos, end: pos },
        }
    }

    pub fn kind(&self) -> (k: SyntaxKind)
        ensures
            k == self.raw.kind,
    {
        self.raw.kind
    }
}

/// One node of the tree: either an inner node with a kind and an ordered
/// sequence of children, or a leaf holding one token.
#[derive(Debug, PartialEq, Eq)]
pub enum Node {
    Branch { kind: SyntaxKind, children: Vec<Node> },
    Leaf { token: SyntaxToken },
}

/// A whole parse: the top-level nodes of one source text.  A finished parse
/// holds exactly one top-level node, the root.
#[derive(Debug, PartialEq, Eq)]
pub struct SyntaxTree(pub Vec<Node>);

impl SyntaxTree {
    /// The top-level nodes of the tree.
    pub fn children(&self) -> (r: &Vec<Node>)
        ensures
            r@ == self.0@,
    {
        &self.0
    }
}

/// The text under a node: the concatenation of its leaf texts in tree order.
pub open spec fn node_text(n: Node) -> Seq<char>
    decreases n,
{
    match n {
        Node::Leaf { token } => token.raw.text@,
        Node::Branch { kind, children } => nodes_text(children@),
    }
}

/// The concatenated text under a sequence of nodes.
pub open spec fn nodes_text(nodes: Seq<Node>) -> Seq<char>
    decreases nodes,
{
    if nodes.len() == 0 {
        Seq::empty()
    } else {
        nodes_text(nodes.subrange(0, nodes.len() - 1)) + node_text(nodes[nodes.len() - 1])
    }
}

/// The text of a whole tree.
pub open spec fn tree_text(t: SyntaxTree) -> Seq<char> {
    nodes_text(t.0@)
}

/// Appending one node appends its text.
pub proof fn lemma_nodes_text_push(nodes: Seq<Node>, n: Node)
    ensures
        nodes_text(nodes.push(n)) == nodes_text(nodes) + node_text(n),
{
    let pushed = nodes.push(n);
    assert(pushed.subrange(0, pushed.len() - 1) =~= nodes);
    assert(pushed[pushed.len() - 1] == n);
}

/// The leaves under a node tile the text exactly: the node's content starts
/// at `start`, every leaf's span covers precisely its own text, and
/// consecutive leaves meet without gap or overlap.
pub open spec fn node_tiles(n: Node, start: int) -> bool
    decreases n,
{
    match n {
        Node::Leaf { token } => token.span.start == start && token.span.end == start
            + token.raw.text@.len(),
        Node::Branch { kind, children } => nodes_tile(children@, start),
    }
}

/// A sequence of nodes tiles the text from `start`: each node starts exactly
/// where the text of the nodes before it ends.
pub open spec fn nodes_tile(nodes: Seq<Node>, start: int) -> bool
    decreases nodes,
{
    if nodes.len() == 0 {
        true
    } else {
        nodes_tile(nodes.subrange(0, nodes.len() - 1), start) && node_tiles(
            nodes[nodes.len() - 1],
            start + nodes_text(nodes.subrange(0, nodes.len() - 1)).len(),
        )
    }
}

/// Appending a node keeps a tiling exactly when the node tiles the position
/// right after the text gathered so far.
pub proof fn lemma_nodes_tile_push(nodes: Seq<Node>, n: Node, start: int)
    ensures
        nodes_tile(nodes.push(n), start) <==> nodes_tile(nodes, start) && node_tiles(
            n,
            start + nodes_text(nodes).len(),
        ),
{
    let pushed = nodes.push(n);
    assert(pushed.subrange(0, pushed.len() - 1) =~= nodes);
    assert(pushed[pushed.len() - 1] == n);
}

/// Text concatenates over node sequences.
pub proof fn lemma_nodes_text_concat(a: Seq<Node>, b: Seq<Node>)
    ensures
        nodes_text(a + b) == nodes_text(a) + nodes_text(b),
    decreases b.len(),
{
    if b.len() == 0 {
        assert(a + b =~= a);
        assert(nodes_text(a) + nodes_text(b) =~= nodes_text(a));
    } else {
        let c = a + b;
        assert(c.subrange(0, c.len() - 1) =~= a + b.subrange(0, b.len() - 1));
        assert(c[c.len() - 1] == b[b.len() - 1]);
        lemma_nodes_text_concat(a, b.subrange(0, b.len() - 1));
        assert(nodes_text(a) + nodes_text(b.subrange(0, b.len() - 1)) + node_text(b[b.len() - 1])
            =~= nodes_text(a) + nodes_text(b));
    }
}

/// In a tiling, each node sits exactly after the text of the nodes before it.
pub proof fn lemma_nodes_tile_index(nodes: Seq<Node>, start: int, i: int)
    requires
        nodes_tile(nodes, start),
        0 <= i < nodes.len(),
    ensures
        node_tiles(nodes[i], start + nodes_text(nodes.take(i)).len()),
    decreases nodes.len(),
{
    if i == nodes.len() - 1 {
        assert(nodes.take(i) =~= nodes.subrange(0, nodes.len() - 1));
    } else {
        let head = nodes.subrange(0, nodes.len() - 1);
        assert(head.take(i) =~= nodes.take(i));
        lemma_nodes_tile_index(head, start, i);
    }
}

/// A node is dense when every branch under it has at least one child.  The
/// parser's recovery guarantees this: even a missing expression carries a
/// zero-width leaf, so no node floats without a position of its own.
pub open spec fn node_dense(n: Node) -> bool
    decreases n,
{
    match n {
        Node::Leaf { token } => true,
        Node::Branch { kind, children } => children@.len() > 0 && nodes_dense(children@),
    }
}

/// Whether every node of a sequence is dense.
pub open spec fn nodes_dense(nodes: Seq<Node>) -> bool
    decreases nodes,
{
    if nodes.len() == 0 {
        true
    } else {
        nodes_dense(nodes.subrange(0, nodes.len() - 1)) && node_dense(nodes[nodes.len() - 1])
    }
}

/// Appending keeps density exactly when the appended node is dense.
pub proof fn lemma_nodes_dense_push(nodes: Seq<Node>, n: Node)
    ensures
        nodes_dense(nodes.push(n)) <==> nodes_dense(nodes) && node_dense(n),
{
    let pushed = nodes.push(n);
    assert(pushed.subrange(0, pushed.len() - 1) =~= nodes);
    assert(pushed[pushed.len() - 1] == n);
}

/// Each element of a dense sequence is dense.
pub proof fn lemma_nodes_dense_index(nodes: Seq<Node>, i: int)
    requires
        nodes_dense(nodes),
        0 <= i < nodes.len(),
    ensures
        node_dense(nodes[i]),
    decreases nodes.len(),
{
    if i < nodes.len() - 1 {
        lemma_nodes_dense_index(nodes.subrange(0, nodes.len() - 1), i);
    }
}

/// Dropping the first node of a tiling leaves a tiling of the rest, shifted
/// past the first node's text; density is kept too.
pub proof fn lemma_nodes_tile_skip_first(nodes: Seq<Node>, start: int)
    requires
        nodes.len() > 0,
        nodes_tile(nodes, start),
        nodes_dense(nodes),
    ensures
        nodes_tile(nodes.skip(1), start + node_text(nodes[0]).len()),
        nodes_dense(nodes.skip(1)),
    decreases nodes.len(),
{
    if nodes.len() == 1 {
        assert(nodes.skip(1) =~= Seq::<Node>::empty());
    } else {
        let head = nodes.subrange(0, nodes.len() - 1);
        lemma_nodes_tile_skip_first(head, start);
        let tail = nodes.skip(1);
        assert(tail.subrange(0, tail.len() - 1) =~= head.skip(1));
        assert(tail[tail.len() - 1] == nodes[nodes.len() - 1]);
        assert(head =~= seq![nodes[0]] + head.skip(1));
        lemma_nodes_text_concat(seq![nodes[0]], head.skip(1));
        assert(seq![nodes[0]].subrange(0, 0) =~= Seq::<Node>::empty());
        assert(nodes_text(Seq::<Node>::empty()) =~= Seq::<char>::empty());
        assert(nodes_text(seq![nodes[0]]) =~= node_text(nodes[0]));
    }
}

/// The span-containment law.  For a dense node whose leaves tile the text
/// from `start`, the full span covers exactly that text, and the trimmed
/// span lies inside the full span.
pub proof fn lemma_span_within_full_span(n: Node, start: int)
    requires
        node_tiles(n, start),
        node_dense(n),
    ensures
        spec_full_span(n).start == start,
        spec_full_span(n).end == start + node_text(n).len(),
        spec_full_span(n).start <= spec_span(n).start,
        spec_span(n).end <= spec_full_span(n).end,
    decreases n, 1int,
{
    match n {
        Node::Leaf { token } => {},
        Node::Branch { kind, children } => {
            let s = children@;
            lemma_nodes_tile_index(s, start, 0);
            assert(s.take(0) =~= Seq::<Node>::empty());
            lemma_nodes_dense_index(s, 0);
            lemma_span_within_full_span(s[0], start);
            lemma_nodes_tile_index(s, start, s.len() - 1);
            assert(s.take(s.len() - 1) =~= s.subrange(0, s.len() - 1));
            lemma_nodes_dense_index(s, s.len() - 1);
            lemma_span_within_full_span(
                s[s.len() - 1],
                start + nodes_text(s.subrange(0, s.len() - 1)).len(),
            );
            lemma_span_start_lower_bound(s, spec_full_span(n).start, start);
            lemma_span_end_upper_bound(s, spec_full_span(n).end, start);
        },
    }
}

/// The left scan that trims leading trivia never lands before the tiling
/// start or before the given fallback.
proof fn lemma_span_start_lower_bound(nodes: Seq<Node>, dflt: usize, start: int)
    requires
        nodes_tile(nodes, start),
        nodes_dense(nodes),
    ensures
        spec_span_start(nodes, dflt) >= dflt || spec_span_start(nodes, dflt) >= start,
    decreases nodes, 0int,
{
    if nodes.len() == 0 {
    } else if !spec_trivia_only(nodes[0]) {
        lemma_nodes_tile_index(nodes, start, 0);
        assert(nodes.take(0) =~= Seq::<Node>::empty());
        lemma_nodes_dense_index(nodes, 0);
        lemma_span_within_full_span(nodes[0], start);
    } else {
        lemma_nodes_tile_skip_first(nodes, start);
        lemma_span_start_lower_bound(
            nodes.skip(1),
            dflt,
            start + node_text(nodes[0]).len(),
        );
        assert(nodes.skip(1) =~= nodes.subrange(1, nodes.len() as int));
    }
}

/// The right scan that trims trailing trivia never lands past the end of the
/// tiled text or past the given fallback.
proof fn lemma_span_end_upper_bound(nodes: Seq<Node>, dflt: usize, start: int)
    requires
        nodes_tile(nodes, start),
        nodes_dense(nodes),
    ensures
        spec_span_end(nodes, dflt) <= dflt || spec_span_end(nodes, dflt) <= start + nodes_text(
            nodes,
        ).len(),
    decreases nodes, 0int,
{
    if nodes.len() == 0 {
    } else if !spec_trivia_only(nodes[nodes.len() - 1]) {
        lemma_nodes_tile_index(nodes, start, nodes.len() - 1);
        assert(nodes.take(nodes.len() - 1) =~= nodes.subrange(0, nodes.len() - 1));
        lemma_nodes_dense_index(nodes, nodes.len() - 1);
        lemma_span_within_full_span(
            nodes[nodes.len() - 1],
            start + nodes_text(nodes.subrange(0, nodes.len() - 1)).len(),
        );
    } else {
        let head = nodes.subrange(0, nodes.len() - 1);
        lemma_span_end_upper_bound(head, dflt, start);
    }
}

/// What one leaf shows: its kind, its exact text, and its span.
pub open spec fn leaf_view(t: SyntaxToken) -> (SyntaxKind, Seq<char>, TextSpan) {
    (t.raw.kind, t.raw.text@, t.span)
}

/// The leaves under a node, in tree order, each as kind, text and span.
pub open spec fn node_leaf_views(n: Node) -> Seq<(SyntaxKind, Seq<char>, TextSpan)>
    decreases n,
{
    match n {
        Node::Leaf { token } => seq![leaf_view(token)],
        Node::Branch { kind, children } => nodes_leaf_views(children@),
    }
}

/// The leaves under a sequence of nodes, in tree order.
pub open spec fn nodes_leaf_views(nodes: Seq<Node>) -> Seq<(SyntaxKind, Seq<char>, TextSpan)>
    decreases nodes,
{
    if nodes.len() == 0 {
        Seq::empty()
    } else {
        nodes_leaf_views(nodes.subrange(0, nodes.len() - 1)) + node_leaf_views(
            nodes[nodes.len() - 1],
        )
    }
}

/// Appending one node appends its leaves.
pub proof fn lemma_nodes_leaf_views_push(nodes: Seq<Node>, n: Node)
    ensures
        nodes_leaf_views(nodes.push(n)) == nodes_leaf_views(nodes) + node_leaf_views(n),
{
    let pushed = nodes.push(n);
    assert(pushed.subrange(0, pushed.len() - 1) =~= nodes);
    assert(pushed[pushed.len() - 1] == n);
}

/// The leaves that echo source tokens: every leaf except the zero-width
/// `Missing` ones that recovery synthesizes.
pub open spec fn source_leaf_views(
    views: Seq<(SyntaxKind, Seq<char>, TextSpan)>,
) -> Seq<(SyntaxKind, Seq<char>, TextSpan)>
    decreases views,
{
    if views.len() == 0 {
        Seq::empty()
    } else {
        let rest = source_leaf_views(views.subrange(0, views.len() - 1));
        if views[views.len() - 1].0 == SyntaxKind::Missing {
            rest
        } else {
            rest.push(views[views.len() - 1])
        }
    }
}

/// Appending a leaf view appends it to the source views, unless it is a
/// synthesized missing leaf.
pub proof fn lemma_source_leaf_views_push(
    views: Seq<(SyntaxKind, Seq<char>, TextSpan)>,
    v: (SyntaxKind, Seq<char>, TextSpan),
)
    ensures
        v.0 == SyntaxKind::Missing ==> source_leaf_views(views.push(v)) == source_leaf_views(
            views,
        ),
        v.0 != SyntaxKind::Missing ==> source_leaf_views(views.push(v)) == source_leaf_views(
            views,
        ).push(v),
{
    let pushed = views.push(v);
    assert(pushed.subrange(0, pushed.len() - 1) =~= views);
    assert(pushed[pushed.len() - 1] == v);
}

/// A node is trivia-only when every leaf under it is trivia.
pub open spec fn spec_trivia_only(n: Node) -> bool
    decreases n,
{
    match n {
        Node::Leaf { token } => is_trivia_kind(token.raw.kind),
        Node::Branch { kind, children } => spec_nodes_trivia_only(children@),
    }
}

/// Whether every node of a sequence is trivia-only.
pub open spec fn spec_nodes_trivia_only(nodes: Seq<Node>) -> bool
    decreases nodes,
{
    if nodes.len() == 0 {
        true
    } else {
        spec_nodes_trivia_only(nodes.subrange(0, nodes.len() - 1)) && spec_trivia_only(
            nodes[nodes.len() - 1],
        )
    }
}

/// The full span of a node: from the first leaf under it to the last,
/// trivia included.  A node without children sits at the empty default span.
pub open spec fn spec_full_span(n: Node) -> TextSpan
    decreases n,
{
    match n {
        Node::Leaf { token } => token.span,
        Node::Branch { kind, children } => if children@.len() == 0 {
            TextSpan { start: 0, end: 0 }
        } else {
            TextSpan {
                start: spec_full_span(children@[0]).start,
                end: spec_full_span(children@[children@.len() - 1]).end,
            }
        },
    }
}

/// The start of the span of the first node of `nodes` that is not
/// trivia-only; `dflt` when all of them are.
pub open spec fn spec_span_start(nodes: Seq<Node>, dflt: usize) -> usize
    decreases nodes,
{
    if nodes.len() == 0 {
        dflt
    } else if !spec_trivia_only(nodes[0]) {
        spec_span(nodes[0]).start
    } else {
        spec_span_start(nodes.subrange(1, nodes.len() as int), dflt)
    }
}

/// The end of the span of the last node of `nodes` that is not trivia-only;
/// `dflt` when all of them are.
pub open spec fn spec_span_end(nodes: Seq<Node>, dflt: usize) -> usize
    decreases nodes,
{
    if nodes.len() == 0 {
        dflt
    } else if !spec_trivia_only(nodes[nodes.len() - 1]) {
        spec_span(nodes[nodes.len() - 1]).end
    } else {
        spec_span_end(nodes.subrange(0, nodes.len() - 1), dflt)
    }
}

/// The span of a node with its leading and trailing trivia trimmed off; the
/// full span where there is nothing significant to trim to.
pub open spec fn spec_span(n: Node) -> TextSpan
    decreases n,
{
    match n {
        Node::Leaf { token } => token.span,
        Node::Branch { kind, children } => TextSpan {
            start: spec_span_start(children@, spec_full_span(n).start),
            end: spec_span_end(children@, spec_full_span(n).end),
        },
    }
}

impl Node {
    /// The kind of this node: the branch kind, or the leaf token's kind.
    pub fn kind(&self) -> (k: SyntaxKind)
        ensures
            (*self matches Node::Branch { kind, .. } ==> k == kind),
            (*self matches Node::Leaf { token } ==> k == token.raw.kind),
    {
        match self {
            Node::Branch { kind, children } => *kind,
            Node::Leaf { token } => token.raw.kind,
        }
    }

    /// Whether every leaf under this node is trivia.
    pub fn is_trivia_only(&self) -> (r: bool)
        ensures
            r == spec_trivia_only(*self),
        decreases *self,
    {
        match self {
            Node::Leaf { token } => token.raw.kind.is_trivia(),
            Node::Branch { kind, children } => {
                let mut i: usize = 0;
                let mut all = true;
                proof {
                    assert(children@.subrange(0, 0) =~= Seq::<Node>::empty());
                }
                while i < children.len()
                    invariant
                        i <= children@.len(),
                        all == spec_nodes_trivia_only(children@.subrange(0, i as int)),
                        (*self matches Node::Branch { kind: k, children: c } && c@ == children@),
                    decreases children@.len() - i,
                {
                    proof {
                        assert(decreases_to!(*self => children@[i as int]));
                    }
                    let sub = children[i].is_trivia_only();
                    if !sub {
                        all = false;
                    }
                    proof {
                        let post = children@.subrange(0, i as int + 1);
                        assert(post.subrange(0, post.len() - 1) =~= children@.subrange(
                            0,
                            i as int,
                        ));
                        assert(post[post.len() - 1] == children@[i as int]);
                    }
                    i = i + 1;
                }
                proof {
                    assert(children@.subrange(0, children@.len() as int) =~= children@);
                }
                all
            },
        }
    }

    /// The covering span of this node, trivia included.
    pub fn full_span(&self) -> (s: TextSpan)
        ensures
            s == spec_full_span(*self),
        decreases *self,
    {
        match self {
            Node::Leaf { token } => token.span,
            Node::Branch { kind, children } => {
                if children.len() == 0 {
                    TextSpan { start: 0, end: 0 }
                } else {
                    proof {
                        assert(decreases_to!(*self => children@[0]));
                        assert(decreases_to!(*self => children@[children@.len() - 1]));
                    }
                    let first = children[0].full_span();
                    let last = children[children.len() - 1].full_span();
                    TextSpan { start: first.start, end: last.end }
                }
            },
        }
    }

    /// The span of this node with leading and trailing trivia trimmed off.
    pub fn span(&self) -> (s: TextSpan)
        ensures
            s == spec_span(*self),
        decreases *self,
    {
        match self {
            Node::Leaf { token } => token.span,
            Node::Branch { kind, children } => {
                let full = self.full_span();
                let mut start = full.start;
                let mut i: usize = 0;
                let mut found_start = false;
                proof {
                    assert(children@.subrange(0, children@.len() as int) =~= children@);
                }
                while i < children.len() && !found_start
                    invariant
                        i <= children@.len(),
                        !found_start ==> spec_span_start(children@, full.start) == spec_span_start(
                            children@.subrange(i as int, children@.len() as int),
                            full.start,
                        ),
                        !found_start ==> start == full.start,
                        found_start ==> start == spec_span_start(children@, full.start),
                        (*self matches Node::Branch { kind: k, children: c } && c@ == children@),
                    decreases children@.len() as int - i as int + (if found_start { 0int } else { 1int }),
                {
                    proof {
                        assert(decreases_to!(*self => children@[i as int]));
                    }
                    let ghost rest = children@.subrange(i as int, children@.len() as int);
                    proof {
                        assert(rest[0] == children@[i as int]);
                    }
                    if !children[i].is_trivia_only() {
                        let sub = children[i].span();
                        start = sub.start;
                        found_start = true;
                    } else {
                        proof {
                            assert(rest.subrange(1, rest.len() as int) =~= children@.subrange(
                                i as int + 1,
                                children@.len() as int,
                            ));
                        }
                        i = i + 1;
                    }
                }
                proof {
                    if !found_start {
                        assert(children@.subrange(
                            children@.len() as int,
                            children@.len() as int,
                        ) =~= Seq::<Node>::empty());
                    }
                }
                let mut end = full.end;
                let mut j: usize = children.len();
                let mut found_end = false;
                proof {
                    assert(children@.subrange(0, children@.len() as int) =~= children@);
                }
                while j > 0 && !found_end
                    invariant
                        j <= children@.len(),
                        !found_end ==> spec_span_end(children@, full.end) == spec_span_end(
                            children@.subrange(0, j as int),
                            full.end,
                        ),
                        !found_end ==> end == full.end,
                        found_end ==> end == spec_span_end(children@, full.end),
                        (*self matches Node::Branch { kind: k, children: c } && c@ == children@),
                    decreases j as int + (if found_end { 0int } else { 1int }),
                {
                    proof {
                        assert(decreases_to!(*self => children@[j as int - 1]));
                    }
                    let ghost rest = children@.subrange(0, j as int);
                    proof {
                        assert(rest[rest.len() - 1] == children@[j as int - 1]);
                    }
                    if !children[j - 1].is_trivia_only() {
                        let sub = children[j - 1].span();
                        end = sub.end;
                        found_end = true;
                    } else {
                        proof {
                            assert(rest.subrange(0, rest.len() - 1) =~= children@.subrange(
                                0,
                                j as int - 1,
                            ));
                        }
                        j = j - 1;
                    }
                }
                proof {
                    if !found_end {
                        assert(children@.subrange(0, 0) =~= Seq::<Node>::empty());
                    }
                }
                TextSpan { start, end }
            },
        }
    }
}

} // verus!
