//! The sink: the single consumer of the event log.
//!
//! It replays the log against the token stream in one pass,
//! resolving deferred parenting by walking forward-parent chains (tombstoning
//! each visited start event so nothing is processed twice), reinserting the
//! trivia the parser skipped next to the nearest significant token, and
//! materializing the immutable tree.  The replay maintains one running
//! correspondence: the leaves gathered across the stack of open nodes are
//! exactly the tokens consumed so far, in order and each at its exact
//! position — which is what makes the finished tree lossless.

use crate::event::{
    add_payload, is_real_add, lemma_log_adds_prefix, lemma_log_adds_push, log_adds, log_chains_wf,
    Event,
};
use crate::parser::{
    is_significant, lemma_sig_payloads_prefix, lemma_sig_payloads_push, lemma_toks_text_push,
    lemma_toks_text_take_le, sig_payloads, toks_text, token_payload, Token,
};
use crate::source::TextSpan;
use crate::syntax::{is_trivia_kind, SyntaxKind};
use crate::tree::{
    lemma_nodes_dense_push, lemma_nodes_leaf_views_push, lemma_nodes_text_push,
    lemma_nodes_tile_push, lemma_source_leaf_views_push,
    lemma_span_within_full_span, node_dense, node_leaf_views, node_text, node_tiles, nodes_dense,
    nodes_leaf_views, nodes_text, nodes_tile, source_leaf_views, spec_full_span, Node,
    RawSyntaxToken, SyntaxToken, SyntaxTree, tree_text,
};
use vstd::prelude::*;
use vstd::string::StrSliceExecFns;

verus! {

/// A node still under construction: its kind and the children gathered so
/// far.
struct Frame {
    kind: SyntaxKind,
    children: Vec<Node>,
}

/// The text gathered in one open node.
spec fn frame_text(f: Frame) -> Seq<char> {
    nodes_text(f.children@)
}

/// The text gathered across the whole stack of open nodes, outermost first.
spec fn stack_text(frames: Seq<Frame>) -> Seq<char>
    decreases frames,
{
    if frames.len() == 0 {
        Seq::empty()
    } else {
        stack_text(frames.subrange(0, frames.len() - 1)) + frame_text(frames[frames.len() - 1])
    }
}

proof fn lemma_stack_text_push(frames: Seq<Frame>, f: Frame)
    ensures
        stack_text(frames.push(f)) == stack_text(frames) + frame_text(f),
{
    let pushed = frames.push(f);
    assert(pushed.subrange(0, pushed.len() - 1) =~= frames);
    assert(pushed[pushed.len() - 1] == f);
}

/// The open nodes tile the text gathered so far: each frame's children tile
/// the range that starts where the frames below it end.
spec fn frames_tile(frames: Seq<Frame>) -> bool
    decreases frames,
{
    if frames.len() == 0 {
        true
    } else {
        frames_tile(frames.subrange(0, frames.len() - 1)) && nodes_tile(
            frames[frames.len() - 1].children@,
            stack_text(frames.subrange(0, frames.len() - 1)).len() as int,
        )
    }
}

proof fn lemma_frames_tile_push(frames: Seq<Frame>, f: Frame)
    ensures
        frames_tile(frames.push(f)) <==> frames_tile(frames) && nodes_tile(
            f.children@,
            stack_text(frames).len() as int,
        ),
{
    let pushed = frames.push(f);
    assert(pushed.subrange(0, pushed.len() - 1) =~= frames);
    assert(pushed[pushed.len() - 1] == f);
}

/// Every open node's children are dense: no closed branch without content
/// ever enters the tree under construction.
spec fn frames_dense(frames: Seq<Frame>) -> bool
    decreases frames,
{
    if frames.len() == 0 {
        true
    } else {
        frames_dense(frames.subrange(0, frames.len() - 1)) && nodes_dense(
            frames[frames.len() - 1].children@,
        )
    }
}

proof fn lemma_frames_dense_push(frames: Seq<Frame>, f: Frame)
    ensures
        frames_dense(frames.push(f)) <==> frames_dense(frames) && nodes_dense(f.children@),
{
    let pushed = frames.push(f);
    assert(pushed.subrange(0, pushed.len() - 1) =~= frames);
    assert(pushed[pushed.len() - 1] == f);
}

/// The view of the leaf that echoes token `i` of the stream: the same kind
/// and text, spanning exactly the token's characters.
pub open spec fn token_leaf_view(tokens: Seq<Token>, i: int) -> (SyntaxKind, Seq<char>, TextSpan) {
    (
        tokens[i].kind,
        tokens[i].text@,
        TextSpan {
            start: toks_text(tokens.take(i)).len() as usize,
            end: (toks_text(tokens.take(i)).len() + tokens[i].text@.len()) as usize,
        },
    )
}

/// The leaves the first `upto` tokens of the stream echo into the tree, in
/// stream order: one leaf per token — trivia included — each at its exact
/// position.
pub open spec fn stream_leaf_views(tokens: Seq<Token>, upto: int) -> Seq<
    (SyntaxKind, Seq<char>, TextSpan),
> {
    Seq::new(upto as nat, |i: int| token_leaf_view(tokens, i))
}

/// The leaves gathered in one open node, in order.
spec fn frame_leaf_views(f: Frame) -> Seq<(SyntaxKind, Seq<char>, TextSpan)> {
    nodes_leaf_views(f.children@)
}

/// The leaves gathered across the whole stack of open nodes.
spec fn stack_leaf_views(frames: Seq<Frame>) -> Seq<(SyntaxKind, Seq<char>, TextSpan)>
    decreases frames,
{
    if frames.len() == 0 {
        Seq::empty()
    } else {
        stack_leaf_views(frames.subrange(0, frames.len() - 1)) + frame_leaf_views(
            frames[frames.len() - 1],
        )
    }
}

proof fn lemma_stack_leaf_views_push(frames: Seq<Frame>, f: Frame)
    ensures
        stack_leaf_views(frames.push(f)) == stack_leaf_views(frames) + frame_leaf_views(f),
{
    let pushed = frames.push(f);
    assert(pushed.subrange(0, pushed.len() - 1) =~= frames);
    assert(pushed[pushed.len() - 1] == f);
}

/// Open a fresh node of the given kind on top of the stack.  No text moves.
fn open_frame(stack: &mut Vec<Frame>, kind: SyntaxKind)
    requires
        frames_tile(old(stack)@),
        frames_dense(old(stack)@),
    ensures
        frames_tile(final(stack)@),
        frames_dense(final(stack)@),
        final(stack)@.len() == old(stack)@.len() + 1,
        final(stack)@.subrange(0, old(stack)@.len() as int) == old(stack)@,
        final(stack)@.last().kind == kind,
        final(stack)@.last().children@.len() == 0,
        stack_text(final(stack)@) == stack_text(old(stack)@),
        stack_leaf_views(final(stack)@) == stack_leaf_views(old(stack)@),
{
    stack.push(Frame { kind, children: Vec::new() });
    proof {
        lemma_stack_text_push(old(stack)@, final(stack)@.last());
        lemma_stack_leaf_views_push(old(stack)@, final(stack)@.last());
        lemma_frames_tile_push(old(stack)@, final(stack)@.last());
        lemma_frames_dense_push(old(stack)@, final(stack)@.last());
        assert(final(stack)@.last().children@ =~= Seq::<Node>::empty());
        assert(stack_leaf_views(old(stack)@) + frame_leaf_views(final(stack)@.last())
            =~= stack_leaf_views(old(stack)@));
        assert(stack_text(old(stack)@) + frame_text(final(stack)@.last()) =~= stack_text(
            old(stack)@,
        ));
        assert(final(stack)@.subrange(0, old(stack)@.len() as int) =~= old(stack)@);
    }
}

/// Attach one finished leaf or node at the end of the innermost open node.
/// The gathered text grows by exactly the text of what was attached.
fn attach(stack: &mut Vec<Frame>, node: Node)
    requires
        old(stack)@.len() >= 1,
        frames_tile(old(stack)@),
        frames_dense(old(stack)@),
        node_tiles(node, stack_text(old(stack)@).len() as int),
        node_dense(node),
    ensures
        frames_tile(final(stack)@),
        frames_dense(final(stack)@),
        final(stack)@.len() == old(stack)@.len(),
        final(stack)@.subrange(0, old(stack)@.len() - 1) == old(stack)@.subrange(
            0,
            old(stack)@.len() - 1,
        ),
        final(stack)@.last().kind == old(stack)@.last().kind,
        final(stack)@.last().children@ == old(stack)@.last().children@.push(node),
        stack_text(final(stack)@) == stack_text(old(stack)@) + node_text(node),
        stack_leaf_views(final(stack)@) == stack_leaf_views(old(stack)@) + node_leaf_views(node),
{
    let ghost prev = stack@;
    let ghost attached = node;
    let mut top = match stack.pop() {
        Some(f) => f,
        None => {
            proof {
                assert(false);
            }
            Frame { kind: SyntaxKind::Root, children: Vec::new() }
        },
    };
    let ghost top0 = top;
    top.children.push(node);
    let ghost top1 = top;
    stack.push(top);
    proof {
        assert(prev =~= prev.subrange(0, prev.len() - 1).push(top0));
        lemma_stack_text_push(prev.subrange(0, prev.len() - 1), top0);
        lemma_stack_text_push(prev.subrange(0, prev.len() - 1), top1);
        lemma_nodes_text_push(top0.children@, attached);
        lemma_frames_tile_push(prev.subrange(0, prev.len() - 1), top0);
        lemma_frames_tile_push(prev.subrange(0, prev.len() - 1), top1);
        lemma_frames_dense_push(prev.subrange(0, prev.len() - 1), top0);
        lemma_frames_dense_push(prev.subrange(0, prev.len() - 1), top1);
        lemma_nodes_dense_push(top0.children@, attached);
        lemma_nodes_tile_push(
            top0.children@,
            attached,
            stack_text(prev.subrange(0, prev.len() - 1)).len() as int,
        );
        lemma_stack_leaf_views_push(prev.subrange(0, prev.len() - 1), top0);
        lemma_stack_leaf_views_push(prev.subrange(0, prev.len() - 1), top1);
        lemma_nodes_leaf_views_push(top0.children@, attached);
        assert(final(stack)@ =~= prev.subrange(0, prev.len() - 1).push(top1));
        assert(final(stack)@.subrange(0, prev.len() - 1) =~= prev.subrange(0, prev.len() - 1));
        assert(stack_text(final(stack)@) =~= stack_text(prev) + node_text(attached));
        assert(stack_leaf_views(final(stack)@) =~= stack_leaf_views(prev) + node_leaf_views(
            attached,
        ));
    }
}

/// Close the innermost open node and attach it, as a finished branch, at the
/// end of its parent's children.  The gathered text is unchanged.  A node
/// under which nothing at all was gathered is dropped rather than recorded
/// as an empty branch at a made-up position.
fn close_frame(stack: &mut Vec<Frame>)
    requires
        old(stack)@.len() >= 2,
        frames_tile(old(stack)@),
        frames_dense(old(stack)@),
    ensures
        frames_tile(final(stack)@),
        frames_dense(final(stack)@),
        final(stack)@.len() == old(stack)@.len() - 1,
        final(stack)@.subrange(0, old(stack)@.len() - 2) == old(stack)@.subrange(
            0,
            old(stack)@.len() - 2,
        ),
        final(stack)@.last().kind == old(stack)@[old(stack)@.len() - 2].kind,
        stack_text(final(stack)@) == stack_text(old(stack)@),
        stack_leaf_views(final(stack)@) == stack_leaf_views(old(stack)@),
{
    let ghost prev = stack@;
    let top = match stack.pop() {
        Some(f) => f,
        None => {
            proof {
                assert(false);
            }
            Frame { kind: SyntaxKind::Root, children: Vec::new() }
        },
    };
    let ghost topg = top;
    proof {
        assert(stack@ =~= prev.subrange(0, prev.len() - 1));
        let below = prev.subrange(0, prev.len() - 2);
        let parent0 = prev[prev.len() - 2];
        assert(prev.subrange(0, prev.len() - 1) =~= below.push(parent0));
        assert(prev =~= below.push(parent0).push(topg));
        lemma_frames_tile_push(below.push(parent0), topg);
        lemma_frames_dense_push(below.push(parent0), topg);
        lemma_stack_text_push(below, parent0);
        lemma_stack_text_push(below.push(parent0), topg);
        lemma_stack_leaf_views_push(below, parent0);
        lemma_stack_leaf_views_push(below.push(parent0), topg);
    }
    if top.children.len() == 0 {
        proof {
            let below = prev.subrange(0, prev.len() - 2);
            let parent0 = prev[prev.len() - 2];
            assert(frame_text(topg) =~= Seq::<char>::empty());
            assert(topg.children@ =~= Seq::<Node>::empty());
            assert(frame_leaf_views(topg) =~= Seq::<(SyntaxKind, Seq<char>, TextSpan)>::empty());
            assert(stack_text(final(stack)@) =~= stack_text(prev));
            assert(stack_leaf_views(final(stack)@) =~= stack_leaf_views(prev));
            assert(final(stack)@.subrange(0, prev.len() - 2) =~= below);
        }
    } else {
        let closed = Node::Branch { kind: top.kind, children: top.children };
        let ghost closedg = closed;
        proof {
            let below = prev.subrange(0, prev.len() - 2);
            let parent0 = prev[prev.len() - 2];
            assert(node_tiles(closedg, stack_text(below.push(parent0)).len() as int));
            assert(node_dense(closedg));
        }
        attach(stack, closed);
        proof {
            let below = prev.subrange(0, prev.len() - 2);
            let parent0 = prev[prev.len() - 2];
            assert(prev.subrange(0, prev.len() - 1) =~= below.push(parent0));
            lemma_stack_text_push(below, parent0);
            lemma_stack_leaf_views_push(below, parent0);
            assert(node_text(closedg) == frame_text(topg));
            assert(node_leaf_views(closedg) == frame_leaf_views(topg));
            assert(final(stack)@.subrange(0, prev.len() - 2) =~= below);
            assert(stack_text(final(stack)@) =~= stack_text(prev));
            assert(stack_leaf_views(final(stack)@) =~= stack_leaf_views(prev));
        }
    }
}

/// The sink itself: the token stream it re-reads for trivia, the event log
/// it consumes (tombstoning in place), and its own cursor over the tokens.
pub struct Sink<'t> {
    pub tokens: &'t Vec<Token>,
    pub events: Vec<Event>,
    pub cursor: usize,
}

impl<'t> Sink<'t> {
    pub fn new(tokens: &'t Vec<Token>, events: Vec<Event>) -> (s: Sink<'t>)
        ensures
            s.tokens@ == tokens@,
            s.events@ == events@,
            s.cursor == 0,
    {
        Sink { tokens, events, cursor: 0 }
    }

    /// Attach every trivia token sitting at the cursor as a leaf of the
    /// innermost open node, so trivia ends up next to the syntactically
    /// nearest significant token.  Stops at the first significant token.
    fn eat_trivia(&mut self, stack: &mut Vec<Frame>, offset: &mut usize)
        requires
            old(self).cursor <= old(self).tokens@.len(),
            toks_text(old(self).tokens@).len() <= usize::MAX,
            old(stack)@.len() >= 1,
            stack_text(old(stack)@) == toks_text(
                old(self).tokens@.take(old(self).cursor as int),
            ),
            *old(offset) == toks_text(old(self).tokens@.take(old(self).cursor as int)).len(),
            frames_tile(old(stack)@),
            frames_dense(old(stack)@),
            source_leaf_views(stack_leaf_views(old(stack)@)) == stream_leaf_views(
                old(self).tokens@,
                old(self).cursor as int,
            ),
        ensures
            frames_tile(final(stack)@),
            frames_dense(final(stack)@),
            source_leaf_views(stack_leaf_views(final(stack)@)) == stream_leaf_views(
                final(self).tokens@,
                final(self).cursor as int,
            ),
            final(self).tokens@ == old(self).tokens@,
            final(self).events@ == old(self).events@,
            old(self).cursor <= final(self).cursor <= final(self).tokens@.len(),
            final(stack)@.len() == old(stack)@.len(),
            final(stack)@.subrange(0, old(stack)@.len() - 1) == old(stack)@.subrange(
                0,
                old(stack)@.len() - 1,
            ),
            final(stack)@.last().kind == old(stack)@.last().kind,
            stack_text(final(stack)@) == toks_text(
                final(self).tokens@.take(final(self).cursor as int),
            ),
            *final(offset) == toks_text(final(self).tokens@.take(final(self).cursor as int)).len(),
            sig_payloads(final(self).tokens@.take(final(self).cursor as int)) == sig_payloads(
                old(self).tokens@.take(old(self).cursor as int),
            ),
            final(self).cursor < final(self).tokens@.len() ==> !is_trivia_kind(
                final(self).tokens@[final(self).cursor as int].kind,
            ),
    {
        let ghost toks = self.tokens@;
        while self.cursor < self.tokens.len() && self.tokens[self.cursor].kind.is_trivia()
            invariant
                self.tokens@ == toks,
                toks == old(self).tokens@,
                self.events@ == old(self).events@,
                toks_text(toks).len() <= usize::MAX,
                old(self).cursor <= self.cursor <= toks.len(),
                stack@.len() == old(stack)@.len(),
                stack@.len() >= 1,
                stack@.subrange(0, old(stack)@.len() - 1) == old(stack)@.subrange(
                    0,
                    old(stack)@.len() - 1,
                ),
                stack@.last().kind == old(stack)@.last().kind,
                stack_text(stack@) == toks_text(toks.take(self.cursor as int)),
                *offset == toks_text(toks.take(self.cursor as int)).len(),
                sig_payloads(toks.take(self.cursor as int)) == sig_payloads(
                    toks.take(old(self).cursor as int),
                ),
                frames_tile(stack@),
                frames_dense(stack@),
                source_leaf_views(stack_leaf_views(stack@)) == stream_leaf_views(
                    toks,
                    self.cursor as int,
                ),
            decreases toks.len() - self.cursor,
        {
            let ghost pre = toks.take(self.cursor as int);
            let ghost tok = toks[self.cursor as int];
            proof {
                assert(toks.take(self.cursor as int + 1) =~= pre.push(tok));
                lemma_toks_text_push(pre, tok);
                lemma_sig_payloads_push(pre, tok);
                lemma_toks_text_take_le(toks, self.cursor as int + 1);
            }
            let kind = self.tokens[self.cursor].kind;
            let text = self.tokens[self.cursor].text.clone();
            let w = text.as_str().unicode_len();
            let leaf = Node::Leaf {
                token: SyntaxToken {
                    raw: RawSyntaxToken { kind, text },
                    span: TextSpan { start: *offset, end: *offset + w },
                },
            };
            let ghost lv = node_leaf_views(leaf)[0];
            let ghost slv = stack_leaf_views(stack@);
            proof {
                assert(lv == token_leaf_view(toks, self.cursor as int));
                assert(lv.0 != SyntaxKind::Missing);
            }
            attach(stack, leaf);
            proof {
                assert(slv + node_leaf_views(leaf) =~= slv.push(lv));
                lemma_source_leaf_views_push(slv, lv);
                assert(stream_leaf_views(toks, self.cursor as int + 1) =~= stream_leaf_views(
                    toks,
                    self.cursor as int,
                ).push(token_leaf_view(toks, self.cursor as int)));
            }
            *offset = *offset + w;
            self.cursor = self.cursor + 1;
        }
    }
}

impl<'t> Sink<'t> {
    /// Replay the whole event log and materialize the tree.
    ///
    /// Beyond the machine limit on the text length, the caller owes the
    /// parser's two guarantees: the real `AddToken` events echo exactly the
    /// significant tokens of the stream, and the forward-parent chains of
    /// the log are well formed.  A malformed chain is a parser bug, not a
    /// user-facing error, so it is ruled out loudly here, by precondition,
    /// rather than tolerated.  Under these, every token — trivia included —
    /// becomes exactly one leaf, in order: the finished tree holds exactly
    /// one root node, dense and spanning the whole source, whose text is the
    /// source text.  The nodes of a forward-parent chain open
    /// outermost-first, so the later-discovered ancestor encloses the node
    /// it re-parents; the contract pins the leaf sequence, density, tiling
    /// and spans of the result, and the scenario tests exercise the nesting.
    /// (The replay's chain walk still guards its steps, so it stays a total
    /// function of its inputs.)
    pub fn finish(self) -> (t: SyntaxTree)
        requires
            log_adds(self.events@) == sig_payloads(self.tokens@),
            log_chains_wf(self.events@),
            toks_text(self.tokens@).len() <= usize::MAX,
        ensures
            t.0@.len() == 1,
            (t.0@[0] matches Node::Branch { kind, children } && kind == SyntaxKind::Root
                && nodes_dense(children@)),
            tree_text(t) == toks_text(self.tokens@),
            node_tiles(t.0@[0], 0),
            spec_full_span(t.0@[0]) == (TextSpan {
                start: 0,
                end: toks_text(self.tokens@).len() as usize,
            }),
            source_leaf_views(node_leaf_views(t.0@[0])) == stream_leaf_views(
                self.tokens@,
                self.tokens@.len() as int,
            ),
    {
        let mut s = self;
        let ghost toks = s.tokens@;
        let ghost events0 = s.events@;
        s.cursor = 0;
        let mut stack: Vec<Frame> = Vec::new();
        stack.push(Frame { kind: SyntaxKind::Root, children: Vec::new() });
        let mut offset: usize = 0;
        let mut i: usize = 0;
        proof {
            assert(toks.take(0) =~= Seq::<Token>::empty());
            assert(events0.take(0) =~= Seq::<Event>::empty());
            assert(stack@ =~= Seq::<Frame>::empty().push(stack@[0]));
            lemma_stack_text_push(Seq::<Frame>::empty(), stack@[0]);
            lemma_frames_tile_push(Seq::<Frame>::empty(), stack@[0]);
            lemma_frames_dense_push(Seq::<Frame>::empty(), stack@[0]);
            lemma_stack_leaf_views_push(Seq::<Frame>::empty(), stack@[0]);
            assert(stack@[0].children@ =~= Seq::<Node>::empty());
            assert(stack_text(stack@) =~= toks_text(toks.take(0)));
            assert(stack_leaf_views(stack@) =~= Seq::<(SyntaxKind, Seq<char>, TextSpan)>::empty());
            assert(source_leaf_views(stack_leaf_views(stack@)) =~= stream_leaf_views(toks, 0));
        }
        while i < s.events.len()
            invariant
                s.tokens@ == toks,
                toks_text(toks).len() <= usize::MAX,
                log_adds(events0) == sig_payloads(toks),
                s.events@.len() == events0.len(),
                i <= events0.len(),
                s.cursor <= toks.len(),
                forall|idx: int|
                    0 <= idx < events0.len() ==> (#[trigger] s.events@[idx]) == events0[idx]
                        || s.events@[idx] == Event::Placeholder,
                forall|idx: int|
                    i <= idx < events0.len() && is_real_add(#[trigger] events0[idx])
                        ==> s.events@[idx] == events0[idx],
                log_adds(events0.take(i as int)) == sig_payloads(toks.take(s.cursor as int)),
                stack@.len() >= 1,
                stack@[0].kind == SyntaxKind::Root,
                stack_text(stack@) == toks_text(toks.take(s.cursor as int)),
                offset == toks_text(toks.take(s.cursor as int)).len(),
                frames_tile(stack@),
                frames_dense(stack@),
                source_leaf_views(stack_leaf_views(stack@)) == stream_leaf_views(
                    toks,
                    s.cursor as int,
                ),
            decreases events0.len() - i,
        {
            let ghost ev = events0[i as int];
            let ghost pre_events = s.events@;
            let mut taken = Event::Placeholder;
            let entry = &mut s.events[i];
            core::mem::swap(entry, &mut taken);
            proof {
                assert(taken == pre_events[i as int]);
                assert(taken != Event::Placeholder ==> taken == ev);
                assert(events0.take(i as int + 1) =~= events0.take(i as int).push(ev));
                lemma_log_adds_push(events0.take(i as int), ev);
            }
            match taken {
                Event::StartNode { kind, forward_parent } => {
                    let ghost cursor_snap = s.cursor;
                    let mut kinds: Vec<SyntaxKind> = Vec::new();
                    kinds.push(kind);
                    let mut idx = i;
                    let mut fp = forward_parent;
                    let mut walking = true;
                    while walking
                        invariant
                            s.tokens@ == toks,
                            s.cursor == cursor_snap,
                            s.events@.len() == events0.len(),
                            i <= idx < events0.len(),
                            forall|k: int|
                                0 <= k < events0.len() ==> (#[trigger] s.events@[k])
                                    == events0[k] || s.events@[k] == Event::Placeholder,
                            forall|k: int|
                                i < k < events0.len() && is_real_add(#[trigger] events0[k])
                                    ==> s.events@[k] == events0[k],
                        decreases (events0.len() as int - idx as int) * 2 + (if walking {
                            1int
                        } else {
                            0int
                        }),
                    {
                        match fp {
                            None => {
                                walking = false;
                            },
                            Some(off) => {
                                if off == 0 || off >= s.events.len() - idx {
                                    walking = false;
                                } else {
                                    idx = idx + off;
                                    let is_start = match &s.events[idx] {
                                        Event::StartNode { kind: _, forward_parent: _ } => true,
                                        _ => false,
                                    };
                                    if is_start {
                                        let mut taken2 = Event::Placeholder;
                                        let entry2 = &mut s.events[idx];
                                        core::mem::swap(entry2, &mut taken2);
                                        match taken2 {
                                            Event::StartNode { kind: k2, forward_parent: f2 } => {
                                                kinds.push(k2);
                                                fp = f2;
                                            },
                                            _ => {
                                                walking = false;
                                            },
                                        }
                                    } else {
                                        walking = false;
                                    }
                                }
                            },
                        }
                    }
                    let mut k = kinds.len();
                    while k > 0
                        invariant
                            k <= kinds@.len(),
                            stack@.len() >= 1,
                            stack@[0].kind == SyntaxKind::Root,
                            stack_text(stack@) == toks_text(toks.take(s.cursor as int)),
                            frames_tile(stack@),
                            frames_dense(stack@),
                            source_leaf_views(stack_leaf_views(stack@)) == stream_leaf_views(
                                toks,
                                s.cursor as int,
                            ),
                        decreases k,
                    {
                        let ghost stack_pre = stack@;
                        open_frame(&mut stack, kinds[k - 1]);
                        proof {
                            crate::parser::lemma_prefix_index(
                                stack_pre,
                                stack@,
                                stack_pre.len() as int,
                            );
                        }
                        k = k - 1;
                    }
                },
                Event::AddToken { kind, text } => {
                    if kind == SyntaxKind::Missing {
                        let leaf = Node::Leaf {
                            token: SyntaxToken {
                                raw: RawSyntaxToken {
                                    kind: SyntaxKind::Missing,
                                    text: String::new(),
                                },
                                span: TextSpan { start: offset, end: offset },
                            },
                        };
                        let ghost stack_pre = stack@;
                        let ghost mlv = node_leaf_views(leaf)[0];
                        proof {
                            assert(mlv.0 == SyntaxKind::Missing);
                        }
                        attach(&mut stack, leaf);
                        proof {
                            assert(!is_real_add(ev));
                            assert(stack_leaf_views(stack_pre) + node_leaf_views(leaf)
                                =~= stack_leaf_views(stack_pre).push(mlv));
                            lemma_source_leaf_views_push(stack_leaf_views(stack_pre), mlv);
                            if stack_pre.len() >= 2 {
                                crate::parser::lemma_prefix_index(
                                    stack_pre.subrange(0, stack_pre.len() - 1),
                                    stack@,
                                    stack_pre.len() - 1,
                                );
                            }
                            assert(stack_text(stack@) =~= toks_text(
                                toks.take(s.cursor as int),
                            ));
                        }
                    } else {
                        let ghost stack0 = stack@;
                        s.eat_trivia(&mut stack, &mut offset);
                        proof {
                            if stack0.len() >= 2 {
                                crate::parser::lemma_prefix_index(
                                    stack0.subrange(0, stack0.len() - 1),
                                    stack@,
                                    stack0.len() - 1,
                                );
                            }
                            assert(ev == taken);
                            assert(is_real_add(ev));
                            let j = log_adds(events0.take(i as int)).len() as int;
                            lemma_log_adds_prefix(events0, i as int);
                            lemma_log_adds_prefix(events0, i as int + 1);
                            lemma_sig_payloads_prefix(toks, s.cursor as int);
                            if s.cursor == toks.len() {
                                assert(toks.take(s.cursor as int) =~= toks);
                                assert(false);
                            }
                            assert(is_significant(toks[s.cursor as int]));
                            assert(toks.take(s.cursor as int + 1) =~= toks.take(
                                s.cursor as int,
                            ).push(toks[s.cursor as int]));
                            lemma_sig_payloads_push(
                                toks.take(s.cursor as int),
                                toks[s.cursor as int],
                            );
                            lemma_sig_payloads_prefix(toks, s.cursor as int + 1);
                            assert(log_adds(events0.take(i as int + 1)) == sig_payloads(
                                toks.take(s.cursor as int + 1),
                            ));
                            assert(add_payload(ev) == token_payload(toks[s.cursor as int]))
                                by {
                                let lhs = log_adds(events0.take(i as int + 1));
                                assert(lhs[j] == add_payload(ev));
                                assert(sig_payloads(toks.take(s.cursor as int + 1))[j]
                                    == token_payload(toks[s.cursor as int]));
                            }
                            lemma_toks_text_push(
                                toks.take(s.cursor as int),
                                toks[s.cursor as int],
                            );
                            lemma_toks_text_take_le(toks, s.cursor as int + 1);
                        }
                        let w = text.as_str().unicode_len();
                        let leaf = Node::Leaf {
                            token: SyntaxToken {
                                raw: RawSyntaxToken { kind, text },
                                span: TextSpan { start: offset, end: offset + w },
                            },
                        };
                        let ghost stack1 = stack@;
                        let ghost rlv = node_leaf_views(leaf)[0];
                        proof {
                            assert(rlv == token_leaf_view(toks, s.cursor as int));
                            assert(rlv.0 != SyntaxKind::Missing);
                        }
                        attach(&mut stack, leaf);
                        proof {
                            assert(stack_leaf_views(stack1) + node_leaf_views(leaf)
                                =~= stack_leaf_views(stack1).push(rlv));
                            lemma_source_leaf_views_push(stack_leaf_views(stack1), rlv);
                            assert(stream_leaf_views(toks, s.cursor as int + 1)
                                =~= stream_leaf_views(toks, s.cursor as int).push(
                                token_leaf_view(toks, s.cursor as int),
                            ));
                        }
                        offset = offset + w;
                        let tlen = s.tokens.len();
                        proof {
                            assert(s.cursor < tlen);
                        }
                        s.cursor = s.cursor + 1;
                        proof {
                            if stack1.len() >= 2 {
                                crate::parser::lemma_prefix_index(
                                    stack1.subrange(0, stack1.len() - 1),
                                    stack@,
                                    stack1.len() - 1,
                                );
                            }
                            assert(stack_text(stack@) =~= toks_text(
                                toks.take(s.cursor as int),
                            ));
                        }
                        let ghost stack2 = stack@;
                        s.eat_trivia(&mut stack, &mut offset);
                        proof {
                            if stack2.len() >= 2 {
                                crate::parser::lemma_prefix_index(
                                    stack2.subrange(0, stack2.len() - 1),
                                    stack@,
                                    stack2.len() - 1,
                                );
                            }
                        }
                    }
                },
                Event::FinishNode => {
                    if stack.len() >= 2 {
                        let ghost stack_pre = stack@;
                        close_frame(&mut stack);
                        proof {
                            assert(!is_real_add(ev));
                            if stack_pre.len() == 2 {
                                assert(stack@.last().kind == stack_pre[0].kind);
                                assert(stack@[0] == stack@.last());
                            } else {
                                crate::parser::lemma_prefix_index(
                                    stack_pre.subrange(0, stack_pre.len() - 2),
                                    stack@,
                                    stack_pre.len() - 2,
                                );
                            }
                        }
                    } else {
                        proof {
                            assert(!is_real_add(ev));
                        }
                    }
                },
                Event::Placeholder => {
                    proof {
                        assert(!is_real_add(ev));
                    }
                },
            }
            i = i + 1;
        }
        let ghost stack_end = stack@;
        s.eat_trivia(&mut stack, &mut offset);
        proof {
            if stack_end.len() >= 2 {
                crate::parser::lemma_prefix_index(
                    stack_end.subrange(0, stack_end.len() - 1),
                    stack@,
                    stack_end.len() - 1,
                );
            }
            assert(events0.take(events0.len() as int) =~= events0);
            lemma_sig_payloads_prefix(toks, s.cursor as int);
            if s.cursor < toks.len() {
                assert(is_significant(toks[s.cursor as int]));
                assert(toks.take(s.cursor as int + 1) =~= toks.take(s.cursor as int).push(
                    toks[s.cursor as int],
                ));
                lemma_sig_payloads_push(toks.take(s.cursor as int), toks[s.cursor as int]);
                lemma_sig_payloads_prefix(toks, s.cursor as int + 1);
                assert(false);
            }
            assert(toks.take(s.cursor as int) =~= toks);
        }
        while stack.len() >= 2
            invariant
                stack@.len() >= 1,
                stack@[0].kind == SyntaxKind::Root,
                stack_text(stack@) == toks_text(toks),
                frames_tile(stack@),
                frames_dense(stack@),
                source_leaf_views(stack_leaf_views(stack@)) == stream_leaf_views(
                    toks,
                    toks.len() as int,
                ),
            decreases stack@.len(),
        {
            let ghost stack_pre = stack@;
            close_frame(&mut stack);
            proof {
                if stack_pre.len() == 2 {
                    assert(stack@[0] == stack@.last());
                } else {
                    crate::parser::lemma_prefix_index(
                        stack_pre.subrange(0, stack_pre.len() - 2),
                        stack@,
                        stack_pre.len() - 2,
                    );
                }
            }
        }
        let ghost stack_fin = stack@;
        let root_frame = match stack.pop() {
            Some(f) => f,
            None => {
                proof {
                    assert(false);
                }
                Frame { kind: SyntaxKind::Root, children: Vec::new() }
            },
        };
        let ghost rf = root_frame;
        let root = Node::Branch { kind: root_frame.kind, children: root_frame.children };
        let mut nodes: Vec<Node> = Vec::new();
        nodes.push(root);
        let t = SyntaxTree(nodes);
        proof {
            assert(stack_fin =~= seq![rf]);
            assert(stack_text(seq![rf]) == toks_text(toks));
            assert(seq![rf].subrange(0, 0) =~= Seq::<Frame>::empty());
            assert(nodes_tile(rf.children@, 0));
            assert(nodes_dense(rf.children@));
            lemma_stack_leaf_views_push(Seq::<Frame>::empty(), rf);
            assert(seq![rf] =~= Seq::<Frame>::empty().push(rf));
            assert(stack_leaf_views(seq![rf]) =~= frame_leaf_views(rf));
            assert(seq![rf].subrange(0, 0) =~= Seq::<Frame>::empty());
            assert(stack_text(seq![rf]) =~= frame_text(rf));
            assert(node_text(t.0@[0]) == frame_text(rf));
            assert(t.0@ =~= Seq::<Node>::empty().push(t.0@[0]));
            lemma_nodes_text_push(Seq::<Node>::empty(), t.0@[0]);
            assert(tree_text(t) =~= toks_text(toks));
            if rf.children@.len() == 0 {
                assert(nodes_text(rf.children@) =~= Seq::<char>::empty());
                assert(toks_text(toks).len() == 0);
            } else {
                assert(node_dense(t.0@[0]));
                lemma_span_within_full_span(t.0@[0], 0);
            }
            assert(spec_full_span(t.0@[0]) == (TextSpan {
                start: 0,
                end: toks_text(toks).len() as usize,
            }));
        }
        t
    }
}

} // verus!
