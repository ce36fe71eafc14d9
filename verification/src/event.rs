//! The event log: the parser's output.
//!
//! The parser does not build a tree.  It appends abstract tree-construction
//! instructions to a log, so that a node whose final shape is unknown until
//! after its children are parsed can still be represented: a later
//! [`Event::StartNode`] can re-parent an earlier one through its
//! `forward_parent` offset.  The sink replays the log afterwards.

use crate::syntax::SyntaxKind;
use vstd::prelude::*;

verus! {

/// One tree-construction instruction.
#[derive(Debug, PartialEq, Eq)]
pub enum Event {
    /// Begin a node of `kind`.  When `forward_parent` is `Some(offset)`, the
    /// node's true parent is not the node open at this point but the node
    /// started by the event `offset` places further on, discovered later.
    StartNode { kind: SyntaxKind, forward_parent: Option<usize> },
    /// Attach a token as a leaf of the node currently open.  A leaf of kind
    /// [`SyntaxKind::Missing`] is synthesized by recovery and consumes no
    /// input token; any other kind echoes the next significant input token.
    AddToken { kind: SyntaxKind, text: String },
    /// Close the most recently opened node.
    FinishNode,
    /// A tombstoned slot: either a started node not yet completed, or a
    /// `StartNode` already consumed by a forward-parent walk.
    Placeholder,
}

/// Whether an event attaches a leaf that echoes a significant input token
/// (rather than a synthesized zero-width missing leaf).
pub open spec fn is_real_add(e: Event) -> bool {
    e matches Event::AddToken { kind, .. } && kind != SyntaxKind::Missing
}

/// The kind and text attached by an `AddToken` event.
pub open spec fn add_payload(e: Event) -> (SyntaxKind, Seq<char>) {
    match e {
        Event::AddToken { kind, text } => (kind, text@),
        _ => (SyntaxKind::Missing, Seq::empty()),
    }
}

/// The kind a `StartNode` event opens; meaningless for other events.
pub open spec fn start_kind(e: Event) -> SyntaxKind {
    match e {
        Event::StartNode { kind, .. } => kind,
        _ => SyntaxKind::Error,
    }
}

/// The payloads of the real `AddToken` events of a log, in order.  The
/// parser keeps this equal to the payloads of the significant input tokens
/// it has consumed, which is what lets the sink re-synchronize the log with
/// the token stream.
pub open spec fn log_adds(events: Seq<Event>) -> Seq<(SyntaxKind, Seq<char>)>
    decreases events,
{
    if events.len() == 0 {
        Seq::empty()
    } else {
        let rest = log_adds(events.subrange(0, events.len() - 1));
        let last = events[events.len() - 1];
        if is_real_add(last) {
            rest.push(add_payload(last))
        } else {
            rest
        }
    }
}

/// Appending an event appends its payload, or nothing.
pub proof fn lemma_log_adds_push(events: Seq<Event>, e: Event)
    ensures
        is_real_add(e) ==> log_adds(events.push(e)) == log_adds(events).push(add_payload(e)),
        !is_real_add(e) ==> log_adds(events.push(e)) == log_adds(events),
{
    let pushed = events.push(e);
    assert(pushed.subrange(0, pushed.len() - 1) =~= events);
    assert(pushed[pushed.len() - 1] == e);
}

/// Replacing one non-add event by another leaves the payloads unchanged.
pub proof fn lemma_log_adds_update(events: Seq<Event>, i: int, e: Event)
    requires
        0 <= i < events.len(),
        !is_real_add(events[i]),
        !is_real_add(e),
    ensures
        log_adds(events.update(i, e)) == log_adds(events),
    decreases events.len(),
{
    let updated = events.update(i, e);
    if i == events.len() - 1 {
        assert(updated.subrange(0, updated.len() - 1) =~= events.subrange(0, events.len() - 1));
    } else {
        assert(updated.subrange(0, updated.len() - 1) =~= events.subrange(
            0,
            events.len() - 1,
        ).update(i, e));
        lemma_log_adds_update(events.subrange(0, events.len() - 1), i, e);
        assert(updated[updated.len() - 1] == events[events.len() - 1]);
    }
}

/// A prefix of the log yields a prefix of the payloads.
pub proof fn lemma_log_adds_prefix(events: Seq<Event>, i: int)
    requires
        0 <= i <= events.len(),
    ensures
        log_adds(events.take(i)).len() <= log_adds(events).len(),
        log_adds(events.take(i)) == log_adds(events).take(log_adds(events.take(i)).len() as int),
    decreases events.len(),
{
    if i == events.len() {
        assert(events.take(i) =~= events);
        assert(log_adds(events).take(log_adds(events).len() as int) =~= log_adds(events));
    } else {
        let head = events.subrange(0, events.len() - 1);
        assert(events.take(i) =~= head.take(i));
        lemma_log_adds_prefix(head, i);
        let m = log_adds(head.take(i)).len() as int;
        if is_real_add(events[events.len() - 1]) {
            assert(log_adds(events) == log_adds(head).push(add_payload(events[events.len() - 1])));
            assert(log_adds(events).take(m) =~= log_adds(head).take(m));
        } else {
            assert(log_adds(events) == log_adds(head));
        }
    }
}

/// The forward-parent offset a start event carries; `None` for every other
/// event.
pub open spec fn event_fp(e: Event) -> Option<usize> {
    match e {
        Event::StartNode { kind, forward_parent } => forward_parent,
        _ => None,
    }
}

/// Whether the forward-parent edge leaving position `i`, if any, is sound:
/// it points strictly ahead, stays inside the log, and lands on a start
/// event or on a slot still waiting to be completed.
pub open spec fn fp_edge_ok_at(events: Seq<Event>, i: int) -> bool {
    match event_fp(events[i]) {
        Some(d) => 0 < d && i + d < events.len() && (events[i + d] matches Event::StartNode {
            kind: _,
            forward_parent: _,
        } || events[i + d] == Event::Placeholder),
        None => true,
    }
}

/// Every forward-parent edge of the log is sound.
pub open spec fn fp_edges_ok(events: Seq<Event>) -> bool {
    forall|i: int| 0 <= i < events.len() ==> #[trigger] fp_edge_ok_at(events, i)
}

/// Where the forward-parent edge leaving position `i` lands, if it exists.
pub open spec fn fp_target_of(events: Seq<Event>, i: int) -> Option<int> {
    match event_fp(events[i]) {
        Some(d) => Some(i + d),
        None => None,
    }
}

/// No two forward-parent edges share a target: each node is re-parented at
/// most once, so a replay that follows and tombstones a chain never crosses
/// another chain.
pub open spec fn fp_targets_distinct(events: Seq<Event>) -> bool {
    forall|i: int, j: int|
        #![trigger fp_target_of(events, i), fp_target_of(events, j)]
        0 <= i < j < events.len() && fp_target_of(events, i) is Some && fp_target_of(
            events,
            j,
        ) is Some ==> fp_target_of(events, i) != fp_target_of(events, j)
}

/// No tombstone slot is left in the range `[from, len)`: every node started
/// there was completed.
pub open spec fn placeholder_free_from(events: Seq<Event>, from: int) -> bool {
    forall|i: int| from <= i < events.len() ==> (#[trigger] events[i]) != Event::Placeholder
}

/// A finished log is well-formed for replay: every started node was
/// completed (no tombstone slots remain, so every sound edge in fact lands
/// on a start event), every forward-parent edge is sound, and no two edges
/// share a target.  A log that violates this reflects a parser bug, never a
/// property of the source text.
pub open spec fn log_chains_wf(events: Seq<Event>) -> bool {
    &&& placeholder_free_from(events, 0)
    &&& fp_edges_ok(events)
    &&& fp_targets_distinct(events)
}

/// Appending an event that carries no forward-parent edge keeps the edges
/// sound and their targets distinct.
pub proof fn lemma_fp_push_inert(events: Seq<Event>, e: Event)
    requires
        fp_edges_ok(events),
        fp_targets_distinct(events),
        event_fp(e) is None,
    ensures
        fp_edges_ok(events.push(e)),
        fp_targets_distinct(events.push(e)),
{
    let pushed = events.push(e);
    assert forall|i: int| 0 <= i < pushed.len() implies #[trigger] fp_edge_ok_at(pushed, i) by {
        if i < events.len() {
            assert(fp_edge_ok_at(events, i));
            assert(pushed[i] == events[i]);
            if event_fp(events[i]) is Some {
                let d = event_fp(events[i]).unwrap();
                assert(pushed[i + d] == events[i + d]);
            }
        } else {
            assert(pushed[i] == e);
        }
    }
    assert forall|i: int, j: int|
        0 <= i < j < pushed.len() && (#[trigger] fp_target_of(pushed, i)) is Some && (
        #[trigger] fp_target_of(pushed, j)) is Some implies fp_target_of(pushed, i)
        != fp_target_of(pushed, j) by {
        assert(pushed[i] == events[i]);
        if j < events.len() {
            assert(pushed[j] == events[j]);
            assert(fp_target_of(events, i) == fp_target_of(pushed, i));
            assert(fp_target_of(events, j) == fp_target_of(pushed, j));
        } else {
            assert(pushed[j] == e);
        }
    }
}

/// The ghost image of one event: a tag (0 start, 1 add, 2 finish, 3
/// tombstone), the kind, the forward-parent offset, and the attached text.
pub type EventView = (int, SyntaxKind, Option<usize>, Seq<char>);

/// The view of a start event.
pub open spec fn ev_start(kind: SyntaxKind, forward_parent: Option<usize>) -> EventView {
    (0, kind, forward_parent, Seq::empty())
}

/// The view of an add event.
pub open spec fn ev_add(kind: SyntaxKind, text: Seq<char>) -> EventView {
    (1, kind, None, text)
}

/// The view of a finish event.
pub open spec fn ev_finish() -> EventView {
    (2, SyntaxKind::Root, None, Seq::empty())
}

/// The view of one event.
pub open spec fn event_view(e: Event) -> EventView {
    match e {
        Event::StartNode { kind, forward_parent } => (0, kind, forward_parent, Seq::empty()),
        Event::AddToken { kind, text } => (1, kind, None, text@),
        Event::FinishNode => (2, SyntaxKind::Root, None, Seq::empty()),
        Event::Placeholder => (3, SyntaxKind::Root, None, Seq::empty()),
    }
}

/// The views of a whole event sequence.
pub open spec fn events_view(events: Seq<Event>) -> Seq<EventView> {
    Seq::new(events.len(), |i: int| event_view(events[i]))
}

/// The views of the events in the range `[from, to)`.
pub open spec fn log_segment_view(events: Seq<Event>, from: int, to: int) -> Seq<EventView> {
    events_view(events.subrange(from, to))
}

/// A start-event view with its forward parent set to `d` places ahead — what
/// preceding a completed node does to its start event.
pub open spec fn ev_set_fp(v: EventView, d: int) -> EventView {
    (v.0, v.1, Some(d as usize), v.3)
}

/// A handle to a started node whose kind is not yet known: the index of its
/// `StartNode` slot in the event log.  A marker must be completed before the
/// parser returns.
#[derive(Clone, Copy, Debug, PartialEq, Eq, Structural)]
pub struct Marker {
    pub pos: usize,
}

/// A handle to a completed node, kept so that a later discovery (an operator
/// after its left operand, say) can wrap the node in a new parent through
/// `forward_parent`.
#[derive(Clone, Copy, Debug, PartialEq, Eq, Structural)]
pub struct CompletedMarker {
    pub pos: usize,
}

} // verus!
