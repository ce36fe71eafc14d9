//! The expression parser: precedence climbing over a token stream, with
//! explicit error recovery, writing an event log and diagnostics.
//!
//! The parser never fails: for any token stream it terminates and leaves a
//! log whose real `AddToken` events echo exactly the significant input
//! tokens, in order — the invariant the sink relies on to interleave trivia
//! and rebuild the source text losslessly.  What the log holds is itself
//! specified: a family of spec functions ([`spec_decl_events`],
//! [`spec_binding_events`], [`spec_binary_expression_events`],
//! [`spec_unary_events`], [`spec_primary_events`]) gives, token stream and
//! minimum binding power in hand, the exact event sequence the grammar
//! assigns — precedence, associativity and recovery included — and every
//! production ensures it wrote exactly that segment.

use crate::diagnostic::{
    spec_formatted_text, Diagnostic, FormattedText, Location, Severity,
};
use crate::event::{
    ev_add, ev_finish, ev_set_fp, ev_start, event_fp, event_view, events_view, fp_edge_ok_at,
    fp_edges_ok, fp_target_of, fp_targets_distinct, is_real_add, lemma_fp_push_inert,
    lemma_log_adds_push, lemma_log_adds_update, log_adds, log_chains_wf, log_segment_view,
    placeholder_free_from, start_kind, CompletedMarker, Event, EventView, Marker,
};
use crate::sink::{stream_leaf_views, Sink};
use crate::source::TextSpan;
use crate::syntax::{
    is_trivia_kind, kind_to_symbol, spec_kind_name, spec_kind_to_symbol, SyntaxKind,
};
use crate::token::Symbol;
use crate::tree::{
    node_leaf_views, node_tiles, nodes_dense, source_leaf_views, spec_full_span, tree_text, Node,
    SyntaxTree,
};
use vstd::prelude::*;
use vstd::string::StrSliceExecFns;

verus! {

/// A token as the parser receives it from the lexer: a kind and the exact
/// source text it covers.
#[derive(Debug, PartialEq, Eq)]
pub struct Token {
    pub kind: SyntaxKind,
    pub text: String,
}

impl Token {
    pub fn new(kind: SyntaxKind, text: String) -> (t: Token)
        ensures
            t.kind == kind,
            t.text == text,
    {
        Token { kind, text }
    }
}

/// A token matters to the grammar unless it is trivia.
pub open spec fn is_significant(t: Token) -> bool {
    !is_trivia_kind(t.kind)
}

/// The kind and text of one token.
pub open spec fn token_payload(t: Token) -> (SyntaxKind, Seq<char>) {
    (t.kind, t.text@)
}

/// The concatenated text of a token sequence: the source text it was lexed
/// from.
pub open spec fn toks_text(tokens: Seq<Token>) -> Seq<char>
    decreases tokens,
{
    if tokens.len() == 0 {
        Seq::empty()
    } else {
        toks_text(tokens.subrange(0, tokens.len() - 1)) + tokens[tokens.len() - 1].text@
    }
}

/// The payloads of the significant tokens of a sequence, in order.
pub open spec fn sig_payloads(tokens: Seq<Token>) -> Seq<(SyntaxKind, Seq<char>)>
    decreases tokens,
{
    if tokens.len() == 0 {
        Seq::empty()
    } else {
        let rest = sig_payloads(tokens.subrange(0, tokens.len() - 1));
        let last = tokens[tokens.len() - 1];
        if is_significant(last) {
            rest.push(token_payload(last))
        } else {
            rest
        }
    }
}

/// No input token carries the reserved [`SyntaxKind::Missing`] kind, which
/// only synthesized zero-width leaves use.
pub open spec fn no_missing_kinds(tokens: Seq<Token>) -> bool {
    forall|j: int| 0 <= j < tokens.len() ==> (#[trigger] tokens[j].kind) != SyntaxKind::Missing
}

/// Appending a token appends its text.
pub proof fn lemma_toks_text_push(tokens: Seq<Token>, t: Token)
    ensures
        toks_text(tokens.push(t)) == toks_text(tokens) + t.text@,
{
    let pushed = tokens.push(t);
    assert(pushed.subrange(0, pushed.len() - 1) =~= tokens);
    assert(pushed[pushed.len() - 1] == t);
}

/// Appending a token appends its payload, or nothing when it is trivia.
pub proof fn lemma_sig_payloads_push(tokens: Seq<Token>, t: Token)
    ensures
        is_significant(t) ==> sig_payloads(tokens.push(t)) == sig_payloads(tokens).push(
            token_payload(t),
        ),
        !is_significant(t) ==> sig_payloads(tokens.push(t)) == sig_payloads(tokens),
{
    let pushed = tokens.push(t);
    assert(pushed.subrange(0, pushed.len() - 1) =~= tokens);
    assert(pushed[pushed.len() - 1] == t);
}

/// The text of a prefix is never longer than the text of the whole.
pub proof fn lemma_toks_text_take_le(tokens: Seq<Token>, i: int)
    requires
        0 <= i <= tokens.len(),
    ensures
        toks_text(tokens.take(i)).len() <= toks_text(tokens).len(),
    decreases tokens.len() - i,
{
    if i == tokens.len() {
        assert(tokens.take(i) =~= tokens);
    } else {
        assert(tokens.take(i + 1) =~= tokens.take(i).push(tokens[i]));
        lemma_toks_text_push(tokens.take(i), tokens[i]);
        lemma_toks_text_take_le(tokens, i + 1);
    }
}

/// A prefix of the tokens yields a prefix of the significant payloads.
pub proof fn lemma_sig_payloads_prefix(tokens: Seq<Token>, i: int)
    requires
        0 <= i <= tokens.len(),
    ensures
        sig_payloads(tokens.take(i)).len() <= sig_payloads(tokens).len(),
        sig_payloads(tokens.take(i)) == sig_payloads(tokens).take(
            sig_payloads(tokens.take(i)).len() as int,
        ),
    decreases tokens.len(),
{
    if i == tokens.len() {
        assert(tokens.take(i) =~= tokens);
        assert(sig_payloads(tokens).take(sig_payloads(tokens).len() as int) =~= sig_payloads(
            tokens,
        ));
    } else {
        let head = tokens.subrange(0, tokens.len() - 1);
        assert(tokens.take(i) =~= head.take(i));
        lemma_sig_payloads_prefix(head, i);
        let m = sig_payloads(head.take(i)).len() as int;
        if is_significant(tokens[tokens.len() - 1]) {
            assert(sig_payloads(tokens) == sig_payloads(head).push(
                token_payload(tokens[tokens.len() - 1]),
            ));
            assert(sig_payloads(tokens).take(m) =~= sig_payloads(head).take(m));
        } else {
            assert(sig_payloads(tokens) == sig_payloads(head));
        }
    }
}

/// The kind of the next significant token at or after `from`, skipping
/// trivia; `None` at the end of the stream.
pub open spec fn spec_peek(tokens: Seq<Token>, from: int) -> Option<SyntaxKind>
    decreases tokens.len() - from,
{
    if from < 0 || from >= tokens.len() {
        None
    } else if !is_trivia_kind(tokens[from].kind) {
        Some(tokens[from].kind)
    } else {
        spec_peek(tokens, from + 1)
    }
}

/// Where the cursor stands after consuming the next significant token:
/// just past it, or at the end of the stream when only trivia is left.
pub open spec fn spec_next_cursor(tokens: Seq<Token>, from: int) -> int
    decreases tokens.len() - from,
{
    if from < 0 || from >= tokens.len() {
        tokens.len() as int
    } else if !is_trivia_kind(tokens[from].kind) {
        from + 1
    } else {
        spec_next_cursor(tokens, from + 1)
    }
}

/// The kind and text of the next significant token, skipping trivia.
pub open spec fn spec_peek_payload(tokens: Seq<Token>, from: int) -> Option<
    (SyntaxKind, Seq<char>),
>
    decreases tokens.len() - from,
{
    if from < 0 || from >= tokens.len() {
        None
    } else if !is_trivia_kind(tokens[from].kind) {
        Some(token_payload(tokens[from]))
    } else {
        spec_peek_payload(tokens, from + 1)
    }
}

/// The peeked kind and the peeked payload agree.
pub proof fn lemma_peek_payload_kind(tokens: Seq<Token>, from: int)
    ensures
        (spec_peek(tokens, from) matches Some(k) ==> spec_peek_payload(tokens, from) matches Some(
            p,
        ) && p.0 == k),
        spec_peek(tokens, from) is None ==> spec_peek_payload(tokens, from) is None,
    decreases tokens.len() - from,
{
    if 0 <= from < tokens.len() && is_trivia_kind(tokens[from].kind) {
        lemma_peek_payload_kind(tokens, from + 1);
    }
}

/// Where the cursor stands after a conditional consume: past the next
/// significant token when it has the expected kind, unmoved otherwise.
pub open spec fn spec_expect_cursor(tokens: Seq<Token>, from: int, kind: SyntaxKind) -> int {
    if spec_peek(tokens, from) == Some(kind) {
        spec_next_cursor(tokens, from)
    } else {
        from
    }
}

/// The left binding power of the next significant token read as an infix
/// operator; `None` when it is no infix operator at all.
pub open spec fn spec_peek_infix_left_power(tokens: Seq<Token>, from: int) -> Option<u8> {
    match spec_peek_infix_powers(tokens, from) {
        Some(bp) => Some(bp.0),
        None => None,
    }
}

/// Whether a token kind can start a unary prefix expression.
pub open spec fn spec_is_prefix_op(kind: SyntaxKind) -> bool {
    spec_kind_to_symbol(kind) matches Some(sym) && spec_prefix_binding_power(sym) is Some
}

/// The node kind a primary expression takes from the token that starts it:
/// an identifier becomes a variable reference, a literal a literal node, the
/// unimplemented keyword its own node, an erroneous token an error node, and
/// any other token an explicit unexpected-token node.
pub open spec fn spec_primary_node_kind(kind: SyntaxKind) -> SyntaxKind {
    match kind {
        SyntaxKind::Identifier => SyntaxKind::Exp_VariableRef,
        SyntaxKind::Kwd_Unimplemented => SyntaxKind::Exp_Unimplemented,
        SyntaxKind::Lit_Character => SyntaxKind::Exp_Literal,
        SyntaxKind::Lit_Float => SyntaxKind::Exp_Literal,
        SyntaxKind::Lit_Integer => SyntaxKind::Exp_Literal,
        SyntaxKind::Lit_String => SyntaxKind::Exp_Literal,
        SyntaxKind::Error => SyntaxKind::Error,
        _ => SyntaxKind::Exp_Unexpected,
    }
}

/// The kinds an expression production can complete its node with.
pub open spec fn is_expression_node_kind(kind: SyntaxKind) -> bool {
    ||| kind == SyntaxKind::Exp_Binary
    ||| kind == SyntaxKind::Exp_Literal
    ||| kind == SyntaxKind::Exp_Missing
    ||| kind == SyntaxKind::Exp_UnaryPrefix
    ||| kind == SyntaxKind::Exp_Unexpected
    ||| kind == SyntaxKind::Exp_Unimplemented
    ||| kind == SyntaxKind::Exp_VariableRef
    ||| kind == SyntaxKind::Error
}

/// The left and right binding powers of the next significant token read as an
/// infix operator, if it is one.
pub open spec fn spec_peek_infix_powers(tokens: Seq<Token>, from: int) -> Option<(u8, u8)> {
    match spec_peek(tokens, from) {
        Some(k) => match spec_kind_to_symbol(k) {
            Some(sym) => spec_infix_binding_power(sym),
            None => None,
        },
        None => None,
    }
}

/// The view of the add event that echoes the next significant token.
pub open spec fn spec_peek_add(tokens: Seq<Token>, from: int) -> EventView {
    match spec_peek_payload(tokens, from) {
        Some(p) => ev_add(p.0, p.1),
        None => ev_add(SyntaxKind::Missing, Seq::empty()),
    }
}

/// The event segment recovery writes for an expression that is owed but
/// absent: a missing-expression node holding one zero-width missing leaf.
pub open spec fn spec_missing_expression_events() -> Seq<EventView> {
    seq![
        ev_start(SyntaxKind::Exp_Missing, None),
        ev_add(SyntaxKind::Missing, Seq::empty()),
        ev_finish(),
    ]
}

/// The event segment a primary expression writes: one node, of the kind the
/// peeked token dictates, holding exactly that token.
pub open spec fn spec_primary_events(tokens: Seq<Token>, from: int) -> Seq<EventView> {
    match spec_peek(tokens, from) {
        Some(k) => seq![
            ev_start(spec_primary_node_kind(k), None),
            spec_peek_add(tokens, from),
            ev_finish(),
        ],
        None => spec_missing_expression_events(),
    }
}

/// The event segment a unary production writes and the cursor after it.  At
/// the end of input or before a stray block terminator it is the
/// missing-expression segment and nothing is consumed; a prefix operator
/// wraps an operand parsed at the operator's prefix power; anything else is
/// a primary expression.  (The `if`-guards on the recursion positions only
/// keep the recursion well-founded; consumption always moves past `from`, so
/// they never change the result.)
pub open spec fn spec_unary_events(tokens: Seq<Token>, from: int) -> (Seq<EventView>, int)
    decreases tokens.len() - from, 1int,
{
    match spec_peek(tokens, from) {
        None => (spec_missing_expression_events(), from),
        Some(k) => {
            if k == SyntaxKind::Sym_RBrace {
                (spec_missing_expression_events(), from)
            } else {
                let power = match spec_kind_to_symbol(k) {
                    Some(sym) => spec_prefix_binding_power(sym),
                    None => None,
                };
                match power {
                    Some(rbp) => {
                        let after_op = spec_next_cursor(tokens, from);
                        let operand_from = if from < after_op <= tokens.len() {
                            after_op
                        } else {
                            from + 1
                        };
                        let operand = spec_binary_expression_events(tokens, operand_from, rbp);
                        (
                            seq![
                                ev_start(SyntaxKind::Exp_UnaryPrefix, None),
                                spec_peek_add(tokens, from),
                            ] + operand.0 + seq![ev_finish()],
                            operand.1,
                        )
                    },
                    None => (spec_primary_events(tokens, from), spec_next_cursor(tokens, from)),
                }
            }
        },
    }
}

/// The infix loop of precedence climbing, one step at a time: while the next
/// significant token is an infix operator whose left power reaches `min_bp`,
/// the segment built so far is re-parented under a fresh binary node — its
/// start event's forward parent is pointed at the new slot — followed by the
/// operator token and a right operand parsed at the operator's right power.
/// `seg` is the segment built so far and `lhs_rel` the index, within it, of
/// the current left-hand side's start event.  (As in the unary production,
/// the `if`-guards on the recursion positions only keep the recursion
/// well-founded; consumption always moves past `from`, so they never change
/// the result.)
pub open spec fn spec_infix_chain(
    tokens: Seq<Token>,
    from: int,
    min_bp: u8,
    seg: Seq<EventView>,
    lhs_rel: int,
) -> (Seq<EventView>, int)
    decreases tokens.len() - from, 0int,
{
    match spec_peek_infix_powers(tokens, from) {
        None => (seg, from),
        Some(bp) => {
            if bp.0 < min_bp {
                (seg, from)
            } else {
                let after_op0 = spec_next_cursor(tokens, from);
                let after_op = if from < after_op0 <= tokens.len() {
                    after_op0
                } else {
                    from + 1
                };
                let rhs = spec_binary_expression_events(tokens, after_op, bp.1);
                let seg2 = seg.update(lhs_rel, ev_set_fp(seg[lhs_rel], seg.len() - lhs_rel))
                    + seq![
                    ev_start(SyntaxKind::Exp_Binary, None),
                    spec_peek_add(tokens, from),
                ] + rhs.0 + seq![ev_finish()];
                let next_from = if from < rhs.1 <= tokens.len() {
                    rhs.1
                } else {
                    from + 1
                };
                spec_infix_chain(tokens, next_from, min_bp, seg2, seg.len() as int)
            }
        },
    }
}

/// The event segment a whole expression production writes from `from` at the
/// given minimum binding power, and the cursor after it: a unary left-hand
/// side, then the infix loop.
pub open spec fn spec_binary_expression_events(tokens: Seq<Token>, from: int, min_bp: u8) -> (
    Seq<EventView>,
    int,
)
    decreases tokens.len() - from, 2int,
{
    let lhs = spec_unary_events(tokens, from);
    let lhs_end = if from <= lhs.1 <= tokens.len() {
        lhs.1
    } else {
        from
    };
    spec_infix_chain(tokens, lhs_end, min_bp, lhs.0, 0)
}

/// The add event a conditional consume writes: the expected token itself
/// when the next significant token has that kind, a zero-width missing leaf
/// otherwise.
pub open spec fn spec_expect_add(tokens: Seq<Token>, from: int, kind: SyntaxKind) -> EventView {
    if spec_peek(tokens, from) == Some(kind) {
        spec_peek_add(tokens, from)
    } else {
        ev_add(SyntaxKind::Missing, Seq::empty())
    }
}

/// The event segment a `let` binding writes and the cursor after it: the
/// binding node holding the keyword, the identifier or a missing leaf, `=`
/// or a missing leaf, then the bound expression.
pub open spec fn spec_binding_events(tokens: Seq<Token>, from: int) -> (Seq<EventView>, int) {
    let after_let = spec_next_cursor(tokens, from);
    let after_ident = spec_expect_cursor(tokens, after_let, SyntaxKind::Identifier);
    let after_eq = spec_expect_cursor(tokens, after_ident, SyntaxKind::Sym_Eq);
    let body = spec_binary_expression_events(tokens, after_eq, 0);
    (
        seq![
            ev_start(SyntaxKind::Dec_GlobalBinding, None),
            spec_peek_add(tokens, from),
            spec_expect_add(tokens, after_let, SyntaxKind::Identifier),
            spec_expect_add(tokens, after_ident, SyntaxKind::Sym_Eq),
        ] + body.0 + seq![ev_finish()],
        body.1,
    )
}

/// The event segment one top-level declaration writes and the cursor after
/// it: a `let` binding at the `let` keyword, any expression otherwise.
pub open spec fn spec_decl_events(tokens: Seq<Token>, from: int) -> (Seq<EventView>, int) {
    if spec_peek(tokens, from) == Some(SyntaxKind::Kwd_Let) {
        spec_binding_events(tokens, from)
    } else {
        spec_binary_expression_events(tokens, from, 0)
    }
}

/// One token with its kind sanitized: the reserved `Missing` kind, which no
/// lexer emits, is downgraded to `Error` so that it cannot be mistaken for a
/// synthesized leaf.  The text is kept as it is.
pub open spec fn spec_sanitize_token(t: Token) -> Token {
    if t.kind == SyntaxKind::Missing {
        Token { kind: SyntaxKind::Error, text: t.text }
    } else {
        t
    }
}

/// A token stream with every kind sanitized.
pub open spec fn spec_sanitize(tokens: Seq<Token>) -> Seq<Token> {
    Seq::new(tokens.len(), |j: int| spec_sanitize_token(tokens[j]))
}

/// Sanitizing changes no text.
pub proof fn lemma_sanitize_text(tokens: Seq<Token>)
    ensures
        toks_text(spec_sanitize(tokens)) == toks_text(tokens),
    decreases tokens.len(),
{
    if tokens.len() > 0 {
        let head = tokens.subrange(0, tokens.len() - 1);
        assert(spec_sanitize(tokens).subrange(0, tokens.len() - 1) =~= spec_sanitize(head));
        lemma_sanitize_text(head);
        assert(spec_sanitize(tokens)[tokens.len() - 1].text@ == tokens[tokens.len() - 1].text@);
    } else {
        assert(spec_sanitize(tokens) =~= tokens);
    }
}

/// The prefix binding power of a symbol used as a unary operator; the only
/// prefix operators are `-` and `!`.
pub open spec fn spec_prefix_binding_power(symbol: Symbol) -> Option<u8> {
    match symbol {
        Symbol::Minus => Some(9u8),
        Symbol::Bang => Some(9u8),
        _ => None,
    }
}

/// The prefix binding power of a symbol used as a unary operator.
pub fn prefix_binding_power(symbol: Symbol) -> (r: Option<u8>)
    ensures
        r == spec_prefix_binding_power(symbol),
{
    match symbol {
        Symbol::Minus => Some(9),
        Symbol::Bang => Some(9),
        _ => None,
    }
}

/// The left and right binding powers of a symbol used as an infix operator.
/// A higher power binds tighter; for each operator the relation between the
/// two sides decides associativity.
pub open spec fn spec_infix_binding_power(symbol: Symbol) -> Option<(u8, u8)> {
    match symbol {
        Symbol::Semicolon => Some((1u8, 2u8)),
        Symbol::LThinArrow => Some((3u8, 2u8)),
        Symbol::Eq => Some((4u8, 3u8)),
        Symbol::BangEq => Some((4u8, 3u8)),
        Symbol::Lt => Some((5u8, 6u8)),
        Symbol::Gt => Some((5u8, 6u8)),
        Symbol::LtEq => Some((5u8, 6u8)),
        Symbol::GtEq => Some((5u8, 6u8)),
        Symbol::Plus => Some((7u8, 8u8)),
        Symbol::Minus => Some((7u8, 8u8)),
        Symbol::Asterisk => Some((9u8, 10u8)),
        Symbol::ForwardSlash => Some((9u8, 10u8)),
        _ => None,
    }
}

/// The left and right binding powers of a symbol used as an infix operator.
pub fn infix_binding_power(symbol: Symbol) -> (r: Option<(u8, u8)>)
    ensures
        r == spec_infix_binding_power(symbol),
{
    match symbol {
        Symbol::Semicolon => Some((1, 2)),
        Symbol::LThinArrow => Some((3, 2)),
        Symbol::Eq => Some((4, 3)),
        Symbol::BangEq => Some((4, 3)),
        Symbol::Lt => Some((5, 6)),
        Symbol::Gt => Some((5, 6)),
        Symbol::LtEq => Some((5, 6)),
        Symbol::GtEq => Some((5, 6)),
        Symbol::Plus => Some((7, 8)),
        Symbol::Minus => Some((7, 8)),
        Symbol::Asterisk => Some((9, 10)),
        Symbol::ForwardSlash => Some((9, 10)),
        _ => None,
    }
}

/// The expression parser.  It owns its token stream, a cursor into it, the
/// event log it writes, and the diagnostics it emits during recovery.
pub struct Parser {
    pub tokens: Vec<Token>,
    pub cursor: usize,
    pub offset: usize,
    pub events: Vec<Event>,
    pub diagnostics: Vec<Diagnostic>,
}

impl Parser {
    /// The parser's working invariant: the cursor stays inside the stream,
    /// the running character offset equals the length of the text consumed so
    /// far, and the real `AddToken` events written so far echo exactly the
    /// significant tokens consumed so far.
    pub open spec fn wf(self) -> bool {
        &&& self.cursor <= self.tokens@.len()
        &&& toks_text(self.tokens@).len() <= usize::MAX
        &&& no_missing_kinds(self.tokens@)
        &&& self.offset == toks_text(self.tokens@.take(self.cursor as int)).len()
        &&& log_adds(self.events@) == sig_payloads(self.tokens@.take(self.cursor as int))
        &&& fp_edges_ok(self.events@)
        &&& fp_targets_distinct(self.events@)
    }

    /// What every parsing step guarantees: the invariant holds, the tokens
    /// are untouched, the cursor only moves forward and stays in bounds, and
    /// the log only grows.
    pub open spec fn parser_step(pre: Parser, post: Parser) -> bool {
        &&& post.wf()
        &&& post.tokens@ == pre.tokens@
        &&& pre.cursor <= post.cursor
        &&& post.cursor <= post.tokens@.len()
        &&& pre.events@.len() <= post.events@.len()
        &&& pre.diagnostics@.len() <= post.diagnostics@.len()
        &&& forall|i: int|
            0 <= i < pre.diagnostics@.len() ==> (#[trigger] post.diagnostics@[i])
                == pre.diagnostics@[i]
        &&& forall|i: int|
            pre.diagnostics@.len() <= i < post.diagnostics@.len() ==> (
            #[trigger] post.diagnostics@[i]).severity == Severity::Error
                && post.diagnostics@[i].location.range.start
                == post.diagnostics@[i].location.range.end
    }

    /// What a whole grammar production guarantees on top of
    /// [`Parser::parser_step`]: every event written before it is still in
    /// place.  Completing a marker rewrites its own placeholder and preceding
    /// a node rewrites its own start event, but a production only ever
    /// touches slots it opened itself, so everything before it survives.
    pub open spec fn grammar_step(pre: Parser, post: Parser) -> bool {
        &&& Parser::parser_step(pre, post)
        &&& post.events@.subrange(0, pre.events@.len() as int) == pre.events@
    }

    /// Build a parser over a token stream.  Kinds reserved for synthesized
    /// leaves are downgraded first, so any stream is accepted; the text is
    /// kept exactly.  The one demand is the machine limit that the total
    /// source text fits in a `usize` of characters.
    pub fn with(tokens: Vec<Token>) -> (p: Parser)
        requires
            toks_text(tokens@).len() <= usize::MAX,
        ensures
            p.wf(),
            p.tokens@ == spec_sanitize(tokens@),
            toks_text(p.tokens@) == toks_text(tokens@),
            p.cursor == 0,
            p.offset == 0,
            p.events@.len() == 0,
            p.diagnostics@.len() == 0,
    {
        let ghost orig = tokens@;
        let mut tokens = tokens;
        let mut i: usize = 0;
        while i < tokens.len()
            invariant
                i <= tokens@.len(),
                tokens@.len() == orig.len(),
                forall|j: int| 0 <= j < i ==> tokens@[j] == spec_sanitize_token(#[trigger] orig[j]),
                forall|j: int| i <= j < orig.len() ==> tokens@[j] == #[trigger] orig[j],
            decreases tokens@.len() - i,
        {
            let is_missing = tokens[i].kind == SyntaxKind::Missing;
            if is_missing {
                let entry = &mut tokens[i];
                entry.kind = SyntaxKind::Error;
            }
            i = i + 1;
        }
        proof {
            assert(tokens@ =~= spec_sanitize(orig));
            lemma_sanitize_text(orig);
        }
        let p = Parser {
            tokens,
            cursor: 0,
            offset: 0,
            events: Vec::new(),
            diagnostics: Vec::new(),
        };
        proof {
            assert(p.tokens@.take(0) =~= Seq::<Token>::empty());
            assert(no_missing_kinds(p.tokens@));
        }
        p
    }

    /// The index of the next significant token at or after the cursor, or
    /// the length of the stream when only trivia is left.
    fn first_significant(&self) -> (i: usize)
        requires
            self.cursor <= self.tokens@.len(),
        ensures
            self.cursor <= i <= self.tokens@.len(),
            forall|j: int|
                self.cursor <= j < i ==> is_trivia_kind(#[trigger] self.tokens@[j].kind),
            i < self.tokens@.len() ==> !is_trivia_kind(self.tokens@[i as int].kind)
                && spec_peek(self.tokens@, self.cursor as int) == Some(
                self.tokens@[i as int].kind,
            ) && spec_peek_payload(self.tokens@, self.cursor as int) == Some(
                token_payload(self.tokens@[i as int]),
            ) && spec_next_cursor(self.tokens@, self.cursor as int) == i + 1,
            i == self.tokens@.len() ==> spec_peek(self.tokens@, self.cursor as int) is None
                && spec_next_cursor(self.tokens@, self.cursor as int) == self.tokens@.len(),
    {
        let mut i: usize = self.cursor;
        while i < self.tokens.len() && self.tokens[i].kind.is_trivia()
            invariant
                self.cursor <= i <= self.tokens@.len(),
                forall|j: int|
                    self.cursor <= j < i ==> is_trivia_kind(#[trigger] self.tokens@[j].kind),
                spec_peek(self.tokens@, self.cursor as int) == spec_peek(self.tokens@, i as int),
                spec_peek_payload(self.tokens@, self.cursor as int) == spec_peek_payload(
                    self.tokens@,
                    i as int,
                ),
                spec_next_cursor(self.tokens@, self.cursor as int) == spec_next_cursor(
                    self.tokens@,
                    i as int,
                ),
            decreases self.tokens@.len() - i,
        {
            i = i + 1;
        }
        i
    }

    /// The kind of the next significant token, without consuming anything.
    pub fn peek_kind(&self) -> (r: Option<SyntaxKind>)
        requires
            self.cursor <= self.tokens@.len(),
        ensures
            r == spec_peek(self.tokens@, self.cursor as int),
    {
        let i = self.first_significant();
        if i < self.tokens.len() {
            Some(self.tokens[i].kind)
        } else {
            None
        }
    }

    /// Whether the next significant token has the given kind.
    pub fn is_at(&self, kind: SyntaxKind) -> (r: bool)
        requires
            self.cursor <= self.tokens@.len(),
        ensures
            r == (spec_peek(self.tokens@, self.cursor as int) == Some(kind)),
    {
        match self.peek_kind() {
            Some(k) => k == kind,
            None => false,
        }
    }

    /// Whether only trivia is left.
    pub fn at_end(&self) -> (r: bool)
        requires
            self.cursor <= self.tokens@.len(),
        ensures
            r == (spec_peek(self.tokens@, self.cursor as int) is None),
    {
        let i = self.first_significant();
        i == self.tokens.len()
    }

    /// Consume the next significant token, skipping the trivia before it,
    /// and echo it into the event log.
    fn bump(&mut self)
        requires
            old(self).wf(),
            spec_peek(old(self).tokens@, old(self).cursor as int) is Some,
        ensures
            Parser::grammar_step(*old(self), *final(self)),
            final(self).cursor > old(self).cursor,
            final(self).cursor == spec_next_cursor(old(self).tokens@, old(self).cursor as int),
            final(self).events@.len() == old(self).events@.len() + 1,
            (final(self).events@.last() matches Event::AddToken { kind, text } && Some(
                (kind, text@),
            ) == spec_peek_payload(old(self).tokens@, old(self).cursor as int)),
            final(self).diagnostics@ == old(self).diagnostics@,
    {
        let i = self.first_significant();
        while self.cursor < i
            invariant
                self.wf(),
                i <= self.tokens@.len(),
                self.cursor <= i,
                forall|j: int|
                    self.cursor <= j < i ==> is_trivia_kind(#[trigger] self.tokens@[j].kind),
                self.tokens@ == old(self).tokens@,
                self.events@ == old(self).events@,
                self.diagnostics@ == old(self).diagnostics@,
                old(self).cursor <= self.cursor,
            decreases i - self.cursor,
        {
            let ghost pre = self.tokens@.take(self.cursor as int);
            proof {
                assert(self.tokens@.take(self.cursor as int + 1) =~= pre.push(
                    self.tokens@[self.cursor as int],
                ));
                lemma_toks_text_push(pre, self.tokens@[self.cursor as int]);
                lemma_sig_payloads_push(pre, self.tokens@[self.cursor as int]);
                lemma_toks_text_take_le(self.tokens@, self.cursor as int + 1);
            }
            let w = self.tokens[self.cursor].text.as_str().unicode_len();
            self.offset = self.offset + w;
            self.cursor = self.cursor + 1;
        }
        proof {
            assert(i < self.tokens@.len());
        }
        let ghost pre = self.tokens@.take(self.cursor as int);
        proof {
            assert(self.tokens@.take(self.cursor as int + 1) =~= pre.push(
                self.tokens@[self.cursor as int],
            ));
            lemma_toks_text_push(pre, self.tokens@[self.cursor as int]);
            lemma_sig_payloads_push(pre, self.tokens@[self.cursor as int]);
            lemma_toks_text_take_le(self.tokens@, self.cursor as int + 1);
            lemma_log_adds_push(
                self.events@,
                Event::AddToken {
                    kind: self.tokens@[self.cursor as int].kind,
                    text: self.tokens@[self.cursor as int].text,
                },
            );
        }
        let n = self.tokens.len();
        let kind = self.tokens[i].kind;
        let text = self.tokens[i].text.clone();
        let w = text.as_str().unicode_len();
        self.events.push(Event::AddToken { kind, text });
        self.offset = self.offset + w;
        proof {
            assert(i < n);
        }
        self.cursor = i + 1;
        proof {
            assert(final(self).events@.subrange(0, old(self).events@.len() as int) =~= old(
                self,
            ).events@);
            assert(final(self).events@ =~= old(self).events@.push(final(self).events@.last()));
            lemma_fp_push_inert(old(self).events@, final(self).events@.last());
        }
    }

    /// Record a zero-width missing leaf in the log; no input is consumed.
    fn add_missing_token(&mut self)
        requires
            old(self).wf(),
        ensures
            Parser::grammar_step(*old(self), *final(self)),
            final(self).cursor == old(self).cursor,
            final(self).events@.len() == old(self).events@.len() + 1,
            (final(self).events@.last() matches Event::AddToken { kind, text } && kind
                == SyntaxKind::Missing && text@ == Seq::<char>::empty()),
            final(self).diagnostics@ == old(self).diagnostics@,
    {
        self.events.push(Event::AddToken { kind: SyntaxKind::Missing, text: String::new() });
        proof {
            assert(!is_real_add(final(self).events@.last()));
            lemma_log_adds_push(old(self).events@, final(self).events@.last());
            assert(final(self).events@ =~= old(self).events@.push(final(self).events@.last()));
            assert(final(self).events@.subrange(0, old(self).events@.len() as int) =~= old(
                self,
            ).events@);
            lemma_fp_push_inert(old(self).events@, final(self).events@.last());
        }
    }

    /// Report a recoverable syntax error as a zero-width diagnostic at the
    /// current position, with the given prose.
    fn emit_error(&mut self, title: &str, message: FormattedText)
        requires
            old(self).wf(),
        ensures
            Parser::grammar_step(*old(self), *final(self)),
            final(self).cursor == old(self).cursor,
            final(self).events@ == old(self).events@,
            final(self).diagnostics@.len() == old(self).diagnostics@.len() + 1,
            final(self).diagnostics@.subrange(0, old(self).diagnostics@.len() as int) == old(
                self,
            ).diagnostics@,
            final(self).diagnostics@.last().severity == Severity::Error,
            final(self).diagnostics@.last().title@ == title@,
            final(self).diagnostics@.last().message == message,
            final(self).diagnostics@.last().location.range.start == old(self).offset,
            final(self).diagnostics@.last().location.range.end == old(self).offset,
    {
        let d = Diagnostic::error(title).message(message).location(
            Location::new(0, TextSpan::zero_width(self.offset)),
        );
        self.diagnostics.push(d);
        proof {
            assert(final(self).diagnostics@.subrange(0, old(self).diagnostics@.len() as int)
                =~= old(self).diagnostics@);
            assert(final(self).events@.subrange(0, old(self).events@.len() as int) =~= old(
                self,
            ).events@);
        }
    }

    /// Open a node whose kind is not yet known.
    fn start(&mut self) -> (m: Marker)
        requires
            old(self).wf(),
        ensures
            Parser::grammar_step(*old(self), *final(self)),
            final(self).cursor == old(self).cursor,
            final(self).events@ == old(self).events@.push(Event::Placeholder),
            m.pos == old(self).events@.len(),
            final(self).diagnostics@ == old(self).diagnostics@,
    {
        let pos = self.events.len();
        proof {
            lemma_log_adds_push(self.events@, Event::Placeholder);
        }
        self.events.push(Event::Placeholder);
        proof {
            assert(final(self).events@.subrange(0, old(self).events@.len() as int) =~= old(
                self,
            ).events@);
            lemma_fp_push_inert(old(self).events@, Event::Placeholder);
        }
        Marker { pos }
    }

    /// Rewrite a marker's placeholder with the node's final kind and close
    /// the node.
    fn complete(&mut self, m: Marker, kind: SyntaxKind) -> (cm: CompletedMarker)
        requires
            old(self).wf(),
            m.pos < old(self).events@.len(),
            old(self).events@[m.pos as int] == Event::Placeholder,
        ensures
            Parser::parser_step(*old(self), *final(self)),
            final(self).cursor == old(self).cursor,
            final(self).events@ == old(self).events@.update(
                m.pos as int,
                Event::StartNode { kind, forward_parent: None },
            ).push(Event::FinishNode),
            cm.pos == m.pos,
            final(self).diagnostics@ == old(self).diagnostics@,
    {
        proof {
            lemma_log_adds_update(
                self.events@,
                m.pos as int,
                Event::StartNode { kind, forward_parent: None },
            );
            lemma_log_adds_push(
                self.events@.update(m.pos as int, Event::StartNode { kind, forward_parent: None }),
                Event::FinishNode,
            );
        }
        self.events[m.pos] = Event::StartNode { kind, forward_parent: None };
        self.events.push(Event::FinishNode);
        proof {
            let before = old(self).events@;
            let updated = before.update(
                m.pos as int,
                Event::StartNode { kind, forward_parent: None },
            );
            assert(final(self).events@.subrange(0, before.len() as int) =~= updated);
            assert(m.pos < before.len());
            assert forall|i: int| 0 <= i < updated.len() implies #[trigger] fp_edge_ok_at(
                updated,
                i,
            ) by {
                if i == m.pos as int {
                } else {
                    assert(updated[i] == before[i]);
                    assert(fp_edge_ok_at(before, i));
                    if event_fp(before[i]) is Some {
                        let d = event_fp(before[i]).unwrap();
                        if i + d != m.pos as int {
                            assert(updated[i + d] == before[i + d]);
                        }
                    }
                }
            }
            assert forall|i: int, j: int|
                0 <= i < j < updated.len() && (#[trigger] fp_target_of(updated, i)) is Some && (
                #[trigger] fp_target_of(updated, j)) is Some implies fp_target_of(updated, i)
                != fp_target_of(updated, j) by {
                assert(event_fp(before[m.pos as int]) is None);
                assert(fp_target_of(updated, i) == fp_target_of(before, i));
                assert(fp_target_of(updated, j) == fp_target_of(before, j));
            }
            lemma_fp_push_inert(updated, Event::FinishNode);
        }
        CompletedMarker { pos: m.pos }
    }

    /// Wrap an already-completed node in a new, not-yet-known parent: open a
    /// fresh slot at the end of the log and point the completed node's
    /// `forward_parent` at it.  The sink later follows that chain to nest
    /// the nodes correctly.
    fn precede(&mut self, cm: CompletedMarker) -> (m: Marker)
        requires
            old(self).wf(),
            cm.pos < old(self).events@.len(),
            (old(self).events@[cm.pos as int] matches Event::StartNode {
                kind: _,
                forward_parent: None,
            }),
        ensures
            Parser::parser_step(*old(self), *final(self)),
            final(self).cursor == old(self).cursor,
            m.pos == old(self).events@.len(),
            final(self).events@ == old(self).events@.update(
                cm.pos as int,
                Event::StartNode {
                    kind: crate::event::start_kind(old(self).events@[cm.pos as int]),
                    forward_parent: Some((m.pos - cm.pos) as usize),
                },
            ).push(Event::Placeholder),
            final(self).diagnostics@ == old(self).diagnostics@,
    {
        let pos = self.events.len();
        let kind = match &self.events[cm.pos] {
            Event::StartNode { kind, forward_parent } => *kind,
            _ => {
                proof {
                    assert(false);
                }
                SyntaxKind::Error
            },
        };
        proof {
            lemma_log_adds_update(
                self.events@,
                cm.pos as int,
                Event::StartNode { kind, forward_parent: Some((pos - cm.pos) as usize) },
            );
            lemma_log_adds_push(
                self.events@.update(
                    cm.pos as int,
                    Event::StartNode { kind, forward_parent: Some((pos - cm.pos) as usize) },
                ),
                Event::Placeholder,
            );
        }
        self.events[cm.pos] = Event::StartNode {
            kind,
            forward_parent: Some(pos - cm.pos),
        };
        self.events.push(Event::Placeholder);
        proof {
            let before = old(self).events@;
            let updated = before.update(
                cm.pos as int,
                Event::StartNode { kind, forward_parent: Some((pos - cm.pos) as usize) },
            );
            assert(final(self).events@.subrange(0, before.len() as int) =~= updated);
            let after = updated.push(Event::Placeholder);
            assert(final(self).events@ =~= after);
            assert forall|i: int| 0 <= i < after.len() implies #[trigger] fp_edge_ok_at(
                after,
                i,
            ) by {
                if i == cm.pos as int {
                    assert(after[pos as int] == Event::Placeholder);
                } else if i == before.len() as int {
                    assert(after[i] == Event::Placeholder);
                } else {
                    assert(after[i] == before[i]);
                    assert(fp_edge_ok_at(before, i));
                    if event_fp(before[i]) is Some {
                        let d = event_fp(before[i]).unwrap();
                        if i + d != cm.pos as int {
                            assert(after[i + d] == before[i + d]);
                        }
                    }
                }
            }
            assert forall|i: int, j: int|
                0 <= i < j < after.len() && (#[trigger] fp_target_of(after, i)) is Some && (
                #[trigger] fp_target_of(after, j)) is Some implies fp_target_of(after, i)
                != fp_target_of(after, j) by {
                assert(event_fp(before[cm.pos as int]) is None);
                if i == cm.pos as int {
                    assert(fp_target_of(after, i) == Some(pos as int));
                    assert(j != before.len() as int);
                    assert(fp_target_of(after, j) == fp_target_of(before, j));
                    assert(fp_edge_ok_at(before, j));
                } else if j == cm.pos as int {
                    assert(fp_target_of(after, j) == Some(pos as int));
                    assert(fp_target_of(after, i) == fp_target_of(before, i));
                    assert(fp_edge_ok_at(before, i));
                } else {
                    assert(i != before.len() as int);
                    if j == before.len() as int {
                        assert(event_fp(after[j]) is None);
                    } else {
                        assert(fp_target_of(after, i) == fp_target_of(before, i));
                        assert(fp_target_of(after, j) == fp_target_of(before, j));
                    }
                }
            }
        }
        Marker { pos }
    }

    /// Consume the next token if it has the expected kind; otherwise record
    /// a zero-width missing token at the current position, report it, and
    /// continue — a missing required token never aborts the parse.
    fn expect(&mut self, kind: SyntaxKind)
        requires
            old(self).wf(),
        ensures
            Parser::grammar_step(*old(self), *final(self)),
            final(self).events@.len() == old(self).events@.len() + 1,
            placeholder_free_from(final(self).events@, old(self).events@.len() as int),
            final(self).cursor == spec_expect_cursor(
                old(self).tokens@,
                old(self).cursor as int,
                kind,
            ),
            spec_peek(old(self).tokens@, old(self).cursor as int) == Some(kind) ==> {
                &&& (final(self).events@.last() matches Event::AddToken { kind: k, text: t }
                    && Some((k, t@)) == spec_peek_payload(
                    old(self).tokens@,
                    old(self).cursor as int,
                ))
                &&& final(self).diagnostics@ == old(self).diagnostics@
            },
            spec_peek(old(self).tokens@, old(self).cursor as int) != Some(kind) ==> {
                &&& (final(self).events@.last() matches Event::AddToken { kind: k, text: t } && k
                    == SyntaxKind::Missing && t@ == Seq::<char>::empty())
                &&& final(self).diagnostics@.len() == old(self).diagnostics@.len() + 1
                &&& final(self).diagnostics@.last().severity == Severity::Error
                &&& final(self).diagnostics@.last().title@ == "missing token"@
                &&& spec_formatted_text(final(self).diagnostics@.last().message) == "expected "@
                    + spec_kind_name(kind)
                &&& final(self).diagnostics@.last().location.range == (TextSpan {
                    start: old(self).offset,
                    end: old(self).offset,
                })
            },
    {
        if self.is_at(kind) {
            self.bump();
        } else {
            self.add_missing_token();
            let message = FormattedText::new(Vec::new()).text("expected ").code(kind.name());
            proof {
                assert(message.segments@.subrange(0, 0) =~= Seq::<
                    crate::diagnostic::FormattedTextSegment,
                >::empty());
            }
            self.emit_error("missing token", message);
        }
    }
}

/// When a prefix of a sequence equals `a`, every index below the prefix
/// length reads the same in both.
pub proof fn lemma_prefix_index<A>(a: Seq<A>, b: Seq<A>, n: int)
    requires
        0 <= n <= b.len(),
        b.subrange(0, n) == a,
    ensures
        forall|k: int| 0 <= k < n ==> b[k] == a[k],
{
    assert forall|k: int| 0 <= k < n implies b[k] == a[k] by {
        assert(b.subrange(0, n)[k] == b[k]);
    }
}

impl Parser {
    /// Record an explicit missing-expression node: a zero-width leaf wrapped
    /// in a node, bound to the current position.  No input is consumed.
    fn missing_expression(&mut self) -> (cm: CompletedMarker)
        requires
            old(self).wf(),
        ensures
            Parser::grammar_step(*old(self), *final(self)),
            final(self).cursor == old(self).cursor,
            cm.pos == old(self).events@.len(),
            final(self).events@.len() == old(self).events@.len() + 3,
            placeholder_free_from(final(self).events@, old(self).events@.len() as int),
            log_segment_view(
                final(self).events@,
                old(self).events@.len() as int,
                final(self).events@.len() as int,
            ) == spec_missing_expression_events(),
            final(self).events@[cm.pos as int] == (Event::StartNode {
                kind: SyntaxKind::Exp_Missing,
                forward_parent: None,
            }),
            (final(self).events@[cm.pos as int + 1] matches Event::AddToken { kind: k, text: t }
                && k == SyntaxKind::Missing && t@ == Seq::<char>::empty()),
            final(self).events@.last() == Event::FinishNode,
            final(self).diagnostics@.len() == old(self).diagnostics@.len() + 1,
            final(self).diagnostics@.last().severity == Severity::Error,
            final(self).diagnostics@.last().title@ == "missing expression"@,
            final(self).diagnostics@.last().location.range == (TextSpan {
                start: old(self).offset,
                end: old(self).offset,
            }),
    {
        let ghost pre = *self;
        let m = self.start();
        let ghost s1 = *self;
        self.add_missing_token();
        let ghost s2 = *self;
        self.emit_error("missing expression", FormattedText::new(Vec::new()));
        let ghost s3 = *self;
        proof {
            lemma_prefix_index(s1.events@, s2.events@, s1.events@.len() as int);
            assert(s3.events@ == s2.events@);
            assert(s3.events@[m.pos as int] == Event::Placeholder);
        }
        let cm = self.complete(m, SyntaxKind::Exp_Missing);
        proof {
            assert(final(self).events@.subrange(0, pre.events@.len() as int) =~= pre.events@);
            assert(final(self).events@[cm.pos as int] == (Event::StartNode {
                kind: SyntaxKind::Exp_Missing,
                forward_parent: None,
            }));
            assert(final(self).events@[cm.pos as int + 1] == s2.events@[cm.pos as int + 1]);
            assert(s2.events@[cm.pos as int + 1] == s2.events@.last());
            assert forall|i2: int|
                pre.events@.len() <= i2 < final(self).events@.len() implies final(self).events@[i2]
                != Event::Placeholder by {
                if i2 == cm.pos as int + 2 {
                    assert(final(self).events@[i2] == final(self).events@.last());
                }
            }
            assert(final(self).events@[cm.pos as int + 2] == final(self).events@.last());
            assert(log_segment_view(
                final(self).events@,
                pre.events@.len() as int,
                final(self).events@.len() as int,
            ) =~= spec_missing_expression_events());
        }
        cm
    }

    /// Parse one primary expression: a variable reference, a literal, the
    /// unimplemented keyword, an erroneous token, or — for any token that
    /// cannot start an expression — an explicit unexpected-token node that
    /// consumes and preserves the token without failing.
    fn parse_primary(&mut self) -> (cm: CompletedMarker)
        requires
            old(self).wf(),
            spec_peek(old(self).tokens@, old(self).cursor as int) is Some,
        ensures
            Parser::grammar_step(*old(self), *final(self)),
            old(self).cursor < final(self).cursor,
            final(self).cursor == spec_next_cursor(old(self).tokens@, old(self).cursor as int),
            cm.pos == old(self).events@.len(),
            final(self).events@.len() == old(self).events@.len() + 3,
            placeholder_free_from(final(self).events@, old(self).events@.len() as int),
            log_segment_view(
                final(self).events@,
                old(self).events@.len() as int,
                final(self).events@.len() as int,
            ) == spec_primary_events(old(self).tokens@, old(self).cursor as int),
            (spec_peek(old(self).tokens@, old(self).cursor as int) matches Some(pk)
                && final(self).events@[cm.pos as int] == (Event::StartNode {
                kind: spec_primary_node_kind(pk),
                forward_parent: None,
            })),
            (final(self).events@[cm.pos as int + 1] matches Event::AddToken { kind: k, text: t }
                && Some((k, t@)) == spec_peek_payload(old(self).tokens@, old(self).cursor as int)),
            final(self).events@.last() == Event::FinishNode,
            final(self).diagnostics@ == old(self).diagnostics@,
    {
        let ghost pre = *self;
        let kopt = self.peek_kind();
        let node_kind = match kopt {
            Some(SyntaxKind::Identifier) => SyntaxKind::Exp_VariableRef,
            Some(SyntaxKind::Kwd_Unimplemented) => SyntaxKind::Exp_Unimplemented,
            Some(SyntaxKind::Lit_Character) => SyntaxKind::Exp_Literal,
            Some(SyntaxKind::Lit_Float) => SyntaxKind::Exp_Literal,
            Some(SyntaxKind::Lit_Integer) => SyntaxKind::Exp_Literal,
            Some(SyntaxKind::Lit_String) => SyntaxKind::Exp_Literal,
            Some(SyntaxKind::Error) => SyntaxKind::Error,
            _ => SyntaxKind::Exp_Unexpected,
        };
        let m = self.start();
        let ghost s1 = *self;
        self.bump();
        let ghost s2 = *self;
        proof {
            lemma_prefix_index(s1.events@, s2.events@, s1.events@.len() as int);
            assert(s2.events@[m.pos as int] == Event::Placeholder);
        }
        let cm = self.complete(m, node_kind);
        proof {
            assert(final(self).events@.subrange(0, pre.events@.len() as int) =~= pre.events@);
            assert(final(self).events@[cm.pos as int] == (Event::StartNode {
                kind: node_kind,
                forward_parent: None,
            }));
            assert(final(self).events@[cm.pos as int + 1] == s2.events@[cm.pos as int + 1]);
            assert(s2.events@[cm.pos as int + 1] == s2.events@.last());
            assert forall|i2: int|
                pre.events@.len() <= i2 < final(self).events@.len() implies final(self).events@[i2]
                != Event::Placeholder by {
                if i2 == cm.pos as int + 2 {
                    assert(final(self).events@[i2] == final(self).events@.last());
                }
            }
            lemma_peek_payload_kind(pre.tokens@, pre.cursor as int);
            assert(final(self).events@[cm.pos as int + 2] == final(self).events@.last());
            assert(log_segment_view(
                final(self).events@,
                pre.events@.len() as int,
                final(self).events@.len() as int,
            ) =~= spec_primary_events(pre.tokens@, pre.cursor as int));
        }
        cm
    }

    /// Parse a unary expression: a prefix operator applied to an operand, or
    /// a primary expression.  At the end of input, or before a premature
    /// block terminator, an expression is still owed: a zero-width
    /// missing-expression node is recorded instead of aborting.
    fn parse_unary_expression(&mut self) -> (cm: CompletedMarker)
        requires
            old(self).wf(),
        ensures
            Parser::grammar_step(*old(self), *final(self)),
            cm.pos == old(self).events@.len(),
            cm.pos < final(self).events@.len(),
            placeholder_free_from(final(self).events@, old(self).events@.len() as int),
            log_segment_view(
                final(self).events@,
                old(self).events@.len() as int,
                final(self).events@.len() as int,
            ) == spec_unary_events(old(self).tokens@, old(self).cursor as int).0,
            final(self).cursor as int == spec_unary_events(
                old(self).tokens@,
                old(self).cursor as int,
            ).1,
            (final(self).events@[cm.pos as int] matches Event::StartNode {
                kind: k,
                forward_parent: None,
            } && is_expression_node_kind(k)),
            (spec_peek(old(self).tokens@, old(self).cursor as int) is None || spec_peek(
                old(self).tokens@,
                old(self).cursor as int,
            ) == Some(SyntaxKind::Sym_RBrace)) ==> {
                &&& start_kind(final(self).events@[cm.pos as int]) == SyntaxKind::Exp_Missing
                &&& final(self).cursor == old(self).cursor
                &&& final(self).diagnostics@.len() == old(self).diagnostics@.len() + 1
            },
            (spec_peek(old(self).tokens@, old(self).cursor as int) matches Some(k) && k
                != SyntaxKind::Sym_RBrace && spec_is_prefix_op(k)) ==> {
                &&& start_kind(final(self).events@[cm.pos as int]) == SyntaxKind::Exp_UnaryPrefix
                &&& (final(self).events@[cm.pos as int + 1] matches Event::AddToken {
                    kind: ak,
                    text: at,
                } && Some((ak, at@)) == spec_peek_payload(
                    old(self).tokens@,
                    old(self).cursor as int,
                ))
                &&& old(self).cursor < final(self).cursor
            },
            (spec_peek(old(self).tokens@, old(self).cursor as int) matches Some(k) ==> (k
                != SyntaxKind::Sym_RBrace && !spec_is_prefix_op(k)) ==> {
                &&& start_kind(final(self).events@[cm.pos as int]) == spec_primary_node_kind(k)
                &&& final(self).cursor == spec_next_cursor(
                    old(self).tokens@,
                    old(self).cursor as int,
                )
                &&& old(self).cursor < final(self).cursor
                &&& final(self).diagnostics@ == old(self).diagnostics@
            }),
        decreases old(self).tokens@.len() - old(self).cursor, 1int,
    {
        let ghost pre = *self;
        let kopt = self.peek_kind();
        match kopt {
            None => {
                let cm = self.missing_expression();
                proof {
                    assert(spec_unary_events(pre.tokens@, pre.cursor as int) == (
                        spec_missing_expression_events(),
                        pre.cursor as int,
                    ));
                }
                cm
            },
            Some(k) => {
                if k == SyntaxKind::Sym_RBrace {
                    let cm = self.missing_expression();
                    proof {
                        assert(spec_unary_events(pre.tokens@, pre.cursor as int) == (
                            spec_missing_expression_events(),
                            pre.cursor as int,
                        ));
                    }
                    cm
                } else {
                    let symopt = kind_to_symbol(k);
                    let power = match symopt {
                        Some(sym) => prefix_binding_power(sym),
                        None => None,
                    };
                    match power {
                        Some(rbp) => {
                            let m = self.start();
                            let ghost s1 = *self;
                            self.bump();
                            let ghost s2 = *self;
                            proof {
                                lemma_prefix_index(s1.events@, s2.events@, s1.events@.len() as int);
                                assert(s2.events@[m.pos as int] == Event::Placeholder);
                            }
                            self.parse_binary_expression(rbp);
                            let ghost s3 = *self;
                            proof {
                                lemma_prefix_index(s2.events@, s3.events@, s2.events@.len() as int);
                                assert(s3.events@[m.pos as int] == Event::Placeholder);
                            }
                            let cm = self.complete(m, SyntaxKind::Exp_UnaryPrefix);
                            proof {
                                assert(final(self).events@.subrange(0, pre.events@.len() as int)
                                    =~= pre.events@);
                                assert(final(self).events@[cm.pos as int] == (Event::StartNode {
                                    kind: SyntaxKind::Exp_UnaryPrefix,
                                    forward_parent: None,
                                }));
                                lemma_prefix_index(
                                    s2.events@,
                                    s3.events@,
                                    s2.events@.len() as int,
                                );
                                assert(final(self).events@[cm.pos as int + 1] == s3.events@[
                                    cm.pos as int + 1
                                ]);
                                assert(s2.events@[cm.pos as int + 1] == s2.events@.last());
                                assert forall|i2: int|
                                    pre.events@.len() <= i2 < final(self).events@.len() implies
                                    final(self).events@[i2] != Event::Placeholder by {
                                    if i2 == cm.pos as int {
                                    } else if i2 == cm.pos as int + 1 {
                                    } else if i2 < s3.events@.len() {
                                        assert(final(self).events@[i2] == s3.events@[i2]);
                                    } else {
                                        let fin_events = final(self).events@;
                                        assert(fin_events[i2] == fin_events.last());
                                    }
                                }
                                lemma_peek_payload_kind(pre.tokens@, pre.cursor as int);
                                let operand = spec_binary_expression_events(
                                    pre.tokens@,
                                    s2.cursor as int,
                                    rbp,
                                );
                                let shape = seq![
                                    ev_start(SyntaxKind::Exp_UnaryPrefix, None),
                                    spec_peek_add(pre.tokens@, pre.cursor as int),
                                ] + operand.0 + seq![ev_finish()];
                                assert(operand.0 == log_segment_view(
                                    s3.events@,
                                    s2.events@.len() as int,
                                    s3.events@.len() as int,
                                ));
                                assert forall|j: int|
                                    0 <= j < final(self).events@.len() - pre.events@.len() implies
                                    event_view(
                                        final(self).events@[pre.events@.len() + j],
                                    ) == shape[j] by {
                                    let fin_events = final(self).events@;
                                    if j == 0 {
                                    } else if j == 1 {
                                    } else if j < 2 + operand.0.len() {
                                        assert(fin_events[pre.events@.len() + j] == s3.events@[
                                            s2.events@.len() + (j - 2)
                                        ]);
                                        assert(event_view(
                                            s3.events@[s2.events@.len() + (j - 2)],
                                        ) == operand.0[j - 2]);
                                    } else {
                                        assert(fin_events[pre.events@.len() + j]
                                            == fin_events.last());
                                    }
                                }
                                assert(log_segment_view(
                                    final(self).events@,
                                    pre.events@.len() as int,
                                    final(self).events@.len() as int,
                                ) =~= shape);
                                assert(spec_unary_events(pre.tokens@, pre.cursor as int) == (
                                    shape,
                                    operand.1,
                                ));
                            }
                            cm
                        },
                        None => {
                            let cm = self.parse_primary();
                            proof {
                                assert(spec_unary_events(pre.tokens@, pre.cursor as int) == (
                                    spec_primary_events(pre.tokens@, pre.cursor as int),
                                    spec_next_cursor(pre.tokens@, pre.cursor as int),
                                ));
                            }
                            cm
                        },
                    }
                }
            },
        }
    }

    /// Precedence climbing: parse a left-hand side, then keep consuming
    /// infix operators whose left binding power reaches `min_bp`, wrapping
    /// the completed left-hand side in a new binary node each time through
    /// its forward parent.
    fn parse_binary_expression(&mut self, min_bp: u8) -> (cm: CompletedMarker)
        requires
            old(self).wf(),
        ensures
            Parser::grammar_step(*old(self), *final(self)),
            old(self).events@.len() <= cm.pos < final(self).events@.len(),
            placeholder_free_from(final(self).events@, old(self).events@.len() as int),
            (final(self).events@[cm.pos as int] matches Event::StartNode {
                kind: ck,
                forward_parent: None,
            } && is_expression_node_kind(ck)),
            (final(self).events@[old(self).events@.len() as int] matches Event::StartNode {
                kind: k0,
                forward_parent: fp0,
            } && is_expression_node_kind(k0)),
            (spec_peek(old(self).tokens@, old(self).cursor as int) matches Some(k) ==> (k
                != SyntaxKind::Sym_RBrace ==> old(self).cursor < final(self).cursor)),
            (spec_peek(old(self).tokens@, old(self).cursor as int) is None || spec_peek(
                old(self).tokens@,
                old(self).cursor as int,
            ) == Some(SyntaxKind::Sym_RBrace)) ==> final(self).cursor == old(self).cursor,
            (spec_peek_infix_left_power(final(self).tokens@, final(self).cursor as int)
                matches Some(lp) ==> lp < min_bp),
            log_segment_view(
                final(self).events@,
                old(self).events@.len() as int,
                final(self).events@.len() as int,
            ) == spec_binary_expression_events(
                old(self).tokens@,
                old(self).cursor as int,
                min_bp,
            ).0,
            final(self).cursor as int == spec_binary_expression_events(
                old(self).tokens@,
                old(self).cursor as int,
                min_bp,
            ).1,
        decreases old(self).tokens@.len() - old(self).cursor, 2int,
    {
        let ghost pre = *self;
        let mut lhs = self.parse_unary_expression();
        proof {
            assert(spec_binary_expression_events(pre.tokens@, pre.cursor as int, min_bp)
                == spec_infix_chain(
                pre.tokens@,
                self.cursor as int,
                min_bp,
                log_segment_view(
                    self.events@,
                    pre.events@.len() as int,
                    self.events@.len() as int,
                ),
                0,
            ));
        }
        let mut done = false;
        while !done
            invariant
                pre == *old(self),
                Parser::grammar_step(pre, *self),
                pre.events@.len() <= lhs.pos < self.events@.len(),
                (self.events@[lhs.pos as int] matches Event::StartNode {
                    kind: lk,
                    forward_parent: None,
                } && is_expression_node_kind(lk)),
                (self.events@[pre.events@.len() as int] matches Event::StartNode {
                    kind: k0,
                    forward_parent: fp0,
                } && is_expression_node_kind(k0)),
                (spec_peek(pre.tokens@, pre.cursor as int) matches Some(k) ==> (k
                    != SyntaxKind::Sym_RBrace ==> pre.cursor < self.cursor)),
                (spec_peek(pre.tokens@, pre.cursor as int) is None || spec_peek(
                    pre.tokens@,
                    pre.cursor as int,
                ) == Some(SyntaxKind::Sym_RBrace)) ==> self.cursor == pre.cursor,
                done ==> (spec_peek_infix_left_power(self.tokens@, self.cursor as int)
                    matches Some(lp) ==> lp < min_bp),
                placeholder_free_from(self.events@, pre.events@.len() as int),
                spec_infix_chain(
                    pre.tokens@,
                    self.cursor as int,
                    min_bp,
                    log_segment_view(
                        self.events@,
                        pre.events@.len() as int,
                        self.events@.len() as int,
                    ),
                    lhs.pos - pre.events@.len(),
                ) == spec_binary_expression_events(pre.tokens@, pre.cursor as int, min_bp),
            decreases (self.tokens@.len() as int - self.cursor as int) * 2 + (if done {
                0int
            } else {
                1int
            }),
        {
            let ghost at_loop = *self;
            let kopt = self.peek_kind();
            let power = match kopt {
                Some(k) => match kind_to_symbol(k) {
                    Some(sym) => infix_binding_power(sym),
                    None => None,
                },
                None => None,
            };
            match power {
                None => {
                    done = true;
                },
                Some(bp) => {
                    if bp.0 < min_bp {
                        done = true;
                    } else {
                        let ghost lhs0 = lhs;
                        let m = self.precede(lhs);
                        let ghost s1 = *self;
                        proof {
                            assert(s1.events@[m.pos as int] == Event::Placeholder);
                        }
                        self.bump();
                        proof {
                            assert(self.cursor > at_loop.cursor);
                        }
                        let ghost s2 = *self;
                        proof {
                            lemma_prefix_index(s1.events@, s2.events@, s1.events@.len() as int);
                            assert(s2.events@[m.pos as int] == Event::Placeholder);
                        }
                        self.parse_binary_expression(bp.1);
                        let ghost s3 = *self;
                        proof {
                            lemma_prefix_index(s2.events@, s3.events@, s2.events@.len() as int);
                            assert(s3.events@[m.pos as int] == Event::Placeholder);
                        }
                        lhs = self.complete(m, SyntaxKind::Exp_Binary);
                        proof {
                            assert(self.events@[lhs.pos as int] == (Event::StartNode {
                                kind: SyntaxKind::Exp_Binary,
                                forward_parent: None,
                            }));
                            lemma_prefix_index(
                                pre.events@,
                                at_loop.events@,
                                pre.events@.len() as int,
                            );
                            assert(self.events@.subrange(0, pre.events@.len() as int)
                                =~= pre.events@);
                            assert(s2.events@[m.pos as int + 1] == s2.events@.last());
                            lemma_prefix_index(s1.events@, s2.events@, s1.events@.len() as int);
                            lemma_prefix_index(s2.events@, s3.events@, s2.events@.len() as int);
                            assert forall|i2: int|
                                pre.events@.len() <= i2 < self.events@.len() implies self.events@[
                                i2
                            ] != Event::Placeholder by {
                                let cur_events = self.events@;
                                if i2 == m.pos as int {
                                } else if i2 == lhs0.pos as int {
                                    assert(cur_events[i2] == s3.events@[i2]);
                                    assert(s3.events@[i2] == s2.events@[i2]);
                                    assert(s2.events@[i2] == s1.events@[i2]);
                                } else if i2 == m.pos as int + 1 {
                                    assert(cur_events[i2] == s3.events@[i2]);
                                    assert(s3.events@[i2] == s2.events@[i2]);
                                } else if i2 < at_loop.events@.len() {
                                    assert(cur_events[i2] == s3.events@[i2]);
                                    assert(s3.events@[i2] == s2.events@[i2]);
                                    assert(s2.events@[i2] == s1.events@[i2]);
                                    assert(s1.events@[i2] == at_loop.events@[i2]);
                                } else if i2 < s3.events@.len() {
                                    assert(cur_events[i2] == s3.events@[i2]);
                                } else {
                                    assert(cur_events[i2] == cur_events.last());
                                }
                            }
                            lemma_peek_payload_kind(pre.tokens@, at_loop.cursor as int);
                            let toks = pre.tokens@;
                            let seg0 = log_segment_view(
                                at_loop.events@,
                                pre.events@.len() as int,
                                at_loop.events@.len() as int,
                            );
                            let lhs_rel0 = lhs0.pos - pre.events@.len();
                            let rhs = spec_binary_expression_events(
                                toks,
                                s2.cursor as int,
                                bp.1,
                            );
                            assert(rhs.0 == log_segment_view(
                                s3.events@,
                                s2.events@.len() as int,
                                s3.events@.len() as int,
                            ));
                            let shape = seg0.update(
                                lhs_rel0,
                                ev_set_fp(seg0[lhs_rel0], seg0.len() - lhs_rel0),
                            ) + seq![
                                ev_start(SyntaxKind::Exp_Binary, None),
                                spec_peek_add(toks, at_loop.cursor as int),
                            ] + rhs.0 + seq![ev_finish()];
                            assert(seg0[lhs_rel0] == event_view(at_loop.events@[lhs0.pos as int]));
                            assert forall|j: int|
                                0 <= j < self.events@.len() - pre.events@.len() implies event_view(
                                    self.events@[pre.events@.len() + j],
                                ) == shape[j] by {
                                let cur_events = self.events@;
                                let i2 = pre.events@.len() + j;
                                if j == lhs_rel0 {
                                    assert(cur_events[i2] == s3.events@[i2]);
                                    assert(s3.events@[i2] == s2.events@[i2]);
                                    assert(s2.events@[i2] == s1.events@[i2]);
                                } else if j < seg0.len() {
                                    assert(cur_events[i2] == s3.events@[i2]);
                                    assert(s3.events@[i2] == s2.events@[i2]);
                                    assert(s2.events@[i2] == s1.events@[i2]);
                                    assert(s1.events@[i2] == at_loop.events@[i2]);
                                    assert(event_view(at_loop.events@[i2]) == seg0[j]);
                                } else if j == seg0.len() {
                                } else if j == seg0.len() + 1 {
                                    assert(cur_events[i2] == s3.events@[i2]);
                                    assert(s3.events@[i2] == s2.events@[i2]);
                                } else if j < seg0.len() + 2 + rhs.0.len() {
                                    assert(cur_events[i2] == s3.events@[i2]);
                                    assert(event_view(s3.events@[s2.events@.len() + (j - seg0.len()
                                        - 2)]) == rhs.0[j - seg0.len() - 2]);
                                } else {
                                    assert(cur_events[i2] == cur_events.last());
                                }
                            }
                            assert(log_segment_view(
                                self.events@,
                                pre.events@.len() as int,
                                self.events@.len() as int,
                            ) =~= shape);
                            assert(spec_infix_chain(
                                toks,
                                at_loop.cursor as int,
                                min_bp,
                                seg0,
                                lhs_rel0,
                            ) == spec_infix_chain(
                                toks,
                                self.cursor as int,
                                min_bp,
                                shape,
                                seg0.len() as int,
                            ));
                        }
                    }
                },
            }
        }
        proof {
            assert(spec_infix_chain(
                pre.tokens@,
                self.cursor as int,
                min_bp,
                log_segment_view(
                    self.events@,
                    pre.events@.len() as int,
                    self.events@.len() as int,
                ),
                lhs.pos - pre.events@.len(),
            ) == (
                log_segment_view(
                    self.events@,
                    pre.events@.len() as int,
                    self.events@.len() as int,
                ),
                self.cursor as int,
            ));
        }
        lhs
    }

    /// Parse one expression: a unary or primary left-hand side, then any
    /// infix operators, by precedence climbing from the weakest binding
    /// power.  Afterwards the next significant token, if any, is no infix
    /// operator at all; an expression-starter is always consumed, while at
    /// the end of input or before a stray block terminator a zero-width
    /// missing-expression node stands in.
    pub fn parse_expression(&mut self) -> (cm: CompletedMarker)
        requires
            old(self).wf(),
        ensures
            Parser::grammar_step(*old(self), *final(self)),
            old(self).events@.len() <= cm.pos < final(self).events@.len(),
            placeholder_free_from(final(self).events@, old(self).events@.len() as int),
            (final(self).events@[cm.pos as int] matches Event::StartNode {
                kind: ck,
                forward_parent: None,
            } && is_expression_node_kind(ck)),
            (final(self).events@[old(self).events@.len() as int] matches Event::StartNode {
                kind: k0,
                forward_parent: fp0,
            } && is_expression_node_kind(k0)),
            (spec_peek(old(self).tokens@, old(self).cursor as int) matches Some(k) ==> (k
                != SyntaxKind::Sym_RBrace ==> old(self).cursor < final(self).cursor)),
            (spec_peek(old(self).tokens@, old(self).cursor as int) is None || spec_peek(
                old(self).tokens@,
                old(self).cursor as int,
            ) == Some(SyntaxKind::Sym_RBrace)) ==> final(self).cursor == old(self).cursor,
            spec_peek_infix_left_power(final(self).tokens@, final(self).cursor as int) is None,
            log_segment_view(
                final(self).events@,
                old(self).events@.len() as int,
                final(self).events@.len() as int,
            ) == spec_binary_expression_events(old(self).tokens@, old(self).cursor as int, 0).0,
            final(self).cursor as int == spec_binary_expression_events(
                old(self).tokens@,
                old(self).cursor as int,
                0,
            ).1,
    {
        self.parse_binary_expression(0)
    }

    /// Parse a top-level `let` binding: the keyword, a required identifier,
    /// a required `=`, then the bound expression.  A missing required piece
    /// degrades to a zero-width missing token, never a parse abort.
    fn global_binding(&mut self) -> (cm: CompletedMarker)
        requires
            old(self).wf(),
            spec_peek(old(self).tokens@, old(self).cursor as int) == Some(SyntaxKind::Kwd_Let),
        ensures
            Parser::grammar_step(*old(self), *final(self)),
            old(self).cursor < final(self).cursor,
            cm.pos == old(self).events@.len(),
            cm.pos + 4 < final(self).events@.len(),
            placeholder_free_from(final(self).events@, old(self).events@.len() as int),
            final(self).events@[cm.pos as int] == (Event::StartNode {
                kind: SyntaxKind::Dec_GlobalBinding,
                forward_parent: None,
            }),
            final(self).events@.last() == Event::FinishNode,
            (final(self).events@[cm.pos as int + 1] matches Event::AddToken { kind: kl, text: tl }
                && kl == SyntaxKind::Kwd_Let),
            (final(self).events@[cm.pos as int + 2] matches Event::AddToken { kind: ki, text: ti }
                && ki == (if spec_peek(
                old(self).tokens@,
                spec_next_cursor(old(self).tokens@, old(self).cursor as int),
            ) == Some(SyntaxKind::Identifier) {
                SyntaxKind::Identifier
            } else {
                SyntaxKind::Missing
            })),
            (final(self).events@[cm.pos as int + 3] matches Event::AddToken { kind: ke, text: te }
                && ke == (if spec_peek(
                old(self).tokens@,
                spec_expect_cursor(
                    old(self).tokens@,
                    spec_next_cursor(old(self).tokens@, old(self).cursor as int),
                    SyntaxKind::Identifier,
                ),
            ) == Some(SyntaxKind::Sym_Eq) {
                SyntaxKind::Sym_Eq
            } else {
                SyntaxKind::Missing
            })),
            (final(self).events@[cm.pos as int + 4] matches Event::StartNode {
                kind: kx,
                forward_parent: fpx,
            } && is_expression_node_kind(kx)),
            log_segment_view(
                final(self).events@,
                old(self).events@.len() as int,
                final(self).events@.len() as int,
            ) == spec_binding_events(old(self).tokens@, old(self).cursor as int).0,
            final(self).cursor as int == spec_binding_events(
                old(self).tokens@,
                old(self).cursor as int,
            ).1,
    {
        let ghost pre = *self;
        let m = self.start();
        let ghost s1 = *self;
        self.bump();
        let ghost s2 = *self;
        proof {
            lemma_prefix_index(s1.events@, s2.events@, s1.events@.len() as int);
            assert(s2.events@[m.pos as int] == Event::Placeholder);
        }
        self.expect(SyntaxKind::Identifier);
        let ghost s3 = *self;
        proof {
            lemma_prefix_index(s2.events@, s3.events@, s2.events@.len() as int);
            assert(s3.events@[m.pos as int] == Event::Placeholder);
        }
        self.expect(SyntaxKind::Sym_Eq);
        let ghost s4 = *self;
        proof {
            lemma_prefix_index(s3.events@, s4.events@, s3.events@.len() as int);
            assert(s4.events@[m.pos as int] == Event::Placeholder);
        }
        self.parse_expression();
        let ghost s5 = *self;
        proof {
            lemma_prefix_index(s4.events@, s5.events@, s4.events@.len() as int);
            assert(s5.events@[m.pos as int] == Event::Placeholder);
        }
        let cm = self.complete(m, SyntaxKind::Dec_GlobalBinding);
        proof {
            assert(final(self).events@.subrange(0, pre.events@.len() as int) =~= pre.events@);
            lemma_peek_payload_kind(pre.tokens@, pre.cursor as int);
            assert(s2.events@[m.pos as int + 1] == s2.events@.last());
            assert(s3.events@[m.pos as int + 2] == s3.events@.last());
            assert(s4.events@[m.pos as int + 3] == s4.events@.last());
            lemma_peek_payload_kind(s2.tokens@, s2.cursor as int);
            assert(s3.events@[m.pos as int + 1] == s2.events@[m.pos as int + 1]);
            lemma_peek_payload_kind(s3.tokens@, s3.cursor as int);
            assert(s4.events@[m.pos as int + 1] == s3.events@[m.pos as int + 1]);
            assert(s4.events@[m.pos as int + 2] == s3.events@[m.pos as int + 2]);
            assert(s5.events@[m.pos as int + 1] == s4.events@[m.pos as int + 1]);
            assert(s5.events@[m.pos as int + 2] == s4.events@[m.pos as int + 2]);
            assert(s5.events@[m.pos as int + 3] == s4.events@[m.pos as int + 3]);
            assert(s5.events@[m.pos as int + 4] == s5.events@[s4.events@.len() as int]);
            assert(final(self).events@[m.pos as int + 1] == s5.events@[m.pos as int + 1]);
            assert(final(self).events@[m.pos as int + 2] == s5.events@[m.pos as int + 2]);
            assert(final(self).events@[m.pos as int + 3] == s5.events@[m.pos as int + 3]);
            assert(final(self).events@[m.pos as int + 4] == s5.events@[m.pos as int + 4]);
            assert forall|i2: int|
                pre.events@.len() <= i2 < final(self).events@.len() implies final(self).events@[i2]
                != Event::Placeholder by {
                let fin_events = final(self).events@;
                if i2 == m.pos as int {
                } else if i2 == m.pos as int + 1 {
                    assert(fin_events[i2] == s2.events@[i2]);
                    assert(s2.events@[i2] == s2.events@.last());
                } else if i2 == m.pos as int + 2 {
                    assert(fin_events[i2] == s3.events@[i2]);
                    assert(s3.events@[i2] == s3.events@.last());
                } else if i2 == m.pos as int + 3 {
                    assert(fin_events[i2] == s4.events@[i2]);
                    assert(s4.events@[i2] == s4.events@.last());
                } else if i2 < s5.events@.len() {
                    assert(fin_events[i2] == s5.events@[i2]);
                } else {
                    assert(fin_events[i2] == fin_events.last());
                }
            }
            let toks = pre.tokens@;
            let body = spec_binary_expression_events(toks, s4.cursor as int, 0);
            assert(body.0 == log_segment_view(
                s5.events@,
                s4.events@.len() as int,
                s5.events@.len() as int,
            ));
            let shape = seq![
                ev_start(SyntaxKind::Dec_GlobalBinding, None),
                spec_peek_add(toks, pre.cursor as int),
                spec_expect_add(toks, s2.cursor as int, SyntaxKind::Identifier),
                spec_expect_add(toks, s3.cursor as int, SyntaxKind::Sym_Eq),
            ] + body.0 + seq![ev_finish()];
            assert forall|j: int|
                0 <= j < final(self).events@.len() - pre.events@.len() implies event_view(
                    final(self).events@[pre.events@.len() + j],
                ) == shape[j] by {
                let fin_events = final(self).events@;
                let i2 = pre.events@.len() + j;
                if j == 0 {
                } else if j == 1 {
                    assert(fin_events[i2] == s2.events@[i2]);
                    assert(s2.events@[i2] == s2.events@.last());
                } else if j == 2 {
                    assert(fin_events[i2] == s3.events@[i2]);
                    assert(s3.events@[i2] == s3.events@.last());
                } else if j == 3 {
                    assert(fin_events[i2] == s4.events@[i2]);
                    assert(s4.events@[i2] == s4.events@.last());
                } else if j < 4 + body.0.len() {
                    assert(fin_events[i2] == s5.events@[i2]);
                    assert(event_view(s5.events@[s4.events@.len() + (j - 4)]) == body.0[j - 4]);
                } else {
                    assert(fin_events[i2] == fin_events.last());
                }
            }
            assert(log_segment_view(
                final(self).events@,
                pre.events@.len() as int,
                final(self).events@.len() as int,
            ) =~= shape);
            assert(spec_binding_events(toks, pre.cursor as int) == (shape, body.1));
        }
        cm
    }

    /// Parse one top-level declaration: a `let` binding when the next
    /// significant token is the `let` keyword, any expression otherwise.
    pub fn decl(&mut self)
        requires
            old(self).wf(),
            spec_peek(old(self).tokens@, old(self).cursor as int) is Some,
        ensures
            Parser::grammar_step(*old(self), *final(self)),
            old(self).events@.len() < final(self).events@.len(),
            placeholder_free_from(final(self).events@, old(self).events@.len() as int),
            spec_peek(old(self).tokens@, old(self).cursor as int) == Some(SyntaxKind::Kwd_Let)
                ==> {
                &&& final(self).events@[old(self).events@.len() as int] == (Event::StartNode {
                    kind: SyntaxKind::Dec_GlobalBinding,
                    forward_parent: None,
                })
                &&& final(self).events@.last() == Event::FinishNode
                &&& old(self).cursor < final(self).cursor
            },
            spec_peek(old(self).tokens@, old(self).cursor as int) != Some(SyntaxKind::Kwd_Let)
                ==> (final(self).events@[old(self).events@.len() as int]
                matches Event::StartNode { kind: k, forward_parent: fp }
                && is_expression_node_kind(k)),
            log_segment_view(
                final(self).events@,
                old(self).events@.len() as int,
                final(self).events@.len() as int,
            ) == spec_decl_events(old(self).tokens@, old(self).cursor as int).0,
            final(self).cursor as int == spec_decl_events(
                old(self).tokens@,
                old(self).cursor as int,
            ).1,
    {
        if self.is_at(SyntaxKind::Kwd_Let) {
            self.global_binding();
        } else {
            self.parse_expression();
        }
    }
}

/// When nothing significant is left after `from`, the significant tokens of
/// the prefix are already all of them.
pub proof fn lemma_peek_none_sig(tokens: Seq<Token>, from: int)
    requires
        0 <= from <= tokens.len(),
        spec_peek(tokens, from) is None,
    ensures
        sig_payloads(tokens.take(from)) == sig_payloads(tokens),
    decreases tokens.len() - from,
{
    if from == tokens.len() {
        assert(tokens.take(from) =~= tokens);
    } else {
        assert(is_trivia_kind(tokens[from].kind));
        assert(tokens.take(from + 1) =~= tokens.take(from).push(tokens[from]));
        lemma_sig_payloads_push(tokens.take(from), tokens[from]);
        lemma_peek_none_sig(tokens, from + 1);
    }
}

impl Parser {
    /// Parse the whole stream and build the tree.
    ///
    /// Parsing is total: it terminates for every token stream, consumes
    /// every significant token, and never fails — malformed input degrades
    /// to error, missing and unexpected nodes plus diagnostics.  The result
    /// holds exactly one root node, of kind `Root`, dense and spanning the
    /// whole input, whose leaves tile the text contiguously.  Setting aside
    /// the zero-width leaves synthesized by recovery, the leaves are exactly
    /// the input tokens — trivia included — in stream order, each at its
    /// exact position; so every trivia token sits in the tree directly after
    /// the token it follows in the stream, and concatenating the leaf texts
    /// reproduces the source text.  Every diagnostic handed back beyond
    /// those already accumulated is an error at a zero-width position.
    pub fn parse(&mut self) -> (r: (SyntaxTree, Vec<Diagnostic>))
        requires
            old(self).wf(),
            old(self).events@.len() == 0,
        ensures
            r.0.0@.len() == 1,
            (r.0.0@[0] matches Node::Branch { kind, children } && kind == SyntaxKind::Root
                && nodes_dense(children@)),
            tree_text(r.0) == toks_text(old(self).tokens@),
            node_tiles(r.0.0@[0], 0),
            spec_full_span(r.0.0@[0]) == (TextSpan {
                start: 0,
                end: toks_text(old(self).tokens@).len() as usize,
            }),
            source_leaf_views(node_leaf_views(r.0.0@[0])) == stream_leaf_views(
                old(self).tokens@,
                old(self).tokens@.len() as int,
            ),
            final(self).tokens@ == old(self).tokens@,
            old(self).diagnostics@.len() <= r.1@.len(),
            forall|i: int|
                0 <= i < old(self).diagnostics@.len() ==> (#[trigger] r.1@[i]) == old(
                    self,
                ).diagnostics@[i],
            forall|i: int|
                old(self).diagnostics@.len() <= i < r.1@.len() ==> (#[trigger] r.1@[i]).severity
                    == Severity::Error && r.1@[i].location.range.start
                    == r.1@[i].location.range.end,
    {
        let ghost pre = *self;
        proof {
            assert(pre.events@.subrange(0, pre.events@.len() as int) =~= pre.events@);
        }
        let mut done = self.at_end();
        while !done
            invariant
                pre == *old(self),
                pre.events@.len() == 0,
                Parser::grammar_step(pre, *self),
                placeholder_free_from(self.events@, 0),
                done == (spec_peek(self.tokens@, self.cursor as int) is None),
            decreases (self.tokens@.len() as int - self.cursor as int) + (if done {
                0int
            } else {
                1int
            }),
        {
            let ghost at_loop = *self;
            let before = self.cursor;
            self.decl();
            let ghost s_decl = *self;
            if self.cursor == before {
                let m = self.start();
                let ghost s1 = *self;
                self.bump();
                let ghost s2 = *self;
                proof {
                    lemma_prefix_index(s1.events@, s2.events@, s1.events@.len() as int);
                    assert(s2.events@[m.pos as int] == Event::Placeholder);
                }
                self.complete(m, SyntaxKind::Exp_Unexpected);
                proof {
                    lemma_prefix_index(pre.events@, at_loop.events@, pre.events@.len() as int);
                    lemma_prefix_index(
                        at_loop.events@,
                        s_decl.events@,
                        at_loop.events@.len() as int,
                    );
                    assert(self.events@.subrange(0, pre.events@.len() as int) =~= pre.events@);
                    assert(s2.events@[m.pos as int + 1] == s2.events@.last());
                    assert forall|i2: int|
                        0 <= i2 < self.events@.len() implies self.events@[i2]
                        != Event::Placeholder by {
                        let cur_events = self.events@;
                        if i2 == m.pos as int {
                        } else if i2 == m.pos as int + 1 {
                            assert(cur_events[i2] == s2.events@[i2]);
                        } else if i2 < s_decl.events@.len() {
                            assert(cur_events[i2] == s2.events@[i2]);
                            assert(s2.events@[i2] == s1.events@[i2]);
                            assert(s1.events@[i2] == s_decl.events@[i2]);
                        } else {
                            assert(cur_events[i2] == cur_events.last());
                        }
                    }
                }
            } else {
                proof {
                    lemma_prefix_index(pre.events@, at_loop.events@, pre.events@.len() as int);
                    lemma_prefix_index(
                        at_loop.events@,
                        self.events@,
                        at_loop.events@.len() as int,
                    );
                    assert(self.events@.subrange(0, pre.events@.len() as int) =~= pre.events@);
                }
            }
            done = self.at_end();
            proof {
                assert(self.cursor > before);
            }
        }
        proof {
            lemma_peek_none_sig(self.tokens@, self.cursor as int);
            assert(log_chains_wf(self.events@));
        }
        let mut events: Vec<Event> = Vec::new();
        core::mem::swap(&mut events, &mut self.events);
        let sink = Sink::new(&self.tokens, events);
        let tree = sink.finish();
        let mut diags: Vec<Diagnostic> = Vec::new();
        core::mem::swap(&mut diags, &mut self.diagnostics);
        (tree, diags)
    }
}

} // verus!
