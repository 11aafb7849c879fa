//! The minimax-style scorer and picker for the search tree.
//!
//! Scores are saturating integers extended with two infinities.  More
//! negative is better for the controlled agent: death outcomes for the
//! controlled agent score plus infinity and are unconditionally rejected;
//! eating and killing earn negative bonuses.  The controlled agent picks
//! its safest continuation (minimum); every opponent is modelled as
//! adversarial (maximum).

use super::{
    all_moves, edge_view, edges_view, lemma_edges_view, move_chars, next_player_spec, node_view,
    play_spec, wf_board, Board, BoardV, Edge, EdgeV, Move, Node, NodeV, Outcome, SnakeID, Square,
};
use std::time::Instant;
use vstd::prelude::*;

verus! {

/// A branch score: minus infinity, a saturating finite value, or plus
/// infinity.  The exact finite magnitudes are hand-tuned heuristics; only
/// their relative order is load-bearing.
#[derive(Clone, Copy, Debug, PartialEq, Eq, Structural)]
pub enum Score {
    NegInf,
    Fin(i64),
    Inf,
}

/// `v` clamped into the finite score range.
pub open spec fn clip(v: int) -> i64 {
    if v > i64::MAX {
        i64::MAX
    } else if v < i64::MIN {
        i64::MIN
    } else {
        v as i64
    }
}

/// Score addition: an infinity absorbs, finite values add and saturate.
/// Opposite infinities never meet in a tree the walker builds; plus
/// infinity (a rejected branch) dominates if they do.
pub open spec fn score_add(a: Score, b: Score) -> Score {
    match (a, b) {
        (Score::Inf, _) => Score::Inf,
        (_, Score::Inf) => Score::Inf,
        (Score::NegInf, _) => Score::NegInf,
        (_, Score::NegInf) => Score::NegInf,
        (Score::Fin(x), Score::Fin(y)) => Score::Fin(clip(x + y)),
    }
}

/// Strict order on scores, with the infinities at the two ends.
pub open spec fn score_lt(a: Score, b: Score) -> bool {
    match (a, b) {
        (Score::NegInf, Score::NegInf) => false,
        (Score::NegInf, _) => true,
        (_, Score::NegInf) => false,
        (Score::Inf, _) => false,
        (_, Score::Inf) => true,
        (Score::Fin(x), Score::Fin(y)) => x < y,
    }
}

impl Score {
    /// Add two scores, saturating at the ends of the finite range.
    pub fn add(self, other: Score) -> (r: Score)
        ensures
            r == score_add(self, other),
    {
        match (self, other) {
            (Score::Inf, _) => Score::Inf,
            (_, Score::Inf) => Score::Inf,
            (Score::NegInf, _) => Score::NegInf,
            (_, Score::NegInf) => Score::NegInf,
            (Score::Fin(x), Score::Fin(y)) => {
                if y > 0 && x > i64::MAX - y {
                    Score::Fin(i64::MAX)
                } else if y < 0 && x < i64::MIN - y {
                    Score::Fin(i64::MIN)
                } else {
                    Score::Fin(x + y)
                }
            },
        }
    }

    /// Whether this score is strictly below `other`.
    pub fn lt(self, other: Score) -> (r: bool)
        ensures
            r == score_lt(self, other),
    {
        match (self, other) {
            (Score::NegInf, Score::NegInf) => false,
            (Score::NegInf, _) => true,
            (_, Score::NegInf) => false,
            (Score::Inf, _) => false,
            (_, Score::Inf) => true,
            (Score::Fin(x), Score::Fin(y)) => x < y,
        }
    }
}

/// The raw cost of reaching a node, by the outcome of the move that reached
/// it, asymmetric between the controlled agent and opponents: the controlled
/// agent's death is unconditionally rejected, eating and killing earn
/// bonuses; an opponent's death is a mild bonus and an opponent killing the
/// controlled agent is unconditionally catastrophic.
pub open spec fn base_cost(player: int, result: Outcome) -> Score {
    if player == 0 {
        match result {
            Outcome::Off => Score::Inf,
            Outcome::Dead => Score::Inf,
            Outcome::KillMe => Score::Inf,
            Outcome::Eat => Score::Fin(-4i64),
            Outcome::Kill => Score::Fin(-1i64),
            Outcome::Nothing => Score::Fin(0i64),
        }
    } else {
        match result {
            Outcome::Off => Score::Fin(-1i64),
            Outcome::Dead => Score::Fin(-1i64),
            Outcome::KillMe => Score::Inf,
            Outcome::Eat => Score::Fin(0i64),
            Outcome::Kill => Score::Fin(0i64),
            Outcome::Nothing => Score::Fin(0i64),
        }
    }
}

/// One-ply danger lookahead: a large penalty for every immediate child in
/// which the controlled agent is killed next turn.
pub open spec fn will_be_killed_factor(edges: Seq<EdgeV>, i: int, acc: Score) -> Score
    decreases edges.len() - i,
{
    if i < 0 || i >= edges.len() {
        acc
    } else {
        let acc2 = if edges[i].next.result is KillMe {
            score_add(acc, Score::Fin(4i64))
        } else {
            acc
        };
        will_be_killed_factor(edges, i + 1, acc2)
    }
}

/// A penalty for every immediate child in which the controlled agent's own
/// move is fatal: the fewer escapes a cell leaves, the worse it is.
pub open spec fn escapability_factor(edges: Seq<EdgeV>, i: int, acc: Score) -> Score
    decreases edges.len() - i,
{
    if i < 0 || i >= edges.len() {
        acc
    } else {
        let fatal = edges[i].next.player == 0 && (edges[i].next.result is Dead
            || edges[i].next.result is Off);
        let acc2 = if fatal {
            score_add(acc, Score::Fin(1i64))
        } else {
            acc
        };
        escapability_factor(edges, i + 1, acc2)
    }
}

/// The cost of an edge: the raw outcome cost of its child node plus the
/// one-ply danger and escapability penalties read off the grandchildren.
pub open spec fn cost_spec(e: EdgeV) -> Score {
    let base = base_cost(e.next.player, e.next.result);
    let wk = will_be_killed_factor(e.next.edges, 0, Score::Fin(0i64));
    let esc = escapability_factor(e.next.edges, 0, Score::Fin(0i64));
    score_add(score_add(base, wk), esc)
}

/// The agent whose move is decided at node `v`: the one after the agent
/// whose move produced `v`, in the fixed cyclic turn order.  Its choice
/// owns the aggregation over `v`'s child edges.
pub open spec fn decider(v: NodeV) -> int {
    next_player_spec(v.board, v.player)
}

/// The minimax score of an edge: the edge's cost if its child is a leaf,
/// else the cost plus the best child-edge score below it, where best is
/// the minimum when the child's decision-agent is the controlled agent
/// (it will pick its safest continuation) and the maximum when it is an
/// opponent (modelled as adversarial, picking what is worst for the
/// controlled agent).
pub open spec fn score_spec(e: EdgeV) -> Score
    decreases e, 0int,
{
    let n = e.next;
    let c = cost_spec(e);
    if n.edges.len() == 0 {
        c
    } else if decider(n) == 0 {
        fold_min(n, c, 0, Score::Inf)
    } else {
        fold_max(n, c, 0, Score::NegInf)
    }
}

/// The running minimum of `score + c` over the edges of `n` from index `i`.
pub open spec fn fold_min(n: NodeV, c: Score, i: int, acc: Score) -> Score
    decreases n, n.edges.len() - i,
{
    if i < 0 || i >= n.edges.len() {
        acc
    } else {
        let es = score_add(score_spec(n.edges[i]), c);
        fold_min(n, c, i + 1, if score_lt(es, acc) { es } else { acc })
    }
}

/// The running maximum of `score + c` over the edges of `n` from index `i`.
pub open spec fn fold_max(n: NodeV, c: Score, i: int, acc: Score) -> Score
    decreases n, n.edges.len() - i,
{
    if i < 0 || i >= n.edges.len() {
        acc
    } else {
        let es = score_add(score_spec(n.edges[i]), c);
        fold_max(n, c, i + 1, if score_lt(acc, es) { es } else { acc })
    }
}

/// The direction whose edge scores lowest, scanning the children of `n`
/// from index `i` with the best candidate so far; ties keep the earlier
/// move, and a node without children keeps the default.
pub open spec fn pick_fold(n: NodeV, i: int, best: Move, bs: Score) -> Move
    decreases n.edges.len() - i,
{
    if i < 0 || i >= n.edges.len() {
        best
    } else {
        let es = score_spec(n.edges[i]);
        if score_lt(es, bs) {
            pick_fold(n, i + 1, n.edges[i].moved, es)
        } else {
            pick_fold(n, i + 1, best, bs)
        }
    }
}

/// The direction chosen at node `n`: the child edge with the minimum score,
/// defaulting to up when no edge beats plus infinity, so that a direction
/// comes back even when every move is lethal.
pub open spec fn pick_spec(n: NodeV) -> Move {
    pick_fold(n, 0, Move::Up, Score::Inf)
}

/// The cost of one edge of the tree.
#[verifier::loop_isolation(false)]
pub fn cost(edge: &Edge) -> (r: Score)
    ensures
        r == cost_spec(edge_view(*edge)),
{
    let ghost ev = edge_view(*edge);
    proof {
        lemma_edges_view(edge.next.edges@);
    }
    let base = if edge.next.player.is_me() {
        match edge.next.result {
            Outcome::Off => Score::Inf,
            Outcome::Dead => Score::Inf,
            Outcome::KillMe => Score::Inf,
            Outcome::Eat => Score::Fin(-4),
            Outcome::Kill => Score::Fin(-1),
            Outcome::Nothing => Score::Fin(0),
        }
    } else {
        match edge.next.result {
            Outcome::Off => Score::Fin(-1),
            Outcome::Dead => Score::Fin(-1),
            Outcome::KillMe => Score::Inf,
            Outcome::Eat => Score::Fin(0),
            Outcome::Kill => Score::Fin(0),
            Outcome::Nothing => Score::Fin(0),
        }
    };
    assert(base == base_cost(ev.next.player, ev.next.result));
    let mut wk = Score::Fin(0);
    let mut i: usize = 0;
    while i < edge.next.edges.len()
        invariant
            0 <= i <= edge.next.edges@.len(),
            will_be_killed_factor(ev.next.edges, 0, Score::Fin(0i64)) == will_be_killed_factor(
                ev.next.edges,
                i as int,
                wk,
            ),
        decreases edge.next.edges@.len() - i,
    {
        let ne = &edge.next.edges[i];
        proof {
            assert(ev.next.edges[i as int] == edge_view(edge.next.edges@[i as int]));
        }
        if matches!(ne.next.result, Outcome::KillMe) {
            wk = wk.add(Score::Fin(4));
        }
        i += 1;
    }
    let mut esc = Score::Fin(0);
    let mut j: usize = 0;
    while j < edge.next.edges.len()
        invariant
            0 <= j <= edge.next.edges@.len(),
            escapability_factor(ev.next.edges, 0, Score::Fin(0i64)) == escapability_factor(
                ev.next.edges,
                j as int,
                esc,
            ),
        decreases edge.next.edges@.len() - j,
    {
        let ne = &edge.next.edges[j];
        proof {
            assert(ev.next.edges[j as int] == edge_view(edge.next.edges@[j as int]));
        }
        if ne.next.player.is_me() && matches!(ne.next.result, Outcome::Dead | Outcome::Off) {
            esc = esc.add(Score::Fin(1));
        }
        j += 1;
    }
    base.add(wk).add(esc)
}

/// Whether the decision at `node` — the choice among its child edges —
/// belongs to the controlled agent.
fn decider_is_me(node: &Node) -> (r: bool)
    ensures
        r == (decider(node_view(*node)) == 0),
{
    let n = node.board.snakes.len();
    n == 0 || node.player.0 >= n - 1
}

/// The minimax score of `edge` under its source node `source`: minimised
/// when the decision at the child — the agent about to move there —
/// belongs to the controlled agent, maximised when it belongs to an
/// opponent.
pub fn score(source: &Node, edge: &Edge) -> (r: Score)
    ensures
        r == score_spec(edge_view(*edge)),
    decreases *edge, 1int,
{
    if decider_is_me(&edge.next) {
        minimize(edge)
    } else {
        maximize(edge)
    }
}

/// The score of an edge at whose child the controlled agent decides: the
/// edge's cost, plus the safest (minimum) continuation below it.
#[verifier::loop_isolation(false)]
fn minimize(edge: &Edge) -> (r: Score)
    requires
        decider(node_view(edge.next)) == 0,
    ensures
        r == score_spec(edge_view(*edge)),
    decreases *edge, 0int,
{
    let ghost ev = edge_view(*edge);
    let node = &edge.next;
    proof {
        lemma_edges_view(node.edges@);
    }
    let c = cost(edge);
    if node.is_leaf() {
        return c;
    }
    let mut min = Score::Inf;
    let mut i: usize = 0;
    while i < node.edges.len()
        invariant
            0 <= i <= node.edges@.len(),
            fold_min(ev.next, cost_spec(ev), 0, Score::Inf) == fold_min(
                ev.next,
                cost_spec(ev),
                i as int,
                min,
            ),
        decreases node.edges@.len() - i,
    {
        proof {
            assert(ev.next.edges[i as int] == edge_view(node.edges@[i as int]));
        }
        let edge_score = score(node, &node.edges[i]).add(c);
        if edge_score.lt(min) {
            min = edge_score;
        }
        i += 1;
    }
    min
}

/// The score of an edge at whose child an opponent decides: the edge's
/// cost, plus the continuation below it that is worst (maximum) for the
/// controlled agent.
#[verifier::loop_isolation(false)]
fn maximize(edge: &Edge) -> (r: Score)
    requires
        decider(node_view(edge.next)) != 0,
    ensures
        r == score_spec(edge_view(*edge)),
    decreases *edge, 0int,
{
    let ghost ev = edge_view(*edge);
    let node = &edge.next;
    proof {
        lemma_edges_view(node.edges@);
    }
    let c = cost(edge);
    if node.is_leaf() {
        return c;
    }
    let mut max = Score::NegInf;
    let mut i: usize = 0;
    while i < node.edges.len()
        invariant
            0 <= i <= node.edges@.len(),
            fold_max(ev.next, cost_spec(ev), 0, Score::NegInf) == fold_max(
                ev.next,
                cost_spec(ev),
                i as int,
                max,
            ),
        decreases node.edges@.len() - i,
    {
        proof {
            assert(ev.next.edges[i as int] == edge_view(node.edges@[i as int]));
        }
        let edge_score = score(node, &node.edges[i]).add(c);
        if max.lt(edge_score) {
            max = edge_score;
        }
        i += 1;
    }
    max
}

/// Whether the controlled agent is already dead at node `v`: its own move
/// left the grid or hit a body, or an opponent's move just killed it.
pub open spec fn me_dead(v: NodeV) -> bool {
    ||| (v.player == 0 && (v.result is Off || v.result is Dead))
    ||| v.result is KillMe
}

/// The depth- and outcome-based part of the termination predicate: stop at
/// the depth limit, and do not search further moves for a board in which
/// the controlled agent is already dead.
pub open spec fn static_prune(v: NodeV, depth: int, max_depth: int) -> bool {
    me_dead(v) || depth >= max_depth
}

/// Whether `child` is the state `p` says a move leads to; the child's own
/// edges are left open.
pub open spec fn matches_play(child: NodeV, p: NodeV) -> bool {
    &&& child.board == p.board
    &&& child.player == p.player
    &&& child.result == p.result
}

/// The fully expanded search tree below `v`, ignoring the clock: terminal
/// where the termination predicate holds, else one child edge per
/// candidate move, each expanded recursively with the next agent in turn.
pub open spec fn walk_spec_node(v: NodeV, player: int, depth: int, max_depth: int) -> NodeV
    decreases max_depth - depth,
{
    if static_prune(v, depth, max_depth) {
        v
    } else {
        let b = v.board;
        let np = next_player_spec(b, player);
        NodeV {
            edges: seq![
                EdgeV {
                    moved: Move::Up,
                    next: walk_spec_node(play_spec(b, Move::Up, player), np, depth + 1, max_depth),
                },
                EdgeV {
                    moved: Move::Down,
                    next: walk_spec_node(
                        play_spec(b, Move::Down, player),
                        np,
                        depth + 1,
                        max_depth,
                    ),
                },
                EdgeV {
                    moved: Move::Left,
                    next: walk_spec_node(
                        play_spec(b, Move::Left, player),
                        np,
                        depth + 1,
                        max_depth,
                    ),
                },
                EdgeV {
                    moved: Move::Right,
                    next: walk_spec_node(
                        play_spec(b, Move::Right, player),
                        np,
                        depth + 1,
                        max_depth,
                    ),
                },
            ],
            ..v
        }
    }
}

/// The fully expanded search tree for a board, rooted at the controlled
/// agent's decision.
pub open spec fn walk_spec(b: BoardV, max_depth: int) -> NodeV {
    walk_spec_node(
        NodeV { board: b, edges: Seq::empty(), player: 0, result: Outcome::Nothing },
        0,
        0,
        max_depth,
    )
}

/// A sound partial expansion: every node either is a leaf, or carries
/// exactly the four candidate edges, in order, each leading to the state
/// the move simulator prescribes, recursively.  A node where the
/// termination predicate holds is always a leaf.  The deadline makes the
/// walker an anytime algorithm: under time pressure it returns a shallower
/// tree, but always one of this shape.
pub open spec fn partial_ok(v: NodeV, player: int, depth: int, max_depth: int) -> bool
    decreases v,
{
    if v.edges.len() == 0 {
        true
    } else {
        let np = next_player_spec(v.board, player);
        &&& !static_prune(v, depth, max_depth)
        &&& v.edges.len() == 4
        &&& forall|i: int|
            0 <= i < 4 ==> (#[trigger] v.edges[i]).moved == all_moves()[i] && matches_play(
                v.edges[i].next,
                play_spec(v.board, all_moves()[i], player),
            ) && partial_ok(v.edges[i].next, np, depth + 1, max_depth)
    }
}

/// Whether `t` is a sound partial expansion rooted at board `b` with the
/// controlled agent to move: what every tree handed to the picker
/// satisfies.
pub open spec fn partial_ok_of(t: NodeV, b: BoardV, max_depth: int) -> bool {
    &&& partial_ok(t, 0, 0, max_depth)
    &&& t.board == b
    &&& t.player == 0
    &&& t.result is Nothing
}

/// The per-search configuration: a maximum depth in plies, and a
/// wall-clock budget in milliseconds, both supplied by the caller.
#[derive(Clone, Copy, Debug, PartialEq, Eq, Structural)]
pub struct Options {
    pub max_depth: usize,
    pub sla: u64,
}

#[verifier::external_type_specification]
#[verifier::external_body]
pub struct ExInstant(Instant);

/// Relies on std::time::Instant::now: an opaque reading of the monotonic
/// clock.  Nothing is promised of the value.
#[verifier::external_body]
fn instant_now() -> Instant {
    Instant::now()
}

/// Relies on std::time::Instant::elapsed: the wall-clock time since
/// `start`, converted to whole milliseconds.  Nothing is promised of the
/// value, which depends on the clock; the walker's contract holds whatever
/// comes back.
#[verifier::external_body]
fn elapsed_millis(start: &Instant) -> u64 {
    start.elapsed().as_millis() as u64
}

/// The tree walker: expands a board into a search tree, bounded by a
/// maximum depth and a wall-clock budget.
pub struct Walker {
    pub opts: Options,
    pub start: Instant,
    pub timed_out: bool,
}

impl Walker {
    /// A fresh walker with a zero budget; `walk` supplies the real one.
    pub fn new() -> (r: Walker)
        ensures
            r.opts == (Options { max_depth: 0usize, sla: 0u64 }),
            !r.timed_out,
    {
        Walker {
            opts: Options { max_depth: 0, sla: 0 },
            start: instant_now(),
            timed_out: false,
        }
    }

    /// Simulate agent `player` taking move `m` on `board`: an independent
    /// successor board together with the outcome of the move, exactly as
    /// the move simulator's specification prescribes.
    pub fn play(&mut self, board: &Board, m: Move, player: SnakeID) -> (r: Node)
        requires
            wf_board(board@),
            player.0 < board@.snakes.len(),
        ensures
            *final(self) == *old(self),
            node_view(r) == play_spec(board@, m, player.0 as int),
            r.edges@.len() == 0,
            r.player == player,
            wf_board(r.board@),
            r.board@.snakes.len() == board@.snakes.len(),
    {
        proof {
            super::lemma_play_spec_wf(board@, m, player.0 as int);
        }
        let head = board.snake(player).head();
        let next_head = m.next(head);
        let mut next_board = board.duplicate();
        let mut next_snake = board.snake(player).duplicate();

        let result = match next_board.get(next_head) {
            Square::Off => Outcome::Off,
            Square::Food => {
                next_board.remove_food(next_head);
                Outcome::Eat
            },
            Square::Empty => {
                next_snake.remove_tail();
                Outcome::Nothing
            },
            Square::Snake(s) => {
                proof {
                    super::lemma_first_snake_at_range(board@.snakes, next_head, 0);
                }
                let other = next_board.snake(s);
                if next_snake.len() > other.len() && next_head == other.head() {
                    if s.is_me() {
                        Outcome::KillMe
                    } else {
                        Outcome::Kill
                    }
                } else {
                    Outcome::Dead
                }
            },
        };

        if !matches!(result, Outcome::Off) {
            next_snake.change_head(next_head);
            next_board.set_snake(player, next_snake);
        }
        let r = Node { player, edges: Vec::new(), result, board: next_board };
        proof {
            assert(edges_view(r.edges@) =~= Seq::<EdgeV>::empty());
            assert(node_view(r) =~~= play_spec(board@, m, player.0 as int));
        }
        r
    }

    /// Whether expansion must stop at `node`: the controlled agent is dead
    /// here, the depth limit is reached, or `elapsed` has exhausted the
    /// wall-clock budget.
    pub fn prune(&self, node: &Node, depth: usize, elapsed: u64) -> (r: bool)
        ensures
            r == (static_prune(node_view(*node), depth as int, self.opts.max_depth as int)
                || elapsed >= self.opts.sla),
    {
        (node.player.is_me() && matches!(node.result, Outcome::Off | Outcome::Dead))
            || matches!(node.result, Outcome::KillMe)
            || depth >= self.opts.max_depth
            || elapsed >= self.opts.sla
    }

    /// Expand `node` recursively: one child per candidate move, each played
    /// by `player` and searched one ply deeper by the next agent in turn.
    /// The tree that comes back is always a sound partial expansion; when
    /// the budget never ran out it is exactly the full expansion, a pure
    /// function of the inputs.
    #[verifier::loop_isolation(false)]
    fn walk_node(&mut self, node: Node, player: SnakeID, depth: usize) -> (r: Node)
        requires
            wf_board(node.board@),
            player.0 < node.board@.snakes.len(),
            node.edges@.len() == 0,
        ensures
            final(self).opts == old(self).opts,
            final(self).start == old(self).start,
            old(self).timed_out ==> final(self).timed_out,
            r.board@ == node.board@,
            r.player == node.player,
            r.result == node.result,
            partial_ok(
                node_view(r),
                player.0 as int,
                depth as int,
                old(self).opts.max_depth as int,
            ),
            !final(self).timed_out ==> node_view(r) == walk_spec_node(
                node_view(node),
                player.0 as int,
                depth as int,
                old(self).opts.max_depth as int,
            ),
            old(self).opts.sla == 0 ==> r.edges@.len() == 0,
            depth >= old(self).opts.max_depth ==> r.edges@.len() == 0,
        decreases self.opts.max_depth - depth,
    {
        let ghost v0 = node_view(node);
        let ghost b = node.board@;
        let ghost p = player.0 as int;
        let ghost md = self.opts.max_depth as int;
        let ghost np_g = next_player_spec(b, p);
        proof {
            assert(edges_view(node.edges@) =~= Seq::<EdgeV>::empty());
        }
        let elapsed = elapsed_millis(&self.start);
        if self.prune(&node, depth, elapsed) {
            if !(depth >= self.opts.max_depth
                || (node.player.is_me() && matches!(node.result, Outcome::Off | Outcome::Dead))
                || matches!(node.result, Outcome::KillMe))
            {
                self.timed_out = true;
            }
            return node;
        }
        let mut node = node;
        let moves = Move::all();
        let next_p = node.board.next_player(player);
        let mut i: usize = 0;
        while i < 4
            invariant
                0 <= i <= 4,
                self.opts == old(self).opts,
                self.start == old(self).start,
                old(self).timed_out ==> self.timed_out,
                node.board@ == b,
                node.player.0 as int == v0.player,
                node.result == v0.result,
                node.edges@.len() == i as int,
                next_p.0 as int == np_g,
                next_p.0 < b.snakes.len(),
                depth < md,
                forall|k: int|
                    0 <= k < i ==> {
                        let ek = #[trigger] edges_view(node.edges@)[k];
                        &&& ek.moved == all_moves()[k]
                        &&& matches_play(ek.next, play_spec(b, all_moves()[k], p))
                        &&& partial_ok(ek.next, np_g, depth + 1, md)
                    },
                !self.timed_out ==> forall|k: int|
                    0 <= k < i ==> #[trigger] edges_view(node.edges@)[k] == (EdgeV {
                        moved: all_moves()[k],
                        next: walk_spec_node(play_spec(b, all_moves()[k], p), np_g, depth + 1, md),
                    }),
            decreases 4 - i,
        {
            let m = moves[i];
            let child = self.play(&node.board, m, player);
            let sub = self.walk_node(child, next_p, depth + 1);
            let ghost old_edges = node.edges@;
            node.edges.push(Edge { moved: m, next: sub });
            proof {
                lemma_edges_view(old_edges);
                lemma_edges_view(node.edges@);
                assert(node.edges@.drop_last() =~= old_edges);
                assert(forall|k: int|
                    0 <= k < old_edges.len() ==> edges_view(node.edges@)[k] == edges_view(
                        old_edges,
                    )[k]);
                assert(edges_view(node.edges@)[i as int] == edge_view(node.edges@[i as int]));
            }
            i += 1;
        }
        proof {
            lemma_edges_view(node.edges@);
            let vr = node_view(node);
            assert(!static_prune(vr, depth as int, md));
            assert(partial_ok(vr, p, depth as int, md));
            if !self.timed_out {
                let full = walk_spec_node(v0, p, depth as int, md);
                assert(vr.edges =~= full.edges);
                assert(vr =~~= full);
            }
        }
        node
    }

    /// Expand a search tree for `board` under the given limits, rooted at
    /// the controlled agent's decision.  The tree is always a sound partial
    /// expansion of the board; with a zero budget or a zero depth limit it
    /// is the root alone; and whenever the budget never ran out — which the
    /// `timed_out` flag records — it is exactly the full expansion, so the
    /// whole search is a pure function of board and options.
    pub fn walk(&mut self, board: Board, opts: Options) -> (r: Node)
        requires
            wf_board(board@),
        ensures
            final(self).opts == opts,
            r.board@ == board@,
            r.player.0 == 0,
            r.result == Outcome::Nothing,
            partial_ok(node_view(r), 0, 0, opts.max_depth as int),
            !final(self).timed_out ==> node_view(r) == walk_spec(board@, opts.max_depth as int),
            opts.sla == 0 ==> node_view(r).edges.len() == 0,
            opts.max_depth == 0 ==> node_view(r).edges.len() == 0,
    {
        let node = Node {
            board,
            player: SnakeID(0),
            edges: Vec::new(),
            result: Outcome::Nothing,
        };
        self.opts = opts;
        self.start = instant_now();
        self.timed_out = false;
        let r = self.walk_node(node, SnakeID(0), 0);
        proof {
            lemma_edges_view(r.edges@);
        }
        r
    }
}

/// The text of a score: a numeral, or one of the infinities.
pub open spec fn score_chars(s: Score) -> Seq<char> {
    match s {
        Score::Inf => "inf"@,
        Score::NegInf => "-inf"@,
        Score::Fin(v) => crate::text::int_chars(v as int),
    }
}

impl Score {
    /// The score as text.
    pub fn render(&self) -> (r: String)
        ensures
            r@ == score_chars(*self),
    {
        match self {
            Score::Inf => String::from_str("inf"),
            Score::NegInf => String::from_str("-inf"),
            Score::Fin(v) => crate::text::i64_string(*v),
        }
    }
}

/// A non-negative tree player index, clamped for rendering.
pub open spec fn player_nat(p: int) -> nat {
    if p < 0 {
        0
    } else {
        p as nat
    }
}

/// The label of a child edge: its move, the agent that made it, and its
/// minimax score.
pub open spec fn edge_label(e: EdgeV) -> Seq<char> {
    move_chars(e.moved) + " ["@ + crate::text::dec_digits(player_nat(e.next.player)) + "] "@
        + score_chars(score_spec(e))
}

/// The label of the root: its decision agent and the picked direction.
pub open spec fn root_label(n: NodeV) -> Seq<char> {
    "Root ["@ + crate::text::dec_digits(player_nat(n.player)) + "] "@ + move_chars(pick_spec(n))
}

/// The text of a subtree: the labelled node on its own line, then each
/// child's subtree, indented one level deeper.
pub open spec fn tree_chars(n: NodeV, name: Seq<char>, prefix: Seq<char>, last: bool) -> Seq<char>
    decreases n, 1int, 0int,
{
    let child_prefix = prefix + (if last {
        "   "@
    } else {
        "|  "@
    });
    prefix + "|- "@ + name + "\n"@ + children_chars(n, child_prefix, 0)
}

/// The concatenated subtrees of the children of `n`, from index `i` on.
pub open spec fn children_chars(n: NodeV, prefix: Seq<char>, i: int) -> Seq<char>
    decreases n, 0int, n.edges.len() - i,
{
    if i < 0 || i >= n.edges.len() {
        Seq::empty()
    } else {
        tree_chars(
            n.edges[i].next,
            edge_label(n.edges[i]),
            prefix,
            i == n.edges.len() - 1,
        ) + children_chars(n, prefix, i + 1)
    }
}

/// The scored decision tree as text.
pub open spec fn node_text(n: NodeV) -> Seq<char> {
    tree_chars(n, root_label(n), Seq::empty(), true)
}

/// Append the text of the subtree under `node`, labelled `name`, onto
/// `out`.
#[verifier::loop_isolation(false)]
fn render_tree(node: &Node, name: &String, prefix: &String, last: bool, out: &mut String)
    ensures
        final(out)@ == old(out)@ + tree_chars(node_view(*node), name@, prefix@, last),
    decreases *node,
{
    let ghost nv = node_view(*node);
    let ghost target = old(out)@ + tree_chars(nv, name@, prefix@, last);
    proof {
        lemma_edges_view(node.edges@);
    }
    out.append(prefix.as_str());
    out.append("|- ");
    out.append(name.as_str());
    out.append("\n");
    let mut cp = String::from_str(prefix.as_str());
    if last {
        cp.append("   ");
    } else {
        cp.append("|  ");
    }
    proof {
        assert(target =~= out@ + children_chars(nv, cp@, 0));
    }
    let n_edges = node.edges.len();
    let mut i: usize = 0;
    while i < n_edges
        invariant
            0 <= i <= n_edges,
            target == out@ + children_chars(nv, cp@, i as int),
        decreases n_edges - i,
    {
        proof {
            assert(nv.edges[i as int] == edge_view(node.edges@[i as int]));
        }
        let e = &node.edges[i];
        let mut label = String::from_str(e.moved.render());
        label.append(" [");
        let num = crate::text::usize_string(e.next.player.0);
        label.append(num.as_str());
        label.append("] ");
        let sc = score(node, e);
        let scs = sc.render();
        label.append(scs.as_str());
        proof {
            assert(label@ =~= edge_label(nv.edges[i as int]));
        }
        render_tree(&e.next, &label, &cp, i == n_edges - 1, out);
        proof {
            assert(target =~= out@ + children_chars(nv, cp@, i + 1));
        }
        i += 1;
    }
}

impl Node {
    /// The full scored decision tree as text, one labelled node per line:
    /// the move taken, the agent that took it and the branch's score, with
    /// children indented under their parents.
    pub fn render(&self) -> (r: String)
        ensures
            r@ == node_text(node_view(*self)),
    {
        let ghost nv = node_view(*self);
        let mut name = String::from_str("Root [");
        let num = crate::text::usize_string(self.player.0);
        name.append(num.as_str());
        name.append("] ");
        let m = self.pick();
        name.append(m.render());
        proof {
            assert(name@ =~= root_label(nv));
        }
        let prefix = String::new();
        let mut out = String::new();
        render_tree(self, &name, &prefix, true, &mut out);
        proof {
            assert(out@ =~= node_text(nv));
        }
        out
    }
}

/// The number of nodes in a tree.
pub open spec fn node_count(v: NodeV) -> nat
    decreases v,
{
    1 + edges_count(v.edges)
}

/// The number of nodes hanging off a sequence of edges.
pub open spec fn edges_count(s: Seq<EdgeV>) -> nat
    decreases s,
{
    if s.len() == 0 {
        0
    } else {
        edges_count(s.drop_last()) + node_count(s.last().next)
    }
}

/// A tree has at least its root.
pub proof fn lemma_node_count_pos(v: NodeV)
    ensures
        node_count(v) >= 1,
{
}

/// The node count of exactly four edges, child by child.
proof fn lemma_edges_count4(s: Seq<EdgeV>)
    requires
        s.len() == 4,
    ensures
        edges_count(s) == node_count(s[0].next) + node_count(s[1].next) + node_count(s[2].next)
            + node_count(s[3].next),
{
    let s3 = s.drop_last();
    let s2 = s3.drop_last();
    let s1 = s2.drop_last();
    let s0 = s1.drop_last();
    assert(s3.len() == 3 && s2.len() == 2 && s1.len() == 1 && s0.len() == 0);
    assert(s1.last() == s[0] && s2.last() == s[1] && s3.last() == s[2] && s.last() == s[3]);
    assert(edges_count(s0) == 0);
    assert(edges_count(s1) == edges_count(s0) + node_count(s1.last().next));
    assert(edges_count(s2) == edges_count(s1) + node_count(s2.last().next));
    assert(edges_count(s3) == edges_count(s2) + node_count(s3.last().next));
    assert(edges_count(s) == edges_count(s3) + node_count(s.last().next));
}

/// Leaf termination, second half: raising the depth limit can never shrink
/// the tree the walker would build.  Deepening only turns leaves into
/// expanded nodes; it removes nothing.
pub proof fn lemma_deeper_search_no_fewer_nodes(
    v: NodeV,
    player: int,
    depth: int,
    md1: int,
    md2: int,
)
    requires
        md1 <= md2,
        v.edges.len() == 0,
    ensures
        node_count(walk_spec_node(v, player, depth, md1)) <= node_count(
            walk_spec_node(v, player, depth, md2),
        ),
    decreases md2 - depth,
{
    let t1 = walk_spec_node(v, player, depth, md1);
    let t2 = walk_spec_node(v, player, depth, md2);
    if static_prune(v, depth, md1) {
        assert(edges_count(v.edges) == 0);
        assert(node_count(t1) == 1);
        lemma_node_count_pos(t2);
    } else {
        let b = v.board;
        let np = next_player_spec(b, player);
        lemma_deeper_search_no_fewer_nodes(play_spec(b, Move::Up, player), np, depth + 1, md1, md2);
        lemma_deeper_search_no_fewer_nodes(
            play_spec(b, Move::Down, player),
            np,
            depth + 1,
            md1,
            md2,
        );
        lemma_deeper_search_no_fewer_nodes(
            play_spec(b, Move::Left, player),
            np,
            depth + 1,
            md1,
            md2,
        );
        lemma_deeper_search_no_fewer_nodes(
            play_spec(b, Move::Right, player),
            np,
            depth + 1,
            md1,
            md2,
        );
        lemma_edges_count4(t1.edges);
        lemma_edges_count4(t2.edges);
    }
}

/// The picker keeps the incumbent when no remaining edge scores below it.
proof fn lemma_pick_fold_keeps(n: NodeV, i: int, best: Move, bs: Score)
    requires
        forall|k: int|
            i <= k < n.edges.len() ==> !score_lt(score_spec(#[trigger] n.edges[k]), bs),
    ensures
        pick_fold(n, i, best, bs) == best,
    decreases n.edges.len() - i,
{
    if 0 <= i < n.edges.len() {
        lemma_pick_fold_keeps(n, i + 1, best, bs);
    }
}

/// The strict order on scores is transitive.
proof fn lemma_score_lt_trans(a: Score, b: Score, c: Score)
    requires
        score_lt(a, b),
        score_lt(b, c),
    ensures
        score_lt(a, c),
{
}

/// When some remaining edge scores below the incumbent, the fold settles
/// on an edge scoring below the incumbent.
proof fn lemma_pick_fold_finds(n: NodeV, i: int, best: Move, bs: Score)
    requires
        0 <= i,
        exists|k: int|
            i <= k < n.edges.len() && score_lt(score_spec(#[trigger] n.edges[k]), bs),
    ensures
        exists|j: int|
            i <= j < n.edges.len() && (#[trigger] n.edges[j]).moved == pick_fold(n, i, best, bs)
                && score_lt(score_spec(n.edges[j]), bs),
    decreases n.edges.len() - i,
{
    let es = score_spec(n.edges[i]);
    if score_lt(es, bs) {
        if exists|k: int|
            i + 1 <= k < n.edges.len() && score_lt(score_spec(#[trigger] n.edges[k]), es) {
            lemma_pick_fold_finds(n, i + 1, n.edges[i].moved, es);
            let j = choose|j: int|
                i + 1 <= j < n.edges.len() && n.edges[j].moved == pick_fold(
                    n,
                    i + 1,
                    n.edges[i].moved,
                    es,
                ) && score_lt(score_spec(n.edges[j]), es);
            lemma_score_lt_trans(score_spec(n.edges[j]), es, bs);
        } else {
            lemma_pick_fold_keeps(n, i + 1, n.edges[i].moved, es);
            assert(n.edges[i].moved == pick_fold(n, i, best, bs) && score_lt(
                score_spec(n.edges[i]),
                bs,
            ));
        }
    } else {
        let k = choose|k: int|
            i <= k < n.edges.len() && score_lt(score_spec(#[trigger] n.edges[k]), bs);
        assert(k != i);
        assert(i + 1 <= k < n.edges.len() && score_lt(score_spec(n.edges[k]), bs));
        lemma_pick_fold_finds(n, i + 1, best, bs);
    }
}

/// The picker avoids certain death: whenever some child edge scores below
/// plus infinity, the picked direction is that of an edge scoring below
/// plus infinity — never a move provably leading to the controlled
/// agent's death within the search horizon while a survivable move
/// exists.
pub proof fn lemma_pick_avoids_infinity(n: NodeV)
    requires
        exists|k: int|
            0 <= k < n.edges.len() && score_lt(score_spec(#[trigger] n.edges[k]), Score::Inf),
    ensures
        exists|j: int|
            0 <= j < n.edges.len() && (#[trigger] n.edges[j]).moved == pick_spec(n) && score_lt(
                score_spec(n.edges[j]),
                Score::Inf,
            ),
{
    lemma_pick_fold_finds(n, 0, Move::Up, Score::Inf);
}

/// No-legal-move fallback: even when every child edge of the root scores
/// plus infinity — every move lethal — the picker still answers, with the
/// default direction, never an error.
pub proof fn lemma_pick_fallback(n: NodeV)
    requires
        forall|k: int|
            0 <= k < n.edges.len() ==> score_spec(#[trigger] n.edges[k]) == Score::Inf,
    ensures
        pick_spec(n) == Move::Up,
{
    lemma_pick_fold_keeps(n, 0, Move::Up, Score::Inf);
}

/// Determinism: with a budget that never triggers, the walker returns
/// exactly `walk_spec`, a pure function of board and depth limit, so two
/// searches of the same board under the same limit pick the same move.
pub proof fn lemma_pick_deterministic(t1: NodeV, t2: NodeV, b: BoardV, max_depth: int)
    requires
        t1 == walk_spec(b, max_depth),
        t2 == walk_spec(b, max_depth),
    ensures
        pick_spec(t1) == pick_spec(t2),
{
}

/// The direction whose edge scores lowest among the children of `node`,
/// defaulting to up when no edge beats plus infinity.
#[verifier::loop_isolation(false)]
pub fn pick(node: &Node) -> (r: Move)
    ensures
        r == pick_spec(node_view(*node)),
{
    let ghost nv = node_view(*node);
    proof {
        lemma_edges_view(node.edges@);
    }
    let mut best = Move::Up;
    let mut bs = Score::Inf;
    let mut i: usize = 0;
    while i < node.edges.len()
        invariant
            0 <= i <= node.edges@.len(),
            pick_fold(nv, 0, Move::Up, Score::Inf) == pick_fold(nv, i as int, best, bs),
        decreases node.edges@.len() - i,
    {
        proof {
            assert(nv.edges[i as int] == edge_view(node.edges@[i as int]));
        }
        let edge_score = score(node, &node.edges[i]);
        if edge_score.lt(bs) {
            best = node.edges[i].moved;
            bs = edge_score;
        }
        i += 1;
    }
    best
}

} // verus!
