//! The runner: the adapter between the wire-shaped request types and the
//! engine.  It builds a board from a request — the controlled agent always
//! placed first, so its identifier is 0 and turn order is deterministic —
//! runs the tree walker and picker, and translates the chosen direction
//! back out.

use super::minmax::{partial_ok_of, pick_spec, walk_spec, Options, Walker};
use super::{node_view, wf_board, Board, BoardV, Game, Move, Pos, Snake};
use crate::api;
use vstd::prelude::*;
use vstd::string::StringSliceAdditionalSpecFns;

verus! {

/// The cell named by a wire coordinate pair.
pub open spec fn point_pos(p: api::Point) -> Pos {
    Pos { x: p.x as isize, y: p.y as isize }
}

/// The body cells of a wire agent, head first.
pub open spec fn snake_body(s: api::Snake) -> Seq<Pos> {
    s.body@.map_values(|pt: api::Point| point_pos(pt))
}

/// The bodies of the opponents at or after index `i`: every agent except
/// the one whose identifier matches the controlled agent's, in order.
/// Identifiers are compared byte for byte.
pub open spec fn kept_snakes(snakes: Seq<api::Snake>, you_id: Seq<u8>, i: int) -> Seq<Seq<Pos>>
    decreases snakes.len() - i,
{
    if i < 0 || i >= snakes.len() {
        Seq::empty()
    } else {
        let rest = kept_snakes(snakes, you_id, i + 1);
        if snakes[i].id.spec_bytes() == you_id {
            rest
        } else {
            seq![snake_body(snakes[i])] + rest
        }
    }
}

/// The board a request describes: the controlled agent first, then the
/// remaining agents in wire order, with the wire's dimensions and food.
pub open spec fn board_of_request(req: api::MoveRequest) -> BoardV {
    BoardV {
        game: Game {
            width: req.board.width as isize,
            height: req.board.height as isize,
        },
        snakes: seq![snake_body(req.you)] + kept_snakes(
            req.board.snakes@,
            req.you.id.spec_bytes(),
            0,
        ),
        food: req.board.food@.map_values(|pt: api::Point| point_pos(pt)),
    }
}

/// A request the engine owes an answer for: one whose board is well
/// formed.  On the wire this comes down to the controlled agent and every
/// kept opponent having at least one body cell.
pub open spec fn valid_request(req: api::MoveRequest) -> bool {
    wf_board(board_of_request(req))
}

/// The search depth the runner asks for.
pub const RUN_DEPTH: usize = 20;

/// The wall-clock budget the runner allows, in milliseconds.
pub const RUN_SLA: u64 = 75;

/// The wire spelling of a chosen move.
pub open spec fn direction_of(m: Move) -> api::Direction {
    match m {
        Move::Up => api::Direction::Up,
        Move::Down => api::Direction::Down,
        Move::Left => api::Direction::Left,
        Move::Right => api::Direction::Right,
    }
}

/// A kept opponent's body appears among the kept bodies.
proof fn lemma_kept_contains(snakes: Seq<api::Snake>, you_id: Seq<u8>, i: int, j: int)
    requires
        0 <= i <= j < snakes.len(),
        snakes[j].id.spec_bytes() != you_id,
    ensures
        kept_snakes(snakes, you_id, i).contains(snake_body(snakes[j])),
    decreases j - i,
{
    let kept = kept_snakes(snakes, you_id, i);
    if i == j {
        assert(kept[0] == snake_body(snakes[j]));
    } else {
        lemma_kept_contains(snakes, you_id, i + 1, j);
        let rest = kept_snakes(snakes, you_id, i + 1);
        let k = choose|k: int| 0 <= k < rest.len() && rest[k] == snake_body(snakes[j]);
        if snakes[i].id.spec_bytes() == you_id {
            assert(kept[k] == snake_body(snakes[j]));
        } else {
            assert(kept[k + 1] == snake_body(snakes[j]));
        }
    }
}

/// Every kept body cell comes off the wire, hence lies strictly inside the
/// machine range.
proof fn lemma_kept_cells_bounded(snakes: Seq<api::Snake>, you_id: Seq<u8>, i: int)
    ensures
        forall|k: int, l: int|
            0 <= k < kept_snakes(snakes, you_id, i).len() && 0 <= l < kept_snakes(
                snakes,
                you_id,
                i,
            )[k].len() ==> super::pos_in_bounds(#[trigger] kept_snakes(snakes, you_id, i)[k][l]),
    decreases snakes.len() - i,
{
    if i < 0 || i >= snakes.len() {
    } else {
        lemma_kept_cells_bounded(snakes, you_id, i + 1);
        let kept = kept_snakes(snakes, you_id, i);
        let rest = kept_snakes(snakes, you_id, i + 1);
        if snakes[i].id.spec_bytes() != you_id {
            let bs = snake_body(snakes[i]);
            assert forall|k: int, l: int|
                0 <= k < kept.len() && 0 <= l < kept[k].len() implies super::pos_in_bounds(
                kept[k][l],
            ) by {
                if k == 0 {
                    assert(kept[k] == bs);
                    assert(bs[l] == point_pos(snakes[i].body@[l]));
                } else {
                    assert(kept[k] == rest[k - 1]);
                }
            }
        }
    }
}

/// Whether the engine owes `req` an answer: whether its board is well
/// formed.  On the wire that comes down to the controlled agent and every
/// kept opponent having at least one body cell; the surrounding service
/// must reject a request this refuses instead of asking for a move.
#[verifier::loop_isolation(false)]
pub fn request_is_valid(req: &api::MoveRequest) -> (r: bool)
    ensures
        r == valid_request(*req),
{
    let ghost you_id = req.you.id.spec_bytes();
    let ghost b = board_of_request(*req);
    let ghost kept0 = kept_snakes(req.board.snakes@, you_id, 0);
    if req.you.body.len() == 0 {
        proof {
            assert(b.snakes[0] == snake_body(req.you));
            assert(b.snakes[0].len() == 0);
        }
        return false;
    }
    let mut s: usize = 0;
    let ghost mut done: Seq<Seq<Pos>> = Seq::empty();
    while s < req.board.snakes.len()
        invariant
            0 <= s <= req.board.snakes@.len(),
            done + kept_snakes(req.board.snakes@, you_id, s as int) == kept0,
            forall|k: int| 0 <= k < done.len() ==> (#[trigger] done[k]).len() >= 1,
        decreases req.board.snakes@.len() - s,
    {
        let sn = &req.board.snakes[s];
        if !bytes_eq(sn.id.as_bytes(), req.you.id.as_bytes()) {
            if sn.body.len() == 0 {
                proof {
                    lemma_kept_contains(req.board.snakes@, you_id, 0, s as int);
                    let k = choose|k: int|
                        0 <= k < kept0.len() && kept0[k] == snake_body(
                            req.board.snakes@[s as int],
                        );
                    assert(b.snakes[k + 1] == kept0[k]);
                    assert(b.snakes[k + 1].len() == 0);
                }
                return false;
            }
            proof {
                let bs = snake_body(req.board.snakes@[s as int]);
                assert(kept_snakes(req.board.snakes@, you_id, s as int) == seq![bs]
                    + kept_snakes(req.board.snakes@, you_id, s + 1));
                done = done.push(bs);
                assert(done + kept_snakes(req.board.snakes@, you_id, s + 1) =~= kept0);
            }
        } else {
            proof {
                assert(req.board.snakes@[s as int].id.spec_bytes() == you_id);
            }
        }
        s += 1;
    }
    proof {
        assert(kept_snakes(req.board.snakes@, you_id, req.board.snakes@.len() as int)
            =~= Seq::<Seq<Pos>>::empty());
        assert(done =~= kept0);
        assert forall|l: int| 0 <= l < snake_body(req.you).len() implies super::pos_in_bounds(
            snake_body(req.you)[l],
        ) by {
            assert(snake_body(req.you)[l] == point_pos(req.you.body@[l]));
        }
        lemma_kept_cells_bounded(req.board.snakes@, you_id, 0);
        assert forall|i: int, j: int|
            0 <= i < b.snakes.len() && 0 <= j < b.snakes[i].len() implies super::pos_in_bounds(
            b.snakes[i][j],
        ) by {
            if i == 0 {
                assert(b.snakes[0] == snake_body(req.you));
            } else {
                assert(b.snakes[i] == kept0[i - 1]);
            }
        }
        assert forall|i: int| 0 <= i < b.snakes.len() implies (#[trigger] b.snakes[i]).len()
            >= 1 by {
            if i == 0 {
                assert(b.snakes[0] == snake_body(req.you));
            } else {
                assert(b.snakes[i] == done[i - 1]);
            }
        }
        assert(wf_board(b));
    }
    true
}

/// Whether two byte strings hold the same bytes.
fn bytes_eq(a: &[u8], b: &[u8]) -> (r: bool)
    ensures
        r == (a@ == b@),
{
    if a.len() != b.len() {
        return false;
    }
    let mut i: usize = 0;
    while i < a.len()
        invariant
            0 <= i <= a@.len(),
            a@.len() == b@.len(),
            forall|k: int| 0 <= k < i ==> a@[k] == b@[k],
        decreases a@.len() - i,
    {
        if a[i] != b[i] {
            return false;
        }
        i += 1;
    }
    proof {
        assert(a@ =~= b@);
    }
    true
}

/// The body cells of a wire agent, as engine positions.
fn body_of(s: &api::Snake) -> (r: Vec<Pos>)
    ensures
        r@ == snake_body(*s),
{
    let mut body: Vec<Pos> = Vec::new();
    let mut i: usize = 0;
    while i < s.body.len()
        invariant
            0 <= i <= s.body@.len(),
            body@ == s.body@.take(i as int).map_values(|pt: api::Point| point_pos(pt)),
        decreases s.body@.len() - i,
    {
        let pt = s.body[i];
        body.push(Pos { x: pt.x as isize, y: pt.y as isize });
        proof {
            assert(s.body@.take(i + 1).drop_last() =~= s.body@.take(i as int));
            assert(body@ =~= s.body@.take(i + 1).map_values(|pt: api::Point| point_pos(pt)));
        }
        i += 1;
    }
    proof {
        assert(s.body@.take(s.body@.len() as int) =~= s.body@);
    }
    body
}

/// The external-facing adapter: translates an inbound board description
/// into the engine's board model, searches it, and answers a direction.
pub struct Runner {
    walker: Walker,
}

impl Runner {
    /// Whether the last `run` had its tree cut short by the wall-clock
    /// budget; while this is false, `run` is a pure function of its input.
    pub closed spec fn timed_out(self) -> bool {
        self.walker.timed_out
    }

    /// A fresh runner.
    pub fn new() -> (r: Runner)
        ensures
            !r.timed_out(),
    {
        Runner { walker: Walker::new() }
    }

    /// The engine board a request describes.
    #[verifier::loop_isolation(false)]
    pub fn from_request(&mut self, req: &api::MoveRequest) -> (r: Board)
        ensures
            r@ == board_of_request(*req),
    {
        let ghost you_id = req.you.id.spec_bytes();
        let mut snakes: Vec<Snake> = Vec::new();
        let mut food: Vec<Pos> = Vec::new();
        let mut i: usize = 0;
        while i < req.board.food.len()
            invariant
                0 <= i <= req.board.food@.len(),
                food@ == req.board.food@.take(i as int).map_values(
                    |pt: api::Point| point_pos(pt),
                ),
            decreases req.board.food@.len() - i,
        {
            let pt = req.board.food[i];
            food.push(Pos { x: pt.x as isize, y: pt.y as isize });
            proof {
                assert(req.board.food@.take(i + 1).drop_last() =~= req.board.food@.take(i as int));
                assert(food@ =~= req.board.food@.take(i + 1).map_values(
                    |pt: api::Point| point_pos(pt),
                ));
            }
            i += 1;
        }
        proof {
            assert(req.board.food@.take(req.board.food@.len() as int) =~= req.board.food@);
        }

        let my_body = body_of(&req.you);
        snakes.push(Snake::new(my_body));

        let mut s: usize = 0;
        while s < req.board.snakes.len()
            invariant
                0 <= s <= req.board.snakes@.len(),
                snakes@.map_values(|sn: Snake| sn@) + kept_snakes(
                    req.board.snakes@,
                    you_id,
                    s as int,
                ) == seq![snake_body(req.you)] + kept_snakes(req.board.snakes@, you_id, 0),
            decreases req.board.snakes@.len() - s,
        {
            let ghost old_map = snakes@.map_values(|sn2: Snake| sn2@);
            let sn = &req.board.snakes[s];
            if bytes_eq(sn.id.as_bytes(), req.you.id.as_bytes()) {
                proof {
                    assert(req.board.snakes@[s as int].id.spec_bytes() == you_id);
                    assert(kept_snakes(req.board.snakes@, you_id, s as int) == kept_snakes(
                        req.board.snakes@,
                        you_id,
                        s + 1,
                    ));
                }
                s += 1;
                continue;
            }
            let body = body_of(sn);
            snakes.push(Snake::new(body));
            proof {
                let bs = snake_body(req.board.snakes@[s as int]);
                assert(kept_snakes(req.board.snakes@, you_id, s as int) == seq![bs]
                    + kept_snakes(req.board.snakes@, you_id, s + 1));
                assert(snakes@.map_values(|sn2: Snake| sn2@) =~= old_map.push(bs));
                assert(snakes@.map_values(|sn2: Snake| sn2@) + kept_snakes(
                    req.board.snakes@,
                    you_id,
                    s + 1,
                ) =~= old_map + kept_snakes(req.board.snakes@, you_id, s as int));
            }
            s += 1;
        }
        proof {
            assert(kept_snakes(req.board.snakes@, you_id, req.board.snakes@.len() as int)
                =~= Seq::<Seq<Pos>>::empty());
            assert(snakes@.map_values(|sn: Snake| sn@) =~= seq![snake_body(req.you)]
                + kept_snakes(req.board.snakes@, you_id, 0));
        }
        let game = Game {
            width: req.board.width as isize,
            height: req.board.height as isize,
        };
        let r = Board::new(game, snakes, food);
        proof {
            assert(r@ =~~= board_of_request(*req));
        }
        r
    }

    /// Answer one decision request: build the board, expand the search
    /// tree under the runner's depth and time limits, and return the
    /// direction the picker chooses.  The answer always comes from a sound
    /// partial expansion of the request's board; whenever the budget never
    /// ran out it is exactly the picker's choice on the full expansion — a
    /// pure function of the request.
    pub fn run(&mut self, req: &api::MoveRequest) -> (r: api::Direction)
        requires
            valid_request(*req),
        ensures
            !final(self).timed_out() ==> r == direction_of(
                pick_spec(walk_spec(board_of_request(*req), RUN_DEPTH as int)),
            ),
            exists|t: super::NodeV|
                {
                    &&& #[trigger] partial_ok_of(t, board_of_request(*req), RUN_DEPTH as int)
                    &&& r == direction_of(pick_spec(t))
                },
    {
        let board = self.from_request(req);
        let node = self.walker.walk(
            board,
            Options { max_depth: RUN_DEPTH, sla: RUN_SLA },
        );
        let m = node.pick();
        proof {
            let t = node_view(node);
            assert(partial_ok_of(t, board_of_request(*req), RUN_DEPTH as int));
        }
        match m {
            Move::Up => api::Direction::Up,
            Move::Down => api::Direction::Down,
            Move::Left => api::Direction::Left,
            Move::Right => api::Direction::Right,
        }
    }
}

} // verus!
