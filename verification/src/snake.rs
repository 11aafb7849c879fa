//! The board model: positions, moves, agents and the board itself, plus the
//! search-tree nodes and the move simulator's specification.

pub mod api;
pub mod minmax;

use vstd::prelude::*;

verus! {

/// A grid coordinate.  A position is not bounds-checked on its own; validity
/// is always judged against a specific board.
#[derive(Clone, Copy, Debug, PartialEq, Eq, Structural)]
pub struct Pos {
    pub x: isize,
    pub y: isize,
}

/// Coordinates strictly inside the machine range, so that taking one step in
/// any direction can never overflow.
pub open spec fn pos_in_bounds(p: Pos) -> bool {
    &&& isize::MIN < p.x < isize::MAX
    &&& isize::MIN < p.y < isize::MAX
}

/// One of the four cardinal moves an agent can make.
#[derive(Clone, Copy, Debug, PartialEq, Eq, Structural)]
pub enum Move {
    Up,
    Down,
    Left,
    Right,
}

/// The four candidate moves, in the fixed order the tree walker tries them.
pub open spec fn all_moves() -> Seq<Move> {
    seq![Move::Up, Move::Down, Move::Left, Move::Right]
}

/// The cell reached by taking move `m` from `pos`.
pub open spec fn move_next(m: Move, pos: Pos) -> Pos {
    match m {
        Move::Up => Pos { x: pos.x, y: (pos.y + 1) as isize },
        Move::Down => Pos { x: pos.x, y: (pos.y - 1) as isize },
        Move::Left => Pos { x: (pos.x - 1) as isize, y: pos.y },
        Move::Right => Pos { x: (pos.x + 1) as isize, y: pos.y },
    }
}

/// The wire spelling of a move.
pub open spec fn move_chars(m: Move) -> Seq<char> {
    match m {
        Move::Up => "up"@,
        Move::Down => "down"@,
        Move::Left => "left"@,
        Move::Right => "right"@,
    }
}

impl Move {
    /// The move's lower-case name.
    pub fn render(&self) -> (r: &'static str)
        ensures
            r@ == move_chars(*self),
    {
        match self {
            Move::Up => "up",
            Move::Down => "down",
            Move::Left => "left",
            Move::Right => "right",
        }
    }

    /// Every candidate move, in the order the search tries them.
    pub fn all() -> (r: [Move; 4])
        ensures
            r@ == all_moves(),
    {
        let r = [Move::Up, Move::Down, Move::Left, Move::Right];
        proof {
            assert(r@ =~= all_moves());
        }
        r
    }

    /// The cell reached by taking this move from `pos`.
    pub fn next(&self, pos: Pos) -> (r: Pos)
        requires
            pos_in_bounds(pos),
        ensures
            r == move_next(*self, pos),
    {
        match self {
            Move::Up => Pos { x: pos.x, y: pos.y + 1 },
            Move::Down => Pos { x: pos.x, y: pos.y - 1 },
            Move::Left => Pos { x: pos.x - 1, y: pos.y },
            Move::Right => Pos { x: pos.x + 1, y: pos.y },
        }
    }
}

/// How a simulated move turned out for the agent that made it.
#[derive(Clone, Copy, Debug, PartialEq, Eq, Structural)]
pub enum Outcome {
    /// An ordinary move onto an empty cell.
    Nothing,
    /// The agent moved onto food and grew.
    Eat,
    /// The agent ran into a body segment, or lost a head-to-head.
    Dead,
    /// The agent won a head-to-head against an opponent.
    Kill,
    /// The agent won a head-to-head against the controlled agent.
    KillMe,
    /// The agent moved off the grid.
    Off,
}

/// A stable agent identifier: the agent's index in the board's collection.
#[derive(Clone, Copy, Debug, PartialEq, Eq, Structural)]
pub struct SnakeID(pub usize);

impl SnakeID {
    /// Whether this identifier names the controlled agent (index 0).
    pub fn is_me(&self) -> (r: bool)
        ensures
            r == (self.0 == 0),
    {
        self.0 == 0
    }
}

/// What a board cell holds.
#[derive(Clone, Copy, Debug, PartialEq, Eq, Structural)]
pub enum Square {
    Snake(SnakeID),
    Food,
    Empty,
    Off,
}

/// An agent: an ordered sequence of occupied cells, head first, tail last.
#[derive(Debug)]
pub struct Snake {
    pub body: Vec<Pos>,
}

impl View for Snake {
    type V = Seq<Pos>;

    open spec fn view(&self) -> Seq<Pos> {
        self.body@
    }
}

impl Snake {
    /// A new agent with the given body, head first.
    pub fn new(body: Vec<Pos>) -> (r: Snake)
        ensures
            r@ == body@,
    {
        Snake { body }
    }

    /// The agent's head cell.
    pub fn head(&self) -> (r: Pos)
        requires
            self@.len() > 0,
        ensures
            r == self@[0],
    {
        self.body[0]
    }

    /// The agent's length, which is also its head-to-head combat strength.
    pub fn len(&self) -> (r: usize)
        ensures
            r == self@.len(),
    {
        self.body.len()
    }

    /// Drop the tail cell (a move onto an empty cell vacates the tail).
    pub fn remove_tail(&mut self)
        ensures
            old(self)@.len() > 0 ==> final(self)@ == old(self)@.drop_last(),
            old(self)@.len() == 0 ==> final(self)@ == old(self)@,
    {
        self.body.pop();
    }

    /// Prepend a new head cell.
    pub fn change_head(&mut self, pos: Pos)
        ensures
            final(self)@ == seq![pos] + old(self)@,
    {
        self.body.insert(0, pos);
        proof {
            assert(self.body@ =~= seq![pos] + old(self).body@);
        }
    }
}

/// The fixed parameters of a game: the grid dimensions.
#[derive(Debug, Clone, Copy, PartialEq, Eq, Structural)]
pub struct Game {
    pub width: isize,
    pub height: isize,
}

/// The mathematical value of a board: dimensions, one cell sequence per
/// agent (head first), and the food cells.
#[verifier::ext_equal]
pub struct BoardV {
    pub game: Game,
    pub snakes: Seq<Seq<Pos>>,
    pub food: Seq<Pos>,
}

/// A well-formed board: at least the controlled agent is present, every
/// agent occupies at least one cell, and every occupied cell is strictly
/// inside the machine range so a step from it can be computed.
pub open spec fn wf_board(b: BoardV) -> bool {
    &&& b.snakes.len() >= 1
    &&& forall|i: int| 0 <= i < b.snakes.len() ==> (#[trigger] b.snakes[i]).len() >= 1
    &&& forall|i: int, j: int|
        0 <= i < b.snakes.len() && 0 <= j < b.snakes[i].len() ==> pos_in_bounds(
            #[trigger] b.snakes[i][j],
        )
}

/// Whether `p` lies on the grid of board `b`.
pub open spec fn on_grid(b: BoardV, p: Pos) -> bool {
    &&& 0 <= p.x < b.game.width
    &&& 0 <= p.y < b.game.height
}

/// Whether some food entry sits on `p`.
pub open spec fn food_at(b: BoardV, p: Pos) -> bool {
    exists|i: int| 0 <= i < b.food.len() && b.food[i] == p
}

/// Whether a body occupies cell `p`.
pub open spec fn body_hits(body: Seq<Pos>, p: Pos) -> bool {
    exists|j: int| 0 <= j < body.len() && body[j] == p
}

/// The first agent at or after index `i` whose body occupies `p`, if any.
pub open spec fn first_snake_at(snakes: Seq<Seq<Pos>>, p: Pos, i: int) -> Option<int>
    decreases snakes.len() - i,
{
    if i < 0 || i >= snakes.len() {
        None
    } else if body_hits(snakes[i], p) {
        Some(i)
    } else {
        first_snake_at(snakes, p, i + 1)
    }
}

/// The first food entry at or after index `i` that sits on `p`, if any.
pub open spec fn first_food_at(food: Seq<Pos>, p: Pos, i: int) -> Option<int>
    decreases food.len() - i,
{
    if i < 0 || i >= food.len() {
        None
    } else if food[i] == p {
        Some(i)
    } else {
        first_food_at(food, p, i + 1)
    }
}

/// The text of one cell of the grid: the occupying agent's identifier,
/// `F` for food, `_` for empty, each padded by a space.
pub open spec fn square_chars(b: BoardV, x: int, y: int) -> Seq<char> {
    match classify(b, Pos { x: x as isize, y: y as isize }) {
        Square::Snake(id) => crate::text::dec_digits(id.0 as nat) + " "@,
        Square::Food => "F "@,
        Square::Empty => "_ "@,
        Square::Off => Seq::empty(),
    }
}

/// The text of row `y` of the grid, from column `x` on.
pub open spec fn row_chars(b: BoardV, y: int, x: int) -> Seq<char>
    decreases b.game.width - x,
{
    if x < 0 || x >= b.game.width {
        Seq::empty()
    } else {
        square_chars(b, x, y) + row_chars(b, y, x + 1)
    }
}

/// The text of the grid from row `row` on, top row first.
pub open spec fn rows_chars(b: BoardV, row: int) -> Seq<char>
    decreases b.game.height - row,
{
    if row < 0 || row >= b.game.height {
        Seq::empty()
    } else {
        "  "@ + row_chars(b, b.game.height - row - 1, 0) + "\n"@ + rows_chars(b, row + 1)
    }
}

/// The whole grid as text, top row first.
pub open spec fn board_chars(b: BoardV) -> Seq<char> {
    rows_chars(b, 0)
}

/// A hit reported by `first_snake_at` is a real one: the index is in
/// range and that agent's body occupies the cell.
pub proof fn lemma_first_snake_at_range(snakes: Seq<Seq<Pos>>, p: Pos, i: int)
    ensures
        match first_snake_at(snakes, p, i) {
            Option::Some(j) => i <= j < snakes.len() && body_hits(snakes[j], p),
            Option::None => true,
        },
    decreases snakes.len() - i,
{
    if i < 0 || i >= snakes.len() {
    } else if body_hits(snakes[i], p) {
    } else {
        lemma_first_snake_at_range(snakes, p, i + 1);
    }
}

/// What cell `p` holds on board `b`: off-grid first, then food, then the
/// lowest-numbered agent occupying it, else empty.  Food is checked before
/// occupancy; on boards where food and bodies are disjoint the order is a
/// safety net, not a behaviour driver.
pub open spec fn classify(b: BoardV, p: Pos) -> Square {
    if !on_grid(b, p) {
        Square::Off
    } else if food_at(b, p) {
        Square::Food
    } else {
        match first_snake_at(b.snakes, p, 0) {
            Option::Some(i) => Square::Snake(SnakeID(i as usize)),
            Option::None => Square::Empty,
        }
    }
}

/// The board with the first food entry on `p` removed; unchanged if none.
pub open spec fn remove_food_spec(b: BoardV, p: Pos) -> BoardV {
    match first_food_at(b.food, p, 0) {
        Option::Some(i) => BoardV { food: b.food.remove(i), ..b },
        Option::None => b,
    }
}

/// The identifier of the agent that moves after `player`: round-robin over
/// the agent collection, wrapping back to the controlled agent.
pub open spec fn next_player_spec(b: BoardV, player: int) -> int {
    if player + 1 >= b.snakes.len() {
        0
    } else {
        player + 1
    }
}

/// A board: grid dimensions, the agents in turn order (controlled agent
/// first), and the food cells.  A board is a pure value; every simulated
/// move copies it, so sibling search branches never observe each other's
/// mutations.
#[derive(Debug)]
pub struct Board {
    pub game: Game,
    pub snakes: Vec<Snake>,
    pub food: Vec<Pos>,
}

impl View for Board {
    type V = BoardV;

    open spec fn view(&self) -> BoardV {
        BoardV {
            game: self.game,
            snakes: self.snakes@.map_values(|s: Snake| s@),
            food: self.food@,
        }
    }
}

impl Board {
    /// A new board from its parts.
    pub fn new(game: Game, snakes: Vec<Snake>, food: Vec<Pos>) -> (r: Board)
        ensures
            r@ == (BoardV {
                game,
                snakes: snakes@.map_values(|s: Snake| s@),
                food: food@,
            }),
    {
        Board { game, snakes, food }
    }

    /// Remove the first food entry on `pos`, if any.
    pub fn remove_food(&mut self, pos: Pos)
        ensures
            final(self)@ == remove_food_spec(old(self)@, pos),
    {
        let mut i: usize = 0;
        while i < self.food.len()
            invariant
                0 <= i <= self.food@.len(),
                first_food_at(self@.food, pos, 0) == first_food_at(self@.food, pos, i as int),
                self == old(self),
            decreases self.food@.len() - i,
        {
            if self.food[i] == pos {
                self.food.remove(i);
                proof {
                    assert(final(self)@ =~= remove_food_spec(old(self)@, pos));
                }
                return;
            }
            i += 1;
        }
    }

    /// What cell `pos` holds on this board.
    pub fn get(&self, pos: Pos) -> (r: Square)
        ensures
            r == classify(self@, pos),
    {
        if pos.x < 0 || pos.y < 0 || pos.x >= self.game.width || pos.y >= self.game.height {
            return Square::Off;
        }
        let mut i: usize = 0;
        while i < self.food.len()
            invariant
                0 <= i <= self.food@.len(),
                forall|k: int| 0 <= k < i ==> self.food@[k] != pos,
                on_grid(self@, pos),
            decreases self.food@.len() - i,
        {
            if self.food[i] == pos {
                proof {
                    assert(self@.food[i as int] == pos);
                    assert(food_at(self@, pos));
                }
                return Square::Food;
            }
            i += 1;
        }
        assert(!food_at(self@, pos));
        let mut s: usize = 0;
        while s < self.snakes.len()
            invariant
                0 <= s <= self.snakes@.len(),
                first_snake_at(self@.snakes, pos, 0) == first_snake_at(self@.snakes, pos, s as int),
                on_grid(self@, pos),
                !food_at(self@, pos),
            decreases self.snakes@.len() - s,
        {
            let body = &self.snakes[s].body;
            let mut j: usize = 0;
            while j < body.len()
                invariant
                    0 <= j <= body@.len(),
                    body@ == self.snakes@[s as int].body@,
                    0 <= s < self.snakes@.len(),
                    forall|l: int| 0 <= l < j ==> body@[l] != pos,
                    first_snake_at(self@.snakes, pos, 0) == first_snake_at(
                        self@.snakes,
                        pos,
                        s as int,
                    ),
                    on_grid(self@, pos),
                    !food_at(self@, pos),
                decreases body@.len() - j,
            {
                if body[j] == pos {
                    proof {
                        assert(self@.snakes[s as int] == self.snakes@[s as int]@);
                        assert(body_hits(self@.snakes[s as int], pos));
                        assert(first_snake_at(self@.snakes, pos, s as int) == Some(s as int));
                    }
                    return Square::Snake(SnakeID(s));
                }
                j += 1;
            }
            proof {
                assert(self@.snakes[s as int] == self.snakes@[s as int]@);
                assert(!body_hits(self@.snakes[s as int], pos));
            }
            s += 1;
        }
        Square::Empty
    }

    /// The agent with identifier `player`.
    pub fn snake(&self, player: SnakeID) -> (r: &Snake)
        requires
            player.0 < self@.snakes.len(),
        ensures
            r@ == self@.snakes[player.0 as int],
    {
        proof {
            assert(self@.snakes[player.0 as int] == self.snakes@[player.0 as int]@);
        }
        &self.snakes[player.0]
    }

    /// Replace the agent with identifier `player`.
    pub fn set_snake(&mut self, player: SnakeID, snake: Snake)
        requires
            player.0 < old(self)@.snakes.len(),
        ensures
            final(self)@ == (BoardV {
                snakes: old(self)@.snakes.update(player.0 as int, snake@),
                ..old(self)@
            }),
    {
        let ghost snk = snake@;
        self.snakes[player.0] = snake;
        proof {
            assert(final(self)@ =~= (BoardV {
                snakes: old(self)@.snakes.update(player.0 as int, snk),
                ..old(self)@
            }));
        }
    }

    /// The agent that moves after `player` in the fixed cyclic turn order.
    pub fn next_player(&self, player: SnakeID) -> (r: SnakeID)
        requires
            player.0 < self@.snakes.len(),
        ensures
            r.0 == next_player_spec(self@, player.0 as int),
            r.0 < self@.snakes.len(),
    {
        let n = self.snakes.len();
        if player.0 + 1 >= n {
            return SnakeID(0);
        }
        SnakeID(player.0 + 1)
    }

    /// The grid as text, one row per line from the top: each cell the
    /// occupying agent's identifier, `F` for food or `_` for empty.
    #[verifier::loop_isolation(false)]
    pub fn render(&self) -> (r: String)
        ensures
            r@ == board_chars(self@),
    {
        let ghost b = self@;
        let mut out = String::new();
        let mut row: isize = 0;
        while row < self.game.height
            invariant
                0 <= row,
                board_chars(b) == out@ + rows_chars(b, row as int),
            decreases self.game.height - row,
        {
            let y = self.game.height - row - 1;
            out.append("  ");
            proof {
                assert(board_chars(b) =~= out@ + row_chars(b, y as int, 0) + "\n"@ + rows_chars(
                    b,
                    row + 1,
                ));
            }
            let mut x: isize = 0;
            while x < self.game.width
                invariant
                    0 <= x,
                    0 <= row < self.game.height,
                    y == self.game.height - row - 1,
                    board_chars(b) == out@ + row_chars(b, y as int, x as int) + "\n"@ + rows_chars(
                        b,
                        row + 1,
                    ),
                decreases self.game.width - x,
            {
                let ghost out0 = out@;
                match self.get(Pos { x, y }) {
                    Square::Snake(id) => {
                        let num = crate::text::usize_string(id.0);
                        out.append(num.as_str());
                        out.append(" ");
                    },
                    Square::Food => out.append("F "),
                    Square::Empty => out.append("_ "),
                    Square::Off => {
                        proof {
                            assert(on_grid(b, Pos { x, y }));
                            assert(false);
                        }
                    },
                }
                proof {
                    assert(out@ =~= out0 + square_chars(b, x as int, y as int));
                    assert(board_chars(b) =~= out@ + row_chars(b, y as int, x + 1) + "\n"@
                        + rows_chars(b, row + 1));
                }
                x += 1;
            }
            out.append("\n");
            proof {
                assert(board_chars(b) =~= out@ + rows_chars(b, row + 1));
            }
            row += 1;
        }
        out
    }

    /// An independent copy of this board, cell for cell.
    pub fn duplicate(&self) -> (r: Board)
        ensures
            r@ == self@,
    {
        let mut snakes: Vec<Snake> = Vec::new();
        let mut i: usize = 0;
        while i < self.snakes.len()
            invariant
                0 <= i <= self.snakes@.len(),
                snakes@.len() == i,
                forall|k: int| 0 <= k < i ==> snakes@[k]@ == self.snakes@[k]@,
            decreases self.snakes@.len() - i,
        {
            snakes.push(self.snakes[i].duplicate());
            i += 1;
        }
        let mut food: Vec<Pos> = Vec::new();
        let mut j: usize = 0;
        while j < self.food.len()
            invariant
                0 <= j <= self.food@.len(),
                food@ == self.food@.take(j as int),
            decreases self.food@.len() - j,
        {
            food.push(self.food[j]);
            proof {
                assert(food@ =~= self.food@.take(j + 1));
            }
            j += 1;
        }
        let r = Board { game: self.game, snakes, food };
        proof {
            assert(self.food@.take(self.food@.len() as int) =~= self.food@);
            assert(r@ =~= self@);
        }
        r
    }
}

impl Snake {
    /// An independent copy of this agent.
    pub fn duplicate(&self) -> (r: Snake)
        ensures
            r@ == self@,
    {
        let mut body: Vec<Pos> = Vec::new();
        let mut i: usize = 0;
        while i < self.body.len()
            invariant
                0 <= i <= self.body@.len(),
                body@ == self.body@.take(i as int),
            decreases self.body@.len() - i,
        {
            body.push(self.body[i]);
            proof {
                assert(body@ =~= self.body@.take(i + 1));
            }
            i += 1;
        }
        proof {
            assert(self.body@.take(self.body@.len() as int) =~= self.body@);
        }
        Snake { body }
    }
}

/// One edge of the search tree: the move taken and the node it leads to.
#[derive(Debug)]
pub struct Edge {
    pub next: Node,
    pub moved: Move,
}

/// One node of the search tree: the board after a move, the outcome of that
/// move, the agent that made it (the next decision belongs to the agent
/// after it in turn order), and the child edges, one per candidate move.
/// A node exclusively owns its children; a terminal node has none.
#[derive(Debug)]
pub struct Node {
    pub board: Board,
    pub edges: Vec<Edge>,
    pub player: SnakeID,
    pub result: Outcome,
}

/// The mathematical value of an edge.
#[verifier::ext_equal]
pub struct EdgeV {
    pub next: NodeV,
    pub moved: Move,
}

/// The mathematical value of a search node.
#[verifier::ext_equal]
pub struct NodeV {
    pub board: BoardV,
    pub edges: Seq<EdgeV>,
    pub player: int,
    pub result: Outcome,
}

/// The mathematical value of a search node, children included.
pub open spec fn node_view(n: Node) -> NodeV
    decreases n,
{
    NodeV {
        board: n.board@,
        edges: edges_view(n.edges@),
        player: n.player.0 as int,
        result: n.result,
    }
}

/// The mathematical values of a sequence of edges.
pub open spec fn edges_view(s: Seq<Edge>) -> Seq<EdgeV>
    decreases s,
{
    if s.len() == 0 {
        Seq::empty()
    } else {
        edges_view(s.drop_last()).push(edge_view(s.last()))
    }
}

/// The mathematical value of an edge.
pub open spec fn edge_view(e: Edge) -> EdgeV
    decreases e,
{
    EdgeV { moved: e.moved, next: node_view(e.next) }
}

/// `edges_view` maps the sequence pointwise.
pub proof fn lemma_edges_view(s: Seq<Edge>)
    ensures
        edges_view(s).len() == s.len(),
        forall|i: int| 0 <= i < s.len() ==> edges_view(s)[i] == edge_view(s[i]),
    decreases s.len(),
{
    if s.len() > 0 {
        lemma_edges_view(s.drop_last());
    }
}

impl Node {
    /// Whether this node is terminal: the recursion's only exit, which every
    /// consumer of the tree must check.
    pub fn is_leaf(&self) -> (r: bool)
        ensures
            r == (node_view(*self).edges.len() == 0),
    {
        proof {
            lemma_edges_view(self.edges@);
        }
        self.edges.is_empty()
    }

    /// The direction the scorer chooses among this node's child edges.
    pub fn pick(&self) -> (r: Move)
        ensures
            r == minmax::pick_spec(node_view(*self)),
    {
        minmax::pick(self)
    }
}

/// The node reached by letting agent `player` take move `m` on board `b`:
/// the successor board together with the tagged outcome of the move.
///
/// The candidate head cell is classified against the pre-move board:
/// off-grid kills the mover and leaves its body unchanged; food is removed
/// and the mover grows by a new head; an empty cell moves the head and
/// vacates the tail; an occupied cell kills the mover unless it lands on
/// the head of a strictly shorter agent, which the mover then kills.
pub open spec fn play_spec(b: BoardV, m: Move, player: int) -> NodeV {
    let body = b.snakes[player];
    let nh = move_next(m, body[0]);
    match classify(b, nh) {
        Square::Off => NodeV { board: b, edges: Seq::empty(), player, result: Outcome::Off },
        Square::Food => {
            let eaten = remove_food_spec(b, nh);
            NodeV {
                board: BoardV {
                    snakes: eaten.snakes.update(player, seq![nh] + body),
                    ..eaten
                },
                edges: Seq::empty(),
                player,
                result: Outcome::Eat,
            }
        },
        Square::Empty => NodeV {
            board: BoardV { snakes: b.snakes.update(player, seq![nh] + body.drop_last()), ..b },
            edges: Seq::empty(),
            player,
            result: Outcome::Nothing,
        },
        Square::Snake(s) => {
            let victim = b.snakes[s.0 as int];
            let result = if body.len() > victim.len() && nh == victim[0] {
                if s.0 == 0 {
                    Outcome::KillMe
                } else {
                    Outcome::Kill
                }
            } else {
                Outcome::Dead
            };
            NodeV {
                board: BoardV { snakes: b.snakes.update(player, seq![nh] + body), ..b },
                edges: Seq::empty(),
                player,
                result,
            }
        },
    }
}

/// A hit reported by `first_food_at` is a real one: the index is in range
/// and that entry sits on the cell; and the entries before it do not.
pub proof fn lemma_first_food_at_range(food: Seq<Pos>, p: Pos, i: int)
    requires
        0 <= i,
    ensures
        match first_food_at(food, p, i) {
            Option::Some(j) => i <= j < food.len() && food[j] == p && forall|k: int|
                i <= k < j ==> food[k] != p,
            Option::None => forall|k: int| i <= k < food.len() ==> food[k] != p,
        },
    decreases food.len() - i,
{
    if i < 0 || i >= food.len() {
    } else if food[i] == p {
    } else {
        lemma_first_food_at_range(food, p, i + 1);
    }
}

/// The board invariant: food entries are pairwise distinct, and food and
/// agent-body cells are independent sets.
pub open spec fn food_independent(b: BoardV) -> bool {
    &&& forall|i: int, j: int| 0 <= i < j < b.food.len() ==> b.food[i] != b.food[j]
    &&& forall|i: int, j: int, k: int|
        0 <= i < b.snakes.len() && 0 <= j < b.snakes[i].len() && 0 <= k < b.food.len()
            ==> #[trigger] b.snakes[i][j] != #[trigger] b.food[k]
}

/// The move simulator preserves the board invariant: a move onto food
/// removes exactly the entry under the new head, and every other head
/// write lands on a cell that held no food.
pub proof fn lemma_play_keeps_food_independent(b: BoardV, m: Move, player: int)
    requires
        wf_board(b),
        food_independent(b),
        0 <= player < b.snakes.len(),
    ensures
        food_independent(play_spec(b, m, player).board),
{
    let body = b.snakes[player];
    let nh = move_next(m, body[0]);
    let r = play_spec(b, m, player).board;
    match classify(b, nh) {
        Square::Off => {},
        Square::Food => {
            lemma_first_food_at_range(b.food, nh, 0);
            let f = first_food_at(b.food, nh, 0)->Some_0;
            let kept = b.food.remove(f);
            assert(b.food[f] == nh);
            // every kept entry is an original entry other than the eaten one
            assert(forall|k: int|
                0 <= k < kept.len() ==> kept[k] == (if k < f {
                    b.food[k]
                } else {
                    b.food[k + 1]
                }));
            // so no kept entry sits on the new head: the entries were distinct
            assert(forall|k: int| 0 <= k < kept.len() ==> kept[k] != nh);
            assert(r.food == kept);
            let nb = seq![nh] + body;
            assert(r.snakes[player] == nb);
            assert forall|i: int, j: int, k: int|
                0 <= i < r.snakes.len() && 0 <= j < r.snakes[i].len() && 0 <= k
                    < r.food.len() implies r.snakes[i][j] != r.food[k] by {
                if i == player {
                    if j == 0 {
                        assert(nb[0] == nh);
                    } else {
                        assert(nb[j] == body[j - 1]);
                    }
                } else {
                    assert(r.snakes[i] == b.snakes[i]);
                }
            }
        },
        Square::Empty => {
            assert(!food_at(b, nh));
            assert(forall|k: int| 0 <= k < b.food.len() ==> b.food[k] != nh);
            let nb = seq![nh] + body.drop_last();
            assert(r.snakes[player] == nb);
            assert forall|i: int, j: int, k: int|
                0 <= i < r.snakes.len() && 0 <= j < r.snakes[i].len() && 0 <= k
                    < r.food.len() implies r.snakes[i][j] != r.food[k] by {
                if i == player {
                    if j == 0 {
                        assert(nb[0] == nh);
                    } else {
                        assert(nb[j] == body[j - 1]);
                    }
                } else {
                    assert(r.snakes[i] == b.snakes[i]);
                }
            }
        },
        Square::Snake(_) => {
            assert(!food_at(b, nh));
            assert(forall|k: int| 0 <= k < b.food.len() ==> b.food[k] != nh);
            let nb = seq![nh] + body;
            assert(r.snakes[player] == nb);
            assert forall|i: int, j: int, k: int|
                0 <= i < r.snakes.len() && 0 <= j < r.snakes[i].len() && 0 <= k
                    < r.food.len() implies r.snakes[i][j] != r.food[k] by {
                if i == player {
                    if j == 0 {
                        assert(nb[0] == nh);
                    } else {
                        assert(nb[j] == body[j - 1]);
                    }
                } else {
                    assert(r.snakes[i] == b.snakes[i]);
                }
            }
        },
    }
}

/// A successor board is well formed whenever the source board is, and the
/// number of agents and the grid never change.
pub proof fn lemma_play_spec_wf(b: BoardV, m: Move, player: int)
    requires
        wf_board(b),
        0 <= player < b.snakes.len(),
    ensures
        wf_board(play_spec(b, m, player).board),
        play_spec(b, m, player).board.snakes.len() == b.snakes.len(),
        play_spec(b, m, player).board.game == b.game,
{
    let body = b.snakes[player];
    let nh = move_next(m, body[0]);
    if classify(b, nh) is Off {
    } else {
        assert(on_grid(b, nh));
        assert(pos_in_bounds(nh));
    }
}

} // verus!
