use vstd::prelude::*;

verus! {

use crate::shapes::{
    shape_offsets, shape_color_index, shape_name, offsets_wf, in_box, lemma_shape_offsets_wf,
    orientation_cells, kind_color_index, color_from_index, all_kinds, is_bag, is_bag_concat,
    lemma_bag_concat_append, lemma_bag_concat_window, generate_bag,
};

pub const BOARD_WIDTH: usize = 10;

pub const BOARD_HEIGHT: usize = 20;

/// Board cell grid: a cell is None if empty, Some(color code) if occupied.
pub type Board = Vec<Vec<Option<u8>>>;

/// A positioned, oriented piece: shape kind index, orientation in [0,4),
/// and the board position of its origin.
#[derive(Clone)]
pub struct Tetromino {
    pub shape_idx: usize,
    pub orientation: usize,
    pub x: i32,
    pub y: i32,
}

impl Tetromino {
    /// A piece names a real kind and a real orientation.
    pub open spec fn wf(self) -> bool {
        self.shape_idx < 7 && self.orientation < 4
    }

    /// The piece's cell offsets in its current orientation.
    pub open spec fn offsets(self) -> Seq<(i32, i32)> {
        shape_offsets(self.shape_idx as int, self.orientation as int)
    }

    /// The four cell offsets of the current orientation.
    pub fn cells(&self) -> (r: Vec<(i32, i32)>)
        requires
            self.wf(),
        ensures
            r@ == self.offsets(),
    {
        orientation_cells(self.shape_idx, self.orientation)
    }

    /// The four absolute board cells: origin plus each offset.
    pub fn positions(&self) -> (r: Vec<(i32, i32)>)
        requires
            self.wf(),
            self.x + 3 <= i32::MAX,
            self.y + 3 <= i32::MAX,
        ensures
            r@.len() == 4,
            forall|i: int|
                0 <= i < 4 ==> (#[trigger] r@[i]).0 == self.x + self.offsets()[i].0 && r@[i].1
                    == self.y + self.offsets()[i].1,
    {
        proof {
            lemma_shape_offsets_wf(self.shape_idx as int, self.orientation as int);
        }
        let cs = self.cells();
        let mut r: Vec<(i32, i32)> = Vec::new();
        let mut i: usize = 0;
        while i < 4
            invariant
                self.wf(),
                self.x + 3 <= i32::MAX,
                self.y + 3 <= i32::MAX,
                offsets_wf(self.offsets()),
                cs@ == self.offsets(),
                i <= 4,
                r@.len() == i,
                forall|j: int|
                    0 <= j < i ==> (#[trigger] r@[j]).0 == self.x + self.offsets()[j].0 && r@[j].1
                        == self.y + self.offsets()[j].1,
            decreases 4 - i,
        {
            let (ox, oy) = cs[i];
            r.push((self.x + ox, self.y + oy));
            i = i + 1;
        }
        r
    }

    /// Advance the orientation clockwise, modulo four.
    pub fn rotate_cw(&mut self)
        requires
            old(self).wf(),
        ensures
            final(self).orientation == (old(self).orientation + 1) % 4,
            final(self).shape_idx == old(self).shape_idx,
            final(self).x == old(self).x,
            final(self).y == old(self).y,
    {
        self.orientation = (self.orientation + 1) % 4;
    }

    /// Retreat the orientation counterclockwise, modulo four.
    pub fn rotate_ccw(&mut self)
        requires
            old(self).wf(),
        ensures
            final(self).orientation == (old(self).orientation + 3) % 4,
            final(self).shape_idx == old(self).shape_idx,
            final(self).x == old(self).x,
            final(self).y == old(self).y,
    {
        self.orientation = (self.orientation + 3) % 4;
    }

    /// The terminal color of this piece's kind.
    pub fn color(&self) -> crossterm::style::Color
        requires
            self.wf(),
    {
        color_from_index(kind_color_index(self.shape_idx))
    }

    /// The one-character display name of this piece's kind.
    pub fn name(&self) -> (r: char)
        requires
            self.wf(),
        ensures
            r == shape_name(self.shape_idx as int),
    {
        match self.shape_idx {
            0 => 'I',
            1 => 'O',
            2 => 'T',
            3 => 'S',
            4 => 'Z',
            5 => 'J',
            _ => 'L',
        }
    }
}

/// The grid has its fixed dimensions.
pub open spec fn board_wf(b: Seq<Seq<Option<u8>>>) -> bool {
    b.len() == BOARD_HEIGHT && forall|y: int|
        0 <= y < BOARD_HEIGHT ==> (#[trigger] b[y]).len() == BOARD_WIDTH
}

/// The cell at (x, y) lies on the board and is empty.
pub open spec fn cell_free(b: Seq<Seq<Option<u8>>>, x: int, y: int) -> bool {
    0 <= x < BOARD_WIDTH && 0 <= y < BOARD_HEIGHT && b[y][x] is None
}

/// A piece of kind `s` in orientation `o` with its origin at (x, y) fits:
/// all four of its cells are on the board and empty.
pub open spec fn kind_fits(b: Seq<Seq<Option<u8>>>, s: int, o: int, x: int, y: int) -> bool {
    forall|i: int|
        0 <= i < 4 ==> cell_free(
            b,
            x + (#[trigger] shape_offsets(s, o)[i]).0,
            y + shape_offsets(s, o)[i].1,
        )
}

/// The given piece fits the board.
pub open spec fn piece_fits(b: Seq<Seq<Option<u8>>>, p: Tetromino) -> bool {
    kind_fits(b, p.shape_idx as int, p.orientation as int, p.x as int, p.y as int)
}

/// The fixed wall-kick offsets, tried in this exact order.
pub open spec fn kick_offsets() -> Seq<(i32, i32)> {
    seq![
        (1i32, 0i32),
        (-1i32, 0i32),
        (2i32, 0i32),
        (-2i32, 0i32),
        (0i32, -1i32),
        (1i32, -1i32),
        (-1i32, -1i32),
    ]
}

/// Index of the first kick offset at or after `k` that yields a free
/// position, or 7 if none does.
pub open spec fn first_kick_from(
    b: Seq<Seq<Option<u8>>>,
    s: int,
    o: int,
    x: int,
    y: int,
    k: int,
) -> int
    decreases 7 - k,
{
    if k < 0 || k >= 7 {
        7
    } else if kind_fits(b, s, o, x + kick_offsets()[k].0, y + kick_offsets()[k].1) {
        k
    } else {
        first_kick_from(b, s, o, x, y, k + 1)
    }
}

/// Index of the first kick offset that yields a free position, or 7.
pub open spec fn first_kick(b: Seq<Seq<Option<u8>>>, s: int, o: int, x: int, y: int) -> int {
    first_kick_from(b, s, o, x, y, 0)
}

proof fn lemma_first_kick_prefix(b: Seq<Seq<Option<u8>>>, s: int, o: int, x: int, y: int, k: int)
    requires
        0 <= k <= 7,
        forall|j: int|
            0 <= j < k ==> !kind_fits(
                b,
                s,
                o,
                x + (#[trigger] kick_offsets()[j]).0,
                y + kick_offsets()[j].1,
            ),
    ensures
        first_kick(b, s, o, x, y) == first_kick_from(b, s, o, x, y, k),
    decreases k,
{
    if k > 0 {
        lemma_first_kick_prefix(b, s, o, x, y, k - 1);
        assert(!kind_fits(b, s, o, x + kick_offsets()[k - 1].0, y + kick_offsets()[k - 1].1));
    }
}

/// Cell (x, y) is one of the first `n` cells of the piece.
pub open spec fn piece_covers_prefix(p: Tetromino, x: int, y: int, n: int) -> bool {
    exists|i: int|
        0 <= i < n && x == p.x + (#[trigger] shape_offsets(
            p.shape_idx as int,
            p.orientation as int,
        )[i]).0 && y == p.y + shape_offsets(p.shape_idx as int, p.orientation as int)[i].1
}

/// Cell (x, y) is one of the four cells of the piece.
pub open spec fn piece_covers(p: Tetromino, x: int, y: int) -> bool {
    piece_covers_prefix(p, x, y, 4)
}

proof fn lemma_covers_prefix_step(p: Tetromino, x: int, y: int, n: int)
    requires
        0 <= n < 4,
    ensures
        piece_covers_prefix(p, x, y, n + 1) <==> (piece_covers_prefix(p, x, y, n) || (x == p.x
            + shape_offsets(p.shape_idx as int, p.orientation as int)[n].0 && y == p.y
            + shape_offsets(p.shape_idx as int, p.orientation as int)[n].1)),
{
    let s = p.shape_idx as int;
    let o = p.orientation as int;
    if piece_covers_prefix(p, x, y, n + 1) {
        let i = choose|i: int|
            0 <= i < n + 1 && x == p.x + (#[trigger] shape_offsets(s, o)[i]).0 && y == p.y
                + shape_offsets(s, o)[i].1;
        if i < n {
            assert(piece_covers_prefix(p, x, y, n));
        }
    }
    if x == p.x + shape_offsets(s, o)[n].0 && y == p.y + shape_offsets(s, o)[n].1 {
        assert(0 <= n < n + 1 && x == p.x + (shape_offsets(s, o)[n]).0 && y == p.y
            + shape_offsets(s, o)[n].1);
        assert(piece_covers_prefix(p, x, y, n + 1));
    }
}

/// The board after the piece's in-bounds cells are written with its color;
/// cells that fall off the board are skipped.
pub open spec fn locked_rows(b: Seq<Seq<Option<u8>>>, p: Tetromino) -> Seq<Seq<Option<u8>>> {
    Seq::new(
        BOARD_HEIGHT as nat,
        |y: int|
            Seq::new(
                BOARD_WIDTH as nat,
                |x: int|
                    if piece_covers(p, x, y) {
                        Some(shape_color_index(p.shape_idx as int))
                    } else {
                        b[y][x]
                    },
            ),
    )
}

/// Every cell of the row is occupied.
pub open spec fn row_full(r: Seq<Option<u8>>) -> bool {
    forall|x: int| 0 <= x < r.len() ==> (#[trigger] r[x]) is Some
}

/// The rows that survive a clearing pass, in order: all rows that are not
/// full.
pub open spec fn kept_rows(b: Seq<Seq<Option<u8>>>) -> Seq<Seq<Option<u8>>> {
    b.filter(|r: Seq<Option<u8>>| !row_full(r))
}

/// How many rows of the board are full.
pub open spec fn num_full(b: Seq<Seq<Option<u8>>>) -> int {
    b.len() - kept_rows(b).len()
}

/// A row of empty cells.
pub open spec fn empty_row() -> Seq<Option<u8>> {
    Seq::new(BOARD_WIDTH as nat, |x: int| None)
}

/// The board after a clearing pass: one fresh empty row on top for every
/// full row removed, then the surviving rows in their original order.
pub open spec fn cleared_rows(b: Seq<Seq<Option<u8>>>) -> Seq<Seq<Option<u8>>> {
    Seq::new(num_full(b) as nat, |i: int| empty_row()) + kept_rows(b)
}

/// Base points for clearing `n` rows at once.
pub open spec fn base_points(n: int) -> int {
    if n == 1 {
        40
    } else if n == 2 {
        100
    } else if n == 3 {
        300
    } else if n == 4 {
        1200
    } else {
        0
    }
}

/// Points awarded for clearing `n` rows at the given level.
pub open spec fn score_for_lines(n: int, level: int) -> int {
    base_points(n) * (level + 1)
}

/// How many single steps down the piece can take before the position one
/// row below stops being free, looking at most `k` steps ahead.
pub open spec fn fall_steps_from(
    b: Seq<Seq<Option<u8>>>,
    s: int,
    o: int,
    x: int,
    y: int,
    k: nat,
) -> int
    decreases k,
{
    if k == 0 {
        0
    } else if kind_fits(b, s, o, x, y + 1) {
        1 + fall_steps_from(b, s, o, x, y + 1, (k - 1) as nat)
    } else {
        0
    }
}

/// The distance the active piece falls on a hard drop: single steps down
/// until the row below is blocked.
pub open spec fn fall_distance(b: Seq<Seq<Option<u8>>>, p: Tetromino) -> int {
    fall_steps_from(b, p.shape_idx as int, p.orientation as int, p.x as int, p.y as int, 23)
}

/// The gravity interval, in milliseconds, at a given level.
pub open spec fn interval_spec(level: int) -> int {
    if level >= 10 {
        100
    } else {
        500 - 40 * level
    }
}

/// Main game state: board, active piece, held piece, piece supply,
/// scoring, leveling, gravity timing, and the game-over flag.
pub struct Game {
    pub board: Board,
    pub current_piece: Tetromino,
    pub hold_piece: Option<Tetromino>,
    pub can_hold: bool,
    pub bag: Vec<usize>,
    pub next_bag: Vec<usize>,
    pub next_queue: Vec<usize>,
    pub last_tick: u64,
    pub fall_interval: u64,
    pub level: u32,
    pub score: u32,
    pub lines_cleared: u32,
    pub game_over: bool,
    /// History of every kind the supply has handed out, in order.
    pub drawn: Ghost<Seq<usize>>,
}

impl Game {
    /// The board as a sequence of rows of cells.
    pub open spec fn board_rows(self) -> Seq<Seq<Option<u8>>> {
        self.board@.map_values(|r: Vec<Option<u8>>| r@)
    }

    /// The whole supply stream: kinds already drawn, then the lookahead
    /// queue, the rest of the current bag, and the bag after it.
    pub open spec fn supply_stream(self) -> Seq<usize> {
        self.drawn@ + self.next_queue@ + self.bag@ + self.next_bag@
    }

    /// Everything the invariant asks of the state, except that the
    /// lookahead queue is stocked.
    pub open spec fn core_wf(self) -> bool {
        &&& board_wf(self.board_rows())
        &&& self.current_piece.wf()
        &&& -3 <= self.current_piece.x <= 9
        &&& -3 <= self.current_piece.y <= 19
        &&& match self.hold_piece {
            Some(h) => h.wf(),
            None => true,
        }
        &&& all_kinds(self.next_queue@)
        &&& all_kinds(self.bag@)
        &&& is_bag(self.next_bag@)
        &&& is_bag_concat(self.supply_stream())
        &&& self.level == self.lines_cleared / 10
        &&& self.fall_interval == interval_spec(self.level as int)
    }

    /// The game invariant: every operation preserves it.
    pub open spec fn wf(self) -> bool {
        self.core_wf() && self.next_queue@.len() >= 2
    }

    /// All fields except the active piece are unchanged.
    pub open spec fn same_but_piece(pre: Game, post: Game) -> bool {
        &&& post.board == pre.board
        &&& post.hold_piece == pre.hold_piece
        &&& post.can_hold == pre.can_hold
        &&& post.bag == pre.bag
        &&& post.next_bag == pre.next_bag
        &&& post.next_queue == pre.next_queue
        &&& post.last_tick == pre.last_tick
        &&& post.fall_interval == pre.fall_interval
        &&& post.level == pre.level
        &&& post.score == pre.score
        &&& post.lines_cleared == pre.lines_cleared
        &&& post.game_over == pre.game_over
        &&& post.drawn == pre.drawn
    }

    /// True iff all four of `piece`'s cells are on the board and empty.
    pub fn is_valid_position(&self, piece: &Tetromino) -> (r: bool)
        requires
            self.wf(),
            piece.wf(),
        ensures
            r == piece_fits(self.board_rows(), *piece),
    {
        proof {
            lemma_shape_offsets_wf(piece.shape_idx as int, piece.orientation as int);
        }
        if piece.x < -3 || piece.x > 9 || piece.y < -3 || piece.y > 19 {
            proof {
                let s = piece.shape_idx as int;
                let o = piece.orientation as int;
                assert(!cell_free(
                    self.board_rows(),
                    piece.x + shape_offsets(s, o)[0].0,
                    piece.y + shape_offsets(s, o)[0].1,
                ));
            }
            return false;
        }
        let cs = piece.positions();
        let mut i: usize = 0;
        while i < 4
            invariant
                self.wf(),
                piece.wf(),
                i <= 4,
                offsets_wf(piece.offsets()),
                cs@.len() == 4,
                forall|j: int|
                    0 <= j < 4 ==> (#[trigger] cs@[j]).0 == piece.x + piece.offsets()[j].0
                        && cs@[j].1 == piece.y + piece.offsets()[j].1,
                forall|j: int|
                    0 <= j < i ==> cell_free(self.board_rows(), cs@[j].0 as int, cs@[j].1 as int),
            decreases 4 - i,
        {
            let (px, py) = cs[i];
            if px < 0 || px >= BOARD_WIDTH as i32 || py < 0 || py >= BOARD_HEIGHT as i32 {
                return false;
            }
            proof {
                assert(self.board_rows()[py as int] == self.board@[py as int]@);
            }
            let row = &self.board[py as usize];
            if row[px as usize].is_some() {
                return false;
            }
            i = i + 1;
        }
        proof {
            let b = self.board_rows();
            let s = piece.shape_idx as int;
            let o = piece.orientation as int;
            assert forall|i: int|
                0 <= i < 4 implies cell_free(
                b,
                piece.x + (#[trigger] shape_offsets(s, o)[i]).0,
                piece.y + shape_offsets(s, o)[i].1,
            ) by {
                assert(cell_free(b, cs@[i].0 as int, cs@[i].1 as int));
            }
        }
        true
    }

    /// Shift the active piece by (dx, dy) if the shifted position is free;
    /// otherwise leave the state unchanged and report failure.
    pub fn try_move(&mut self, dx: i32, dy: i32) -> (r: bool)
        requires
            old(self).wf(),
        ensures
            final(self).wf(),
            r == kind_fits(
                old(self).board_rows(),
                old(self).current_piece.shape_idx as int,
                old(self).current_piece.orientation as int,
                old(self).current_piece.x + dx,
                old(self).current_piece.y + dy,
            ),
            Game::same_but_piece(*old(self), *final(self)),
            final(self).current_piece.shape_idx == old(self).current_piece.shape_idx,
            final(self).current_piece.orientation == old(self).current_piece.orientation,
            r ==> final(self).current_piece.x == old(self).current_piece.x + dx
                && final(self).current_piece.y == old(self).current_piece.y + dy,
            !r ==> final(self).current_piece == old(self).current_piece,
    {
        proof {
            lemma_shape_offsets_wf(
                self.current_piece.shape_idx as int,
                self.current_piece.orientation as int,
            );
        }
        let nx = self.current_piece.x as i64 + dx as i64;
        let ny = self.current_piece.y as i64 + dy as i64;
        if nx < -3 || nx > 9 || ny < -3 || ny > 19 {
            proof {
                let s = self.current_piece.shape_idx as int;
                let o = self.current_piece.orientation as int;
                assert(!cell_free(
                    self.board_rows(),
                    self.current_piece.x + dx + shape_offsets(s, o)[0].0,
                    self.current_piece.y + dy + shape_offsets(s, o)[0].1,
                ));
            }
            return false;
        }
        let cand = Tetromino {
            shape_idx: self.current_piece.shape_idx,
            orientation: self.current_piece.orientation,
            x: nx as i32,
            y: ny as i32,
        };
        if self.is_valid_position(&cand) {
            self.current_piece = cand;
            true
        } else {
            false
        }
    }

    /// What a rotation attempt to orientation `no` does: commit in place if
    /// the turned piece fits, else apply the first kick offset that makes it
    /// fit, else leave the piece exactly as it was.
    pub open spec fn rotate_step(pre: Game, post: Game, no: int) -> bool {
        let b = pre.board_rows();
        let p = pre.current_piece;
        let s = p.shape_idx as int;
        let x = p.x as int;
        let y = p.y as int;
        &&& Game::same_but_piece(pre, post)
        &&& post.current_piece.shape_idx == p.shape_idx
        &&& if kind_fits(b, s, no, x, y) {
            post.current_piece.orientation == no && post.current_piece.x == p.x
                && post.current_piece.y == p.y
        } else {
            let k = first_kick(b, s, no, x, y);
            if k < 7 {
                post.current_piece.orientation == no && post.current_piece.x == x
                    + kick_offsets()[k].0 && post.current_piece.y == y + kick_offsets()[k].1
            } else {
                post.current_piece == p
            }
        }
    }

    /// The kick offset tried at position `k` of the fixed sequence.
    fn kick_offset(k: usize) -> (r: (i32, i32))
        requires
            k < 7,
        ensures
            r.0 == kick_offsets()[k as int].0,
            r.1 == kick_offsets()[k as int].1,
            -2 <= r.0 <= 2,
            -1 <= r.1 <= 0,
    {
        match k {
            0 => (1, 0),
            1 => (-1, 0),
            2 => (2, 0),
            3 => (-2, 0),
            4 => (0, -1),
            5 => (1, -1),
            _ => (-1, -1),
        }
    }

    /// Try the fixed kick offsets in order; commit the first one whose
    /// shifted position is free.
    fn do_wallkick(&mut self) -> (r: bool)
        requires
            old(self).wf(),
        ensures
            final(self).wf(),
            Game::same_but_piece(*old(self), *final(self)),
            final(self).current_piece.shape_idx == old(self).current_piece.shape_idx,
            final(self).current_piece.orientation == old(self).current_piece.orientation,
            ({
                let b = old(self).board_rows();
                let p = old(self).current_piece;
                let k = first_kick(b, p.shape_idx as int, p.orientation as int, p.x as int, p.y as int);
                if k < 7 {
                    r && final(self).current_piece.x == p.x + kick_offsets()[k].0
                        && final(self).current_piece.y == p.y + kick_offsets()[k].1
                } else {
                    !r && final(self).current_piece == p
                }
            }),
    {
        let orig_x = self.current_piece.x;
        let orig_y = self.current_piece.y;
        let mut k: usize = 0;
        while k < 7
            invariant
                old(self).wf(),
                *self == *old(self),
                orig_x == old(self).current_piece.x,
                orig_y == old(self).current_piece.y,
                k <= 7,
                forall|j: int|
                    0 <= j < k ==> !kind_fits(
                        old(self).board_rows(),
                        old(self).current_piece.shape_idx as int,
                        old(self).current_piece.orientation as int,
                        old(self).current_piece.x + (#[trigger] kick_offsets()[j]).0,
                        old(self).current_piece.y + kick_offsets()[j].1,
                    ),
            decreases 7 - k,
        {
            let (ox, oy) = Self::kick_offset(k);
            let cand = Tetromino {
                shape_idx: self.current_piece.shape_idx,
                orientation: self.current_piece.orientation,
                x: orig_x + ox,
                y: orig_y + oy,
            };
            if self.is_valid_position(&cand) {
                proof {
                    lemma_first_kick_prefix(
                        old(self).board_rows(),
                        old(self).current_piece.shape_idx as int,
                        old(self).current_piece.orientation as int,
                        old(self).current_piece.x as int,
                        old(self).current_piece.y as int,
                        k as int,
                    );
                    lemma_fits_bounds(old(self).board_rows(), cand);
                }
                self.current_piece = cand;
                return true;
            }
            k = k + 1;
        }
        proof {
            lemma_first_kick_prefix(
                old(self).board_rows(),
                old(self).current_piece.shape_idx as int,
                old(self).current_piece.orientation as int,
                old(self).current_piece.x as int,
                old(self).current_piece.y as int,
                7,
            );
        }
        false
    }

    /// All fields except the board are unchanged.
    pub open spec fn same_but_board(pre: Game, post: Game) -> bool {
        &&& post.current_piece == pre.current_piece
        &&& post.hold_piece == pre.hold_piece
        &&& post.can_hold == pre.can_hold
        &&& post.bag == pre.bag
        &&& post.next_bag == pre.next_bag
        &&& post.next_queue == pre.next_queue
        &&& post.last_tick == pre.last_tick
        &&& post.fall_interval == pre.fall_interval
        &&& post.level == pre.level
        &&& post.score == pre.score
        &&& post.lines_cleared == pre.lines_cleared
        &&& post.game_over == pre.game_over
        &&& post.drawn == pre.drawn
    }

    /// Write the active piece's color into each of its in-bounds cells;
    /// cells that fall off the board are silently skipped.
    pub fn lock_piece(&mut self)
        requires
            old(self).wf(),
        ensures
            final(self).wf(),
            Game::same_but_board(*old(self), *final(self)),
            final(self).board_rows() == locked_rows(
                old(self).board_rows(),
                old(self).current_piece,
            ),
    {
        proof {
            lemma_shape_offsets_wf(
                self.current_piece.shape_idx as int,
                self.current_piece.orientation as int,
            );
        }
        let cs = self.current_piece.positions();
        let color = kind_color_index(self.current_piece.shape_idx);
        let ghost p = old(self).current_piece;
        let ghost s = p.shape_idx as int;
        let ghost o = p.orientation as int;
        let mut i: usize = 0;
        while i < 4
            invariant
                old(self).wf(),
                Game::same_but_board(*old(self), *self),
                self.current_piece == p,
                s == p.shape_idx as int,
                o == p.orientation as int,
                board_wf(self.board_rows()),
                i <= 4,
                offsets_wf(shape_offsets(s, o)),
                color == shape_color_index(s),
                cs@.len() == 4,
                forall|j: int|
                    0 <= j < 4 ==> (#[trigger] cs@[j]).0 == p.x + shape_offsets(s, o)[j].0
                        && cs@[j].1 == p.y + shape_offsets(s, o)[j].1,
                forall|y: int, x: int|
                    #![trigger self.board_rows()[y][x]]
                    0 <= y < BOARD_HEIGHT && 0 <= x < BOARD_WIDTH ==> self.board_rows()[y][x] == (
                    if piece_covers_prefix(p, x, y, i as int) {
                        Some(shape_color_index(s))
                    } else {
                        old(self).board_rows()[y][x]
                    }),
            decreases 4 - i,
        {
            let (px, py) = cs[i];
            let ghost pre_rows = self.board_rows();
            let ghost pre_board = self.board@;
            if px >= 0 && px < BOARD_WIDTH as i32 && py >= 0 && py < BOARD_HEIGHT as i32 {
                proof {
                    assert(self.board_rows()[py as int] == self.board@[py as int]@);
                }
                let mut row = copy_row(&self.board[py as usize]);
                row[px as usize] = Some(color);
                let ghost new_row = row@;
                self.board[py as usize] = row;
                proof {
                    assert(new_row == pre_rows[py as int].update(
                        px as int,
                        Some(shape_color_index(s)),
                    ));
                    assert forall|y: int| 0 <= y < BOARD_HEIGHT implies self.board_rows()[y] == (
                    if y == py as int {
                        new_row
                    } else {
                        pre_rows[y]
                    }) by {
                        if y == py as int {
                            assert(self.board@[y]@ == new_row);
                        } else {
                            assert(self.board@[y] == pre_board[y]);
                        }
                    }
                }
            }
            proof {
                assert forall|y: int, x: int|
                    #![trigger self.board_rows()[y][x]]
                    0 <= y < BOARD_HEIGHT && 0 <= x < BOARD_WIDTH implies self.board_rows()[y][x]
                    == (if piece_covers_prefix(p, x, y, i + 1) {
                    Some(shape_color_index(s))
                } else {
                    old(self).board_rows()[y][x]
                }) by {
                    lemma_covers_prefix_step(p, x, y, i as int);
                    assert(pre_rows[y][x] == (if piece_covers_prefix(p, x, y, i as int) {
                        Some(shape_color_index(s))
                    } else {
                        old(self).board_rows()[y][x]
                    }));
                }
            }
            i = i + 1;
        }
        proof {
            let lr = locked_rows(old(self).board_rows(), p);
            assert forall|y: int| 0 <= y < BOARD_HEIGHT implies self.board_rows()[y] =~= lr[y] by {
                assert forall|x: int| 0 <= x < BOARD_WIDTH implies self.board_rows()[y][x]
                    == lr[y][x] by {
                    assert(self.board_rows()[y][x] == (if piece_covers_prefix(p, x, y, 4) {
                        Some(shape_color_index(s))
                    } else {
                        old(self).board_rows()[y][x]
                    }));
                }
            }
            assert(self.board_rows() =~= lr);
        }
    }

    /// Base points for clearing `lines` rows, multiplied by level + 1.
    pub fn line_clear_score(&self, lines: usize) -> (r: u32)
        requires
            1200 * (self.level + 1) <= u32::MAX,
        ensures
            r == score_for_lines(lines as int, self.level as int),
            r <= 1200 * (self.level + 1),
    {
        let base: u32 = match lines {
            1 => 40,
            2 => 100,
            3 => 300,
            4 => 1200,
            _ => 0,
        };
        proof {
            assert((base as int) * (self.level as int + 1) <= 1200 * (self.level as int + 1))
                by (nonlinear_arith)
                requires
                    base as int <= 1200,
                    self.level as int >= 0,
            ;
        }
        base * (self.level + 1)
    }

    /// Remove every full row, shift what is above it down, and put fresh
    /// empty rows on top; award points and update the line count, the
    /// level, and the gravity interval.
    pub fn clear_lines(&mut self)
        requires
            old(self).wf(),
            old(self).score + 1200 * (old(self).level + 1) <= u32::MAX,
            old(self).lines_cleared + BOARD_HEIGHT <= u32::MAX,
        ensures
            final(self).wf(),
            final(self).board_rows() == cleared_rows(old(self).board_rows()),
            final(self).lines_cleared == old(self).lines_cleared + num_full(
                old(self).board_rows(),
            ),
            final(self).score == old(self).score + score_for_lines(
                num_full(old(self).board_rows()),
                old(self).level as int,
            ),
            final(self).level == final(self).lines_cleared / 10,
            final(self).fall_interval == interval_spec(final(self).level as int),
            final(self).current_piece == old(self).current_piece,
            final(self).hold_piece == old(self).hold_piece,
            final(self).can_hold == old(self).can_hold,
            final(self).bag == old(self).bag,
            final(self).next_bag == old(self).next_bag,
            final(self).next_queue == old(self).next_queue,
            final(self).last_tick == old(self).last_tick,
            final(self).game_over == old(self).game_over,
            final(self).drawn == old(self).drawn,
    {
        let ghost b0 = old(self).board_rows();
        let mut kept: Vec<Vec<Option<u8>>> = Vec::new();
        let mut y: usize = 0;
        while y < BOARD_HEIGHT
            invariant
                old(self).wf(),
                *self == *old(self),
                b0 == old(self).board_rows(),
                y <= BOARD_HEIGHT,
                kept@.len() <= y,
                kept@.map_values(|r: Vec<Option<u8>>| r@) == kept_rows(b0.take(y as int)),
                forall|j: int| 0 <= j < kept@.len() ==> (#[trigger] kept@[j])@.len() == BOARD_WIDTH,
            decreases BOARD_HEIGHT - y,
        {
            proof {
                assert(self.board_rows()[y as int] == self.board@[y as int]@);
            }
            let full = row_full_exec(&self.board[y]);
            let ghost pre_map = kept@.map_values(|r: Vec<Option<u8>>| r@);
            if !full {
                let row = copy_row(&self.board[y]);
                kept.push(row);
                proof {
                    assert(kept@.map_values(|r: Vec<Option<u8>>| r@) =~= pre_map.push(
                        b0[y as int],
                    ));
                }
            }
            proof {
                reveal_with_fuel(Seq::filter, 2);
                let t = b0.take(y as int + 1);
                assert(t.len() == y + 1);
                assert(t.drop_last() =~= b0.take(y as int));
                assert(t.last() == b0[y as int]);
                assert(kept_rows(t) == if !row_full(b0[y as int]) {
                    kept_rows(b0.take(y as int)).push(b0[y as int])
                } else {
                    kept_rows(b0.take(y as int))
                });
            }
            y = y + 1;
        }
        proof {
            assert(b0.take(BOARD_HEIGHT as int) =~= b0);
        }
        let n: usize = BOARD_HEIGHT - kept.len();
        proof {
            assert(num_full(b0) == n as int);
        }
        let mut newb: Vec<Vec<Option<u8>>> = Vec::new();
        let mut i: usize = 0;
        while i < n
            invariant
                i <= n,
                newb@.len() == i,
                forall|j: int| 0 <= j < i ==> (#[trigger] newb@[j])@ == empty_row(),
            decreases n - i,
        {
            newb.push(empty_row_exec());
            i = i + 1;
        }
        let ghost kept_map = kept@.map_values(|r: Vec<Option<u8>>| r@);
        let ghost n_empty = newb@.len();
        newb.append(&mut kept);
        self.board = newb;
        proof {
            assert forall|j: int| 0 <= j < BOARD_HEIGHT implies self.board_rows()[j] == cleared_rows(
                b0,
            )[j] by {
                assert(self.board_rows()[j] == self.board@[j]@);
                if j < n_empty {
                    assert(self.board@[j]@ == empty_row());
                } else {
                    assert(self.board@[j]@ == kept_map[j - n_empty]);
                }
            }
            assert(self.board_rows() =~= cleared_rows(b0));
        }
        let cleared_count = n;
        if cleared_count > 0 {
            let pts = self.line_clear_score(cleared_count);
            self.score = self.score + pts;
            self.lines_cleared = self.lines_cleared + cleared_count as u32;
            if self.lines_cleared / 10 > self.level {
                self.level = self.lines_cleared / 10;
                let dec: u64 = (self.level as u64) * 40;
                self.fall_interval = if dec >= 400 {
                    100
                } else {
                    500 - dec
                };
            } else {
                proof {
                    vstd::arithmetic::div_mod::lemma_div_is_ordered(
                        old(self).lines_cleared as int,
                        self.lines_cleared as int,
                        10,
                    );
                }
            }
        }
    }

    /// A fresh game: an empty 20-by-10 board, zero score, level and line
    /// count, a stocked lookahead, and the first piece at the spawn
    /// position.
    pub fn new() -> (g: Game)
        ensures
            g.wf(),
            g.board_rows() == Seq::new(BOARD_HEIGHT as nat, |y: int| empty_row()),
            g.score == 0,
            g.level == 0,
            g.lines_cleared == 0,
            g.game_over == false,
            g.hold_piece is None,
            g.can_hold == true,
            g.current_piece.orientation == 0,
            g.current_piece.x == 3,
            g.current_piece.y == 0,
            g.current_piece.shape_idx < 7,
            g.fall_interval == 500,
            g.last_tick == 0,
            g.drawn@.len() == 1,
            g.drawn@[0] == g.current_piece.shape_idx,
    {
        let mut board: Vec<Vec<Option<u8>>> = Vec::new();
        let mut y: usize = 0;
        while y < BOARD_HEIGHT
            invariant
                y <= BOARD_HEIGHT,
                board@.len() == y,
                forall|j: int| 0 <= j < y ==> (#[trigger] board@[j])@ == empty_row(),
            decreases BOARD_HEIGHT - y,
        {
            board.push(empty_row_exec());
            y = y + 1;
        }
        let bag = generate_bag();
        let next_bag = generate_bag();
        let mut g = Game {
            board,
            current_piece: Tetromino { shape_idx: 0, orientation: 0, x: 3, y: 0 },
            hold_piece: None,
            can_hold: true,
            bag,
            next_bag,
            next_queue: Vec::new(),
            last_tick: 0,
            fall_interval: 500,
            level: 0,
            score: 0,
            lines_cleared: 0,
            game_over: false,
            drawn: Ghost(Seq::empty()),
        };
        proof {
            assert forall|j: int| 0 <= j < BOARD_HEIGHT implies (#[trigger] g.board_rows()[j])
                == empty_row() by {
                assert(g.board_rows()[j] == g.board@[j]@);
            }
            assert(g.supply_stream() =~= g.bag@ + g.next_bag@);
            let s = g.bag@ + g.next_bag@;
            assert(s.take(7) =~= g.bag@);
            assert(s.skip(7) =~= g.next_bag@);
            assert(g.next_bag@.take(7) =~= g.next_bag@);
            assert(g.next_bag@.skip(7).len() == 0);
            assert(is_bag_concat(g.next_bag@.skip(7)));
            assert(is_bag_concat(g.next_bag@));
            assert(is_bag_concat(s));
            assert(g.core_wf());
        }
        g.spawn_next_piece();
        proof {
            let p = g.current_piece;
            let s = p.shape_idx as int;
            lemma_shape_offsets_wf(s, 0);
            assert forall|i: int|
                0 <= i < 4 implies cell_free(
                g.board_rows(),
                p.x + (#[trigger] shape_offsets(s, 0)[i]).0,
                p.y + shape_offsets(s, 0)[i].1,
            ) by {
                let cx = p.x + shape_offsets(s, 0)[i].0;
                let cy = p.y + shape_offsets(s, 0)[i].1;
                assert(g.board_rows()[cy] == empty_row());
            }
            assert(piece_fits(g.board_rows(), p));
            assert(g.board_rows() =~= Seq::new(BOARD_HEIGHT as nat, |yy: int| empty_row()));
        }
        g
    }

    /// What holding does: with holding disabled it is a no-op; with a held
    /// piece it swaps kind and orientation with the active piece, which
    /// restarts at the spawn position; with no held piece it stores the
    /// active piece and spawns the next one.  Any hold disables holding;
    /// only a spawn re-enables it.
    pub open spec fn hold_step(pre: Game, post: Game) -> bool {
        if !pre.can_hold {
            post == pre
        } else {
            match pre.hold_piece {
                Some(h) => {
                    &&& (post.hold_piece matches Some(nh) && nh.shape_idx
                        == pre.current_piece.shape_idx && nh.orientation
                        == pre.current_piece.orientation && nh.x == h.x && nh.y == h.y)
                    &&& post.current_piece.shape_idx == h.shape_idx
                    &&& post.current_piece.orientation == h.orientation
                    &&& post.current_piece.x == 3
                    &&& post.current_piece.y == 0
                    &&& post.can_hold == false
                    &&& post.board == pre.board
                    &&& post.bag == pre.bag
                    &&& post.next_bag == pre.next_bag
                    &&& post.next_queue == pre.next_queue
                    &&& post.drawn == pre.drawn
                    &&& post.last_tick == pre.last_tick
                    &&& post.fall_interval == pre.fall_interval
                    &&& post.level == pre.level
                    &&& post.score == pre.score
                    &&& post.lines_cleared == pre.lines_cleared
                    &&& post.game_over == pre.game_over
                },
                None => Game::spawn_step(
                    (Game { hold_piece: Some(pre.current_piece), can_hold: false, ..pre }),
                    post,
                ) && post.hold_piece == Some(pre.current_piece),
            }
        }
    }

    /// Swap the active piece with the held one, or store it and spawn the
    /// next piece; a no-op while holding is disabled.
    pub fn hold_current_piece(&mut self)
        requires
            old(self).wf(),
        ensures
            final(self).wf(),
            Game::hold_step(*old(self), *final(self)),
    {
        if !self.can_hold {
            return;
        }
        self.can_hold = false;
        let old_cur = Tetromino {
            shape_idx: self.current_piece.shape_idx,
            orientation: self.current_piece.orientation,
            x: self.current_piece.x,
            y: self.current_piece.y,
        };
        let held: Option<(usize, usize, i32, i32)> = match &self.hold_piece {
            Some(h) => Some((h.shape_idx, h.orientation, h.x, h.y)),
            None => None,
        };
        match held {
            Some((hs, ho, hx, hy)) => {
                self.current_piece = Tetromino {
                    shape_idx: hs,
                    orientation: ho,
                    x: (BOARD_WIDTH / 2) as i32 - 2,
                    y: 0,
                };
                self.hold_piece = Some(
                    Tetromino {
                        shape_idx: old_cur.shape_idx,
                        orientation: old_cur.orientation,
                        x: hx,
                        y: hy,
                    },
                );
            },
            None => {
                self.hold_piece = Some(old_cur);
                proof {
                    assert(old_cur == old(self).current_piece);
                    assert(*self == (Game {
                        hold_piece: Some(old(self).current_piece),
                        can_hold: false,
                        ..*old(self)
                    }));
                }
                self.spawn_next_piece();
            },
        }
    }

    /// Top the lookahead queue back up to three kinds, pulling from the
    /// current bag and swapping in the next bag when it runs out.
    fn refill_queue(&mut self)
        requires
            old(self).core_wf(),
        ensures
            final(self).core_wf(),
            final(self).next_queue@.len() >= 3,
            final(self).board == old(self).board,
            final(self).current_piece == old(self).current_piece,
            final(self).hold_piece == old(self).hold_piece,
            final(self).can_hold == old(self).can_hold,
            final(self).last_tick == old(self).last_tick,
            final(self).fall_interval == old(self).fall_interval,
            final(self).level == old(self).level,
            final(self).score == old(self).score,
            final(self).lines_cleared == old(self).lines_cleared,
            final(self).game_over == old(self).game_over,
            final(self).drawn == old(self).drawn,
            final(self).supply_stream() == old(self).supply_stream() || (exists|p: Seq<usize>|
                is_bag(p) && final(self).supply_stream() == old(self).supply_stream() + p),
    {
        while self.next_queue.len() < 3
            invariant
                self.core_wf(),
                self.board == old(self).board,
                self.current_piece == old(self).current_piece,
                self.hold_piece == old(self).hold_piece,
                self.can_hold == old(self).can_hold,
                self.last_tick == old(self).last_tick,
                self.fall_interval == old(self).fall_interval,
                self.level == old(self).level,
                self.score == old(self).score,
                self.lines_cleared == old(self).lines_cleared,
                self.game_over == old(self).game_over,
                self.drawn == old(self).drawn,
                self.supply_stream() == old(self).supply_stream() || (exists|p: Seq<usize>|
                    is_bag(p) && self.supply_stream() == old(self).supply_stream() + p
                        && self.bag@.len() + self.next_queue@.len() >= 7),
            decreases 10 - self.next_queue@.len(),
        {
            let ghost pre = *self;
            if self.bag.len() == 0 {
                let fresh = generate_bag();
                self.bag = copy_bag(&self.next_bag);
                self.next_bag = fresh;
                proof {
                    assert(self.supply_stream() =~= pre.supply_stream() + self.next_bag@);
                    lemma_bag_concat_append(pre.supply_stream(), self.next_bag@);
                    assert(pre.supply_stream() == old(self).supply_stream());
                }
            }
            let ghost mid = *self;
            let k = self.bag.remove(0);
            self.next_queue.push(k);
            proof {
                assert(self.bag@ =~= mid.bag@.skip(1));
                assert(self.supply_stream() =~= mid.supply_stream());
                assert(all_kinds(self.next_queue@));
                assert(all_kinds(self.bag@));
            }
        }
    }

    /// What spawning the next piece does: the next kind of the supply
    /// stream becomes the active piece at the spawn position, holding is
    /// re-enabled, and a spawn into an occupied position ends the game.
    pub open spec fn spawn_step(pre: Game, post: Game) -> bool {
        &&& post.current_piece.shape_idx == pre.supply_stream()[pre.drawn@.len() as int]
        &&& post.current_piece.orientation == 0
        &&& post.current_piece.x == 3
        &&& post.current_piece.y == 0
        &&& post.can_hold == true
        &&& post.game_over == (pre.game_over || !piece_fits(pre.board_rows(), post.current_piece))
        &&& post.drawn@ == pre.drawn@.push(post.current_piece.shape_idx)
        &&& post.board == pre.board
        &&& post.hold_piece == pre.hold_piece
        &&& post.score == pre.score
        &&& post.level == pre.level
        &&& post.lines_cleared == pre.lines_cleared
        &&& post.fall_interval == pre.fall_interval
        &&& post.last_tick == pre.last_tick
        &&& post.next_queue@.len() >= 2
        &&& (post.supply_stream() == pre.supply_stream() || (exists|p: Seq<usize>|
            is_bag(p) && post.supply_stream() == pre.supply_stream() + p))
    }

    /// Pull the next kind from the supply, place it at the spawn position,
    /// re-enable holding, and end the game if the spawn position is taken.
    pub fn spawn_next_piece(&mut self)
        requires
            old(self).core_wf(),
        ensures
            final(self).wf(),
            Game::spawn_step(*old(self), *final(self)),
    {
        self.refill_queue();
        let ghost mid = *self;
        let shape_idx = self.next_queue.remove(0);
        proof {
            assert(shape_idx == mid.supply_stream()[mid.drawn@.len() as int]);
            assert(old(self).supply_stream().len() >= old(self).drawn@.len() + 7);
            assert(shape_idx == old(self).supply_stream()[old(self).drawn@.len() as int]);
            assert(shape_idx < 7);
        }
        self.current_piece = Tetromino {
            shape_idx,
            orientation: 0,
            x: (BOARD_WIDTH / 2) as i32 - 2,
            y: 0,
        };
        self.drawn = Ghost(self.drawn@.push(shape_idx));
        self.can_hold = true;
        proof {
            assert(self.supply_stream() =~= mid.supply_stream());
        }
        let spawn_ok = self.is_valid_position(&self.current_piece);
        if !spawn_ok {
            self.game_over = true;
        }
    }

    /// What locking and advancing does: the piece is written to the board,
    /// full rows are cleared and scored, and the next piece spawns.
    pub open spec fn lock_step(pre: Game, post: Game) -> bool {
        let locked = locked_rows(pre.board_rows(), pre.current_piece);
        let n = num_full(locked);
        &&& post.board_rows() == cleared_rows(locked)
        &&& post.score == pre.score + score_for_lines(n, pre.level as int)
        &&& post.lines_cleared == pre.lines_cleared + n
        &&& post.level == post.lines_cleared / 10
        &&& post.fall_interval == interval_spec(post.level as int)
        &&& post.hold_piece == pre.hold_piece
        &&& post.last_tick == pre.last_tick
        &&& post.current_piece.shape_idx == pre.supply_stream()[pre.drawn@.len() as int]
        &&& post.current_piece.orientation == 0
        &&& post.current_piece.x == 3
        &&& post.current_piece.y == 0
        &&& post.can_hold == true
        &&& post.game_over == (pre.game_over || !piece_fits(
            cleared_rows(locked),
            post.current_piece,
        ))
        &&& post.drawn@ == pre.drawn@.push(post.current_piece.shape_idx)
        &&& post.next_queue@.len() >= 2
        &&& (post.supply_stream() == pre.supply_stream() || (exists|p: Seq<usize>|
            is_bag(p) && post.supply_stream() == pre.supply_stream() + p))
    }

    /// Lock the active piece, clear and score full rows, then spawn the
    /// next piece.
    pub fn lock_and_advance(&mut self)
        requires
            old(self).wf(),
            old(self).score + 1200 * (old(self).level + 1) <= u32::MAX,
            old(self).lines_cleared + BOARD_HEIGHT <= u32::MAX,
        ensures
            final(self).wf(),
            Game::lock_step(*old(self), *final(self)),
    {
        self.lock_piece();
        self.clear_lines();
        self.spawn_next_piece();
    }

    /// One gravity check: once the fall interval has elapsed the timestamp
    /// resets and the piece falls one row, locking and advancing when it
    /// cannot; gravity never fires more than once per call.
    pub fn update(&mut self, now: u64)
        requires
            old(self).wf(),
            old(self).last_tick <= now,
            old(self).score + 1200 * (old(self).level + 1) <= u32::MAX,
            old(self).lines_cleared + BOARD_HEIGHT <= u32::MAX,
        ensures
            final(self).wf(),
            now - old(self).last_tick < old(self).fall_interval ==> *final(self) == *old(self),
            now - old(self).last_tick >= old(self).fall_interval ==> ({
                let pre = (Game { last_tick: now, ..*old(self) });
                let p = old(self).current_piece;
                if kind_fits(
                    old(self).board_rows(),
                    p.shape_idx as int,
                    p.orientation as int,
                    p.x as int,
                    p.y + 1,
                ) {
                    *final(self) == (Game {
                        current_piece: (Tetromino { y: (p.y + 1) as i32, ..p }),
                        ..pre
                    })
                } else {
                    Game::lock_step(pre, *final(self))
                }
            }),
    {
        if now - self.last_tick >= self.fall_interval {
            self.last_tick = now;
            let ghost pre = *self;
            let moved = self.try_move(0, 1);
            if !moved {
                self.lock_and_advance();
            } else {
                proof {
                    assert(*self == (Game {
                        current_piece: (Tetromino {
                            y: (old(self).current_piece.y + 1) as i32,
                            ..old(self).current_piece
                        }),
                        ..pre
                    }));
                }
            }
        }
    }

    /// Drop the active piece straight down as far as it goes, then lock
    /// and advance.
    pub fn hard_drop(&mut self)
        requires
            old(self).wf(),
            old(self).score + 1200 * (old(self).level + 1) <= u32::MAX,
            old(self).lines_cleared + BOARD_HEIGHT <= u32::MAX,
        ensures
            final(self).wf(),
            ({
                let pre = *old(self);
                let p = pre.current_piece;
                let d = fall_distance(pre.board_rows(), p);
                Game::lock_step(
                    (Game { current_piece: (Tetromino { y: (p.y + d) as i32, ..p }), ..pre }),
                    *final(self),
                )
            }),
    {
        let ghost pre = *old(self);
        let ghost p = pre.current_piece;
        let ghost b = pre.board_rows();
        let ghost s = p.shape_idx as int;
        let ghost o = p.orientation as int;
        loop
            invariant_except_break
                old(self).wf(),
                self.wf(),
                pre == *old(self),
                p == pre.current_piece,
                b == pre.board_rows(),
                s == p.shape_idx as int,
                o == p.orientation as int,
                Game::same_but_piece(pre, *self),
                self.current_piece.shape_idx == p.shape_idx,
                self.current_piece.orientation == p.orientation,
                self.current_piece.x == p.x,
                p.y <= self.current_piece.y,
                fall_distance(b, p) == (self.current_piece.y - p.y) + fall_steps_from(
                    b,
                    s,
                    o,
                    p.x as int,
                    self.current_piece.y as int,
                    (23 - (self.current_piece.y - p.y)) as nat,
                ),
            ensures
                old(self).wf(),
                self.wf(),
                pre == *old(self),
                p == pre.current_piece,
                Game::same_but_piece(pre, *self),
                self.current_piece.shape_idx == p.shape_idx,
                self.current_piece.orientation == p.orientation,
                self.current_piece.x == p.x,
                self.current_piece.y == p.y + fall_distance(pre.board_rows(), p),
            decreases 19 - self.current_piece.y,
        {
            let ghost cur_y = self.current_piece.y as int;
            let moved = self.try_move(0, 1);
            if !moved {
                proof {
                    assert(fall_steps_from(b, s, o, p.x as int, cur_y, (23 - (cur_y - p.y)) as nat)
                        == 0);
                }
                break;
            }
            proof {
                let k = (23 - (cur_y - p.y)) as nat;
                assert(k > 0);
                assert(fall_steps_from(b, s, o, p.x as int, cur_y, k) == 1 + fall_steps_from(
                    b,
                    s,
                    o,
                    p.x as int,
                    cur_y + 1,
                    (k - 1) as nat,
                ));
            }
        }
        proof {
            let d = fall_distance(pre.board_rows(), p);
            assert(*self == (Game {
                current_piece: (Tetromino { y: (p.y + d) as i32, ..p }),
                ..pre
            }));
        }
        self.lock_and_advance();
    }

    /// Rotate the active piece clockwise, trying the kick offsets when the
    /// turned position is blocked; revert entirely when nothing fits.
    pub fn try_rotate_cw(&mut self)
        requires
            old(self).wf(),
        ensures
            final(self).wf(),
            Game::rotate_step(
                *old(self),
                *final(self),
                ((old(self).current_piece.orientation + 1) % 4) as int,
            ),
    {
        let old_orientation = self.current_piece.orientation;
        self.current_piece.rotate_cw();
        if !self.is_valid_position(&self.current_piece) {
            if !self.do_wallkick() {
                self.current_piece.orientation = old_orientation;
            }
        }
    }

    /// Rotate the active piece counterclockwise, with the same kick rules.
    pub fn try_rotate_ccw(&mut self)
        requires
            old(self).wf(),
        ensures
            final(self).wf(),
            Game::rotate_step(
                *old(self),
                *final(self),
                ((old(self).current_piece.orientation + 3) % 4) as int,
            ),
    {
        let old_orientation = self.current_piece.orientation;
        self.current_piece.rotate_ccw();
        if !self.is_valid_position(&self.current_piece) {
            if !self.do_wallkick() {
                self.current_piece.orientation = old_orientation;
            }
        }
    }
}

/// An element-for-element copy of a board row.
fn copy_row(r: &Vec<Option<u8>>) -> (out: Vec<Option<u8>>)
    ensures
        out@ == r@,
{
    let mut out: Vec<Option<u8>> = Vec::new();
    let mut i: usize = 0;
    while i < r.len()
        invariant
            i <= r@.len(),
            out@ == r@.take(i as int),
        decreases r@.len() - i,
    {
        out.push(r[i]);
        proof {
            assert(out@ =~= r@.take(i + 1));
        }
        i = i + 1;
    }
    proof {
        assert(r@.take(r@.len() as int) =~= r@);
    }
    out
}

/// An element-for-element copy of a bag of kind indices.
fn copy_bag(v: &Vec<usize>) -> (out: Vec<usize>)
    ensures
        out@ == v@,
{
    let mut out: Vec<usize> = Vec::new();
    let mut i: usize = 0;
    while i < v.len()
        invariant
            i <= v@.len(),
            out@ == v@.take(i as int),
        decreases v@.len() - i,
    {
        out.push(v[i]);
        proof {
            assert(out@ =~= v@.take(i + 1));
        }
        i = i + 1;
    }
    proof {
        assert(v@.take(v@.len() as int) =~= v@);
    }
    out
}

/// True iff every cell of the row is occupied.
fn row_full_exec(r: &Vec<Option<u8>>) -> (b: bool)
    ensures
        b == row_full(r@),
{
    let mut x: usize = 0;
    while x < r.len()
        invariant
            x <= r@.len(),
            forall|j: int| 0 <= j < x ==> (#[trigger] r@[j]) is Some,
        decreases r@.len() - x,
    {
        if r[x].is_none() {
            return false;
        }
        x = x + 1;
    }
    true
}

/// A fresh row of empty cells.
fn empty_row_exec() -> (r: Vec<Option<u8>>)
    ensures
        r@ == empty_row(),
{
    let mut r: Vec<Option<u8>> = Vec::new();
    let mut x: usize = 0;
    while x < BOARD_WIDTH
        invariant
            x <= BOARD_WIDTH,
            r@.len() == x,
            forall|j: int| 0 <= j < x ==> (#[trigger] r@[j]) is None,
        decreases BOARD_WIDTH - x,
    {
        r.push(None);
        x = x + 1;
    }
    proof {
        assert(r@ =~= empty_row());
    }
    r
}

proof fn lemma_kept_all(b: Seq<Seq<Option<u8>>>)
    requires
        forall|j: int| 0 <= j < b.len() ==> !row_full(#[trigger] b[j]),
    ensures
        kept_rows(b) == b,
    decreases b.len(),
{
    reveal_with_fuel(Seq::filter, 2);
    if b.len() == 0 {
        assert(kept_rows(b) =~= b);
    } else {
        lemma_kept_all(b.drop_last());
        assert(!row_full(b.last()));
        assert(kept_rows(b) =~= b);
    }
}

proof fn lemma_kept_single(b: Seq<Seq<Option<u8>>>, k: int)
    requires
        0 <= k < b.len(),
        row_full(b[k]),
        forall|j: int| 0 <= j < b.len() && j != k ==> !row_full(#[trigger] b[j]),
    ensures
        kept_rows(b) == b.subrange(0, k) + b.subrange(k + 1, b.len() as int),
    decreases b.len(),
{
    reveal_with_fuel(Seq::filter, 2);
    if k == b.len() - 1 {
        lemma_kept_all(b.drop_last());
        assert(kept_rows(b) =~= b.drop_last());
        assert(b.drop_last() =~= b.subrange(0, k) + b.subrange(k + 1, b.len() as int));
    } else {
        lemma_kept_single(b.drop_last(), k);
        assert(!row_full(b.last()));
        assert(b.drop_last()[k] == b[k]);
        assert(kept_rows(b) == kept_rows(b.drop_last()).push(b.last()));
        assert(b.drop_last().subrange(0, k) =~= b.subrange(0, k));
        assert(b.drop_last().subrange(k + 1, b.len() - 1) =~= b.subrange(k + 1, b.len() - 1));
        assert(kept_rows(b) =~= b.subrange(0, k) + b.subrange(k + 1, b.len() as int));
    }
}

/// Clearing a board with no occupied cells clears nothing: no row is
/// full, and the board comes back exactly as it was.
pub proof fn lemma_clear_empty_board(b: Seq<Seq<Option<u8>>>)
    requires
        board_wf(b),
        forall|y: int, x: int|
            #![trigger b[y][x]]
            0 <= y < BOARD_HEIGHT && 0 <= x < BOARD_WIDTH ==> b[y][x] is None,
    ensures
        num_full(b) == 0,
        cleared_rows(b) == b,
{
    assert forall|j: int| 0 <= j < b.len() implies !row_full(#[trigger] b[j]) by {
        assert(!(b[j][0] is Some));
    }
    lemma_kept_all(b);
    assert(cleared_rows(b) =~= b);
}

/// When exactly one row is full, a clearing pass removes that row and
/// only that row: one fresh empty row appears on top, the rows above the
/// full one shift down by one, and the rows below it stay in place.
pub proof fn lemma_clear_single_row(b: Seq<Seq<Option<u8>>>, k: int)
    requires
        board_wf(b),
        0 <= k < BOARD_HEIGHT,
        row_full(b[k]),
        forall|j: int|
            0 <= j < BOARD_HEIGHT && j != k ==> !row_full(#[trigger] b[j]),
    ensures
        num_full(b) == 1,
        cleared_rows(b) == seq![empty_row()] + b.subrange(0, k) + b.subrange(
            k + 1,
            BOARD_HEIGHT as int,
        ),
{
    lemma_kept_single(b, k);
    assert(cleared_rows(b) =~= seq![empty_row()] + b.subrange(0, k) + b.subrange(
        k + 1,
        BOARD_HEIGHT as int,
    ));
}

/// In every reachable state the level is the cumulative line count
/// divided by ten, and the gravity interval is 500ms minus 40ms per
/// level, floored at 100ms.
pub proof fn lemma_level_interval(g: Game)
    requires
        g.wf(),
    ensures
        g.level == g.lines_cleared / 10,
        g.level >= 10 ==> g.fall_interval == 100,
        g.level < 10 ==> g.fall_interval == 500 - 40 * (g.level as int),
{
}

/// Adding fewer than ten cleared lines raises the level by exactly one
/// when the cumulative count crosses a multiple of ten, and otherwise
/// leaves it unchanged.
pub proof fn lemma_level_step(lines: int, n: int)
    requires
        0 <= lines,
        0 <= n < 10,
    ensures
        (lines + n) / 10 == lines / 10 + (if lines % 10 + n >= 10 {
            1int
        } else {
            0int
        }),
{
    vstd::arithmetic::div_mod::lemma_fundamental_div_mod(lines, 10);
    let q = lines / 10;
    let r = lines % 10;
    if r + n >= 10 {
        vstd::arithmetic::div_mod::lemma_fundamental_div_mod_converse_div(
            lines + n,
            10,
            q + 1,
            r + n - 10,
        );
    } else {
        vstd::arithmetic::div_mod::lemma_fundamental_div_mod_converse_div(lines + n, 10, q, r + n);
    }
}

/// Clearing 1, 2, 3 or 4 lines scores 40, 100, 300 or 1200 base points,
/// multiplied by level + 1.
pub proof fn lemma_line_scoring(level: int)
    ensures
        score_for_lines(1, level) == 40 * (level + 1),
        score_for_lines(2, level) == 100 * (level + 1),
        score_for_lines(3, level) == 300 * (level + 1),
        score_for_lines(4, level) == 1200 * (level + 1),
        score_for_lines(0, level) == 0,
{
}

/// Holding is disabled by a swap: a second hold with no spawn in between
/// changes nothing at all.
pub proof fn lemma_hold_twice_noop(pre: Game, mid: Game, post: Game)
    requires
        pre.can_hold,
        pre.hold_piece is Some,
        Game::hold_step(pre, mid),
        Game::hold_step(mid, post),
    ensures
        !mid.can_hold,
        post == mid,
{
}

/// Piece-supply fairness: any seven consecutive draws that begin at a bag
/// boundary contain each of the seven kinds exactly once.
pub proof fn lemma_supply_fairness(g: Game, i: int)
    requires
        g.wf(),
        0 <= i,
        i % 7 == 0,
        i + 7 <= g.drawn@.len(),
    ensures
        is_bag(g.drawn@.subrange(i, i + 7)),
{
    assert(g.drawn@.subrange(i, i + 7) =~= g.supply_stream().subrange(i, i + 7));
    lemma_bag_concat_window(g.supply_stream(), i);
}

/// A rotation with no room: when neither the turned position nor any
/// kick offset is free, the whole state is unchanged.
pub proof fn lemma_rotation_blocked(pre: Game, post: Game, no: int)
    requires
        Game::rotate_step(pre, post, no),
        !kind_fits(
            pre.board_rows(),
            pre.current_piece.shape_idx as int,
            no,
            pre.current_piece.x as int,
            pre.current_piece.y as int,
        ),
        forall|j: int|
            0 <= j < 7 ==> !kind_fits(
                pre.board_rows(),
                pre.current_piece.shape_idx as int,
                no,
                pre.current_piece.x + (#[trigger] kick_offsets()[j]).0,
                pre.current_piece.y + kick_offsets()[j].1,
            ),
    ensures
        post == pre,
{
    let p = pre.current_piece;
    lemma_first_kick_prefix(
        pre.board_rows(),
        p.shape_idx as int,
        no,
        p.x as int,
        p.y as int,
        7,
    );
    assert(post.current_piece == pre.current_piece);
}

/// A piece that fits the board has its origin in the fixed range the game
/// invariant keeps.
proof fn lemma_fits_bounds(b: Seq<Seq<Option<u8>>>, p: Tetromino)
    requires
        p.wf(),
        piece_fits(b, p),
    ensures
        -3 <= p.x <= 9,
        -3 <= p.y <= 19,
{
    let s = p.shape_idx as int;
    let o = p.orientation as int;
    lemma_shape_offsets_wf(s, o);
    assert(cell_free(b, p.x + shape_offsets(s, o)[0].0, p.y + shape_offsets(s, o)[0].1));
    assert(in_box(shape_offsets(s, o)[0]));
}

} // verus!
