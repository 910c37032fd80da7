//! The Minesweeper engine: lazy board generation with a safe first move, the
//! flood fill of zero-count regions, and the dig / flag / chord state machine.
use vstd::prelude::*;
use std::time::Instant;
use queues::Queue;
use rand::rngs::ThreadRng;
use crate::can_be_engine::CanBeEngine;
use crate::bindings::{draw_ratio, new_queue, queue_add, queue_remove, queued};
use crate::board::{
    adjacent_bombs, at, bomb_pred, checked_pred, chill_factor, closed_under_zero, count_state,
    count_where, counts_match, flag_at, flag_pred, flags_around, in_queue, in_zone, index_of,
    is_neighbour, lemma_adjacent_at_most_eight, lemma_adjacent_new_bomb, lemma_adjacent_same_bombs,
    lemma_checked_and_flags_fit, lemma_filled_board, lemma_closed_holds_reachable, lemma_count_change, lemma_count_none,
    lemma_count_same, lemma_count_state_bound, lemma_count_state_positive, lemma_count_state_same,
    lemma_count_state_update, lemma_decompose, lemma_in_queue_append, lemma_in_queue_pop,
    lemma_index, lemma_index_all, lemma_reach_extend, lemma_reach_start, max_nat, on_board, one_if,
    reachable, risk_at, truth_cells_valid, zero_at,
};
use crate::types::{
    Cell, CellState, CompleteState, EngineError, GameState, GameStats, MoveType, ZeroToEight,
};

verus! {

/// The number of random passes over the board before the remaining bombs are
/// placed on the first free cells, so that generation always ends.
pub const MAX_RANDOM_PASSES: u32 = 1000;

#[derive(Debug, Clone)]
pub struct Engine {
    game_state: GameState,
    board_play_state: Vec<CellState>,
    board_state: Vec<CellState>,
    board_initialised: bool,
    width: i32,
    height: i32,
    bomb_count: i32,
    checked_cells: i32,
    flagged_cells: i32,
    total_cells: i32,
    start_instant: Option<Instant>,
    game_complete_time: u64,
}

/// The abstract state of an engine. `play` is what the player sees and `truth`
/// the ground truth, both stored column by column (see `index_of`).
pub struct EngineView {
    pub game_state: GameState,
    pub play: Seq<CellState>,
    pub truth: Seq<CellState>,
    pub initialised: bool,
    pub width: int,
    pub height: int,
    pub bomb_count: int,
    pub checked_cells: int,
    pub flagged_cells: int,
    pub total_cells: int,
    pub started: bool,
    pub complete_time: u64,
}

impl View for Engine {
    type V = EngineView;

    closed spec fn view(&self) -> EngineView {
        EngineView {
            game_state: self.game_state,
            play: self.board_play_state@,
            truth: self.board_state@,
            initialised: self.board_initialised,
            width: self.width as int,
            height: self.height as int,
            bomb_count: self.bomb_count as int,
            checked_cells: self.checked_cells as int,
            flagged_cells: self.flagged_cells as int,
            total_cells: self.total_cells as int,
            started: self.start_instant is Some,
            complete_time: self.game_complete_time,
        }
    }
}

impl EngineView {
    pub open spec fn in_board(self, x: int, y: int) -> bool {
        on_board(self.width, self.height, x, y)
    }

    pub open spec fn play_at(self, x: int, y: int) -> CellState {
        at(self.play, self.height, x, y)
    }

    pub open spec fn truth_at(self, x: int, y: int) -> CellState {
        at(self.truth, self.height, x, y)
    }

    /// Every cell is revealed or flagged, and there are exactly as many flags
    /// as bombs.
    pub open spec fn won(self) -> bool {
        self.checked_cells + self.flagged_cells == self.total_cells && self.flagged_cells
            == self.bomb_count
    }

    pub open spec fn is_complete(self) -> bool {
        self.game_state is Complete
    }

    /// The dimensions fit the storage.
    pub open spec fn dims_ok(self) -> bool {
        &&& 0 <= self.width
        &&& 0 <= self.height
        &&& self.total_cells == self.width * self.height
        &&& self.total_cells <= i32::MAX
        &&& 0 <= self.bomb_count
        &&& self.play.len() == self.total_cells
        &&& self.truth.len() == self.total_cells
    }

    /// A cell that generation may turn into a bomb: outside the safe zone
    /// around the first move, and not a bomb yet.
    pub open spec fn free_at(self, cx: int, cy: int, i: int) -> bool {
        !in_zone(cx, cy, i / self.height, i % self.height) && self.truth[i] != CellState::Bomb
    }

    pub open spec fn free_upto(self, cx: int, cy: int, n: int) -> nat {
        count_where(n, |i: int| self.free_at(cx, cy, i))
    }

    pub open spec fn free_count(self, cx: int, cy: int) -> nat {
        self.free_upto(cx, cy, self.total_cells)
    }

    /// The state while bombs are being placed around a first move at
    /// (cx, cy), with `left` bombs still to place.
    pub open spec fn generating(self, cx: int, cy: int, left: int) -> bool {
        &&& self.dims_ok()
        &&& self.bomb_count < self.total_cells
        &&& !self.initialised
        &&& truth_cells_valid(self.truth)
        &&& counts_match(self.truth, self.width, self.height)
        &&& 0 <= left
        &&& count_state(self.truth, bomb_pred()) == self.bomb_count - left
        &&& self.free_count(cx, cy) >= left
        &&& forall|x: int, y: int|
            self.in_board(x, y) && in_zone(cx, cy, x, y) ==> #[trigger] self.truth_at(x, y)
                != CellState::Bomb
    }

    /// Everything but the ground truth is unchanged.
    pub open spec fn same_but_truth(self, other: EngineView) -> bool {
        other == EngineView { truth: other.truth, ..self }
    }

    /// The board and its counters agree.
    pub open spec fn board_wf(self) -> bool {
        &&& self.dims_ok()
        &&& self.truth.len() == self.total_cells
        &&& truth_cells_valid(self.truth)
        &&& counts_match(self.truth, self.width, self.height)
        &&& count_state(self.truth, bomb_pred()) == if self.initialised {
            self.bomb_count
        } else {
            0
        }
        &&& self.checked_cells == count_state(self.play, checked_pred())
        &&& self.flagged_cells == count_state(self.play, flag_pred())
        &&& forall|i: int|
            0 <= i < self.play.len() && (#[trigger] self.play[i]) is Checked ==> self.play[i]
                == self.truth[i]
        &&& !self.initialised ==> forall|i: int|
            0 <= i < self.play.len() ==> #[trigger] self.play[i] == CellState::Unchecked
        &&& forall|i: int|
            0 <= i < self.play.len() && #[trigger] self.play[i] == CellState::Cross ==> self.truth[i]
                != CellState::Bomb
        &&& forall|i: int|
            0 <= i < self.play.len() && (#[trigger] self.play[i] == CellState::Bomb
                || self.play[i] == CellState::Exploded) ==> self.truth[i] == CellState::Bomb
    }

    /// Every bomb of a lost game shows (or keeps the flag the player put on
    /// it), and no flag is left on a safe cell.
    pub open spec fn lose_shown(self) -> bool {
        &&& forall|i: int|
            0 <= i < self.play.len() && #[trigger] self.truth[i] == CellState::Bomb ==> self.play[i]
                == CellState::Bomb || self.play[i] == CellState::Exploded || self.play[i]
                == CellState::Flagged
        &&& forall|i: int|
            0 <= i < self.play.len() && #[trigger] self.play[i] == CellState::Flagged
                ==> self.truth[i] == CellState::Bomb
    }

    /// The full invariant: the game is won exactly when the win predicate
    /// holds, a lost game shows its bombs, and nothing happens before the
    /// board is generated.
    pub open spec fn wf(self) -> bool {
        &&& self.board_wf()
        &&& self.total_cells > 0 ==> (self.game_state == GameState::Complete(CompleteState::Win)
            <==> self.won())
        &&& self.game_state == GameState::Complete(CompleteState::Lose) ==> self.lose_shown()
        &&& !self.initialised ==> self.game_state == GameState::Initialised
        &&& !self.started ==> self.complete_time == 0
        &&& self.game_state != GameState::Complete(CompleteState::Lose) ==> self.shows_play_only()
    }

    /// The player's board holds only unchecked, flagged and revealed cells.
    pub open spec fn shows_play_only(self) -> bool {
        forall|i: int|
            0 <= i < self.play.len() ==> #[trigger] self.play[i] == CellState::Unchecked
                || self.play[i] == CellState::Flagged || self.play[i] is Checked
    }

    /// What a reveal from (sx, sy) leaves at (x, y): every reachable cell that
    /// was unchecked shows its ground truth, and nothing else changes.
    #[verifier::opaque]
    pub open spec fn after_reveal(self, sx: int, sy: int, x: int, y: int) -> CellState {
        if reachable(self.truth, self.width, self.height, sx, sy, x, y) && self.play_at(x, y)
            == CellState::Unchecked && self.truth_at(x, y) is Checked {
            self.truth_at(x, y)
        } else {
            self.play_at(x, y)
        }
    }

    pub open spec fn with_play_at(self, x: int, y: int, c: CellState) -> EngineView {
        EngineView { play: self.play.update(index_of(self.height, x, y), c), ..self }
    }

    /// What the end-of-game sweep leaves at (x, y): hidden bombs are shown,
    /// wrong flags become crosses, and everything else stays.
    pub open spec fn swept_at(self, x: int, y: int) -> CellState {
        let p = self.play_at(x, y);
        if self.truth_at(x, y) == CellState::Bomb {
            if p == CellState::Flagged || p == CellState::Exploded {
                p
            } else {
                CellState::Bomb
            }
        } else if p == CellState::Flagged {
            CellState::Cross
        } else {
            p
        }
    }

    /// `post` is this state after the game is lost.
    #[verifier::opaque]
    pub open spec fn lost_into(self, post: EngineView) -> bool {
        &&& post.wf()
        &&& post.game_state == GameState::Complete(CompleteState::Lose)
        &&& self.same_setup(post)
        &&& post.checked_cells == self.checked_cells
        &&& post.flagged_cells == self.flagged_cells
        &&& forall|x: int, y: int| self.in_board(x, y) ==> #[trigger] post.play_at(x, y) == self.swept_at(x, y)
    }

    /// The game state after a move that did not lose.
    pub open spec fn settled(self) -> GameState {
        if self.won() {
            GameState::Complete(CompleteState::Win)
        } else {
            GameState::Playing
        }
    }

    /// `post` (with result `r`) is this state after revealing the unchecked
    /// safe cell (x, y), and its region when no bomb is around it.
    pub open spec fn opened_safe(self, post: EngineView, x: int, y: int, r: GameState) -> bool {
        let t = self.truth_at(x, y);
        let opened = EngineView {
            checked_cells: self.checked_cells + 1,
            ..self.with_play_at(x, y, t)
        };
        &&& post.wf()
        &&& self.same_setup(post)
        &&& post.flagged_cells == self.flagged_cells
        &&& forall|a: int, b: int|
            self.in_board(a, b) ==> #[trigger] post.play_at(a, b) == if t == CellState::Checked(
                ZeroToEight::Zero,
            ) {
                opened.after_reveal(x, y, a, b)
            } else {
                opened.play_at(a, b)
            }
        &&& post.game_state == post.settled()
        &&& !post.won() ==> post.complete_time == self.complete_time
        &&& r == post.game_state
    }

    /// `post` (with result `r`) is this state after digging (x, y); `unflag`
    /// lets the dig remove a flag.
    pub open spec fn dug(self, post: EngineView, x: int, y: int, unflag: bool, r: GameState) -> bool {
        let p = self.play_at(x, y);
        let t = self.truth_at(x, y);
        if p == CellState::Unchecked {
            if t == CellState::Bomb {
                r == GameState::Complete(CompleteState::Lose) && self.with_play_at(
                    x,
                    y,
                    CellState::Exploded,
                ).lost_into(post)
            } else {
                self.opened_safe(post, x, y, r)
            }
        } else if p == CellState::Flagged && unflag {
            &&& post == (EngineView {
                flagged_cells: self.flagged_cells - 1,
                ..self.with_play_at(x, y, CellState::Unchecked)
            })
            &&& r == GameState::Playing
        } else {
            post == self && r == GameState::Playing
        }
    }

    /// `post` (with result `r`) is this state after flagging (x, y).
    pub open spec fn flagged(self, post: EngineView, x: int, y: int, r: GameState) -> bool {
        let p = self.play_at(x, y);
        if p == CellState::Unchecked {
            &&& post.wf()
            &&& self.same_setup(post)
            &&& post.play == self.with_play_at(x, y, CellState::Flagged).play
            &&& post.checked_cells == self.checked_cells
            &&& post.flagged_cells == self.flagged_cells + 1
            &&& post.game_state == post.settled()
            &&& !post.won() ==> post.complete_time == self.complete_time
            &&& r == post.game_state
        } else if p == CellState::Flagged {
            &&& post == (EngineView {
                flagged_cells: self.flagged_cells - 1,
                ..self.with_play_at(x, y, CellState::Unchecked)
            })
            &&& r == GameState::Playing
        } else {
            post == self && r == GameState::Playing
        }
    }

    /// A chord on (x, y) goes ahead: the cell shows a count equal to the
    /// flags around it.
    pub open spec fn chord_allowed(self, x: int, y: int) -> bool {
        &&& self.play_at(x, y) is Checked
        &&& self.play_at(x, y)->Checked_0.value() == flags_around(
            self.play,
            self.width,
            self.height,
            x,
            y,
        )
    }

    /// (a, b) is a neighbour of (x, y) that is unchecked but holds a bomb: a
    /// chord on (x, y) explodes there.
    pub open spec fn hidden_bomb_near(self, x: int, y: int, a: int, b: int) -> bool {
        &&& self.in_board(a, b)
        &&& is_neighbour(x, y, a, b)
        &&& self.play_at(a, b) == CellState::Unchecked
        &&& self.truth_at(a, b) == CellState::Bomb
    }

    /// `post` (with result `r`) is this state after a chord on (x, y). The
    /// neighbours are dug by column, then by row, without removing flags.
    pub open spec fn chorded(self, post: EngineView, x: int, y: int, r: GameState) -> bool {
        if self.chord_allowed(x, y) {
            &&& post.wf()
            &&& self.same_setup(post)
            &&& post.flagged_cells == self.flagged_cells
            &&& post.is_complete() ==> r == post.game_state
            &&& !post.is_complete() ==> r == GameState::Playing
            &&& (post.game_state == GameState::Complete(CompleteState::Lose) <==> exists|a: int, b: int|
                self.hidden_bomb_near(x, y, a, b))
            &&& post.game_state == GameState::Complete(CompleteState::Lose) ==> exists|a: int, b: int|
                #[trigger] self.hidden_bomb_near(x, y, a, b) && post.play_at(a, b)
                    == CellState::Exploded && forall|c: int, d: int|
                    #[trigger] self.hidden_bomb_near(x, y, c, d) ==> !comes_before(c, d, a, b)
            &&& post.game_state != GameState::Complete(CompleteState::Lose) ==> forall|a: int, b: int|
                self.in_board(a, b) ==> #[trigger] post.play_at(a, b) == self.play_at(a, b) || (
                self.play_at(a, b) == CellState::Unchecked && post.play_at(a, b) == self.truth_at(
                    a,
                    b,
                ) && self.truth_at(a, b) is Checked)
            &&& post.game_state != GameState::Complete(CompleteState::Lose) ==> forall|a: int, b: int|
                self.in_board(a, b) && is_neighbour(x, y, a, b) && self.play_at(a, b)
                    == CellState::Unchecked ==> #[trigger] post.play_at(a, b) == self.truth_at(a, b)
        } else {
            post == self && r == GameState::Playing
        }
    }

    /// The inputs on which `play_move` is defined: a finished game, a cell
    /// with a negative coordinate or past the declared size, or too many
    /// bombs are answered before the cell is looked up; otherwise the cell
    /// must be on the board. (The size check is `x > width`, so the column
    /// `x == width` and the row `y == height` are not answered and fall
    /// under the last case.)
    pub open spec fn move_defined(self, x: int, y: int) -> bool {
        ||| self.is_complete()
        ||| x < 0
        ||| y < 0
        ||| x > self.width
        ||| y > self.height
        ||| self.bomb_count >= self.total_cells
        ||| self.in_board(x, y)
    }

    /// `post` (with result `r`) is this state after `play_move(m, (x, y))`.
    pub open spec fn moved(
        self,
        post: EngineView,
        m: MoveType,
        x: int,
        y: int,
        r: Result<GameState, EngineError>,
    ) -> bool {
        if self.is_complete() {
            r == Ok::<GameState, EngineError>(self.game_state) && post == self
        } else if x < 0 || y < 0 || x > self.width || y > self.height {
            r == Err::<GameState, EngineError>(EngineError::OutOfRange) && post == self
        } else if self.bomb_count >= self.total_cells || (!self.initialised && self.bomb_count
            > self.free_count(x, y)) {
            r == Err::<GameState, EngineError>(EngineError::InvalidConfiguration) && post == self
        } else {
            let g = EngineView { truth: post.truth, initialised: true, started: post.started, ..self };
            &&& r is Ok
            &&& self.in_board(x, y)
            &&& g.same_setup(post)
            &&& post.initialised
            &&& self.initialised ==> post.truth == self.truth && post.started == self.started
            &&& !self.initialised ==> post.started
            &&& !self.initialised ==> forall|a: int, b: int|
                self.in_board(a, b) && in_zone(x, y, a, b) ==> #[trigger] post.truth_at(a, b)
                    != CellState::Bomb
            &&& match m {
                MoveType::Dig => g.dug(post, x, y, true, r->Ok_0),
                MoveType::Flag => g.flagged(post, x, y, r->Ok_0),
                MoveType::DigAround => g.chorded(post, x, y, r->Ok_0),
            }
        }
    }

    /// What no move changes: the size, the bomb count, the ground truth,
    /// whether it is generated, and whether the clock runs.
    pub open spec fn same_setup(self, other: EngineView) -> bool {
        &&& self.width == other.width
        &&& self.height == other.height
        &&& self.bomb_count == other.bomb_count
        &&& self.total_cells == other.total_cells
        &&& self.initialised == other.initialised
        &&& self.truth == other.truth
        &&& self.started == other.started
    }
}

impl Engine {
    pub fn new(width: i32, height: i32, bomb_count: i32) -> (r: Self)
        requires
            0 <= width,
            0 <= height,
            width * height <= i32::MAX,
            0 <= bomb_count,
        ensures
            r@.wf(),
            r@.width == width,
            r@.height == height,
            r@.bomb_count == bomb_count,
            r@.total_cells == width * height,
            r@.game_state == GameState::Initialised,
            !r@.initialised,
            !r@.started,
            r@.checked_cells == 0,
            r@.flagged_cells == 0,
            r@.complete_time == 0,
            forall|i: int| 0 <= i < r@.total_cells ==> r@.play[i] == CellState::Unchecked,
            forall|i: int|
                0 <= i < r@.total_cells ==> r@.truth[i] == CellState::Checked(ZeroToEight::Zero),
    {
        let total_cells = width * height;
        let mut board_play_state: Vec<CellState> = Vec::new();
        let mut board_state: Vec<CellState> = Vec::new();
        let mut i: i32 = 0;
        while i < total_cells
            invariant
                0 <= i <= total_cells,
                board_play_state@.len() == i,
                board_state@.len() == i,
                forall|k: int| 0 <= k < i ==> board_play_state@[k] == CellState::Unchecked,
                forall|k: int|
                    0 <= k < i ==> board_state@[k] == CellState::Checked(ZeroToEight::Zero),
            decreases total_cells - i,
        {
            board_play_state.push(CellState::Unchecked);
            board_state.push(CellState::Checked(ZeroToEight::Zero));
            i = i + 1;
        }
        let r = Engine {
            board_state,
            board_play_state,
            game_state: GameState::Initialised,
            width,
            height,
            bomb_count,
            checked_cells: 0,
            flagged_cells: 0,
            total_cells,
            board_initialised: false,
            start_instant: None,
            game_complete_time: 0,
        };
        proof {
            let v = r@;
            lemma_index_all(v.width, v.height);
            lemma_count_none(v.total_cells, |k: int| bomb_pred()(v.truth[k]));
            lemma_count_none(v.total_cells, |k: int| checked_pred()(v.play[k]));
            lemma_count_none(v.total_cells, |k: int| flag_pred()(v.play[k]));
            assert forall|x: int, y: int|
                on_board(v.width, v.height, x, y) && (#[trigger] at(
                    v.truth,
                    v.height,
                    x,
                    y,
                )) is Checked implies at(v.truth, v.height, x, y)->Checked_0.value()
                == adjacent_bombs(v.truth, v.width, v.height, x, y) by {
                assert(adjacent_bombs(v.truth, v.width, v.height, x, y) == 0);
            }
        }
        r
    }

    pub fn is_game_won(&self) -> (r: bool)
        requires
            self@.board_wf(),
        ensures
            r == self@.won(),
    {
        proof {
            lemma_checked_and_flags_fit(self@.play);
        }
        self.checked_cells + self.flagged_cells == self.total_cells && self.flagged_cells
            == self.bomb_count
    }

    /// The on-board neighbours of `cell`, each once.
    fn get_surrounding_cells(&self, cell: Cell) -> (r: Vec<Cell>)
        requires
            self@.dims_ok(),
            self@.in_board(cell.x as int, cell.y as int),
        ensures
            r@.no_duplicates(),
            forall|c: Cell|
                r@.contains(c) <==> is_neighbour(cell.x as int, cell.y as int, c.x as int, c.y as int)
                    && self@.in_board(c.x as int, c.y as int),
            cells_in_order(r@),
    {
        let x = cell.x as i64;
        let y = cell.y as i64;
        let mut cells: Vec<Cell> = Vec::new();
        let mut x_s: i64 = x - 1;
        while x_s < x + 2
            invariant
                self@.dims_ok(),
                self@.in_board(x as int, y as int),
                x - 1 <= x_s <= x + 2,
                cells@.no_duplicates(),
                cells_in_order(cells@),
                forall|c: Cell|
                    cells@.contains(c) <==> is_neighbour(x as int, y as int, c.x as int, c.y as int)
                        && self@.in_board(c.x as int, c.y as int) && c.x < x_s,
            decreases x + 2 - x_s,
        {
            if x_s >= 0 && x_s < self.width as i64 {
                let mut y_s: i64 = y - 1;
                while y_s < y + 2
                    invariant
                        self@.dims_ok(),
                        self@.in_board(x as int, y as int),
                        x - 1 <= x_s < x + 2,
                        0 <= x_s < self@.width,
                        y - 1 <= y_s <= y + 2,
                        cells@.no_duplicates(),
                        cells_in_order(cells@),
                        forall|c: Cell|
                            cells@.contains(c) <==> is_neighbour(
                                x as int,
                                y as int,
                                c.x as int,
                                c.y as int,
                            ) && self@.in_board(c.x as int, c.y as int) && (c.x < x_s || (c.x
                                == x_s && c.y < y_s)),
                    decreases y + 2 - y_s,
                {
                    if y_s >= 0 && y_s < self.height as i64 && !(y_s == y && x_s == x) {
                        let c = Cell { x: x_s as i32, y: y_s as i32 };
                        assert(!cells@.contains(c));
                        let ghost old_cells = cells@;
                        cells.push(c);
                        proof {
                            assert forall|i: int, j: int| 0 <= i < j < cells@.len() implies #[trigger] before(
                                cells@[i],
                                cells@[j],
                            ) by {
                                if j == cells@.len() - 1 {
                                    assert(old_cells.contains(old_cells[i]));
                                } else {
                                    assert(before(old_cells[i], old_cells[j]));
                                }
                            }
                        }
                        proof {
                            assert forall|d: Cell|
                                cells@.contains(d) <==> is_neighbour(
                                    x as int,
                                    y as int,
                                    d.x as int,
                                    d.y as int,
                                ) && self@.in_board(d.x as int, d.y as int) && (d.x < x_s || (
                                d.x == x_s && d.y < y_s + 1)) by {
                                assert(cells@ == old_cells.push(c));
                                if d != c {
                                    if cells@.contains(d) {
                                        let j = choose|j: int|
                                            0 <= j < cells@.len() && cells@[j] == d;
                                        assert(old_cells[j] == d);
                                    }
                                    if old_cells.contains(d) {
                                        let j = choose|j: int|
                                            0 <= j < old_cells.len() && old_cells[j] == d;
                                        assert(cells@[j] == d);
                                    }
                                } else {
                                    assert(cells@[cells@.len() - 1] == d);
                                }
                            }
                        }
                    }
                    y_s = y_s + 1;
                }
            }
            x_s = x_s + 1;
        }
        cells
    }

    fn cell_index(&self, x: i32, y: i32) -> (r: usize)
        requires
            self@.dims_ok(),
            self@.in_board(x as int, y as int),
        ensures
            r == index_of(self@.height, x as int, y as int),
            r < self@.total_cells,
    {
        proof {
            lemma_index(self@.width, self@.height, x as int, y as int);
        }
        (x * self.height + y) as usize
    }

    /// Adds one to the count of every safe neighbour of a cell that has just
    /// become a bomb.
    fn increment_bomb_count_of_surrounding_cells(&mut self, cell: Cell)
        requires
            old(self)@.dims_ok(),
            old(self)@.in_board(cell.x as int, cell.y as int),
            old(self)@.truth_at(cell.x as int, cell.y as int) == CellState::Bomb,
            truth_cells_valid(old(self)@.truth),
            forall|x: int, y: int|
                old(self)@.in_board(x, y) && (#[trigger] old(self)@.truth_at(x, y)) is Checked
                    ==> old(self)@.truth_at(x, y)->Checked_0.value() + one_if(
                    is_neighbour(x, y, cell.x as int, cell.y as int),
                ) == adjacent_bombs(old(self)@.truth, old(self)@.width, old(self)@.height, x, y),
        ensures
            old(self)@.same_but_truth(final(self)@),
            final(self)@.dims_ok(),
            truth_cells_valid(final(self)@.truth),
            counts_match(final(self)@.truth, final(self)@.width, final(self)@.height),
            forall|i: int|
                0 <= i < old(self)@.truth.len() ==> (#[trigger] final(self)@.truth[i]
                    == CellState::Bomb) == (old(self)@.truth[i] == CellState::Bomb),
    {
        let ghost v0 = self@;
        let ghost t0 = self@.truth;
        let ghost w = self@.width;
        let ghost h = self@.height;
        let ghost cx = cell.x as int;
        let ghost cy = cell.y as int;
        let cells = self.get_surrounding_cells(cell);
        proof {
            lemma_index_all(w, h);
            assert forall|x: int, y: int|
                on_board(w, h, x, y) && (#[trigger] at(self@.truth, h, x, y)) is Checked implies at(
                    self@.truth,
                    h,
                    x,
                    y,
                )->Checked_0.value() + one_if(
                    is_neighbour(x, y, cx, cy) && !processed(cells@, 0, x, y),
                ) == adjacent_bombs(t0, w, h, x, y) by {
                assert(v0.truth_at(x, y) == at(self@.truth, h, x, y));
            }
        }
        let mut k: usize = 0;
        while k < cells.len()
            invariant
                0 <= k <= cells@.len(),
                cells@.no_duplicates(),
                forall|c: Cell|
                    cells@.contains(c) <==> is_neighbour(cx, cy, c.x as int, c.y as int)
                        && on_board(w, h, c.x as int, c.y as int),
                v0.same_but_truth(self@),
                self@.dims_ok(),
                self@.truth.len() == t0.len(),
                w == self@.width,
                h == self@.height,
                t0 == v0.truth,
                forall|x: int, y: int|
                    on_board(w, h, x, y) ==> 0 <= #[trigger] index_of(h, x, y) < w * h && index_of(
                        h,
                        x,
                        y,
                    ) / h == x && index_of(h, x, y) % h == y,
                truth_cells_valid(self@.truth),
                forall|i: int|
                    0 <= i < t0.len() ==> (#[trigger] self@.truth[i] == CellState::Bomb) == (t0[i]
                        == CellState::Bomb),
                forall|x: int, y: int|
                    on_board(w, h, x, y) && (#[trigger] at(self@.truth, h, x, y)) is Checked ==> at(
                        self@.truth,
                        h,
                        x,
                        y,
                    )->Checked_0.value() + one_if(
                        is_neighbour(x, y, cx, cy) && !processed(cells@, k as int, x, y),
                    ) == adjacent_bombs(t0, w, h, x, y),
            decreases cells@.len() - k,
        {
            let c = cells[k];
            proof {
                assert(cells@.contains(c));
                assert(!processed(cells@, k as int, c.x as int, c.y as int)) by {
                    if processed(cells@, k as int, c.x as int, c.y as int) {
                        let j = choose|j: int|
                            0 <= j < k && cells@[j].x == c.x && cells@[j].y == c.y;
                        assert(cells@[j] == cells@[k as int]);
                    }
                }
                assert forall|x: int, y: int| #[trigger]
                    processed(cells@, k + 1, x, y) == (processed(cells@, k as int, x, y) || (x
                        == c.x && y == c.y)) by {
                    if x == c.x && y == c.y {
                        assert(cells@[k as int].x == x && cells@[k as int].y == y);
                    }
                    if processed(cells@, k + 1, x, y) && !(x == c.x && y == c.y) {
                        let j = choose|j: int|
                            0 <= j < k + 1 && cells@[j].x == x && cells@[j].y == y;
                        assert(j < k);
                    }
                }
            }
            let idx = self.cell_index(c.x, c.y);
            match self.board_state[idx] {
                CellState::Checked(bombs) => {
                    let n = bombs.to_usize();
                    proof {
                        assert(at(self@.truth, h, c.x as int, c.y as int) is Checked);
                        lemma_adjacent_at_most_eight(t0, w, h, c.x as int, c.y as int);
                    }
                    if let Ok(more) = ZeroToEight::from_u8((n + 1) as u8) {
                        self.board_state.set(idx, CellState::Checked(more));
                    }
                },
                _ => {},
            }
            k = k + 1;
        }
        proof {
            assert forall|x: int, y: int|
                on_board(w, h, x, y) && (#[trigger] at(
                    self@.truth,
                    h,
                    x,
                    y,
                )) is Checked implies at(self@.truth, h, x, y)->Checked_0.value() == adjacent_bombs(
                self@.truth,
                w,
                h,
                x,
                y,
            ) by {
                lemma_adjacent_same_bombs(t0, self@.truth, w, h, x, y);
                if is_neighbour(x, y, cx, cy) {
                    let d = Cell { x: x as i32, y: y as i32 };
                    assert(cells@.contains(d));
                    let j = choose|j: int| 0 <= j < cells@.len() && cells@[j] == d;
                    assert(processed(cells@, k as int, x, y));
                }
            }
        }
    }


    /// One pass over the board in storage order: each free cell becomes a bomb
    /// when the draw says so (always, when `certain`), until none are left.
    fn place_bombs_pass(
        &mut self,
        rng: &mut ThreadRng,
        clicked: Cell,
        bombs_left: &mut i32,
        certain: bool,
    )
        requires
            old(self)@.generating(clicked.x as int, clicked.y as int, *old(bombs_left) as int),
        ensures
            final(self)@.generating(clicked.x as int, clicked.y as int, *final(bombs_left) as int),
            old(self)@.same_but_truth(final(self)@),
            *final(bombs_left) <= *old(bombs_left),
            certain ==> *final(bombs_left) == 0,
    {
        let ghost v0 = self@;
        let ghost w = self@.width;
        let ghost h = self@.height;
        let ghost cx = clicked.x as int;
        let ghost cy = clicked.y as int;
        proof {
            lemma_index_all(w, h);
        }
        let mut x: i32 = 0;
        while x < self.width && *bombs_left > 0
            invariant
                self@.generating(cx, cy, *bombs_left as int),
                cx == clicked.x as int,
                cy == clicked.y as int,
                v0.same_but_truth(self@),
                w == self@.width,
                h == self@.height,
                0 <= x <= w,
                *bombs_left <= *old(bombs_left),
                forall|a: int, b: int|
                    on_board(w, h, a, b) ==> 0 <= #[trigger] index_of(h, a, b) < w * h && index_of(
                        h,
                        a,
                        b,
                    ) / h == a && index_of(h, a, b) % h == b,
                certain && *bombs_left > 0 ==> forall|a: int, b: int|
                    on_board(w, h, a, b) && a < x ==> !self@.free_at(
                        cx,
                        cy,
                        #[trigger] index_of(h, a, b),
                    ),
            decreases w - x,
        {
            let mut y: i32 = 0;
            while y < self.height && *bombs_left > 0
                invariant
                    self@.generating(cx, cy, *bombs_left as int),
                    cx == clicked.x as int,
                    cy == clicked.y as int,
                    v0.same_but_truth(self@),
                    w == self@.width,
                    h == self@.height,
                    0 <= x < w,
                    0 <= y <= h,
                    *bombs_left <= *old(bombs_left),
                    forall|a: int, b: int|
                        on_board(w, h, a, b) ==> 0 <= #[trigger] index_of(h, a, b) < w * h
                            && index_of(h, a, b) / h == a && index_of(h, a, b) % h == b,
                    certain && *bombs_left > 0 ==> forall|a: int, b: int|
                        on_board(w, h, a, b) && (a < x || (a == x && b < y)) ==> !self@.free_at(
                            cx,
                            cy,
                            #[trigger] index_of(h, a, b),
                        ),
                decreases h - y,
            {
                let ghost start = self@;
                let near = (x as i64) >= (clicked.x as i64) - 1 && (x as i64) <= (clicked.x as i64)
                    + 1 && (y as i64) >= (clicked.y as i64) - 1 && (y as i64) <= (clicked.y as i64)
                    + 1;
                let idx = self.cell_index(x, y);
                let is_bomb = match self.board_state[idx] {
                    CellState::Bomb => true,
                    _ => false,
                };
                if !near && !is_bomb {
                    if certain || draw_ratio(rng, self.bomb_count as u32, self.total_cells as u32) {
                        let ghost before = self@;
                        self.board_state.set(idx, CellState::Bomb);
                        *bombs_left = *bombs_left - 1;
                        proof {
                            let t0 = before.truth;
                            assert forall|a: int, b: int|
                                on_board(w, h, a, b) && (#[trigger] self@.truth_at(
                                    a,
                                    b,
                                )) is Checked implies self@.truth_at(a, b)->Checked_0.value()
                                + one_if(is_neighbour(a, b, x as int, y as int)) == adjacent_bombs(
                                self@.truth,
                                w,
                                h,
                                a,
                                b,
                            ) by {
                                lemma_adjacent_new_bomb(t0, w, h, x as int, y as int, a, b);
                                assert(before.truth_at(a, b) == self@.truth_at(a, b));
                            }
                        }
                        let ghost placed = self@;
                        self.increment_bomb_count_of_surrounding_cells(Cell { x, y });
                        proof {
                            let t0 = before.truth;
                            let t2 = self@.truth;
                            lemma_count_state_update(t0, bomb_pred(), idx as int, CellState::Bomb);
                            lemma_count_state_same(placed.truth, t2, bomb_pred());
                            lemma_count_change(
                                w * h,
                                |i: int| before.free_at(cx, cy, i),
                                |i: int| self@.free_at(cx, cy, i),
                                idx as int,
                            );
                            assert forall|a: int, b: int|
                                on_board(w, h, a, b) && in_zone(cx, cy, a, b) implies #[trigger] self@.truth_at(a, b) != CellState::Bomb by {
                                let i = index_of(h, a, b);
                                lemma_index(w, h, a, b);
                                lemma_index(w, h, x as int, y as int);
                                assert(!in_zone(cx, cy, x as int, y as int));
                                assert(i != idx);
                                assert(placed.truth[i] == before.truth[i]);
                                assert((self@.truth[i] == CellState::Bomb) == (placed.truth[i]
                                    == CellState::Bomb));
                                assert(before.truth_at(a, b) != CellState::Bomb);
                            }
                            assert forall|i: int| 0 <= i < w * h && i != idx implies (
                            #[trigger] self@.truth[i] == CellState::Bomb) == (before.truth[i]
                                == CellState::Bomb) by {
                                assert(placed.truth[i] == before.truth[i]);
                            }
                            assert(self@.truth[idx as int] == CellState::Bomb);
                        }
                    }
                }
                proof {
                    if certain && *bombs_left > 0 {
                        assert forall|a: int, b: int|
                            on_board(w, h, a, b) && (a < x || (a == x && b < y + 1)) implies !self@.free_at(
                            cx,
                            cy,
                            #[trigger] index_of(h, a, b),
                        ) by {
                            let i = index_of(h, a, b);
                            lemma_index(w, h, a, b);
                            lemma_index(w, h, x as int, y as int);
                            if a != x || b != y {
                                assert(i != idx);
                                assert(!start.free_at(cx, cy, i));
                                assert((self@.truth[i] == CellState::Bomb) == (start.truth[i]
                                    == CellState::Bomb));
                            }
                        }
                    }
                }
                y = y + 1;
            }
            x = x + 1;
        }
        proof {
            if certain && *bombs_left > 0 {
                assert forall|i: int| 0 <= i < w * h implies !#[trigger] self@.free_at(cx, cy, i) by {
                    lemma_decompose(w, h, i);
                    assert(!self@.free_at(cx, cy, index_of(h, i / h, i % h)));
                }
                lemma_count_none(w * h, |i: int| self@.free_at(cx, cy, i));
            }
        }
    }

    /// Places `bomb_count` bombs, none on or next to `clicked_cell`, and sets
    /// every safe cell's count. Does nothing once the board is generated.
    fn initialise_board(&mut self, clicked_cell: Cell)
        requires
            old(self)@.board_wf(),
            old(self)@.in_board(clicked_cell.x as int, clicked_cell.y as int),
            old(self)@.bomb_count < old(self)@.total_cells,
            !old(self)@.initialised ==> old(self)@.bomb_count <= old(self)@.free_count(
                clicked_cell.x as int,
                clicked_cell.y as int,
            ),
        ensures
            final(self)@.board_wf(),
            final(self)@.initialised,
            old(self)@.initialised ==> final(self)@ == old(self)@,
            !old(self)@.initialised ==> old(self)@.same_but_truth(
                EngineView { initialised: false, ..final(self)@ },
            ),
            !old(self)@.initialised ==> forall|x: int, y: int|
                final(self)@.in_board(x, y) && in_zone(
                    clicked_cell.x as int,
                    clicked_cell.y as int,
                    x,
                    y,
                ) ==> #[trigger] final(self)@.truth_at(x, y) != CellState::Bomb,
    {
        if self.board_initialised {
            return;
        }
        let ghost v0 = self@;
        let ghost cx = clicked_cell.x as int;
        let ghost cy = clicked_cell.y as int;
        proof {
            let v = self@;
            lemma_index_all(v.width, v.height);
            assert forall|i: int| 0 <= i < v.truth.len() implies v.truth[i] != CellState::Bomb by {
                if v.truth[i] == CellState::Bomb {
                    lemma_count_state_positive(v.truth, bomb_pred(), i);
                }
            }
        }
        let mut rng = rand::thread_rng();
        let mut bombs_left: i32 = self.bomb_count;
        let mut pass: u32 = 0;
        while bombs_left > 0 && pass < MAX_RANDOM_PASSES
            invariant
                self@.generating(cx, cy, bombs_left as int),
                cx == clicked_cell.x as int,
                cy == clicked_cell.y as int,
                v0.same_but_truth(self@),
                pass <= MAX_RANDOM_PASSES,
            decreases MAX_RANDOM_PASSES - pass,
        {
            self.place_bombs_pass(&mut rng, clicked_cell, &mut bombs_left, false);
            pass = pass + 1;
        }
        if bombs_left > 0 {
            self.place_bombs_pass(&mut rng, clicked_cell, &mut bombs_left, true);
        }
        let ghost g = self@;
        self.board_initialised = true;
        proof {
            assert forall|x: int, y: int|
                self@.in_board(x, y) && in_zone(cx, cy, x, y) implies #[trigger] self@.truth_at(x, y)
                != CellState::Bomb by {
                assert(g.truth_at(x, y) == self@.truth_at(x, y));
            }
        }
    }


    /// Breadth-first reveal from `starting_cell`: every cell reached through
    /// zero cells is visited once; unchecked safe cells among them are revealed.
    fn reveal_safe_patch(&mut self, starting_cell: Cell)
        requires
            old(self)@.board_wf(),
            old(self)@.initialised,
            old(self)@.in_board(starting_cell.x as int, starting_cell.y as int),
        ensures
            final(self)@.board_wf(),
            old(self)@.same_setup(final(self)@),
            final(self)@.game_state == old(self)@.game_state,
            final(self)@.flagged_cells == old(self)@.flagged_cells,
            final(self)@.complete_time == old(self)@.complete_time,
            forall|x: int, y: int|
                old(self)@.in_board(x, y) ==> #[trigger] final(self)@.play_at(x, y) == old(
                    self,
                )@.after_reveal(starting_cell.x as int, starting_cell.y as int, x, y),
            forall|i: int|
                0 <= i < old(self)@.play.len() ==> #[trigger] final(self)@.play[i] == old(
                    self,
                )@.play[i] || (old(self)@.play[i] == CellState::Unchecked && final(self)@.play[i]
                    == old(self)@.truth[i] && old(self)@.truth[i] is Checked),
    {
        let ghost v0 = self@;
        let ghost w = self@.width;
        let ghost h = self@.height;
        let ghost s = self@.truth;
        let ghost sx = starting_cell.x as int;
        let ghost sy = starting_cell.y as int;
        let total = self.total_cells as usize;
        let mut visited: Vec<bool> = Vec::new();
        let mut i: usize = 0;
        while i < total
            invariant
                visited@.len() == i,
                i <= total,
                forall|k: int| 0 <= k < i ==> !visited@[k],
            decreases total - i,
        {
            visited.push(false);
            i = i + 1;
        }
        let mut cell_queue = new_queue();
        queue_add(&mut cell_queue, (starting_cell.x, starting_cell.y));
        proof {
            lemma_reach_start(s, w, h, sx, sy);
            lemma_index_all(w, h);
            let q = queued(cell_queue);
            assert(q[0] == (starting_cell.x, starting_cell.y));
            assert(in_queue(q, sx, sy));
        }
        let mut done = false;
        while !done
            invariant
                self@.board_wf(),
                v0.same_setup(self@),
                self@.game_state == v0.game_state,
                self@.flagged_cells == v0.flagged_cells,
                self@.complete_time == v0.complete_time,
                w == self@.width,
                h == self@.height,
                s == self@.truth,
                sx == starting_cell.x as int,
                sy == starting_cell.y as int,
                on_board(w, h, sx, sy),
                self@.initialised,
                forall|a: int, b: int|
                    on_board(w, h, a, b) ==> 0 <= #[trigger] index_of(h, a, b) < w * h && index_of(
                        h,
                        a,
                        b,
                    ) / h == a && index_of(h, a, b) % h == b,
                visited@.len() == w * h,
                forall|j: int|
                    0 <= j < queued(cell_queue).len() ==> on_board(
                        w,
                        h,
                        (#[trigger] queued(cell_queue)[j]).0 as int,
                        queued(cell_queue)[j].1 as int,
                    ) && reachable(
                        s,
                        w,
                        h,
                        sx,
                        sy,
                        queued(cell_queue)[j].0 as int,
                        queued(cell_queue)[j].1 as int,
                    ),
                forall|x: int, y: int|
                    on_board(w, h, x, y) && #[trigger] visited@[index_of(h, x, y)] ==> reachable(
                        s,
                        w,
                        h,
                        sx,
                        sy,
                        x,
                        y,
                    ),
                visited@[index_of(h, sx, sy)] || in_queue(queued(cell_queue), sx, sy),
                forall|x: int, y: int, a: int, b: int|
                    on_board(w, h, x, y) && #[trigger] visited@[index_of(h, x, y)] && zero_at(
                        s,
                        w,
                        h,
                        x,
                        y,
                    ) && is_neighbour(x, y, a, b) && on_board(w, h, a, b) ==> #[trigger] visited@[index_of(
                        h,
                        a,
                        b,
                    )] || in_queue(queued(cell_queue), a, b),
                forall|x: int, y: int|
                    on_board(w, h, x, y) ==> #[trigger] self@.play_at(x, y) == if visited@[index_of(
                        h,
                        x,
                        y,
                    )] && v0.play_at(x, y) == CellState::Unchecked && v0.truth_at(x, y) is Checked {
                        v0.truth_at(x, y)
                    } else {
                        v0.play_at(x, y)
                    },
                done ==> queued(cell_queue).len() == 0,
            decreases count_where(w * h, |k: int| !visited@[k]), queued(cell_queue).len(), if done {
                0int
            } else {
                1int
            },
        {
            let ghost q0 = queued(cell_queue);
            let ghost vis0 = visited@;
            let ghost before = self@;
            match queue_remove(&mut cell_queue) {
                None => {
                    done = true;
                },
                Some(pair) => {
                    let x = pair.0;
                    let y = pair.1;
                    proof {
                        assert(q0[0] == pair);
                        assert forall|a: int, b: int| #[trigger]
                            in_queue(q0, a, b) == ((x == a && y == b) || in_queue(
                                queued(cell_queue),
                                a,
                                b,
                            )) by {
                            lemma_in_queue_pop(q0, a, b);
                        }
                    }
                    let idx = self.cell_index(x, y);
                    if !visited[idx] {
                        visited.set(idx, true);
                        proof {
                            lemma_count_change(
                                w * h,
                                |k: int| !vis0[k],
                                |k: int| !visited@[k],
                                idx as int,
                            );
                        }
                        let truth = self.board_state[idx];
                        match truth {
                            CellState::Checked(bombs) => {
                                if bombs == ZeroToEight::Zero {
                                    let around = self.get_surrounding_cells(Cell { x, y });
                                    let ghost q1 = queued(cell_queue);
                                    enqueue_cells(&mut cell_queue, &around);
                                    proof {
                                        let q2 = queued(cell_queue);
                                        let added = pairs(around@);
                                        assert(zero_at(s, w, h, x as int, y as int));
                                        assert forall|a: int, b: int| #[trigger]
                                            in_queue(q2, a, b) == (in_queue(q1, a, b) || in_queue(
                                                added,
                                                a,
                                                b,
                                            )) by {
                                            lemma_in_queue_append(q1, added, a, b);
                                        }
                                        assert forall|a: int, b: int|
                                            is_neighbour(x as int, y as int, a, b) && on_board(
                                                w,
                                                h,
                                                a,
                                                b,
                                            ) implies #[trigger] in_queue(added, a, b) by {
                                            let c = Cell { x: a as i32, y: b as i32 };
                                            assert(around@.contains(c));
                                            let j = choose|j: int|
                                                0 <= j < around@.len() && around@[j] == c;
                                            assert(added[j] == (c.x, c.y));
                                        }
                                        assert forall|j: int| 0 <= j < q2.len() implies on_board(
                                            w,
                                            h,
                                            (#[trigger] q2[j]).0 as int,
                                            q2[j].1 as int,
                                        ) && reachable(
                                            s,
                                            w,
                                            h,
                                            sx,
                                            sy,
                                            q2[j].0 as int,
                                            q2[j].1 as int,
                                        ) by {
                                            if j < q1.len() {
                                                assert(q2[j] == q1[j]);
                                            } else {
                                                let c = around@[j - q1.len()];
                                                assert(q2[j] == added[j - q1.len()]);
                                                assert(around@.contains(c));
                                                lemma_reach_extend(
                                                    s,
                                                    w,
                                                    h,
                                                    sx,
                                                    sy,
                                                    x as int,
                                                    y as int,
                                                    c.x as int,
                                                    c.y as int,
                                                );
                                            }
                                        }
                                    }
                                }
                                if self.board_play_state[idx] == CellState::Unchecked {
                                    let ghost p0 = self@.play;
                                    self.board_play_state.set(idx, truth);
                                    proof {
                                        lemma_count_state_update(p0, checked_pred(), idx as int, truth);
                                        lemma_count_state_update(p0, flag_pred(), idx as int, truth);
                                        lemma_checked_and_flags_fit(self@.play);
                                    }
                                    self.checked_cells = self.checked_cells + 1;
                                }
                            },
                            _ => {},
                        }
                    }
                },
            }
        }
        proof {
            let q = queued(cell_queue);
            assert(closed_under_zero(s, w, h, visited@));
            reveal(EngineView::after_reveal);
            assert forall|x: int, y: int| v0.in_board(x, y) implies #[trigger] self@.play_at(x, y)
                == v0.after_reveal(sx, sy, x, y) by {
                if reachable(s, w, h, sx, sy, x, y) {
                    lemma_closed_holds_reachable(s, w, h, visited@, sx, sy, x, y);
                }
            }
            assert forall|i: int| 0 <= i < v0.play.len() implies #[trigger] self@.play[i] == v0.play[i]
                || (v0.play[i] == CellState::Unchecked && self@.play[i] == s[i] && s[i] is Checked) by {
                lemma_decompose(w, h, i);
                let a = i / h;
                let b = i % h;
                Self::lemma_reveal_keeps_visible(v0, sx, sy, a, b);
                assert(self@.play_at(a, b) == v0.after_reveal(sx, sy, a, b));
            }
        }
    }


    /// Ends the game as won, freezing the clock.
    pub fn win_game(&mut self)
        requires
            old(self)@.board_wf(),
            old(self)@.initialised,
            old(self)@.won(),
            !old(self)@.started ==> old(self)@.complete_time == 0,
            old(self)@.shows_play_only(),
        ensures
            final(self)@.wf(),
            final(self)@ == (EngineView {
                game_state: GameState::Complete(CompleteState::Win),
                complete_time: final(self)@.complete_time,
                ..old(self)@
            }),
            !old(self)@.started ==> final(self)@.complete_time == old(self)@.complete_time,
    {
        if let Some(start_instant) = self.start_instant {
            self.game_complete_time = start_instant.elapsed().as_secs();
        }
        self.game_state = GameState::Complete(CompleteState::Win);
    }

    /// Ends the game as lost, freezing the clock: every hidden bomb is shown
    /// and every flag on a safe cell becomes a cross.
    pub fn lose_game(&mut self)
        requires
            old(self)@.board_wf(),
            old(self)@.initialised,
            !old(self)@.won(),
            !old(self)@.started ==> old(self)@.complete_time == 0,
        ensures
            old(self)@.lost_into(final(self)@),
            final(self)@.game_state == GameState::Complete(CompleteState::Lose),
            final(self)@.flagged_cells == old(self)@.flagged_cells,
            old(self)@.same_setup(final(self)@),
            final(self)@.wf(),
            final(self)@.initialised,
            final(self)@.started == old(self)@.started,
            !old(self)@.started ==> final(self)@.complete_time == old(self)@.complete_time,
    {
        if let Some(start_instant) = self.start_instant {
            self.game_complete_time = start_instant.elapsed().as_secs();
        }
        self.game_state = GameState::Complete(CompleteState::Lose);
        let ghost v0 = self@;
        let ghost w = self@.width;
        let ghost h = self@.height;
        let total = self.total_cells as usize;
        let mut i: usize = 0;
        while i < total
            invariant
                self@.board_wf(),
                v0.same_setup(self@),
                self@.game_state == v0.game_state,
                self@.checked_cells == v0.checked_cells,
                self@.flagged_cells == v0.flagged_cells,
                self@.complete_time == v0.complete_time,
                total == w * h,
                w == self@.width,
                h == self@.height,
                v0.play.len() == total,
                v0.truth.len() == total,
                v0.initialised,
                0 <= i <= total,
                forall|k: int|
                    0 <= k < total ==> #[trigger] self@.play[k] == if k < i {
                        swept(v0.play[k], v0.truth[k])
                    } else {
                        v0.play[k]
                    },
            decreases total - i,
        {
            let ghost p0 = self@.play;
            let cell_state = self.board_state[i];
            let p_cell_state = self.board_play_state[i];
            if cell_state == CellState::Bomb {
                if p_cell_state != CellState::Flagged && p_cell_state != CellState::Exploded {
                    self.board_play_state.set(i, CellState::Bomb);
                }
            } else {
                if p_cell_state == CellState::Flagged {
                    self.board_play_state.set(i, CellState::Cross);
                }
            }
            proof {
                let v = swept(p0[i as int], self@.truth[i as int]);
                lemma_count_state_update(p0, checked_pred(), i as int, v);
                lemma_count_state_update(p0, flag_pred(), i as int, v);
                if !(p0[i as int] == v) {
                    assert(self@.play == p0.update(i as int, v));
                } else {
                    assert(self@.play =~= p0.update(i as int, v));
                }
            }
            i = i + 1;
        }
        proof {
            lemma_index_all(w, h);
            reveal(EngineView::lost_into);
            assert(self@.lose_shown()) by {
                assert forall|k: int|
                    0 <= k < self@.play.len() && #[trigger] self@.truth[k] == CellState::Bomb implies self@.play[k]
                    == CellState::Bomb || self@.play[k] == CellState::Exploded || self@.play[k]
                    == CellState::Flagged by {
                    assert(self@.play[k] == swept(v0.play[k], v0.truth[k]));
                }
                assert forall|k: int|
                    0 <= k < self@.play.len() && #[trigger] self@.play[k] == CellState::Flagged implies self@.truth[k]
                    == CellState::Bomb by {
                    assert(self@.play[k] == swept(v0.play[k], v0.truth[k]));
                }
            }
        }
    }

    /// Reveals the unchecked safe cell `cell` (stored at `idx`), opens its
    /// region when no bomb is around it, and settles the game state.
    fn open_safe_cell(&mut self, cell: Cell, idx: usize, bombs: ZeroToEight) -> (r: GameState)
        requires
            old(self)@.wf(),
            old(self)@.initialised,
            !old(self)@.is_complete(),
            old(self)@.in_board(cell.x as int, cell.y as int),
            idx == index_of(old(self)@.height, cell.x as int, cell.y as int),
            old(self)@.play_at(cell.x as int, cell.y as int) == CellState::Unchecked,
            old(self)@.truth_at(cell.x as int, cell.y as int) == CellState::Checked(bombs),
        ensures
            old(self)@.opened_safe(final(self)@, cell.x as int, cell.y as int, r),
            final(self)@.initialised,
            final(self)@.started == old(self)@.started,
    {
        let ghost v0 = self@;
        let ghost x = cell.x as int;
        let ghost y = cell.y as int;
        let truth = CellState::Checked(bombs);
        proof {
            lemma_index_all(v0.width, v0.height);
            lemma_checked_and_flags_fit(v0.play);
        }
        self.board_play_state.set(idx, truth);
        proof {
            lemma_count_state_update(v0.play, checked_pred(), idx as int, truth);
            lemma_count_state_update(v0.play, flag_pred(), idx as int, truth);
            lemma_checked_and_flags_fit(self@.play);
        }
        self.checked_cells = self.checked_cells + 1;
        proof {
            assert(self@ == (EngineView {
                checked_cells: v0.checked_cells + 1,
                ..v0.with_play_at(x, y, truth)
            }));
        }
        if bombs == ZeroToEight::Zero {
            self.reveal_safe_patch(cell);
        }
        let ghost pre = self@;
        if self.is_game_won() {
            self.win_game();
            proof {
                assert(self@.play == pre.play);
                assert forall|a: int, b: int| v0.in_board(a, b) implies #[trigger] self@.play_at(a, b)
                    == pre.play_at(a, b) by {
                }
            }
            GameState::Complete(CompleteState::Win)
        } else {
            self.game_state = GameState::Playing;
            proof {
                assert(self@.play == pre.play);
                assert forall|a: int, b: int| v0.in_board(a, b) implies #[trigger] self@.play_at(a, b)
                    == pre.play_at(a, b) by {
                }
            }
            GameState::Playing
        }
    }

    /// Digs `cell`: reveals it (opening its region when it has no bomb
    /// around it), loses on a bomb, or, with `also_unflag`, removes a flag.
    fn dig_cell(&mut self, cell: Cell, also_unflag: bool) -> (r: GameState)
        requires
            old(self)@.wf(),
            old(self)@.initialised,
            !old(self)@.is_complete(),
            old(self)@.in_board(cell.x as int, cell.y as int),
        ensures
            old(self)@.dug(final(self)@, cell.x as int, cell.y as int, also_unflag, r),
            old(self)@.same_setup(final(self)@),
            !also_unflag ==> final(self)@.flagged_cells == old(self)@.flagged_cells,
            final(self)@.is_complete() <==> r is Complete,
            r is Complete ==> final(self)@.game_state == r,
            final(self)@.wf(),
            final(self)@.initialised,
            final(self)@.started == old(self)@.started,
    {
        let ghost v0 = self@;
        let ghost x = cell.x as int;
        let ghost y = cell.y as int;
        proof {
            lemma_index_all(v0.width, v0.height);
            lemma_checked_and_flags_fit(v0.play);
        }
        let idx = self.cell_index(cell.x, cell.y);
        match self.board_play_state[idx] {
            CellState::Unchecked => {
                let truth = self.board_state[idx];
                match truth {
                    CellState::Bomb => {
                        self.board_play_state.set(idx, CellState::Exploded);
                        proof {
                            lemma_count_state_update(v0.play, checked_pred(), idx as int, CellState::Exploded);
                            lemma_count_state_update(v0.play, flag_pred(), idx as int, CellState::Exploded);
                            assert(self@ == v0.with_play_at(x, y, CellState::Exploded));
                        }
                        self.lose_game();
                        return GameState::Complete(CompleteState::Lose);
                    },
                    CellState::Checked(bombs) => {
                        return self.open_safe_cell(cell, idx, bombs);
                    },
                    _ => {},
                }
            },
            CellState::Flagged => {
                if also_unflag {
                    self.board_play_state.set(idx, CellState::Unchecked);
                    proof {
                        lemma_count_state_positive(v0.play, flag_pred(), idx as int);
                        lemma_count_state_update(v0.play, checked_pred(), idx as int, CellState::Unchecked);
                        lemma_count_state_update(v0.play, flag_pred(), idx as int, CellState::Unchecked);
                    }
                    self.flagged_cells = self.flagged_cells - 1;
                }
            },
            _ => {},
        }
        GameState::Playing
    }

    /// Toggles a flag on an unchecked cell; the last correct flag can win.
    fn flag_cell(&mut self, cell: Cell) -> (r: GameState)
        requires
            old(self)@.wf(),
            old(self)@.initialised,
            !old(self)@.is_complete(),
            old(self)@.in_board(cell.x as int, cell.y as int),
        ensures
            old(self)@.flagged(final(self)@, cell.x as int, cell.y as int, r),
            old(self)@.same_setup(final(self)@),
            final(self)@.wf(),
            final(self)@.initialised,
            final(self)@.started == old(self)@.started,
    {
        let ghost v0 = self@;
        proof {
            lemma_index_all(v0.width, v0.height);
            lemma_checked_and_flags_fit(v0.play);
        }
        let idx = self.cell_index(cell.x, cell.y);
        match self.board_play_state[idx] {
            CellState::Unchecked => {
                self.board_play_state.set(idx, CellState::Flagged);
                proof {
                    lemma_count_state_update(v0.play, checked_pred(), idx as int, CellState::Flagged);
                    lemma_count_state_update(v0.play, flag_pred(), idx as int, CellState::Flagged);
                    lemma_checked_and_flags_fit(self@.play);
                }
                self.flagged_cells = self.flagged_cells + 1;
                if self.is_game_won() {
                    self.win_game();
                    return GameState::Complete(CompleteState::Win);
                } else {
                    self.game_state = GameState::Playing;
                }
            },
            CellState::Flagged => {
                self.board_play_state.set(idx, CellState::Unchecked);
                proof {
                    lemma_count_state_positive(v0.play, flag_pred(), idx as int);
                    lemma_count_state_update(v0.play, checked_pred(), idx as int, CellState::Unchecked);
                    lemma_count_state_update(v0.play, flag_pred(), idx as int, CellState::Unchecked);
                }
                self.flagged_cells = self.flagged_cells - 1;
            },
            _ => {},
        }
        GameState::Playing
    }


    /// A reveal never hides a cell the player could already see.
    pub proof fn lemma_reveal_keeps_visible(v: EngineView, sx: int, sy: int, a: int, b: int)
        ensures
            v.play_at(a, b) != CellState::Unchecked ==> v.after_reveal(sx, sy, a, b) == v.play_at(
                a,
                b,
            ),
            v.after_reveal(sx, sy, a, b) == v.play_at(a, b) || (v.play_at(a, b)
                == CellState::Unchecked && v.truth_at(a, b) is Checked && v.after_reveal(sx, sy, a, b)
                == v.truth_at(a, b)),
    {
        reveal(EngineView::after_reveal);
    }

    /// A dig that neither loses nor removes a flag only turns unchecked cells
    /// into revealed safe ones showing their ground truth, the dug cell among
    /// them, and keeps the flag counter.
    pub proof fn lemma_dig_keeps_visible(pre: EngineView, post: EngineView, x: int, y: int, r: GameState)
        requires
            pre.dug(post, x, y, false, r),
            pre.wf(),
            pre.in_board(x, y),
            r != GameState::Complete(CompleteState::Lose),
        ensures
            forall|a: int, b: int|
                pre.in_board(a, b) ==> #[trigger] post.play_at(a, b) == pre.play_at(a, b) || (
                pre.play_at(a, b) == CellState::Unchecked && post.play_at(a, b) == pre.truth_at(a, b)
                    && pre.truth_at(a, b) is Checked),
            pre.play_at(x, y) == CellState::Unchecked ==> post.play_at(x, y) != CellState::Unchecked,
            post.flagged_cells == pre.flagged_cells,
            post.truth == pre.truth,
    {
        lemma_index_all(pre.width, pre.height);
        if pre.play_at(x, y) == CellState::Unchecked {
            let t = pre.truth_at(x, y);
            let opened = EngineView { checked_cells: pre.checked_cells + 1, ..pre.with_play_at(x, y, t) };
            assert(t != CellState::Bomb);
            assert(t is Checked) by {
                assert(pre.truth[index_of(pre.height, x, y)] == t);
            }
            assert forall|a: int, b: int| pre.in_board(a, b) implies #[trigger] post.play_at(a, b)
                == pre.play_at(a, b) || (pre.play_at(a, b) == CellState::Unchecked && post.play_at(
                a,
                b,
            ) == pre.truth_at(a, b) && pre.truth_at(a, b) is Checked) by {
                Self::lemma_reveal_keeps_visible(opened, x, y, a, b);
                if a == x && b == y {
                    assert(opened.play_at(a, b) == t);
                } else {
                    assert(opened.play_at(a, b) == pre.play_at(a, b));
                }
                assert(opened.truth_at(a, b) == pre.truth_at(a, b));
            }
            Self::lemma_reveal_keeps_visible(opened, x, y, x, y);
            assert(opened.play_at(x, y) == t);
        }
    }

    /// After a chord's digs, every neighbour that was unchecked and is no
    /// longer so shows a safe ground truth: no hidden bomb was near.
    pub proof fn lemma_finished_chord(v0: EngineView, post: EngineView, x: int, y: int)
        requires
            post.truth == v0.truth,
            post.height == v0.height,
            forall|a: int, b: int|
                v0.in_board(a, b) ==> #[trigger] post.play_at(a, b) == v0.play_at(a, b) || (v0.play_at(
                    a,
                    b,
                ) == CellState::Unchecked && post.play_at(a, b) == v0.truth_at(a, b) && v0.truth_at(
                    a,
                    b,
                ) is Checked),
            forall|a: int, b: int|
                v0.in_board(a, b) && is_neighbour(x, y, a, b) ==> #[trigger] post.play_at(a, b)
                    != CellState::Unchecked,
        ensures
            !exists|a: int, b: int| v0.hidden_bomb_near(x, y, a, b),
            forall|a: int, b: int|
                v0.in_board(a, b) && is_neighbour(x, y, a, b) && v0.play_at(a, b)
                    == CellState::Unchecked ==> #[trigger] post.play_at(a, b) == v0.truth_at(a, b),
    {
        assert forall|a: int, b: int| !v0.hidden_bomb_near(x, y, a, b) by {
            if v0.hidden_bomb_near(x, y, a, b) {
                assert(post.play_at(a, b) != CellState::Unchecked);
            }
        }
        assert forall|a: int, b: int|
            v0.in_board(a, b) && is_neighbour(x, y, a, b) && v0.play_at(a, b)
                == CellState::Unchecked implies #[trigger] post.play_at(a, b) == v0.truth_at(a, b) by {
            assert(post.play_at(a, b) != CellState::Unchecked);
        }
    }

    /// A chord that wins left no hidden bomb near: a won board has no
    /// unchecked cell.
    pub proof fn lemma_won_chord(v0: EngineView, post: EngineView, x: int, y: int)
        requires
            post.wf(),
            post.won(),
            post.truth == v0.truth,
            post.height == v0.height,
            post.width == v0.width,
            forall|a: int, b: int|
                v0.in_board(a, b) ==> #[trigger] post.play_at(a, b) == v0.play_at(a, b) || (v0.play_at(
                    a,
                    b,
                ) == CellState::Unchecked && post.play_at(a, b) == v0.truth_at(a, b) && v0.truth_at(
                    a,
                    b,
                ) is Checked),
        ensures
            !exists|a: int, b: int| v0.hidden_bomb_near(x, y, a, b),
            forall|a: int, b: int|
                v0.in_board(a, b) && is_neighbour(x, y, a, b) && v0.play_at(a, b)
                    == CellState::Unchecked ==> #[trigger] post.play_at(a, b) == v0.truth_at(a, b),
    {
        lemma_filled_board(post.play);
        lemma_index_all(post.width, post.height);
        assert forall|a: int, b: int|
            v0.in_board(a, b) && is_neighbour(x, y, a, b) implies #[trigger] post.play_at(a, b)
            != CellState::Unchecked by {
            assert(post.play[index_of(post.height, a, b)] != CellState::Unchecked);
        }
        Self::lemma_finished_chord(v0, post, x, y);
    }

    /// A chord that loses exploded the first hidden bomb near, in the order
    /// the neighbours are dug.
    pub proof fn lemma_lost_chord(
        v0: EngineView,
        pre: EngineView,
        post: EngineView,
        x: int,
        y: int,
        cells: Seq<Cell>,
        k: int,
    )
        requires
            pre.wf(),
            0 <= k < cells.len(),
            pre.dug(post, cells[k].x as int, cells[k].y as int, false, GameState::Complete(
                CompleteState::Lose,
            )),
            forall|c: Cell|
                cells.contains(c) <==> is_neighbour(x, y, c.x as int, c.y as int) && v0.in_board(
                    c.x as int,
                    c.y as int,
                ),
            cells_in_order(cells),
            pre.truth == v0.truth,
            pre.height == v0.height,
            pre.width == v0.width,
            forall|a: int, b: int|
                v0.in_board(a, b) ==> #[trigger] pre.play_at(a, b) == v0.play_at(a, b) || (v0.play_at(
                    a,
                    b,
                ) == CellState::Unchecked && pre.play_at(a, b) == v0.truth_at(a, b) && v0.truth_at(
                    a,
                    b,
                ) is Checked),
            forall|j: int|
                0 <= j < k ==> pre.play_at((#[trigger] cells[j]).x as int, cells[j].y as int)
                    != CellState::Unchecked,
        ensures
            exists|a: int, b: int| #[trigger]
                v0.hidden_bomb_near(x, y, a, b) && post.play_at(a, b) == CellState::Exploded
                    && forall|c: int, d: int|
                    #[trigger] v0.hidden_bomb_near(x, y, c, d) ==> !comes_before(c, d, a, b),
    {
        reveal(EngineView::lost_into);
        lemma_index_all(pre.width, pre.height);
        let e = cells[k];
        let a = e.x as int;
        let b = e.y as int;
        assert(cells.contains(e));
        assert(pre.play_at(a, b) == CellState::Unchecked);
        assert(pre.truth_at(a, b) == CellState::Bomb);
        assert(v0.hidden_bomb_near(x, y, a, b));
        let lost = pre.with_play_at(a, b, CellState::Exploded);
        assert(lost.play_at(a, b) == CellState::Exploded);
        assert(post.play_at(a, b) == lost.swept_at(a, b));
        assert forall|c: int, d: int| #[trigger] v0.hidden_bomb_near(x, y, c, d) implies !comes_before(
            c,
            d,
            a,
            b,
        ) by {
            if comes_before(c, d, a, b) {
                let f = Cell { x: c as i32, y: d as i32 };
                assert(cells.contains(f));
                let j = choose|j: int| 0 <= j < cells.len() && cells[j] == f;
                if j > k {
                    assert(before(cells[k], cells[j]));
                }
                assert(j != k);
                assert(pre.play_at(c, d) != CellState::Unchecked);
            }
        }
    }

    fn flag_at_cell(&self, x: i64, y: i64) -> (r: usize)
        requires
            self@.dims_ok(),
        ensures
            r == flag_at(self@.play, self@.width, self@.height, x as int, y as int),
    {
        if x >= 0 && x < self.width as i64 && y >= 0 && y < self.height as i64 {
            let idx = self.cell_index(x as i32, y as i32);
            match self.board_play_state[idx] {
                CellState::Flagged => 1,
                _ => 0,
            }
        } else {
            0
        }
    }

    /// The number of flags around `cell`.
    fn count_flags_around(&self, cell: Cell) -> (r: usize)
        requires
            self@.dims_ok(),
        ensures
            r == flags_around(self@.play, self@.width, self@.height, cell.x as int, cell.y as int),
    {
        let x = cell.x as i64;
        let y = cell.y as i64;
        self.flag_at_cell(x - 1, y - 1) + self.flag_at_cell(x - 1, y) + self.flag_at_cell(x - 1, y + 1)
            + self.flag_at_cell(x, y - 1) + self.flag_at_cell(x, y + 1) + self.flag_at_cell(x + 1, y - 1)
            + self.flag_at_cell(x + 1, y) + self.flag_at_cell(x + 1, y + 1)
    }

    /// Chords on `cell`: when it shows a count equal to the flags around it,
    /// digs every neighbour (leaving flags alone) and stops on a finished game.
    fn dig_around_cell(&mut self, cell: Cell) -> (r: GameState)
        requires
            old(self)@.wf(),
            old(self)@.initialised,
            !old(self)@.is_complete(),
            old(self)@.in_board(cell.x as int, cell.y as int),
        ensures
            old(self)@.chorded(final(self)@, cell.x as int, cell.y as int, r),
            old(self)@.same_setup(final(self)@),
            final(self)@.wf(),
            final(self)@.initialised,
    {
        let ghost v0 = self@;
        let ghost x = cell.x as int;
        let ghost y = cell.y as int;
        proof {
            lemma_index_all(v0.width, v0.height);
        }
        let idx = self.cell_index(cell.x, cell.y);
        if let CellState::Checked(adjacent_bombs) = self.board_play_state[idx] {
            let surrounding_cells = self.get_surrounding_cells(cell);
            let num_flagged_surrounding_cells = self.count_flags_around(cell);
            if adjacent_bombs.to_usize() == num_flagged_surrounding_cells {
                let mut k: usize = 0;
                while k < surrounding_cells.len()
                    invariant
                        0 <= k <= surrounding_cells@.len(),
                        forall|c: Cell|
                            surrounding_cells@.contains(c) <==> is_neighbour(
                                x,
                                y,
                                c.x as int,
                                c.y as int,
                            ) && v0.in_board(c.x as int, c.y as int),
                        surrounding_cells@.no_duplicates(),
                        cells_in_order(surrounding_cells@),
                        self@.wf(),
                        self@.initialised,
                        !self@.is_complete(),
                        v0 == old(self)@,
                        x == cell.x as int,
                        y == cell.y as int,
                        v0.same_setup(self@),
                        v0.chord_allowed(x, y),
                        self@.flagged_cells == v0.flagged_cells,
                        forall|a: int, b: int|
                            v0.in_board(a, b) ==> #[trigger] self@.play_at(a, b) == v0.play_at(a, b)
                                || (v0.play_at(a, b) == CellState::Unchecked && self@.play_at(a, b)
                                == v0.truth_at(a, b) && v0.truth_at(a, b) is Checked),
                        forall|j: int|
                            0 <= j < k ==> self@.play_at(
                                (#[trigger] surrounding_cells@[j]).x as int,
                                surrounding_cells@[j].y as int,
                            ) != CellState::Unchecked,
                    decreases surrounding_cells@.len() - k,
                {
                    let c = surrounding_cells[k];
                    let ghost pre = self@;
                    proof {
                        assert(surrounding_cells@.contains(c));
                    }
                    let result = self.dig_cell(c, false);
                    proof {
                        let cx = c.x as int;
                        let cy = c.y as int;
                        if result != GameState::Complete(CompleteState::Lose) {
                            Self::lemma_dig_keeps_visible(pre, self@, cx, cy, result);
                            assert forall|j: int| 0 <= j < k + 1 implies self@.play_at(
                                (#[trigger] surrounding_cells@[j]).x as int,
                                surrounding_cells@[j].y as int,
                            ) != CellState::Unchecked by {
                                assert(surrounding_cells@.contains(surrounding_cells@[j]));
                            }
                            if result == GameState::Complete(CompleteState::Win) {
                                Self::lemma_won_chord(v0, self@, x, y);
                            }
                        } else {
                            Self::lemma_lost_chord(v0, pre, self@, x, y, surrounding_cells@, k as int);
                        }
                    }
                    if let GameState::Complete(state) = result {
                        return GameState::Complete(state);
                    }
                    k = k + 1;
                }
                proof {
                    assert forall|a: int, b: int|
                        v0.in_board(a, b) && is_neighbour(x, y, a, b) implies #[trigger] self@.play_at(
                        a,
                        b,
                    ) != CellState::Unchecked by {
                        let c = Cell { x: a as i32, y: b as i32 };
                        assert(surrounding_cells@.contains(c));
                        let j = choose|j: int|
                            0 <= j < surrounding_cells@.len() && surrounding_cells@[j] == c;
                    }
                    Self::lemma_finished_chord(v0, self@, x, y);
                }
            }
        }
        GameState::Playing
    }

    /// The number of cells that may still become bombs around a first move
    /// at `cell`: those outside its safe zone that are not bombs yet.
    fn count_free_cells(&self, cell: Cell) -> (r: i32)
        requires
            self@.dims_ok(),
        ensures
            r == self@.free_count(cell.x as int, cell.y as int),
    {
        let ghost cx = cell.x as int;
        let ghost cy = cell.y as int;
        let mut n: i32 = 0;
        let mut i: i32 = 0;
        while i < self.total_cells
            invariant
                self@.dims_ok(),
                cx == cell.x as int,
                cy == cell.y as int,
                0 <= i <= self@.total_cells,
                n == self@.free_upto(cx, cy, i as int),
                0 <= n <= i,
            decreases self@.total_cells - i,
        {
            proof {
                if self@.height == 0 {
                    assert(self@.width * self@.height == 0) by (nonlinear_arith)
                        requires
                            self@.height == 0,
                    ;
                }
            }
            let x = i / self.height;
            let y = i % self.height;
            let near = (x as i64) >= (cell.x as i64) - 1 && (x as i64) <= (cell.x as i64) + 1
                && (y as i64) >= (cell.y as i64) - 1 && (y as i64) <= (cell.y as i64) + 1;
            let is_bomb = match self.board_state[i as usize] {
                CellState::Bomb => true,
                _ => false,
            };
            if !near && !is_bomb {
                n = n + 1;
            }
            i = i + 1;
        }
        n
    }


    fn risk_at_cell(&self, x: i64, y: i64) -> (r: u8)
        requires
            self@.dims_ok(),
        ensures
            r == risk_at(self@.play, self@.width, self@.height, x as int, y as int),
    {
        if x >= 0 && x < self.width as i64 && y >= 0 && y < self.height as i64 {
            let idx = self.cell_index(x as i32, y as i32);
            match self.board_play_state[idx] {
                CellState::Unchecked => 0,
                CellState::Checked(count) => count.to_usize() as u8,
                CellState::Flagged => 0,
                CellState::Bomb => 8,
                CellState::Cross => 0,
                CellState::Exploded => 8,
            }
        } else {
            0
        }
    }

}

fn higher(a: u8, b: u8) -> (r: u8)
    ensures
        r == max_nat(a as nat, b as nat),
{
    if a >= b {
        a
    } else {
        b
    }
}

impl CanBeEngine for Engine {
    open spec fn inv(&self) -> bool {
        self@.wf()
    }

    open spec fn accepts(&self, cell: Cell) -> bool {
        self@.move_defined(cell.x as int, cell.y as int)
    }

    fn get_size(&self) -> (r: (i32, i32))
        ensures
            r.0 == self@.width,
            r.1 == self@.height,
    {
        (self.width, self.height)
    }

    fn get_board_state(&self) -> (r: (GameStats, Vec<(Cell, CellState)>))
        ensures
            r.0.game_state == self@.game_state,
            r.0.flags_remaining == self@.bomb_count - self@.flagged_cells,
            self@.is_complete() ==> r.0.game_run_time == self@.complete_time,
            !self@.started ==> r.0.game_run_time == 0,
            r.1@.len() == self@.total_cells,
            forall|x: int, y: int|
                self@.in_board(x, y) ==> (#[trigger] r.1@[index_of(self@.height, x, y)]).0.x == x
                    && r.1@[index_of(self@.height, x, y)].0.y == y && r.1@[index_of(
                    self@.height,
                    x,
                    y,
                )].1 == self@.play_at(x, y),
    {
        let game_time = match self.game_state {
            GameState::Complete(_) => self.game_complete_time,
            _ => match self.start_instant {
                None => 0,
                Some(instant) => instant.elapsed().as_secs(),
            },
        };
        proof {
            lemma_count_state_bound(self@.play, flag_pred());
        }
        let stats = GameStats {
            game_state: self.game_state,
            flags_remaining: self.bomb_count - self.flagged_cells,
            game_run_time: game_time,
        };
        let ghost h = self@.height;
        let mut cells: Vec<(Cell, CellState)> = Vec::new();
        let mut i: i32 = 0;
        while i < self.total_cells
            invariant
                self@.wf(),
                h == self@.height,
                0 <= i <= self@.total_cells,
                cells@.len() == i,
                forall|k: int|
                    0 <= k < i ==> (#[trigger] cells@[k]).0.x == k / h && cells@[k].0.y == k % h
                        && cells@[k].1 == self@.play[k],
            decreases self@.total_cells - i,
        {
            proof {
                if self@.height == 0 {
                    assert(self@.width * self@.height == 0) by (nonlinear_arith)
                        requires
                            self@.height == 0,
                    ;
                }
                lemma_decompose(self@.width, h, i as int);
            }
            let x = i / self.height;
            let y = i % self.height;
            cells.push((Cell { x, y }, self.board_play_state[i as usize]));
            i = i + 1;
        }
        proof {
            lemma_index_all(self@.width, h);
        }
        (stats, cells)
    }

    /// A finished game answers with its state; a cell with a negative
    /// coordinate or past the declared size is `OutOfRange`; a bomb count that does not leave a free cell, or (on
    /// the first move) does not fit outside the safe zone, is
    /// `InvalidConfiguration`. The first accepted move generates the board.
    fn play_move(&mut self, move_type: MoveType, cell: Cell) -> (r: Result<GameState, EngineError>)
        ensures
            old(self)@.moved(final(self)@, move_type, cell.x as int, cell.y as int, r),
    {
        if let GameState::Complete(state) = self.game_state {
            return Ok(GameState::Complete(state));
        }
        if cell.x < 0 || cell.y < 0 || cell.x > self.width || cell.y > self.height {
            return Err(EngineError::OutOfRange);
        }
        if self.bomb_count >= self.total_cells {
            return Err(EngineError::InvalidConfiguration);
        }
        if !self.board_initialised {
            if self.bomb_count > self.count_free_cells(cell) {
                return Err(EngineError::InvalidConfiguration);
            }
            let ghost before_start = self@;
            self.start_instant = Some(Instant::now());
            proof {
                lemma_count_same(
                    self@.total_cells,
                    |i: int| before_start.free_at(cell.x as int, cell.y as int, i),
                    |i: int| self@.free_at(cell.x as int, cell.y as int, i),
                );
            }
            self.initialise_board(cell);
        }
        let ghost g = self@;
        let game_state = match move_type {
            MoveType::Dig => self.dig_cell(cell, true),
            MoveType::Flag => self.flag_cell(cell),
            MoveType::DigAround => self.dig_around_cell(cell),
        };
        proof {
            let pre = old(self)@;
            if !pre.initialised {
                assert forall|a: int, b: int|
                    pre.in_board(a, b) && in_zone(cell.x as int, cell.y as int, a, b) implies #[trigger] self@.truth_at(a, b)
                    != CellState::Bomb by {
                    assert(g.truth_at(a, b) == self@.truth_at(a, b));
                }
            }
            assert(g == (EngineView {
                truth: self@.truth,
                initialised: true,
                started: self@.started,
                ..pre
            }));
        }
        Ok(game_state)
    }

    fn make_clone(&self) -> (r: Self)
        ensures
            r@.width == self@.width,
            r@.height == self@.height,
            r@.bomb_count == self@.bomb_count,
            r@.total_cells == self@.total_cells,
            r@.game_state == GameState::Initialised,
            !r@.initialised,
            !r@.started,
            r@.complete_time == 0,
            r@.checked_cells == 0,
            r@.flagged_cells == 0,
            forall|i: int| 0 <= i < r@.total_cells ==> r@.play[i] == CellState::Unchecked,
            forall|i: int|
                0 <= i < r@.total_cells ==> r@.truth[i] == CellState::Checked(ZeroToEight::Zero),
    {
        Engine::new(self.width, self.height, self.bomb_count)
    }

    fn get_chill_factor(&mut self, cell: Cell) -> (r: Result<ZeroToEight, EngineError>)
        ensures
            final(self)@ == old(self)@,
            old(self)@.in_board(cell.x as int, cell.y as int) ==> r is Ok && r->Ok_0.value()
                == chill_factor(
                old(self)@.play,
                old(self)@.width,
                old(self)@.height,
                cell.x as int,
                cell.y as int,
            ),
            !old(self)@.in_board(cell.x as int, cell.y as int) ==> r == Err::<
                ZeroToEight,
                EngineError,
            >(EngineError::OutOfRange),
    {
        if cell.x < 0 || cell.x >= self.width || cell.y < 0 || cell.y >= self.height {
            return Err(EngineError::OutOfRange);
        }
        let x = cell.x as i64;
        let y = cell.y as i64;
        let here = self.risk_at_cell(x, y);
        let left = higher(
            higher(self.risk_at_cell(x - 1, y - 1), self.risk_at_cell(x - 1, y)),
            higher(self.risk_at_cell(x - 1, y + 1), self.risk_at_cell(x, y - 1)),
        );
        let right = higher(
            higher(self.risk_at_cell(x, y + 1), self.risk_at_cell(x + 1, y - 1)),
            higher(self.risk_at_cell(x + 1, y), self.risk_at_cell(x + 1, y + 1)),
        );
        let least_chill_value = higher(here, higher(left, right));
        ZeroToEight::from_u8(least_chill_value)
    }
}

/// What the end-of-game sweep makes of a cell shown as `p` over truth `t`.
pub open spec fn swept(p: CellState, t: CellState) -> CellState {
    if t == CellState::Bomb {
        if p == CellState::Flagged || p == CellState::Exploded {
            p
        } else {
            CellState::Bomb
        }
    } else if p == CellState::Flagged {
        CellState::Cross
    } else {
        p
    }
}

/// The coordinates of each cell, in order.
pub open spec fn pairs(cells: Seq<Cell>) -> Seq<(i32, i32)> {
    cells.map_values(|c: Cell| (c.x, c.y))
}

/// Puts each cell of `cells` at the back of the queue, in order.
fn enqueue_cells(q: &mut Queue<(i32, i32)>, cells: &Vec<Cell>)
    ensures
        queued(*final(q)) == queued(*old(q)) + pairs(cells@),
{
    let mut k: usize = 0;
    while k < cells.len()
        invariant
            0 <= k <= cells@.len(),
            queued(*q) == queued(*old(q)) + pairs(cells@.subrange(0, k as int)),
        decreases cells@.len() - k,
    {
        let c = cells[k];
        queue_add(q, (c.x, c.y));
        proof {
            assert(pairs(cells@.subrange(0, k + 1)) =~= pairs(cells@.subrange(0, k as int)).push(
                (c.x, c.y),
            ));
        }
        k = k + 1;
    }
    proof {
        assert(cells@.subrange(0, cells@.len() as int) =~= cells@);
    }
}

/// (a, b) comes before (c, d) by column, then by row.
pub open spec fn comes_before(a: int, b: int, c: int, d: int) -> bool {
    a < c || (a == c && b < d)
}

/// `a` comes before `b` by column, then by row.
pub open spec fn before(a: Cell, b: Cell) -> bool {
    comes_before(a.x as int, a.y as int, b.x as int, b.y as int)
}

/// The cells are listed by column, then by row.
pub open spec fn cells_in_order(cells: Seq<Cell>) -> bool {
    forall|i: int, j: int| 0 <= i < j < cells.len() ==> #[trigger] before(cells[i], cells[j])
}

/// Some cell among the first `k` of `cells` sits at (x, y).
pub open spec fn processed(cells: Seq<Cell>, k: int, x: int, y: int) -> bool {
    exists|j: int| 0 <= j < k && cells[j].x == x && cells[j].y == y
}

} // verus!
