//! Properties of the game that relate the engine's operations, proved from
//! their contracts.
use vstd::prelude::*;
use crate::board::{
    adjacent_bombs, bomb_pred, count_state, in_zone, index_of, is_neighbour, lemma_index_all,
    reachable,
};
use crate::engine::EngineView;
use crate::types::{CellState, CompleteState, EngineError, GameState, MoveType, ZeroToEight};

verus! {

/// The first move never lands on or next to a bomb: once a move on a fresh
/// board is accepted, the played cell and its neighbours are safe.
pub proof fn law_first_move_safe(
    pre: EngineView,
    post: EngineView,
    m: MoveType,
    x: int,
    y: int,
    r: Result<GameState, EngineError>,
)
    requires
        pre.wf(),
        !pre.initialised,
        pre.moved(post, m, x, y, r),
        r is Ok,
    ensures
        forall|a: int, b: int|
            pre.in_board(a, b) && in_zone(x, y, a, b) ==> #[trigger] post.truth_at(a, b)
                != CellState::Bomb,
{
}

/// A generated board holds exactly the configured number of bombs.
pub proof fn law_bomb_count(v: EngineView)
    requires
        v.wf(),
        v.initialised,
    ensures
        count_state(v.truth, bomb_pred()) == v.bomb_count,
{
}

/// Every safe cell of the ground truth holds the number of bombs around it.
pub proof fn law_adjacent_counts(v: EngineView)
    requires
        v.wf(),
    ensures
        forall|x: int, y: int|
            v.in_board(x, y) && #[trigger] v.truth_at(x, y) != CellState::Bomb ==> v.truth_at(
                x,
                y,
            ) is Checked && v.truth_at(x, y)->Checked_0.value() == adjacent_bombs(
                v.truth,
                v.width,
                v.height,
                x,
                y,
            ),
{
    lemma_index_all(v.width, v.height);
    assert forall|x: int, y: int|
        v.in_board(x, y) && #[trigger] v.truth_at(x, y) != CellState::Bomb implies v.truth_at(
        x,
        y,
    ) is Checked && v.truth_at(x, y)->Checked_0.value() == adjacent_bombs(
        v.truth,
        v.width,
        v.height,
        x,
        y,
    ) by {
        assert(v.truth[index_of(v.height, x, y)] == v.truth_at(x, y));
    }
}

/// Digging an unchecked cell with no bomb around it opens exactly the cells
/// reached through zero cells (the zero region and its border); unchecked
/// ones among them are revealed and every other cell is left as it was.
pub proof fn law_flood_fill(
    pre: EngineView,
    post: EngineView,
    x: int,
    y: int,
    r: Result<GameState, EngineError>,
)
    requires
        pre.wf(),
        pre.moved(post, MoveType::Dig, x, y, r),
        r is Ok,
        !pre.is_complete(),
        pre.play_at(x, y) == CellState::Unchecked,
        post.truth_at(x, y) == CellState::Checked(ZeroToEight::Zero),
    ensures
        forall|a: int, b: int|
            pre.in_board(a, b) ==> #[trigger] post.play_at(a, b) == if reachable(
                post.truth,
                post.width,
                post.height,
                x,
                y,
                a,
                b,
            ) && pre.play_at(a, b) == CellState::Unchecked && post.truth_at(a, b) is Checked {
                post.truth_at(a, b)
            } else {
                pre.play_at(a, b)
            },
{
    reveal(EngineView::after_reveal);
    lemma_index_all(pre.width, pre.height);
    let g = EngineView { truth: post.truth, initialised: true, started: post.started, ..pre };
    let t = g.truth_at(x, y);
    let opened = EngineView { checked_cells: g.checked_cells + 1, ..g.with_play_at(x, y, t) };
    assert(g.dug(post, x, y, true, r->Ok_0));
    assert(g.play_at(x, y) == CellState::Unchecked);
    assert(t == CellState::Checked(ZeroToEight::Zero));
    assert(g.opened_safe(post, x, y, r->Ok_0));
    assert forall|a: int, b: int| pre.in_board(a, b) implies #[trigger] post.play_at(a, b) == if reachable(
        post.truth,
        post.width,
        post.height,
        x,
        y,
        a,
        b,
    ) && pre.play_at(a, b) == CellState::Unchecked && post.truth_at(a, b) is Checked {
        post.truth_at(a, b)
    } else {
        pre.play_at(a, b)
    } by {
        assert(post.play_at(a, b) == opened.after_reveal(x, y, a, b));
        if a == x && b == y {
            assert(opened.play_at(a, b) == t);
            assert(reachable(post.truth, post.width, post.height, x, y, x, y)) by {
                crate::board::lemma_reach_start(post.truth, post.width, post.height, x, y);
            }
        } else {
            assert(opened.play_at(a, b) == pre.play_at(a, b));
        }
    }
}

/// In every reachable state of a non-empty board, the game is won exactly
/// when every cell is revealed or flagged and the flags match the bombs.
pub proof fn law_win_iff(v: EngineView)
    requires
        v.wf(),
        v.total_cells > 0,
    ensures
        v.game_state == GameState::Complete(CompleteState::Win) <==> (v.checked_cells
            + v.flagged_cells == v.total_cells && v.flagged_cells == v.bomb_count),
{
}

/// After a loss every bomb is visible (as a bomb, the exploded bomb, or a
/// flag the player had put on it) and no flag stands on a safe cell: wrong
/// flags have become crosses.
pub proof fn law_lose_sweep(v: EngineView)
    requires
        v.wf(),
        v.game_state == GameState::Complete(CompleteState::Lose),
    ensures
        forall|a: int, b: int|
            v.in_board(a, b) && #[trigger] v.truth_at(a, b) == CellState::Bomb ==> v.play_at(a, b)
                == CellState::Bomb || v.play_at(a, b) == CellState::Exploded || v.play_at(a, b)
                == CellState::Flagged,
        forall|a: int, b: int|
            v.in_board(a, b) && #[trigger] v.play_at(a, b) == CellState::Flagged ==> v.truth_at(
                a,
                b,
            ) == CellState::Bomb,
{
    lemma_index_all(v.width, v.height);
    assert forall|a: int, b: int|
        v.in_board(a, b) && #[trigger] v.truth_at(a, b) == CellState::Bomb implies v.play_at(a, b)
        == CellState::Bomb || v.play_at(a, b) == CellState::Exploded || v.play_at(a, b)
        == CellState::Flagged by {
        assert(v.truth[index_of(v.height, a, b)] == CellState::Bomb);
    }
    assert forall|a: int, b: int|
        v.in_board(a, b) && #[trigger] v.play_at(a, b) == CellState::Flagged implies v.truth_at(a, b)
        == CellState::Bomb by {
        assert(v.play[index_of(v.height, a, b)] == CellState::Flagged);
    }
}

/// Flagging an untouched cell and then flagging it again gives back the
/// board the player saw and the counters, unless the first flag won.
pub proof fn law_flag_unflag(
    pre: EngineView,
    mid: EngineView,
    post: EngineView,
    x: int,
    y: int,
    r1: Result<GameState, EngineError>,
    r2: Result<GameState, EngineError>,
)
    requires
        pre.wf(),
        pre.in_board(x, y),
        !pre.is_complete(),
        pre.play_at(x, y) == CellState::Unchecked,
        pre.moved(mid, MoveType::Flag, x, y, r1),
        mid.moved(post, MoveType::Flag, x, y, r2),
        r1 != Ok::<GameState, EngineError>(GameState::Complete(CompleteState::Win)),
    ensures
        post.play == pre.play,
        post.checked_cells == pre.checked_cells,
        post.flagged_cells == pre.flagged_cells,
{
    lemma_index_all(pre.width, pre.height);
    if r1 is Ok {
        let i = index_of(pre.height, x, y);
        assert(mid.play_at(x, y) == CellState::Flagged);
        assert(post.play =~= pre.play);
    }
}

/// A chord whose count does not match the flags around it changes neither
/// what the player sees nor any counter.
pub proof fn law_chord_gating(
    pre: EngineView,
    post: EngineView,
    x: int,
    y: int,
    r: Result<GameState, EngineError>,
)
    requires
        pre.wf(),
        pre.moved(post, MoveType::DigAround, x, y, r),
        !pre.chord_allowed(x, y),
    ensures
        post.play == pre.play,
        post.checked_cells == pre.checked_cells,
        post.flagged_cells == pre.flagged_cells,
        post.game_state == pre.game_state,
{
}

/// A chord whose count matches the flags around it loses exactly when an
/// unchecked neighbour holds a bomb; otherwise every unchecked neighbour
/// shows its ground truth. Either way the flag counter is unchanged.
pub proof fn law_chord_digs(
    pre: EngineView,
    post: EngineView,
    x: int,
    y: int,
    r: Result<GameState, EngineError>,
)
    requires
        pre.wf(),
        pre.initialised,
        !pre.is_complete(),
        pre.moved(post, MoveType::DigAround, x, y, r),
        r is Ok,
        pre.chord_allowed(x, y),
    ensures
        r == Ok::<GameState, EngineError>(GameState::Complete(CompleteState::Lose)) <==> exists|
            a: int,
            b: int,
        | pre.hidden_bomb_near(x, y, a, b),
        r != Ok::<GameState, EngineError>(GameState::Complete(CompleteState::Lose)) ==> forall|
            a: int,
            b: int,
        |
            pre.in_board(a, b) && is_neighbour(x, y, a, b) && pre.play_at(a, b)
                == CellState::Unchecked ==> #[trigger] post.play_at(a, b) == pre.truth_at(a, b),
        post.flagged_cells == pre.flagged_cells,
{
    let g = EngineView { truth: post.truth, initialised: true, started: post.started, ..pre };
    assert(g == pre);
}

/// A move on a negative coordinate or past the declared width or height
/// fails with `OutOfRange` and changes nothing.
pub proof fn law_out_of_range(
    pre: EngineView,
    post: EngineView,
    m: MoveType,
    x: int,
    y: int,
    r: Result<GameState, EngineError>,
)
    requires
        pre.wf(),
        !pre.is_complete(),
        x < 0 || y < 0 || x > pre.width || y > pre.height,
        pre.moved(post, m, x, y, r),
    ensures
        r == Err::<GameState, EngineError>(EngineError::OutOfRange),
        post == pre,
{
}

/// Once the game is complete, every move returns that same state and changes
/// nothing.
pub proof fn law_complete_is_final(
    pre: EngineView,
    post: EngineView,
    m: MoveType,
    x: int,
    y: int,
    r: Result<GameState, EngineError>,
)
    requires
        pre.wf(),
        pre.is_complete(),
        pre.moved(post, m, x, y, r),
    ensures
        r == Ok::<GameState, EngineError>(pre.game_state),
        post == pre,
{
}

} // verus!
