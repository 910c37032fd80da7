//! The mathematical model of a board: cells stored column by column in a flat
//! sequence, neighbourhoods, adjacent-bomb counts, and counting lemmas.
use vstd::prelude::*;
use vstd::arithmetic::div_mod::{
    lemma_fundamental_div_mod, lemma_fundamental_div_mod_converse, lemma_mod_bound,
};
use crate::types::{CellState, ZeroToEight};

verus! {

pub open spec fn on_board(w: int, h: int, x: int, y: int) -> bool {
    0 <= x < w && 0 <= y < h
}

/// Cells are stored column by column: cell (x, y) sits at `x * h + y`.
pub open spec fn index_of(h: int, x: int, y: int) -> int {
    x * h + y
}

pub open spec fn at(s: Seq<CellState>, h: int, x: int, y: int) -> CellState {
    s[index_of(h, x, y)]
}

/// (a, b) is one of the eight cells around (x, y).
pub open spec fn is_neighbour(x: int, y: int, a: int, b: int) -> bool {
    (a != x || b != y) && x - 1 <= a <= x + 1 && y - 1 <= b <= y + 1
}

/// (a, b) is (x, y) or one of its neighbours.
pub open spec fn in_zone(x: int, y: int, a: int, b: int) -> bool {
    x - 1 <= a <= x + 1 && y - 1 <= b <= y + 1
}

pub open spec fn bomb_at(s: Seq<CellState>, w: int, h: int, x: int, y: int) -> int {
    if on_board(w, h, x, y) && at(s, h, x, y) == CellState::Bomb {
        1
    } else {
        0
    }
}

/// The number of bombs among the on-board neighbours of (x, y).
pub open spec fn adjacent_bombs(s: Seq<CellState>, w: int, h: int, x: int, y: int) -> int {
    bomb_at(s, w, h, x - 1, y - 1) + bomb_at(s, w, h, x - 1, y) + bomb_at(s, w, h, x - 1, y + 1)
        + bomb_at(s, w, h, x, y - 1) + bomb_at(s, w, h, x, y + 1) + bomb_at(s, w, h, x + 1, y - 1)
        + bomb_at(s, w, h, x + 1, y) + bomb_at(s, w, h, x + 1, y + 1)
}

pub open spec fn flag_at(s: Seq<CellState>, w: int, h: int, x: int, y: int) -> int {
    if on_board(w, h, x, y) && at(s, h, x, y) == CellState::Flagged {
        1
    } else {
        0
    }
}

/// The number of flags among the on-board neighbours of (x, y).
pub open spec fn flags_around(s: Seq<CellState>, w: int, h: int, x: int, y: int) -> int {
    flag_at(s, w, h, x - 1, y - 1) + flag_at(s, w, h, x - 1, y) + flag_at(s, w, h, x - 1, y + 1)
        + flag_at(s, w, h, x, y - 1) + flag_at(s, w, h, x, y + 1) + flag_at(s, w, h, x + 1, y - 1)
        + flag_at(s, w, h, x + 1, y) + flag_at(s, w, h, x + 1, y + 1)
}

/// How alarming a visible cell is: its count when revealed, eight for a bomb.
pub open spec fn risk(c: CellState) -> nat {
    match c {
        CellState::Checked(n) => n.value(),
        CellState::Bomb => 8,
        CellState::Exploded => 8,
        _ => 0,
    }
}

pub open spec fn risk_at(s: Seq<CellState>, w: int, h: int, x: int, y: int) -> nat {
    if on_board(w, h, x, y) {
        risk(at(s, h, x, y))
    } else {
        0
    }
}

pub open spec fn max_nat(a: nat, b: nat) -> nat {
    if a >= b {
        a
    } else {
        b
    }
}

/// The highest risk shown on (x, y) and its on-board neighbours.
pub open spec fn chill_factor(s: Seq<CellState>, w: int, h: int, x: int, y: int) -> nat {
    max_nat(
        risk_at(s, w, h, x, y),
        max_nat(
            max_nat(
                max_nat(risk_at(s, w, h, x - 1, y - 1), risk_at(s, w, h, x - 1, y)),
                max_nat(risk_at(s, w, h, x - 1, y + 1), risk_at(s, w, h, x, y - 1)),
            ),
            max_nat(
                max_nat(risk_at(s, w, h, x, y + 1), risk_at(s, w, h, x + 1, y - 1)),
                max_nat(risk_at(s, w, h, x + 1, y), risk_at(s, w, h, x + 1, y + 1)),
            ),
        ),
    )
}

/// Every cell of a ground truth is a bomb or a safe cell.
pub open spec fn truth_cells_valid(s: Seq<CellState>) -> bool {
    forall|i: int| 0 <= i < s.len() ==> (#[trigger] s[i] == CellState::Bomb || s[i] is Checked)
}

/// Every safe cell of a ground truth holds the number of bombs around it.
pub open spec fn counts_match(s: Seq<CellState>, w: int, h: int) -> bool {
    forall|x: int, y: int|
        on_board(w, h, x, y) && (#[trigger] at(s, h, x, y)) is Checked ==> at(
            s,
            h,
            x,
            y,
        )->Checked_0.value() == adjacent_bombs(s, w, h, x, y)
}

/// The number of `k` in `0..n` for which `f(k)` holds.
pub open spec fn count_where(n: int, f: spec_fn(int) -> bool) -> nat
    decreases n,
{
    if n <= 0 {
        0
    } else {
        count_where(n - 1, f) + if f(n - 1) {
            1nat
        } else {
            0nat
        }
    }
}

/// The number of entries of `s` whose state satisfies `p`.
pub open spec fn count_state(s: Seq<CellState>, p: spec_fn(CellState) -> bool) -> nat {
    count_where(s.len() as int, |k: int| p(s[k]))
}

pub open spec fn bomb_pred() -> spec_fn(CellState) -> bool {
    |c: CellState| c == CellState::Bomb
}

pub open spec fn checked_pred() -> spec_fn(CellState) -> bool {
    |c: CellState| c is Checked
}

/// A flag, or a flag shown to be wrong at the end of a lost game.
pub open spec fn flag_pred() -> spec_fn(CellState) -> bool {
    |c: CellState| c == CellState::Flagged || c == CellState::Cross
}

pub open spec fn one_if(b: bool) -> int {
    if b {
        1
    } else {
        0
    }
}

/// (x, y) is on the board and has no bomb around it.
pub open spec fn zero_at(s: Seq<CellState>, w: int, h: int, x: int, y: int) -> bool {
    on_board(w, h, x, y) && at(s, h, x, y) == CellState::Checked(ZeroToEight::Zero)
}

/// A walk over on-board cells in which every step leaves a zero cell for one
/// of its neighbours.
pub open spec fn zero_walk(s: Seq<CellState>, w: int, h: int, p: Seq<(int, int)>) -> bool {
    &&& p.len() > 0
    &&& forall|i: int| 0 <= i < p.len() ==> on_board(w, h, (#[trigger] p[i]).0, p[i].1)
    &&& forall|i: int|
        0 <= i < p.len() - 1 ==> zero_at(s, w, h, (#[trigger] p[i]).0, p[i].1) && is_neighbour(
            p[i].0,
            p[i].1,
            p[i + 1].0,
            p[i + 1].1,
        )
}

/// (x, y) is reached from (sx, sy) through zero cells: the cells that one
/// reveal of (sx, sy) opens.
pub open spec fn reachable(s: Seq<CellState>, w: int, h: int, sx: int, sy: int, x: int, y: int) -> bool {
    exists|p: Seq<(int, int)>|
        zero_walk(s, w, h, p) && p[0] == (sx, sy) && #[trigger] p.last() == (x, y)
}

/// Every marked zero cell has all its on-board neighbours marked.
pub open spec fn closed_under_zero(s: Seq<CellState>, w: int, h: int, vis: Seq<bool>) -> bool {
    forall|x: int, y: int, a: int, b: int|
        on_board(w, h, x, y) && #[trigger] vis[index_of(h, x, y)] && zero_at(s, w, h, x, y)
            && is_neighbour(x, y, a, b) && on_board(w, h, a, b) ==> #[trigger] vis[index_of(
            h,
            a,
            b,
        )]
}

/// Some entry of a queue of coordinates is (x, y).
pub open spec fn in_queue(q: Seq<(i32, i32)>, x: int, y: int) -> bool {
    exists|j: int| 0 <= j < q.len() && (#[trigger] q[j]).0 == x && q[j].1 == y
}

pub proof fn lemma_in_queue_append(q: Seq<(i32, i32)>, r: Seq<(i32, i32)>, x: int, y: int)
    ensures
        in_queue(q + r, x, y) == (in_queue(q, x, y) || in_queue(r, x, y)),
{
    let qr = q + r;
    if in_queue(q, x, y) {
        let j = choose|j: int| 0 <= j < q.len() && (#[trigger] q[j]).0 == x && q[j].1 == y;
        assert(qr[j] == q[j]);
    }
    if in_queue(r, x, y) {
        let j = choose|j: int| 0 <= j < r.len() && (#[trigger] r[j]).0 == x && r[j].1 == y;
        assert(qr[q.len() + j] == r[j]);
    }
    if in_queue(qr, x, y) {
        let j = choose|j: int| 0 <= j < qr.len() && (#[trigger] qr[j]).0 == x && qr[j].1 == y;
        if j < q.len() {
            assert(qr[j] == q[j]);
        } else {
            assert(qr[j] == r[j - q.len()]);
        }
    }
}

pub proof fn lemma_in_queue_pop(q: Seq<(i32, i32)>, x: int, y: int)
    requires
        q.len() > 0,
    ensures
        in_queue(q, x, y) == ((q[0].0 == x && q[0].1 == y) || in_queue(q.drop_first(), x, y)),
{
    let d = q.drop_first();
    if in_queue(q, x, y) && !(q[0].0 == x && q[0].1 == y) {
        let j = choose|j: int| 0 <= j < q.len() && (#[trigger] q[j]).0 == x && q[j].1 == y;
        assert(d[j - 1] == q[j]);
    }
    if in_queue(d, x, y) {
        let j = choose|j: int| 0 <= j < d.len() && (#[trigger] d[j]).0 == x && d[j].1 == y;
        assert(q[j + 1] == d[j]);
    }
    if q[0].0 == x && q[0].1 == y {
        assert(in_queue(q, x, y));
    }
}

pub proof fn lemma_reach_start(s: Seq<CellState>, w: int, h: int, sx: int, sy: int)
    requires
        on_board(w, h, sx, sy),
    ensures
        reachable(s, w, h, sx, sy, sx, sy),
{
    let p = seq![(sx, sy)];
    assert(p.last() == (sx, sy));
    assert(zero_walk(s, w, h, p));
}

pub proof fn lemma_reach_extend(
    s: Seq<CellState>,
    w: int,
    h: int,
    sx: int,
    sy: int,
    x: int,
    y: int,
    a: int,
    b: int,
)
    requires
        reachable(s, w, h, sx, sy, x, y),
        zero_at(s, w, h, x, y),
        is_neighbour(x, y, a, b),
        on_board(w, h, a, b),
    ensures
        reachable(s, w, h, sx, sy, a, b),
{
    let p = choose|p: Seq<(int, int)>|
        zero_walk(s, w, h, p) && p[0] == (sx, sy) && #[trigger] p.last() == (x, y);
    let q = p.push((a, b));
    assert forall|i: int| 0 <= i < q.len() implies on_board(w, h, (#[trigger] q[i]).0, q[i].1) by {
        if i < p.len() {
            assert(q[i] == p[i]);
        }
    }
    assert forall|i: int| 0 <= i < q.len() - 1 implies zero_at(s, w, h, (#[trigger] q[i]).0, q[i].1)
        && is_neighbour(q[i].0, q[i].1, q[i + 1].0, q[i + 1].1) by {
        assert(q[i] == p[i]);
        if i < p.len() - 1 {
            assert(q[i + 1] == p[i + 1]);
        } else {
            assert(p[i] == p.last());
        }
    }
    assert(q.last() == (a, b));
    assert(zero_walk(s, w, h, q));
}

proof fn lemma_walk_marked(
    s: Seq<CellState>,
    w: int,
    h: int,
    vis: Seq<bool>,
    p: Seq<(int, int)>,
    i: int,
)
    requires
        closed_under_zero(s, w, h, vis),
        zero_walk(s, w, h, p),
        vis[index_of(h, p[0].0, p[0].1)],
        0 <= i < p.len(),
    ensures
        vis[index_of(h, p[i].0, p[i].1)],
    decreases i,
{
    if i > 0 {
        lemma_walk_marked(s, w, h, vis, p, i - 1);
        assert(zero_at(s, w, h, p[i - 1].0, p[i - 1].1));
        assert(on_board(w, h, p[i].0, p[i].1));
        assert(on_board(w, h, p[i - 1].0, p[i - 1].1));
    }
}

/// A marking that holds the start and is closed under zero cells holds every
/// reachable cell.
pub proof fn lemma_closed_holds_reachable(
    s: Seq<CellState>,
    w: int,
    h: int,
    vis: Seq<bool>,
    sx: int,
    sy: int,
    x: int,
    y: int,
)
    requires
        closed_under_zero(s, w, h, vis),
        vis[index_of(h, sx, sy)],
        reachable(s, w, h, sx, sy, x, y),
    ensures
        vis[index_of(h, x, y)],
{
    let p = choose|p: Seq<(int, int)>|
        zero_walk(s, w, h, p) && p[0] == (sx, sy) && #[trigger] p.last() == (x, y);
    lemma_walk_marked(s, w, h, vis, p, p.len() - 1);
}

pub proof fn lemma_index(w: int, h: int, x: int, y: int)
    requires
        on_board(w, h, x, y),
    ensures
        0 <= index_of(h, x, y) < w * h,
        index_of(h, x, y) / h == x,
        index_of(h, x, y) % h == y,
{
    assert(x * h <= (w - 1) * h) by (nonlinear_arith)
        requires
            x <= w - 1,
            h >= 0,
    ;
    assert((w - 1) * h == w * h - h) by (nonlinear_arith);
    assert(0 <= x * h) by (nonlinear_arith)
        requires
            x >= 0,
            h >= 0,
    ;
    lemma_fundamental_div_mod_converse(x * h + y, h, x, y);
}

pub proof fn lemma_index_all(w: int, h: int)
    ensures
        forall|x: int, y: int|
            on_board(w, h, x, y) ==> 0 <= #[trigger] index_of(h, x, y) < w * h && index_of(h, x, y)
                / h == x && index_of(h, x, y) % h == y,
{
    assert forall|x: int, y: int| on_board(w, h, x, y) implies 0 <= #[trigger] index_of(h, x, y)
        < w * h && index_of(h, x, y) / h == x && index_of(h, x, y) % h == y by {
        lemma_index(w, h, x, y);
    }
}

pub proof fn lemma_decompose(w: int, h: int, i: int)
    requires
        0 <= w,
        0 <= h,
        0 <= i < w * h,
    ensures
        on_board(w, h, i / h, i % h),
        index_of(h, i / h, i % h) == i,
{
    if h == 0 {
        assert(w * h == 0) by (nonlinear_arith)
            requires
                h == 0,
        ;
    }
    lemma_fundamental_div_mod(i, h);
    lemma_mod_bound(i, h);
    let q = i / h;
    let r = i % h;
    assert(0 <= q < w) by (nonlinear_arith)
        requires
            i == h * q + r,
            0 <= r < h,
            0 <= i < w * h,
    ;
    assert(q * h == h * q) by (nonlinear_arith);
}

pub proof fn lemma_count_bound(n: int, f: spec_fn(int) -> bool)
    requires
        0 <= n,
    ensures
        count_where(n, f) <= n,
    decreases n,
{
    if n > 0 {
        lemma_count_bound(n - 1, f);
    }
}

pub proof fn lemma_count_same(n: int, f: spec_fn(int) -> bool, g: spec_fn(int) -> bool)
    requires
        forall|k: int| #![trigger f(k)] #![trigger g(k)] 0 <= k < n ==> f(k) == g(k),
    ensures
        count_where(n, f) == count_where(n, g),
    decreases n,
{
    if n > 0 {
        lemma_count_same(n - 1, f, g);
    }
}

pub proof fn lemma_count_none(n: int, f: spec_fn(int) -> bool)
    requires
        forall|k: int| 0 <= k < n ==> !#[trigger] f(k),
    ensures
        count_where(n, f) == 0,
    decreases n,
{
    if n > 0 {
        lemma_count_none(n - 1, f);
    }
}

/// Changing a predicate at one point changes the count by at most that point.
pub proof fn lemma_count_change(n: int, f: spec_fn(int) -> bool, g: spec_fn(int) -> bool, i: int)
    requires
        0 <= i < n,
        forall|k: int| #![trigger f(k)] #![trigger g(k)] 0 <= k < n && k != i ==> f(k) == g(k),
    ensures
        count_where(n, g) == count_where(n, f) - one_if(f(i)) + one_if(g(i)),
    decreases n,
{
    if i == n - 1 {
        lemma_count_same(n - 1, f, g);
    } else {
        lemma_count_change(n - 1, f, g, i);
    }
}

/// Two predicates that never hold together count at most `n` between them.
pub proof fn lemma_count_disjoint(n: int, f: spec_fn(int) -> bool, g: spec_fn(int) -> bool)
    requires
        0 <= n,
        forall|k: int| #![trigger f(k)] #![trigger g(k)] 0 <= k < n ==> !(f(k) && g(k)),
    ensures
        count_where(n, f) + count_where(n, g) <= n,
    decreases n,
{
    if n > 0 {
        lemma_count_disjoint(n - 1, f, g);
    }
}

/// Two predicates that never hold together and count `n` between them
/// cover every point.
pub proof fn lemma_count_cover(n: int, f: spec_fn(int) -> bool, g: spec_fn(int) -> bool)
    requires
        0 <= n,
        forall|k: int| #![trigger f(k)] #![trigger g(k)] 0 <= k < n ==> !(f(k) && g(k)),
        count_where(n, f) + count_where(n, g) == n,
    ensures
        forall|k: int| #![trigger f(k)] #![trigger g(k)] 0 <= k < n ==> f(k) || g(k),
    decreases n,
{
    if n > 0 {
        lemma_count_disjoint(n - 1, f, g);
        lemma_count_cover(n - 1, f, g);
    }
}

pub proof fn lemma_count_positive(n: int, f: spec_fn(int) -> bool, i: int)
    requires
        0 <= i < n,
        f(i),
    ensures
        count_where(n, f) >= 1,
    decreases n,
{
    if i < n - 1 {
        lemma_count_positive(n - 1, f, i);
    }
}

/// How a count over a board changes when one entry is replaced.
pub proof fn lemma_count_state_update(
    s: Seq<CellState>,
    p: spec_fn(CellState) -> bool,
    i: int,
    v: CellState,
)
    requires
        0 <= i < s.len(),
    ensures
        count_state(s.update(i, v), p) == count_state(s, p) - one_if(p(s[i])) + one_if(p(v)),
{
    let t = s.update(i, v);
    lemma_count_change(s.len() as int, |k: int| p(s[k]), |k: int| p(t[k]), i);
}

pub proof fn lemma_count_state_same(s: Seq<CellState>, t: Seq<CellState>, p: spec_fn(CellState) -> bool)
    requires
        s.len() == t.len(),
        forall|k: int| 0 <= k < s.len() ==> p(#[trigger] s[k]) == p(t[k]),
    ensures
        count_state(s, p) == count_state(t, p),
{
    lemma_count_same(s.len() as int, |k: int| p(s[k]), |k: int| p(t[k]));
}

pub proof fn lemma_count_state_bound(s: Seq<CellState>, p: spec_fn(CellState) -> bool)
    ensures
        count_state(s, p) <= s.len(),
{
    lemma_count_bound(s.len() as int, |k: int| p(s[k]));
}

pub proof fn lemma_count_state_positive(s: Seq<CellState>, p: spec_fn(CellState) -> bool, i: int)
    requires
        0 <= i < s.len(),
        p(s[i]),
    ensures
        count_state(s, p) >= 1,
{
    lemma_count_positive(s.len() as int, |k: int| p(s[k]), i);
}

/// Revealed cells and flags never overlap, so together they fit on the board.
pub proof fn lemma_checked_and_flags_fit(s: Seq<CellState>)
    ensures
        count_state(s, checked_pred()) + count_state(s, flag_pred()) <= s.len(),
{
    lemma_count_disjoint(
        s.len() as int,
        |k: int| checked_pred()(s[k]),
        |k: int| flag_pred()(s[k]),
    );
}

/// When revealed cells and flags together fill the board, no cell is left
/// unchecked.
pub proof fn lemma_filled_board(s: Seq<CellState>)
    requires
        count_state(s, checked_pred()) + count_state(s, flag_pred()) == s.len(),
    ensures
        forall|i: int| 0 <= i < s.len() ==> #[trigger] s[i] != CellState::Unchecked,
{
    let f = |k: int| checked_pred()(s[k]);
    let g = |k: int| flag_pred()(s[k]);
    lemma_count_cover(s.len() as int, f, g);
    assert forall|i: int| 0 <= i < s.len() implies #[trigger] s[i] != CellState::Unchecked by {
        assert(f(i) || g(i));
    }
}

pub proof fn lemma_adjacent_at_most_eight(s: Seq<CellState>, w: int, h: int, x: int, y: int)
    ensures
        0 <= adjacent_bombs(s, w, h, x, y) <= 8,
{
}

/// Adjacent-bomb counts depend only on where the bombs are.
pub proof fn lemma_adjacent_same_bombs(
    s: Seq<CellState>,
    t: Seq<CellState>,
    w: int,
    h: int,
    x: int,
    y: int,
)
    requires
        s.len() == t.len(),
        forall|i: int| 0 <= i < s.len() ==> (#[trigger] s[i] == CellState::Bomb) == (t[i]
            == CellState::Bomb),
        s.len() == w * h,
        0 <= w,
        0 <= h,
    ensures
        adjacent_bombs(s, w, h, x, y) == adjacent_bombs(t, w, h, x, y),
{
    lemma_index_all(w, h);
}

/// Placing a bomb at (a, b) adds one to the count of each of its neighbours.
pub proof fn lemma_adjacent_new_bomb(
    s: Seq<CellState>,
    w: int,
    h: int,
    a: int,
    b: int,
    x: int,
    y: int,
)
    requires
        s.len() == w * h,
        0 <= w,
        0 <= h,
        on_board(w, h, a, b),
        at(s, h, a, b) != CellState::Bomb,
    ensures
        adjacent_bombs(s.update(index_of(h, a, b), CellState::Bomb), w, h, x, y) == adjacent_bombs(
            s,
            w,
            h,
            x,
            y,
        ) + one_if(is_neighbour(x, y, a, b)),
{
    lemma_index_all(w, h);
    lemma_index(w, h, a, b);
}

} // verus!
