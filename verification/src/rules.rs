//! The rules: which runs of markers win, and how they are looked for.

use crate::board::{cell, Board, Field, Grid};
use vstd::prelude::*;

verus! {

/// A direction in which a run of markers wins.
#[derive(Copy, Clone, Debug, PartialEq, Eq, Structural)]
pub enum WinningCombinations {
    VerticalWin,
    HorizontalWin,
    DiagonalWin,
}

/// Column `col` holds `len` markers of `player` on top of one another, the
/// lowest of them at `row`.
pub open spec fn vertical_run_at(grid: Grid, player: Field, len: nat, col: int, row: int) -> bool {
    forall|r: int| row <= r < row + len ==> #[trigger] cell(grid, col, r) == Some(player)
}

/// The `len` columns from `col` on all hold a marker of `player` at `row`.
/// A column that does not reach up to `row` holds none there.
pub open spec fn horizontal_run_at(grid: Grid, player: Field, len: nat, col: int, row: int) -> bool {
    forall|c: int| col <= c < col + len ==> #[trigger] cell(grid, c, row) == Some(player)
}

/// The marker `step` columns to the right of column `col` on the diagonal
/// through (`col`, `row`) that climbs one row with each column where it is
/// `rising`, and descends one where it is not.
pub open spec fn diagonal_cell(grid: Grid, col: int, row: int, rising: bool, step: int) -> Option<
    Field,
> {
    cell(
        grid,
        col + step,
        if rising {
            row + step
        } else {
            row - step
        },
    )
}

/// The `len` cells of the diagonal that starts at (`col`, `row`) all hold a
/// marker of `player`. A cell outside the board, or above a column's top,
/// holds none.
pub open spec fn diagonal_run_at(
    grid: Grid,
    player: Field,
    len: nat,
    col: int,
    row: int,
    rising: bool,
) -> bool {
    forall|step: int|
        0 <= step < len ==> #[trigger] diagonal_cell(grid, col, row, rising, step) == Some(player)
}

/// Some column holds `len` markers of `player` in a row, for a `len` of at
/// least one.
pub open spec fn vertical_win(grid: Grid, player: Field, len: nat) -> bool {
    len >= 1 && exists|col: int, row: int| vertical_run_at(grid, player, len, col, row)
}

/// Some row holds `len` markers of `player` side by side, for a `len` of at
/// least one.
pub open spec fn horizontal_win(grid: Grid, player: Field, len: nat) -> bool {
    len >= 1 && exists|col: int, row: int| horizontal_run_at(grid, player, len, col, row)
}

/// Some diagonal, rising or falling, holds `len` markers of `player` one
/// after another, for a `len` of at least one.
pub open spec fn diagonal_win(grid: Grid, player: Field, len: nat) -> bool {
    len >= 1 && exists|col: int, row: int, rising: bool|
        diagonal_run_at(grid, player, len, col, row, rising)
}

/// What one rule says of a grid: whether `player` has a run of `len` in the
/// rule's direction.
pub open spec fn rule_holds(rule: WinningCombinations, grid: Grid, player: Field, len: nat) -> bool {
    match rule {
        WinningCombinations::VerticalWin => vertical_win(grid, player, len),
        WinningCombinations::HorizontalWin => horizontal_win(grid, player, len),
        WinningCombinations::DiagonalWin => diagonal_win(grid, player, len),
    }
}

/// Whether any of `rules` holds.
pub open spec fn any_rule_holds(
    rules: Seq<WinningCombinations>,
    grid: Grid,
    player: Field,
    len: nat,
) -> bool {
    exists|i: int| 0 <= i < rules.len() && rule_holds(#[trigger] rules[i], grid, player, len)
}

/// A vertical run of at least one marker lies within its column.
pub proof fn lemma_vertical_run_within(grid: Grid, player: Field, len: nat, col: int, row: int)
    requires
        len >= 1,
        vertical_run_at(grid, player, len, col, row),
    ensures
        0 <= col < grid.len(),
        0 <= row,
        row + len <= grid[col].len(),
{
    assert(cell(grid, col, row) == Some(player));
    assert(cell(grid, col, row + len - 1) == Some(player));
}

/// A horizontal run of at least one marker lies within the board, and each
/// of its columns reaches up to its row.
pub proof fn lemma_horizontal_run_within(grid: Grid, player: Field, len: nat, col: int, row: int)
    requires
        len >= 1,
        horizontal_run_at(grid, player, len, col, row),
    ensures
        0 <= col,
        col + len <= grid.len(),
        0 <= row,
        forall|c: int| col <= c < col + len ==> row < (#[trigger] grid[c]).len(),
{
    assert(cell(grid, col, row) == Some(player));
    assert(cell(grid, col + len - 1, row) == Some(player));
    assert forall|c: int| col <= c < col + len implies row < (#[trigger] grid[c]).len() by {
        assert(cell(grid, c, row) == Some(player));
    }
}

/// A diagonal run of at least one marker starts at a marker of the board and
/// ends in a column of the board.
pub proof fn lemma_diagonal_run_within(
    grid: Grid,
    player: Field,
    len: nat,
    col: int,
    row: int,
    rising: bool,
)
    requires
        len >= 1,
        diagonal_run_at(grid, player, len, col, row, rising),
    ensures
        0 <= col,
        col + len <= grid.len(),
        0 <= row < grid[col].len(),
{
    assert(diagonal_cell(grid, col, row, rising, 0) == Some(player));
    assert(diagonal_cell(grid, col, row, rising, len - 1) == Some(player));
}

/// A stretch of fewer than `len` rows of column `col`, shut in between two
/// rows `below` and `above` that `player` does not hold (a row outside the
/// column is held by nobody), is part of no vertical run of `len` markers,
/// whatever that player holds beyond those two rows.
pub proof fn lemma_short_stretch_is_no_vertical_run(
    grid: Grid,
    player: Field,
    len: nat,
    col: int,
    below: int,
    above: int,
    row: int,
)
    requires
        cell(grid, col, below) != Some(player),
        cell(grid, col, above) != Some(player),
        below < above <= below + len,
        row < above,
        below < row + len,
    ensures
        !vertical_run_at(grid, player, len, col, row),
{
    if vertical_run_at(grid, player, len, col, row) {
        if row <= below {
            assert(cell(grid, col, below) == Some(player));
        } else {
            assert(cell(grid, col, above) == Some(player));
        }
    }
}

/// No horizontal run passes over a column that does not reach up to the
/// run's row, whatever the columns on either side of it hold there.
pub proof fn lemma_gap_breaks_horizontal_run(
    grid: Grid,
    player: Field,
    len: nat,
    col: int,
    row: int,
    gap: int,
)
    requires
        col <= gap < col + len,
        0 <= gap < grid.len() ==> grid[gap].len() <= row,
    ensures
        !horizontal_run_at(grid, player, len, col, row),
{
    if horizontal_run_at(grid, player, len, col, row) {
        assert(cell(grid, gap, row) == Some(player));
    }
}

/// A grid with fewer columns than a run is long holds no horizontal run.
pub proof fn lemma_narrow_grid_has_no_horizontal_win(grid: Grid, player: Field, len: nat)
    requires
        grid.len() < len,
    ensures
        !horizontal_win(grid, player, len),
{
    assert forall|c: int, r: int| !#[trigger] horizontal_run_at(grid, player, len, c, r) by {
        if horizontal_run_at(grid, player, len, c, r) {
            lemma_horizontal_run_within(grid, player, len, c, r);
        }
    }
}

/// No diagonal run passes over a cell that holds no marker, whatever the
/// cells before and behind it hold.
pub proof fn lemma_gap_breaks_diagonal_run(
    grid: Grid,
    player: Field,
    len: nat,
    col: int,
    row: int,
    rising: bool,
    step: int,
)
    requires
        0 <= step < len,
        diagonal_cell(grid, col, row, rising, step).is_none(),
    ensures
        !diagonal_run_at(grid, player, len, col, row, rising),
{
}

/// A grid with fewer columns than a run is long holds no diagonal run.
pub proof fn lemma_narrow_grid_has_no_diagonal_win(grid: Grid, player: Field, len: nat)
    requires
        grid.len() < len,
    ensures
        !diagonal_win(grid, player, len),
{
    assert forall|c: int, r: int, rising: bool| !#[trigger] diagonal_run_at(
        grid,
        player,
        len,
        c,
        r,
        rising,
    ) by {
        if diagonal_run_at(grid, player, len, c, r, rising) {
            lemma_diagonal_run_within(grid, player, len, c, r, rising);
        }
    }
}

/// A grid none of whose columns is as high as a run is long holds no
/// vertical run.
pub proof fn lemma_low_grid_has_no_vertical_win(grid: Grid, player: Field, len: nat)
    requires
        forall|c: int| 0 <= c < grid.len() ==> (#[trigger] grid[c]).len() < len,
    ensures
        !vertical_win(grid, player, len),
{
    if len >= 1 {
        assert forall|c: int, r: int| !#[trigger] vertical_run_at(grid, player, len, c, r) by {
            if vertical_run_at(grid, player, len, c, r) {
                lemma_vertical_run_within(grid, player, len, c, r);
            }
        }
    }
}

/// Registering one more rule adds that rule's verdict to the others' and
/// takes nothing away.
pub proof fn lemma_one_more_rule(
    rules: Seq<WinningCombinations>,
    rule: WinningCombinations,
    grid: Grid,
    player: Field,
    len: nat,
)
    ensures
        any_rule_holds(rules.push(rule), grid, player, len) == (any_rule_holds(
            rules,
            grid,
            player,
            len,
        ) || rule_holds(rule, grid, player, len)),
{
    let more = rules.push(rule);
    if any_rule_holds(rules, grid, player, len) {
        let i = choose|i: int| 0 <= i < rules.len() && rule_holds(#[trigger] rules[i], grid, player, len);
        assert(rule_holds(more[i], grid, player, len));
    }
    if rule_holds(rule, grid, player, len) {
        assert(rule_holds(more[rules.len() as int], grid, player, len));
    }
    if any_rule_holds(more, grid, player, len) {
        let i = choose|i: int| 0 <= i < more.len() && rule_holds(#[trigger] more[i], grid, player, len);
        if i < rules.len() {
            assert(rule_holds(rules[i], grid, player, len));
        }
    }
}

/// Two lists of rules that hold the same rules, in whatever order and however
/// often, give the same verdict.
pub proof fn lemma_rule_order_is_immaterial(
    first: Seq<WinningCombinations>,
    second: Seq<WinningCombinations>,
    grid: Grid,
    player: Field,
    len: nat,
)
    requires
        forall|rule: WinningCombinations| first.contains(rule) == second.contains(rule),
    ensures
        any_rule_holds(first, grid, player, len) == any_rule_holds(second, grid, player, len),
{
    if any_rule_holds(first, grid, player, len) {
        let i = choose|i: int| 0 <= i < first.len() && rule_holds(#[trigger] first[i], grid, player, len);
        assert(first.contains(first[i]));
        let j = choose|j: int| 0 <= j < second.len() && second[j] == first[i];
        assert(rule_holds(second[j], grid, player, len));
    }
    if any_rule_holds(second, grid, player, len) {
        let i = choose|i: int|
            0 <= i < second.len() && rule_holds(#[trigger] second[i], grid, player, len);
        assert(second.contains(second[i]));
        let j = choose|j: int| 0 <= j < first.len() && first[j] == second[i];
        assert(rule_holds(first[j], grid, player, len));
    }
}

/// Whether `player` holds `row` in each of the `len` columns from
/// `start_col` on.
pub fn window_matches(
    board: &Board,
    start_col: usize,
    row: usize,
    player: &Field,
    len: usize,
) -> (matches: bool)
    ensures
        matches == horizontal_run_at(board@, *player, len as nat, start_col as int, row as int),
{
    let cols = board.column_count();
    if len == 0 {
        return true;
    }
    if len > cols || start_col > cols - len {
        proof {
            if horizontal_run_at(board@, *player, len as nat, start_col as int, row as int) {
                lemma_horizontal_run_within(board@, *player, len as nat, start_col as int, row as int);
            }
        }
        return false;
    }
    let mut j: usize = 0;
    while j < len
        invariant
            j <= len,
            start_col + len <= cols,
            cols == board@.len(),
            forall|c: int|
                start_col <= c < start_col + j ==> #[trigger] cell(board@, c, row as int) == Some(
                    *player,
                ),
        decreases len - j,
    {
        let held = match board.marker_at(start_col + j, row) {
            Some(marker) => marker == *player,
            None => false,
        };
        if !held {
            assert(cell(board@, start_col + j, row as int) != Some(*player));
            return false;
        }
        j += 1;
    }
    true
}

/// Whether `player` holds each of the `len` cells of the diagonal that starts
/// at `row` of column `start_col` and climbs, or descends, by one row with
/// each column to the right.
pub fn diagonal_matches(
    board: &Board,
    start_col: usize,
    row: usize,
    rising: bool,
    player: &Field,
    len: usize,
) -> (matches: bool)
    ensures
        matches == diagonal_run_at(
            board@,
            *player,
            len as nat,
            start_col as int,
            row as int,
            rising,
        ),
{
    let cols = board.column_count();
    if len == 0 {
        return true;
    }
    if len > cols || start_col > cols - len {
        proof {
            if diagonal_run_at(board@, *player, len as nat, start_col as int, row as int, rising) {
                lemma_diagonal_run_within(
                    board@,
                    *player,
                    len as nat,
                    start_col as int,
                    row as int,
                    rising,
                );
            }
        }
        return false;
    }
    let mut step: usize = 0;
    while step < len
        invariant
            step <= len,
            start_col + len <= cols,
            cols == board@.len(),
            forall|j: int|
                0 <= j < step ==> #[trigger] diagonal_cell(
                    board@,
                    start_col as int,
                    row as int,
                    rising,
                    j,
                ) == Some(*player),
        decreases len - step,
    {
        let col = start_col + step;
        let height = board.height_of(col);
        let held = if rising {
            if step < height && row < height - step {
                match board.marker_at(col, row + step) {
                    Some(marker) => marker == *player,
                    None => false,
                }
            } else {
                false
            }
        } else {
            if step <= row {
                match board.marker_at(col, row - step) {
                    Some(marker) => marker == *player,
                    None => false,
                }
            } else {
                false
            }
        };
        if !held {
            assert(diagonal_cell(board@, start_col as int, row as int, rising, step as int) != Some(
                *player,
            ));
            return false;
        }
        step += 1;
    }
    true
}

/// What `evaluate` answers is decided by the registered rules, the run length
/// and the board's contents alone: asked a second time of a board on which
/// nothing was dropped in between, it answers as it did the first time.
pub proof fn lemma_evaluate_repeats(rules: Rules, first: Board, second: Board, player: Field)
    requires
        first@ == second@,
    ensures
        rules.wins(first@, player) == rules.wins(second@, player),
{
}

/// The directions in which a run wins, in the order in which they are tried,
/// and the length that a run must have. The rules hold no board: they are
/// asked about one.
pub struct Rules {
    rules: Vec<WinningCombinations>,
    winning_condition: usize,
}

impl Rules {
    /// The rules that have been registered, in the order of registration.
    pub closed spec fn active_rules(&self) -> Seq<WinningCombinations> {
        self.rules@
    }

    /// The length of a run that wins.
    pub closed spec fn run_length(&self) -> nat {
        self.winning_condition as nat
    }

    /// Whether `player` has won on `grid` by any registered rule.
    pub open spec fn wins(&self, grid: Grid, player: Field) -> bool {
        any_rule_holds(self.active_rules(), grid, player, self.run_length())
    }

    /// Rules for runs of `winning_condition` markers, with no direction
    /// registered yet.
    pub fn new(winning_condition: usize) -> (rules: Rules)
        requires
            winning_condition >= 1,
        ensures
            rules.run_length() == winning_condition,
            rules.active_rules() == Seq::<WinningCombinations>::empty(),
    {
        Rules { rules: Vec::new(), winning_condition }
    }

    /// The length of a run that wins.
    pub fn winning_condition(&self) -> (len: usize)
        ensures
            len == self.run_length(),
    {
        self.winning_condition
    }

    /// Registers `rule` behind those already registered.
    pub fn register(&mut self, rule: WinningCombinations)
        ensures
            final(self).run_length() == old(self).run_length(),
            final(self).active_rules() == old(self).active_rules().push(rule),
    {
        self.rules.push(rule);
    }

    /// Whether `player` has won by any registered rule.
    pub fn evaluate(&self, board: &Board, player: &Field) -> (won: bool)
        ensures
            won == self.wins(board@, *player),
    {
        let mut i: usize = 0;
        while i < self.rules.len()
            invariant
                i <= self.rules@.len(),
                forall|k: int|
                    0 <= k < i ==> !rule_holds(
                        #[trigger] self.rules@[k],
                        board@,
                        *player,
                        self.winning_condition as nat,
                    ),
            decreases self.rules@.len() - i,
        {
            let won = match self.rules[i] {
                WinningCombinations::VerticalWin => self.evaluate_vertical(board, player),
                WinningCombinations::HorizontalWin => self.evaluate_horizontal(board, player),
                WinningCombinations::DiagonalWin => self.evaluate_diagonal(board, player),
            };
            if won {
                return true;
            }
            i += 1;
        }
        false
    }

    /// Whether some column holds a winning run of `player`.
    pub fn evaluate_vertical(&self, board: &Board, player: &Field) -> (won: bool)
        ensures
            won == vertical_win(board@, *player, self.run_length()),
    {
        let k = self.winning_condition;
        if k == 0 {
            return false;
        }
        let cols = board.column_count();
        let mut col: usize = 0;
        while col < cols
            invariant
                k >= 1,
                k == self.winning_condition,
                col <= cols,
                cols == board@.len(),
                forall|c: int, r: int|
                    0 <= c < col ==> !#[trigger] vertical_run_at(board@, *player, k as nat, c, r),
            decreases cols - col,
        {
            let height = board.height_of(col);
            if height >= k {
                let mut count: usize = 0;
                let mut i: usize = 0;
                assert forall|r: int| r + k <= 0 implies !#[trigger] vertical_run_at(
                    board@,
                    *player,
                    k as nat,
                    col as int,
                    r,
                ) by {
                    if vertical_run_at(board@, *player, k as nat, col as int, r) {
                        lemma_vertical_run_within(board@, *player, k as nat, col as int, r);
                    }
                }
                while i < height
                    invariant
                        k >= 1,
                        k == self.winning_condition,
                        col < cols,
                        cols == board@.len(),
                        height == board@[col as int].len(),
                        i <= height,
                        count <= i,
                        count < k,
                        forall|r: int|
                            i - count <= r < i ==> #[trigger] cell(board@, col as int, r) == Some(
                                *player,
                            ),
                        count < i ==> cell(board@, col as int, i - count - 1) != Some(*player),
                        forall|r: int|
                            r + k <= i ==> !#[trigger] vertical_run_at(
                                board@,
                                *player,
                                k as nat,
                                col as int,
                                r,
                            ),
                    decreases height - i,
                {
                    let held = match board.marker_at(col, i) {
                        Some(marker) => marker == *player,
                        None => false,
                    };
                    if held {
                        count += 1;
                        if count == k {
                            assert(vertical_run_at(board@, *player, k as nat, col as int, i + 1 - k));
                            return true;
                        }
                        assert(!vertical_run_at(board@, *player, k as nat, col as int, i + 1 - k)) by {
                            if vertical_run_at(board@, *player, k as nat, col as int, i + 1 - k) {
                                lemma_vertical_run_within(
                                    board@,
                                    *player,
                                    k as nat,
                                    col as int,
                                    i + 1 - k,
                                );
                                assert(cell(board@, col as int, i - count) == Some(*player));
                            }
                        }
                    } else {
                        count = 0;
                        assert(!vertical_run_at(board@, *player, k as nat, col as int, i + 1 - k)) by {
                            if vertical_run_at(board@, *player, k as nat, col as int, i + 1 - k) {
                                assert(cell(board@, col as int, i as int) == Some(*player));
                            }
                        }
                    }
                    i += 1;
                }
            }
            assert forall|r: int| !#[trigger] vertical_run_at(
                board@,
                *player,
                k as nat,
                col as int,
                r,
            ) by {
                if vertical_run_at(board@, *player, k as nat, col as int, r) {
                    lemma_vertical_run_within(board@, *player, k as nat, col as int, r);
                }
            }
            col += 1;
        }
        assert forall|c: int, r: int| !#[trigger] vertical_run_at(board@, *player, k as nat, c, r) by {
            if vertical_run_at(board@, *player, k as nat, c, r) {
                lemma_vertical_run_within(board@, *player, k as nat, c, r);
            }
        }
        false
    }

    /// Whether some row holds a winning run of `player`. A board with fewer
    /// columns than the run is long holds none.
    pub fn evaluate_horizontal(&self, board: &Board, player: &Field) -> (won: bool)
        ensures
            won == horizontal_win(board@, *player, self.run_length()),
    {
        let k = self.winning_condition;
        let cols = board.column_count();
        if k == 0 {
            return false;
        }
        if cols < k {
            assert forall|c: int, r: int| !#[trigger] horizontal_run_at(
                board@,
                *player,
                k as nat,
                c,
                r,
            ) by {
                if horizontal_run_at(board@, *player, k as nat, c, r) {
                    lemma_horizontal_run_within(board@, *player, k as nat, c, r);
                }
            }
            return false;
        }
        let max_idx = cols - k;
        let mut idx: usize = 0;
        while idx <= max_idx
            invariant
                k >= 1,
                k <= cols,
                k == self.winning_condition,
                max_idx == cols - k,
                cols == board@.len(),
                idx <= max_idx + 1,
                forall|c: int, r: int|
                    0 <= c < idx ==> !#[trigger] horizontal_run_at(board@, *player, k as nat, c, r),
            decreases max_idx + 1 - idx,
        {
            let height = board.height_of(idx);
            let mut row: usize = 0;
            while row < height
                invariant
                    row <= height,
                    k >= 1,
                    k == self.winning_condition,
                    forall|r: int|
                        0 <= r < row ==> !#[trigger] horizontal_run_at(
                            board@,
                            *player,
                            k as nat,
                            idx as int,
                            r,
                        ),
                decreases height - row,
            {
                if window_matches(board, idx, row, player, k) {
                    return true;
                }
                row += 1;
            }
            assert forall|r: int| !#[trigger] horizontal_run_at(
                board@,
                *player,
                k as nat,
                idx as int,
                r,
            ) by {
                if horizontal_run_at(board@, *player, k as nat, idx as int, r) {
                    lemma_horizontal_run_within(board@, *player, k as nat, idx as int, r);
                }
            }
            idx += 1;
        }
        assert forall|c: int, r: int| !#[trigger] horizontal_run_at(board@, *player, k as nat, c, r) by {
            if horizontal_run_at(board@, *player, k as nat, c, r) {
                lemma_horizontal_run_within(board@, *player, k as nat, c, r);
            }
        }
        false
    }

    /// Whether some diagonal, rising or falling, holds a winning run of
    /// `player`. A board with fewer columns than the run is long holds none.
    pub fn evaluate_diagonal(&self, board: &Board, player: &Field) -> (won: bool)
        ensures
            won == diagonal_win(board@, *player, self.run_length()),
    {
        let k = self.winning_condition;
        let cols = board.column_count();
        if k == 0 {
            return false;
        }
        if cols < k {
            proof {
                lemma_narrow_grid_has_no_diagonal_win(board@, *player, k as nat);
            }
            return false;
        }
        let max_idx = cols - k;
        let mut idx: usize = 0;
        while idx <= max_idx
            invariant
                k >= 1,
                k <= cols,
                k == self.winning_condition,
                max_idx == cols - k,
                cols == board@.len(),
                idx <= max_idx + 1,
                forall|c: int, r: int, rising: bool|
                    0 <= c < idx ==> !#[trigger] diagonal_run_at(
                        board@,
                        *player,
                        k as nat,
                        c,
                        r,
                        rising,
                    ),
            decreases max_idx + 1 - idx,
        {
            let height = board.height_of(idx);
            let mut row: usize = 0;
            while row < height
                invariant
                    row <= height,
                    k >= 1,
                    k == self.winning_condition,
                    forall|r: int, rising: bool|
                        0 <= r < row ==> !#[trigger] diagonal_run_at(
                            board@,
                            *player,
                            k as nat,
                            idx as int,
                            r,
                            rising,
                        ),
                decreases height - row,
            {
                if diagonal_matches(board, idx, row, true, player, k) {
                    return true;
                }
                if diagonal_matches(board, idx, row, false, player, k) {
                    return true;
                }
                row += 1;
            }
            assert forall|r: int, rising: bool| !#[trigger] diagonal_run_at(
                board@,
                *player,
                k as nat,
                idx as int,
                r,
                rising,
            ) by {
                if diagonal_run_at(board@, *player, k as nat, idx as int, r, rising) {
                    lemma_diagonal_run_within(board@, *player, k as nat, idx as int, r, rising);
                }
            }
            idx += 1;
        }
        assert forall|c: int, r: int, rising: bool| !#[trigger] diagonal_run_at(
            board@,
            *player,
            k as nat,
            c,
            r,
            rising,
        ) by {
            if diagonal_run_at(board@, *player, k as nat, c, r, rising) {
                lemma_diagonal_run_within(board@, *player, k as nat, c, r, rising);
            }
        }
        false
    }
}

} // verus!
