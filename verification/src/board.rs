//! The board: one stack of markers per column, bottom first.

use vstd::prelude::*;

verus! {

/// The marker of one of the two players.
#[derive(Copy, Clone, Debug, PartialEq, Eq, Structural)]
pub enum Field {
    Player1,
    Player2,
}

/// Why a marker could not be dropped.
#[derive(Copy, Clone, Debug, PartialEq, Eq, Structural)]
pub enum DropError {
    /// The column index is not below the number of columns.
    InvalidColumn,
    /// The column already holds as many markers as the board allows.
    ColumnFull,
}

/// The contents of a board: for each column its markers, bottom first.
pub type Grid = Seq<Seq<Field>>;

/// The marker at `row` of column `col`, if there is one.
pub open spec fn cell(grid: Grid, col: int, row: int) -> Option<Field> {
    if 0 <= col < grid.len() && 0 <= row < grid[col].len() {
        Some(grid[col][row])
    } else {
        None
    }
}

/// The grid of `cols` columns that hold no marker.
pub open spec fn empty_grid(cols: nat) -> Grid {
    Seq::new(cols, |c: int| Seq::<Field>::empty())
}

/// The grid after `player` has been put on top of column `col`.
pub open spec fn grid_with_drop(grid: Grid, player: Field, col: int) -> Grid {
    grid.update(col, grid[col].push(player))
}

/// What dropping into column `col` answers on a grid whose columns hold at
/// most `capacity` markers.
pub open spec fn drop_outcome(grid: Grid, capacity: nat, player: Field, col: int) -> Result<
    Field,
    DropError,
> {
    if !(0 <= col < grid.len()) {
        Err(DropError::InvalidColumn)
    } else if grid[col].len() >= capacity {
        Err(DropError::ColumnFull)
    } else {
        Ok(player)
    }
}

/// The grid that a drop into column `col` leaves: one marker more on that
/// column where the drop is accepted, the same grid where it is not.
pub open spec fn grid_after_drop(grid: Grid, capacity: nat, player: Field, col: int) -> Grid {
    if drop_outcome(grid, capacity, player, col).is_ok() {
        grid_with_drop(grid, player, col)
    } else {
        grid
    }
}

/// The three characters that show a cell: blank where it is empty, `o` for
/// the first player's marker and `x` for the second's.
pub open spec fn cell_text(marker: Option<Field>) -> Seq<char> {
    match marker {
        None => seq![' ', ' ', ' '],
        Some(Field::Player1) => seq![' ', 'o', ' '],
        Some(Field::Player2) => seq![' ', 'x', ' '],
    }
}

/// The text that shows `row` in the first `cols` columns: for each column a
/// bar and the cell's three characters.
pub open spec fn cells_text(grid: Grid, row: int, cols: nat) -> Seq<char>
    decreases cols,
{
    if cols == 0 {
        Seq::empty()
    } else {
        cells_text(grid, row, (cols - 1) as nat) + seq!['|'] + cell_text(
            cell(grid, cols - 1, row),
        )
    }
}

/// The line that shows `row` of the grid: its cells from the left, and a bar
/// that closes the last of them.
pub open spec fn row_text(grid: Grid, row: int) -> Seq<char> {
    if grid.len() == 0 {
        Seq::empty()
    } else {
        cells_text(grid, row, grid.len()) + seq!['|']
    }
}

/// The line that is drawn between two rows: four dashes for each column and
/// one more.
pub open spec fn border_text(cols: nat) -> Seq<char> {
    Seq::new(4 * cols + 1, |i: int| '-')
}

/// A drop into a column that the grid does not have is answered with
/// `InvalidColumn` and leaves the grid as it was.
pub proof fn lemma_drop_outside_changes_nothing(grid: Grid, capacity: nat, player: Field, col: int)
    requires
        !(0 <= col < grid.len()),
    ensures
        drop_outcome(grid, capacity, player, col) == Err::<Field, DropError>(
            DropError::InvalidColumn,
        ),
        grid_after_drop(grid, capacity, player, col) == grid,
{
}

/// A drop into a full column is answered with `ColumnFull` and leaves the
/// grid, and with it the height of every column, as it was.
pub proof fn lemma_drop_on_full_changes_nothing(grid: Grid, capacity: nat, player: Field, col: int)
    requires
        0 <= col < grid.len(),
        grid[col].len() >= capacity,
    ensures
        drop_outcome(grid, capacity, player, col) == Err::<Field, DropError>(DropError::ColumnFull),
        grid_after_drop(grid, capacity, player, col) == grid,
        forall|c: int|
            0 <= c < grid.len() ==> (#[trigger] grid_after_drop(grid, capacity, player, col)[c]).len()
                == grid[c].len(),
{
}

/// A drop that is accepted raises its column by exactly one marker, which is
/// the player's and lies at the column's former height; every marker that lay
/// on the board stays where it was, and no other column changes.
pub proof fn lemma_accepted_drop_lands_on_top(grid: Grid, capacity: nat, player: Field, col: int)
    requires
        drop_outcome(grid, capacity, player, col).is_ok(),
    ensures
        drop_outcome(grid, capacity, player, col) == Ok::<Field, DropError>(player),
        0 <= col < grid.len(),
        grid_after_drop(grid, capacity, player, col).len() == grid.len(),
        grid_after_drop(grid, capacity, player, col)[col].len() == grid[col].len() + 1,
        cell(grid_after_drop(grid, capacity, player, col), col, grid[col].len() as int) == Some(
            player,
        ),
        forall|c: int|
            0 <= c < grid.len() && c != col ==> #[trigger] grid_after_drop(
                grid,
                capacity,
                player,
                col,
            )[c] == grid[c],
        forall|c: int, r: int|
            cell(grid, c, r).is_some() ==> #[trigger] cell(
                grid_after_drop(grid, capacity, player, col),
                c,
                r,
            ) == cell(grid, c, r),
{
}

/// A board of a fixed number of columns, each a stack of at most `rows`
/// markers. Markers are only ever added, on top of a column.
pub struct Board {
    rows: usize,
    data: Vec<Vec<Field>>,
}

impl Field {
    /// The name by which the player is addressed.
    pub fn name(&self) -> (text: &'static str)
        ensures
            *self == Field::Player1 ==> text@ == "Player 1"@,
            *self == Field::Player2 ==> text@ == "Player 2"@,
    {
        match self {
            Field::Player1 => "Player 1",
            Field::Player2 => "Player 2",
        }
    }
}

impl DropError {
    /// The words in which the refusal is told to a player.
    pub fn message(&self) -> (text: &'static str)
        ensures
            *self == DropError::InvalidColumn ==> text@ == "No such column"@,
            *self == DropError::ColumnFull ==> text@ == "The selected column is full"@,
    {
        match self {
            DropError::InvalidColumn => "No such column",
            DropError::ColumnFull => "The selected column is full",
        }
    }
}

impl View for Board {
    type V = Grid;

    closed spec fn view(&self) -> Grid {
        Seq::new(self.data@.len(), |c: int| self.data@[c]@)
    }
}

impl Board {
    /// The most markers a column can hold.
    pub closed spec fn capacity(&self) -> nat {
        self.rows as nat
    }

    /// The board has at least one column and room for at least one marker in
    /// each, and no column holds more markers than the capacity allows.
    pub open spec fn wf(&self) -> bool {
        &&& self@.len() >= 1
        &&& self.capacity() >= 1
        &&& forall|c: int| 0 <= c < self@.len() ==> (#[trigger] self@[c]).len() <= self.capacity()
    }

    /// A board of `cols` empty columns that take up to `rows` markers each.
    pub fn new(cols: usize, rows: usize) -> (board: Board)
        requires
            cols >= 1,
            rows >= 1,
        ensures
            board.wf(),
            board.capacity() == rows,
            board@ == empty_grid(cols as nat),
    {
        let mut data: Vec<Vec<Field>> = Vec::new();
        let mut c: usize = 0;
        while c < cols
            invariant
                c <= cols,
                data@.len() == c,
                forall|i: int| 0 <= i < c ==> (#[trigger] data@[i])@.len() == 0,
            decreases cols - c,
        {
            data.push(Vec::new());
            c += 1;
        }
        let board = Board { rows, data };
        assert(board@ =~~= empty_grid(cols as nat));
        board
    }

    /// The number of columns.
    pub fn column_count(&self) -> (n: usize)
        ensures
            n == self@.len(),
    {
        self.data.len()
    }

    /// The most markers a column can hold.
    pub fn row_capacity(&self) -> (n: usize)
        ensures
            n == self.capacity(),
    {
        self.rows
    }

    /// How many markers column `col` holds; 0 for a column that the board
    /// does not have.
    pub fn height_of(&self, col: usize) -> (height: usize)
        ensures
            col < self@.len() ==> height == self@[col as int].len(),
            col >= self@.len() ==> height == 0,
    {
        if col < self.data.len() {
            self.data[col].len()
        } else {
            0
        }
    }

    /// The marker at `row` of column `col`, counted from the bottom.
    pub fn marker_at(&self, col: usize, row: usize) -> (marker: Option<Field>)
        ensures
            marker == cell(self@, col as int, row as int),
    {
        if col < self.data.len() && row < self.data[col].len() {
            Some(self.data[col][row])
        } else {
            None
        }
    }

    /// The line of text that shows `row`, counted from the bottom.
    pub fn draw_row(&self, row: usize) -> (line: Vec<char>)
        ensures
            line@ == row_text(self@, row as int),
    {
        let mut line: Vec<char> = Vec::new();
        let cols = self.data.len();
        let mut col: usize = 0;
        while col < cols
            invariant
                col <= cols,
                cols == self@.len(),
                line@ == cells_text(self@, row as int, col as nat),
            decreases cols - col,
        {
            let ghost before = line@;
            let marker = self.marker_at(col, row);
            line.push('|');
            line.push(' ');
            match marker {
                None => line.push(' '),
                Some(Field::Player1) => line.push('o'),
                Some(Field::Player2) => line.push('x'),
            }
            line.push(' ');
            assert(line@ =~= before + seq!['|'] + cell_text(marker));
            col += 1;
        }
        if cols > 0 {
            let ghost before = line@;
            line.push('|');
            assert(line@ =~= before + seq!['|']);
        }
        line
    }

    /// The line of dashes that is drawn between two rows.
    pub fn draw_border(&self) -> (line: Vec<char>)
        ensures
            line@ == border_text(self@.len()),
    {
        let mut line: Vec<char> = Vec::new();
        line.push('-');
        let cols = self.data.len();
        let mut col: usize = 0;
        while col < cols
            invariant
                col <= cols,
                cols == self@.len(),
                line@ =~= border_text(col as nat),
            decreases cols - col,
        {
            line.push('-');
            line.push('-');
            line.push('-');
            line.push('-');
            col += 1;
        }
        line
    }

    /// Drops `player`'s marker into column `col`, where it comes to lie on
    /// top of the markers already there. A column that the board does not
    /// have, or a full one, refuses the marker and the board stays as it was.
    pub fn put_stone_in_col(&mut self, player: Field, col: usize) -> (outcome: Result<
        Field,
        DropError,
    >)
        requires
            old(self).wf(),
        ensures
            final(self).wf(),
            final(self).capacity() == old(self).capacity(),
            outcome == drop_outcome(old(self)@, old(self).capacity(), player, col as int),
            final(self)@ == grid_after_drop(old(self)@, old(self).capacity(), player, col as int),
    {
        if self.data.len() <= col {
            return Err(DropError::InvalidColumn);
        }
        if self.data[col].len() >= self.rows {
            Err(DropError::ColumnFull)
        } else {
            self.data[col].push(player);
            assert(self@ =~= grid_after_drop(old(self)@, old(self).capacity(), player, col as int));
            Ok(player)
        }
    }
}

} // verus!
