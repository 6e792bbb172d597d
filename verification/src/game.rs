//! A game: the rules, the players in the order of their turns, and what a
//! turn does to the board.

use crate::board::{drop_outcome, empty_grid, grid_after_drop, Board, DropError, Field, Grid};
use crate::rules::{Rules, WinningCombinations};
use vstd::prelude::*;

verus! {

/// The column that an entry names: players count the columns from one.
pub open spec fn selected_column(columns: nat, entry: usize) -> Option<usize> {
    if 1 <= entry <= columns {
        Some((entry - 1) as usize)
    } else {
        None
    }
}

/// The place in `players` of the one whose turn follows that of `turn`.
pub open spec fn next_turn(players: Seq<Field>, turn: int) -> int {
    if turn + 1 < players.len() {
        turn + 1
    } else {
        0
    }
}

/// How a game goes on from `grid` when the player at `turn` is to move and
/// `entries` are made one after another: the grid at the end, and the winner
/// if there is one. An entry that names no column is passed over and the turn
/// stays with the player. Any other entry is dropped, or refused by a full
/// column, and uses up the turn. The game ends with the first turn after
/// which the player who made it has won.
pub open spec fn outcome_from(
    rules: Rules,
    players: Seq<Field>,
    grid: Grid,
    capacity: nat,
    entries: Seq<usize>,
    turn: int,
) -> (Grid, Option<Field>)
    decreases entries.len(),
{
    if entries.len() == 0 {
        (grid, None)
    } else {
        match selected_column(grid.len(), entries[0]) {
            None => outcome_from(rules, players, grid, capacity, entries.drop_first(), turn),
            Some(col) => {
                let player = players[turn];
                let next = grid_after_drop(grid, capacity, player, col as int);
                if rules.wins(next, player) {
                    (next, Some(player))
                } else {
                    outcome_from(
                        rules,
                        players,
                        next,
                        capacity,
                        entries.drop_first(),
                        next_turn(players, turn),
                    )
                }
            },
        }
    }
}

/// The rules of a game and its players, in the order of their turns.
pub struct Game {
    rules: Rules,
    players: Vec<Field>,
}

impl Game {
    /// The game's rules.
    pub closed spec fn rules(&self) -> Rules {
        self.rules
    }

    /// The players, in the order of their turns.
    pub closed spec fn players(&self) -> Seq<Field> {
        self.players@
    }

    /// A game that is won by a run of `winning_condition` markers, with no
    /// rule registered and no player yet.
    pub fn new(winning_condition: usize) -> (game: Game)
        requires
            winning_condition >= 1,
        ensures
            game.rules().run_length() == winning_condition,
            game.rules().active_rules() == Seq::<WinningCombinations>::empty(),
            game.players() == Seq::<Field>::empty(),
    {
        Game { rules: Rules::new(winning_condition), players: Vec::new() }
    }

    /// Registers `rule` behind the rules already registered.
    pub fn register_rule(&mut self, rule: WinningCombinations)
        ensures
            final(self).rules().run_length() == old(self).rules().run_length(),
            final(self).rules().active_rules() == old(self).rules().active_rules().push(rule),
            final(self).players() == old(self).players(),
    {
        self.rules.register(rule)
    }

    /// Whether `player` has won on `board` by any registered rule.
    pub fn is_player_winning(&self, board: &Board, player: Field) -> (won: bool)
        ensures
            won == self.rules().wins(board@, player),
    {
        self.rules.evaluate(board, &player)
    }

    /// Lets `player` take turns after the players already there.
    pub fn add_player(&mut self, player: Field)
        ensures
            final(self).rules() == old(self).rules(),
            final(self).players() == old(self).players().push(player),
    {
        self.players.push(player)
    }

    /// The players, in the order of their turns.
    pub fn players_in_turn(&self) -> (list: &Vec<Field>)
        ensures
            list@ == self.players(),
    {
        &self.players
    }

    /// The column of `board` that `entry` names, counted from one as players
    /// do; none where the board has no such column.
    pub fn select_column(board: &Board, entry: usize) -> (col: Option<usize>)
        ensures
            col == selected_column(board@.len(), entry),
    {
        if entry > 0 && entry <= board.column_count() {
            Some(entry - 1)
        } else {
            None
        }
    }

    /// One turn of `player`, who has chosen column `col`: the marker is
    /// dropped, or refused by the board, and either way the board is then
    /// asked whether `player` has won.
    pub fn do_turn(&self, board: &mut Board, player: &Field, col: usize) -> (turn: (
        Result<Field, DropError>,
        bool,
    ))
        requires
            old(board).wf(),
        ensures
            final(board).wf(),
            final(board).capacity() == old(board).capacity(),
            final(board)@ == grid_after_drop(old(board)@, old(board).capacity(), *player, col as int),
            turn.0 == drop_outcome(old(board)@, old(board).capacity(), *player, col as int),
            turn.1 == self.rules().wins(final(board)@, *player),
    {
        let dropped = board.put_stone_in_col(*player, col);
        let won = self.is_player_winning(board, *player);
        (dropped, won)
    }

    /// Plays a game on a new board of seven columns that take five markers
    /// each, by the horizontal and the vertical rule, between the two players
    /// in turn, the first beginning: one entry after another is taken as the
    /// choice of the player whose turn it is, until a player has won or the
    /// entries have run out. Returns the board at the end and the winner, if
    /// there is one.
    #[verifier::loop_isolation(false)]
    pub fn run(&mut self, entries: &Vec<usize>) -> (end: (Board, Option<Field>))
        ensures
            final(self).rules().run_length() == old(self).rules().run_length(),
            final(self).rules().active_rules() == old(self).rules().active_rules().push(
                WinningCombinations::HorizontalWin,
            ).push(WinningCombinations::VerticalWin),
            final(self).players() == old(self).players().push(Field::Player1).push(Field::Player2),
            end.0.wf(),
            end.0.capacity() == 5,
            (end.0@, end.1) == outcome_from(
                final(self).rules(),
                final(self).players(),
                empty_grid(7),
                5,
                entries@,
                0,
            ),
    {
        let mut board = Board::new(7, 5);

        self.register_rule(WinningCombinations::HorizontalWin);
        self.register_rule(WinningCombinations::VerticalWin);

        self.add_player(Field::Player1);
        self.add_player(Field::Player2);

        let game: &Game = &*self;
        let seats = game.players.len();
        let mut turn: usize = 0;
        let mut i: usize = 0;
        assert(entries@.subrange(0, entries@.len() as int) =~= entries@);
        while i < entries.len()
            invariant
                i <= entries@.len(),
                board.wf(),
                board.capacity() == 5,
                seats == game.players().len(),
                turn < seats,
                outcome_from(game.rules(), game.players(), empty_grid(7), 5, entries@, 0)
                    == outcome_from(
                    game.rules(),
                    game.players(),
                    board@,
                    5,
                    entries@.subrange(i as int, entries@.len() as int),
                    turn as int,
                ),
            decreases entries@.len() - i,
        {
            proof {
                let rest = entries@.subrange(i as int, entries@.len() as int);
                assert(rest[0] == entries@[i as int]);
                assert(rest.drop_first() =~= entries@.subrange(i + 1, entries@.len() as int));
            }
            match Game::select_column(&board, entries[i]) {
                None => {},
                Some(col) => {
                    let player = game.players[turn];
                    let (_, won) = game.do_turn(&mut board, &player, col);
                    if won {
                        return (board, Some(player));
                    }
                    turn = if turn + 1 < seats {
                        turn + 1
                    } else {
                        0
                    };
                },
            }
            i += 1;
        }
        (board, None)
    }
}

} // verus!
