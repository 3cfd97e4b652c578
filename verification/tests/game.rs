use battleship::board::Board;
use battleship::cell::{CellState, BOARD_SIZE};
use battleship::game::{Game, Phase, Side};
use battleship::random::generate_opponent_move;

fn board_with(ships: &[(usize, usize, usize, bool)]) -> Board {
    let mut board = Board::new();
    for &(row, col, size, direction) in ships {
        assert!(board.place_ship_at(row, col, size, direction));
    }
    board
}

#[test]
fn player_moves_first() {
    let game = Game::new(board_with(&[(0, 0, 2, true)]), board_with(&[(5, 5, 2, false)]));
    assert_eq!(game.phase(), Phase::PlayerTurn);
    assert_eq!(game.player_board().ship_cells(), &vec![(0, 0), (0, 1)]);
    assert_eq!(game.opponent_board().ship_cells(), &vec![(5, 5), (6, 5)]);
}

#[test]
fn player_fires_at_the_opponents_board() {
    let mut game = Game::new(board_with(&[(0, 0, 2, true)]), board_with(&[(5, 5, 2, false)]));
    assert_eq!(game.take_turn(5, 5), Some(CellState::Hit));
    assert_eq!(game.opponent_board().cell(5, 5), CellState::Hit);
    assert_eq!(game.player_board().cell(5, 5), CellState::Empty);
    assert_eq!(game.phase(), Phase::OpponentTurn);
}

#[test]
fn opponent_fires_at_the_players_board() {
    let mut game = Game::new(board_with(&[(0, 0, 2, true)]), board_with(&[(5, 5, 2, false)]));
    assert_eq!(game.take_turn(0, 0), Some(CellState::Miss));
    assert_eq!(game.opponent_board().cell(0, 0), CellState::Miss);
    assert_eq!(game.phase(), Phase::OpponentTurn);
    assert_eq!(game.take_turn(0, 0), Some(CellState::Hit));
    assert_eq!(game.player_board().cell(0, 0), CellState::Hit);
    assert_eq!(game.opponent_board().cell(0, 0), CellState::Miss);
    assert_eq!(game.phase(), Phase::PlayerTurn);
}

#[test]
fn turns_alternate_until_a_fleet_is_sunk() {
    let mut game = Game::new(board_with(&[(0, 0, 3, true)]), board_with(&[(9, 0, 3, true)]));
    let mut expected = Phase::PlayerTurn;
    for col in 3..BOARD_SIZE {
        assert_eq!(game.phase(), expected);
        assert_eq!(game.take_turn(4, col), Some(CellState::Miss));
        expected = if expected == Phase::PlayerTurn { Phase::OpponentTurn } else { Phase::PlayerTurn };
    }
    assert_eq!(game.phase(), expected);
}

#[test]
fn player_wins_by_sinking_the_opponents_fleet() {
    let mut game = Game::new(board_with(&[(0, 0, 2, true)]), board_with(&[(5, 5, 2, false)]));
    assert_eq!(game.take_turn(5, 5), Some(CellState::Hit));
    assert_eq!(game.take_turn(9, 9), Some(CellState::Miss));
    assert_eq!(game.phase(), Phase::PlayerTurn);
    assert_eq!(game.take_turn(6, 5), Some(CellState::Hit));
    assert_eq!(game.phase(), Phase::GameOver(Side::Player));
}

#[test]
fn opponent_wins_by_sinking_the_players_fleet() {
    let mut game = Game::new(board_with(&[(0, 0, 2, true)]), board_with(&[(5, 5, 2, false)]));
    assert_eq!(game.take_turn(1, 1), Some(CellState::Miss));
    assert_eq!(game.take_turn(0, 0), Some(CellState::Hit));
    assert_eq!(game.take_turn(1, 1), Some(CellState::Miss));
    assert_eq!(game.phase(), Phase::OpponentTurn);
    assert_eq!(game.take_turn(0, 1), Some(CellState::Hit));
    assert_eq!(game.phase(), Phase::GameOver(Side::Opponent));
    assert!(game.player_board().is_game_over());
    assert!(!game.opponent_board().is_game_over());
}

#[test]
fn nothing_happens_once_the_game_is_over() {
    let mut game = Game::new(board_with(&[(0, 0, 1, true)]), board_with(&[(5, 5, 1, true)]));
    assert_eq!(game.take_turn(5, 5), Some(CellState::Hit));
    assert_eq!(game.phase(), Phase::GameOver(Side::Player));
    assert_eq!(game.take_turn(0, 0), None);
    assert_eq!(game.take_turn(3, 3), None);
    assert_eq!(game.phase(), Phase::GameOver(Side::Player));
    assert_eq!(game.player_board().cell(0, 0), CellState::Ship);
    assert_eq!(game.player_board().cell(3, 3), CellState::Empty);
    assert_eq!(game.opponent_board().cell(3, 3), CellState::Empty);
}

#[test]
fn repeated_shot_is_a_miss_and_passes_the_turn() {
    let mut game = Game::new(board_with(&[(0, 0, 2, true)]), board_with(&[(5, 5, 2, false)]));
    assert_eq!(game.take_turn(5, 5), Some(CellState::Hit));
    assert_eq!(game.take_turn(7, 7), Some(CellState::Miss));
    assert_eq!(game.take_turn(5, 5), Some(CellState::Miss));
    assert_eq!(game.phase(), Phase::OpponentTurn);
    assert_eq!(game.opponent_board().cell(5, 5), CellState::Hit);
}

#[test]
fn opponent_without_ships_loses_to_the_first_shot() {
    let mut game = Game::new(board_with(&[(0, 0, 2, true)]), Board::new());
    assert_eq!(game.take_turn(4, 4), Some(CellState::Miss));
    assert_eq!(game.phase(), Phase::GameOver(Side::Player));
}

#[test]
fn player_without_ships_loses_to_the_opponents_first_shot() {
    let mut game = Game::new(Board::new(), board_with(&[(0, 0, 2, true)]));
    assert_eq!(game.take_turn(4, 4), Some(CellState::Miss));
    assert_eq!(game.phase(), Phase::OpponentTurn);
    assert_eq!(game.take_turn(4, 4), Some(CellState::Miss));
    assert_eq!(game.phase(), Phase::GameOver(Side::Opponent));
}

#[test]
fn started_game_has_two_full_fleets() {
    let game = Game::start().expect("both fleets fit on an empty grid");
    assert_eq!(game.phase(), Phase::PlayerTurn);
    for board in [game.player_board(), game.opponent_board()] {
        assert_eq!(board.ship_cells().len(), 21);
        for &(row, col) in board.ship_cells() {
            assert_eq!(board.cell(row, col), CellState::Ship);
        }
        assert!(!board.is_game_over());
    }
}

#[test]
fn started_games_differ() {
    let first = Game::start().expect("both fleets fit on an empty grid");
    let mut differs = false;
    for _ in 0..20 {
        let other = Game::start().expect("both fleets fit on an empty grid");
        if other.player_board().ship_cells() != first.player_board().ship_cells() {
            differs = true;
        }
    }
    assert!(differs);
}

#[test]
fn opponent_moves_are_on_the_board() {
    for _ in 0..10_000 {
        let (row, col) = generate_opponent_move();
        assert!(row < BOARD_SIZE);
        assert!(col < BOARD_SIZE);
    }
}

#[test]
fn opponent_moves_reach_every_square() {
    let mut seen = [[false; BOARD_SIZE]; BOARD_SIZE];
    for _ in 0..100_000 {
        let (row, col) = generate_opponent_move();
        seen[row][col] = true;
    }
    assert!(seen.iter().all(|row| row.iter().all(|&square| square)));
}

#[test]
fn a_whole_game_against_random_moves_ends() {
    let mut game = Game::start().expect("both fleets fit on an empty grid");
    let targets = game.opponent_board().ship_cells().clone();
    let mut next = 0;
    let mut turns = 0;
    loop {
        match game.phase() {
            Phase::PlayerTurn => {
                let (row, col) = targets[next];
                next += 1;
                assert_eq!(game.take_turn(row, col), Some(CellState::Hit));
            }
            Phase::OpponentTurn => {
                let (row, col) = generate_opponent_move();
                assert!(game.take_turn(row, col).is_some());
            }
            Phase::GameOver(winner) => {
                if winner == Side::Player {
                    assert_eq!(next, 21);
                    assert!(game.opponent_board().is_game_over());
                } else {
                    assert!(game.player_board().is_game_over());
                }
                break;
            }
        }
        turns += 1;
        assert!(turns <= 42);
    }
}
