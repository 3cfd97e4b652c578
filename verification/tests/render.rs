use battleship::board::Board;
use battleship::cell::CellState;
use battleship::render::{glyph, glyph_text, Glyph};

const HEADER: &str = "    0  1  2  3  4  5  6  7  8  9 \n";
const WATER: &str = " \u{25A1} ";
const SHIP: &str = " \u{25A0} ";
const HIT: &str = "\x1b[31m \u{25CF} \x1b[0m";
const MISS: &str = "\x1b[36m \u{00B7} \x1b[0m";
const BLANK: &str = "   ";

fn picture(rows: &[[&str; 10]; 10]) -> String {
    let mut text = String::from(HEADER);
    for (i, row) in rows.iter().enumerate() {
        text.push_str(&format!("{:2} ", i));
        for square in row {
            text.push_str(square);
        }
        text.push('\n');
    }
    text
}

#[test]
fn glyph_of_each_state() {
    assert_eq!(glyph(CellState::Empty, false), Glyph::Water);
    assert_eq!(glyph(CellState::Empty, true), Glyph::Blank);
    assert_eq!(glyph(CellState::Ship, false), Glyph::Ship);
    assert_eq!(glyph(CellState::Ship, true), Glyph::Blank);
    assert_eq!(glyph(CellState::Hit, false), Glyph::Hit);
    assert_eq!(glyph(CellState::Hit, true), Glyph::Hit);
    assert_eq!(glyph(CellState::Miss, false), Glyph::Miss);
    assert_eq!(glyph(CellState::Miss, true), Glyph::Miss);
}

#[test]
fn text_of_each_glyph() {
    assert_eq!(glyph_text(Glyph::Blank), BLANK);
    assert_eq!(glyph_text(Glyph::Water), WATER);
    assert_eq!(glyph_text(Glyph::Ship), SHIP);
    assert_eq!(glyph_text(Glyph::Hit), HIT);
    assert_eq!(glyph_text(Glyph::Miss), MISS);
}

#[test]
fn glyph_texts_differ() {
    let glyphs = [Glyph::Blank, Glyph::Water, Glyph::Ship, Glyph::Hit, Glyph::Miss];
    for a in glyphs {
        for b in glyphs {
            assert_eq!(a == b, glyph_text(a) == glyph_text(b));
        }
    }
}

#[test]
fn empty_board_drawn_openly() {
    let board = Board::new();
    assert_eq!(board.render(false), picture(&[[WATER; 10]; 10]));
}

#[test]
fn empty_board_drawn_hidden() {
    let board = Board::new();
    assert_eq!(board.render(true), picture(&[[BLANK; 10]; 10]));
}

#[test]
fn first_lines_of_the_picture() {
    let board = Board::new();
    let text = board.render(true);
    let lines: Vec<&str> = text.split('\n').collect();
    assert_eq!(lines.len(), 12);
    assert_eq!(lines[0], "    0  1  2  3  4  5  6  7  8  9 ");
    assert_eq!(lines[1], format!(" 0 {}", " ".repeat(30)));
    assert_eq!(lines[10], format!(" 9 {}", " ".repeat(30)));
    assert_eq!(lines[11], "");
}

#[test]
fn ships_hits_and_misses_drawn_openly() {
    let mut board = Board::new();
    assert!(board.place_ship_at(1, 2, 3, true));
    board.fire(1, 3);
    board.fire(7, 0);
    let mut rows = [[WATER; 10]; 10];
    rows[1][2] = SHIP;
    rows[1][3] = HIT;
    rows[1][4] = SHIP;
    rows[7][0] = MISS;
    assert_eq!(board.render(false), picture(&rows));
}

#[test]
fn ships_are_left_out_of_a_hidden_picture() {
    let mut board = Board::new();
    assert!(board.place_ship_at(1, 2, 3, true));
    board.fire(1, 3);
    board.fire(7, 0);
    let mut rows = [[BLANK; 10]; 10];
    rows[1][3] = HIT;
    rows[7][0] = MISS;
    let text = board.render(true);
    assert_eq!(text, picture(&rows));
    assert!(!text.contains('\u{25A0}'));
    assert!(!text.contains('\u{25A1}'));
}

#[test]
fn hidden_picture_does_not_depend_on_intact_ships() {
    let mut with_fleet = Board::new();
    assert!(with_fleet.place_fleet());
    let without = Board::new();
    assert_eq!(with_fleet.render(true), without.render(true));
    assert_ne!(with_fleet.render(false), without.render(false));
}

#[test]
fn render_does_not_change_the_board() {
    let mut board = Board::new();
    assert!(board.place_ship_at(0, 0, 2, false));
    let first = board.render(false);
    let hidden = board.render(true);
    assert_eq!(board.render(false), first);
    assert_eq!(board.render(true), hidden);
    assert_eq!(board.ship_cells(), &vec![(0, 0), (1, 0)]);
}
