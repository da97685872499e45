use minesweeper::board::{Board, BoardType, ExitType, Position, Tile};
use minesweeper::game::{Key, Response};
use minesweeper::screen::Glyph;
use minesweeper::style::{get_tile_style, Color};

fn board_with_bombs(w: u16, h: u16, bombs: &[Position]) -> Board {
    let mut b = Board::new(BoardType::Custom(w, h, bombs.len() as u16));
    b.bombs = bombs.to_vec();
    b.goes = 1;
    b
}

fn tiles_as_text(b: &Board) -> Vec<String> {
    let mut rows = Vec::new();
    for y in 0..b.height {
        let mut row = String::new();
        for x in 0..b.width {
            row.push(match b.get_tile(x, y) {
                Tile::Unopened => '#',
                Tile::Blank => '.',
                Tile::Flag => 'F',
                Tile::Numbered(n) => (b'0' + *n) as char,
            });
        }
        rows.push(row);
    }
    rows
}

#[test]
fn new_easy_board() {
    let b = Board::new(BoardType::Easy);
    assert_eq!(b.width, 9);
    assert_eq!(b.height, 9);
    assert_eq!(b.bomb_count, 10);
    assert_eq!(b.tiles.len(), 81);
    assert!(b.tiles.iter().all(|t| *t == Tile::Unopened));
    assert!(b.bombs.is_empty());
    assert_eq!(b.selected_cell, (4, 4));
    assert_eq!(b.goes, 0);
    assert_eq!(b.flag_count, 0);
    assert_eq!(b.timer, 0);
    assert_eq!(b.exit, None);
    assert!(b.board_type == BoardType::Easy);
}

#[test]
fn new_custom_board_selects_middle() {
    let b = Board::new(BoardType::Custom(7, 4, 3));
    assert_eq!((b.width, b.height, b.bomb_count), (7, 4, 3));
    assert_eq!(b.tiles.len(), 28);
    assert_eq!(b.selected_cell, (3, 2));
}

#[test]
fn type_values_of_each_difficulty() {
    let e = Board::get_type_values(&BoardType::Easy);
    assert_eq!((e.0, e.1, e.2, e.3.as_str()), (9, 9, 10, "Easy"));
    assert_eq!((e.4, e.5), (Color::Green, Color::DarkGreen));
    let n = Board::get_type_values(&BoardType::Normal);
    assert_eq!((n.0, n.1, n.2, n.3.as_str()), (16, 16, 40, "Normal"));
    assert_eq!((n.4, n.5), (Color::Cyan, Color::DarkCyan));
    let h = Board::get_type_values(&BoardType::Hard);
    assert_eq!((h.0, h.1, h.2, h.3.as_str()), (30, 16, 99, "Hard"));
    assert_eq!((h.4, h.5), (Color::Red, Color::DarkRed));
    let c = Board::get_type_values(&BoardType::Custom(8, 8, 10));
    assert_eq!((c.0, c.1, c.2, c.3.as_str()), (8, 8, 10, "Custom"));
    assert_eq!((c.4, c.5), (Color::Yellow, Color::DarkYellow));
}

#[test]
fn custom_bomb_count_leaves_room_for_first_dig() {
    assert_eq!(Board::get_type_values(&BoardType::Custom(8, 8, 100)).2, 55);
    assert_eq!(Board::get_type_values(&BoardType::Custom(2, 2, 5)).2, 0);
    assert_eq!(Board::get_type_values(&BoardType::Custom(3, 3, 1)).2, 0);
    assert_eq!(Board::get_type_values(&BoardType::Custom(10, 1, 1)).2, 1);
}

#[test]
fn check_bounds_edges() {
    let b = Board::new(BoardType::Custom(5, 3, 1));
    assert!(b.check_bounds(0, 0));
    assert!(b.check_bounds(4, 2));
    assert!(!b.check_bounds(5, 2));
    assert!(!b.check_bounds(4, 3));
    assert!(!b.check_bounds(-1, 0));
    assert!(!b.check_bounds(0, -1));
}

#[test]
fn in_3x3_area() {
    let b = Board::new(BoardType::Custom(5, 5, 1));
    assert!(b.in_3x3(2, 2, 1, 1));
    assert!(b.in_3x3(2, 2, 3, 3));
    assert!(b.in_3x3(2, 2, 2, 2));
    assert!(!b.in_3x3(2, 2, 4, 2));
    assert!(b.in_3x3(0, 0, 1, 1));
    assert!(!b.in_3x3(0, 0, 2, 0));
    // the second cell must lie on the board
    assert!(!b.in_3x3(4, 4, 5, 5));
}

#[test]
fn move_selected_cell_stays_on_board() {
    let mut b = Board::new(BoardType::Custom(3, 3, 1));
    assert_eq!(b.selected_cell, (1, 1));
    b.move_selected_cell(1, 0);
    assert_eq!(b.selected_cell, (2, 1));
    b.move_selected_cell(1, 0);
    assert_eq!(b.selected_cell, (2, 1));
    b.move_selected_cell(0, -1);
    b.move_selected_cell(0, -1);
    assert_eq!(b.selected_cell, (2, 0));
    b.move_selected_cell(-2, 2);
    assert_eq!(b.selected_cell, (0, 2));
    b.move_selected_cell(-1, 0);
    assert_eq!(b.selected_cell, (0, 2));
}

#[test]
fn get_and_set_tile() {
    let mut b = Board::new(BoardType::Custom(4, 3, 1));
    b.set_tile(3, 2, Tile::Numbered(2));
    assert_eq!(*b.get_tile(3, 2), Tile::Numbered(2));
    assert_eq!(b.tiles[3 + 2 * 4], Tile::Numbered(2));
    assert_eq!(*b.get_tile(2, 3 - 1), Tile::Unopened);
    b.set_tile(0, 1, Tile::Flag);
    assert_eq!(b.tiles[4], Tile::Flag);
}

#[test]
fn flag_toggles() {
    let mut b = Board::new(BoardType::Easy);
    b.flag();
    assert_eq!(*b.get_tile(4, 4), Tile::Flag);
    assert_eq!(b.flag_count, 1);
    b.flag();
    assert_eq!(*b.get_tile(4, 4), Tile::Unopened);
    assert_eq!(b.flag_count, 0);
    b.set_tile(4, 4, Tile::Blank);
    b.flag();
    assert_eq!(*b.get_tile(4, 4), Tile::Blank);
    assert_eq!(b.flag_count, 0);
}

#[test]
fn place_bombs_skips_area_around_selection() {
    let mut b = Board::new(BoardType::Easy);
    let order: Vec<u16> = (0..81).collect();
    b.place_bombs(&order);
    let expected: Vec<Position> = vec![
        (0, 0), (1, 0), (2, 0), (3, 0), (4, 0), (5, 0), (6, 0), (7, 0), (8, 0), (0, 1),
    ];
    assert_eq!(b.bombs, expected);
    let mut b = Board::new(BoardType::Custom(3, 3, 5));
    b.bomb_count = 5;
    b.selected_cell = (0, 0);
    let order: Vec<u16> = vec![0, 4, 8, 2, 6, 7];
    b.place_bombs(&order);
    assert_eq!(b.bombs, vec![(2, 2), (2, 0), (0, 2), (1, 2)]);
}

#[test]
fn place_bombs_stops_at_bomb_count() {
    let mut b = Board::new(BoardType::Custom(5, 1, 2));
    b.bomb_count = 2;
    b.selected_cell = (0, 0);
    b.place_bombs(&vec![4, 3, 2]);
    assert_eq!(b.bombs, vec![(4, 0), (3, 0)]);
}

#[test]
fn populate_bombs_places_distinct_bombs_away_from_selection() {
    let mut b = Board::new(BoardType::Normal);
    b.populate_bombs();
    assert_eq!(b.bombs.len(), 40);
    for (i, p) in b.bombs.iter().enumerate() {
        assert!(p.0 < 16 && p.1 < 16);
        assert!(!b.in_3x3(p.0, p.1, 8, 8));
        assert!(!b.bombs[..i].contains(p));
    }
}

#[test]
fn populate_bombs_shuffles_the_cells() {
    let mut shuffled = Board::new(BoardType::Hard);
    shuffled.populate_bombs();
    let mut sorted = Board::new(BoardType::Hard);
    let order: Vec<u16> = (0..480).collect();
    sorted.place_bombs(&order);
    assert_eq!(shuffled.bombs.len(), 99);
    assert_ne!(shuffled.bombs, sorted.bombs);
}

#[test]
fn populate_bombs_on_a_crowded_board() {
    // 3x3 board, selection in the middle: no cell is outside its area
    let mut b = Board::new(BoardType::Custom(3, 3, 0));
    b.bomb_count = 4;
    b.populate_bombs();
    assert!(b.bombs.is_empty());
}

#[test]
fn flood_dig_opens_the_empty_region() {
    // 5x4 board with bombs at (4, 0) and (4, 1)
    let mut b = board_with_bombs(5, 4, &[(4, 0), (4, 1)]);
    b.flood_dig(0, 3);
    assert_eq!(
        tiles_as_text(&b),
        vec!["...2#", "...2#", "...11", "....."]
    );
}

#[test]
fn flood_dig_on_a_numbered_cell_opens_only_it() {
    let mut b = board_with_bombs(3, 3, &[(1, 1)]);
    b.flood_dig(0, 0);
    assert_eq!(tiles_as_text(&b), vec!["1##", "###", "###"]);
}

#[test]
fn flood_dig_keeps_flags() {
    let mut b = board_with_bombs(4, 1, &[]);
    b.set_tile(2, 0, Tile::Flag);
    b.flood_dig(0, 0);
    assert_eq!(tiles_as_text(&b), vec!["..F#"]);
}

#[test]
fn first_dig_places_bombs_and_opens_selection() {
    let mut b = Board::new(BoardType::Easy);
    b.dig();
    assert_eq!(b.goes, 1);
    assert_eq!(b.bombs.len(), 10);
    assert_eq!(*b.get_tile(4, 4), Tile::Blank);
    assert_ne!(b.exit, Some(ExitType::Lose));
}

#[test]
fn dig_on_open_cell_does_nothing() {
    let mut b = board_with_bombs(3, 3, &[(0, 0)]);
    b.set_tile(1, 1, Tile::Numbered(1));
    b.dig();
    assert_eq!(b.goes, 1);
    assert_eq!(tiles_as_text(&b), vec!["###", "#1#", "###"]);
}

#[test]
fn dig_on_a_bomb_loses() {
    let mut b = board_with_bombs(3, 3, &[(1, 1)]);
    b.dig();
    assert_eq!(b.exit, Some(ExitType::Lose));
    assert_eq!(b.goes, 2);
    assert_eq!(tiles_as_text(&b), vec!["###", "###", "###"]);
}

#[test]
fn dig_wins_when_only_bombs_are_covered() {
    let mut b = board_with_bombs(3, 1, &[(0, 0)]);
    b.selected_cell = (2, 0);
    b.dig();
    assert_eq!(tiles_as_text(&b), vec!["#1."]);
    assert_eq!(b.exit, Some(ExitType::Win));
}

#[test]
fn dig_does_not_win_early() {
    let mut b = board_with_bombs(4, 1, &[(0, 0)]);
    b.set_tile(2, 0, Tile::Flag);
    b.selected_cell = (3, 0);
    b.dig();
    assert_eq!(tiles_as_text(&b), vec!["##F."]);
    assert_eq!(b.exit, None);
}

#[test]
fn tile_styles() {
    let bomb = get_tile_style(None);
    assert_eq!(bomb, (Color::Rgb { r: 239, g: 125, b: 87 }, Color::Reset, true));
    assert_eq!(
        get_tile_style(Some(&Tile::Numbered(1))),
        (Color::Rgb { r: 112, g: 181, b: 238 }, Color::Reset, false)
    );
    assert_eq!(
        get_tile_style(Some(&Tile::Numbered(7))),
        (Color::Rgb { r: 234, g: 186, b: 255 }, Color::Reset, false)
    );
    assert_eq!(
        get_tile_style(Some(&Tile::Numbered(8))),
        (Color::Rgb { r: 112, g: 238, b: 181 }, Color::Reset, false)
    );
    assert_eq!(
        get_tile_style(Some(&Tile::Blank)),
        (Color::Rgb { r: 170, g: 170, b: 170 }, Color::Reset, false)
    );
    assert_eq!(
        get_tile_style(Some(&Tile::Unopened)),
        (Color::Rgb { r: 170, g: 170, b: 170 }, Color::Reset, true)
    );
    assert_eq!(
        get_tile_style(Some(&Tile::Flag)),
        (Color::Rgb { r: 224, g: 83, b: 160 }, Color::Reset, true)
    );
}

#[test]
fn cell_views_after_a_loss() {
    let mut b = board_with_bombs(3, 1, &[(0, 0), (2, 0)]);
    b.set_tile(2, 0, Tile::Flag);
    b.exit = Some(ExitType::Lose);
    let bomb = b.cell_view(0, 0);
    assert_eq!(bomb.glyph, Glyph::Bomb);
    assert!(bomb.reversed);
    assert!(!bomb.crossed_out);
    assert_eq!(bomb.fg, Color::Rgb { r: 239, g: 125, b: 87 });
    let flagged_bomb = b.cell_view(2, 0);
    assert_eq!(flagged_bomb.glyph, Glyph::Flag);
    assert!(!flagged_bomb.crossed_out);
    b.set_tile(1, 0, Tile::Flag);
    let wrong_flag = b.cell_view(1, 0);
    assert_eq!(wrong_flag.glyph, Glyph::Flag);
    assert!(wrong_flag.crossed_out);
}

#[test]
fn cell_views_during_play() {
    let mut b = board_with_bombs(3, 1, &[(0, 0)]);
    b.set_tile(1, 0, Tile::Numbered(1));
    b.set_tile(2, 0, Tile::Flag);
    let hidden = b.cell_view(0, 0);
    assert_eq!(hidden.glyph, Glyph::Dash);
    assert!(hidden.reversed);
    let number = b.cell_view(1, 0);
    assert_eq!(number.glyph, Glyph::Number(1));
    assert!(!number.reversed);
    let flag = b.cell_view(2, 0);
    assert!(!flag.crossed_out);
    assert!(flag.reversed);
}

#[test]
fn mines_left_never_negative() {
    let mut b = Board::new(BoardType::Easy);
    assert_eq!(b.mines_left(), 10);
    b.flag_count = 3;
    assert_eq!(b.mines_left(), 7);
    b.flag_count = 12;
    assert_eq!(b.mines_left(), 0);
}

#[test]
fn exit_messages() {
    let mut b = Board::new(BoardType::Easy);
    assert_eq!(b.exit_message(), None);
    b.exit = Some(ExitType::Win);
    assert_eq!(b.exit_message(), Some("You win, well done!"));
    b.exit = Some(ExitType::Lose);
    assert_eq!(b.exit_message(), Some("BANG! You lose, better luck next time!"));
}

#[test]
fn keys_drive_the_board() {
    let mut b = board_with_bombs(3, 3, &[(0, 0)]);
    assert_eq!(b.handle_key(Key::Other), Response::Ignore);
    assert_eq!(b.handle_key(Key::Right), Response::Redraw);
    assert_eq!(b.selected_cell, (2, 1));
    assert_eq!(b.handle_key(Key::Up), Response::Redraw);
    assert_eq!(b.handle_key(Key::Flag), Response::Redraw);
    assert_eq!(*b.get_tile(2, 0), Tile::Flag);
    assert_eq!(b.handle_key(Key::Down), Response::Redraw);
    assert_eq!(b.handle_key(Key::Left), Response::Redraw);
    assert_eq!(b.selected_cell, (1, 1));
    assert_eq!(b.handle_key(Key::Dig), Response::Redraw);
    assert_eq!(*b.get_tile(1, 1), Tile::Numbered(1));
    assert_eq!(b.handle_key(Key::Esc), Response::Quit);
    assert!(!b.is_over());
}

#[test]
fn tick_updates_timer() {
    let mut b = Board::new(BoardType::Easy);
    assert!(!b.tick(0));
    assert!(b.tick(3));
    assert_eq!(b.timer, 3);
    assert!(!b.tick(3));
}

#[test]
fn dig_with_selection_past_the_right_edge() {
    // On a board one cell wide, (1, 0) names the tile stored for (0, 1).
    let mut b = board_with_bombs(1, 3, &[(0, 2)]);
    b.selected_cell = (1, 0);
    b.dig();
    assert_eq!(b.goes, 2);
    assert_eq!(tiles_as_text(&b), vec![".", "1", "#"]);
    assert_eq!(b.exit, Some(ExitType::Win));
}
