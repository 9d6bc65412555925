use uttt::board::{play_move, Board};
use uttt::encoding::{board_from_string, board_string, print_board};
use uttt::notation::{eval_string, move_from_string, move_string};

#[test]
fn move_string_names_zone_and_cell() {
    assert_eq!(move_string(0), "nw/nw");
    assert_eq!(move_string(4), "nw/c");
    assert_eq!(move_string(40), "c/c");
    assert_eq!(move_string(17), "n/se");
    assert_eq!(move_string(80), "se/se");
}

#[test]
fn move_from_string_reads_what_move_string_writes() {
    for mv in 0..81u64 {
        assert_eq!(move_from_string(&move_string(mv)), Some(mv));
    }
}

#[test]
fn move_from_string_rejects_other_text() {
    assert_eq!(move_from_string(""), None);
    assert_eq!(move_from_string("nw"), None);
    assert_eq!(move_from_string("nw/"), None);
    assert_eq!(move_from_string("nw/x"), None);
    assert_eq!(move_from_string("nw/n/e"), None);
    assert_eq!(move_from_string("NW/N"), None);
    assert_eq!(move_from_string("any/c"), None);
    assert_eq!(move_from_string(" c/c"), None);
}

#[test]
fn eval_string_writes_each_kind_of_score() {
    assert_eq!(eval_string(13, 1), "+13");
    assert_eq!(eval_string(-13, 1), "-13");
    assert_eq!(eval_string(0, 5), "D0");
    assert_eq!(eval_string(1_000_000, 5), "W0");
    assert_eq!(eval_string(999_997, 5), "W3");
    assert_eq!(eval_string(999_994, 5), "+999994");
    assert_eq!(eval_string(-1_000_000, 5), "L0");
    assert_eq!(eval_string(-999_998, 5), "L2");
    assert_eq!(eval_string(-999_994, 5), "-999994");
    assert_eq!(eval_string(-1_000_005, 5), "L-5");
    assert_eq!(eval_string(1_000_010, 5), "W-10");
    assert_eq!(eval_string(2145, 32), "+2145");
}

#[test]
fn empty_board_is_written_as_nine_empty_rows() {
    assert_eq!(board_string(Board::empty()), "9/9/9/9/9/9/9/9/9 any");
}

#[test]
fn board_string_squeezes_runs_of_empty_cells() {
    let b = play_move(Board::empty(), 4, false);
    assert_eq!(board_string(b), "9/1x7/9/9/9/9/9/9/9 c");
    let b = play_move(b, 36, true);
    assert_eq!(board_string(b), "9/1x7/9/3o5/9/9/9/9/9 nw");
    let b = play_move(b, 8, false);
    assert_eq!(board_string(b), "9/1x7/2x6/3o5/9/9/9/9/9 se");
    let b = play_move(b, 80, true);
    assert_eq!(board_string(b), "9/1x7/2x6/3o5/9/9/9/9/8o se");
    let b = play_move(b, 72, false);
    assert_eq!(board_string(b), "9/1x7/2x6/3o5/9/9/6x2/9/8o nw");
}

#[test]
fn board_from_string_reads_what_board_string_writes() {
    let mut b = Board::empty();
    let moves: [u64; 9] = [4, 36, 8, 80, 72, 0, 1, 9, 2];
    let mut side = false;
    for mv in moves {
        b = play_move(b, mv, side);
        side = !side;
        assert_eq!(board_from_string(&board_string(b)), Some(b));
    }
}

#[test]
fn board_from_string_works_out_the_owners() {
    // The first player holds the north row of the north-west zone and of the
    // south-east zone; the second player the centre column of the south zone.
    let b = board_from_string("xxx6/9/9/9/9/9/3.o.xxx/4o4/4o4 any").unwrap();
    assert_eq!(b.us, 0b111);
    assert_eq!(b.them, 0);
    assert_eq!(b.occupancy(false, 8), 0b111);
    assert_eq!(b.occupancy(true, 7), 0b010010010);
    assert_eq!(b.ownership(false), 0b100000001);
    assert_eq!(b.ownership(true), 0b010000000);
    assert_eq!(b.active_zone(), 9);
}

#[test]
fn board_from_string_takes_other_characters_for_empty_cells() {
    let b = board_from_string("abcdefghi/9/9/9/9/9/9/9/0.......0 c").unwrap();
    assert_eq!(b.us, 0);
    assert_eq!(b.them, 0);
    assert_eq!(b.share, 4 << 54);
}

#[test]
fn board_from_string_accepts_any_white_space_between_the_words() {
    let plain = board_from_string("9/9/9/9/9/9/9/9/9 any");
    assert_eq!(plain, Some(Board::empty()));
    assert_eq!(board_from_string("  9/9/9/9/9/9/9/9/9\t\n any "), plain);
    assert_eq!(board_from_string("9/9/9/9/9/9/9/9/9\u{3000}any"), plain);
}

#[test]
fn board_from_string_rejects_malformed_text() {
    // One word, three words.
    assert_eq!(board_from_string("9/9/9/9/9/9/9/9/9"), None);
    assert_eq!(board_from_string("9/9/9/9/9/9/9/9/9 any any"), None);
    assert_eq!(board_from_string(""), None);
    // Eight rows, ten rows.
    assert_eq!(board_from_string("9/9/9/9/9/9/9/9 any"), None);
    assert_eq!(board_from_string("9/9/9/9/9/9/9/9/9/9 any"), None);
    // A row of eight cells, a row of ten.
    assert_eq!(board_from_string("8/9/9/9/9/9/9/9/9 any"), None);
    assert_eq!(board_from_string("9/9/9/9/x9/9/9/9/9 any"), None);
    // A zone that does not exist.
    assert_eq!(board_from_string("9/9/9/9/9/9/9/9/9 nn"), None);
    assert_eq!(board_from_string("9/9/9/9/9/9/9/9/9 ANY"), None);
    assert_eq!(board_from_string("9/9/9/9/9/9/9/9/9 n1"), None);
}

#[test]
fn print_board_draws_cells_owners_and_zone() {
    let b = board_from_string("xxx6/9/9/9/9/9/3.o.xxx/4o4/4o4 sw").unwrap();
    let expected = "---+---+---\n\
                    XXX|...|...\n\
                    ...|...|...\n\
                    ...|...|...\n\
                    ---+---+---\n\
                    ...|...|...\n\
                    ...|...|...\n\
                    ...|...|...\n\
                    ---+---+---\n\
                    ...|.O.|XXX\n\
                    ...|.O.|...\n\
                    ...|.O.|...\n\
                    ---+---+---\n\
                    X..\n\
                    ...\n\
                    .OX\n\
                    ZONE: SW";
    assert_eq!(print_board(b), expected);
    let empty = print_board(Board::empty());
    assert!(empty.ends_with("...\n...\n...\nZONE: ANY"));
}
