use uttt::board::{play_move, Board, MAX_PLY, NULL_MOVE, OUTCOME_LOSS, OUTCOME_WIN, ZONE_ANY};
use uttt::grid::{line_presence, lines};
use uttt::moves::generate_moves;
use uttt::search::alpha_beta;
use uttt::tables::{evaluate, init};

#[test]
fn line_presence_finds_each_full_line() {
    let full = [
        0b000000111u64,
        0b000111000,
        0b111000000,
        0b001001001,
        0b010010010,
        0b100100100,
        0b100010001,
        0b001010100,
    ];
    for mask in full {
        assert!(line_presence(mask));
    }
    assert!(!line_presence(0b000000110));
    assert!(!line_presence(0));
    assert!(!line_presence(0b011101110));
}

#[test]
fn lines_counts_each_line() {
    // The north row: the row itself holds three cells, each column one,
    // each diagonal one.
    let packed = lines(0b000000111);
    assert_eq!(packed, 0o11_003_111);
    assert_eq!(lines(0), 0);
    assert_eq!(lines(0b111111111), 0o33_333_333);
}

#[test]
fn search_of_the_empty_board_at_depth_one_takes_the_centre() {
    let tables = init();
    let (eval, line) = alpha_beta(Board::empty(), true, 1, OUTCOME_LOSS, OUTCOME_WIN, &tables, 1);
    assert_eq!(eval, 13);
    assert_eq!(line[0], 4);
    assert_eq!(line[1], NULL_MOVE);
    assert_eq!(line.len(), MAX_PLY);
}

#[test]
fn empty_board_has_every_move() {
    let moves = generate_moves(Board::empty());
    assert_eq!(moves.len(), 81);
    assert_eq!(moves[0], 0);
    assert_eq!(moves[80], 80);
}

#[test]
fn first_move_sends_the_opponent_to_the_matching_zone() {
    let b = play_move(Board::empty(), 4, false);
    assert_eq!(b.us, 1 << 4);
    assert_eq!(b.them, 0);
    assert_eq!(b.share, 4 << 54);
    assert_eq!(b.active_zone(), 4);
    let tables = init();
    assert_eq!(evaluate(b, false, &tables), 13);
    assert_eq!(evaluate(b, true, &tables), -13);
    assert_eq!(Board::empty().active_zone(), ZONE_ANY);
}
