use uttt::board::{play_move, Board, OUTCOME_DRAW, OUTCOME_LOSS, OUTCOME_WIN};
use uttt::encoding::{board_from_string, board_string};
use uttt::grid::{line_presence, lines};
use uttt::moves::generate_moves;
use uttt::search::alpha_beta;
use uttt::tables::{evaluate, init, toggle_eval};

const LINES: [[u64; 3]; 8] = [
    [0, 3, 6],
    [1, 4, 7],
    [2, 5, 8],
    [0, 1, 2],
    [3, 4, 5],
    [6, 7, 8],
    [0, 4, 8],
    [2, 4, 6],
];

fn held(board: &Board, side: bool, mv: u64) -> bool {
    (board.occupancy(side, mv / 9) >> (mv % 9)) & 1 == 1
}

/// Plays the first legal move, then the last, then the first again, and so
/// on, and hands each board reached to `visit`.
fn play_out(mut visit: impl FnMut(&Board, bool)) {
    let mut board = Board::empty();
    let mut side = false;
    let mut turn = 0;
    loop {
        visit(&board, side);
        let moves = generate_moves(board);
        if moves.is_empty() {
            break;
        }
        let mv = if turn % 2 == 0 { moves[0] } else { moves[moves.len() - 1] };
        board = play_move(board, mv, side);
        side = !side;
        turn += 1;
    }
    assert!(turn > 9);
}

#[test]
fn line_presence_agrees_with_the_eight_lines_on_every_grid() {
    for grid in 0..512u64 {
        let expected = LINES.iter().any(|line| line.iter().all(|&cell| (grid >> cell) & 1 == 1));
        assert_eq!(line_presence(grid), expected);
        // Bits above the ninth do not count.
        assert_eq!(line_presence(grid | (1 << 9) | (1 << 40)), expected);
    }
}

#[test]
fn lines_counts_the_cells_of_each_line_on_every_grid() {
    for grid in 0..512u64 {
        let packed = lines(grid);
        assert!(packed < 1 << 24);
        for (l, line) in LINES.iter().enumerate() {
            let count = line.iter().filter(|&&cell| (grid >> cell) & 1 == 1).count() as u64;
            assert_eq!((packed >> (3 * l)) & 7, count);
        }
    }
}

#[test]
fn no_cell_is_claimed_twice_in_a_game() {
    play_out(|board, _| {
        for mv in 0..81 {
            assert!(!(held(board, false, mv) && held(board, true, mv)));
        }
        assert!(board.active_zone() <= 9);
    });
}

#[test]
fn a_move_onto_a_cell_of_the_opponent_claims_it_twice() {
    let board = play_move(play_move(Board::empty(), 0, false), 0, true);
    assert!(held(&board, false, 0) && held(&board, true, 0));
}

#[test]
fn every_generated_move_is_legal() {
    play_out(|board, _| {
        let moves = generate_moves(*board);
        let zone = board.active_zone();
        let won = board.ownership(false) | board.ownership(true);
        for window in moves.windows(2) {
            assert!(window[0] < window[1]);
        }
        for &mv in &moves {
            assert!(mv < 81);
            assert!(!held(board, false, mv) && !held(board, true, mv));
            if zone == 9 {
                assert_eq!((won >> (mv / 9)) & 1, 0);
            } else {
                assert_eq!(mv / 9, zone);
            }
        }
        // Nothing legal is left out.
        let decided = line_presence(board.ownership(false)) || line_presence(board.ownership(true));
        for mv in 0..81 {
            let open = !decided
                && !held(board, false, mv)
                && !held(board, true, mv)
                && if zone == 9 { (won >> (mv / 9)) & 1 == 0 } else { mv / 9 == zone };
            assert_eq!(moves.contains(&mv), open);
        }
    });
}

#[test]
fn a_decided_game_has_no_moves() {
    let board = board_from_string("xxxxxxxxx/9/9/9/9/9/9/9/9 any").unwrap();
    assert_eq!(board.ownership(false), 0b111);
    assert!(generate_moves(board).is_empty());
}

#[test]
fn a_full_or_won_target_zone_frees_the_choice() {
    // The north-west zone is won by the first player: a move to a north-west
    // cell leaves the choice of zone open.
    let board = board_from_string("xxx6/9/9/9/9/9/9/9/9 c").unwrap();
    let next = play_move(board, 36, true);
    assert_eq!(next.active_zone(), 9);
    let moves = generate_moves(next);
    assert_eq!(moves.len(), 71);
    assert!(moves.iter().all(|&mv| mv / 9 != 0));
    // The north-west zone is full and nobody has won it.
    let board = board_from_string("xox6/xox6/oxo6/9/9/9/9/9/9 c").unwrap();
    assert_eq!(board.ownership(false) | board.ownership(true), 0);
    assert_eq!(play_move(board, 36, true).active_zone(), 9);
    assert_eq!(play_move(board, 37, true).active_zone(), 1);
}

#[test]
fn completing_a_line_wins_the_zone() {
    let board = board_from_string("xx7/9/9/9/9/9/9/9/9 nw").unwrap();
    assert_eq!(board.ownership(false), 0);
    let next = play_move(board, 2, false);
    assert_eq!(next.ownership(false), 1);
    assert_eq!(next.ownership(true), 0);
    assert_eq!(next.active_zone(), 2);
    let other = play_move(board, 3, false);
    assert_eq!(other.ownership(false), 0);
    // In the last two zones too.
    let board = board_from_string("9/9/9/9/9/9/6o2/7o1/9 se").unwrap();
    let next = play_move(board, 80, true);
    assert_eq!(next.ownership(true), 1 << 8);
    assert_eq!(next.ownership(false), 0);
}

#[test]
fn tables_hold_the_scores_of_the_formulas() {
    let tables = init();
    // The centre alone: four lines with one cell each, and the centre.
    assert_eq!(tables.zone_entry(0b000010000, 0), 4 + 9);
    assert_eq!(tables.meta_entry(0b000010000, 0), 4 * 20 + 25 * 9);
    assert_eq!(tables.zone_entry(0, 0b000010000), -13);
    assert_eq!(tables.meta_entry(0, 0b000010000), -305);
    // Two in the north row: one line with two cells, three with one; a
    // corner and an edge.
    assert_eq!(tables.zone_entry(0b000000011, 0), 8 + 3 + 7 + 5);
    assert_eq!(tables.meta_entry(0b000000011, 0), 90 + 3 * 20 + 25 * 12);
    // A line with cells of both sides counts for neither.
    assert_eq!(tables.zone_entry(0b000000001, 0b000000010), 1 + 1 - 1 + 7 - 5);
    assert_eq!(tables.meta_entry(0b000000001, 0b000000010), 20 + 20 - 20 + 25 * 2);
    assert_eq!(tables.zone_entry(0b000000011, 0b000000100), 1 + 1 + 1 - 1 - 1 + 7 + 5 - 7);
    // Won, lost and drawn grids.
    assert_eq!(tables.meta_entry(0b000000111, 0b000011000), OUTCOME_WIN);
    assert_eq!(tables.zone_entry(0b000000111, 0b000011000), 0);
    assert_eq!(tables.meta_entry(0b000011000, 0b111000000), OUTCOME_LOSS);
    assert_eq!(tables.zone_entry(0b000011000, 0b111000000), 0);
    assert_eq!(tables.meta_entry(355, 156), OUTCOME_DRAW);
    assert_eq!(tables.zone_entry(355, 156), 0);
    // Where both sides hold a line, the line that comes first decides:
    // the columns come before the rows.
    assert_eq!(tables.meta_entry(0b001001001, 0b010010010), OUTCOME_WIN);
    assert_eq!(tables.meta_entry(0b010010010, 0b001001001), OUTCOME_LOSS);
    assert_eq!(tables.meta_entry(0b111000000, 0b000000111), OUTCOME_LOSS);
    // A line that both sides claim in full is nobody's.
    assert_eq!(tables.meta_entry(0b000000111, 0b000000111), 0);
    assert_eq!(tables.meta_entry(0, 0), 0);
    assert_eq!(tables.zone_entry(0, 0), 0);
}

#[test]
fn evaluate_adds_the_open_zones_to_the_board_of_zones() {
    let tables = init();
    // The first player has won the north-west zone and holds the centre of
    // the centre zone; the second player holds a corner of the east zone.
    let board = board_from_string("xxx6/9/9/9/4x4/8o/9/9/9 any").unwrap();
    let meta = 3 * 20 + 25 * 7;
    let centre = 4 + 9;
    let corner = -(3 + 7);
    assert_eq!(evaluate(board, false, &tables), meta + centre + corner);
    assert_eq!(evaluate(board, true, &tables), -(meta + centre + corner));
}

#[test]
fn evaluate_changes_sign_with_the_side() {
    let tables = init();
    play_out(|board, _| {
        assert_eq!(evaluate(*board, true, &tables), -evaluate(*board, false, &tables));
    });
    let won = board_from_string("xxxxxxxxx/9/9/9/9/9/9/9/9 any").unwrap();
    assert_eq!(evaluate(won, false, &tables), OUTCOME_WIN);
    assert_eq!(evaluate(won, true, &tables), OUTCOME_LOSS);
}

#[test]
fn toggle_eval_negates_for_the_second_player() {
    assert_eq!(toggle_eval(false, 5), 5);
    assert_eq!(toggle_eval(true, 5), -5);
    assert_eq!(toggle_eval(true, OUTCOME_LOSS), OUTCOME_WIN);
}

#[test]
fn a_search_of_depth_zero_is_the_evaluation() {
    let tables = init();
    play_out(|board, side| {
        let eval = evaluate(*board, side, &tables);
        let (found, line) = alpha_beta(*board, side, 0, OUTCOME_LOSS, OUTCOME_WIN, &tables, 0);
        assert_eq!(found, eval);
        assert!(line.iter().all(|&mv| mv == 81));
        if eval != OUTCOME_WIN && eval != OUTCOME_LOSS {
            let (found, _) = alpha_beta(*board, side, 0, -5, 5, &tables, 7);
            assert_eq!(found, eval);
        }
    });
}

#[test]
fn a_lost_position_scores_a_loss_less_the_distance() {
    let tables = init();
    let lost = board_from_string("xxxxxxxxx/9/9/9/9/9/9/9/9 any").unwrap();
    for (depth, max_depth) in [(0usize, 0usize), (0, 3), (1, 3), (3, 3), (2, 32)] {
        let (found, line) =
            alpha_beta(lost, true, depth, OUTCOME_LOSS, OUTCOME_WIN, &tables, max_depth);
        assert_eq!(found, OUTCOME_LOSS + (max_depth - depth) as i32);
        assert!(line.iter().all(|&mv| mv == 81));
        let (found, _) =
            alpha_beta(lost, false, depth, OUTCOME_LOSS, OUTCOME_WIN, &tables, max_depth);
        assert_eq!(found, OUTCOME_WIN - (max_depth - depth) as i32);
    }
}

#[test]
fn a_position_without_moves_and_without_winner_is_a_draw() {
    let tables = init();
    // Every zone is full and nobody has a line anywhere.
    let row_a = "xoxxoxxox";
    let row_b = "oxooxooxo";
    let text = [row_a, row_a, row_b, row_a, row_a, row_b, row_a, row_a, row_b].join("/") + " any";
    let board = board_from_string(&text).unwrap();
    assert_eq!(board.ownership(false) | board.ownership(true), 0);
    assert!(generate_moves(board).is_empty());
    let (found, _) = alpha_beta(board, false, 2, OUTCOME_LOSS, OUTCOME_WIN, &tables, 2);
    assert_eq!(found, OUTCOME_DRAW);
}

#[test]
fn a_deeper_search_finds_the_win_in_one() {
    let tables = init();
    // The first player owns the north-west and north zones and needs one
    // cell for the north-east zone.
    let board = board_from_string("xxxxxxxx1/9/9/9/9/9/9/9/9 ne").unwrap();
    let (found, line) = alpha_beta(board, false, 2, OUTCOME_LOSS, OUTCOME_WIN, &tables, 2);
    assert_eq!(line[0], 20);
    assert_eq!(line[1], 81);
    assert_eq!(found, OUTCOME_WIN - 1);
    // A narrow window cuts the score off at its upper bound.
    let (found, line) = alpha_beta(board, false, 2, 0, 100, &tables, 2);
    assert_eq!(found, 100);
    assert_eq!(line[0], 20);
}

#[test]
fn reading_a_written_board_gives_it_back() {
    play_out(|board, _| {
        assert_eq!(board_from_string(&board_string(*board)), Some(*board));
    });
}
