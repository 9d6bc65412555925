use uttt::request::{go, serialise_board};
use uttt::tables::init;

fn words(list: &[&str]) -> Vec<String> {
    list.iter().map(|w| w.to_string()).collect()
}

#[test]
fn go_searches_the_empty_board() {
    let tables = init();
    assert_eq!(
        go("1", "9/9/9/9/9/9/9/9/9 any", false, &tables),
        words(&["info", "depth", "1", "pv", "nw/c", "eval", "+13"])
    );
}

#[test]
fn go_answers_with_a_line_as_long_as_the_depth() {
    let tables = init();
    let answer = go("3", "9/9/9/9/9/9/9/9/9 any", true, &tables);
    assert_eq!(answer.len(), 9);
    assert_eq!(answer[..4], words(&["info", "depth", "3", "pv"])[..]);
    assert_eq!(answer[7], "eval");
}

#[test]
fn go_rejects_a_depth_that_is_no_positive_number() {
    let tables = init();
    let invalid = words(&["error", "depth", "invalid"]);
    let board = "9/9/9/9/9/9/9/9/9 any";
    assert_eq!(go("0", board, false, &tables), invalid);
    assert_eq!(go("abc", board, false, &tables), invalid);
    assert_eq!(go("", board, false, &tables), invalid);
    assert_eq!(go("-1", board, false, &tables), invalid);
    assert_eq!(go("+", board, false, &tables), invalid);
    assert_eq!(go(" 1", board, false, &tables), invalid);
    assert_eq!(go("99999999999999999999999999", board, false, &tables), invalid);
}

#[test]
fn go_rejects_a_depth_above_the_limit() {
    let tables = init();
    let overflow = words(&["error", "depth", "overflow", "32"]);
    let board = "9/9/9/9/9/9/9/9/9 any";
    assert_eq!(go("33", board, false, &tables), overflow);
    assert_eq!(go("1000", board, false, &tables), overflow);
    // The depth is judged before the board.
    assert_eq!(go("33", "nonsense", false, &tables), overflow);
}

#[test]
fn go_rejects_an_unreadable_board() {
    let tables = init();
    let invalid = words(&["error", "board", "invalid"]);
    assert_eq!(go("1", "9/9/9/9/9/9/9/9 any", false, &tables), invalid);
    assert_eq!(go("1", "9/9/9/9/9/9/9/9/9/9 any", false, &tables), invalid);
    assert_eq!(go("1", "9/9/9/9/9/9/9/9/9 north", false, &tables), invalid);
    assert_eq!(go("32", "", false, &tables), invalid);
}

#[test]
fn go_reports_a_decided_game_without_moves() {
    let tables = init();
    // The first player has won the north row of zones.
    let board = "xxxxxxxxx/9/9/9/9/9/9/9/9 any";
    assert_eq!(
        go("2", board, false, &tables),
        words(&["info", "depth", "2", "pv", "eval", "L0"])
    );
    assert_eq!(
        go("2", board, true, &tables),
        words(&["info", "depth", "2", "pv", "eval", "W0"])
    );
}

#[test]
fn go_accepts_a_plus_sign_and_leading_zeros() {
    let tables = init();
    let plain = go("1", "9/9/9/9/9/9/9/9/9 any", false, &tables);
    assert_eq!(go("+1", "9/9/9/9/9/9/9/9/9 any", false, &tables), plain);
    assert_eq!(go("001", "9/9/9/9/9/9/9/9/9 any", false, &tables), plain);
}

#[test]
fn serialise_board_writes_three_numbers_as_a_board() {
    assert_eq!(serialise_board("0 0 162129586585337856"), "9/9/9/9/9/9/9/9/9 any");
    assert_eq!(serialise_board("16 0 72057594037927936"), "9/1x7/9/9/9/9/9/9/9 c");
    assert_eq!(serialise_board(" 1\t2  0 "), "xo7/9/9/9/9/9/9/9/9 nw");
    // Where both sides claim a cell, the first player is shown.
    assert_eq!(serialise_board("1 1 0"), "x8/9/9/9/9/9/9/9/9 nw");
}

#[test]
fn serialise_board_rejects_anything_else() {
    assert_eq!(serialise_board(""), "invalid");
    assert_eq!(serialise_board("0 0"), "invalid");
    assert_eq!(serialise_board("0 0 0 0"), "invalid");
    assert_eq!(serialise_board("0 x 0"), "invalid");
    assert_eq!(serialise_board("0 -1 0"), "invalid");
    assert_eq!(serialise_board("0 0 18446744073709551616"), "invalid");
    // An active zone above 9.
    assert_eq!(serialise_board("0 0 180143985094819840"), "invalid");
}
