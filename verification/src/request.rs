//! The front end: a search request given as text, answered as a list of
//! words.

use vstd::prelude::*;
use vstd::string::StringExecFns;
use crate::board::{Board, Move, MAX_PLY, NULL_MOVE, OUTCOME_LOSS, OUTCOME_WIN};
use crate::encoding::{board_from_string, board_of_text, board_string, board_text};
use crate::notation::{eval_string, eval_text, move_string, move_text};
use crate::search::{alpha_beta, search};
use crate::tables::LookupTables;
use crate::text::{
    append_numeral, chars_of, numeral, parse_number, parse_u64, split_words, views, words,
};

verus! {

/// The contents of a sequence of strings.
pub open spec fn texts(list: Seq<String>) -> Seq<Seq<char>> {
    Seq::new(list.len(), |i: int| list[i]@)
}

/// The number of moves of `line`, from the `i`-th on, that stand before its
/// first `NULL_MOVE`, added to `i`.
pub open spec fn line_end(line: Seq<Move>, i: int) -> int
    decreases line.len() - i,
{
    if i < 0 || i >= line.len() || line[i] == NULL_MOVE {
        i
    } else {
        line_end(line, i + 1)
    }
}

/// The texts of the moves of `line` before its first `NULL_MOVE`.
pub open spec fn line_texts(line: Seq<Move>) -> Seq<Seq<char>> {
    Seq::new(line_end(line, 0) as nat, |i: int| move_text(line[i]))
}

/// The answer to a request that cannot be served because of its depth.
pub open spec fn depth_invalid() -> Seq<Seq<char>> {
    seq!["error"@, "depth"@, "invalid"@]
}

/// The answer to a request for `side` to be answered by a search of the
/// board `board` to the depth `depth`, both given as text.
///
/// The depth must be a number from 1 to `MAX_PLY`, and the board must be
/// readable. The search is made for the opponent of `side`, over the whole
/// range of scores; the answer gives the depth, the moves of the principal
/// variation, and the score.
pub open spec fn response(depth: Seq<char>, board: Seq<char>, side: bool) -> Seq<Seq<char>> {
    match parse_number(depth, usize::MAX as nat) {
        None => depth_invalid(),
        Some(d) => if d == 0 {
            depth_invalid()
        } else if d > MAX_PLY {
            seq!["error"@, "depth"@, "overflow"@, numeral(MAX_PLY as nat)]
        } else {
            match board_of_text(board) {
                None => seq!["error"@, "board"@, "invalid"@],
                Some(b) => {
                    let found = search(b, !side, d, OUTCOME_LOSS as int, OUTCOME_WIN as int, d);
                    seq!["info"@, "depth"@, numeral(d), "pv"@] + line_texts(found.1) + seq![
                        "eval"@,
                        eval_text(found.0, d as int),
                    ]
                },
            }
        },
    }
}

fn word(s: &str) -> (r: String)
    ensures
        r@ == s@,
{
    String::from_str(s)
}

fn number_word(n: u64) -> (r: String)
    ensures
        r@ == numeral(n as nat),
{
    let mut r: String = String::new();
    append_numeral(&mut r, n);
    assert(r@ =~= numeral(n as nat));
    r
}

/// Answers a search request.
pub fn go(depth: &str, board: &str, side: bool, tables: &LookupTables) -> (r: Vec<String>)
    ensures
        texts(r@) == response(depth@, board@, side),
{
    let mut r: Vec<String> = Vec::new();
    let digits: Vec<char> = chars_of(depth);
    let parsed: Option<u64> = parse_u64(&digits);
    let d: usize = match parsed {
        Some(n) => {
            if n == 0 || n > usize::MAX as u64 {
                0
            } else {
                n as usize
            }
        },
        None => 0,
    };
    if d == 0 {
        r.push(word("error"));
        r.push(word("depth"));
        r.push(word("invalid"));
        assert(texts(r@) =~= depth_invalid());
        return r;
    }
    assert(parse_number(depth@, usize::MAX as nat) == Some(d as nat));
    if d > MAX_PLY {
        r.push(word("error"));
        r.push(word("depth"));
        r.push(word("overflow"));
        r.push(number_word(MAX_PLY as u64));
        assert(texts(r@) =~= seq!["error"@, "depth"@, "overflow"@, numeral(MAX_PLY as nat)]);
        return r;
    }
    let b: Board = match board_from_string(board) {
        Some(b) => b,
        None => {
            r.push(word("error"));
            r.push(word("board"));
            r.push(word("invalid"));
            assert(texts(r@) =~= seq!["error"@, "board"@, "invalid"@]);
            return r;
        },
    };
    let found = alpha_beta(b, !side, d, OUTCOME_LOSS, OUTCOME_WIN, tables, d);
    let line: [Move; MAX_PLY] = found.1;
    r.push(word("info"));
    r.push(word("depth"));
    r.push(number_word(d as u64));
    r.push(word("pv"));
    let ghost head = seq!["info"@, "depth"@, numeral(d as nat), "pv"@];
    assert(texts(r@) =~= head);
    let mut i: usize = 0;
    while i < MAX_PLY && line[i] != NULL_MOVE
        invariant
            i <= MAX_PLY,
            forall|k: int| 0 <= k < MAX_PLY ==> #[trigger] line@[k] <= NULL_MOVE,
            line_end(line@, i as int) == line_end(line@, 0),
            r@.len() == 4 + i,
            head.len() == 4,
            texts(r@) == head + Seq::new(i as nat, |k: int| move_text(line@[k])),
        decreases MAX_PLY - i,
    {
        let ghost before = texts(r@);
        assert(line@[i as int] <= NULL_MOVE);
        let ghost shown = Seq::new(i as nat, |k: int| move_text(line@[k]));
        let ghost text = move_text(line@[i as int]);
        r.push(move_string(line[i]));
        assert(texts(r@) =~= before.push(text));
        assert(Seq::new((i + 1) as nat, |k: int| move_text(line@[k])) =~= shown.push(text));
        assert(head + shown.push(text) =~= (head + shown).push(text));
        i += 1;
    }
    assert(line_end(line@, 0) == i);
    let ghost body = texts(r@);
    r.push(word("eval"));
    r.push(eval_string(found.0, d));
    assert(texts(r@) =~= body + seq!["eval"@, eval_text(found.0 as int, d as int)]);
    r
}

/// The text form of the board made of the three numbers that `t` writes,
/// separated by white space; `invalid` unless `t` is three numbers that fit
/// in 64 bits each and the third holds a zone or 9 as its active zone.
pub open spec fn reformatted(t: Seq<char>) -> Seq<char> {
    let parts = words(t);
    if parts.len() == 3 && parse_number(parts[0], u64::MAX as nat) is Some && parse_number(
        parts[1],
        u64::MAX as nat,
    ) is Some && parse_number(parts[2], u64::MAX as nat) is Some {
        let b = Board {
            us: parse_number(parts[0], u64::MAX as nat)->0 as u64,
            them: parse_number(parts[1], u64::MAX as nat)->0 as u64,
            share: parse_number(parts[2], u64::MAX as nat)->0 as u64,
        };
        if b.wf() {
            board_text(b)
        } else {
            "invalid"@
        }
    } else {
        "invalid"@
    }
}

/// Writes the board given by its three words in its compact text form.
pub fn serialise_board(board_value: &str) -> (s: String)
    ensures
        s@ == reformatted(board_value@),
{
    let chars: Vec<char> = chars_of(board_value);
    let segments: Vec<Vec<char>> = split_words(&chars);
    if segments.len() != 3 {
        return word("invalid");
    }
    assert(segments@[0]@ == views(segments@)[0]);
    assert(segments@[1]@ == views(segments@)[1]);
    assert(segments@[2]@ == views(segments@)[2]);
    match (parse_u64(&segments[0]), parse_u64(&segments[1]), parse_u64(&segments[2])) {
        (Some(us), Some(them), Some(share)) => {
            let board = Board { us, them, share };
            if board.active_zone() <= 9 {
                board_string(board)
            } else {
                word("invalid")
            }
        },
        _ => word("invalid"),
    }
}

} // verus!
