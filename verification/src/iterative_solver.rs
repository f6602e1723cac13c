//! The closed-form iterative solver: given the number of the move about to be
//! played (counting from 1) and the current board, it computes the one legal
//! move of optimal play, without recursion and without a stored move list.

use vstd::prelude::*;

use crate::Board;

verus! {

/// The auxiliary and destination peg indices for a board of `num_disks`
/// disks: `(1, 2)` when the count is odd, `(2, 1)` when it is even.
pub open spec fn spec_aux_dest(num_disks: int) -> (int, int) {
    if num_disks % 2 == 1 {
        (1, 2)
    } else {
        (2, 1)
    }
}

/// The unordered peg pair that move `n` plays between, by the classic
/// iterative rule: `n % 3 == 1` pairs the source with the destination,
/// `n % 3 == 2` the source with the auxiliary, `n % 3 == 0` the auxiliary
/// with the destination.
pub open spec fn spec_move_pair(n: u64, num_disks: int) -> (int, int) {
    let aux = spec_aux_dest(num_disks).0;
    let dest = spec_aux_dest(num_disks).1;
    if n % 3 == 1 {
        (0, dest)
    } else if n % 3 == 2 {
        (0, aux)
    } else {
        (aux, dest)
    }
}

/// The directed move between pegs `a` and `b`: from the peg whose top disk is
/// smaller onto the other, from a non-empty peg onto an empty one, and none
/// when both pegs are empty.
pub open spec fn spec_move_between(a: int, b: int, board: &Board) -> Option<(usize, usize)>
    recommends
        0 <= a < 3,
        0 <= b < 3,
{
    let sa = board.peg_seq(a);
    let sb = board.peg_seq(b);
    if sa.len() == 0 && sb.len() == 0 {
        None
    } else if sa.len() == 0 {
        Some((b as usize, a as usize))
    } else if sb.len() == 0 {
        Some((a as usize, b as usize))
    } else if sa.last().spec_size() > sb.last().spec_size() {
        Some((b as usize, a as usize))
    } else {
        Some((a as usize, b as usize))
    }
}

/// The move played at move number `n`, ignoring whether the board is solved.
pub open spec fn spec_calculate_next(n: u64, board: &Board) -> Option<(usize, usize)> {
    let pair = spec_move_pair(n, board.spec_num_disks());
    spec_move_between(pair.0, pair.1, board)
}

/// What the solver returns for move number `n` on `board`: none when the
/// board is solved, otherwise the directed move within the pair that the
/// move number selects.
pub open spec fn spec_next_move(n: u64, board: &Board) -> Option<(usize, usize)> {
    if board.spec_finished() {
        None
    } else {
        spec_calculate_next(n, board)
    }
}

/// Law: the solver is deterministic. Its result is a function of the move
/// number and the board snapshot alone, so any two results obtained from
/// `next_move` for identical inputs are identical.
pub proof fn lemma_solver_deterministic(
    n: u64,
    board: &Board,
    r1: Option<(usize, usize)>,
    r2: Option<(usize, usize)>,
)
    requires
        r1 == spec_next_move(n, board),
        r2 == spec_next_move(n, board),
    ensures
        r1 == r2,
{
}

/// Law: on a fresh board — all of its disks still on the source peg, at least
/// one of them — the first move takes the top of the source peg to the
/// destination peg when the disk count is odd, and to the middle peg when it
/// is even.
pub proof fn lemma_first_move_from_fresh_board(board: &Board)
    requires
        board.wf(),
        board.peg_seq(0).len() >= 1,
        board.peg_seq(1).len() == 0,
        board.peg_seq(2).len() == 0,
    ensures
        board.spec_num_disks() % 2 == 1 ==> spec_next_move(1, board) == Some((0usize, 2usize)),
        board.spec_num_disks() % 2 == 0 ==> spec_next_move(1, board) == Some((0usize, 1usize)),
{
}

/// Law: every move the solver proposes is legal, as long as the two pegs it
/// plays between do not carry equal-sized top disks (which a board loaded by
/// `Board::with_initial_disks` never has): the source peg is non-empty and
/// its top disk fits on the target peg.
pub proof fn lemma_solver_proposes_legal_moves(n: u64, board: &Board, from: usize, to: usize)
    requires
        board.wf(),
        spec_next_move(n, board) == Some((from, to)),
        board.peg_seq(to as int).len() > 0 ==> board.peg_seq(from as int).last().spec_size()
            != board.peg_seq(to as int).last().spec_size(),
    ensures
        board.peg_seq(from as int).len() > 0,
        crate::can_put(board.peg_seq(to as int), board.peg_seq(from as int).last()),
{
}

/// The next optimal move, or `None` when the board is solved or no legal move
/// exists within the pair that move number `n` selects. The result is a
/// function of `n` and the board alone; a returned move always names a
/// non-empty source peg distinct from its target.
pub fn next_move(n: u64, board: &Board) -> (r: Option<(usize, usize)>)
    requires
        board.wf(),
    ensures
        r == spec_next_move(n, board),
        r matches Some((from, to)) ==> from < 3 && to < 3 && from != to
            && board.peg_seq(from as int).len() > 0,
{
    if board.is_finished() {
        None
    } else {
        calculate_next(n, board)
    }
}

/// Picks the peg pair for move `n` by disk-count parity and move number, then
/// resolves the direction from the pegs' top disks.
fn calculate_next(n: u64, board: &Board) -> (r: Option<(usize, usize)>)
    requires
        board.wf(),
    ensures
        r == spec_calculate_next(n, board),
        r matches Some((from, to)) ==> from < 3 && to < 3 && from != to
            && board.peg_seq(from as int).len() > 0,
{
    let num_disks = board.num_disks();
    let (aux_pole, dest_pole): (usize, usize) = if num_disks % 2 == 1 {
        (1, 2)
    } else {
        (2, 1)
    };

    let r = n % 3;
    match r {
        1 => legal_movement_between(0, dest_pole, board),
        2 => legal_movement_between(0, aux_pole, board),
        _ => legal_movement_between(aux_pole, dest_pole, board),
    }
}

/// Resolves the direction of the move between pegs `a` and `b` from their top
/// disks; `None` when both are empty or an index is out of range.
fn legal_movement_between(a: usize, b: usize, board: &Board) -> (r: Option<(usize, usize)>)
    requires
        board.wf(),
    ensures
        a > 2 || b > 2 ==> r is None,
        a <= 2 && b <= 2 ==> r == spec_move_between(a as int, b as int, board),
        (a <= 2 && b <= 2 && a != b) ==> (r matches Some((from, to)) ==> from != to
            && board.peg_seq(from as int).len() > 0),
{
    if a > 2 || b > 2 {
        return None;
    }

    let disk_a = board.pegs()[a].peek();
    let disk_b = board.pegs()[b].peek();

    match (disk_a, disk_b) {
        (Some(disk_a), Some(disk_b)) => {
            if disk_a.size() > disk_b.size() {
                Some((b, a))
            } else {
                Some((a, b))
            }
        },
        (Some(_), None) => Some((a, b)),
        (None, Some(_)) => Some((b, a)),
        (None, None) => None,
    }
}

} // verus!
