//! The run of optimal play, proved correct: from a fresh board of n disks,
//! the move the solver picks for each counter value is always legal, and
//! after exactly `pow2(n) - 1` of them every disk sits on the destination peg.
//!
//! The proof works on a model of the board — three stacks of disk sizes —
//! that mirrors the solver's rule exactly; a bridge lemma ties the model's
//! rule to `iterative_solver::spec_next_move` on real boards.

use vstd::arithmetic::power2::{lemma_pow2_pos, lemma_pow2_unfold, pow2};
use vstd::prelude::*;

use crate::Board;
use crate::Disk;
use crate::iterative_solver::spec_next_move;

verus! {

/// A board model: three stacks of disk sizes, bottom first.
pub open spec fn model_wf(c: Seq<Seq<nat>>) -> bool {
    c.len() == 3
}

/// The total number of disks on the model board.
pub open spec fn model_total(c: Seq<Seq<nat>>) -> nat {
    c[0].len() + c[1].len() + c[2].len()
}

/// The model board is solved: the source and middle pegs are empty.
pub open spec fn model_finished(c: Seq<Seq<nat>>) -> bool {
    c[0].len() == 0 && c[1].len() == 0
}

/// The peg pair move `k` plays between (the model of `spec_move_pair`).
pub open spec fn model_pair(k: nat, total: nat) -> (int, int) {
    let aux: int = if total % 2 == 1 { 1 } else { 2 };
    let dest: int = if total % 2 == 1 { 2 } else { 1 };
    if k % 3 == 1 {
        (0, dest)
    } else if k % 3 == 2 {
        (0, aux)
    } else {
        (aux, dest)
    }
}

/// The directed move between pegs `a` and `b` (the model of
/// `spec_move_between`).
pub open spec fn model_between(a: int, b: int, c: Seq<Seq<nat>>) -> Option<(int, int)> {
    let sa = c[a];
    let sb = c[b];
    if sa.len() == 0 && sb.len() == 0 {
        None
    } else if sa.len() == 0 {
        Some((b, a))
    } else if sb.len() == 0 {
        Some((a, b))
    } else if sa.last() > sb.last() {
        Some((b, a))
    } else {
        Some((a, b))
    }
}

/// The solver's move for counter `k` on the model board (the model of
/// `spec_next_move`).
pub open spec fn model_next_move(k: nat, c: Seq<Seq<nat>>) -> Option<(int, int)> {
    if model_finished(c) {
        None
    } else {
        let pair = model_pair(k, model_total(c));
        model_between(pair.0, pair.1, c)
    }
}

/// The model board after moving the top disk of peg `f` onto peg `t`.
pub open spec fn model_apply(c: Seq<Seq<nat>>, f: int, t: int) -> Seq<Seq<nat>> {
    let disk = c[f].last();
    c.update(f, c[f].drop_last()).update(t, c.update(f, c[f].drop_last())[t].push(disk))
}

/// One turn of the model: play the solver's move for counter `k`, or leave
/// the board alone when the solver offers none.
pub open spec fn model_step(k: nat, c: Seq<Seq<nat>>) -> Seq<Seq<nat>> {
    match model_next_move(k, c) {
        Some((f, t)) => model_apply(c, f, t),
        None => c,
    }
}

/// The model board after `j` turns, the first played at counter `k0`.
pub open spec fn model_run(c: Seq<Seq<nat>>, k0: nat, j: nat) -> Seq<Seq<nat>>
    decreases j,
{
    if j == 0 {
        c
    } else {
        model_run(model_step(k0, c), k0 + 1, (j - 1) as nat)
    }
}

/// The move `(f, t)` is legal on `c`: in-range distinct pegs, a non-empty
/// source, and a target that is empty or carries a larger top disk.
pub open spec fn model_move_legal(c: Seq<Seq<nat>>, f: int, t: int) -> bool {
    &&& 0 <= f < 3
    &&& 0 <= t < 3
    &&& f != t
    &&& c[f].len() > 0
    &&& (c[t].len() == 0 || c[t].last() > c[f].last())
}

/// At counter `k` the solver proposes a move on `c`, and that move is legal.
pub open spec fn step_is_legal_move(k: nat, c: Seq<Seq<nat>>) -> bool {
    match model_next_move(k, c) {
        Some((f, t)) => model_move_legal(c, f, t),
        None => false,
    }
}

/// Every one of the `j` turns starting at counter `k0` plays a legal move.
pub open spec fn valid_run(c: Seq<Seq<nat>>, k0: nat, j: nat) -> bool
    decreases j,
{
    j == 0 || (step_is_legal_move(k0, c) && valid_run(model_step(k0, c), k0 + 1, (j - 1) as nat))
}

/// The stack of sizes `m` down to 1: a full tower of `m` disks.
pub open spec fn tower(m: nat) -> Seq<nat> {
    Seq::new(m, |i: int| (m - i) as nat)
}

/// Every size in `disks` exceeds `bound`.
pub open spec fn all_above(disks: Seq<nat>, bound: nat) -> bool {
    forall|i: int| 0 <= i < disks.len() ==> disks[i] > bound
}

/// A legal step keeps the model well formed and conserves the disk count.
pub proof fn lemma_step_preserves_total(k: nat, c: Seq<Seq<nat>>)
    requires
        model_wf(c),
    ensures
        model_wf(model_step(k, c)),
        model_total(model_step(k, c)) == model_total(c),
{
}

/// Running preserves well-formedness and the disk count.
pub proof fn lemma_run_preserves_total(c: Seq<Seq<nat>>, k0: nat, j: nat)
    requires
        model_wf(c),
    ensures
        model_wf(model_run(c, k0, j)),
        model_total(model_run(c, k0, j)) == model_total(c),
    decreases j,
{
    if j > 0 {
        lemma_step_preserves_total(k0, c);
        lemma_run_preserves_total(model_step(k0, c), k0 + 1, (j - 1) as nat);
    }
}

/// A run of `a + b` turns is the run of the first `a` followed by the run of
/// the remaining `b`.
pub proof fn lemma_run_split(c: Seq<Seq<nat>>, k0: nat, a: nat, b: nat)
    ensures
        model_run(c, k0, a + b) == model_run(model_run(c, k0, a), k0 + a, b),
    decreases a,
{
    if a > 0 {
        lemma_run_split(model_step(k0, c), k0 + 1, (a - 1) as nat, b);
        assert(model_run(model_step(k0, c), k0 + 1, (a + b - 1) as nat) == model_run(
            model_run(model_step(k0, c), k0 + 1, (a - 1) as nat),
            k0 + a,
            b,
        ));
    }
}

/// Validity composes: when the first `a` turns are legal and the `b` turns
/// after them are legal, all `a + b` turns are.
pub proof fn lemma_valid_run_split(c: Seq<Seq<nat>>, k0: nat, a: nat, b: nat)
    requires
        valid_run(c, k0, a),
        valid_run(model_run(c, k0, a), k0 + a, b),
    ensures
        valid_run(c, k0, a + b),
    decreases a,
{
    if a == 0 {
    } else {
        lemma_valid_run_split(model_step(k0, c), k0 + 1, (a - 1) as nat, b);
    }
}

/// Within a valid run, the board before each turn is unsolved and the solver
/// proposes a legal move on it.
pub proof fn lemma_valid_run_each_step(c: Seq<Seq<nat>>, k0: nat, j: nat, i: nat)
    requires
        valid_run(c, k0, j),
        i < j,
    ensures
        !model_finished(model_run(c, k0, i)),
        step_is_legal_move(k0 + i, model_run(c, k0, i)),
    decreases i,
{
    if i > 0 {
        lemma_valid_run_each_step(model_step(k0, c), k0 + 1, (j - 1) as nat, (i - 1) as nat);
    }
}

/// `pow2` alternates between 1 and 2 modulo 3: 1 for even exponents, 2 for
/// odd ones.
pub proof fn lemma_pow2_mod3(e: nat)
    ensures
        e % 2 == 0 ==> pow2(e) % 3 == 1,
        e % 2 == 1 ==> pow2(e) % 3 == 2,
    decreases e,
{
    if e == 0 {
        assert(pow2(0) == 1) by {
            vstd::arithmetic::power2::lemma2_to64();
        };
    } else {
        lemma_pow2_mod3((e - 1) as nat);
        lemma_pow2_unfold(e);
    }
}

/// The rotation of the pegs that one counter step applies to the selected
/// pair: 0 to aux, aux to dest, dest back to 0.
pub open spec fn sigma(total: nat, p: int) -> int {
    let aux: int = if total % 2 == 1 {
        1
    } else {
        2
    };
    if p == 0 {
        aux
    } else if p == aux {
        if total % 2 == 1 {
            2
        } else {
            1
        }
    } else {
        0
    }
}

/// The ordered pair `pair` is the unordered pair `{x, y}`.
pub open spec fn pair_matches(pair: (int, int), x: int, y: int) -> bool {
    (pair.0 == x && pair.1 == y) || (pair.0 == y && pair.1 == x)
}

/// Counter `k0` is aligned with the phase that moves a tower of `m` disks
/// from peg `s` to peg `d` past peg `v`: the pair selected at `k0` is where
/// the phase's first move (of the smallest disk) goes, and the rotation sends
/// `s` to the peg the smallest disk visits next.
pub open spec fn aligned(k0: nat, m: nat, s: int, v: int, d: int, total: nat) -> bool {
    if m % 2 == 1 {
        pair_matches(model_pair(k0, total), s, d) && sigma(total, s) == v
    } else {
        pair_matches(model_pair(k0, total), s, v) && sigma(total, s) == d
    }
}

/// The premises of one phase of the run: the `m` smallest disks form a tower
/// on top of peg `s` (above `rest`), every other disk on the board is larger
/// than all of them, the counter is aligned, and when the tower starts on the
/// destination peg the rest of the board is not already solved.
pub open spec fn phase_pre(
    c: Seq<Seq<nat>>,
    k0: nat,
    m: nat,
    s: int,
    v: int,
    d: int,
    rest: Seq<nat>,
) -> bool {
    &&& model_wf(c)
    &&& 1 <= m
    &&& 0 <= s < 3 && 0 <= v < 3 && 0 <= d < 3
    &&& s != v && s != d && v != d
    &&& c[s] == rest + tower(m)
    &&& all_above(rest, m)
    &&& all_above(c[v], m)
    &&& all_above(c[d], m)
    &&& aligned(k0, m, s, v, d, model_total(c))
    &&& (s == 2 ==> c[0].len() + c[1].len() > 0)
}

/// Adding to a counter acts on its residue: `(k + a) % 3` is `(k % 3 + a % 3) % 3`.
proof fn lemma_counter_mod3(k: nat, a: nat)
    ensures
        (k + a) % 3 == ((k % 3) + (a % 3)) % 3,
{
    vstd::arithmetic::div_mod::lemma_add_mod_noop(k as int, a as int, 3);
}

/// The phase lemma, by induction on the tower height `m`: from an aligned
/// counter, the solver's next `pow2(m) - 1` moves are all legal, and they
/// carry the tower of the `m` smallest disks from peg `s` onto peg `d`,
/// leaving everything else where it was.
#[verifier::rlimit(100)]
pub proof fn lemma_phase(
    c: Seq<Seq<nat>>,
    k0: nat,
    m: nat,
    s: int,
    v: int,
    d: int,
    rest: Seq<nat>,
)
    requires
        phase_pre(c, k0, m, s, v, d, rest),
    ensures
        valid_run(c, k0, (pow2(m) - 1) as nat),
        model_run(c, k0, (pow2(m) - 1) as nat) == c.update(s, rest).update(d, c[d] + tower(m)),
    decreases m,
{
    lemma_pow2_pos(m);
    let total = model_total(c);
    if m == 1 {
        vstd::arithmetic::power2::lemma2_to64();
        assert(tower(1) =~= seq![1nat]);
        assert(c[s].last() == 1);
        assert(c[s].len() == rest.len() + 1);
        assert(!model_finished(c));
        let pair = model_pair(k0, total);
        if c[d].len() > 0 {
            assert(c[d].last() > 1);
        }
        assert(model_next_move(k0, c) == Some((s, d)));
        assert(model_move_legal(c, s, d));
        let c1 = model_step(k0, c);
        assert(c[s].drop_last() =~= rest);
        assert(c[d].push(1nat) =~= c[d] + tower(1));
        assert(c1 =~~= c.update(s, rest).update(d, c[d] + tower(1)));
        assert(model_run(model_step(k0, c), k0 + 1, 0) == model_step(k0, c));
        assert(model_run(c, k0, 1) == c1);
        assert(valid_run(model_step(k0, c), k0 + 1, 0));
        assert(valid_run(c, k0, 1));
    } else {
        let m1 = (m - 1) as nat;
        let j1 = (pow2(m1) - 1) as nat;
        lemma_pow2_pos(m1);
        lemma_pow2_unfold(m);
        lemma_pow2_mod3(m1);

        // First half: carry the tower of the m - 1 smallest disks from s to v,
        // past d, on the same counter.
        let rest_a = rest.push(m);
        assert(c[s] =~= rest_a + tower(m1));
        assert(all_above(rest_a, m1));
        assert(aligned(k0, m1, s, d, v, total));
        assert(phase_pre(c, k0, m1, s, d, v, rest_a));
        lemma_phase(c, k0, m1, s, d, v, rest_a);
        let ca = model_run(c, k0, j1);
        lemma_run_preserves_total(c, k0, j1);
        assert(ca == c.update(s, rest_a).update(v, c[v] + tower(m1)));
        assert(ca[s] == rest_a && ca[d] == c[d] && ca[v] == c[v] + tower(m1));

        // The middle move: disk m goes from s to d at counter k0 + pow2(m-1) - 1.
        let k1 = k0 + j1;
        assert(!model_finished(ca));
        lemma_counter_mod3(k0, j1);
        let pair1 = model_pair(k1, total);
        assert(pair_matches(pair1, s, d));
        assert(ca[s].last() == m);
        if ca[d].len() > 0 {
            assert(ca[d].last() > m);
        }
        assert(model_next_move(k1, ca) == Some((s, d)));
        assert(model_move_legal(ca, s, d));
        let cb = model_step(k1, ca);
        assert(ca[s].drop_last() =~= rest);
        assert(cb =~~= c.update(s, rest).update(v, c[v] + tower(m1)).update(d, c[d].push(m)));
        assert(cb[s] == rest && cb[v] == c[v] + tower(m1) && cb[d] == c[d].push(m));
        assert(model_total(cb) == total);

        // Second half: carry the tower of the m - 1 smallest disks from v to d,
        // past s, starting at counter k0 + pow2(m-1).
        let k2 = k0 + pow2(m1);
        lemma_counter_mod3(k0, pow2(m1));
        assert(all_above(cb[s], m1));
        assert(all_above(cb[d], m1));
        assert(aligned(k2, m1, v, s, d, total));
        assert(phase_pre(cb, k2, m1, v, s, d, c[v]));
        lemma_phase(cb, k2, m1, v, s, d, c[v]);
        let cf = model_run(cb, k2, j1);
        assert(cf == cb.update(v, c[v]).update(d, cb[d] + tower(m1)));
        assert(c[d].push(m) + tower(m1) =~= c[d] + tower(m));
        assert(cf =~~= c.update(s, rest).update(d, c[d] + tower(m)));

        // Stitch the three parts together.
        assert(model_run(model_step(k1, ca), k1 + 1, 0) == model_step(k1, ca));
        assert(model_run(ca, k1, 1) == cb);
        assert(valid_run(model_step(k1, ca), k1 + 1, 0));
        assert(valid_run(ca, k1, 1));
        lemma_run_split(c, k0, j1, 1);
        lemma_valid_run_split(c, k0, j1, 1);
        assert(model_run(c, k0, (j1 + 1) as nat) == cb);
        assert(k0 + (j1 + 1) == k2);
        lemma_run_split(c, k0, (j1 + 1) as nat, j1);
        lemma_valid_run_split(c, k0, (j1 + 1) as nat, j1);
        assert(j1 + 1 + j1 == pow2(m) - 1);
        assert(model_run(c, k0, (pow2(m) - 1) as nat) == cf);
        assert(valid_run(c, k0, (pow2(m) - 1) as nat));
    }
}

/// The fresh model board: a full tower of `n` disks on the source peg,
/// nothing anywhere else.
pub open spec fn initial_model(n: nat) -> Seq<Seq<nat>> {
    seq![tower(n), Seq::<nat>::empty(), Seq::<nat>::empty()]
}

/// Law: optimal play solves a fresh board of `n >= 1` disks in exactly
/// `pow2(n) - 1` moves. Before each of those moves the board is unsolved and
/// the solver proposes a legal move (so none of them can be refused); after
/// the last one the whole tower stands on the destination peg and the solver
/// reports no further move.
pub proof fn theorem_optimal_play_wins(n: nat)
    requires
        1 <= n,
    ensures
        valid_run(initial_model(n), 1, (pow2(n) - 1) as nat),
        model_finished(model_run(initial_model(n), 1, (pow2(n) - 1) as nat)),
        model_run(initial_model(n), 1, (pow2(n) - 1) as nat)[2] == tower(n),
        model_next_move(pow2(n), model_run(initial_model(n), 1, (pow2(n) - 1) as nat)) is None,
{
    let c = initial_model(n);
    lemma_pow2_pos(n);
    assert(model_total(c) == n);
    assert(c[0] =~= Seq::<nat>::empty() + tower(n));
    assert(aligned(1, n, 0, 1, 2, n));
    assert(phase_pre(c, 1, n, 0, 1, 2, Seq::<nat>::empty()));
    lemma_phase(c, 1, n, 0, 1, 2, Seq::<nat>::empty());
    let cf = model_run(c, 1, (pow2(n) - 1) as nat);
    assert(c[2] + tower(n) =~= tower(n));
    assert(cf[2] == tower(n));
    assert(model_finished(cf));
}

/// The model of a real board: each of its pegs as the stack of disk sizes.
pub open spec fn model_of(board: &Board) -> Seq<Seq<nat>> {
    Seq::new(3, |p: int| board.peg_seq(p).map_values(|disk: Disk| disk.spec_size() as nat))
}

/// An executable solver result, cast to a model move.
pub open spec fn as_model_move(r: Option<(usize, usize)>) -> Option<(int, int)> {
    match r {
        Some((f, t)) => Some((f as int, t as int)),
        None => None,
    }
}

/// Bridge: the solver's rule on a real board is the model's rule on the
/// board's model, so `theorem_optimal_play_wins` speaks about what
/// `iterative_solver::next_move` returns turn after turn.
pub proof fn lemma_model_matches_solver(n: u64, board: &Board)
    requires
        board.wf(),
    ensures
        model_next_move(n as nat, model_of(board)) == as_model_move(spec_next_move(n, board)),
{
    let c = model_of(board);
    assert forall|p: int| 0 <= p < 3 implies c[p].len() == board.peg_seq(p).len() by {}
    assert forall|p: int| 0 <= p < 3 && board.peg_seq(p).len() > 0 implies c[p].last()
        == board.peg_seq(p).last().spec_size() by {
        assert(c[p][board.peg_seq(p).len() - 1]
            == board.peg_seq(p)[board.peg_seq(p).len() - 1].spec_size());
    }
    assert(model_total(c) == board.spec_num_disks());
}

/// Bridge: a move that is legal on a board's model can be played on the board
/// itself — the source peg is non-empty and its top disk fits on the target —
/// so by the reference player's contract such a turn returns a move, never a
/// failure.
pub proof fn lemma_legal_model_move_is_placeable(board: &Board, from: usize, to: usize)
    requires
        board.spec_pegs().len() == 3,
        from < 3,
        to < 3,
        model_move_legal(model_of(board), from as int, to as int),
    ensures
        board.peg_seq(from as int).len() > 0,
        crate::can_put(board.peg_seq(to as int), board.peg_seq(from as int).last()),
{
    let c = model_of(board);
    let src = board.peg_seq(from as int);
    let dst = board.peg_seq(to as int);
    assert(c[from as int][src.len() - 1] == src[src.len() - 1].spec_size());
    if dst.len() > 0 {
        assert(c[to as int][dst.len() - 1] == dst[dst.len() - 1].spec_size());
    }
}

/// Bridge: a single-disk move performed on a real board — the top of `from`
/// moved onto `to`, everything else untouched, as `StupidPlayer::next_turn`
/// reports it — is `model_apply` on the board's model.
pub proof fn lemma_move_matches_model(before: &Board, after: &Board, from: usize, to: usize)
    requires
        before.spec_pegs().len() == 3,
        after.spec_pegs().len() == 3,
        from < 3,
        to < 3,
        from != to,
        before.peg_seq(from as int).len() > 0,
        after.peg_seq(from as int) == before.peg_seq(from as int).drop_last(),
        after.peg_seq(to as int) == before.peg_seq(to as int).push(
            before.peg_seq(from as int).last(),
        ),
        forall|i: int| 0 <= i < 3 && i != from && i != to ==> after.peg_seq(i)
            == before.peg_seq(i),
    ensures
        model_of(after) == model_apply(model_of(before), from as int, to as int),
{
    assert(model_of(after) =~~= model_apply(model_of(before), from as int, to as int));
}

} // verus!
