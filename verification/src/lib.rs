//! Towers of Hanoi: a three-peg board with a strict size-ordering invariant,
//! an iterative optimal-move solver, and a turn-driven session that maps a
//! player's actions into game events.

use vstd::prelude::*;

pub mod iterative_solver;
pub mod optimal_play;

verus! {

/// Why an operation on a `Peg` or a `Board` was rejected.
#[derive(Clone, Copy, Debug, PartialEq, Eq, Structural)]
pub enum TowersError {
    /// A disk was placed on a smaller (or equal) one; carries the rejected disk's size.
    OversizedDisk { disk_size: usize },
    /// A peg index outside `{0, 1, 2}` was used on a board.
    IndexOutOfBounds { peg_index: usize },
    /// A disk was expected on a peg that turned out to be empty.
    MissingDisk,
}

/// An immutable sized token; ordered by size alone.
#[derive(Clone, Copy, Debug, PartialEq, Eq, Structural, PartialOrd, Ord, Hash)]
pub struct Disk {
    size: usize,
}

impl Disk {
    /// The disk's size, for use in specifications.
    pub closed spec fn spec_size(&self) -> usize {
        self.size
    }

    /// Makes a disk of the given (positive) size.
    pub fn new(size: usize) -> (disk: Disk)
        requires
            1 <= size,
        ensures
            disk.spec_size() == size,
    {
        Disk { size }
    }

    /// The disk's size.
    pub fn size(&self) -> (size: usize)
        ensures
            size == self.spec_size(),
    {
        self.size
    }
}

/// A stack strictly decreasing in size from bottom to top: every disk is
/// smaller than each disk beneath it.
pub open spec fn stacked_ok(disks: Seq<Disk>) -> bool {
    forall|i: int, j: int|
        0 <= i < j < disks.len() ==> disks[i].spec_size() > disks[j].spec_size()
}

/// Whether `disk` may be pushed on top of the stack `disks`.
pub open spec fn can_put(disks: Seq<Disk>, disk: Disk) -> bool {
    disks.len() == 0 || disks.last().spec_size() > disk.spec_size()
}

/// A stack of disks; index 0 is the bottom, the last index is the top.
pub struct Peg {
    disks: Vec<Disk>,
}

impl View for Peg {
    type V = Seq<Disk>;

    closed spec fn view(&self) -> Seq<Disk> {
        self.disks@
    }
}

impl Peg {
    /// The size-ordering invariant: strictly decreasing from bottom to top.
    pub open spec fn wf(&self) -> bool {
        stacked_ok(self@)
    }

    /// An empty peg.
    pub fn new() -> (peg: Peg)
        ensures
            peg@ == Seq::<Disk>::empty(),
            peg.wf(),
    {
        Peg { disks: Vec::new() }
    }

    /// A peg loaded with `num_disks` disks of sizes `num_disks` down to 1,
    /// largest at the bottom.
    pub fn with_disks(num_disks: usize) -> (peg: Peg)
        ensures
            peg@.len() == num_disks,
            forall|i: int| 0 <= i < num_disks ==> peg@[i].spec_size() == num_disks - i,
            peg.wf(),
    {
        let mut peg = Peg { disks: Vec::new() };
        for h in 0..num_disks
            invariant
                peg@.len() == h,
                forall|i: int| 0 <= i < h ==> peg@[i].spec_size() == num_disks - i,
                peg.wf(),
        {
            let disk = Disk::new(num_disks - h);
            peg.put(disk).unwrap();
        }
        peg
    }

    /// Pushes `disk` if it is smaller than the current top; otherwise fails
    /// and leaves the peg exactly as it was.
    pub fn put(&mut self, disk: Disk) -> (r: Result<(), TowersError>)
        requires
            old(self).wf(),
        ensures
            final(self).wf(),
            can_put(old(self)@, disk) ==> r == Ok::<(), TowersError>(())
                && final(self)@ == old(self)@.push(disk),
            !can_put(old(self)@, disk) ==> r == Err::<(), TowersError>(
                TowersError::OversizedDisk { disk_size: disk.spec_size() },
            ) && final(self)@ == old(self)@,
    {
        match self.disks.pop() {
            Some(top_disk) => {
                if disk.size < top_disk.size {
                    self.disks.push(top_disk);
                    self.disks.push(disk);
                    proof {
                        assert(self@ =~= old(self)@.push(disk));
                    }
                    Ok(())
                } else {
                    self.disks.push(top_disk);
                    proof {
                        assert(self@ =~= old(self)@);
                    }
                    Err(TowersError::OversizedDisk { disk_size: disk.size })
                }
            },
            None => {
                self.disks.push(disk);
                proof {
                    assert(self@ =~= old(self)@.push(disk));
                }
                Ok(())
            },
        }
    }

    /// Removes and returns the top disk, or `None` when the peg is empty.
    pub fn take(&mut self) -> (taken: Option<Disk>)
        requires
            old(self).wf(),
        ensures
            final(self).wf(),
            old(self)@.len() == 0 ==> taken is None && final(self)@ == old(self)@,
            old(self)@.len() > 0 ==> taken == Some(old(self)@.last())
                && final(self)@ == old(self)@.drop_last(),
    {
        self.disks.pop()
    }

    /// Whether the peg holds no disks.
    pub fn is_empty(&self) -> (empty: bool)
        ensures
            empty <==> self@.len() == 0,
    {
        self.disks.len() == 0
    }

    /// How many disks the peg holds.
    pub fn disks(&self) -> (count: usize)
        ensures
            count == self@.len(),
    {
        self.disks.len()
    }

    /// Whether a disk of size 1 (the smallest possible) is on this peg.
    pub fn contains_smallest(&self) -> (found: bool)
        ensures
            found <==> exists|i: int| 0 <= i < self@.len() && self@[i].spec_size() == 1,
    {
        let mut k: usize = 0;
        while k < self.disks.len()
            invariant
                k <= self@.len(),
                forall|i: int| 0 <= i < k ==> self@[i].spec_size() != 1,
            decreases self@.len() - k,
        {
            if self.disks[k].size() == 1 {
                return true;
            }
            k = k + 1;
        }
        false
    }

    /// The top disk, without removing it.
    pub fn peek(&self) -> (top: Option<&Disk>)
        ensures
            top is Some <==> self@.len() > 0,
            top matches Some(disk) ==> *disk == self@.last(),
    {
        if self.disks.len() == 0 {
            None
        } else {
            Some(&self.disks[self.disks.len() - 1])
        }
    }
}

/// The fixed three-peg game state: peg 0 is the source, peg 1 the middle,
/// peg 2 the destination.
pub struct Board {
    pegs: Vec<Peg>,
}

impl Board {
    /// The pegs as a sequence, for use in specifications.
    pub closed spec fn spec_pegs(&self) -> Seq<Peg> {
        self.pegs@
    }

    /// The stack of disks on peg `i`, bottom first.
    pub open spec fn peg_seq(&self, i: int) -> Seq<Disk> {
        self.spec_pegs()[i]@
    }

    /// Well-formedness: exactly three pegs, each strictly size-ordered, and a
    /// total disk count that fits the machine's word.
    pub open spec fn wf(&self) -> bool {
        &&& self.spec_pegs().len() == 3
        &&& (forall|i: int| 0 <= i < 3 ==> (#[trigger] self.spec_pegs()[i]).wf())
        &&& self.spec_num_disks() <= usize::MAX
    }

    /// The total number of disks on the board.
    pub open spec fn spec_num_disks(&self) -> int {
        self.peg_seq(0).len() + self.peg_seq(1).len() + self.peg_seq(2).len() as int
    }

    /// The puzzle is solved: the source and middle pegs are both empty.
    pub open spec fn spec_finished(&self) -> bool {
        self.peg_seq(0).len() == 0 && self.peg_seq(1).len() == 0
    }

    /// Every peg holds the same disks as on `other`.
    pub open spec fn same_pegs(&self, other: &Board) -> bool {
        forall|i: int| 0 <= i < 3 ==> self.peg_seq(i) == other.peg_seq(i)
    }

    /// A board whose source peg holds `disks` disks of sizes `disks` down to 1
    /// (largest at the bottom) and whose other pegs are empty.
    pub fn with_initial_disks(disks: usize) -> (board: Board)
        ensures
            board.wf(),
            board.peg_seq(0).len() == disks,
            forall|i: int| 0 <= i < disks ==> board.peg_seq(0)[i].spec_size() == disks - i,
            board.peg_seq(1).len() == 0,
            board.peg_seq(2).len() == 0,
            board.spec_num_disks() == disks,
            board.spec_finished() <==> disks == 0,
    {
        let mut pegs: Vec<Peg> = Vec::new();
        pegs.push(Peg::with_disks(disks));
        pegs.push(Peg::new());
        pegs.push(Peg::new());
        Board { pegs }
    }

    /// Puts `disk` on peg `peg_index`: fails on an index outside `{0, 1, 2}`
    /// or on a disk too big for that peg's top, and then changes nothing.
    pub fn put(&mut self, disk: Disk, peg_index: usize) -> (r: Result<(), TowersError>)
        requires
            old(self).wf(),
            peg_index <= 2 && can_put(old(self).peg_seq(peg_index as int), disk)
                ==> old(self).spec_num_disks() < usize::MAX,
        ensures
            final(self).wf(),
            peg_index > 2 ==> r == Err::<(), TowersError>(
                TowersError::IndexOutOfBounds { peg_index },
            ) && final(self).same_pegs(old(self)),
            peg_index <= 2 && can_put(old(self).peg_seq(peg_index as int), disk) ==> {
                &&& r == Ok::<(), TowersError>(())
                &&& final(self).peg_seq(peg_index as int)
                    == old(self).peg_seq(peg_index as int).push(disk)
                &&& (forall|i: int| 0 <= i < 3 && i != peg_index ==>
                    final(self).peg_seq(i) == old(self).peg_seq(i))
            },
            peg_index <= 2 && !can_put(old(self).peg_seq(peg_index as int), disk) ==>
                r == Err::<(), TowersError>(
                    TowersError::OversizedDisk { disk_size: disk.spec_size() },
                ) && final(self).same_pegs(old(self)),
    {
        if peg_index > 2 {
            return Err(TowersError::IndexOutOfBounds { peg_index });
        }
        self.pegs[peg_index].put(disk)
    }

    /// Takes the top disk off peg `peg_index`: fails on an index outside
    /// `{0, 1, 2}`; on an empty peg it returns `Ok(None)` and changes nothing.
    pub fn take(&mut self, peg_index: usize) -> (r: Result<Option<Disk>, TowersError>)
        requires
            old(self).wf(),
        ensures
            final(self).wf(),
            final(self).spec_num_disks() <= old(self).spec_num_disks(),
            peg_index > 2 ==> r == Err::<Option<Disk>, TowersError>(
                TowersError::IndexOutOfBounds { peg_index },
            ) && final(self).same_pegs(old(self)),
            peg_index <= 2 && old(self).peg_seq(peg_index as int).len() == 0 ==>
                r == Ok::<Option<Disk>, TowersError>(None)
                && final(self).same_pegs(old(self)),
            peg_index <= 2 && old(self).peg_seq(peg_index as int).len() > 0 ==> {
                &&& r == Ok::<Option<Disk>, TowersError>(
                    Some(old(self).peg_seq(peg_index as int).last()),
                )
                &&& final(self).peg_seq(peg_index as int)
                    == old(self).peg_seq(peg_index as int).drop_last()
                &&& (forall|i: int| 0 <= i < 3 && i != peg_index ==>
                    final(self).peg_seq(i) == old(self).peg_seq(i))
            },
    {
        if peg_index > 2 {
            return Err(TowersError::IndexOutOfBounds { peg_index });
        }
        Ok(self.pegs[peg_index].take())
    }

    /// The three pegs, for inspection.
    pub fn pegs(&self) -> (pegs: &Vec<Peg>)
        ensures
            pegs@ == self.spec_pegs(),
    {
        &self.pegs
    }

    /// Whether the puzzle is solved.
    pub fn is_finished(&self) -> (finished: bool)
        requires
            self.wf(),
        ensures
            finished == self.spec_finished(),
    {
        self.pegs[0].is_empty() && self.pegs[1].is_empty()
    }

    /// The total number of disks, summed over the three pegs.
    pub fn num_disks(&self) -> (count: usize)
        requires
            self.wf(),
        ensures
            count == self.spec_num_disks(),
    {
        let a = self.pegs[0].disks();
        let b = self.pegs[1].disks();
        let c = self.pegs[2].disks();
        a + b + c
    }
}

/// Law: a finished well-formed board holds every one of its disks on the
/// destination peg, stacked in strictly decreasing size order.
pub proof fn lemma_finished_board_has_all_disks_on_destination(board: &Board)
    requires
        board.wf(),
        board.spec_finished(),
    ensures
        board.peg_seq(2).len() == board.spec_num_disks(),
        stacked_ok(board.peg_seq(2)),
{
    assert(board.spec_pegs()[2].wf());
}

/// What a player reports after one turn: a single-disk move between the named
/// pegs, or the claim that no move is left to play.
#[derive(Clone, Copy, Debug, PartialEq, Eq, Structural)]
pub enum PlayerAction {
    Moved { from: usize, to: usize },
    Finished,
}

/// Why a player's turn failed: the attempted move and the board's complaint.
#[derive(Clone, Copy, Debug, PartialEq, Eq, Structural)]
pub enum PlayerError {
    CannotMove { from: usize, to: usize, cause: TowersError },
}

/// `post` is `pre` with the top disk of peg `from` moved onto peg `to` and
/// nothing else changed.
pub open spec fn board_moved(pre: Board, post: Board, from: usize, to: usize) -> bool {
    &&& from < 3 && to < 3 && from != to
    &&& pre.peg_seq(from as int).len() > 0
    &&& post.peg_seq(from as int) == pre.peg_seq(from as int).drop_last()
    &&& post.peg_seq(to as int) == pre.peg_seq(to as int).push(pre.peg_seq(from as int).last())
    &&& (forall|i: int| 0 <= i < 3 && i != from && i != to ==> post.peg_seq(i)
        == pre.peg_seq(i))
}

/// What any player's turn does to the board, judged by its report: a reported
/// move is exactly that single-disk move, a `Finished` claim and a failure
/// leave the board untouched.
pub open spec fn player_turn_ok(
    pre_board: Board,
    post_board: Board,
    r: Result<PlayerAction, PlayerError>,
) -> bool {
    match r {
        Ok(PlayerAction::Moved { from, to }) => board_moved(pre_board, post_board, from, to),
        Ok(PlayerAction::Finished) => post_board.same_pegs(&pre_board),
        Err(_) => post_board.same_pegs(&pre_board),
    }
}

/// The capability of playing the game: each call of `next_turn` attempts
/// exactly one move. Every player keeps the board well formed, changes it
/// only as its report says (`player_turn_ok`), and satisfies its own declared
/// turn relation, through which callers of a known player see exactly what a
/// turn did.
pub trait PlaysTowers: Sized {
    /// The player's turn relation: how the player and the board after a turn,
    /// and the turn's report, relate to the player and the board before it.
    spec fn turn_spec(
        pre: Self,
        pre_board: Board,
        post: Self,
        post_board: Board,
        r: Result<PlayerAction, PlayerError>,
    ) -> bool;

    /// The player's display name.
    fn name(&self) -> &str;

    /// Plays one turn on `board`.
    fn next_turn(&mut self, board: &mut Board) -> (r: Result<PlayerAction, PlayerError>)
        requires
            old(board).wf(),
        ensures
            final(board).wf(),
            final(board).spec_num_disks() == old(board).spec_num_disks(),
            player_turn_ok(*old(board), *final(board), r),
            Self::turn_spec(*old(self), *old(board), *final(self), *final(board), r),
    ;
}

/// The move counter after a successful move: one more, capped at the largest
/// representable value.
pub open spec fn counter_after_move(n: u64) -> u64 {
    if n < u64::MAX {
        (n + 1) as u64
    } else {
        n
    }
}

/// The reference strategy: it plays the move the iterative solver computes
/// for its internal move counter, and advances the counter only when that
/// move succeeds.
pub struct StupidPlayer {
    name: String,
    next_move_number: u64,
}

impl StupidPlayer {
    /// The number of the move the player will attempt next (counting from 1).
    pub closed spec fn spec_move_number(&self) -> u64 {
        self.next_move_number
    }

    /// The player's name, for use in specifications.
    pub closed spec fn spec_name(&self) -> Seq<char> {
        self.name@
    }

    /// A fresh player whose move counter starts at 1.
    pub fn new<T: Into<String>>(name: T) -> (player: StupidPlayer)
        ensures
            player.spec_move_number() == 1,
    {
        StupidPlayer { name: name.into(), next_move_number: 1 }
    }
}

impl PlaysTowers for StupidPlayer {
    /// The reference player's turn, exactly: when the solver offers no move
    /// for the counter, the turn reports `Finished` and changes nothing; when
    /// it offers a placeable move, the turn performs it, reports it, and
    /// advances the counter; when the offered move does not fit, the turn
    /// fails with that complaint and changes nothing.
    open spec fn turn_spec(
        pre: StupidPlayer,
        pre_board: Board,
        post: StupidPlayer,
        post_board: Board,
        r: Result<PlayerAction, PlayerError>,
    ) -> bool {
        let m = iterative_solver::spec_next_move(pre.spec_move_number(), &pre_board);
        &&& post.spec_name() == pre.spec_name()
        &&& (m is None ==> r == Ok::<PlayerAction, PlayerError>(PlayerAction::Finished)
            && post_board.same_pegs(&pre_board)
            && post.spec_move_number() == pre.spec_move_number())
        &&& (m matches Some((f, t)) ==> {
            let src = pre_board.peg_seq(f as int);
            let dst = pre_board.peg_seq(t as int);
            if can_put(dst, src.last()) {
                &&& r == Ok::<PlayerAction, PlayerError>(PlayerAction::Moved { from: f, to: t })
                &&& board_moved(pre_board, post_board, f, t)
                &&& post.spec_move_number() == counter_after_move(pre.spec_move_number())
            } else {
                &&& r == Err::<PlayerAction, PlayerError>(PlayerError::CannotMove {
                    from: f,
                    to: t,
                    cause: TowersError::OversizedDisk { disk_size: src.last().spec_size() },
                })
                &&& post_board.same_pegs(&pre_board)
                &&& post.spec_move_number() == pre.spec_move_number()
            }
        })
    }

    fn name(&self) -> (name: &str)
        ensures
            name@ == self.spec_name(),
    {
        self.name.as_str()
    }

    /// One turn of optimal play: ask the solver for the move numbered by the
    /// counter, perform it, and report it; report `Finished` (and change
    /// nothing) when the solver offers no move. A failed placement puts the
    /// taken disk back, so the board is never changed by a failed turn.
    fn next_turn(&mut self, board: &mut Board) -> (r: Result<PlayerAction, PlayerError>) {
        let current_move_number = self.next_move_number;
        match iterative_solver::next_move(current_move_number, board) {
            Some((from, to)) => {
                match board.take(from) {
                    Err(cause) => Err(PlayerError::CannotMove { from, to, cause }),
                    Ok(None) => Err(PlayerError::CannotMove {
                        from,
                        to,
                        cause: TowersError::MissingDisk,
                    }),
                    Ok(Some(disk)) => {
                        match board.put(disk, to) {
                            Ok(()) => {
                                if current_move_number < u64::MAX {
                                    self.next_move_number = current_move_number + 1;
                                }
                                Ok(PlayerAction::Moved { from, to })
                            },
                            Err(cause) => {
                                // The move was refused: put the taken disk back on
                                // its source peg, which always accepts its own top.
                                let restored = board.put(disk, from);
                                proof {
                                    assert(restored is Ok);
                                    assert(board.peg_seq(from as int) =~= old(
                                        board,
                                    ).peg_seq(from as int));
                                }
                                Err(PlayerError::CannotMove { from, to, cause })
                            },
                        }
                    },
                }
            },
            None => Ok(PlayerAction::Finished),
        }
    }
}

/// The role names of the three peg indices: 0 is the source, 1 the middle,
/// 2 the destination.
#[derive(Clone, Copy, Debug, PartialEq, Eq, Structural)]
pub enum PegName {
    Source,
    Middle,
    Destination,
}

impl PegName {
    /// The name belonging to peg index `i`.
    pub open spec fn spec_of(i: int) -> PegName {
        if i == 0 {
            PegName::Source
        } else if i == 1 {
            PegName::Middle
        } else {
            PegName::Destination
        }
    }

    /// Names the peg with the given in-range index.
    pub fn from_index(peg_index: usize) -> (name: PegName)
        requires
            peg_index < 3,
        ensures
            name == PegName::spec_of(peg_index as int),
    {
        match peg_index {
            0 => PegName::Source,
            1 => PegName::Middle,
            _ => PegName::Destination,
        }
    }
}

/// One observable step of a session: a move, a win, a resignation, or a
/// failed (illegal) turn. Every variant but `PlayerMovedDisk` is terminal.
#[derive(Clone, Copy, Debug, PartialEq, Eq, Structural)]
pub enum SessionEvent {
    PlayerMovedDisk { from: PegName, to: PegName },
    PlayerWins,
    PlayerGaveUp,
    PlayerCheated(PlayerError),
}

/// The event a player's report maps to: a move names its pegs, a `Finished`
/// claim wins on a solved board and resigns on an unsolved one, and a failure
/// is a cheat carrying its complaint.
pub open spec fn event_of_action(
    r: Result<PlayerAction, PlayerError>,
    finished: bool,
) -> SessionEvent {
    match r {
        Ok(PlayerAction::Moved { from, to }) => SessionEvent::PlayerMovedDisk {
            from: PegName::spec_of(from as int),
            to: PegName::spec_of(to as int),
        },
        Ok(PlayerAction::Finished) => if finished {
            SessionEvent::PlayerWins
        } else {
            SessionEvent::PlayerGaveUp
        },
        Err(err) => SessionEvent::PlayerCheated(err),
    }
}

/// One player paired with one board; each turn advances the game by exactly
/// one event.
pub struct Session<P: PlaysTowers> {
    player: P,
    board: Board,
}

impl<P: PlaysTowers> Session<P> {
    /// The session's board, for use in specifications.
    pub closed spec fn spec_board(&self) -> Board {
        self.board
    }

    /// The session's player, for use in specifications.
    pub closed spec fn spec_player(&self) -> P {
        self.player
    }

    /// Well-formedness: the owned board is well formed.
    pub open spec fn wf(&self) -> bool {
        self.spec_board().wf()
    }

    /// Pairs `player` with an existing `board`.
    pub fn new(player: P, board: Board) -> (session: Session<P>)
        ensures
            session.spec_player() == player,
            session.spec_board() == board,
    {
        Session { player, board }
    }

    /// Pairs `player` with a fresh board of `num_disks` disks on the source peg.
    pub fn with_initial_disks(player: P, num_disks: usize) -> (session: Session<P>)
        ensures
            session.wf(),
            session.spec_player() == player,
            session.spec_board().peg_seq(0).len() == num_disks,
            forall|i: int| 0 <= i < num_disks ==>
                session.spec_board().peg_seq(0)[i].spec_size() == num_disks - i,
            session.spec_board().peg_seq(1).len() == 0,
            session.spec_board().peg_seq(2).len() == 0,
            session.spec_board().spec_num_disks() == num_disks,
    {
        Session { player, board: Board::with_initial_disks(num_disks) }
    }

    /// Plays one turn and maps the player's report to an event: a move becomes
    /// `PlayerMovedDisk`, a `Finished` claim becomes `PlayerWins` on a solved
    /// board and `PlayerGaveUp` otherwise, and a failure becomes
    /// `PlayerCheated`. The event is `event_of_action` of a report satisfying
    /// the player's own turn relation; the number of disks never changes.
    pub fn next_turn(&mut self) -> (event: SessionEvent)
        requires
            old(self).wf(),
        ensures
            final(self).wf(),
            final(self).spec_board().spec_num_disks()
                == old(self).spec_board().spec_num_disks(),
            exists|r: Result<PlayerAction, PlayerError>|
                #[trigger] P::turn_spec(
                    old(self).spec_player(),
                    old(self).spec_board(),
                    final(self).spec_player(),
                    final(self).spec_board(),
                    r,
                ) && player_turn_ok(old(self).spec_board(), final(self).spec_board(), r)
                    && event == event_of_action(
                    r,
                    final(self).spec_board().spec_finished(),
                ),
            event matches SessionEvent::PlayerMovedDisk { from: a, to: b }
                ==> exists|f: usize, t: usize|
                #[trigger] board_moved(old(self).spec_board(), final(self).spec_board(), f, t)
                    && a == PegName::spec_of(f as int) && b == PegName::spec_of(t as int),
            event is PlayerWins ==> final(self).spec_board().spec_finished()
                && final(self).spec_board().same_pegs(&old(self).spec_board()),
            event is PlayerGaveUp ==> !final(self).spec_board().spec_finished()
                && final(self).spec_board().same_pegs(&old(self).spec_board()),
            event matches SessionEvent::PlayerCheated(_)
                ==> final(self).spec_board().same_pegs(&old(self).spec_board()),
    {
        match self.player.next_turn(&mut self.board) {
            Ok(PlayerAction::Moved { from, to }) => {
                proof {
                    let r_wit: Result<PlayerAction, PlayerError> = Ok(
                        PlayerAction::Moved { from, to },
                    );
                    assert(P::turn_spec(
                        old(self).spec_player(),
                        old(self).spec_board(),
                        self.spec_player(),
                        self.spec_board(),
                        r_wit,
                    ));
                    assert(board_moved(old(self).spec_board(), self.spec_board(), from, to));
                }
                SessionEvent::PlayerMovedDisk {
                    from: PegName::from_index(from),
                    to: PegName::from_index(to),
                }
            },
            Ok(PlayerAction::Finished) => {
                proof {
                    let r_wit: Result<PlayerAction, PlayerError> = Ok(PlayerAction::Finished);
                    assert(P::turn_spec(
                        old(self).spec_player(),
                        old(self).spec_board(),
                        self.spec_player(),
                        self.spec_board(),
                        r_wit,
                    ));
                }
                if self.board.is_finished() {
                    SessionEvent::PlayerWins
                } else {
                    SessionEvent::PlayerGaveUp
                }
            },
            Err(err) => {
                proof {
                    let r_wit: Result<PlayerAction, PlayerError> = Err(err);
                    assert(P::turn_spec(
                        old(self).spec_player(),
                        old(self).spec_board(),
                        self.spec_player(),
                        self.spec_board(),
                        r_wit,
                    ));
                }
                SessionEvent::PlayerCheated(err)
            },
        }
    }

    /// Turns the session into its forward-only event sequence.
    pub fn iter(self) -> (it: SessionIterator<P>)
        ensures
            it.spec_session() == self,
            !it.spec_is_finished(),
    {
        SessionIterator { is_finished: false, session: self }
    }
}

/// The lazy, single-pass event sequence of a session: each pull plays one
/// turn, and the sequence ends right after the first event that is not a
/// move. Once ended it never touches the game again.
pub struct SessionIterator<P: PlaysTowers> {
    is_finished: bool,
    session: Session<P>,
}

impl<P: PlaysTowers> SessionIterator<P> {
    /// Whether the sequence has ended, for use in specifications.
    pub closed spec fn spec_is_finished(&self) -> bool {
        self.is_finished
    }

    /// The underlying session, for use in specifications.
    pub closed spec fn spec_session(&self) -> Session<P> {
        self.session
    }

    /// Well-formedness: the underlying session is well formed.
    pub open spec fn wf(&self) -> bool {
        self.spec_session().wf()
    }

    /// The next event: one turn of play, or `None` forever once a terminal
    /// (non-move) event has been yielded. An exhausted iterator changes
    /// nothing; a live pull yields `event_of_action` of a report satisfying
    /// the player's turn relation, and the disk count is conserved.
    pub fn next(&mut self) -> (r: Option<SessionEvent>)
        requires
            old(self).wf(),
        ensures
            final(self).wf(),
            old(self).spec_is_finished() ==> r is None
                && final(self).spec_is_finished()
                && final(self).spec_session() == old(self).spec_session(),
            !old(self).spec_is_finished() ==> r is Some
                && exists|res: Result<PlayerAction, PlayerError>|
                #[trigger] P::turn_spec(
                    old(self).spec_session().spec_player(),
                    old(self).spec_session().spec_board(),
                    final(self).spec_session().spec_player(),
                    final(self).spec_session().spec_board(),
                    res,
                ) && player_turn_ok(
                    old(self).spec_session().spec_board(),
                    final(self).spec_session().spec_board(),
                    res,
                ) && r == Some(
                    event_of_action(
                        res,
                        final(self).spec_session().spec_board().spec_finished(),
                    ),
                ),
            (r matches Some(event) ==> (final(self).spec_is_finished()
                <==> !(event matches SessionEvent::PlayerMovedDisk { .. }))),
            final(self).spec_session().spec_board().spec_num_disks()
                == old(self).spec_session().spec_board().spec_num_disks(),
            (r matches Some(SessionEvent::PlayerMovedDisk { from: a, to: b })
                ==> exists|f: usize, t: usize|
                #[trigger] board_moved(
                    old(self).spec_session().spec_board(),
                    final(self).spec_session().spec_board(),
                    f,
                    t,
                ) && a == PegName::spec_of(f as int) && b == PegName::spec_of(t as int)),
            r matches Some(SessionEvent::PlayerWins)
                ==> final(self).spec_session().spec_board().spec_finished()
                && final(self).spec_session().spec_board().same_pegs(
                &old(self).spec_session().spec_board(),
            ),
            r matches Some(SessionEvent::PlayerGaveUp)
                ==> !final(self).spec_session().spec_board().spec_finished()
                && final(self).spec_session().spec_board().same_pegs(
                &old(self).spec_session().spec_board(),
            ),
            (r matches Some(SessionEvent::PlayerCheated(_))
                ==> final(self).spec_session().spec_board().same_pegs(
                &old(self).spec_session().spec_board(),
            )),
    {
        if self.is_finished {
            None
        } else {
            let event = self.session.next_turn();
            let result = match event {
                SessionEvent::PlayerMovedDisk { .. } => Some(event),
                _ => {
                    self.is_finished = true;
                    Some(event)
                },
            };
            proof {
                let res = choose|res: Result<PlayerAction, PlayerError>|
                    P::turn_spec(
                        old(self).spec_session().spec_player(),
                        old(self).spec_session().spec_board(),
                        self.session.spec_player(),
                        self.session.spec_board(),
                        res,
                    ) && player_turn_ok(
                        old(self).spec_session().spec_board(),
                        self.session.spec_board(),
                        res,
                    ) && event == event_of_action(
                        res,
                        self.session.spec_board().spec_finished(),
                    );
                assert(P::turn_spec(
                    old(self).spec_session().spec_player(),
                    old(self).spec_session().spec_board(),
                    self.session.spec_player(),
                    self.session.spec_board(),
                    res,
                ));
                assert(player_turn_ok(
                    old(self).spec_session().spec_board(),
                    self.session.spec_board(),
                    res,
                ));
                assert(result == Some(
                    event_of_action(res, self.session.spec_board().spec_finished()),
                ));
                assert(exists|res2: Result<PlayerAction, PlayerError>|
                    #[trigger] P::turn_spec(
                        old(self).spec_session().spec_player(),
                        old(self).spec_session().spec_board(),
                        self.spec_session().spec_player(),
                        self.spec_session().spec_board(),
                        res2,
                    ) && player_turn_ok(
                        old(self).spec_session().spec_board(),
                        self.spec_session().spec_board(),
                        res2,
                    ) && result == Some(
                        event_of_action(
                            res2,
                            self.spec_session().spec_board().spec_finished(),
                        ),
                    ));
            }
            result
        }
    }
}

} // verus!
