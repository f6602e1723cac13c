use towerslib::iterative_solver::next_move;
use towerslib::{
    Board, Disk, Peg, PegName, PlayerAction, PlayerError, PlaysTowers, Session, SessionEvent,
    StupidPlayer, TowersError,
};

fn run_events(num_disks: usize) -> Vec<SessionEvent> {
    let player = StupidPlayer::new("Joe");
    let session = Session::with_initial_disks(player, num_disks);
    let mut it = session.iter();
    let mut events = Vec::new();
    while let Some(event) = it.next() {
        events.push(event);
        assert!(events.len() < 10_000, "session did not terminate");
    }
    events
}

#[test]
fn peg_should_accept_disks_in_valid_order() {
    let disks = vec![Disk::new(3), Disk::new(2), Disk::new(1)];
    let mut peg = Peg::new();

    for disk in disks {
        peg.put(disk).unwrap();
    }
}

#[test]
fn peg_rejects_oversized_disk_and_stays_unchanged() {
    let mut peg = Peg::new();
    peg.put(Disk::new(2)).unwrap();
    let err = peg.put(Disk::new(3)).unwrap_err();
    assert_eq!(err, TowersError::OversizedDisk { disk_size: 3 });
    assert_eq!(peg.disks(), 1);
    assert_eq!(peg.peek().unwrap().size(), 2);
}

#[test]
fn peg_rejects_equal_sized_disk() {
    let mut peg = Peg::new();
    peg.put(Disk::new(2)).unwrap();
    assert!(peg.put(Disk::new(2)).is_err());
    assert_eq!(peg.disks(), 1);
}

#[test]
fn peg_take_returns_disks_smallest_first() {
    let mut peg = Peg::with_disks(3);
    assert_eq!(peg.take().unwrap().size(), 1);
    assert_eq!(peg.take().unwrap().size(), 2);
    assert_eq!(peg.take().unwrap().size(), 3);
    assert!(peg.take().is_none());
    assert!(peg.is_empty());
}

#[test]
fn peg_contains_smallest_only_with_a_size_one_disk() {
    assert!(Peg::with_disks(2).contains_smallest());
    let mut other = Peg::new();
    other.put(Disk::new(5)).unwrap();
    assert!(!other.contains_smallest());
    assert!(!Peg::new().contains_smallest());
}

#[test]
fn disks_order_by_size() {
    assert!(Disk::new(1) < Disk::new(2));
    assert_eq!(Disk::new(2), Disk::new(2));
    assert_eq!(Disk::new(4).size(), 4);
}

#[test]
fn board_initial_layout() {
    let board = Board::with_initial_disks(3);
    assert_eq!(board.num_disks(), 3);
    assert!(!board.is_finished());
    let pegs = board.pegs();
    assert_eq!(pegs[0].disks(), 3);
    assert!(pegs[1].is_empty());
    assert!(pegs[2].is_empty());
    assert_eq!(pegs[0].peek().unwrap().size(), 1);
}

#[test]
fn board_put_rejects_out_of_bounds_index() {
    let mut board = Board::with_initial_disks(1);
    let err = board.put(Disk::new(9), 3).unwrap_err();
    assert_eq!(err, TowersError::IndexOutOfBounds { peg_index: 3 });
    assert_eq!(board.num_disks(), 1);
}

#[test]
fn board_take_rejects_out_of_bounds_index() {
    let mut board = Board::with_initial_disks(1);
    let err = board.take(5).unwrap_err();
    assert_eq!(err, TowersError::IndexOutOfBounds { peg_index: 5 });
    assert_eq!(board.num_disks(), 1);
}

#[test]
fn board_take_from_empty_peg_returns_none() {
    let mut board = Board::with_initial_disks(1);
    assert!(board.take(2).unwrap().is_none());
    assert_eq!(board.num_disks(), 1);
}

#[test]
fn board_put_propagates_ordering_failure_without_change() {
    let mut board = Board::with_initial_disks(2);
    let small = board.take(0).unwrap().unwrap();
    board.put(small, 2).unwrap();
    let big = board.take(0).unwrap().unwrap();
    let err = board.put(big, 2).unwrap_err();
    assert_eq!(err, TowersError::OversizedDisk { disk_size: 2 });
    assert_eq!(board.pegs()[2].disks(), 1);
    assert_eq!(board.pegs()[2].peek().unwrap().size(), 1);
}

#[test]
fn solver_first_move_depends_on_disk_count_parity() {
    let odd = Board::with_initial_disks(3);
    assert_eq!(next_move(1, &odd), Some((0, 2)));
    let even = Board::with_initial_disks(2);
    assert_eq!(next_move(1, &even), Some((0, 1)));
}

#[test]
fn solver_returns_none_on_finished_board() {
    let board = Board::with_initial_disks(0);
    assert_eq!(next_move(1, &board), None);
}

#[test]
fn solver_is_deterministic_for_identical_inputs() {
    let board = Board::with_initial_disks(4);
    for k in 1..=20u64 {
        assert_eq!(next_move(k, &board), next_move(k, &board));
    }
}

#[test]
fn player_reports_its_name() {
    let player = StupidPlayer::new("Joe");
    assert_eq!(player.name(), "Joe");
}

#[test]
fn zero_disks_win_immediately() {
    assert_eq!(run_events(0), vec![SessionEvent::PlayerWins]);
}

#[test]
fn one_disk_takes_one_move() {
    assert_eq!(
        run_events(1),
        vec![
            SessionEvent::PlayerMovedDisk {
                from: PegName::Source,
                to: PegName::Destination,
            },
            SessionEvent::PlayerWins,
        ]
    );
}

#[test]
fn two_disks_take_three_moves_in_order() {
    assert_eq!(
        run_events(2),
        vec![
            SessionEvent::PlayerMovedDisk { from: PegName::Source, to: PegName::Middle },
            SessionEvent::PlayerMovedDisk {
                from: PegName::Source,
                to: PegName::Destination,
            },
            SessionEvent::PlayerMovedDisk {
                from: PegName::Middle,
                to: PegName::Destination,
            },
            SessionEvent::PlayerWins,
        ]
    );
}

#[test]
fn three_disks_end_with_all_on_destination() {
    let mut player = StupidPlayer::new("Joe");
    let mut board = Board::with_initial_disks(3);
    let mut moves = 0;
    loop {
        match player.next_turn(&mut board) {
            Ok(PlayerAction::Moved { .. }) => {
                moves += 1;
                assert!(moves <= 7, "too many moves for three disks");
            }
            Ok(PlayerAction::Finished) => break,
            Err(err) => panic!("unexpected failure: {:?}", err),
        }
    }
    assert_eq!(moves, 7);
    assert!(board.is_finished());
    assert_eq!(board.pegs()[2].disks(), 3);
    assert_eq!(board.take(2).unwrap().unwrap().size(), 1);
    assert_eq!(board.take(2).unwrap().unwrap().size(), 2);
    assert_eq!(board.take(2).unwrap().unwrap().size(), 3);
}

#[test]
fn full_runs_take_the_optimal_number_of_moves() {
    for n in 1..=10usize {
        let events = run_events(n);
        let moves = events
            .iter()
            .filter(|event| matches!(event, SessionEvent::PlayerMovedDisk { .. }))
            .count();
        assert_eq!(moves, (1usize << n) - 1);
        assert_eq!(events.len(), moves + 1);
        assert_eq!(*events.last().unwrap(), SessionEvent::PlayerWins);
        assert!(!events
            .iter()
            .any(|event| matches!(event, SessionEvent::PlayerCheated(_))));
    }
}

#[test]
fn disk_count_is_conserved_across_a_full_run() {
    let mut player = StupidPlayer::new("Joe");
    let mut board = Board::with_initial_disks(4);
    for _ in 0..64 {
        assert_eq!(board.num_disks(), 4);
        match player.next_turn(&mut board) {
            Ok(PlayerAction::Finished) => break,
            Ok(_) => {}
            Err(err) => panic!("unexpected failure: {:?}", err),
        }
    }
    assert_eq!(board.num_disks(), 4);
    assert!(board.is_finished());
}

#[test]
fn player_claiming_done_on_an_unsolved_board_maps_to_gave_up() {
    let mut board = Board::with_initial_disks(0);
    board.put(Disk::new(1), 1).unwrap();
    let player = StupidPlayer::new("Joe");
    let mut session = Session::new(player, board);
    assert_eq!(session.next_turn(), SessionEvent::PlayerGaveUp);
}

#[test]
fn illegal_move_maps_to_cheated_and_ends_the_run() {
    let mut board = Board::with_initial_disks(0);
    board.put(Disk::new(5), 0).unwrap();
    board.put(Disk::new(5), 1).unwrap();
    let player = StupidPlayer::new("Joe");
    let session = Session::new(player, board);
    let mut it = session.iter();
    match it.next().unwrap() {
        SessionEvent::PlayerCheated(PlayerError::CannotMove { from, to, cause }) => {
            assert_eq!(from, 0);
            assert_eq!(to, 1);
            assert_eq!(cause, TowersError::OversizedDisk { disk_size: 5 });
        }
        other => panic!("expected a cheat event, got {:?}", other),
    }
    assert!(it.next().is_none());
    assert!(it.next().is_none());
}

#[test]
fn failed_turn_leaves_board_unchanged() {
    let mut board = Board::with_initial_disks(0);
    board.put(Disk::new(5), 0).unwrap();
    board.put(Disk::new(5), 1).unwrap();
    let mut player = StupidPlayer::new("Joe");
    assert!(player.next_turn(&mut board).is_err());
    assert_eq!(board.num_disks(), 2);
    assert_eq!(board.pegs()[0].disks(), 1);
    assert_eq!(board.pegs()[0].peek().unwrap().size(), 5);
    assert_eq!(board.pegs()[1].disks(), 1);
    assert_eq!(board.pegs()[1].peek().unwrap().size(), 5);
}
