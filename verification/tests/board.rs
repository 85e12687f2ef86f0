use mancala::board::{Board, BoardError};

fn counters(b: &Board) -> Vec<u32> {
    b.board.clone()
}

fn total(b: &Board) -> u32 {
    b.board.iter().sum()
}

#[test]
fn fresh_board_layout() {
    let b = Board::new(true);
    assert_eq!(counters(&b), vec![4, 4, 4, 4, 4, 4, 0, 4, 4, 4, 4, 4, 4, 0]);
    assert!(b.our_turn);
    let b2 = Board::new(false);
    assert!(!b2.our_turn);
    assert_eq!(total(&b2), 48);
}

#[test]
fn sow_from_pit_two_lands_in_store() {
    // Fresh board, first player sows pit 2: the four seeds reach pits 3, 4,
    // 5 and the store, so the mover keeps the turn.
    let mut b = Board::new(true);
    assert!(b.move_is_valid(2));
    let r = b.make_move(2);
    assert_eq!(r, Some(true));
    assert!(b.our_turn);
    assert_eq!(counters(&b), vec![4, 4, 0, 5, 5, 5, 1, 4, 4, 4, 4, 4, 4, 0]);
}

#[test]
fn sow_from_pit_zero_switches_turn() {
    // Fresh board, first player sows pit 0: lands in pit 4 (now 5 seeds, no
    // capture) and the turn passes.
    let mut b = Board::new(true);
    let r = b.make_move(0);
    assert_eq!(r, Some(false));
    assert!(!b.our_turn);
    assert_eq!(counters(&b), vec![0, 5, 5, 5, 5, 4, 0, 4, 4, 4, 4, 4, 4, 0]);
    assert_eq!(b.board[4], 5);
}

#[test]
fn snapshot_single_seed_reaches_own_store_not_opponents() {
    // First player's pits 0,0,0,0,0,1 and second player's 3,0,0,0,0,0: the
    // single seed from pit 5 goes to the mover's own store, never to the
    // opponent's; the move empties the mover's side, so the game ends and
    // the opponent's three seeds are swept into its store.
    let items: Vec<u8> = vec![0, 0, 0, 0, 0, 0, 1, 3, 0, 0, 0, 0, 0, 0];
    let mut b = Board::new_intermediate(&items, true).unwrap();
    assert_eq!(counters(&b), vec![0, 0, 0, 0, 0, 1, 0, 3, 0, 0, 0, 0, 0, 0]);
    assert!(b.move_is_valid(5));
    let r = b.make_move(5);
    assert_eq!(r, None);
    assert_eq!(b.board[6], 1);
    assert_eq!(b.board[13], 3);
    for i in 0..14 {
        if i != 6 && i != 13 {
            assert_eq!(b.board[i], 0);
        }
    }
    assert!(b.our_turn);
}

#[test]
fn long_sow_skips_opponent_store() {
    // Nine seeds sown from pit 5 walk 6,7,8,9,10,11,12, skip the opponent's
    // store at 13, then 0 and 1; the last seed lands in the empty pit 1 and
    // captures the two seeds opposite.
    let items: Vec<u8> = vec![0, 0, 0, 0, 0, 0, 9, 1, 1, 1, 1, 1, 1, 0];
    let mut b = Board::new_intermediate(&items, true).unwrap();
    let r = b.make_move(5);
    assert_eq!(r, Some(false));
    assert_eq!(b.board[13], 0, "the opponent's store must be skipped");
    assert_eq!(counters(&b), vec![1, 0, 0, 0, 0, 0, 4, 2, 2, 2, 2, 0, 2, 0]);
    assert!(!b.our_turn);
}

#[test]
fn multi_lap_sow_skips_opponent_store_every_lap() {
    // Fifteen seeds from pit 0 wrap all the way around the ring and past it;
    // index 13 receives nothing on any lap.
    let items: Vec<u8> = vec![0, 15, 0, 0, 0, 0, 0, 0, 0, 0, 0, 0, 0, 0];
    let mut b = Board::new_intermediate(&items, true).unwrap();
    let r = b.make_move(0);
    assert_eq!(r, Some(false));
    assert_eq!(b.board[13], 0);
    assert_eq!(counters(&b), vec![1, 2, 2, 1, 1, 1, 1, 1, 1, 1, 1, 1, 1, 0]);
}

#[test]
fn capture_takes_landing_seed_and_opposite_pit() {
    // One seed from pit 1 lands in the empty pit 2; the opposite pit 10
    // holds five seeds, so the store grows by exactly 1 + 5.
    let items: Vec<u8> = vec![0, 4, 1, 0, 0, 0, 0, 0, 1, 0, 5, 0, 0, 0];
    let mut b = Board::new_intermediate(&items, true).unwrap();
    let store_before = b.board[6];
    let opposite_before = b.board[10];
    let r = b.make_move(1);
    assert_eq!(r, Some(false));
    assert_eq!(b.board[2], 0);
    assert_eq!(b.board[10], 0);
    assert_eq!(b.board[6], store_before + 1 + opposite_before);
    assert_eq!(counters(&b), vec![4, 0, 0, 0, 0, 0, 6, 0, 1, 0, 0, 0, 0, 0]);
    assert!(!b.our_turn);
}

#[test]
fn capture_that_empties_the_opponent_ends_the_game() {
    // The capture takes the opponent's last seeds, so the game ends and the
    // mover's remaining pits are swept into its store.
    let items: Vec<u8> = vec![0, 4, 1, 0, 0, 0, 0, 0, 0, 0, 5, 0, 0, 0];
    let mut b = Board::new_intermediate(&items, true).unwrap();
    let r = b.make_move(1);
    assert_eq!(r, None);
    assert_eq!(b.board[6], 10);
    assert_eq!(b.board[13], 0);
    for i in 0..14 {
        if i != 6 && i != 13 {
            assert_eq!(b.board[i], 0);
        }
    }
}

#[test]
fn no_capture_when_opposite_pit_is_empty() {
    // Same landing in an empty own pit, but the opposite pit is empty: the
    // single seed stays where it fell.
    let items: Vec<u8> = vec![0, 4, 1, 0, 0, 0, 0, 2, 0, 0, 0, 0, 0, 0];
    let mut b = Board::new_intermediate(&items, true).unwrap();
    let r = b.make_move(1);
    assert_eq!(r, Some(false));
    assert_eq!(b.board[2], 1);
    assert_eq!(b.board[6], 0);
    assert_eq!(b.board[10], 0);
}

#[test]
fn second_player_lands_in_own_store_for_extra_turn() {
    let items: Vec<u8> = vec![0, 4, 4, 4, 4, 4, 4, 4, 4, 4, 4, 4, 4, 0];
    let mut b = Board::new_intermediate(&items, false).unwrap();
    assert!(b.move_is_valid(9));
    let r = b.make_move(9);
    assert_eq!(r, Some(true));
    assert!(!b.our_turn);
    assert_eq!(b.board[13], 1);
    assert_eq!(b.board[9], 0);
}

#[test]
fn second_player_sow_skips_first_players_store() {
    // Eight seeds from pit 12 walk 13, 0..5, skip the first player's store
    // at 6, and land in pit 7.
    let items: Vec<u8> = vec![0, 1, 1, 1, 1, 1, 1, 5, 0, 0, 0, 0, 8, 1];
    let mut b = Board::new_intermediate(&items, false).unwrap();
    let r = b.make_move(12);
    assert_eq!(r, Some(false));
    assert_eq!(b.board[6], 1, "the first player's store must be skipped");
    assert_eq!(b.board[13], 1);
    assert_eq!(b.board[7], 6);
    assert_eq!(counters(&b), vec![2, 2, 2, 2, 2, 2, 1, 6, 0, 0, 0, 0, 0, 1]);
    assert!(b.our_turn);
}

#[test]
fn largest_snapshot_counters_sow_without_losing_seeds() {
    // Every slot at 255: 255 seeds from pit 0 make nineteen full laps of the
    // thirteen sowable slots plus eight extra steps, and the opponent's
    // store never gains a seed from the walk.
    let items: Vec<u8> = vec![255; 14];
    let mut b = Board::new_intermediate(&items, true).unwrap();
    assert_eq!(total(&b), 3570);
    let r = b.make_move(0);
    assert_eq!(r, Some(false));
    assert_eq!(total(&b), 3570);
    assert_eq!(b.board[0], 19);
    assert_eq!(b.board[1], 275);
    assert_eq!(b.board[6], 275);
    assert_eq!(b.board[8], 275);
    assert_eq!(b.board[9], 274);
    assert_eq!(b.board[12], 274);
    assert_eq!(b.board[13], 255, "the opponent's store must be skipped");
    assert!(!b.our_turn);
}

#[test]
fn move_validation_rejects_stores_wrong_side_and_empty_pits() {
    let b = Board::new(true);
    assert!(b.move_is_valid(0));
    assert!(b.move_is_valid(5));
    assert!(!b.move_is_valid(6), "own store is not sowable");
    assert!(!b.move_is_valid(7), "opponent's pit");
    assert!(!b.move_is_valid(13));
    assert!(!b.move_is_valid(14), "out of range");
    assert!(!b.move_is_valid(200));
    let b2 = Board::new(false);
    assert!(b2.move_is_valid(7));
    assert!(b2.move_is_valid(12));
    assert!(!b2.move_is_valid(0));
    assert!(!b2.move_is_valid(13));
    let items: Vec<u8> = vec![0, 0, 4, 4, 4, 4, 4, 4, 4, 4, 4, 4, 4, 0];
    let b3 = Board::new_intermediate(&items, true).unwrap();
    assert!(!b3.move_is_valid(0), "empty pit");
    assert!(b3.move_is_valid(1));
}

#[test]
fn snapshot_needs_exactly_fourteen_entries() {
    let short: Vec<u8> = vec![1; 13];
    assert!(matches!(
        Board::new_intermediate(&short, true),
        Err(BoardError::StructuralInput)
    ));
    let long: Vec<u8> = vec![1; 15];
    assert!(matches!(
        Board::new_intermediate(&long, false),
        Err(BoardError::StructuralInput)
    ));
    let empty: Vec<u8> = vec![];
    assert!(matches!(
        Board::new_intermediate(&empty, true),
        Err(BoardError::StructuralInput)
    ));
}

#[test]
fn replay_reconstructs_the_position() {
    // Pit 2 grants an extra turn, then pit 5 passes the turn.
    let turns: Vec<u8> = vec![2, 5];
    let b = Board::new_with_turns(&turns, true).unwrap();
    assert_eq!(counters(&b), vec![4, 4, 0, 5, 5, 0, 2, 5, 5, 5, 5, 4, 4, 0]);
    assert!(!b.our_turn);
    assert_eq!(total(&b), 48);
}

#[test]
fn replay_rejects_an_illegal_move() {
    let store_move: Vec<u8> = vec![6];
    assert!(matches!(
        Board::new_with_turns(&store_move, true),
        Err(BoardError::IllegalMove)
    ));
    // The second 0 is played by the second player, whose pits are 7..12.
    let wrong_side: Vec<u8> = vec![0, 0];
    assert!(matches!(
        Board::new_with_turns(&wrong_side, true),
        Err(BoardError::IllegalMove)
    ));
    let empty_log: Vec<u8> = vec![];
    let b = Board::new_with_turns(&empty_log, false).unwrap();
    assert_eq!(total(&b), 48);
    assert!(!b.our_turn);
}

#[test]
fn seed_total_is_preserved_across_moves() {
    let mut b = Board::new(true);
    assert_eq!(total(&b), 48);
    assert_eq!(b.make_move(2), Some(true));
    assert_eq!(total(&b), 48);
    assert_eq!(b.make_move(0), Some(false));
    assert_eq!(total(&b), 48);
    assert_eq!(b.make_move(7), Some(false));
    assert_eq!(total(&b), 48);
}

#[test]
fn stores_never_shrink_across_a_move() {
    let mut b = Board::new(true);
    for mv in [2u8, 0, 7, 10, 1] {
        if !b.move_is_valid(mv) {
            continue;
        }
        let store_a = b.board[6];
        let store_b = b.board[13];
        let _ = b.make_move(mv);
        assert!(b.board[6] >= store_a);
        assert!(b.board[13] >= store_b);
    }
}

#[test]
fn sweep_drains_every_pit_into_its_store() {
    let items: Vec<u8> = vec![0, 0, 0, 0, 0, 0, 0, 1, 2, 3, 0, 0, 0, 5];
    let mut b = Board::new_intermediate(&items, true).unwrap();
    assert!(b.game_is_done());
    b.clear_board_to_sides();
    assert_eq!(b.board[6], 5);
    assert_eq!(b.board[13], 6);
    for i in 0..14 {
        if i != 6 && i != 13 {
            assert_eq!(b.board[i], 0);
        }
    }
    let fresh = Board::new(true);
    assert!(!fresh.game_is_done());
}
