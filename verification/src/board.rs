//! The executable board engine: construction (fresh game, snapshot restore,
//! replay of a move log), move validation, move execution and the
//! end-of-game sweep, each verified against the model in [`crate::model`].

use crate::model::{
    after_capture, captures, done_spec, land_spot, landing, lemma_after_capture_props,
    lemma_starting_total, lemma_sweep_props, move_board, move_outcome, move_turn, next_spot,
    opp_store_of, replay_board,
    replay_ok, replay_turn, snapshot_board, sow_board, spots_after_sow, starting_board, store_of,
    sweep_spec, valid_move, wf_spots, BOARD_SPOTS, MAX_TOTAL, OUR_GOAL, THEIR_GOAL,
};
use crate::sums::{
    lemma_range_sum_bounded_bytes, lemma_range_sum_elem, lemma_range_sum_nonneg,
    lemma_range_sum_split, lemma_range_sum_update, range_sum,
};
use vstd::prelude::*;

verus! {

/// Why a board could not be built.
#[derive(Clone, Copy, Debug, PartialEq, Eq)]
pub enum BoardError {
    /// A snapshot did not hold exactly fourteen counters.
    StructuralInput,
    /// A replayed move was not legal for the position it was played from.
    IllegalMove,
}

/// The mancala board: fourteen counters (slots 0 to 5 the first player's
/// pits, 6 its store, 7 to 12 the second player's pits, 13 its store) and
/// the side to move.
pub struct Board {
    /// The fourteen slots of the ring, pits and stores alike.
    pub board: Vec<u32>,
    /// `true` while it is the first player's turn.
    pub our_turn: bool,
}

/// Sum of the counters `v[lo]`, ..., `v[hi - 1]`.
fn sum_range(v: &Vec<u32>, lo: usize, hi: usize) -> (r: u32)
    requires
        lo <= hi,
        hi <= v@.len(),
        range_sum(v@, lo as int, hi as int) <= u32::MAX,
    ensures
        r as int == range_sum(v@, lo as int, hi as int),
{
    let mut acc: u32 = 0;
    let mut k: usize = lo;
    while k < hi
        invariant
            lo <= k <= hi,
            hi <= v@.len(),
            acc as int == range_sum(v@, lo as int, k as int),
            range_sum(v@, lo as int, hi as int) <= u32::MAX,
        decreases hi - k,
    {
        proof {
            lemma_range_sum_split(v@, lo as int, k as int, k + 1);
            assert(range_sum(v@, k as int, k + 1) == v@[k as int] + range_sum(v@, k + 1, k + 1));
            lemma_range_sum_split(v@, lo as int, k + 1, hi as int);
            lemma_range_sum_nonneg(v@, k + 1, hi as int);
        }
        acc = acc + v[k];
        k = k + 1;
    }
    acc
}

impl Board {
    /// A board the engine can work on: fourteen slots with a bounded total.
    pub open spec fn wf(&self) -> bool {
        wf_spots(self.board@)
    }

    /// A fresh game: four seeds in each of the twelve pits, empty stores,
    /// and the given side to move first.
    pub fn new(our_turn: bool) -> (b: Board)
        ensures
            b.wf(),
            b.our_turn == our_turn,
            b.board@ == starting_board(),
    {
        let mut spots: Vec<u32> = Vec::new();
        let mut k: usize = 0;
        while k < BOARD_SPOTS
            invariant
                k <= 14,
                spots@.len() == k,
                forall|j: int| 0 <= j < k ==> spots@[j] == starting_board()[j],
            decreases 14 - k,
        {
            if k == OUR_GOAL || k == THEIR_GOAL {
                spots.push(0);
            } else {
                spots.push(4);
            }
            k = k + 1;
        }
        proof {
            assert(spots@ =~= starting_board());
            lemma_starting_total();
        }
        Board { board: spots, our_turn }
    }

    /// May the side to move sow from slot `bucket`?  True exactly when the
    /// slot is one of its own six pits and holds at least one seed; any
    /// other index, a store or an out-of-range value included, is rejected.
    pub fn move_is_valid(&self, bucket: u8) -> (r: bool)
        requires
            self.wf(),
        ensures
            r == valid_move(self.board@, self.our_turn, bucket as int),
    {
        let own_side = if self.our_turn {
            bucket <= 5
        } else {
            7 <= bucket && bucket <= 12
        };
        if !own_side {
            return false;
        }
        self.board[bucket as usize] != 0
    }

    /// Is the game over, that is, are one side's six pits all empty?
    pub fn game_is_done(&self) -> (r: bool)
        requires
            self.wf(),
        ensures
            r == done_spec(self.board@),
    {
        proof {
            lemma_range_sum_split(self.board@, 0, 6, 14);
            lemma_range_sum_nonneg(self.board@, 6, 14);
            lemma_range_sum_split(self.board@, 0, 7, 14);
            lemma_range_sum_split(self.board@, 7, 13, 14);
            lemma_range_sum_nonneg(self.board@, 0, 7);
            lemma_range_sum_nonneg(self.board@, 13, 14);
        }
        let ours = sum_range(&self.board, 0, 6);
        let theirs = sum_range(&self.board, 7, 13);
        ours == 0 || theirs == 0
    }

    /// The end-of-game sweep: each store absorbs its own side's remaining
    /// pit contents and all twelve pits are emptied.  `make_move` performs
    /// it when a move empties a side; the seed total never changes.
    pub fn clear_board_to_sides(&mut self)
        requires
            old(self).wf(),
        ensures
            final(self).wf(),
            final(self).our_turn == old(self).our_turn,
            final(self).board@ == sweep_spec(old(self).board@),
    {
        let ghost s = self.board@;
        proof {
            lemma_range_sum_split(s, 0, 6, 14);
            lemma_range_sum_nonneg(s, 6, 14);
            lemma_range_sum_split(s, 0, 7, 14);
            lemma_range_sum_split(s, 7, 13, 14);
            lemma_range_sum_nonneg(s, 0, 7);
            lemma_range_sum_nonneg(s, 13, 14);
        }
        let our_sum = sum_range(&self.board, 0, 6);
        let their_sum = sum_range(&self.board, 7, 13);
        let ghost t = self.our_turn;
        let mut k: usize = 0;
        while k < BOARD_SPOTS
            invariant
                k <= 14,
                self.our_turn == t,
                self.board@.len() == 14,
                forall|j: int|
                    0 <= j < 14 ==> self.board@[j] == (if j < k && j != 6 && j != 13 {
                        0u32
                    } else {
                        s[j]
                    }),
            decreases 14 - k,
        {
            if k != OUR_GOAL && k != THEIR_GOAL {
                self.board.set(k, 0);
            }
            k = k + 1;
        }
        proof {
            lemma_range_sum_split(s, 6, 7, 14);
            lemma_range_sum_nonneg(s, 7, 14);
            assert(range_sum(s, 6, 7) == s[6] + range_sum(s, 7, 7));
            assert(range_sum(s, 13, 14) == s[13] + range_sum(s, 14, 14));
        }
        let cur6 = self.board[OUR_GOAL];
        self.board.set(OUR_GOAL, cur6 + our_sum);
        let cur13 = self.board[THEIR_GOAL];
        self.board.set(THEIR_GOAL, cur13 + their_sum);
        proof {
            lemma_sweep_props(s);
            assert(self.board@ =~= sweep_spec(s));
        }
    }

    /// Execute a legal move from pit `bucket`: empty the pit and sow its
    /// seeds one per slot around the ring, skipping the opponent's store on
    /// every lap; apply the capture rule; when the move leaves one side's
    /// pits all empty, sweep the board and report `None` (game over);
    /// otherwise report `Some(extra_turn)`, keeping the turn exactly when
    /// the last seed landed in the mover's own store.
    pub fn make_move(&mut self, bucket: u8) -> (r: Option<bool>)
        requires
            old(self).wf(),
            valid_move(old(self).board@, old(self).our_turn, bucket as int),
        ensures
            final(self).wf(),
            final(self).board@ == move_board(old(self).board@, bucket as int, old(self).our_turn),
            final(self).our_turn == move_turn(old(self).board@, bucket as int, old(self).our_turn),
            r == move_outcome(old(self).board@, bucket as int, old(self).our_turn),
    {
        let ghost s = self.board@;
        let ghost t = self.our_turn;
        let ghost total = range_sum(s, 0, 14);
        let bidx = bucket as usize;
        let in_hand: u32 = self.board[bidx];
        self.board.set(bidx, 0);
        let ghost s0 = self.board@;
        proof {
            lemma_range_sum_update(s, 0, 14, bidx as int, 0u32);
        }
        let my_goal: usize = if self.our_turn {
            OUR_GOAL
        } else {
            THEIR_GOAL
        };
        let opp_goal: usize = if self.our_turn {
            THEIR_GOAL
        } else {
            OUR_GOAL
        };
        let mut pos: usize = bidx;
        let mut i: u32 = 0;
        while i < in_hand
            invariant
                self.our_turn == t,
                my_goal as int == store_of(t),
                opp_goal as int == opp_store_of(t),
                bucket < 14,
                in_hand == s[bucket as int],
                self.board@.len() == 14,
                i <= in_hand,
                pos < 14,
                pos as int != opp_store_of(t),
                land_spot(bucket as int, in_hand as nat, t) == land_spot(
                    pos as int,
                    (in_hand - i) as nat,
                    t,
                ),
                sow_board(s0, bucket as int, in_hand as nat, t) == sow_board(
                    self.board@,
                    pos as int,
                    (in_hand - i) as nat,
                    t,
                ),
                range_sum(self.board@, 0, 14) == range_sum(s0, 0, 14) + i,
                range_sum(s0, 0, 14) + in_hand <= MAX_TOTAL,
            decreases in_hand - i,
        {
            let ghost prev = self.board@;
            let ghost ppos = pos as int;
            pos = pos + 1;
            if pos == BOARD_SPOTS {
                pos = 0;
            }
            if pos == opp_goal {
                pos = pos + 1;
                if pos == BOARD_SPOTS {
                    pos = 0;
                }
            }
            proof {
                assert(pos as int == next_spot(ppos, t));
                lemma_range_sum_elem(prev, 0, 14, pos as int);
            }
            let c = self.board[pos];
            self.board.set(pos, c + 1);
            proof {
                lemma_range_sum_update(prev, 0, 14, pos as int, (c + 1) as u32);
                let m = (in_hand - i) as nat;
                assert(sow_board(prev, ppos, m, t) == sow_board(
                    prev.update(next_spot(ppos, t), (prev[next_spot(ppos, t)] + 1) as u32),
                    next_spot(ppos, t),
                    (m - 1) as nat,
                    t,
                ));
                assert(land_spot(ppos, m, t) == land_spot(next_spot(ppos, t), (m - 1) as nat, t));
            }
            i = i + 1;
        }
        let ghost s1 = self.board@;
        proof {
            assert(sow_board(s1, pos as int, 0, t) == s1);
            assert(land_spot(pos as int, 0, t) == pos as int);
            assert(s1 == spots_after_sow(s, bucket as int, t));
            assert(pos as int == landing(s, bucket as int, t));
            assert(range_sum(s1, 0, 14) == total);
        }
        let free_turn = pos == my_goal;
        if !free_turn {
            let own_side = if self.our_turn {
                pos < 6
            } else {
                pos >= 7 && pos < 13
            };
            if own_side && self.board[pos] == 1 {
                let op = BOARD_SPOTS - pos - 2;
                if self.board[op] != 0 {
                    proof {
                        lemma_range_sum_elem(s1, 0, 14, op as int);
                        lemma_range_sum_elem(s1, 0, 14, pos as int);
                        lemma_range_sum_elem(s1, 0, 14, my_goal as int);
                    }
                    let gained = self.board[op] + self.board[pos];
                    self.board.set(op, 0);
                    self.board.set(pos, 0);
                    let cur = self.board[my_goal];
                    self.board.set(my_goal, cur + gained);
                    proof {
                        assert(captures(s1, pos as int, t));
                        assert(self.board@ == after_capture(s1, pos as int, t));
                    }
                }
            }
        }
        proof {
            assert(self.board@ == after_capture(s1, pos as int, t));
            lemma_after_capture_props(s1, pos as int, t);
        }
        let ghost s2 = self.board@;
        if self.game_is_done() {
            self.clear_board_to_sides();
            proof {
                assert(done_spec(s2));
                assert(self.board@ == move_board(s, bucket as int, t));
            }
            return None;
        }
        if !free_turn {
            self.our_turn = !self.our_turn;
        }
        Some(free_turn)
    }

    /// Build a board from a fourteen-entry snapshot, given in the order:
    /// opponent's store, the first player's six pits, the opponent's six
    /// pits, the first player's store.  Any other number of entries is a
    /// structural error.
    pub fn new_intermediate(items: &Vec<u8>, our_turn: bool) -> (r: Result<Board, BoardError>)
        ensures
            items@.len() == 14 ==> (r matches Ok(b) && b.wf() && b.our_turn == our_turn
                && b.board@ == snapshot_board(items@)),
            items@.len() != 14 ==> r == Err::<Board, BoardError>(BoardError::StructuralInput),
    {
        if items.len() != BOARD_SPOTS {
            return Err(BoardError::StructuralInput);
        }
        let mut spots: Vec<u32> = Vec::new();
        let mut k: usize = 0;
        while k < BOARD_SPOTS
            invariant
                k <= 14,
                items@.len() == 14,
                spots@.len() == k,
                forall|j: int| 0 <= j < k ==> spots@[j] == snapshot_board(items@)[j],
            decreases 14 - k,
        {
            let src: usize = if k == THEIR_GOAL {
                0
            } else if k == OUR_GOAL {
                13
            } else if k <= 5 {
                k + 1
            } else {
                k
            };
            spots.push(items[src] as u32);
            k = k + 1;
        }
        proof {
            assert(spots@ =~= snapshot_board(items@));
            assert(forall|j: int| 0 <= j < 14 ==> spots@[j] < 256);
            lemma_range_sum_bounded_bytes(spots@, 0, 14);
        }
        Ok(Board { board: spots, our_turn })
    }

    /// Rebuild a board by replaying a move log against a fresh board whose
    /// first mover is `i_start`.  The outcome of each replayed move is
    /// discarded; the first logged move that is not legal for the position
    /// it is played from stops the replay with an error.
    pub fn new_with_turns(turns: &Vec<u8>, i_start: bool) -> (r: Result<Board, BoardError>)
        ensures
            replay_ok(starting_board(), i_start, turns@) ==> (r matches Ok(b) && b.wf()
                && b.board@ == replay_board(starting_board(), i_start, turns@)
                && b.our_turn == replay_turn(starting_board(), i_start, turns@)),
            !replay_ok(starting_board(), i_start, turns@) ==> r == Err::<Board, BoardError>(
                BoardError::IllegalMove,
            ),
    {
        let mut board = Board::new(i_start);
        let n = turns.len();
        proof {
            assert(turns@.skip(0) =~= turns@);
        }
        let mut k: usize = 0;
        while k < n
            invariant
                k <= n,
                n == turns@.len(),
                board.wf(),
                replay_ok(starting_board(), i_start, turns@) == replay_ok(
                    board.board@,
                    board.our_turn,
                    turns@.skip(k as int),
                ),
                replay_board(starting_board(), i_start, turns@) == replay_board(
                    board.board@,
                    board.our_turn,
                    turns@.skip(k as int),
                ),
                replay_turn(starting_board(), i_start, turns@) == replay_turn(
                    board.board@,
                    board.our_turn,
                    turns@.skip(k as int),
                ),
            decreases n - k,
        {
            let ghost rest = turns@.skip(k as int);
            proof {
                assert(rest.len() == n - k);
                assert(rest[0] == turns@[k as int]);
                assert(rest.drop_first() =~= turns@.skip(k as int + 1));
            }
            let m = turns[k];
            if !board.move_is_valid(m) {
                return Err(BoardError::IllegalMove);
            }
            let _ = board.make_move(m);
            k = k + 1;
        }
        proof {
            assert(turns@.skip(n as int) =~= Seq::<u8>::empty());
        }
        Ok(board)
    }
}

} // verus!
