//! The mathematical model of a mancala move: the ring layout, the sowing
//! walk with the opponent-store skip, the capture and extra-turn rules, the
//! end-of-game test and the sweep, plus the proved laws of the game (seed
//! conservation, store monotonicity, the extra-turn, capture and sweep
//! rules).
//!
//! The board is modelled as a sequence of fourteen counters: slots 0 to 5
//! are the first player's pits, slot 6 its store, slots 7 to 12 the second
//! player's pits, slot 13 its store.

use crate::sums::{
    lemma_range_sum_elem, lemma_range_sum_nonneg, lemma_range_sum_split, lemma_range_sum_update,
    lemma_range_sum_zero, range_sum,
};
use vstd::prelude::*;

verus! {

/// Number of slots on the ring: six pits and a store for each player.
pub const BOARD_SPOTS: usize = 14;

/// Index of the first player's store.
pub const OUR_GOAL: usize = 6;

/// Index of the second player's store.
pub const THEIR_GOAL: usize = 13;

/// Every board this library builds keeps its total seed count at or below
/// this bound, which keeps all counter arithmetic inside `u32`.
pub const MAX_TOTAL: u32 = 0xFFFF;

/// The store of the side to move (`true` means the first player).
pub open spec fn store_of(our_turn: bool) -> int {
    if our_turn {
        6
    } else {
        13
    }
}

/// The opponent's store, which the sowing walk skips.
pub open spec fn opp_store_of(our_turn: bool) -> int {
    if our_turn {
        13
    } else {
        6
    }
}

/// Does slot `i` hold one of the mover's own six pits (stores excluded)?
pub open spec fn is_own_pit(our_turn: bool, i: int) -> bool {
    if our_turn {
        0 <= i <= 5
    } else {
        7 <= i <= 12
    }
}

/// The pit directly opposite pit `i`; for every pit, opposite(opposite(i))
/// gives `i` back.
pub open spec fn opposite(i: int) -> int {
    12 - i
}

/// One step of the sowing walk: advance one slot around the ring, and step
/// once more when that slot is the opponent's store.
pub open spec fn next_spot(pos: int, our_turn: bool) -> int {
    let p = (pos + 1) % 14;
    if p == opp_store_of(our_turn) {
        (p + 1) % 14
    } else {
        p
    }
}

/// Where the walk stands after dropping `n` seeds, one per step, starting
/// just after `pos`.
pub open spec fn land_spot(pos: int, n: nat, our_turn: bool) -> int
    decreases n,
{
    if n == 0 {
        pos
    } else {
        land_spot(next_spot(pos, our_turn), (n - 1) as nat, our_turn)
    }
}

/// The board after dropping `n` seeds, one per reached slot, starting just
/// after `pos`.
pub open spec fn sow_board(s: Seq<u32>, pos: int, n: nat, our_turn: bool) -> Seq<u32>
    decreases n,
{
    if n == 0 {
        s
    } else {
        let p = next_spot(pos, our_turn);
        sow_board(s.update(p, (s[p] + 1) as u32), p, (n - 1) as nat, our_turn)
    }
}

/// A move is legal exactly when the chosen slot is one of the mover's own
/// six pits and is not empty.
pub open spec fn valid_move(s: Seq<u32>, our_turn: bool, b: int) -> bool {
    is_own_pit(our_turn, b) && s[b] != 0
}

/// The board right after the sowing phase of a move from pit `b`: the pit is
/// emptied and its seeds walk the ring.
pub open spec fn spots_after_sow(s: Seq<u32>, b: int, our_turn: bool) -> Seq<u32> {
    sow_board(s.update(b, 0), b, s[b] as nat, our_turn)
}

/// The slot the last sown seed lands in.
pub open spec fn landing(s: Seq<u32>, b: int, our_turn: bool) -> int {
    land_spot(b, s[b] as nat, our_turn)
}

/// The capture rule fires when the last seed landed in one of the mover's
/// own pits, that pit now holds exactly one seed (it was empty before), and
/// the pit directly opposite is not empty.
pub open spec fn captures(s1: Seq<u32>, land: int, our_turn: bool) -> bool {
    is_own_pit(our_turn, land) && s1[land] == 1 && s1[opposite(land)] != 0
}

/// The sown board after the capture rule: when it fires, the landing pit and
/// the opposite pit are emptied and the mover's store takes both contents.
pub open spec fn after_capture(s1: Seq<u32>, land: int, our_turn: bool) -> Seq<u32> {
    if captures(s1, land, our_turn) {
        let gained = s1[opposite(land)] + s1[land];
        s1.update(opposite(land), 0).update(land, 0).update(
            store_of(our_turn),
            (s1[store_of(our_turn)] + gained) as u32,
        )
    } else {
        s1
    }
}

/// The game is over exactly when one side's six pits are all empty.
pub open spec fn done_spec(s: Seq<u32>) -> bool {
    range_sum(s, 0, 6) == 0 || range_sum(s, 7, 13) == 0
}

/// The end-of-game sweep: each store absorbs its own side's remaining pit
/// contents and all twelve pits are emptied.
pub open spec fn sweep_spec(s: Seq<u32>) -> Seq<u32> {
    Seq::new(
        14,
        |i: int|
            if i == 6 {
                (s[6] + range_sum(s, 0, 6)) as u32
            } else if i == 13 {
                (s[13] + range_sum(s, 7, 13)) as u32
            } else {
                0u32
            },
    )
}

/// The board after a full move from pit `b`: sowing, then the capture rule,
/// then, when the move left a side empty, the sweep.
pub open spec fn move_board(s: Seq<u32>, b: int, our_turn: bool) -> Seq<u32> {
    let s2 = after_capture(spots_after_sow(s, b, our_turn), landing(s, b, our_turn), our_turn);
    if done_spec(s2) {
        sweep_spec(s2)
    } else {
        s2
    }
}

/// The side to move after a move from pit `b`: unchanged when the move ended
/// the game or when the last seed landed in the mover's own store, otherwise
/// the other side.
pub open spec fn move_turn(s: Seq<u32>, b: int, our_turn: bool) -> bool {
    let s2 = after_capture(spots_after_sow(s, b, our_turn), landing(s, b, our_turn), our_turn);
    if done_spec(s2) {
        our_turn
    } else if landing(s, b, our_turn) == store_of(our_turn) {
        our_turn
    } else {
        !our_turn
    }
}

/// What a completed move reports: `None` when the move ended the game,
/// otherwise `Some(extra_turn)`.
pub open spec fn move_outcome(s: Seq<u32>, b: int, our_turn: bool) -> Option<bool> {
    let s2 = after_capture(spots_after_sow(s, b, our_turn), landing(s, b, our_turn), our_turn);
    if done_spec(s2) {
        None
    } else {
        Some(landing(s, b, our_turn) == store_of(our_turn))
    }
}

/// A board the engine can work on: fourteen slots whose seed total is small
/// enough that no counter arithmetic can leave `u32`.
pub open spec fn wf_spots(s: Seq<u32>) -> bool {
    s.len() == 14 && range_sum(s, 0, 14) <= MAX_TOTAL
}

/// The standard opening layout: four seeds in each pit, empty stores.
pub open spec fn starting_board() -> Seq<u32> {
    Seq::new(
        14,
        |i: int|
            if i == 6 || i == 13 {
                0u32
            } else {
                4u32
            },
    )
}

/// Internal layout of a fourteen-entry snapshot, given in the order:
/// opponent's store, the first player's six pits, the opponent's six pits,
/// the first player's store.
pub open spec fn snapshot_board(items: Seq<u8>) -> Seq<u32> {
    Seq::new(
        14,
        |i: int|
            if i == 13 {
                items[0] as u32
            } else if i == 6 {
                items[13] as u32
            } else if i <= 5 {
                items[i + 1] as u32
            } else {
                items[i] as u32
            },
    )
}

/// Is every logged move legal against the position the earlier moves
/// produced?
pub open spec fn replay_ok(s: Seq<u32>, our_turn: bool, moves: Seq<u8>) -> bool
    decreases moves.len(),
{
    moves.len() == 0 || (valid_move(s, our_turn, moves[0] as int) && replay_ok(
        move_board(s, moves[0] as int, our_turn),
        move_turn(s, moves[0] as int, our_turn),
        moves.drop_first(),
    ))
}

/// The board a legal move log leads to.
pub open spec fn replay_board(s: Seq<u32>, our_turn: bool, moves: Seq<u8>) -> Seq<u32>
    decreases moves.len(),
{
    if moves.len() == 0 {
        s
    } else {
        replay_board(
            move_board(s, moves[0] as int, our_turn),
            move_turn(s, moves[0] as int, our_turn),
            moves.drop_first(),
        )
    }
}

/// The side to move after a legal move log.
pub open spec fn replay_turn(s: Seq<u32>, our_turn: bool, moves: Seq<u8>) -> bool
    decreases moves.len(),
{
    if moves.len() == 0 {
        our_turn
    } else {
        replay_turn(
            move_board(s, moves[0] as int, our_turn),
            move_turn(s, moves[0] as int, our_turn),
            moves.drop_first(),
        )
    }
}

/// One walk step stays on the ring and never stands on the opponent's store.
pub(crate) proof fn lemma_next_spot(pos: int, our_turn: bool)
    requires
        0 <= pos < 14,
    ensures
        0 <= next_spot(pos, our_turn) < 14,
        next_spot(pos, our_turn) != opp_store_of(our_turn),
{
}

/// Sowing `n` seeds keeps fourteen slots, adds exactly `n` to the board
/// total, never takes seeds out of any slot, and lands on the ring.
pub(crate) proof fn lemma_sow_effects(s: Seq<u32>, pos: int, n: nat, our_turn: bool)
    requires
        s.len() == 14,
        0 <= pos < 14,
        range_sum(s, 0, 14) + n <= u32::MAX,
    ensures
        sow_board(s, pos, n, our_turn).len() == 14,
        range_sum(sow_board(s, pos, n, our_turn), 0, 14) == range_sum(s, 0, 14) + n,
        forall|j: int| 0 <= j < 14 ==> sow_board(s, pos, n, our_turn)[j] >= s[j],
        0 <= land_spot(pos, n, our_turn) < 14,
    decreases n,
{
    if n > 0 {
        let p = next_spot(pos, our_turn);
        lemma_next_spot(pos, our_turn);
        lemma_range_sum_elem(s, 0, 14, p);
        let s_next = s.update(p, (s[p] + 1) as u32);
        lemma_range_sum_update(s, 0, 14, p, (s[p] + 1) as u32);
        lemma_sow_effects(s_next, p, (n - 1) as nat, our_turn);
        assert(sow_board(s, pos, n, our_turn) == sow_board(s_next, p, (n - 1) as nat, our_turn));
        assert forall|j: int| 0 <= j < 14 implies sow_board(s, pos, n, our_turn)[j] >= s[j] by {
            assert(sow_board(s_next, p, (n - 1) as nat, our_turn)[j] >= s_next[j]);
            assert(s_next[j] >= s[j]);
        }
    }
}

/// What the capture rule does to a sown board: the total is unchanged, the
/// stores never shrink, and when the rule fires the landing and opposite
/// pits are emptied into the mover's store.
pub(crate) proof fn lemma_after_capture_props(s1: Seq<u32>, land: int, our_turn: bool)
    requires
        s1.len() == 14,
        0 <= land < 14,
        range_sum(s1, 0, 14) <= MAX_TOTAL,
    ensures
        after_capture(s1, land, our_turn).len() == 14,
        range_sum(after_capture(s1, land, our_turn), 0, 14) == range_sum(s1, 0, 14),
        after_capture(s1, land, our_turn)[6] >= s1[6],
        after_capture(s1, land, our_turn)[13] >= s1[13],
        captures(s1, land, our_turn) ==> ({
            let s2 = after_capture(s1, land, our_turn);
            s2[land] == 0 && s2[opposite(land)] == 0 && s2[store_of(our_turn)] == s1[store_of(
                our_turn,
            )] + s1[opposite(land)] + 1
        }),
        !captures(s1, land, our_turn) ==> after_capture(s1, land, our_turn) == s1,
{
    if captures(s1, land, our_turn) {
        let op = opposite(land);
        let goal = store_of(our_turn);
        let gained = s1[op] + s1[land];
        lemma_range_sum_elem(s1, 0, 14, op);
        lemma_range_sum_elem(s1, 0, 14, land);
        lemma_range_sum_elem(s1, 0, 14, goal);
        let u1 = s1.update(op, 0);
        lemma_range_sum_update(s1, 0, 14, op, 0);
        let u2 = u1.update(land, 0);
        lemma_range_sum_update(u1, 0, 14, land, 0);
        let u3 = u2.update(goal, (s1[goal] + gained) as u32);
        lemma_range_sum_update(u2, 0, 14, goal, (s1[goal] + gained) as u32);
    }
}

/// The sweep keeps the board total, empties every pit, and adds each side's
/// remaining pit contents to its own store.
pub(crate) proof fn lemma_sweep_props(s: Seq<u32>)
    requires
        s.len() == 14,
        range_sum(s, 0, 14) <= u32::MAX,
    ensures
        sweep_spec(s).len() == 14,
        range_sum(sweep_spec(s), 0, 14) == range_sum(s, 0, 14),
        forall|j: int| 0 <= j < 14 && j != 6 && j != 13 ==> sweep_spec(s)[j] == 0,
        sweep_spec(s)[6] == s[6] + range_sum(s, 0, 6),
        sweep_spec(s)[13] == s[13] + range_sum(s, 7, 13),
{
    let w = sweep_spec(s);
    lemma_range_sum_split(s, 0, 6, 14);
    lemma_range_sum_split(s, 6, 7, 14);
    lemma_range_sum_split(s, 7, 13, 14);
    assert(range_sum(s, 6, 7) == s[6] + range_sum(s, 7, 7));
    assert(range_sum(s, 13, 14) == s[13] + range_sum(s, 14, 14));
    lemma_range_sum_nonneg(s, 0, 6);
    lemma_range_sum_nonneg(s, 7, 13);
    lemma_range_sum_zero(w, 0, 6);
    lemma_range_sum_zero(w, 7, 13);
    lemma_range_sum_split(w, 0, 6, 14);
    lemma_range_sum_split(w, 6, 7, 14);
    lemma_range_sum_split(w, 7, 13, 14);
    assert(range_sum(w, 6, 7) == w[6] + range_sum(w, 7, 7));
    assert(range_sum(w, 13, 14) == w[13] + range_sum(w, 14, 14));
}

/// The sowing phase of a legal move keeps fourteen slots and the board
/// total, lands on the ring, and takes seeds only out of the chosen pit.
pub(crate) proof fn lemma_move_setup(s: Seq<u32>, b: int, our_turn: bool)
    requires
        wf_spots(s),
        valid_move(s, our_turn, b),
    ensures
        spots_after_sow(s, b, our_turn).len() == 14,
        range_sum(spots_after_sow(s, b, our_turn), 0, 14) == range_sum(s, 0, 14),
        0 <= landing(s, b, our_turn) < 14,
        forall|j: int|
            0 <= j < 14 && j != b ==> spots_after_sow(s, b, our_turn)[j] >= s[j],
{
    let s0 = s.update(b, 0);
    lemma_range_sum_update(s, 0, 14, b, 0);
    lemma_sow_effects(s0, b, s[b] as nat, our_turn);
    assert forall|j: int|
        0 <= j < 14 && j != b implies spots_after_sow(s, b, our_turn)[j] >= s[j] by {
        assert(sow_board(s0, b, s[b] as nat, our_turn)[j] >= s0[j]);
        assert(s0[j] == s[j]);
    }
}

/// Seed conservation: a legal move never changes the total number of seeds
/// on the board; sowing, capture and the end-of-game sweep only shift them.
pub proof fn lemma_move_preserves_total(s: Seq<u32>, b: int, our_turn: bool)
    requires
        wf_spots(s),
        valid_move(s, our_turn, b),
    ensures
        move_board(s, b, our_turn).len() == 14,
        range_sum(move_board(s, b, our_turn), 0, 14) == range_sum(s, 0, 14),
        wf_spots(move_board(s, b, our_turn)),
{
    lemma_move_setup(s, b, our_turn);
    let s1 = spots_after_sow(s, b, our_turn);
    let land = landing(s, b, our_turn);
    lemma_after_capture_props(s1, land, our_turn);
    let s2 = after_capture(s1, land, our_turn);
    if done_spec(s2) {
        lemma_sweep_props(s2);
    }
}

/// Both stores are non-decreasing across any completed move: seeds reach a
/// store by sowing, capture or the sweep, and never leave one.
pub proof fn lemma_move_stores_non_decreasing(s: Seq<u32>, b: int, our_turn: bool)
    requires
        wf_spots(s),
        valid_move(s, our_turn, b),
    ensures
        move_board(s, b, our_turn)[6] >= s[6],
        move_board(s, b, our_turn)[13] >= s[13],
{
    lemma_move_setup(s, b, our_turn);
    let s1 = spots_after_sow(s, b, our_turn);
    let land = landing(s, b, our_turn);
    lemma_after_capture_props(s1, land, our_turn);
    let s2 = after_capture(s1, land, our_turn);
    if done_spec(s2) {
        lemma_sweep_props(s2);
        lemma_range_sum_nonneg(s2, 0, 6);
        lemma_range_sum_nonneg(s2, 7, 13);
    }
}

/// Landing the last seed in the mover's own store never hands the turn
/// over; it grants an extra turn, unless that same move emptied a side, in
/// which case the game is over instead.
pub proof fn lemma_own_store_extra_turn(s: Seq<u32>, b: int, our_turn: bool)
    requires
        wf_spots(s),
        valid_move(s, our_turn, b),
        landing(s, b, our_turn) == store_of(our_turn),
    ensures
        move_turn(s, b, our_turn) == our_turn,
        ({
            let s2 = after_capture(spots_after_sow(s, b, our_turn), landing(s, b, our_turn), our_turn);
            &&& !done_spec(s2) ==> move_outcome(s, b, our_turn) == Some(true)
            &&& done_spec(s2) ==> move_outcome(s, b, our_turn) == None::<bool>
        }),
{
    assert(!captures(spots_after_sow(s, b, our_turn), landing(s, b, our_turn), our_turn));
}

/// The capture rule: when the last seed lands in an own pit that was empty
/// before the move and the opposite pit is not empty, both pits are emptied
/// and the mover's store grows by exactly one plus the opposite pit's prior
/// count.
pub proof fn lemma_capture_rule(s: Seq<u32>, b: int, our_turn: bool)
    requires
        wf_spots(s),
        valid_move(s, our_turn, b),
        is_own_pit(our_turn, landing(s, b, our_turn)),
        spots_after_sow(s, b, our_turn)[landing(s, b, our_turn)] == 1,
        spots_after_sow(s, b, our_turn)[opposite(landing(s, b, our_turn))] != 0,
    ensures
        ({
            let s1 = spots_after_sow(s, b, our_turn);
            let land = landing(s, b, our_turn);
            let s2 = after_capture(s1, land, our_turn);
            &&& s2[land] == 0
            &&& s2[opposite(land)] == 0
            &&& s2[store_of(our_turn)] == s1[store_of(our_turn)] + s1[opposite(land)] + 1
            &&& !done_spec(s2) ==> move_board(s, b, our_turn) == s2
        }),
{
    lemma_move_setup(s, b, our_turn);
    lemma_after_capture_props(
        spots_after_sow(s, b, our_turn),
        landing(s, b, our_turn),
        our_turn,
    );
}

/// The opening layout has fourteen slots holding 48 seeds in all.
pub proof fn lemma_starting_total()
    ensures
        wf_spots(starting_board()),
        range_sum(starting_board(), 0, 14) == 48,
{
    let s = starting_board();
    assert(range_sum(s, 14, 14) == 0);
    assert(range_sum(s, 13, 14) == 0);
    assert(range_sum(s, 12, 14) == 4);
    assert(range_sum(s, 11, 14) == 8);
    assert(range_sum(s, 10, 14) == 12);
    assert(range_sum(s, 9, 14) == 16);
    assert(range_sum(s, 8, 14) == 20);
    assert(range_sum(s, 7, 14) == 24);
    assert(range_sum(s, 6, 14) == 24);
    assert(range_sum(s, 5, 14) == 28);
    assert(range_sum(s, 4, 14) == 32);
    assert(range_sum(s, 3, 14) == 36);
    assert(range_sum(s, 2, 14) == 40);
    assert(range_sum(s, 1, 14) == 44);
    assert(range_sum(s, 0, 14) == 48);
}

/// Seed conservation over every reachable state: any legal sequence of
/// moves, played from any well-formed board, leaves the board total exactly
/// where it started.
pub proof fn lemma_replay_preserves_total(s: Seq<u32>, our_turn: bool, moves: Seq<u8>)
    requires
        wf_spots(s),
        replay_ok(s, our_turn, moves),
    ensures
        wf_spots(replay_board(s, our_turn, moves)),
        range_sum(replay_board(s, our_turn, moves), 0, 14) == range_sum(s, 0, 14),
    decreases moves.len(),
{
    if moves.len() > 0 {
        let b = moves[0] as int;
        lemma_move_preserves_total(s, b, our_turn);
        lemma_replay_preserves_total(
            move_board(s, b, our_turn),
            move_turn(s, b, our_turn),
            moves.drop_first(),
        );
    }
}

/// The end-of-game sweep: once a move leaves one side's six pits all empty,
/// the game ends, every pit reads zero afterward, and each store has
/// absorbed its own side's remaining seeds.
pub proof fn lemma_game_end_sweep(s: Seq<u32>, b: int, our_turn: bool)
    requires
        wf_spots(s),
        valid_move(s, our_turn, b),
        done_spec(after_capture(spots_after_sow(s, b, our_turn), landing(s, b, our_turn), our_turn)),
    ensures
        move_outcome(s, b, our_turn) == None::<bool>,
        forall|j: int| 0 <= j < 14 && j != 6 && j != 13 ==> move_board(s, b, our_turn)[j] == 0,
        ({
            let s2 = after_capture(spots_after_sow(s, b, our_turn), landing(s, b, our_turn), our_turn);
            &&& move_board(s, b, our_turn)[6] == s2[6] + range_sum(s2, 0, 6)
            &&& move_board(s, b, our_turn)[13] == s2[13] + range_sum(s2, 7, 13)
        }),
{
    lemma_move_setup(s, b, our_turn);
    let s1 = spots_after_sow(s, b, our_turn);
    let land = landing(s, b, our_turn);
    lemma_after_capture_props(s1, land, our_turn);
    lemma_sweep_props(after_capture(s1, land, our_turn));
}

} // verus!
