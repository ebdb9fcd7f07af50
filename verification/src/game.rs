//! Whole games: what holds of every position that play can reach.

use vstd::prelude::*;
use crate::position::{lemma_after_drop, Position, COLUMNS, ROWS};

verus! {

impl Position {
    /// The position reached from the start when drops into the columns
    /// `drops` are asked for in order. A drop into a full column is asked
    /// for in vain and places no piece.
    pub open spec fn replay(drops: Seq<int>) -> Position
        decreases drops.len(),
    {
        if drops.len() == 0 {
            Position::start()
        } else {
            Position::replay(drops.drop_last()).after_drop(drops.last())
        }
    }

    /// The position after `n` drops into column `c` were asked for.
    pub open spec fn after_drops_into(self, c: int, n: nat) -> Position
        decreases n,
    {
        if n == 0 {
            self
        } else {
            self.after_drops_into(c, (n - 1) as nat).after_drop(c)
        }
    }
}

/// Whether every entry of `drops` names a column of the grid.
pub open spec fn on_grid(drops: Seq<int>) -> bool {
    forall|k: int| 0 <= k < drops.len() ==> 0 <= #[trigger] drops[k] < COLUMNS
}

/// Whether every drop of `drops` found room, so that drop `k` placed piece
/// `k`.
pub open spec fn all_placed(drops: Seq<int>) -> bool {
    forall|k: int|
        0 <= k < drops.len() ==> (#[trigger] Position::replay(drops.take(k))).accepts(drops[k])
}

/// One more drop asked for is one more step from the position reached.
pub proof fn lemma_replay_push(drops: Seq<int>, c: int)
    ensures
        Position::replay(drops.push(c)) == Position::replay(drops).after_drop(c),
{
    assert(drops.push(c).drop_last() =~= drops);
}

/// Every position that play reaches is valid.
pub proof fn lemma_replay_valid(drops: Seq<int>)
    requires
        on_grid(drops),
    ensures
        Position::replay(drops).valid(),
    decreases drops.len(),
{
    if drops.len() > 0 {
        lemma_replay_valid(drops.drop_last());
        lemma_after_drop(Position::replay(drops.drop_last()), drops.last());
    }
}

/// A column never gets lower in the course of a game, and never higher than
/// six pieces: its height after the first `k` drops is at most its height
/// after all of them.
pub proof fn lemma_heights_never_shrink(drops: Seq<int>, k: int, c: int)
    requires
        on_grid(drops),
        0 <= k <= drops.len(),
        0 <= c < COLUMNS,
    ensures
        Position::replay(drops.take(k)).height(c) <= Position::replay(drops).height(c) <= ROWS,
    decreases drops.len(),
{
    lemma_replay_valid(drops);
    if k < drops.len() {
        let shorter = drops.drop_last();
        assert(shorter.take(k) =~= drops.take(k));
        lemma_heights_never_shrink(shorter, k, c);
        lemma_replay_valid(shorter);
        lemma_after_drop(Position::replay(shorter), drops.last());
    } else {
        assert(drops.take(k) =~= drops);
    }
}

/// A piece stays where it was placed and stays its owner's: what a player
/// owns after the first `k` drops, the player owns after all of them.
pub proof fn lemma_pieces_stay(drops: Seq<int>, k: int, player: int, c: int, r: int)
    requires
        on_grid(drops),
        0 <= k <= drops.len(),
        Position::replay(drops.take(k)).owned(player, c, r),
    ensures
        Position::replay(drops).owned(player, c, r),
    decreases drops.len(),
{
    if k < drops.len() {
        let shorter = drops.drop_last();
        assert(shorter.take(k) =~= drops.take(k));
        lemma_pieces_stay(shorter, k, player, c, r);
        lemma_replay_valid(shorter);
        lemma_after_drop(Position::replay(shorter), drops.last());
    } else {
        assert(drops.take(k) =~= drops);
    }
}

/// Players take turns. When drop `k` finds room, its piece lands on top of
/// its column and belongs, from then on, to player `n % 2`, where `n` is the
/// number of pieces placed before it.
pub proof fn lemma_turns_alternate(drops: Seq<int>, k: int)
    requires
        on_grid(drops),
        0 <= k < drops.len(),
        Position::replay(drops.take(k)).accepts(drops[k]),
    ensures
        ({
            let before = Position::replay(drops.take(k));
            Position::replay(drops).owned(
                (before.pieces() % 2) as int,
                drops[k],
                before.height(drops[k]) as int,
            )
        }),
{
    let before = Position::replay(drops.take(k));
    let upto = drops.take(k + 1);
    assert(upto.drop_last() =~= drops.take(k));
    assert(upto.last() == drops[k]);
    assert(on_grid(drops.take(k)));
    lemma_replay_valid(drops.take(k));
    lemma_after_drop(before, drops[k]);
    lemma_pieces_stay(
        drops,
        k + 1,
        (before.pieces() % 2) as int,
        drops[k],
        before.height(drops[k]) as int,
    );
}

/// When every drop finds room, the position holds as many pieces as drops
/// were made.
pub proof fn lemma_pieces_counted(drops: Seq<int>)
    requires
        on_grid(drops),
        all_placed(drops),
    ensures
        Position::replay(drops).pieces() == drops.len(),
    decreases drops.len(),
{
    if drops.len() > 0 {
        let shorter = drops.drop_last();
        assert forall|k: int| 0 <= k < shorter.len() implies (#[trigger] Position::replay(
            shorter.take(k),
        )).accepts(shorter[k]) by {
            assert(shorter.take(k) =~= drops.take(k));
            assert(Position::replay(drops.take(k)).accepts(drops[k]));
        }
        lemma_pieces_counted(shorter);
        lemma_replay_valid(shorter);
        assert(drops.take(drops.len() - 1) =~= shorter);
        assert(Position::replay(drops.take(drops.len() - 1)).accepts(drops[drops.len() - 1]));
        lemma_after_drop(Position::replay(shorter), drops.last());
    }
}

/// When every drop finds room, piece `k` in the order of placing belongs to
/// player `k % 2`.
pub proof fn lemma_piece_belongs_to_its_turn(drops: Seq<int>, k: int)
    requires
        on_grid(drops),
        all_placed(drops),
        0 <= k < drops.len(),
    ensures
        Position::replay(drops).owned(
            k % 2,
            drops[k],
            Position::replay(drops.take(k)).height(drops[k]) as int,
        ),
{
    let first = drops.take(k);
    assert forall|j: int| 0 <= j < first.len() implies (#[trigger] Position::replay(
        first.take(j),
    )).accepts(first[j]) by {
        assert(first.take(j) =~= drops.take(j));
        assert(Position::replay(drops.take(j)).accepts(drops[j]));
    }
    lemma_pieces_counted(first);
    assert(Position::replay(drops.take(k)).accepts(drops[k]));
    lemma_turns_alternate(drops, k);
}

/// Drops into one column pile up until the column holds six pieces, and no
/// further: after `n` of them the column is `n` higher, or full.
pub proof fn lemma_column_fills(p: Position, c: int, n: nat)
    requires
        p.valid(),
        0 <= c < COLUMNS,
    ensures
        p.after_drops_into(c, n).valid(),
        p.after_drops_into(c, n).height(c) == if p.height(c) + n <= ROWS {
            p.height(c) + n
        } else {
            ROWS as nat
        },
    decreases n,
{
    if n > 0 {
        lemma_column_fills(p, c, (n - 1) as nat);
        lemma_after_drop(p.after_drops_into(c, (n - 1) as nat), c);
    }
}

/// Six drops fill an empty column, and a seventh changes nothing.
pub proof fn lemma_seventh_drop_in_vain(p: Position, c: int)
    requires
        p.valid(),
        0 <= c < COLUMNS,
        p.height(c) == 0,
    ensures
        forall|n: nat| n < 6 ==> (#[trigger] p.after_drops_into(c, n)).accepts(c),
        !p.after_drops_into(c, 6).accepts(c),
        p.after_drops_into(c, 7) == p.after_drops_into(c, 6),
{
    assert forall|n: nat| n < 6 implies (#[trigger] p.after_drops_into(c, n)).accepts(c) by {
        lemma_column_fills(p, c, n);
    }
    lemma_column_fills(p, c, 6);
    assert(p.after_drops_into(c, 7) == p.after_drops_into(c, 6).after_drop(c));
}

} // verus!
