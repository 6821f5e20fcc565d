//! What holds between the operations of a square set.

use vstd::prelude::*;
use vstd::std_specs::convert::FromSpec;
use vstd::std_specs::ops::BitAndSpec;
use crate::bitboard::BitBoard;
use crate::bits::{lemma_and, lemma_members_injective, lemma_members_zero};

verus! {

/// Two square sets that hold the same squares wrap the same word.
pub proof fn lemma_view_injective(a: BitBoard, b: BitBoard)
    requires
        a@ == b@,
    ensures
        a == b,
{
    lemma_members_injective(a.0, b.0);
}

/// The set that wraps 0 holds no square, and its count is 0.
pub proof fn lemma_empty_set(index: u8)
    ensures
        !BitBoard(0).has_bit(index),
        BitBoard(0)@ == Set::<int>::empty(),
        BitBoard(0)@.len() == 0,
{
    lemma_members_zero();
    if index <= 63 {
        BitBoard(0).lemma_view(index);
    }
}

/// After square `set` is added to the empty set, a query for `asked` finds a
/// square exactly where `asked` is `set`.
pub proof fn lemma_set_then_check(set: u8, asked: u8)
    requires
        set <= 63,
        asked <= 63,
    ensures
        BitBoard(0).with_bit(set).has_bit(asked) <==> asked == set,
{
    lemma_members_zero();
    BitBoard(0).lemma_view(set);
    BitBoard(0).with_bit(set).lemma_view(asked);
}

/// Adding a square that is in the set already changes nothing.
pub proof fn lemma_set_idempotent(board: BitBoard, index: u8)
    requires
        index <= 63,
    ensures
        board.with_bit(index).with_bit(index) == board.with_bit(index),
        board.has_bit(index) ==> board.with_bit(index) == board,
{
    board.lemma_view(index);
    board.with_bit(index).lemma_view(index);
    assert(board.with_bit(index).with_bit(index)@ =~= board.with_bit(index)@);
    lemma_view_injective(board.with_bit(index).with_bit(index), board.with_bit(index));
    if board.has_bit(index) {
        assert(board.with_bit(index)@ =~= board@);
        lemma_view_injective(board.with_bit(index), board);
    }
}

/// A set has at most one lowest square.
pub proof fn lemma_lowest_unique(board: BitBoard, first: u8, second: u8)
    requires
        board.is_lowest(first),
        board.is_lowest(second),
    ensures
        first == second,
{
}

/// In a set that holds square `index` and no other, `index` is the lowest
/// square, and taking it out leaves the empty set.
pub proof fn lemma_pop_single(board: BitBoard, index: u8)
    requires
        index <= 63,
        board@ == Set::<int>::empty().insert(index as int),
    ensures
        board.0 != 0,
        board.is_lowest(index),
        forall|other: u8| board.is_lowest(other) ==> other == index,
        board.without_bit(index) == BitBoard(0),
{
    lemma_members_zero();
    board.lemma_view(index);
    assert forall|other: u8| board.has_bit(other) implies index <= other by {
        board.lemma_view(other);
    }
    assert(board.without_bit(index)@ =~= BitBoard(0)@);
    lemma_view_injective(board.without_bit(index), BitBoard(0));
}

/// Wrapping a raw word and unwrapping it again gives the word back, and so
/// does unwrapping a set and wrapping the word again.
pub proof fn lemma_raw_round_trip(raw: u64, board: BitBoard)
    ensures
        <u64 as FromSpec<BitBoard>>::from_spec(<BitBoard as FromSpec<u64>>::from_spec(raw)) == raw,
        <BitBoard as FromSpec<u64>>::from_spec(<u64 as FromSpec<BitBoard>>::from_spec(board))
            == board,
{
}

/// Intersection does not depend on the order of its operands, a set
/// intersected with itself is that set, and the result holds the squares
/// that are in both.
pub proof fn lemma_intersection(a: BitBoard, b: BitBoard)
    ensures
        a.bitand_spec(b) == b.bitand_spec(a),
        a.bitand_spec(a) == a,
        a.bitand_spec(b)@ == a@.intersect(b@),
{
    let (x, y) = (a.0, b.0);
    assert(x & y == y & x) by (bit_vector);
    assert(x & x == x) by (bit_vector);
    lemma_and(a.0, b.0);
}

} // verus!
