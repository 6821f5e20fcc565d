//! The square set itself.

use vstd::prelude::*;
use crate::bits::{
    lemma_clear_lowest, lemma_clear_mask, lemma_lowest, lemma_mask_test,
    lemma_members_bounded, lemma_members_zero, lemma_or_mask, lemma_toggle_set_bit, mask, members,
};
use crate::error::ChessError;

verus! {

/// A set of squares of an 8x8 board, one bit per square.
///
/// Bit `i` of the wrapped word, counted from the least significant bit, says
/// whether square `i` is in the set. Every 64-bit word is a valid set.
#[derive(Debug, Copy, Clone, PartialEq, Eq, Structural)]
pub struct BitBoard(pub u64);

impl View for BitBoard {
    type V = Set<int>;

    /// The squares in the set, each a number from 0 to 63.
    open spec fn view(&self) -> Set<int> {
        members(self.0)
    }
}

/// The index of the square on `file` and `rank`, both counted from 0.
pub open spec fn square_index(file: int, rank: int) -> int {
    rank * 8 + file
}

impl BitBoard {
    /// Square `index` is in the set; no index above 63 is.
    pub open spec fn has_bit(self, index: u8) -> bool {
        index <= 63 && self.0 & mask(index) != 0
    }

    /// The set with square `index` added.
    pub open spec fn with_bit(self, index: u8) -> BitBoard
        recommends
            index <= 63,
    {
        BitBoard(self.0 | mask(index))
    }

    /// The set with square `index` taken out.
    pub open spec fn without_bit(self, index: u8) -> BitBoard
        recommends
            index <= 63,
    {
        BitBoard(self.0 & !mask(index))
    }

    /// Square `index` is in the set and no square below it is.
    pub open spec fn is_lowest(self, index: u8) -> bool {
        self.has_bit(index) && forall|j: u8| self.has_bit(j) ==> index <= j
    }

    /// The character at place `at` of the grid. Each rank takes nine places:
    /// one for each of its files, in rising order, then a line feed.
    pub open spec fn grid_char(self, at: int) -> char {
        let rank = at / 9;
        let file = at % 9;
        if file == 8 {
            '\n'
        } else if self@.contains(square_index(file, rank)) {
            '1'
        } else {
            '0'
        }
    }

    /// The text that [`BitBoard::render`] writes: 72 characters, rank 0 first.
    pub open spec fn grid(self) -> Seq<char> {
        Seq::new(72, |at: int| self.grid_char(at))
    }

    /// How the raw-word operations read on the set of squares.
    pub proof fn lemma_view(self, index: u8)
        requires
            index <= 63,
        ensures
            self.has_bit(index) == self@.contains(index as int),
            self.with_bit(index)@ == self@.insert(index as int),
            self.without_bit(index)@ == self@.remove(index as int),
            self@.finite(),
            self@.len() <= 64,
    {
        lemma_mask_test(self.0, index);
        lemma_or_mask(self.0, index);
        lemma_clear_mask(self.0, index);
        lemma_members_bounded(self.0);
    }

    /// Counts the squares in the set.
    pub fn count_bits(&self) -> (count: u8)
        ensures
            count == self@.len(),
    {
        let mut count: u8 = 0;
        let mut b: u64 = self.0;
        proof {
            lemma_members_bounded(self.0);
        }
        while b > 0
            invariant
                members(b).finite(),
                members(self.0).len() <= 64,
                count + members(b).len() == members(self.0).len(),
            decreases members(b).len(),
        {
            proof {
                lemma_lowest(b);
                lemma_clear_lowest(b);
            }
            count += 1;
            // taking one away turns the lowest 1 into 0 and the zeros below
            // it into ones; the `&` then clears all of them
            b = b & (b - 1);
        }
        proof {
            lemma_members_zero();
        }
        count
    }

    /// Takes the lowest square out of the set and returns its index; `None`
    /// where the set is empty.
    pub fn pop_bit(&mut self) -> (popped: Option<u8>)
        ensures
            popped is None <==> old(self).0 == 0,
            popped is None <==> old(self)@.is_empty(),
            popped is None ==> *final(self) == *old(self),
            popped matches Some(k) ==> {
                &&& old(self).is_lowest(k)
                &&& old(self)@.contains(k as int)
                &&& forall|j: int| old(self)@.contains(j) ==> k <= j
                &&& *final(self) == old(self).without_bit(k)
                &&& final(self)@ == old(self)@.remove(k as int)
            },
    {
        let lsb_index: u8 = self.0.trailing_zeros() as u8;
        if lsb_index == 64 {
            None
        } else {
            proof {
                lemma_lowest(self.0);
                lemma_toggle_set_bit(self.0, lsb_index);
                lemma_clear_mask(self.0, lsb_index);
                assert forall|j: u8| self.has_bit(j) implies lsb_index <= j by {
                    lemma_mask_test(self.0, j);
                }
                lemma_mask_test(self.0, lsb_index);
            }
            let one_bit: u64 = 1u64 << (lsb_index as u64);
            self.0 = self.0 ^ one_bit;
            Some(lsb_index)
        }
    }

    /// Says whether square `index` is in the set.
    pub fn check_bit(&self, index: u8) -> (checked: Result<bool, ChessError>)
        ensures
            index > 63 <==> checked == Err::<bool, ChessError>(ChessError::InvalidIndex(index)),
            index <= 63 ==> checked == Ok::<bool, ChessError>(self.has_bit(index)),
            index <= 63 ==> checked == Ok::<bool, ChessError>(self@.contains(index as int)),
    {
        if index > 63 {
            Err(ChessError::InvalidIndex(index))
        } else {
            proof {
                lemma_mask_test(self.0, index);
            }
            Ok(self.0 & (1u64 << (index as u64)) != 0)
        }
    }

    /// Adds square `index` to the set, whether or not it is there already,
    /// and hands back the new raw word.
    pub fn set_bit(&mut self, index: u8) -> (changed: Result<&u64, ChessError>)
        ensures
            index > 63 <==> changed == Err::<&u64, ChessError>(ChessError::InvalidIndex(index)),
            index > 63 ==> *final(self) == *old(self),
            index <= 63 ==> {
                &&& *final(self) == old(self).with_bit(index)
                &&& final(self)@ == old(self)@.insert(index as int)
                &&& changed matches Ok(raw) && *raw == final(self).0
            },
    {
        if index > 63 {
            Err(ChessError::InvalidIndex(index))
        } else {
            proof {
                lemma_or_mask(self.0, index);
            }
            self.0 = self.0 | (1u64 << (index as u64));
            Ok(&self.0)
        }
    }

    /// Takes square `index` out of the set, and hands back the new raw word.
    /// A square that is not in the set is a fault, and the set stays as it is.
    pub fn unset_bit(&mut self, index: u8) -> (changed: Result<&u64, ChessError>)
        ensures
            index > 63 <==> changed == Err::<&u64, ChessError>(ChessError::InvalidIndex(index)),
            index <= 63 && !old(self).has_bit(index) <==> changed == Err::<&u64, ChessError>(
                ChessError::UnsetNonSetBit(index),
            ),
            changed is Err ==> *final(self) == *old(self),
            index <= 63 && old(self).has_bit(index) ==> {
                &&& *final(self) == old(self).without_bit(index)
                &&& final(self)@ == old(self)@.remove(index as int)
                &&& changed matches Ok(raw) && *raw == final(self).0
            },
    {
        if index > 63 {
            Err(ChessError::InvalidIndex(index))
        } else {
            // `^` toggles the bit, so it may only run on a bit that is set
            if let Ok(true) = self.check_bit(index) {
                proof {
                    lemma_toggle_set_bit(self.0, index);
                    lemma_clear_mask(self.0, index);
                }
                self.0 = self.0 ^ (1u64 << (index as u64));
                Ok(&self.0)
            } else {
                Err(ChessError::UnsetNonSetBit(index))
            }
        }
    }

    /// Writes the set as a grid of 8 rows of 8 characters, `'1'` for a square
    /// that is in the set and `'0'` for one that is not, each row closed by a
    /// line feed. The first row holds squares 0 to 7 and the last one squares
    /// 56 to 63; within a row the squares stand in rising order.
    pub fn render(&self) -> (text: String)
        ensures
            text@ == self.grid(),
    {
        let mut text = String::new();
        let mut rank: u8 = 0;
        while rank < 8
            invariant
                rank <= 8,
                text@ == self.grid().take(rank * 9),
            decreases 8 - rank,
        {
            let mut file: u8 = 0;
            while file < 8
                invariant
                    rank < 8,
                    file <= 8,
                    text@ == self.grid().take(rank * 9 + file),
                decreases 8 - file,
            {
                let index: u8 = rank * 8 + file;
                proof {
                    reveal_strlit("1");
                    reveal_strlit("0");
                }
                match self.check_bit(index) {
                    Ok(true) => {
                        text.append("1");
                    },
                    _ => {
                        text.append("0");
                    },
                }
                file += 1;
            }
            proof {
                reveal_strlit("\n");
            }
            text.append("\n");
            rank += 1;
        }
        text
    }
}

impl From<u64> for BitBoard {
    /// Wraps a raw word; every word is a valid set.
    fn from(value: u64) -> (board: BitBoard) {
        BitBoard(value)
    }
}

impl vstd::std_specs::convert::FromSpecImpl<u64> for BitBoard {
    open spec fn obeys_from_spec() -> bool {
        true
    }

    open spec fn from_spec(value: u64) -> BitBoard {
        BitBoard(value)
    }
}

impl From<BitBoard> for u64 {
    /// Unwraps the raw word.
    fn from(board: BitBoard) -> (value: u64) {
        board.0
    }
}

impl vstd::std_specs::convert::FromSpecImpl<BitBoard> for u64 {
    open spec fn obeys_from_spec() -> bool {
        true
    }

    open spec fn from_spec(board: BitBoard) -> u64 {
        board.0
    }
}

impl std::ops::BitAnd for BitBoard {
    type Output = BitBoard;

    /// The squares that are in both sets.
    fn bitand(self, rhs: BitBoard) -> (both: BitBoard) {
        BitBoard(self.0 & rhs.0)
    }
}

impl vstd::std_specs::ops::BitAndSpecImpl for BitBoard {
    open spec fn obeys_bitand_spec() -> bool {
        true
    }

    open spec fn bitand_req(self, rhs: BitBoard) -> bool {
        true
    }

    open spec fn bitand_spec(self, rhs: BitBoard) -> BitBoard {
        BitBoard(self.0 & rhs.0)
    }
}

} // verus!
