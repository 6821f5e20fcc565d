use square_set::{BitBoard, ChessError};

#[test]
fn set_then_check_finds_only_that_square() {
    for i in 0u8..64 {
        let mut board = BitBoard(0);
        assert_eq!(board.set_bit(i).copied(), Ok(1u64 << i));
        for j in 0u8..64 {
            assert_eq!(board.check_bit(j), Ok(i == j));
        }
    }
}

#[test]
fn empty_set_holds_no_square() {
    let board = BitBoard(0);
    for i in 0u8..64 {
        assert_eq!(board.check_bit(i), Ok(false));
    }
}

#[test]
fn full_set_holds_every_square() {
    let board = BitBoard(u64::MAX);
    for i in 0u8..64 {
        assert_eq!(board.check_bit(i), Ok(true));
    }
    assert_eq!(board.count_bits(), 64);
}

#[test]
fn check_bit_rejects_index_64() {
    let board = BitBoard(0x100);
    assert_eq!(board.check_bit(64), Err(ChessError::InvalidIndex(64)));
    assert_eq!(board, BitBoard(0x100));
}

#[test]
fn check_bit_rejects_index_255() {
    let board = BitBoard(u64::MAX);
    assert_eq!(board.check_bit(255), Err(ChessError::InvalidIndex(255)));
}

#[test]
fn set_bit_rejects_index_64_and_keeps_the_set() {
    let mut board = BitBoard(0x0F);
    assert_eq!(board.set_bit(64), Err(ChessError::InvalidIndex(64)));
    assert_eq!(board, BitBoard(0x0F));
}

#[test]
fn unset_bit_rejects_index_64_and_keeps_the_set() {
    let mut board = BitBoard(0x0F);
    assert_eq!(board.unset_bit(64), Err(ChessError::InvalidIndex(64)));
    assert_eq!(board, BitBoard(0x0F));
}

#[test]
fn unset_bit_on_clear_square_is_a_fault_and_keeps_the_set() {
    let mut board = BitBoard(0x00_F0_00_00_00_00_00_00);
    assert_eq!(board.unset_bit(8), Err(ChessError::UnsetNonSetBit(8)));
    assert_eq!(board, BitBoard(0x00_F0_00_00_00_00_00_00));
}

#[test]
fn unset_bit_clears_only_that_square() {
    let mut board = BitBoard(0xFF00);
    assert_eq!(board.unset_bit(9).copied(), Ok(0xFD00));
    assert_eq!(board, BitBoard(0xFD00));
    assert_eq!(board.unset_bit(9), Err(ChessError::UnsetNonSetBit(9)));
}

#[test]
fn set_bit_is_idempotent() {
    let mut board = BitBoard(0);
    assert_eq!(board.set_bit(63).copied(), Ok(0x8000_0000_0000_0000));
    assert_eq!(board.set_bit(63).copied(), Ok(0x8000_0000_0000_0000));
    assert_eq!(board.set_bit(0).copied(), Ok(0x8000_0000_0000_0001));
    assert_eq!(board.count_bits(), 2);
}

#[test]
fn pop_bit_on_empty_set_gives_none() {
    let mut board = BitBoard(0);
    assert_eq!(board.pop_bit(), None);
    assert_eq!(board, BitBoard(0));
}

#[test]
fn pop_bit_on_single_square_empties_the_set() {
    for k in 0u8..64 {
        let mut board = BitBoard(1u64 << k);
        assert_eq!(board.pop_bit(), Some(k));
        assert_eq!(board, BitBoard(0));
        assert_eq!(board.pop_bit(), None);
    }
}

#[test]
fn pop_bit_hands_out_squares_in_rising_order() {
    let mut board = BitBoard(0x0C_0F_00_D0_00_00_01_00);
    let mut seen = vec![];
    while let Some(k) = board.pop_bit() {
        seen.push(k);
    }
    assert_eq!(seen, vec![8, 36, 38, 39, 48, 49, 50, 51, 58, 59]);
    assert_eq!(board, BitBoard(0));
}

#[test]
fn count_bits_counts_squares() {
    assert_eq!(BitBoard(0x0C_0F_00_D0_00_00_01_00).count_bits(), 10);
    assert_eq!(BitBoard(1).count_bits(), 1);
    assert_eq!(BitBoard(0x8000_0000_0000_0000).count_bits(), 1);
}

#[test]
fn raw_word_round_trip() {
    for x in [0u64, 1, 0xFF00, 0x0C_0F_00_D0_00_00_01_00, u64::MAX] {
        let board = BitBoard::from(x);
        assert_eq!(board, BitBoard(x));
        let back: u64 = board.into();
        assert_eq!(back, x);
        assert_eq!(u64::from(board), x);
    }
}

#[test]
fn intersection_commutes_and_is_idempotent() {
    let a = BitBoard(0xFF00);
    let b = BitBoard(0x0F0F);
    assert_eq!(a & b, BitBoard(0x0F00));
    assert_eq!(a & b, b & a);
    assert_eq!(a & a, a);
    assert_eq!(a & BitBoard(0), BitBoard(0));
}

#[test]
fn render_empty_set() {
    let expected =
        "00000000\n00000000\n00000000\n00000000\n00000000\n00000000\n00000000\n00000000\n";
    assert_eq!(BitBoard(0).render(), expected);
}

#[test]
fn render_puts_square_0_first_and_square_63_last() {
    let expected =
        "10000000\n00000000\n00000000\n00000000\n00000000\n00000000\n00000000\n00000001\n";
    assert_eq!(BitBoard(0x8000_0000_0000_0001).render(), expected);
}

#[test]
fn render_orders_files_within_a_rank() {
    let expected =
        "01000000\n00000000\n00000010\n00000000\n00000000\n00000000\n00000000\n00000000\n";
    assert_eq!(BitBoard((1 << 1) | (1 << 22)).render(), expected);
}

#[test]
fn render_has_eight_rows_of_eight() {
    let text = BitBoard(0x0C_0F_00_D0_00_00_01_00).render();
    assert_eq!(text.len(), 72);
    let rows: Vec<&str> = text.lines().collect();
    assert_eq!(rows.len(), 8);
    for row in rows {
        assert_eq!(row.len(), 8);
    }
}
