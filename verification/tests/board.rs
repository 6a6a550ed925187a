use dense_grid::board::BoardError;
use dense_grid::board::VecBoard;
use dense_grid::coordinate::C;

#[test]
fn test_vecboard_new() {
    {
        let b: VecBoard = VecBoard::new(vec![3, 2]);
        assert_eq!(b.dims.len(), 2, "dims not expected {b:?}");
        assert_eq!(b.d.len(), 6, "d not expected {b:?}");
        assert_eq!(b.d[b.d.len() - 1], 0, "default value in d not expected");
    }
    {
        let b: VecBoard = VecBoard::new(vec![4, 3, 2]);
        assert_eq!(b.dims.len(), 3, "dims not expected {b:?}");
        assert_eq!(b.d.len(), 24, "d not expected {b:?}");
        assert_eq!(b.d[b.d.len() - 1], 0, "default value in d not expected");
    }
    {
        let b: VecBoard = VecBoard::new(vec![]);
        assert_eq!(b.dims.len(), 0, "dims not expected {b:?}");
        assert_eq!(b.d.len(), 1, "d not expected {b:?}");
        assert_eq!(b.d[b.d.len() - 1], 0, "default value in d not expected");
    }
}

#[test]
fn test_vecboard_index_of() {
    {
        let b: VecBoard = VecBoard::new(vec![3, 2]);
        assert_eq!(b.coeffs.len(), 2, "{b:?}");
        {
            let p = b.index_of(&C::from(vec![2, 1]));
            assert_eq!(p, 7, "{b:?} {p:?}");
        }
        {
            let p = b.index_of(&C::from(vec![1, 1]));
            assert_eq!(p, 4, "{b:?} {p:?}");
        }
    }
    {
        let b: VecBoard = VecBoard::new(vec![4, 3, 2]);
        assert_eq!(b.coeffs.len(), 3, "{b:?}");
        {
            let p = b.index_of(&C::from(vec![3, 2, 1]));
            assert_eq!(p, 45, "{b:?} {p:?}");
        }
        {
            let p = b.index_of(&C::from(vec![1, 1, 1]));
            assert_eq!(p, 17, "{b:?} {p:?}");
        }
    }
    {
        let b: VecBoard = VecBoard::new(vec![]);
        assert_eq!(b.d.len(), 1, "d not expected {b:?}");
        assert_eq!(b.d[b.d.len() - 1], 0, "default value in d not expected");
    }
}

#[test]
fn test_stride_table_values() {
    let b = VecBoard::new(vec![3, 2]);
    assert_eq!(b.coeffs, vec![3, 1]);
    let b = VecBoard::new(vec![4, 3, 2]);
    assert_eq!(b.coeffs, vec![12, 4, 1]);
    let b = VecBoard::new(vec![7]);
    assert_eq!(b.coeffs, vec![1]);
}

#[test]
fn test_zero_dimensional_board() {
    let b = VecBoard::new(vec![]);
    assert_eq!(b.d.len(), 1);
    assert_eq!(b.get_by_offset(0), Ok(0));
    assert_eq!(b.get_by_offset(1), Err(BoardError::OffsetOutOfRange));
    assert_eq!(b.get_by_offset(-1), Err(BoardError::OffsetOutOfRange));
    assert_eq!(b.checked_offset_of(&C::from(vec![])), Ok(0));
    assert_eq!(b.get_by_coordinate(&C::from(vec![])), Ok(0));
}

#[test]
fn test_get_by_offset_out_of_range() {
    let shapes: Vec<Vec<i32>> = vec![vec![3, 2], vec![4, 3, 2], vec![], vec![5]];
    for dims in shapes {
        let b = VecBoard::new(dims);
        let len = b.d.len() as i32;
        assert_eq!(b.get_by_offset(len), Err(BoardError::OffsetOutOfRange));
        assert_eq!(b.get_by_offset(len + 3), Err(BoardError::OffsetOutOfRange));
        assert_eq!(b.get_by_offset(-1), Err(BoardError::OffsetOutOfRange));
        assert_eq!(b.get_by_offset(i32::MIN), Err(BoardError::OffsetOutOfRange));
    }
}

#[test]
fn test_construction_default_fill() {
    let shapes: Vec<Vec<i32>> = vec![vec![3, 2], vec![4, 3, 2], vec![], vec![5], vec![2, 2, 2, 2]];
    for dims in shapes {
        let b = VecBoard::new(dims);
        for i in 0..b.d.len() {
            assert_eq!(b.get_by_offset(i as i32), Ok(0));
        }
    }
}

#[test]
fn test_zero_extent_board_is_empty() {
    let b = VecBoard::new(vec![0, 3]);
    assert_eq!(b.d.len(), 0);
    assert_eq!(b.get_by_offset(0), Err(BoardError::OffsetOutOfRange));
    assert_eq!(
        b.get_by_coordinate(&C::from(vec![0, 0])),
        Err(BoardError::CoordOutOfRange)
    );
}

#[test]
fn test_checked_offset_of_validates_components() {
    let b = VecBoard::new(vec![3, 2]);
    assert_eq!(b.checked_offset_of(&C::from(vec![1, 1])), Ok(4));
    assert_eq!(b.checked_offset_of(&C::from(vec![0, 0])), Ok(0));
    assert_eq!(
        b.checked_offset_of(&C::from(vec![3, 0])),
        Err(BoardError::CoordOutOfRange)
    );
    assert_eq!(
        b.checked_offset_of(&C::from(vec![-1, 0])),
        Err(BoardError::CoordOutOfRange)
    );
    assert_eq!(
        b.checked_offset_of(&C::from(vec![0, 2])),
        Err(BoardError::CoordOutOfRange)
    );
    // In-range components whose stride sum still lands past the end of
    // storage are refused by the second check, not the first.
    assert_eq!(
        b.checked_offset_of(&C::from(vec![2, 1])),
        Err(BoardError::OffsetOutOfRange)
    );
}

#[test]
fn test_get_by_coordinate() {
    let b = VecBoard::new(vec![4, 3, 2]);
    assert_eq!(b.get_by_coordinate(&C::from(vec![1, 1, 1])), Ok(0));
    assert_eq!(
        b.get_by_coordinate(&C::from(vec![4, 0, 0])),
        Err(BoardError::CoordOutOfRange)
    );
    assert_eq!(
        b.get_by_coordinate(&C::from(vec![3, 2, 1])),
        Err(BoardError::OffsetOutOfRange)
    );
}

#[test]
fn test_set_by_offset() {
    let mut b = VecBoard::new(vec![3, 2]);
    assert_eq!(b.set_by_offset(4, 42), Ok(()));
    assert_eq!(b.get_by_offset(4), Ok(42));
    assert_eq!(b.get_by_offset(3), Ok(0));
    assert_eq!(b.set_by_offset(6, 9), Err(BoardError::OffsetOutOfRange));
    assert_eq!(b.set_by_offset(-2, 9), Err(BoardError::OffsetOutOfRange));
    assert_eq!(b.d, vec![0, 0, 0, 0, 42, 0]);
}

#[test]
fn test_set_by_coordinate() {
    let mut b = VecBoard::new(vec![4, 3, 2]);
    let c = C::from(vec![1, 1, 1]);
    assert_eq!(b.set_by_coordinate(&c, 7), Ok(()));
    assert_eq!(b.get_by_coordinate(&c), Ok(7));
    assert_eq!(b.get_by_offset(17), Ok(7));
    assert_eq!(
        b.set_by_coordinate(&C::from(vec![0, 3, 0]), 9),
        Err(BoardError::CoordOutOfRange)
    );
    assert_eq!(b.get_by_offset(17), Ok(7));
}
