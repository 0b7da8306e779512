use griddy::Grid;

#[test]
fn init() {
    let grid = Grid::init(10, 8, 0);
    assert_eq!(grid.rows_len(), 10);
    assert_eq!(grid.cols_len(), 8);
}

#[test]
fn index() {
    let grid = Grid::init(10, 8, 0);
    assert_eq!(grid.row(0), &vec![0; 8]);
    assert_eq!(grid.row(1)[0], 0);
}

#[test]
fn index_mut() {
    let mut grid = Grid::init(10, 8, 0);
    grid.set(0, 0, 1);
    assert_eq!(*grid.get(0, 0), 1);
}

#[test]
fn row_neighbors() {
    let grid = Grid::init(5, 5, 0);
    let rn = grid.row_neighbors(0, 5);
    assert_eq!(rn, []);

    let rn = grid.row_neighbors(5, 0);
    assert_eq!(rn, []);

    let rn = grid.row_neighbors(0, 0);
    assert_eq!(rn, vec![(0, 1)]);

    let rn = grid.row_neighbors(0, 1);
    assert_eq!(rn, vec![(0, 0), (0, 2)]);

    let rn = grid.row_neighbors(0, 4);
    assert_eq!(rn, vec![(0, 3)]);

    let rn = grid.row_neighbors(4, 0);
    assert_eq!(rn, vec![(4, 1)]);
}

#[test]
fn col_neighbors() {
    let grid = Grid::init(5, 5, 0);

    let cn = grid.col_neighbors(0, 5);
    assert_eq!(cn, []);

    let cn = grid.col_neighbors(5, 0);
    assert_eq!(cn, []);

    let cn = grid.col_neighbors(0, 0);
    assert_eq!(cn, vec![(1, 0)]);

    let cn = grid.col_neighbors(1, 1);
    assert_eq!(cn, vec![(0, 1), (2, 1)]);
}

#[test]
fn diag_neighbors() {
    let grid = Grid::init(5, 5, 0);

    let dn = grid.diag_neighbors(0, 5);
    assert_eq!(dn, []);

    let dn = grid.diag_neighbors(5, 0);
    assert_eq!(dn, []);

    let dn = grid.diag_neighbors(4, 0);
    assert_eq!(dn, [(3, 1)]);

    let dn = grid.diag_neighbors(4, 1);
    assert_eq!(dn, [(3, 0), (3, 2)]);

    let dn = grid.diag_neighbors(4, 1);
    assert_eq!(dn, [(3, 0), (3, 2)]);

    let dn = grid.diag_neighbors(2, 2);
    assert_eq!(dn, [(1, 1), (1, 3), (3, 1), (3, 3)]);
}

#[test]
fn neighbors() {
    let grid = Grid::init(5, 5, 0);

    let n = grid.neighbors(0, 5);
    assert_eq!(n, []);

    let n = grid.neighbors(5, 0);
    assert_eq!(n, []);

    let n = grid.neighbors(2, 2);
    assert_eq!(n, [(2, 1), (2, 3), (1, 2), (3, 2), (1, 1), (1, 3), (3, 1), (3, 3)]);
}

#[test]
fn fold_at_row_zero() {
    let mut grid = Grid::init(7, 10, 0);
    let rl = grid.fold_at_row(0, |new, old| new + old);
    assert_eq!(rl, 0);
}

#[test]
fn fold_at_row_before_middle() {
    let num_rows = 7;
    let num_cols = 10;
    let mut grid = Grid::init(num_rows, num_cols, 0);
    grid.rows_mut()[6] = vec![1; num_cols];

    let fold_row = (num_rows / 2) - 1;
    let rl = grid.fold_at_row(fold_row, |new, old| new + old);
    assert_eq!(rl, 2);
    assert_eq!(grid.row(0), &vec![0; num_cols]);
    assert_eq!(grid.row(1), &vec![0; num_cols]);
}

#[test]
fn fold_at_row_middle() {
    let num_rows = 7;
    let num_cols = 10;
    let mut grid = Grid::init(num_rows, num_cols, 0);
    grid.rows_mut()[6] = vec![1; num_cols];

    let fold_row = num_rows / 2;
    grid.fold_at_row(fold_row, |new, old| new + old);
    assert_eq!(grid.rows_len(), 3);
    assert_eq!(grid.row(0), &vec![1; num_cols]);
}

#[test]
fn fold_at_row_past_middle() {
    let num_rows = 7;
    let num_cols = 10;
    let mut grid = Grid::init(num_rows, num_cols, 0);
    grid.rows_mut()[6] = vec![1; num_cols];

    let fold_row = (num_rows / 2) + 1;
    grid.fold_at_row(fold_row, |new, old| new + old);
    assert_eq!(grid.rows_len(), 4);
    assert_eq!(grid.row(0), &vec![0; num_cols]);
    assert_eq!(grid.row(1), &vec![0; num_cols]);
    assert_eq!(grid.row(2), &vec![1; num_cols]);
}

#[test]
fn fold_at_row_last() {
    let mut grid = Grid::init(7, 10, 0);
    let rl = grid.fold_at_row(6, |new, old| new + old);
    assert_eq!(rl, 6);
}

#[test]
fn row_left_coords() {
    let grid = Grid::init(5, 5, 0);
    let rlc = grid.row_left_coords(0, 5);
    assert_eq!(rlc, []);

    let rlc = grid.row_left_coords(0, 1);
    assert_eq!(rlc, [(0, 0)]);

    let rlc = grid.row_left_coords(0, 2);
    assert_eq!(rlc, [(0, 0), (0, 1)]);

    let rlc = grid.row_left_coords(0, 3);
    assert_eq!(rlc, [(0, 0), (0, 1), (0, 2)]);
}

#[test]
fn row_right_coords() {
    let grid = Grid::init(5, 5, 0);
    let rrc = grid.row_right_coords(0, 5);
    assert_eq!(rrc, []);

    let rrc = grid.row_right_coords(0, 1);
    assert_eq!(rrc, [(0, 2), (0, 3), (0, 4)]);

    let rrc = grid.row_right_coords(0, 2);
    assert_eq!(rrc, [(0, 3), (0, 4)]);
}

#[test]
fn col_up_coords() {
    let grid = Grid::init(5, 5, 0);
    let cup = grid.col_up_coords(0, 3);
    assert_eq!(cup, []);

    let cup = grid.col_up_coords(1, 3);
    assert_eq!(cup, [(0, 3)]);

    let cup = grid.col_up_coords(2, 3);
    assert_eq!(cup, [(0, 3), (1, 3)]);

    let cup = grid.col_up_coords(4, 3);
    assert_eq!(cup, [(0, 3), (1, 3), (2, 3), (3, 3)]);
}

#[test]
fn col_down_coords() {
    let grid = Grid::init(5, 5, 0);
    let cdp = grid.col_down_coords(5, 3);
    assert_eq!(cdp, []);

    let cdp = grid.col_down_coords(3, 3);
    assert_eq!(cdp, [(4, 3)]);

    let cdp = grid.col_down_coords(2, 3);
    assert_eq!(cdp, [(3, 3), (4, 3)]);

    let cdp = grid.col_down_coords(1, 3);
    assert_eq!(cdp, [(2, 3), (3, 3), (4, 3)]);

    let cdp = grid.col_down_coords(0, 3);
    assert_eq!(cdp, [(1, 3), (2, 3), (3, 3), (4, 3)]);
}

#[test]
fn neighbors_values() {
    let grid = Grid::from_2d_unchecked(vec![
        vec![0, 1, 2],
        vec![4, 5, 6],
        vec![7, 8, 9],
    ]);

    assert_eq!(
        vec![(1, 1), (0, 0), (2, 0), (0, 1), (2, 1)],
        grid.neighbors(1, 0),
    );

    let n = grid.neighbors(1, 1);
    let v: Vec<_> = n.iter().map(|(r, c)| *grid.get(*r, *c)).collect();
    assert_eq!(
        vec![4, 6, 1, 8, 0, 2, 7, 9],
        v,
    );

    let n = grid.neighbors(0, 0);
    let v: Vec<_> = n.iter().map(|(r, c)| *grid.get(*r, *c)).collect();
    assert_eq!(
        vec![1, 4, 5],
        v,
    );

    let n = grid.neighbors(1, 2);
    let v: Vec<_> = n.iter().map(|(r, c)| *grid.get(*r, *c)).collect();
    assert_eq!(
        vec![5, 2, 9, 1, 8],
        v,
    );
}
