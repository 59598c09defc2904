use collatz_transpose::grid::{transpose, Grid};

const SAMPLE: Grid = [[101, 102, 103], [201, 202, 203], [301, 302, 303]];

#[test]
fn transpose_of_sample() {
    assert_eq!(
        transpose(SAMPLE),
        [[101, 201, 301], [102, 202, 302], [103, 203, 303]]
    );
}

#[test]
fn transpose_moves_each_cell_across_the_diagonal() {
    let m: Grid = [[1, -2, 3], [i32::MAX, 0, i32::MIN], [7, 7, -9]];
    let t = transpose(m);
    for i in 0..3 {
        for j in 0..3 {
            assert_eq!(t[j][i], m[i][j]);
        }
    }
}

#[test]
fn transpose_twice_gives_back_the_grid() {
    let m: Grid = [[5, 4, 3], [-1, 0, 1], [9, 9, 2]];
    assert_eq!(transpose(transpose(m)), m);
    assert_eq!(transpose(transpose(SAMPLE)), SAMPLE);
}

#[test]
fn transpose_keeps_every_value() {
    let m: Grid = [[2, 2, 3], [3, 1, 2], [0, 0, 2]];
    let mut before: Vec<i32> = m.iter().flatten().copied().collect();
    let mut after: Vec<i32> = transpose(m).iter().flatten().copied().collect();
    before.sort();
    after.sort();
    assert_eq!(before, after);
}

#[test]
fn transpose_of_symmetric_and_zero_grids() {
    let s: Grid = [[1, 2, 3], [2, 4, 5], [3, 5, 6]];
    assert_eq!(transpose(s), s);
    assert_eq!(transpose([[0; 3]; 3]), [[0; 3]; 3]);
}
