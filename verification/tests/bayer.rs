use retropixel::bayer::BayerMatrix;

/// Ranks computed the way the threshold matrix is defined: bit `p` of the
/// row and of its xor with the column become the base-4 digit of weight
/// `4^(exponent - 1 - p)`, and the rank is stored in a byte through `f32`.
fn reference_cells(exponent: u32) -> Vec<u8> {
    let size = 2_u32.pow(exponent);
    let mut cells = vec![];
    for x in 0..size {
        for y in 0..size {
            let xc = x ^ y;
            let yc = y;
            let mut v = 0u32;
            for p in (0..exponent).rev() {
                let bit_idx = 2 * (exponent - p - 1);
                v |= ((yc >> p) & 1) << bit_idx;
                v |= ((xc >> p) & 1) << (bit_idx + 1);
            }
            cells.push(v as f32 as u8);
        }
    }
    cells
}

fn cells_of(m: &BayerMatrix) -> Vec<u8> {
    let size = m.size();
    let mut cells = vec![];
    for x in 0..size {
        for y in 0..size {
            // index(column, row) reads the cell (row, column)
            cells.push(m.index(y, x));
        }
    }
    cells
}

#[test]
fn exponent_zero_is_a_single_zero_cell() {
    let m = BayerMatrix::new(0);
    assert_eq!(m.size(), 1);
    assert_eq!(m.cell_count(), 1);
    assert_eq!(m.index(0, 0), 0);
    assert_eq!(m.index(17, 5), 0);
}

#[test]
fn exponent_one_is_the_elementary_pattern() {
    let m = BayerMatrix::new(1);
    assert_eq!(m.size(), 2);
    assert_eq!(cells_of(&m), vec![0, 3, 2, 1]);
    assert_eq!(m.index(0, 0), 0);
    assert_eq!(m.index(1, 0), 3);
    assert_eq!(m.index(0, 1), 2);
    assert_eq!(m.index(1, 1), 1);
}

#[test]
fn exponent_two_values() {
    let m = BayerMatrix::new(2);
    assert_eq!(m.size(), 4);
    assert_eq!(m.cell_count(), 16);
    assert_eq!(
        cells_of(&m),
        vec![0, 12, 3, 15, 8, 4, 11, 7, 2, 14, 1, 13, 10, 6, 9, 5]
    );
}

#[test]
fn matches_the_bitwise_definition() {
    for exponent in 0..=6 {
        let m = BayerMatrix::new(exponent);
        assert_eq!(m.size(), 1 << exponent);
        assert_eq!(cells_of(&m), reference_cells(exponent), "exponent {exponent}");
    }
}

#[test]
fn small_matrices_hold_each_rank_once() {
    for exponent in 0..=4 {
        let m = BayerMatrix::new(exponent);
        let mut cells = cells_of(&m);
        cells.sort();
        let expected: Vec<u8> = (0..m.cell_count()).map(|r| r as u8).collect();
        assert_eq!(cells, expected, "exponent {exponent}");
    }
}

#[test]
fn large_ranks_saturate_at_255() {
    let m = BayerMatrix::new(5);
    let cells = cells_of(&m);
    assert_eq!(cells.len(), 1024);
    assert_eq!(*cells.iter().max().unwrap(), 255);
    assert_eq!(cells.iter().filter(|&&c| c == 255).count(), 1024 - 255);
}

#[test]
fn thresholds_repeat_with_the_side() {
    let m = BayerMatrix::new(3);
    for x in 0..8 {
        for y in 0..8 {
            assert_eq!(m.index(x + 8, y), m.index(x, y));
            assert_eq!(m.index(x, y + 8), m.index(x, y));
            assert_eq!(m.index(x + 800, y + 16), m.index(x, y));
        }
    }
}

#[test]
fn thresholds_are_ranks_among_the_cells() {
    for exponent in 0..=5 {
        let m = BayerMatrix::new(exponent);
        for x in 0..40 {
            for y in 0..40 {
                assert!((m.index(x, y) as u32) < m.cell_count());
            }
        }
    }
}
