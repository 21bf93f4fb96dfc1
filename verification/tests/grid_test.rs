use ccbenchmark::binary64::Operation;
use ccbenchmark::grid::Grid;
use ccbenchmark::unit::{MemoryUnit, PureUnit, TimeUnit, Unit};

fn arith(op: Operation, a: u64, b: u64) -> u64 {
    let (a, b) = (f64::from_bits(a), f64::from_bits(b));
    let result = match op {
        Operation::Multiply => a * b,
        Operation::Divide => a / b,
        Operation::Subtract => a - b,
    };
    result.to_bits()
}

fn difference(base: u64, other: u64) -> u64 {
    (f64::from_bits(base) - f64::from_bits(other)).to_bits()
}

fn bits(values: &[f64]) -> Vec<u64> {
    values.iter().map(|value| value.to_bits()).collect()
}

fn floats(cells: &[u64]) -> Vec<f64> {
    cells.iter().map(|cell| f64::from_bits(*cell)).collect()
}

fn seconds_3x3() -> Grid {
    let mut grid = Grid::new(Unit::TimeUnit(TimeUnit::S), 3, 3);
    grid.set_column(0, &bits(&[1.0, 2.0, 3.0]), Unit::TimeUnit(TimeUnit::S), &arith);
    grid.set_column(1, &bits(&[4.0, 5.0, 6.0]), Unit::TimeUnit(TimeUnit::S), &arith);
    grid.set_column(2, &bits(&[7.0, 8.0, 9.0]), Unit::TimeUnit(TimeUnit::S), &arith);
    grid
}

#[test]
fn convert_unit_empty() {
    let grid = Grid::new(Unit::TimeUnit(TimeUnit::S), 0, 0);
    let new_unit_opt = grid.clone_convert_unit(&Unit::TimeUnit(TimeUnit::NS), &arith);

    if let Some(new_unit) = new_unit_opt {
        assert_eq!(new_unit.len(), 0)
    } else {
        panic!("invalid unit")
    }
}

#[test]
fn convert_unit_one() {
    let mut grid = Grid::new(Unit::TimeUnit(TimeUnit::S), 1, 1);
    grid.set_column(0, &bits(&[1.0]), Unit::TimeUnit(TimeUnit::S), &arith);
    let new_unit_opt = grid.clone_convert_unit(&Unit::TimeUnit(TimeUnit::NS), &arith);

    if let Some(new_unit) = new_unit_opt {
        assert_eq!(floats(new_unit.column(0)), &[1e9])
    } else {
        panic!("invalid unit")
    }
}

#[test]
fn convert_unit() {
    let mut grid = Grid::new(Unit::TimeUnit(TimeUnit::S), 3, 3);
    grid.set_column(0, &bits(&[1.0, 2.0, 3.0]), Unit::TimeUnit(TimeUnit::S), &arith);
    grid.set_column(1, &bits(&[4.0, 5.0, 6.0]), Unit::TimeUnit(TimeUnit::S), &arith);
    grid.set_column(2, &bits(&[7.0, 8.0, 9.0]), Unit::TimeUnit(TimeUnit::S), &arith);
    let new_unit_opt = grid.clone_convert_unit(&Unit::TimeUnit(TimeUnit::NS), &arith);

    if let Some(new_unit) = new_unit_opt {
        assert_eq!(floats(new_unit.column(0)), &[1e9, 2e9, 3e9]);
        assert_eq!(floats(new_unit.column(1)), &[4e9, 5e9, 6e9]);
        assert_eq!(floats(new_unit.column(2)), &[7e9, 8e9, 9e9]);
    } else {
        panic!("invalid unit")
    }
}

#[test]
fn convert_unit_invalid_unit() {
    let mut grid = Grid::new(Unit::TimeUnit(TimeUnit::S), 3, 3);
    grid.set_column(0, &bits(&[1.0, 2.0, 3.0]), Unit::TimeUnit(TimeUnit::S), &arith);
    grid.set_column(1, &bits(&[4.0, 5.0, 6.0]), Unit::TimeUnit(TimeUnit::S), &arith);
    grid.set_column(2, &bits(&[7.0, 8.0, 9.0]), Unit::TimeUnit(TimeUnit::S), &arith);
    let new_unit_opt = grid.clone_convert_unit(&Unit::MemoryUnit(MemoryUnit::KB), &arith);

    if let Some(_) = new_unit_opt {
        panic!("returned as Some instead of None")
    }
}

#[test]
fn compare_neighbors_empty() {
    let col = Grid::new(Unit::TimeUnit(TimeUnit::S), 0, 0);
    let compare = col.clone_compare_neighbors(difference, Unit::TimeUnit(TimeUnit::S));

    assert_eq!(compare.len(), 0)
}

#[test]
fn compare_neighbors_one() {
    let mut grid = Grid::new(Unit::TimeUnit(TimeUnit::S), 1, 1);
    grid.set_column(0, &bits(&[1.0]), Unit::TimeUnit(TimeUnit::S), &arith);
    let compare = grid.clone_compare_neighbors(difference, Unit::TimeUnit(TimeUnit::S));

    assert!(f64::from_bits(compare.column(0)[0]).is_nan());
}

#[test]
fn compare_neighbors() {
    let mut grid = Grid::new(Unit::TimeUnit(TimeUnit::S), 3, 3);
    grid.set_column(0, &bits(&[1.0, 2.0, 3.0]), Unit::TimeUnit(TimeUnit::S), &arith);
    grid.set_column(1, &bits(&[4.0, 5.0, 6.0]), Unit::TimeUnit(TimeUnit::S), &arith);
    grid.set_column(2, &bits(&[7.0, 8.0, 9.0]), Unit::TimeUnit(TimeUnit::S), &arith);
    let compare = grid.clone_compare_neighbors(difference, Unit::TimeUnit(TimeUnit::S));

    assert!(f64::from_bits(compare.column(0)[0]).is_nan());
    assert!(f64::from_bits(compare.column(1)[0]).is_nan());
    assert!(f64::from_bits(compare.column(2)[0]).is_nan());

    assert_eq!(floats(&compare.column(0)[1..]), &[-1.0, -1.0]);
    assert_eq!(floats(&compare.column(1)[1..]), &[-1.0, -1.0]);
    assert_eq!(floats(&compare.column(2)[1..]), &[-1.0, -1.0]);
}

#[test]
fn compare_index_empty() {
    let grid = Grid::new(Unit::TimeUnit(TimeUnit::S), 0, 0);
    let compare = grid.clone_compare_index(difference, Unit::TimeUnit(TimeUnit::S), 0);

    assert_eq!(compare.len(), 0)
}

#[test]
fn compare_front_one() {
    let mut grid = Grid::new(Unit::TimeUnit(TimeUnit::S), 1, 1);
    grid.set_column(0, &bits(&[1.0]), Unit::TimeUnit(TimeUnit::S), &arith);
    let compare = grid.clone_compare_index(
        difference,
        Unit::TimeUnit(TimeUnit::S),
        grid.front_col_index().unwrap(),
    );

    assert_eq!(floats(compare.column(0)), &[0.0]);
}

#[test]
fn compare_front() {
    let mut grid = Grid::new(Unit::TimeUnit(TimeUnit::S), 3, 3);
    grid.set_column(0, &bits(&[1.0, 2.0, 3.0]), Unit::TimeUnit(TimeUnit::S), &arith);
    grid.set_column(1, &bits(&[4.0, 5.0, 6.0]), Unit::TimeUnit(TimeUnit::S), &arith);
    grid.set_column(2, &bits(&[7.0, 8.0, 9.0]), Unit::TimeUnit(TimeUnit::S), &arith);
    let compare = grid.clone_compare_index(
        difference,
        Unit::TimeUnit(TimeUnit::S),
        grid.front_col_index().unwrap(),
    );

    assert_eq!(floats(compare.column(0)), &[0.0, -1.0, -2.0]);
    assert_eq!(floats(compare.column(1)), &[0.0, -1.0, -2.0]);
    assert_eq!(floats(compare.column(2)), &[0.0, -1.0, -2.0]);
}

#[test]
fn compare_back_one() {
    let mut grid = Grid::new(Unit::TimeUnit(TimeUnit::S), 1, 1);
    grid.set_column(0, &bits(&[1.0]), Unit::TimeUnit(TimeUnit::S), &arith);
    let compare = grid.clone_compare_index(
        difference,
        Unit::TimeUnit(TimeUnit::S),
        grid.back_col_index().unwrap(),
    );

    assert_eq!(floats(compare.column(0)), &[0.0]);
}

#[test]
fn compare_back() {
    let mut grid = Grid::new(Unit::TimeUnit(TimeUnit::S), 3, 3);
    grid.set_column(0, &bits(&[1.0, 2.0, 3.0]), Unit::TimeUnit(TimeUnit::S), &arith);
    grid.set_column(1, &bits(&[4.0, 5.0, 6.0]), Unit::TimeUnit(TimeUnit::S), &arith);
    grid.set_column(2, &bits(&[7.0, 8.0, 9.0]), Unit::TimeUnit(TimeUnit::S), &arith);
    let compare = grid.clone_compare_index(
        difference,
        Unit::TimeUnit(TimeUnit::S),
        grid.back_col_index().unwrap(),
    );

    assert_eq!(floats(compare.column(0)), &[2.0, 1.0, 0.0]);
    assert_eq!(floats(compare.column(1)), &[2.0, 1.0, 0.0]);
    assert_eq!(floats(compare.column(2)), &[2.0, 1.0, 0.0]);
}

#[test]
fn fresh_grid_is_all_missing() {
    let grid = Grid::new(Unit::MemoryUnit(MemoryUnit::KIB), 4, 3);
    assert_eq!(grid.len(), 12);
    assert_eq!(grid.column_length(), 4);
    assert_eq!(grid.column_count(), 3);
    assert_eq!(grid.unit(), Unit::MemoryUnit(MemoryUnit::KIB));
    for col in 0..3 {
        assert_eq!(grid.column(col).len(), 4);
        for row in 0..4 {
            assert!(f64::from_bits(grid.get(col, row)).is_nan());
            assert_eq!(grid.get(col, row), f64::NAN.to_bits());
        }
    }
    assert_eq!(grid.front_col_index(), None);
    assert_eq!(grid.back_col_index(), None);
}

#[test]
fn set_converts_from_the_source_unit() {
    let mut grid = Grid::new(Unit::TimeUnit(TimeUnit::NS), 2, 2);
    grid.set(1, 0, 2.0f64.to_bits(), Unit::TimeUnit(TimeUnit::S), &arith);
    grid.set(0, 1, 1500.0f64.to_bits(), Unit::TimeUnit(TimeUnit::NS), &arith);
    assert_eq!(f64::from_bits(grid.get(1, 0)), 2e9);
    assert_eq!(f64::from_bits(grid.get(0, 1)), 1500.0);
    assert!(f64::from_bits(grid.get(0, 0)).is_nan());
    assert!(f64::from_bits(grid.get(1, 1)).is_nan());

    let mut memory = Grid::new(Unit::MemoryUnit(MemoryUnit::KIB), 1, 1);
    memory.set(0, 0, 2048.0f64.to_bits(), Unit::MemoryUnit(MemoryUnit::B), &arith);
    assert_eq!(f64::from_bits(memory.get(0, 0)), 2.0);
}

#[test]
fn set_column_converts_from_the_source_unit() {
    let mut grid = Grid::new(Unit::MemoryUnit(MemoryUnit::B), 3, 2);
    grid.set_column(1, &bits(&[3.0, 0.5, -1.0]), Unit::MemoryUnit(MemoryUnit::KIB), &arith);
    assert_eq!(floats(grid.column(1)), &[3072.0, 512.0, -1024.0]);
    assert!(grid.column(0).iter().all(|cell| f64::from_bits(*cell).is_nan()));

    let mut time = Grid::new(Unit::TimeUnit(TimeUnit::MS), 2, 1);
    time.set_column(0, &bits(&[1500.0, 250.0]), Unit::TimeUnit(TimeUnit::US), &arith);
    assert_eq!(floats(time.column(0)), &[1.5, 0.25]);
}

#[test]
fn set_column_keeps_missing_values_missing() {
    let mut grid = Grid::new(Unit::TimeUnit(TimeUnit::S), 3, 1);
    grid.set_column(0, &bits(&[1.0, f64::NAN, 3.0]), Unit::TimeUnit(TimeUnit::MS), &arith);
    assert_eq!(f64::from_bits(grid.get(0, 0)), 1e-3);
    assert!(f64::from_bits(grid.get(0, 1)).is_nan());
    assert_eq!(f64::from_bits(grid.get(0, 2)), 3e-3);
}

#[test]
fn convert_to_the_same_unit_keeps_the_values() {
    let grid = seconds_3x3();
    let same = grid.clone_convert_unit(&Unit::TimeUnit(TimeUnit::S), &arith).unwrap();
    assert_eq!(same.unit(), Unit::TimeUnit(TimeUnit::S));
    assert_eq!(same.column_count(), 3);
    assert_eq!(same.column_length(), 3);
    for col in 0..3 {
        assert_eq!(same.column(col), grid.column(col));
    }
}

#[test]
fn convert_there_and_back_keeps_the_values() {
    let grid = seconds_3x3();
    let there = grid.clone_convert_unit(&Unit::TimeUnit(TimeUnit::NS), &arith).unwrap();
    let back = there.clone_convert_unit(&Unit::TimeUnit(TimeUnit::S), &arith).unwrap();
    assert_eq!(there.unit(), Unit::TimeUnit(TimeUnit::NS));
    assert_eq!(back.unit(), Unit::TimeUnit(TimeUnit::S));
    for col in 0..3 {
        assert_eq!(floats(back.column(col)), floats(grid.column(col)));
    }

    let mut memory = Grid::new(Unit::MemoryUnit(MemoryUnit::GIB), 2, 1);
    memory.set_column(0, &bits(&[1.5, 3.25]), Unit::MemoryUnit(MemoryUnit::GIB), &arith);
    let there = memory.clone_convert_unit(&Unit::MemoryUnit(MemoryUnit::KIB), &arith).unwrap();
    assert_eq!(floats(there.column(0)), &[1.5 * 1024.0 * 1024.0, 3.25 * 1024.0 * 1024.0]);
    let back = there.clone_convert_unit(&Unit::MemoryUnit(MemoryUnit::GIB), &arith).unwrap();
    assert_eq!(floats(back.column(0)), &[1.5, 3.25]);
}

#[test]
fn convert_does_not_change_the_source() {
    let grid = seconds_3x3();
    let _ = grid.clone_convert_unit(&Unit::TimeUnit(TimeUnit::MS), &arith).unwrap();
    assert_eq!(grid.unit(), Unit::TimeUnit(TimeUnit::S));
    assert_eq!(floats(grid.column(0)), &[1.0, 2.0, 3.0]);
    assert_eq!(floats(grid.column(1)), &[4.0, 5.0, 6.0]);
    assert_eq!(floats(grid.column(2)), &[7.0, 8.0, 9.0]);
}

#[test]
fn convert_across_families_gives_nothing() {
    let time = seconds_3x3();
    assert!(time.clone_convert_unit(&Unit::MemoryUnit(MemoryUnit::B), &arith).is_none());
    assert!(time.clone_convert_unit(&Unit::PureUnit(PureUnit::Percentage), &arith).is_none());
    assert!(time.clone_convert_unit(&Unit::PureUnit(PureUnit::NoUnit), &arith).is_none());
    let memory = Grid::new(Unit::MemoryUnit(MemoryUnit::MB), 1, 1);
    assert!(memory.clone_convert_unit(&Unit::TimeUnit(TimeUnit::NS), &arith).is_none());
    assert!(memory.clone_convert_unit(&Unit::PureUnit(PureUnit::NoUnit), &arith).is_none());
    let pure = Grid::new(Unit::PureUnit(PureUnit::NoUnit), 1, 1);
    assert!(pure.clone_convert_unit(&Unit::TimeUnit(TimeUnit::S), &arith).is_none());
    assert!(pure.clone_convert_unit(&Unit::MemoryUnit(MemoryUnit::GIB), &arith).is_none());
    assert!(pure.clone_convert_unit(&Unit::PureUnit(PureUnit::Percentage), &arith).is_some());
}

#[test]
fn front_and_back_bound_the_rows_with_values() {
    let mut grid = Grid::new(Unit::TimeUnit(TimeUnit::S), 6, 3);
    assert_eq!(grid.front_col_index(), None);
    assert_eq!(grid.back_col_index(), None);
    grid.set(1, 3, 1.0f64.to_bits(), Unit::TimeUnit(TimeUnit::S), &arith);
    assert_eq!(grid.front_col_index(), Some(3));
    assert_eq!(grid.back_col_index(), Some(3));
    grid.set(2, 1, 1.0f64.to_bits(), Unit::TimeUnit(TimeUnit::S), &arith);
    assert_eq!(grid.front_col_index(), Some(1));
    assert_eq!(grid.back_col_index(), Some(3));
    grid.set(0, 4, 1.0f64.to_bits(), Unit::TimeUnit(TimeUnit::S), &arith);
    assert_eq!(grid.front_col_index(), Some(1));
    assert_eq!(grid.back_col_index(), Some(4));
    grid.set(0, 0, f64::INFINITY.to_bits(), Unit::TimeUnit(TimeUnit::S), &arith);
    grid.set(2, 5, 0.0f64.to_bits(), Unit::TimeUnit(TimeUnit::S), &arith);
    assert_eq!(grid.front_col_index(), Some(0));
    assert_eq!(grid.back_col_index(), Some(5));
}

#[test]
fn front_and_back_of_grids_without_cells() {
    for (length, count) in [(0, 0), (0, 3), (3, 0)] {
        let grid = Grid::new(Unit::TimeUnit(TimeUnit::S), length, count);
        assert_eq!(grid.front_col_index(), None);
        assert_eq!(grid.back_col_index(), None);
    }
}

#[test]
fn compare_neighbors_carries_the_baseline_over_missing_rows() {
    let mut grid = Grid::new(Unit::TimeUnit(TimeUnit::S), 6, 2);
    grid.set_column(
        0,
        &bits(&[10.0, f64::NAN, f64::NAN, 13.0, f64::NAN, 15.0]),
        Unit::TimeUnit(TimeUnit::S),
        &arith,
    );
    grid.set_column(
        1,
        &bits(&[f64::NAN, 2.0, f64::NAN, 5.0, 4.0, f64::NAN]),
        Unit::TimeUnit(TimeUnit::S),
        &arith,
    );
    let pairs = std::cell::RefCell::new(Vec::new());
    let compare = grid.clone_compare_neighbors(
        |base: u64, other: u64| {
            pairs.borrow_mut().push((f64::from_bits(base), f64::from_bits(other)));
            difference(base, other)
        },
        Unit::PureUnit(PureUnit::NoUnit),
    );
    assert_eq!(compare.unit(), Unit::PureUnit(PureUnit::NoUnit));

    let first = floats(compare.column(0));
    assert!(first[0].is_nan());
    assert!(first[1].is_nan());
    assert!(first[2].is_nan());
    assert_eq!(first[3], -3.0);
    assert!(first[4].is_nan());
    assert_eq!(first[5], -2.0);

    let second = floats(compare.column(1));
    assert!(second[0].is_nan());
    assert!(second[1].is_nan());
    assert!(second[2].is_nan());
    assert_eq!(second[3], -3.0);
    assert_eq!(second[4], 1.0);
    assert!(second[5].is_nan());

    let seen: Vec<(String, String)> =
        pairs.borrow().iter().map(|(a, b)| (format!("{}", a), format!("{}", b))).collect();
    let expected: Vec<(String, String)> = [
        ("10", "NaN"),
        ("10", "NaN"),
        ("10", "13"),
        ("13", "NaN"),
        ("13", "15"),
        ("NaN", "2"),
        ("2", "NaN"),
        ("2", "5"),
        ("5", "4"),
        ("4", "NaN"),
    ]
    .iter()
    .map(|(a, b)| (a.to_string(), b.to_string()))
    .collect();
    assert_eq!(seen, expected);
}

#[test]
fn compare_neighbors_first_row_is_missing() {
    for (length, count) in [(1, 1), (1, 4), (5, 2)] {
        let mut grid = Grid::new(Unit::TimeUnit(TimeUnit::S), length, count);
        for col in 0..count {
            for row in 0..length {
                grid.set(col, row, 1.0f64.to_bits(), Unit::TimeUnit(TimeUnit::S), &arith);
            }
        }
        let compare = grid.clone_compare_neighbors(
            |_: u64, _: u64| 7.0f64.to_bits(),
            Unit::TimeUnit(TimeUnit::S),
        );
        assert_eq!(compare.column_length(), length);
        assert_eq!(compare.column_count(), count);
        for col in 0..count {
            assert!(f64::from_bits(compare.get(col, 0)).is_nan());
            for row in 1..length {
                assert_eq!(f64::from_bits(compare.get(col, row)), 7.0);
            }
        }
    }
}

#[test]
fn compare_index_beyond_the_rows_is_all_missing() {
    let grid = seconds_3x3();
    for index in [3, 4, usize::MAX] {
        let compare = grid.clone_compare_index(
            |_: u64, _: u64| panic!("nothing to compare"),
            Unit::PureUnit(PureUnit::Percentage),
            index,
        );
        assert_eq!(compare.unit(), Unit::PureUnit(PureUnit::Percentage));
        assert_eq!(compare.column_length(), 3);
        assert_eq!(compare.column_count(), 3);
        assert_eq!(compare.len(), 9);
        for col in 0..3 {
            assert!(compare.column(col).iter().all(|cell| f64::from_bits(*cell).is_nan()));
        }
    }
}

#[test]
fn compare_index_hands_missing_values_to_the_function() {
    let mut grid = Grid::new(Unit::TimeUnit(TimeUnit::S), 3, 2);
    grid.set_column(0, &bits(&[f64::NAN, 2.0, 4.0]), Unit::TimeUnit(TimeUnit::S), &arith);
    grid.set_column(1, &bits(&[1.0, f64::NAN, 4.0]), Unit::TimeUnit(TimeUnit::S), &arith);
    let compare = grid.clone_compare_index(difference, Unit::TimeUnit(TimeUnit::S), 1);
    let first = floats(compare.column(0));
    assert!(first[0].is_nan());
    assert_eq!(first[1], 0.0);
    assert_eq!(first[2], -2.0);
    assert!(compare.column(1).iter().all(|cell| f64::from_bits(*cell).is_nan()));
}

#[test]
fn empty_grids_give_empty_results() {
    for (length, count) in [(0, 0), (0, 2), (2, 0)] {
        let grid = Grid::new(Unit::TimeUnit(TimeUnit::S), length, count);
        assert_eq!(grid.len(), 0);
        assert_eq!(grid.column_length(), length);
        assert_eq!(grid.column_count(), count);
        for col in 0..count {
            assert_eq!(grid.column(col).len(), 0);
        }
        let converted = grid.clone_convert_unit(&Unit::TimeUnit(TimeUnit::MS), &arith).unwrap();
        assert_eq!(converted.len(), 0);
        assert_eq!(converted.column_length(), length);
        assert_eq!(converted.column_count(), count);
        let neighbors = grid.clone_compare_neighbors(difference, Unit::TimeUnit(TimeUnit::S));
        assert_eq!(neighbors.len(), 0);
        assert_eq!(neighbors.column_length(), length);
        assert_eq!(neighbors.column_count(), count);
        let index = grid.clone_compare_index(difference, Unit::TimeUnit(TimeUnit::S), 0);
        assert_eq!(index.len(), 0);
        assert_eq!(index.column_length(), length);
        assert_eq!(index.column_count(), count);
    }
}

#[test]
fn clone_is_independent() {
    let grid = seconds_3x3();
    let mut copy = grid.clone();
    copy.set(0, 0, 42.0f64.to_bits(), Unit::TimeUnit(TimeUnit::S), &arith);
    assert_eq!(f64::from_bits(grid.get(0, 0)), 1.0);
    assert_eq!(f64::from_bits(copy.get(0, 0)), 42.0);
    assert_eq!(copy.column(1), grid.column(1));
    assert_eq!(copy.unit(), grid.unit());
}

#[test]
fn writes_can_be_chained() {
    let mut grid = Grid::new(Unit::TimeUnit(TimeUnit::MS), 2, 2);
    grid.set_column(0, &bits(&[1.0, 2.0]), Unit::TimeUnit(TimeUnit::S), &arith)
        .set_column(1, &bits(&[3.0, 4.0]), Unit::TimeUnit(TimeUnit::MS), &arith)
        .set(1, 1, 5.0f64.to_bits(), Unit::TimeUnit(TimeUnit::S), &arith)
        .set(0, 0, 6.0f64.to_bits(), Unit::TimeUnit(TimeUnit::MS), &arith);
    assert_eq!(floats(grid.column(0)), &[6.0, 2000.0]);
    assert_eq!(floats(grid.column(1)), &[3.0, 5000.0]);
}

fn sample(seed: &mut u64) -> f64 {
    *seed = seed.wrapping_mul(6364136223846793005).wrapping_add(1442695040888963407);
    let draw = (*seed >> 33) % 16;
    if draw < 5 {
        f64::NAN
    } else {
        (draw as f64 - 8.0) * 1.25
    }
}

fn sample_grid(seed: &mut u64, length: usize, count: usize) -> (Grid, Vec<Vec<f64>>) {
    let mut grid = Grid::new(Unit::TimeUnit(TimeUnit::S), length, count);
    let mut columns = Vec::new();
    for col in 0..count {
        let column: Vec<f64> = (0..length).map(|_| sample(seed)).collect();
        grid.set_column(col, &bits(&column), Unit::TimeUnit(TimeUnit::S), &arith);
        columns.push(column);
    }
    (grid, columns)
}

fn same_values(cells: &[u64], expected: &[f64]) -> bool {
    cells.len() == expected.len()
        && cells.iter().zip(expected).all(|(cell, value)| {
            let cell = f64::from_bits(*cell);
            (cell.is_nan() && value.is_nan()) || cell == *value
        })
}

#[test]
fn scans_agree_with_a_search_over_the_columns() {
    let mut seed = 7;
    for length in 0..6 {
        for count in 0..4 {
            for _ in 0..20 {
                let (grid, columns) = sample_grid(&mut seed, length, count);
                let present =
                    |row: usize| columns.iter().any(|column: &Vec<f64>| !column[row].is_nan());
                assert_eq!(grid.front_col_index(), (0..length).find(|row| present(*row)));
                assert_eq!(grid.back_col_index(), (0..length).rev().find(|row| present(*row)));
                for (col, column) in columns.iter().enumerate() {
                    assert!(same_values(grid.column(col), column));
                }
            }
        }
    }
}

#[test]
fn comparisons_agree_with_a_column_by_column_computation() {
    let mut seed = 11;
    for length in 0..6 {
        for count in 0..4 {
            for _ in 0..20 {
                let (grid, columns) = sample_grid(&mut seed, length, count);
                let neighbors =
                    grid.clone_compare_neighbors(difference, Unit::TimeUnit(TimeUnit::MS));
                assert_eq!(neighbors.unit(), Unit::TimeUnit(TimeUnit::MS));
                assert_eq!(neighbors.column_length(), length);
                assert_eq!(neighbors.column_count(), count);
                for (col, column) in columns.iter().enumerate() {
                    let mut expected = vec![f64::NAN; length];
                    let mut base = 0;
                    for row in 1..length {
                        expected[row] = column[base] - column[row];
                        if !column[row].is_nan() {
                            base = row;
                        }
                    }
                    assert!(same_values(neighbors.column(col), &expected));
                }
                for index in 0..length + 2 {
                    let compared =
                        grid.clone_compare_index(difference, Unit::TimeUnit(TimeUnit::US), index);
                    assert_eq!(compared.unit(), Unit::TimeUnit(TimeUnit::US));
                    assert_eq!(compared.column_length(), length);
                    assert_eq!(compared.column_count(), count);
                    for (col, column) in columns.iter().enumerate() {
                        let expected: Vec<f64> = column
                            .iter()
                            .map(|value| match index < length {
                                true => column[index] - value,
                                false => f64::NAN,
                            })
                            .collect();
                        assert!(same_values(compared.column(col), &expected));
                    }
                }
            }
        }
    }
}

#[test]
fn conversions_multiply_by_the_quotient_of_the_scales() {
    let scales = [
        (Unit::TimeUnit(TimeUnit::NS), 1e0),
        (Unit::TimeUnit(TimeUnit::US), 1e3),
        (Unit::TimeUnit(TimeUnit::MS), 1e6),
        (Unit::TimeUnit(TimeUnit::S), 1e9),
    ];
    let memory = [
        (Unit::MemoryUnit(MemoryUnit::B), 1e0),
        (Unit::MemoryUnit(MemoryUnit::KB), 1e3),
        (Unit::MemoryUnit(MemoryUnit::MB), 1e6),
        (Unit::MemoryUnit(MemoryUnit::GB), 1e9),
        (Unit::MemoryUnit(MemoryUnit::KIB), 1024.0),
        (Unit::MemoryUnit(MemoryUnit::MIB), 1024.0 * 1024.0),
        (Unit::MemoryUnit(MemoryUnit::GIB), 1024.0 * 1024.0 * 1024.0),
    ];
    let values = [0.0, 1.0, -2.5, 3.3, 1e-7, 123456789.125, f64::INFINITY];
    for family in [&scales[..], &memory[..]] {
        for (from, from_scale) in family {
            for (to, to_scale) in family {
                let mut grid = Grid::new(*from, values.len(), 1);
                grid.set_column(0, &bits(&values), *from, &arith);
                assert_eq!(floats(grid.column(0)), values);
                let converted = grid.clone_convert_unit(to, &arith).unwrap();
                assert_eq!(converted.unit(), *to);
                let factor = from_scale / to_scale;
                let expected: Vec<f64> = values.iter().map(|value| value * factor).collect();
                assert_eq!(floats(converted.column(0)), expected);

                let mut written = Grid::new(*to, values.len(), 2);
                written.set_column(1, &bits(&values), *from, &arith);
                assert_eq!(floats(written.column(1)), expected);
                for (row, value) in values.iter().enumerate() {
                    written.set(0, row, value.to_bits(), *from, &arith);
                }
                assert_eq!(floats(written.column(0)), expected);
            }
        }
    }
}
