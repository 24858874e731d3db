use wrapping_coords2d::{ErrorKind, Neighborhood, WrappingCoords2d};

fn grid(w: i32, h: i32) -> WrappingCoords2d {
    WrappingCoords2d::new(w, h).unwrap()
}

fn ring_offsets(n: Neighborhood) -> Vec<(i32, i32)> {
    n.table()
}

#[test]
fn getters_report_dimensions() {
    let g = grid(10, 7);
    assert_eq!(g.width(), 10);
    assert_eq!(g.height(), 7);
    assert_eq!(g.size(), 70);
    assert_eq!(g.size32(), 70);
}

#[test]
fn construction_rejects_non_positive_dimensions() {
    assert_eq!(WrappingCoords2d::new(0, 5), Err(ErrorKind::DimensionsLessThan1));
    assert_eq!(WrappingCoords2d::new(5, -1), Err(ErrorKind::DimensionsLessThan1));
    assert_eq!(WrappingCoords2d::new(-3, -3), Err(ErrorKind::DimensionsLessThan1));
}

#[test]
fn construction_rejects_overflowing_size() {
    assert_eq!(WrappingCoords2d::new(65536, 65536), Err(ErrorKind::DimensionsTooLarge));
    assert_eq!(WrappingCoords2d::new(i32::MAX, 2), Err(ErrorKind::DimensionsTooLarge));
}

#[test]
fn construction_accepts_largest_sizes() {
    let g = grid(46340, 46340);
    assert_eq!(g.size(), 46340 * 46340);
    let g = grid(i32::MAX, 1);
    assert_eq!(g.size32(), i32::MAX);
    assert_eq!(WrappingCoords2d::new(46341, 46341), Err(ErrorKind::DimensionsTooLarge));
}

#[test]
fn error_messages() {
    assert_eq!(ErrorKind::DimensionsLessThan1.message(), "width or height less than 1");
    assert_eq!(
        ErrorKind::DimensionsTooLarge.message(),
        "the product of width and height exceeds i32::MAX = 2147483647"
    );
}

#[test]
fn modulo_is_euclidean() {
    assert_eq!(-11 % 10, -1);
    assert_eq!(WrappingCoords2d::modulo(-11, 10), 9);
    assert_eq!(WrappingCoords2d::modulo(11, 10), 1);
    assert_eq!(WrappingCoords2d::modulo(-10, 10), 0);
    assert_eq!(WrappingCoords2d::modulo(i32::MIN, 7), 5);
    assert_eq!(WrappingCoords2d::modulo(i32::MAX, 1), 0);
    for lhs in [-1000, -37, -1, 0, 1, 36, 999, i32::MIN, i32::MAX] {
        for rhs in [1, 2, 3, 10, 97, i32::MAX] {
            let m = WrappingCoords2d::modulo(lhs, rhs);
            assert!(0 <= m && m < rhs);
            assert_eq!((lhs as i64 - m as i64) % rhs as i64, 0);
        }
    }
}

#[test]
fn concrete_ten_by_ten() {
    let g = grid(10, 10);
    assert_eq!(g.index(5, 9), 95);
    assert_eq!(g.index(-1, -1), 99);
    assert_eq!(g.coords(91), (1, 9));
    assert_eq!(g.shift(95, 1, 0), 96);
    assert_eq!(g.shift(95, -1, -1), 84);
    assert_eq!(g.neighbors4(95), vec![96, 5, 94, 85]);
    assert_eq!(g.neighbors4(0), vec![1, 10, 9, 90]);
    assert_eq!(g.neighbors8(95), vec![96, 6, 5, 4, 94, 84, 85, 86]);
    assert_eq!(g.neighbors8(0), vec![1, 11, 10, 19, 9, 99, 90, 91]);
    assert_eq!(
        g.neighbors16(95),
        vec![97, 7, 17, 16, 15, 14, 13, 3, 93, 83, 73, 74, 75, 76, 77, 87]
    );
    assert_eq!(
        g.neighbors16(0),
        vec![2, 12, 22, 21, 20, 29, 28, 18, 8, 98, 88, 89, 80, 81, 82, 92]
    );
    assert_eq!(
        g.neighbors24(95),
        vec![
            96, 6, 5, 4, 94, 84, 85, 86, 97, 7, 17, 16, 15, 14, 13, 3, 93, 83, 73, 74, 75, 76, 77,
            87
        ]
    );
    assert_eq!(
        g.neighbors24(0),
        vec![
            1, 11, 10, 19, 9, 99, 90, 91, 2, 12, 22, 21, 20, 29, 28, 18, 8, 98, 88, 89, 80, 81, 82,
            92
        ]
    );
}

#[test]
fn neighbors_from_coordinates() {
    let g = grid(10, 10);
    assert_eq!(g.neighbors4xy(5, 9), vec![96, 5, 94, 85]);
    assert_eq!(g.neighbors4xy(0, 0), vec![1, 10, 9, 90]);
    assert_eq!(g.neighbors8xy(5, 9), vec![96, 6, 5, 4, 94, 84, 85, 86]);
    assert_eq!(g.neighbors8xy(0, 0), vec![1, 11, 10, 19, 9, 99, 90, 91]);
    assert_eq!(
        g.neighbors16xy(5, 9),
        vec![97, 7, 17, 16, 15, 14, 13, 3, 93, 83, 73, 74, 75, 76, 77, 87]
    );
    assert_eq!(
        g.neighbors16xy(0, 0),
        vec![2, 12, 22, 21, 20, 29, 28, 18, 8, 98, 88, 89, 80, 81, 82, 92]
    );
    assert_eq!(g.neighbors24xy(-5, 19), g.neighbors24(95));
    assert_eq!(g.neighbors24xy(10, 10), g.neighbors24(0));
}

#[test]
fn square_round_trip() {
    for n in [1, 2, 5, 10, 13] {
        let g = grid(n, n);
        for idx in 0..g.size() {
            let (x, y) = g.coords(idx);
            assert_eq!(g.index(x, y), idx);
        }
    }
}

#[test]
fn non_square_round_trip_fails() {
    // `coords` divides by the height, so on a grid that is not square the
    // second value is not the row.
    let g = grid(21, 2);
    assert_eq!(g.coords(21), (0, 10));
    assert_eq!(g.index(0, 10), 0);
    assert_ne!(g.index(0, 10), 21);
}

#[test]
fn shift_is_periodic() {
    let g = grid(7, 4);
    for idx in 0..g.size() {
        for (dx, dy) in [(0, 0), (1, -2), (-9, 5), (13, 13)] {
            let r = g.shift(idx, dx, dy);
            for k in [-3, -1, 1, 2] {
                assert_eq!(g.shift(idx, dx + k * g.width(), dy), r);
                assert_eq!(g.shift(idx, dx, dy + k * g.height()), r);
            }
        }
    }
}

#[test]
fn shift_composes_with_index() {
    for (w, h) in [(7, 4), (1, 9), (9, 1), (10, 10)] {
        let g = grid(w, h);
        for (x, y) in [(0, 0), (3, -2), (-15, 22), (100, -100)] {
            for (dx, dy) in [(1, 0), (-1, -1), (2, -2), (-30, 45)] {
                assert_eq!(g.shift(g.index(x, y), dx, dy), g.index(x + dx, y + dy));
            }
        }
    }
}

#[test]
fn shift_handles_extreme_offsets() {
    let g = grid(46340, 46340);
    let r = g.shift(0, i32::MIN, i32::MAX);
    let (x, y) = g.coords(r);
    assert_eq!(x, WrappingCoords2d::modulo(i32::MIN, 46340));
    assert_eq!(y, WrappingCoords2d::modulo(i32::MAX, 46340));
    assert_eq!(g.index(i32::MIN, i32::MAX), r);
}

#[test]
fn neighbor_sets_are_distinct() {
    for (w, h) in [(5, 5), (6, 9), (12, 5)] {
        let g = grid(w, h);
        for idx in 0..g.size() {
            for list in [g.neighbors4(idx), g.neighbors8(idx), g.neighbors16(idx), g.neighbors24(idx)] {
                let mut sorted = list.clone();
                sorted.sort();
                sorted.dedup();
                assert_eq!(sorted.len(), list.len());
                assert!(!list.contains(&idx));
            }
        }
    }
    let g = grid(5, 5);
    assert_eq!(g.neighbors4(12).len(), 4);
    assert_eq!(g.neighbors8(12).len(), 8);
    assert_eq!(g.neighbors16(12).len(), 16);
    assert_eq!(g.neighbors24(12).len(), 24);
}

#[test]
fn neighbors_agree_with_shift() {
    let g = grid(6, 3);
    let cases = [
        (Neighborhood::Four, 4),
        (Neighborhood::Eight, 8),
        (Neighborhood::Sixteen, 16),
        (Neighborhood::TwentyFour, 24),
    ];
    for (n, len) in cases {
        let offsets = ring_offsets(n);
        assert_eq!(offsets.len(), len);
        for idx in 0..g.size() {
            let expected: Vec<usize> = offsets.iter().map(|&(dx, dy)| g.shift(idx, dx, dy)).collect();
            let got = match n {
                Neighborhood::Four => g.neighbors4(idx),
                Neighborhood::Eight => g.neighbors8(idx),
                Neighborhood::Sixteen => g.neighbors16(idx),
                Neighborhood::TwentyFour => g.neighbors24(idx),
            };
            assert_eq!(got, expected);
        }
    }
}

#[test]
fn single_cell_grid_wraps_onto_itself() {
    let g = grid(1, 1);
    assert_eq!(g.index(-7, 12), 0);
    assert_eq!(g.shift(0, 3, -3), 0);
    assert_eq!(g.neighbors4(0), vec![0; 4]);
    assert_eq!(g.neighbors24(0), vec![0; 24]);
    let mut calls = 0;
    g.for_each16(|i, neighbors| {
        assert_eq!(i, 0);
        assert_eq!(neighbors, &vec![0; 16]);
        calls += 1;
    });
    assert_eq!(calls, 1);
}

#[test]
fn one_column_grid() {
    let g = grid(1, 10000000);
    assert_eq!(g.index(5, -1), 9999999);
    assert_eq!(g.neighbors4(0), vec![0, 1, 0, 9999999]);
    assert_eq!(g.neighbors8(9999999), vec![9999999, 0, 0, 0, 9999999, 9999998, 9999998, 9999998]);
}

fn check_for_each(g: &WrappingCoords2d) {
    let mut seen = Vec::new();
    g.for_each4(|i, neighbors| {
        assert_eq!(neighbors[0], g.shift(i, 1, 0));
        assert_eq!(neighbors[1], g.shift(i, 0, 1));
        assert_eq!(neighbors[2], g.shift(i, -1, 0));
        assert_eq!(neighbors[3], g.shift(i, 0, -1));
        seen.push(i);
    });
    assert_eq!(seen, (0..g.size()).collect::<Vec<usize>>());

    let mut seen = Vec::new();
    g.for_each8(|i, neighbors| {
        assert_eq!(neighbors, &g.neighbors8(i));
        seen.push(i);
    });
    assert_eq!(seen, (0..g.size()).collect::<Vec<usize>>());

    let mut seen = Vec::new();
    g.for_each16(|i, neighbors| {
        assert_eq!(neighbors, &g.neighbors16(i));
        seen.push(i);
    });
    assert_eq!(seen, (0..g.size()).collect::<Vec<usize>>());

    let mut seen = Vec::new();
    g.for_each24(|i, neighbors| {
        assert_eq!(neighbors, &g.neighbors24(i));
        seen.push(i);
    });
    assert_eq!(seen, (0..g.size()).collect::<Vec<usize>>());
}

#[test]
fn for_each_visits_every_cell_in_order() {
    for (w, h) in [(10, 10), (1, 1), (1, 7), (7, 1), (2, 2), (21, 2), (3, 8)] {
        check_for_each(&grid(w, h));
    }
}

#[test]
fn for_each_pair_flattens_the_lists() {
    let g = grid(10, 10);
    let mut pairs = Vec::new();
    g.for_each_pair4(|i, n| {
        assert!(i != n);
        pairs.push((i, n));
    });
    assert_eq!(pairs.len(), 4 * g.size());
    let mut expected = Vec::new();
    for i in 0..g.size() {
        for n in g.neighbors4(i) {
            expected.push((i, n));
        }
    }
    assert_eq!(pairs, expected);

    let mut calls = 0;
    g.for_each_pair8(|i, n| {
        assert!(i != n);
        calls += 1;
    });
    assert_eq!(calls, 8 * g.size());

    let mut calls = 0;
    g.for_each_pair16(|i, n| {
        assert!(i != n);
        calls += 1;
    });
    assert_eq!(calls, 16 * g.size());

    let mut calls = 0;
    g.for_each_pair24(|i, n| {
        assert!(i != n);
        calls += 1;
    });
    assert_eq!(calls, 24 * g.size());
}

#[test]
fn walk_reports_each_cell_then_stops() {
    let g = grid(4, 3);
    let mut walk = g.walk(Neighborhood::Sixteen);
    let mut neighbors = Vec::new();
    for expected in 0..g.size() {
        assert_eq!(walk.next_cell(&mut neighbors), Some(expected));
        assert_eq!(neighbors, g.neighbors16(expected));
    }
    let before = neighbors.clone();
    assert_eq!(walk.next_cell(&mut neighbors), None);
    assert_eq!(walk.next_cell(&mut neighbors), None);
    assert_eq!(neighbors, before);
}
