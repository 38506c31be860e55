use unictris::shape::Shape;

fn turn_quarter(cells: &[(u8, u8); 4]) -> Vec<(u8, u8)> {
    let turned: Vec<(u8, u8)> = cells.iter().map(|&(x, y)| (3 - y, x)).collect();
    let min_x = turned.iter().map(|c| c.0).min().unwrap();
    let min_y = turned.iter().map(|c| c.1).min().unwrap();
    turned.iter().map(|&(x, y)| (x - min_x, y - min_y)).collect()
}

#[test]
fn every_shape_has_four_distinct_normalized_cells() {
    for kind in 0..7u8 {
        let s = Shape::new(kind);
        for r in 0..4u8 {
            let cells = s.coor(r);
            for i in 0..4 {
                assert!(cells[i].0 < 4 && cells[i].1 < 4);
                for j in 0..4 {
                    if i != j {
                        assert_ne!(cells[i], cells[j]);
                    }
                }
            }
            assert_eq!(cells.iter().map(|c| c.0).min(), Some(0));
            assert_eq!(cells.iter().map(|c| c.1).min(), Some(0));
        }
    }
}

#[test]
fn a_quarter_turn_gives_the_next_orientation() {
    for kind in 0..7u8 {
        let s = Shape::new(kind);
        for r in 0..4u8 {
            let next = s.coor((r + 1) % 4);
            assert_eq!(turn_quarter(&s.coor(r)), next.to_vec());
        }
    }
}

#[test]
fn four_quarter_turns_give_back_the_cells() {
    for kind in 0..7u8 {
        let s = Shape::new(kind);
        for r in 0..4u8 {
            let start = s.coor(r);
            let mut cells = start;
            for _ in 0..4 {
                let t = turn_quarter(&cells);
                cells = [t[0], t[1], t[2], t[3]];
            }
            assert_eq!(cells, start);
        }
    }
}

#[test]
fn dim_is_the_bounding_box_of_coor() {
    for kind in 0..7u8 {
        let s = Shape::new(kind);
        for r in 0..4u8 {
            let cells = s.coor(r);
            let w = cells.iter().map(|c| c.0).max().unwrap() + 1;
            let h = cells.iter().map(|c| c.1).max().unwrap() + 1;
            assert_eq!(s.dim(r), (w, h));
        }
    }
}

#[test]
fn exact_cells_and_sizes() {
    let s = Shape::new(3);
    assert_eq!(s.coor(0), [(0, 0), (1, 0), (2, 0), (2, 1)]);
    assert_eq!(s.dim(0), (3, 2));
    assert_eq!(s.dim(1), (2, 3));
    let bar = Shape::new(5);
    assert_eq!(bar.coor(0), [(0, 0), (0, 1), (0, 2), (0, 3)]);
    assert_eq!(bar.coor(1), [(3, 0), (2, 0), (1, 0), (0, 0)]);
    assert_eq!(bar.dim(1), (4, 1));
    assert_eq!(Shape::new(2).dim(3), (2, 2));
}

#[test]
fn kind_is_kept() {
    for kind in 0..7u8 {
        assert_eq!(Shape::new(kind).kind(), kind);
    }
}

#[test]
fn random_shapes_have_a_valid_kind() {
    let mut rng = rand::rng();
    let mut seen = [false; 7];
    for _ in 0..2000 {
        let k = Shape::random(&mut rng).kind();
        assert!(k < 7);
        seen[k as usize] = true;
    }
    assert!(seen.iter().all(|&b| b));
}

#[test]
fn occupancy_marks_the_cells() {
    let g = Shape::new(3).occupancy(0);
    assert_eq!(g[0], [true, true, true, false]);
    assert_eq!(g[1], [false, false, true, false]);
    assert_eq!(g[2], [false; 4]);
    assert_eq!(g[3], [false; 4]);
    for kind in 0..7u8 {
        for r in 0..4u8 {
            let g = Shape::new(kind).occupancy(r);
            let n: usize = g.iter().map(|row| row.iter().filter(|&&b| b).count()).sum();
            assert_eq!(n, 4);
        }
    }
}
