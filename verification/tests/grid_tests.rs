use way_edges::grid::{arrangement, GrideBoxBuilder, TrayGrid};

#[test]
fn arrangement_small_counts() {
    assert_eq!(arrangement(1), (1, 1));
    assert_eq!(arrangement(2), (1, 2));
    assert_eq!(arrangement(3), (2, 2));
    assert_eq!(arrangement(4), (2, 2));
    assert_eq!(arrangement(5), (2, 3));
    assert_eq!(arrangement(7), (3, 3));
    assert_eq!(arrangement(10), (3, 4));
    assert_eq!(arrangement(16), (4, 4));
}

#[test]
fn arrangement_matches_float_search() {
    for n in 1usize..200 {
        let nf = n as f64;
        let max_col = nf.sqrt().ceil();
        let mut best = (f64::INFINITY, 1.0);
        let mut c = 1.0;
        while c <= max_col {
            let rows = (nf / c).ceil();
            if rows < best.0 {
                best = (rows, c);
            }
            c += 1.0;
        }
        assert_eq!(arrangement(n), (best.0 as usize, best.1 as usize), "n = {n}");
    }
}

#[test]
fn builder_places_at_positions() {
    let mut b: GrideBoxBuilder<&str> = GrideBoxBuilder::new();
    assert_eq!(b.add("a", (0, 0)), (0, 0));
    assert_eq!(b.add("b", (1, 2)), (1, 2));
    // -1 means the current count
    assert_eq!(b.add("c", (-1, -1)), (2, 3));
    let (cells, extent) = b.build();
    assert_eq!(cells, vec![((0, 0), "a"), ((1, 2), "b"), ((2, 3), "c")]);
    assert_eq!(extent, (3, 4));
}

#[test]
fn builder_build_empty() {
    let b: GrideBoxBuilder<u8> = GrideBoxBuilder::new();
    let (cells, extent) = b.build();
    assert!(cells.is_empty());
    assert_eq!(extent, (0, 0));
}

#[test]
fn builder_replaces_cell_and_keeps_row_order() {
    let mut b: GrideBoxBuilder<u8> = GrideBoxBuilder::new();
    b.add(1, (0, 3));
    b.add(2, (0, 1));
    b.add(3, (0, 1));
    let (cells, extent) = b.build();
    assert_eq!(cells, vec![((0, 1), 3), ((0, 3), 1)]);
    assert_eq!(extent, (1, 4));
}

#[test]
fn tray_grid_add_and_remove() {
    let mut g = TrayGrid::new();
    assert_eq!(g.row_col_num(), (0, 0));
    for id in ["a", "b", "c", "d", "e"] {
        g.add(id.to_string());
    }
    assert_eq!(g.row_col_num(), (2, 3));
    assert_eq!(g.row_index(), &vec![0, 3]);
    g.rm("c");
    assert_eq!(g.items(), &vec!["a".to_string(), "b".to_string(), "d".to_string(), "e".to_string()]);
    assert_eq!(g.row_col_num(), (2, 2));
    assert_eq!(g.row_index(), &vec![0, 2]);
    // removing an unknown id changes nothing
    g.rm("zz");
    assert_eq!(g.items().len(), 4);
    for id in ["a", "b", "d", "e"] {
        g.rm(id);
    }
    assert_eq!(g.row_col_num(), (0, 0));
    assert!(g.row_index().is_empty());
}
