use crack_simulator::edge::{Edge, EdgeIndex};

fn at(row: usize, col: usize, ty: usize) -> Option<EdgeIndex> {
    Some(EdgeIndex { row, col, ty })
}

#[test]
fn test_get_adjacent_edges() {
    let e = EdgeIndex { row: 0, col: 0, ty: 0 };

    let mut e3 = e.clone();
    e3.ty = 2;

    let mut e4 = e.clone();
    e4.ty = 1;
    e4.col = 1;
    let o = Edge::get_adjacent_edges(e, 10);
    assert!(o[0].is_none());
    assert!(o[1].is_none());
    assert!(o[2].unwrap() == e3);
    assert!(o[3].unwrap() == e4);

    let e = EdgeIndex { row: 1, col: 1, ty: 1 };
    let e1 = EdgeIndex { row: 1, col: 0, ty: 2 };
    let e2 = EdgeIndex { row: 1, col: 0, ty: 0 };
    let e3 = EdgeIndex { row: 2, col: 1, ty: 0 };
    let e4 = EdgeIndex { row: 1, col: 1, ty: 2 };
    let o = Edge::get_adjacent_edges(e, 10);
    assert!(o[0].unwrap() == e1);
    assert!(o[1].unwrap() == e2);
    assert!(o[2].unwrap() == e3);
    assert!(o[3].unwrap() == e4);

    let e = EdgeIndex { row: 0, col: 1, ty: 1 };
    let e1 = EdgeIndex { row: 0, col: 0, ty: 2 };
    let e2 = EdgeIndex { row: 0, col: 0, ty: 0 };
    let e3 = EdgeIndex { row: 1, col: 0, ty: 0 };
    let e4 = EdgeIndex { row: 0, col: 1, ty: 2 };
    let o = Edge::get_adjacent_edges(e, 10);
    assert!(o[0].unwrap() == e1);
    assert!(o[1].unwrap() == e2);
    assert!(o[2].unwrap() == e3);
    assert!(o[3].unwrap() == e4);

    let e = EdgeIndex { row: 0, col: 1, ty: 2 };
    let e1 = EdgeIndex { row: 0, col: 1, ty: 0 };
    let e2 = EdgeIndex { row: 0, col: 2, ty: 1 };
    let e3 = EdgeIndex { row: 0, col: 1, ty: 1 };
    let e4 = EdgeIndex { row: 1, col: 0, ty: 0 };
    let o = Edge::get_adjacent_edges(e, 10);
    assert!(o[0].unwrap() == e1);
    assert!(o[1].unwrap() == e2);
    assert!(o[2].unwrap() == e3);
    assert!(o[3].unwrap() == e4);

    let e = EdgeIndex { row: 1, col: 1, ty: 2 };
    let e1 = EdgeIndex { row: 1, col: 1, ty: 0 };
    let e2 = EdgeIndex { row: 1, col: 2, ty: 1 };
    let e3 = EdgeIndex { row: 1, col: 1, ty: 1 };
    let e4 = EdgeIndex { row: 2, col: 1, ty: 0 };
    let o = Edge::get_adjacent_edges(e, 10);
    assert!(o[0].unwrap() == e1);
    assert!(o[1].unwrap() == e2);
    assert!(o[2].unwrap() == e3);
    assert!(o[3].unwrap() == e4);
}

#[test]
fn first_horizontal_edge_of_a_ten_by_ten_lattice() {
    let o = Edge::get_adjacent_edges(EdgeIndex { row: 0, col: 0, ty: 0 }, 10);
    assert_eq!(o, [None, None, at(0, 0, 2), at(0, 1, 1)]);
}

#[test]
fn horizontal_edges_by_row_parity() {
    // Even row: the apex above stands in the same column.
    let o = Edge::get_adjacent_edges(EdgeIndex { row: 4, col: 3, ty: 0 }, 10);
    assert_eq!(o, [at(3, 3, 1), at(3, 3, 2), at(4, 3, 2), at(4, 4, 1)]);
    // Odd row: the apex above stands one column to the right.
    let o = Edge::get_adjacent_edges(EdgeIndex { row: 5, col: 3, ty: 0 }, 10);
    assert_eq!(o, [at(4, 4, 1), at(4, 4, 2), at(5, 3, 2), at(5, 4, 1)]);
}

#[test]
fn slash_edges_by_row_parity_and_first_column() {
    let o = Edge::get_adjacent_edges(EdgeIndex { row: 4, col: 3, ty: 1 }, 10);
    assert_eq!(o, [at(4, 2, 2), at(4, 2, 0), at(5, 2, 0), at(4, 3, 2)]);
    let o = Edge::get_adjacent_edges(EdgeIndex { row: 5, col: 3, ty: 1 }, 10);
    assert_eq!(o, [at(5, 2, 2), at(5, 2, 0), at(6, 3, 0), at(5, 3, 2)]);
    // First column of an odd row: nothing to the left.
    let o = Edge::get_adjacent_edges(EdgeIndex { row: 5, col: 0, ty: 1 }, 10);
    assert_eq!(o, [None, None, at(6, 0, 0), at(5, 0, 2)]);
    // First column of an even row, where the lattice has no such edge:
    // both sides reach to the left and are cut off.
    let o = Edge::get_adjacent_edges(EdgeIndex { row: 4, col: 0, ty: 1 }, 10);
    assert_eq!(o, [None, None, None, None]);
}

#[test]
fn backslash_edges_by_row_parity_and_borders() {
    let o = Edge::get_adjacent_edges(EdgeIndex { row: 4, col: 3, ty: 2 }, 10);
    assert_eq!(o, [at(4, 3, 0), at(4, 4, 1), at(4, 3, 1), at(5, 2, 0)]);
    let o = Edge::get_adjacent_edges(EdgeIndex { row: 5, col: 3, ty: 2 }, 10);
    assert_eq!(o, [at(5, 3, 0), at(5, 4, 1), at(5, 3, 1), at(6, 3, 0)]);
    // Last column: the side to the right is cut off as a whole.
    let o = Edge::get_adjacent_edges(EdgeIndex { row: 4, col: 9, ty: 2 }, 10);
    assert_eq!(o, [None, None, at(4, 9, 1), at(5, 8, 0)]);
    let o = Edge::get_adjacent_edges(EdgeIndex { row: 0, col: 9, ty: 2 }, 10);
    assert_eq!(o, [None, None, at(0, 9, 1), at(1, 8, 0)]);
    // First column of an even row: the side to the left is cut off as a
    // whole.
    let o = Edge::get_adjacent_edges(EdgeIndex { row: 4, col: 0, ty: 2 }, 10);
    assert_eq!(o, [at(4, 0, 0), at(4, 1, 1), None, None]);
}

#[test]
fn every_side_has_two_entries_or_none() {
    let coordinates = [0, 1, 2, 3, 8, 9, 10, usize::MAX - 1, usize::MAX];
    for n_cols in [0, 1, 2, 10, usize::MAX] {
        for row in coordinates {
            for col in coordinates {
                for ty in 0..3 {
                    let o = Edge::get_adjacent_edges(EdgeIndex { row, col, ty }, n_cols);
                    assert_eq!(o[0].is_some(), o[1].is_some());
                    assert_eq!(o[2].is_some(), o[3].is_some());
                }
            }
        }
    }
}

#[test]
fn addresses_at_the_end_of_the_machine_range_have_no_side_beyond() {
    let last = usize::MAX;
    let o = Edge::get_adjacent_edges(EdgeIndex { row: 2, col: last, ty: 0 }, 10);
    assert_eq!(o, [at(1, last, 1), at(1, last, 2), None, None]);
    let o = Edge::get_adjacent_edges(EdgeIndex { row: 3, col: last, ty: 0 }, 10);
    assert_eq!(o, [None, None, None, None]);
    let o = Edge::get_adjacent_edges(EdgeIndex { row: last, col: 4, ty: 1 }, 10);
    assert_eq!(o, [at(last, 3, 2), at(last, 3, 0), None, None]);
    let o = Edge::get_adjacent_edges(EdgeIndex { row: last, col: last, ty: 2 }, 10);
    assert_eq!(o, [None, None, None, None]);
}

#[test]
fn adjacent_edges_depend_on_the_address_and_width_only() {
    let i = EdgeIndex { row: 7, col: 2, ty: 2 };
    assert_eq!(Edge::get_adjacent_edges(i, 10), Edge::get_adjacent_edges(i, 10));
    // The width matters for the last column only.
    assert_eq!(Edge::get_adjacent_edges(i, 10), Edge::get_adjacent_edges(i, 500));
    assert_eq!(Edge::get_adjacent_edges(i, 3)[1], None);
}
