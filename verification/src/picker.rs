use vstd::prelude::*;
use crate::edge::EdgeIndex;
use crate::graph::Graph;
use crate::lattice::{
    all_edges, cell_edges, edge_count, edge_exists, lattice_edges, lemma_all_edges,
    lemma_lattice_edges_prefix, lemma_row_edges_len, lemma_row_edges_prefix, place_edges,
    row_edges,
};

verus! {

/// A number drawn by `rand::random::<usize>()`, which samples the standard
/// distribution with the thread's generator.  Nothing is claimed of the
/// number.
#[verifier::external_body]
fn random_draw() -> (draw: usize) {
    rand::random::<usize>()
}

impl Graph {
    /// The number of edges of the lattice.
    pub fn edge_total(&self) -> (n: usize)
        requires
            self.wf(),
        ensures
            n == edge_count(self@.rows, self@.cols),
            n == all_edges(self@.rows, self@.cols).len(),
    {
        let rows = self.rows();
        let cols = self.cols();
        proof {
            self.lemma_view_wf();
            lemma_all_edges(rows as nat, cols as nat);
        }
        if rows == 0 || cols == 0 {
            0
        } else if rows == 1 {
            assert((rows - 1) * (3 * cols - 2) == 0) by (nonlinear_arith)
                requires
                    rows == 1,
            ;
            cols - 1
        } else {
            assert(3 * cols - 2 <= (rows - 1) * (3 * cols - 2)) by (nonlinear_arith)
                requires
                    rows >= 2,
                    cols >= 1,
            ;
            let per_row = cols + (cols - 1) + (cols - 1);
            assert((rows - 1) * per_row == (rows - 1) * (3 * cols - 2)) by (nonlinear_arith)
                requires
                    per_row == 3 * cols - 2,
            ;
            (rows - 1) * per_row + (cols - 1)
        }
    }

    /// The number of edges in row `r`.
    fn row_total(&self, r: usize) -> (n: usize)
        requires
            self.wf(),
            r < self@.rows,
        ensures
            n == row_edges(self@.rows, self@.cols, r as nat, self@.cols).len(),
    {
        let rows = self.rows();
        let cols = self.cols();
        proof {
            self.lemma_view_wf();
            lemma_row_edges_len(rows as nat, cols as nat, r as nat, cols as nat);
        }
        if cols == 0 {
            0
        } else if r + 1 < rows {
            assert(3 * cols - 2 <= (rows - 1) * (3 * cols - 2)) by (nonlinear_arith)
                requires
                    rows >= 2,
                    cols >= 1,
            ;
            cols + (cols - 1) + (cols - 1)
        } else {
            cols - 1
        }
    }

    /// The edge of row `r` that stands at place `j` of the row's edges in
    /// the order of `row_edges`.
    fn nth_in_row(&self, r: usize, j: usize) -> (i: EdgeIndex)
        requires
            self.wf(),
            r < self@.rows,
            j < row_edges(self@.rows, self@.cols, r as nat, self@.cols).len(),
        ensures
            i == row_edges(self@.rows, self@.cols, r as nat, self@.cols)[j as int],
    {
        let cols = self.cols();
        let ghost rows = self@.rows;
        let ghost whole = row_edges(rows, cols as nat, r as nat, cols as nat);
        let mut seen: usize = 0;
        let mut c: usize = 0;
        while c < cols
            invariant
                c <= cols,
                self.wf(),
                rows == self@.rows,
                cols == self@.cols,
                r < rows,
                whole == row_edges(rows, cols as nat, r as nat, cols as nat),
                j < whole.len(),
                seen == row_edges(rows, cols as nat, r as nat, c as nat).len(),
                seen <= j,
            decreases cols - c,
        {
            let ghost before = row_edges(rows, cols as nat, r as nat, c as nat);
            let ghost cell = cell_edges(rows, cols as nat, r as nat, c as nat);
            let ghost first = place_edges(rows, cols as nat, r as nat, c as nat, 0);
            let ghost second = place_edges(rows, cols as nat, r as nat, c as nat, 1);
            let ghost third = place_edges(rows, cols as nat, r as nat, c as nat, 2);
            proof {
                lemma_row_edges_prefix(rows, cols as nat, r as nat, (c + 1) as nat, cols as nat);
                assert(row_edges(rows, cols as nat, r as nat, (c + 1) as nat) == before + cell);
                assert(cell == first + second + third);
            }
            let h = EdgeIndex { row: r, col: c, ty: 0 };
            if self.get_edge(h).is_some() {
                if seen == j {
                    assert((before + cell)[j as int] == first[0]);
                    return h;
                }
                seen = seen + 1;
            }
            let s = EdgeIndex { row: r, col: c, ty: 1 };
            if self.get_edge(s).is_some() {
                if seen == j {
                    assert((before + cell)[j as int] == second[0]);
                    return s;
                }
                seen = seen + 1;
            }
            let b = EdgeIndex { row: r, col: c, ty: 2 };
            if self.get_edge(b).is_some() {
                if seen == j {
                    assert((before + cell)[j as int] == third[0]);
                    return b;
                }
                seen = seen + 1;
            }
            c = c + 1;
        }
        EdgeIndex { row: r, col: 0, ty: 0 }
    }

    /// The edge at place `k` of `all_edges`; `None` where `k` is not below
    /// the number of edges.
    pub fn nth_edge(&self, k: usize) -> (found: Option<EdgeIndex>)
        requires
            self.wf(),
        ensures
            k < all_edges(self@.rows, self@.cols).len() ==> found == Some(
                all_edges(self@.rows, self@.cols)[k as int],
            ),
            k >= all_edges(self@.rows, self@.cols).len() ==> found is None,
    {
        let rows = self.rows();
        let cols = self.cols();
        let mut seen: usize = 0;
        let mut r: usize = 0;
        while r < rows
            invariant
                r <= rows,
                self.wf(),
                rows == self@.rows,
                cols == self@.cols,
                seen == lattice_edges(rows as nat, cols as nat, r as nat).len(),
                seen <= k,
            decreases rows - r,
        {
            proof {
                lemma_lattice_edges_prefix(rows as nat, cols as nat, (r + 1) as nat, rows as nat);
            }
            let in_row = self.row_total(r);
            if k - seen < in_row {
                let i = self.nth_in_row(r, k - seen);
                assert(lattice_edges(rows as nat, cols as nat, (r + 1) as nat)[k as int] == i);
                return Some(i);
            }
            seen = seen + in_row;
            r = r + 1;
        }
        None
    }

    /// The edge that the number `draw` picks: the one at place
    /// `draw % n` of `all_edges`, where `n` is the number of edges; `None`
    /// where the lattice has no edge.
    pub fn edge_for_draw(&self, draw: usize) -> (picked: Option<EdgeIndex>)
        requires
            self.wf(),
        ensures
            edge_count(self@.rows, self@.cols) == 0 ==> picked is None,
            edge_count(self@.rows, self@.cols) > 0 ==> picked == Some(
                all_edges(self@.rows, self@.cols)[(draw as nat % edge_count(self@.rows, self@.cols)) as int],
            ),
    {
        let n = self.edge_total();
        if n == 0 {
            None
        } else {
            self.nth_edge(draw % n)
        }
    }

    /// An edge of the lattice picked at random, each with the same chance up
    /// to the rounding of a machine word by the number of edges; `None` where
    /// the lattice has no edge.
    pub fn get_random_edge_index(&self) -> (picked: Option<EdgeIndex>)
        requires
            self.wf(),
        ensures
            picked is Some <==> edge_count(self@.rows, self@.cols) > 0,
            picked matches Some(i) ==> edge_exists(self@.rows, self@.cols, i),
    {
        proof {
            self.lemma_view_wf();
            lemma_all_edges(self@.rows, self@.cols);
        }
        let picked = self.edge_for_draw(random_draw());
        proof {
            if picked is Some {
                assert(all_edges(self@.rows, self@.cols).contains(picked->0));
            }
        }
        picked
    }
}

} // verus!
