use vstd::prelude::*;
use vstd::seq_lib::lemma_no_dup_in_concat;
use crate::edge::EdgeIndex;
use crate::node::NodeIndex;

verus! {

/// Whether a lattice of `rows` x `cols` nodes carries an edge at `i`.
///
/// Horizontal edges (orientation 0) run to the right-hand neighbour, so the
/// last column has none.  The two diagonals run to the row below, so the last
/// row has none; on even rows the "/" diagonal (orientation 1) leaves the grid
/// in column 0, on odd rows the "\" diagonal (orientation 2) leaves it in the
/// last column.
pub open spec fn edge_exists(rows: nat, cols: nat, i: EdgeIndex) -> bool {
    &&& i.row < rows
    &&& i.col < cols
    &&& if i.ty == 0 {
        i.col + 1 < cols
    } else if i.ty == 1 {
        i.row + 1 < rows && (i.row % 2 == 0 ==> i.col > 0)
    } else if i.ty == 2 {
        i.row + 1 < rows && (i.row % 2 == 1 ==> i.col + 1 < cols)
    } else {
        false
    }
}

/// The node that owns edge `i`: its first endpoint.
pub open spec fn edge_origin(i: EdgeIndex) -> NodeIndex {
    NodeIndex { row: i.row, col: i.col }
}

/// The second endpoint of edge `i`.
pub open spec fn edge_target(i: EdgeIndex) -> NodeIndex {
    if i.ty == 0 {
        NodeIndex { row: i.row, col: (i.col + 1) as usize }
    } else if i.ty == 1 {
        if i.row % 2 == 0 {
            NodeIndex { row: (i.row + 1) as usize, col: (i.col - 1) as usize }
        } else {
            NodeIndex { row: (i.row + 1) as usize, col: i.col }
        }
    } else {
        if i.row % 2 == 0 {
            NodeIndex { row: (i.row + 1) as usize, col: i.col }
        } else {
            NodeIndex { row: (i.row + 1) as usize, col: (i.col + 1) as usize }
        }
    }
}

/// The slot of its origin in which an edge of orientation `ty` is recorded.
pub open spec fn origin_slot(ty: usize) -> int {
    if ty == 0 {
        0
    } else if ty == 1 {
        4
    } else {
        5
    }
}

/// The slot of its target in which an edge of orientation `ty` is recorded:
/// the direction opposite to `origin_slot`.
pub open spec fn target_slot(ty: usize) -> int {
    if ty == 0 {
        3
    } else if ty == 1 {
        1
    } else {
        2
    }
}

/// The address an edge would have if it met node `n` in direction `k`,
/// whether or not the lattice carries it.  `None` where the address would
/// have a negative coordinate.
pub open spec fn slot_candidate(n: NodeIndex, k: int) -> Option<EdgeIndex> {
    if k == 0 {
        Some(EdgeIndex { row: n.row, col: n.col, ty: 0 })
    } else if k == 4 {
        Some(EdgeIndex { row: n.row, col: n.col, ty: 1 })
    } else if k == 5 {
        Some(EdgeIndex { row: n.row, col: n.col, ty: 2 })
    } else if k == 3 {
        if n.col > 0 {
            Some(EdgeIndex { row: n.row, col: (n.col - 1) as usize, ty: 0 })
        } else {
            None
        }
    } else if k == 1 {
        if n.row == 0 {
            None
        } else if n.row % 2 == 1 {
            Some(EdgeIndex { row: (n.row - 1) as usize, col: (n.col + 1) as usize, ty: 1 })
        } else {
            Some(EdgeIndex { row: (n.row - 1) as usize, col: n.col, ty: 1 })
        }
    } else if k == 2 {
        if n.row == 0 {
            None
        } else if n.row % 2 == 1 {
            Some(EdgeIndex { row: (n.row - 1) as usize, col: n.col, ty: 2 })
        } else if n.col > 0 {
            Some(EdgeIndex { row: (n.row - 1) as usize, col: (n.col - 1) as usize, ty: 2 })
        } else {
            None
        }
    } else {
        None
    }
}

/// The edge that meets node `n` in direction `k` in a lattice of
/// `rows` x `cols` nodes, if the lattice carries one.
pub open spec fn node_slot(rows: nat, cols: nat, n: NodeIndex, k: int) -> Option<EdgeIndex> {
    match slot_candidate(n, k) {
        Some(e) => if edge_exists(rows, cols, e) {
            Some(e)
        } else {
            None
        },
        None => None,
    }
}

/// The address with row `row`, column `col` and orientation `ty`.
pub open spec fn edge_at(row: int, col: int, ty: usize) -> EdgeIndex {
    EdgeIndex { row: row as usize, col: col as usize, ty }
}

/// One side of an edge: the two addresses `a` and `b`, or nothing at all
/// where the side is cut off.
pub open spec fn whole_side(cut: bool, a: EdgeIndex, b: EdgeIndex) -> (Option<EdgeIndex>, Option<EdgeIndex>) {
    if cut {
        (None, None)
    } else {
        (Some(a), Some(b))
    }
}

/// The four edge addresses around edge `i`, two per side, in a lattice
/// `n_cols` nodes wide: entries 0 and 1 close the triangle on one side of
/// `i`, entries 2 and 3 the triangle on the other side.  A side has both of
/// its entries or neither.
///
/// The addresses are computed from `i` and the width alone.  A side is cut
/// off where the first row, the first column or the last column takes its
/// third corner away, and where an address would not fit the machine's
/// coordinates; a side that is there may still name places where the lattice
/// carries no edge, as below the last row.  An orientation that is none has
/// no sides.
pub open spec fn adjacent_edges(i: EdgeIndex, n_cols: nat) -> Seq<Option<EdgeIndex>> {
    let r = i.row as int;
    let c = i.col as int;
    let no_right = c + 1 > usize::MAX;
    let no_below = r + 1 > usize::MAX;
    // The column of the node below and to the left.
    let left_below = if r % 2 == 0 { c - 1 } else { c };
    // The column of the node above and to the right.
    let right_above = if r % 2 == 0 { c } else { c + 1 };
    let sides = if i.ty == 0 {
        (
            whole_side(
                r == 0 || right_above > usize::MAX,
                edge_at(r - 1, right_above, 1),
                edge_at(r - 1, right_above, 2),
            ),
            whole_side(no_right, edge_at(r, c, 2), edge_at(r, c + 1, 1)),
        )
    } else if i.ty == 1 {
        (
            whole_side(c == 0, edge_at(r, c - 1, 2), edge_at(r, c - 1, 0)),
            whole_side(no_below || left_below < 0, edge_at(r + 1, left_below, 0), edge_at(r, c, 2)),
        )
    } else if i.ty == 2 {
        (
            whole_side(no_right || c + 1 == n_cols, edge_at(r, c, 0), edge_at(r, c + 1, 1)),
            whole_side(no_below || left_below < 0, edge_at(r, c, 1), edge_at(r + 1, left_below, 0)),
        )
    } else {
        ((None, None), (None, None))
    };
    seq![sides.0.0, sides.0.1, sides.1.0, sides.1.1]
}

/// Around every address, in a lattice of any width, there are four entries,
/// and each side has both of its entries or neither.
pub proof fn lemma_sides_in_pairs(i: EdgeIndex, n_cols: nat)
    ensures
        adjacent_edges(i, n_cols).len() == 4,
        adjacent_edges(i, n_cols)[0] is Some <==> adjacent_edges(i, n_cols)[1] is Some,
        adjacent_edges(i, n_cols)[2] is Some <==> adjacent_edges(i, n_cols)[3] is Some,
{
}

/// The neighbours of edge `i` that may receive stress from it: the four
/// addresses around `i`, with both entries of a side blanked unless the
/// lattice carries both edges of that side.
pub open spec fn receivers(rows: nat, cols: nat, i: EdgeIndex) -> Seq<Option<EdgeIndex>> {
    let around = adjacent_edges(i, cols);
    let first = side_complete(rows, cols, around[0], around[1]);
    let second = side_complete(rows, cols, around[2], around[3]);
    seq![
        if first { around[0] } else { None },
        if first { around[1] } else { None },
        if second { around[2] } else { None },
        if second { around[3] } else { None },
    ]
}

/// Whether `a` and `b` both name edges of the lattice.
pub open spec fn side_complete(rows: nat, cols: nat, a: Option<EdgeIndex>, b: Option<EdgeIndex>) -> bool {
    &&& a matches Some(x)
    &&& b matches Some(y)
    &&& edge_exists(rows, cols, x)
    &&& edge_exists(rows, cols, y)
}

/// The corner of the triangle with sides `a` and `b` that `a` does not touch.
pub open spec fn third_corner(a: EdgeIndex, b: EdgeIndex) -> NodeIndex {
    if edge_origin(b) == edge_origin(a) || edge_origin(b) == edge_target(a) {
        edge_target(b)
    } else {
        edge_origin(b)
    }
}

/// The corners of the triangle that `a` and `b` close on one side of an
/// edge; empty where the side is not complete.
pub open spec fn side_triangle(a: Option<EdgeIndex>, b: Option<EdgeIndex>) -> Seq<NodeIndex> {
    if a is Some && b is Some {
        seq![edge_origin(a->0), edge_target(a->0), third_corner(a->0, b->0)]
    } else {
        seq![]
    }
}

/// The corners of the triangles on the two sides of edge `i`, three per
/// triangle; a side that is not complete has no triangle.
pub open spec fn crack_triangles(rows: nat, cols: nat, i: EdgeIndex) -> Seq<NodeIndex> {
    let to = receivers(rows, cols, i);
    side_triangle(to[0], to[1]) + side_triangle(to[2], to[3])
}

/// An edge of the lattice runs between two nodes of the lattice, and each of
/// them has it in the slot that belongs to the edge's orientation.
pub proof fn lemma_slots_of_edge(rows: nat, cols: nat, e: EdgeIndex)
    requires
        rows <= usize::MAX,
        cols <= usize::MAX,
        edge_exists(rows, cols, e),
    ensures
        edge_origin(e).row < rows && edge_origin(e).col < cols,
        edge_target(e).row < rows && edge_target(e).col < cols,
        edge_origin(e) != edge_target(e),
        node_slot(rows, cols, edge_origin(e), origin_slot(e.ty)) == Some(e),
        node_slot(rows, cols, edge_target(e), target_slot(e.ty)) == Some(e),
{
}

/// The edge in a slot of a node has that node as an endpoint: as its origin
/// in the slots 0, 4 and 5, as its target in the slots 1, 2 and 3; and the
/// slot is the one that belongs to the edge's orientation.
pub proof fn lemma_edge_of_slot(rows: nat, cols: nat, n: NodeIndex, k: int)
    requires
        rows <= usize::MAX,
        cols <= usize::MAX,
        n.row < rows,
        n.col < cols,
        0 <= k < 6,
        node_slot(rows, cols, n, k) is Some,
    ensures
        ({
            let e = node_slot(rows, cols, n, k)->0;
            &&& edge_exists(rows, cols, e)
            &&& k == 0 || k == 4 || k == 5 ==> edge_origin(e) == n && origin_slot(e.ty) == k
            &&& k == 1 || k == 2 || k == 3 ==> edge_target(e) == n && target_slot(e.ty) == k
        }),
{
}

/// Whether both endpoints of edge `e` are corners of the triangle `t`.
pub open spec fn is_side_of(e: EdgeIndex, t: Seq<NodeIndex>) -> bool {
    &&& edge_origin(e) == t[0] || edge_origin(e) == t[1] || edge_origin(e) == t[2]
    &&& edge_target(e) == t[0] || edge_target(e) == t[1] || edge_target(e) == t[2]
}

/// On each complete side of an edge of the lattice, the two receivers and
/// the edge itself are the three sides of one triangle: three different
/// edges of the lattice that run between three different nodes, which are the
/// corners that `side_triangle` gives.
pub proof fn lemma_side_is_triangle(rows: nat, cols: nat, i: EdgeIndex, side: int)
    requires
        rows <= usize::MAX,
        cols <= usize::MAX,
        edge_exists(rows, cols, i),
        side == 0 || side == 1,
        receivers(rows, cols, i)[2 * side] is Some,
    ensures
        ({
            let a = receivers(rows, cols, i)[2 * side];
            let b = receivers(rows, cols, i)[2 * side + 1];
            let t = side_triangle(a, b);
            &&& a is Some
            &&& b is Some
            &&& edge_exists(rows, cols, a->0)
            &&& edge_exists(rows, cols, b->0)
            &&& a->0 != i && b->0 != i && a->0 != b->0
            &&& t.len() == 3
            &&& t[0] != t[1] && t[0] != t[2] && t[1] != t[2]
            &&& is_side_of(i, t)
            &&& is_side_of(a->0, t)
            &&& is_side_of(b->0, t)
        }),
{
}

/// The triangles on the two sides of an edge of the lattice lie on
/// different sides: they share the edge's two endpoints and differ in the
/// third corner.
pub proof fn lemma_sides_differ(rows: nat, cols: nat, i: EdgeIndex)
    requires
        rows <= usize::MAX,
        cols <= usize::MAX,
        edge_exists(rows, cols, i),
        receivers(rows, cols, i)[0] is Some,
        receivers(rows, cols, i)[2] is Some,
    ensures
        ({
            let to = receivers(rows, cols, i);
            let first = side_triangle(to[0], to[1]);
            let second = side_triangle(to[2], to[3]);
            forall|k: int|
                0 <= k < 3 ==> (#[trigger] first[k] == edge_origin(i) || first[k] == edge_target(i) || (first[k]
                    != second[0] && first[k] != second[1] && first[k] != second[2]))
        }),
{
}

/// A side of an edge of the lattice is there as a whole or not at all: of
/// the two addresses on one side, the lattice carries an edge at both or at
/// neither.  So `receivers` blanks no edge of the lattice.
pub proof fn lemma_sides_whole(rows: nat, cols: nat, i: EdgeIndex, side: int)
    requires
        rows <= usize::MAX,
        cols <= usize::MAX,
        edge_exists(rows, cols, i),
        side == 0 || side == 1,
    ensures
        ({
            let a = adjacent_edges(i, cols)[2 * side];
            let b = adjacent_edges(i, cols)[2 * side + 1];
            (a is Some && edge_exists(rows, cols, a->0)) <==> (b is Some && edge_exists(rows, cols, b->0))
        }),
        forall|k: int|
            0 <= k < 4 ==> ((#[trigger] receivers(rows, cols, i)[k]) is Some <==> (adjacent_edges(i, cols)[k] is Some
                && edge_exists(rows, cols, adjacent_edges(i, cols)[k]->0))),
{
}

/// What is reported for an edge of the lattice that fractures: one triangle
/// for each side that is there, three corners each, two of which are the
/// endpoints of the edge.
pub proof fn lemma_crack_triangles(rows: nat, cols: nat, i: EdgeIndex)
    requires
        rows <= usize::MAX,
        cols <= usize::MAX,
        edge_exists(rows, cols, i),
    ensures
        ({
            let to = receivers(rows, cols, i);
            let sides = (if to[0] is Some { 1int } else { 0int }) + (if to[2] is Some { 1int } else { 0int });
            crack_triangles(rows, cols, i).len() == 3 * sides
        }),
        forall|k: int|
            0 <= k < crack_triangles(rows, cols, i).len() && k % 3 == 0 ==> is_side_of(
                i,
                #[trigger] crack_triangles(rows, cols, i).subrange(k, k + 3),
            ),
{
    let to = receivers(rows, cols, i);
    let first = side_triangle(to[0], to[1]);
    let second = side_triangle(to[2], to[3]);
    assert(first.len() == 3 ==> is_side_of(i, first)) by {
        if to[0] is Some {
            lemma_side_is_triangle(rows, cols, i, 0);
        }
    }
    assert(second.len() == 3 ==> is_side_of(i, second)) by {
        if to[2] is Some {
            lemma_side_is_triangle(rows, cols, i, 1);
        }
    }
    assert(first.len() == (if to[0] is Some { 3int } else { 0int }));
    assert(second.len() == (if to[2] is Some { 3int } else { 0int }));
    lemma_triples(i, first, second);
}

/// Of two triangles listed one behind the other, each is found again three
/// corners at a time.
proof fn lemma_triples(i: EdgeIndex, first: Seq<NodeIndex>, second: Seq<NodeIndex>)
    requires
        first.len() == 0 || first.len() == 3,
        second.len() == 0 || second.len() == 3,
        first.len() == 3 ==> is_side_of(i, first),
        second.len() == 3 ==> is_side_of(i, second),
    ensures
        forall|k: int|
            0 <= k < (first + second).len() && k % 3 == 0 ==> is_side_of(
                i,
                #[trigger] (first + second).subrange(k, k + 3),
            ),
{
    assert forall|k: int| 0 <= k < (first + second).len() && k % 3 == 0 implies is_side_of(
        i,
        #[trigger] (first + second).subrange(k, k + 3),
    ) by {
        if k < first.len() {
            assert((first + second).subrange(k, k + 3) =~= first);
        } else {
            assert((first + second).subrange(k, k + 3) =~= second);
        }
    }
}

/// Whether node `n` is an endpoint of edge `e`.
pub open spec fn touches(e: EdgeIndex, n: NodeIndex) -> bool {
    edge_origin(e) == n || edge_target(e) == n
}

/// No triangle of the lattice is missed: whenever two further edges of the
/// lattice close a triangle with edge `i` (each touches one endpoint of `i`,
/// not the same one, and they meet in a third node), they are the two
/// receivers of one side of `i`.
pub proof fn lemma_triangle_is_side(rows: nat, cols: nat, i: EdgeIndex, a: EdgeIndex, b: EdgeIndex, apex: NodeIndex)
    requires
        rows <= usize::MAX,
        cols <= usize::MAX,
        edge_exists(rows, cols, i),
        edge_exists(rows, cols, a),
        edge_exists(rows, cols, b),
        apex != edge_origin(i),
        apex != edge_target(i),
        touches(a, apex),
        touches(b, apex),
        touches(a, edge_origin(i)),
        touches(b, edge_target(i)),
    ensures
        ({
            let to = receivers(rows, cols, i);
            ||| (to[0] == Some(a) && to[1] == Some(b))
            ||| (to[0] == Some(b) && to[1] == Some(a))
            ||| (to[2] == Some(a) && to[3] == Some(b))
            ||| (to[2] == Some(b) && to[3] == Some(a))
        }),
{
}

/// The edge of orientation `t` at cell `(r, c)` as a sequence: of one entry
/// where the lattice carries that edge, empty where it does not.
pub open spec fn place_edges(rows: nat, cols: nat, r: nat, c: nat, t: nat) -> Seq<EdgeIndex> {
    let i = EdgeIndex { row: r as usize, col: c as usize, ty: t as usize };
    if edge_exists(rows, cols, i) {
        seq![i]
    } else {
        seq![]
    }
}

/// The edges that the lattice carries at cell `(r, c)`, by orientation.
pub open spec fn cell_edges(rows: nat, cols: nat, r: nat, c: nat) -> Seq<EdgeIndex> {
    place_edges(rows, cols, r, c, 0) + place_edges(rows, cols, r, c, 1) + place_edges(
        rows,
        cols,
        r,
        c,
        2,
    )
}

/// The edges of the first `upto` cells of row `r`, by column.
pub open spec fn row_edges(rows: nat, cols: nat, r: nat, upto: nat) -> Seq<EdgeIndex>
    decreases upto,
{
    if upto == 0 {
        seq![]
    } else {
        row_edges(rows, cols, r, (upto - 1) as nat) + cell_edges(rows, cols, r, (upto - 1) as nat)
    }
}

/// The edges of the first `upto` rows of the lattice, by row.
pub open spec fn lattice_edges(rows: nat, cols: nat, upto: nat) -> Seq<EdgeIndex>
    decreases upto,
{
    if upto == 0 {
        seq![]
    } else {
        lattice_edges(rows, cols, (upto - 1) as nat) + row_edges(rows, cols, (upto - 1) as nat, cols)
    }
}

/// Every edge of a lattice of `rows` x `cols` nodes, once each: by row, then
/// by column, then by orientation.
pub open spec fn all_edges(rows: nat, cols: nat) -> Seq<EdgeIndex> {
    lattice_edges(rows, cols, rows)
}

/// Every entry of `row_edges` is an edge of the lattice in row `r`, in one
/// of the first `upto` columns.
pub proof fn lemma_row_edges_exist(rows: nat, cols: nat, r: nat, upto: nat)
    requires
        r <= usize::MAX,
        upto <= usize::MAX,
    ensures
        forall|k: int|
            0 <= k < row_edges(rows, cols, r, upto).len() ==> ({
                let e = #[trigger] row_edges(rows, cols, r, upto)[k];
                edge_exists(rows, cols, e) && e.row == r && e.col < upto
            }),
    decreases upto,
{
    if upto > 0 {
        let c = (upto - 1) as nat;
        lemma_row_edges_exist(rows, cols, r, c);
        let before = row_edges(rows, cols, r, c);
        let cell = cell_edges(rows, cols, r, c);
        assert forall|k: int| 0 <= k < row_edges(rows, cols, r, upto).len() implies {
            let e = #[trigger] row_edges(rows, cols, r, upto)[k];
            edge_exists(rows, cols, e) && e.row == r && e.col < upto
        } by {
            if k < before.len() {
                assert(row_edges(rows, cols, r, upto)[k] == before[k]);
            } else {
                lemma_cell_edges_exist(rows, cols, r, c);
                assert(row_edges(rows, cols, r, upto)[k] == cell[k - before.len()]);
            }
        }
    }
}

/// Every entry of `cell_edges` is an edge of the lattice at cell `(r, c)`.
pub proof fn lemma_cell_edges_exist(rows: nat, cols: nat, r: nat, c: nat)
    requires
        r <= usize::MAX,
        c <= usize::MAX,
    ensures
        forall|k: int|
            0 <= k < cell_edges(rows, cols, r, c).len() ==> ({
                let e = #[trigger] cell_edges(rows, cols, r, c)[k];
                edge_exists(rows, cols, e) && e.row == r && e.col == c
            }),
{
    let a = place_edges(rows, cols, r, c, 0);
    let b = place_edges(rows, cols, r, c, 1);
    let d = place_edges(rows, cols, r, c, 2);
    assert forall|k: int| 0 <= k < cell_edges(rows, cols, r, c).len() implies {
        let e = #[trigger] cell_edges(rows, cols, r, c)[k];
        edge_exists(rows, cols, e) && e.row == r && e.col == c
    } by {
        if k < a.len() {
            assert(cell_edges(rows, cols, r, c)[k] == a[k]);
        } else if k < a.len() + b.len() {
            assert(cell_edges(rows, cols, r, c)[k] == b[k - a.len()]);
        } else {
            assert(cell_edges(rows, cols, r, c)[k] == d[k - a.len() - b.len()]);
        }
    }
}

/// Every entry of `lattice_edges` is an edge of the lattice in one of the
/// first `upto` rows.
pub proof fn lemma_lattice_edges_exist(rows: nat, cols: nat, upto: nat)
    requires
        upto <= usize::MAX,
        cols <= usize::MAX,
    ensures
        forall|k: int|
            0 <= k < lattice_edges(rows, cols, upto).len() ==> ({
                let e = #[trigger] lattice_edges(rows, cols, upto)[k];
                edge_exists(rows, cols, e) && e.row < upto
            }),
    decreases upto,
{
    if upto > 0 {
        let r = (upto - 1) as nat;
        lemma_lattice_edges_exist(rows, cols, r);
        lemma_row_edges_exist(rows, cols, r, cols);
        let before = lattice_edges(rows, cols, r);
        let row = row_edges(rows, cols, r, cols);
        assert forall|k: int| 0 <= k < lattice_edges(rows, cols, upto).len() implies {
            let e = #[trigger] lattice_edges(rows, cols, upto)[k];
            edge_exists(rows, cols, e) && e.row < upto
        } by {
            if k < before.len() {
                assert(lattice_edges(rows, cols, upto)[k] == before[k]);
            } else {
                assert(lattice_edges(rows, cols, upto)[k] == row[k - before.len()]);
            }
        }
    }
}

/// Every edge of the lattice at cell `(r, c)` is an entry of `cell_edges`,
/// and no entry occurs twice.
pub proof fn lemma_cell_edges_complete(rows: nat, cols: nat, r: nat, c: nat)
    requires
        r <= usize::MAX,
        c <= usize::MAX,
    ensures
        cell_edges(rows, cols, r, c).no_duplicates(),
        forall|i: EdgeIndex|
            edge_exists(rows, cols, i) && i.row == r && i.col == c ==> #[trigger] cell_edges(
                rows,
                cols,
                r,
                c,
            ).contains(i),
{
    let a = place_edges(rows, cols, r, c, 0);
    let b = place_edges(rows, cols, r, c, 1);
    let d = place_edges(rows, cols, r, c, 2);
    let cell = cell_edges(rows, cols, r, c);
    lemma_no_dup_in_concat(a, b);
    lemma_no_dup_in_concat(a + b, d);
    assert forall|i: EdgeIndex| edge_exists(rows, cols, i) && i.row == r && i.col == c implies cell.contains(
        i,
    ) by {
        if i.ty == 0 {
            assert(cell[0] == i);
        } else if i.ty == 1 {
            assert(cell[a.len() as int] == i);
        } else {
            assert(cell[(a.len() + b.len()) as int] == i);
        }
    }
}

/// Every edge of the lattice in the first `upto` cells of row `r` is an
/// entry of `row_edges`, and no entry occurs twice.
pub proof fn lemma_row_edges_complete(rows: nat, cols: nat, r: nat, upto: nat)
    requires
        r <= usize::MAX,
        upto <= usize::MAX,
    ensures
        row_edges(rows, cols, r, upto).no_duplicates(),
        forall|i: EdgeIndex|
            edge_exists(rows, cols, i) && i.row == r && i.col < upto ==> #[trigger] row_edges(
                rows,
                cols,
                r,
                upto,
            ).contains(i),
    decreases upto,
{
    if upto > 0 {
        let c = (upto - 1) as nat;
        let before = row_edges(rows, cols, r, c);
        let cell = cell_edges(rows, cols, r, c);
        lemma_row_edges_complete(rows, cols, r, c);
        lemma_cell_edges_complete(rows, cols, r, c);
        lemma_row_edges_exist(rows, cols, r, c);
        lemma_cell_edges_exist(rows, cols, r, c);
        lemma_no_dup_in_concat(before, cell);
        assert forall|i: EdgeIndex| edge_exists(rows, cols, i) && i.row == r && i.col < upto implies (before
            + cell).contains(i) by {
            if i.col < c {
                assert(before.contains(i));
                let k = choose|k: int| 0 <= k < before.len() && before[k] == i;
                assert((before + cell)[k] == i);
            } else {
                assert(cell.contains(i));
                let k = choose|k: int| 0 <= k < cell.len() && cell[k] == i;
                assert((before + cell)[before.len() + k] == i);
            }
        }
    }
}

/// Every edge of the lattice in the first `upto` rows is an entry of
/// `lattice_edges`, and no entry occurs twice.
pub proof fn lemma_lattice_edges_complete(rows: nat, cols: nat, upto: nat)
    requires
        upto <= usize::MAX,
        cols <= usize::MAX,
    ensures
        lattice_edges(rows, cols, upto).no_duplicates(),
        forall|i: EdgeIndex|
            edge_exists(rows, cols, i) && i.row < upto ==> #[trigger] lattice_edges(rows, cols, upto).contains(
                i,
            ),
    decreases upto,
{
    if upto > 0 {
        let r = (upto - 1) as nat;
        let before = lattice_edges(rows, cols, r);
        let row = row_edges(rows, cols, r, cols);
        lemma_lattice_edges_complete(rows, cols, r);
        lemma_row_edges_complete(rows, cols, r, cols);
        lemma_lattice_edges_exist(rows, cols, r);
        lemma_row_edges_exist(rows, cols, r, cols);
        lemma_no_dup_in_concat(before, row);
        assert forall|i: EdgeIndex| edge_exists(rows, cols, i) && i.row < upto implies (before + row).contains(
            i,
        ) by {
            if i.row < r {
                assert(before.contains(i));
                let k = choose|k: int| 0 <= k < before.len() && before[k] == i;
                assert((before + row)[k] == i);
            } else {
                assert(row.contains(i));
                let k = choose|k: int| 0 <= k < row.len() && row[k] == i;
                assert((before + row)[before.len() + k] == i);
            }
        }
    }
}

/// The number of edges of a lattice of `rows` x `cols` nodes: every row but
/// the last has `cols - 1` horizontal edges and `2 * cols - 1` diagonals, the
/// last row has its horizontal edges only.
pub open spec fn edge_count(rows: nat, cols: nat) -> nat {
    if rows == 0 || cols == 0 {
        0
    } else {
        ((rows - 1) * (3 * cols - 2) + (cols - 1)) as nat
    }
}

/// The number of edges in the first `upto` cells of row `r`.
pub open spec fn row_count(rows: nat, cols: nat, r: nat, upto: nat) -> nat {
    let horizontal = if upto < cols { upto } else { (cols - 1) as nat };
    let slash = if r % 2 == 1 { upto } else { (upto - 1) as nat };
    let backslash = if r % 2 == 0 { upto } else { horizontal };
    if upto == 0 {
        0
    } else if r + 1 < rows {
        horizontal + slash + backslash
    } else {
        horizontal
    }
}

/// `row_edges` has `row_count` entries.
pub proof fn lemma_row_edges_len(rows: nat, cols: nat, r: nat, upto: nat)
    requires
        r < rows,
        rows <= usize::MAX,
        upto <= cols,
        cols <= usize::MAX,
    ensures
        row_edges(rows, cols, r, upto).len() == row_count(rows, cols, r, upto),
    decreases upto,
{
    if upto > 0 {
        lemma_row_edges_len(rows, cols, r, (upto - 1) as nat);
    }
}

/// `lattice_edges` has `3 * cols - 2` entries for each row but the last of
/// the lattice, and `cols - 1` for the last.
pub proof fn lemma_lattice_edges_len(rows: nat, cols: nat, upto: nat)
    requires
        upto <= rows,
        rows <= usize::MAX,
        0 < cols <= usize::MAX,
    ensures
        lattice_edges(rows, cols, upto).len() == (if upto < rows {
            upto * (3 * cols - 2)
        } else {
            edge_count(rows, cols) as int
        }),
    decreases upto,
{
    if upto > 0 {
        let r = (upto - 1) as nat;
        lemma_lattice_edges_len(rows, cols, r);
        lemma_row_edges_len(rows, cols, r, cols);
        assert(upto * (3 * cols - 2) == r * (3 * cols - 2) + (3 * cols - 2)) by (nonlinear_arith)
            requires
                upto == r + 1,
        ;
    }
}

/// The edges of a lattice, counted: `all_edges` names every edge of the
/// lattice and nothing else, names none twice, and so has as many entries as
/// the lattice has edges, which is `edge_count` and at most three per node.
/// By orientation, a lattice with a node has `cols - 1` horizontal edges in
/// each row and `2 * cols - 1` diagonals below each row but the last.
pub proof fn lemma_all_edges(rows: nat, cols: nat)
    requires
        rows <= usize::MAX,
        cols <= usize::MAX,
    ensures
        all_edges(rows, cols).no_duplicates(),
        forall|i: EdgeIndex| all_edges(rows, cols).contains(i) <==> edge_exists(rows, cols, i),
        all_edges(rows, cols).to_set() == Set::new(|i: EdgeIndex| edge_exists(rows, cols, i)),
        all_edges(rows, cols).len() == Set::new(|i: EdgeIndex| edge_exists(rows, cols, i)).len(),
        all_edges(rows, cols).len() == edge_count(rows, cols),
        all_edges(rows, cols).len() <= rows * cols * 3,
        rows >= 1 && cols >= 1 ==> all_edges(rows, cols).len() == rows * (cols - 1) + (rows - 1) * (2 * cols - 1),
{
    let all = all_edges(rows, cols);
    lemma_lattice_edges_complete(rows, cols, rows);
    lemma_lattice_edges_exist(rows, cols, rows);
    assert forall|i: EdgeIndex| all.contains(i) implies edge_exists(rows, cols, i) by {
        let k = choose|k: int| 0 <= k < all.len() && all[k] == i;
        assert(edge_exists(rows, cols, all[k]));
    }
    assert(all.to_set() =~= Set::new(|i: EdgeIndex| edge_exists(rows, cols, i)));
    all.unique_seq_to_set();
    if cols > 0 {
        lemma_lattice_edges_len(rows, cols, rows);
    } else {
        lemma_lattice_edges_exist(rows, cols, rows);
        if all.len() > 0 {
            assert(edge_exists(rows, cols, all[0]));
        }
    }
    if rows > 0 && cols > 0 {
        assert((rows - 1) * (3 * cols - 2) + (cols - 1) <= rows * cols * 3) by (nonlinear_arith)
            requires
                rows > 0,
                cols > 0,
        ;
        assert((rows - 1) * (3 * cols - 2) + (cols - 1) == rows * (cols - 1) + (rows - 1) * (2 * cols - 1))
            by (nonlinear_arith);
    } else {
        assert(rows * cols * 3 >= 0) by (nonlinear_arith);
    }
}

/// `row_edges` grows at its end only: what it lists up to column `a` it
/// lists in the same places up to any later column `b`.
pub proof fn lemma_row_edges_prefix(rows: nat, cols: nat, r: nat, a: nat, b: nat)
    requires
        a <= b,
    ensures
        row_edges(rows, cols, r, a).len() <= row_edges(rows, cols, r, b).len(),
        forall|k: int|
            0 <= k < row_edges(rows, cols, r, a).len() ==> #[trigger] row_edges(rows, cols, r, b)[k]
                == row_edges(rows, cols, r, a)[k],
    decreases b,
{
    if a < b {
        lemma_row_edges_prefix(rows, cols, r, a, (b - 1) as nat);
        let shorter = row_edges(rows, cols, r, (b - 1) as nat);
        assert forall|k: int| 0 <= k < row_edges(rows, cols, r, a).len() implies #[trigger] row_edges(
            rows,
            cols,
            r,
            b,
        )[k] == row_edges(rows, cols, r, a)[k] by {
            assert(row_edges(rows, cols, r, b)[k] == shorter[k]);
        }
    }
}

/// `lattice_edges` grows at its end only: what it lists up to row `a` it
/// lists in the same places up to any later row `b`.
pub proof fn lemma_lattice_edges_prefix(rows: nat, cols: nat, a: nat, b: nat)
    requires
        a <= b,
    ensures
        lattice_edges(rows, cols, a).len() <= lattice_edges(rows, cols, b).len(),
        forall|k: int|
            0 <= k < lattice_edges(rows, cols, a).len() ==> #[trigger] lattice_edges(rows, cols, b)[k]
                == lattice_edges(rows, cols, a)[k],
    decreases b,
{
    if a < b {
        lemma_lattice_edges_prefix(rows, cols, a, (b - 1) as nat);
        let shorter = lattice_edges(rows, cols, (b - 1) as nat);
        assert forall|k: int| 0 <= k < lattice_edges(rows, cols, a).len() implies #[trigger] lattice_edges(
            rows,
            cols,
            b,
        )[k] == lattice_edges(rows, cols, a)[k] by {
            assert(lattice_edges(rows, cols, b)[k] == shorter[k]);
        }
    }
}

} // verus!
