use vstd::prelude::*;
use vstd::string::StringExecFns;
use crate::edge::EdgeIndex;
use crate::graph::Graph;
use crate::lattice::edge_exists;
use crate::model::LatticeState;
use crate::node::NodeIndex;

verus! {

/// Whether state `s` has an edge at `i` that has not fractured.
pub open spec fn intact(s: LatticeState, i: EdgeIndex) -> bool {
    edge_exists(s.rows, s.cols, i) && !s.edges[i].cracked
}

/// Node `(r, c)` and the horizontal edge to its right, as drawn.
pub open spec fn upper_cell(s: LatticeState, r: nat, c: nat) -> Seq<char> {
    "o"@ + if intact(s, EdgeIndex { row: r as usize, col: c as usize, ty: 0 }) {
        "---"@
    } else {
        "   "@
    }
}

/// The two diagonals below node `(r, c)`, as drawn.  The first node of an
/// even row has no room for a "/".
pub open spec fn lower_cell(s: LatticeState, r: nat, c: nat) -> Seq<char> {
    (if c != 0 || r % 2 != 0 {
        if intact(s, EdgeIndex { row: r as usize, col: c as usize, ty: 1 }) {
            " / "@
        } else {
            "   "@
        }
    } else {
        Seq::<char>::empty()
    }) + if intact(s, EdgeIndex { row: r as usize, col: c as usize, ty: 2 }) {
        "\\"@
    } else {
        " "@
    }
}

/// The line of nodes of row `r`, up to column `upto`.  Odd rows are shifted
/// two places to the right.
pub open spec fn upper_line(s: LatticeState, r: nat, upto: nat) -> Seq<char>
    decreases upto,
{
    if upto == 0 {
        if r % 2 != 0 {
            "  "@
        } else {
            Seq::<char>::empty()
        }
    } else {
        upper_line(s, r, (upto - 1) as nat) + upper_cell(s, r, (upto - 1) as nat)
    }
}

/// The line of diagonals below row `r`, up to column `upto`.  Below even
/// rows it is shifted one place to the right.
pub open spec fn lower_line(s: LatticeState, r: nat, upto: nat) -> Seq<char>
    decreases upto,
{
    if upto == 0 {
        if r % 2 != 0 {
            Seq::<char>::empty()
        } else {
            " "@
        }
    } else {
        lower_line(s, r, (upto - 1) as nat) + lower_cell(s, r, (upto - 1) as nat)
    }
}

/// The picture of the first `upto` rows: per row a line of nodes and a line
/// of diagonals, each closed by a line feed.  Fractured edges are left out.
///
/// ```text
/// o---o---o
///  \ / \ / \
///   o---o---o
/// ```
pub open spec fn picture(s: LatticeState, upto: nat) -> Seq<char>
    decreases upto,
{
    if upto == 0 {
        Seq::<char>::empty()
    } else {
        picture(s, (upto - 1) as nat) + upper_line(s, (upto - 1) as nat, s.cols) + "\n"@ + lower_line(
            s,
            (upto - 1) as nat,
            s.cols,
        ) + "\n"@
    }
}

impl Graph {
    /// Whether the edge in slot `k` of node `n` is there and has not
    /// fractured.
    fn slot_intact(&self, n: NodeIndex, k: usize, ty: usize) -> (yes: bool)
        requires
            self.wf(),
            n.row < self@.rows,
            n.col < self@.cols,
            (k == 0 && ty == 0) || (k == 4 && ty == 1) || (k == 5 && ty == 2),
        ensures
            yes == intact(self@, EdgeIndex { row: n.row, col: n.col, ty }),
    {
        let node = self.get_node(n);
        match node.edges[k] {
            Some(i) => match self.get_edge(i) {
                Some(e) => !e.cracked,
                None => false,
            },
            None => false,
        }
    }

    /// Draws the lattice as text.
    pub fn debug_print(&self) -> (out: String)
        requires
            self.wf(),
        ensures
            out@ == picture(self@, self@.rows),
    {
        let rows = self.rows();
        let cols = self.cols();
        let mut output = String::new();
        let mut r: usize = 0;
        while r < rows
            invariant
                r <= rows,
                rows == self@.rows,
                cols == self@.cols,
                self.wf(),
                output@ == picture(self@, r as nat),
            decreases rows - r,
        {
            let mut line1 = String::new();
            let mut line2 = String::new();
            if r % 2 != 0 {
                line1.append("  ");
            } else {
                line2.append(" ");
            }
            let mut c: usize = 0;
            while c < cols
                invariant
                    c <= cols,
                    r < rows,
                    rows == self@.rows,
                    cols == self@.cols,
                    self.wf(),
                    line1@ == upper_line(self@, r as nat, c as nat),
                    line2@ == lower_line(self@, r as nat, c as nat),
                decreases cols - c,
            {
                let n = NodeIndex { row: r, col: c };
                line1.append("o");
                if self.slot_intact(n, 0, 0) {
                    line1.append("---");
                } else {
                    line1.append("   ");
                }
                if c != 0 || r % 2 != 0 {
                    if self.slot_intact(n, 4, 1) {
                        line2.append(" / ");
                    } else {
                        line2.append("   ");
                    }
                }
                if self.slot_intact(n, 5, 2) {
                    line2.append("\\");
                } else {
                    line2.append(" ");
                }
                assert(line1@ =~= upper_line(self@, r as nat, c as nat) + upper_cell(self@, r as nat, c as nat));
                assert(line2@ =~= lower_line(self@, r as nat, c as nat) + lower_cell(self@, r as nat, c as nat));
                c = c + 1;
            }
            line1.append("\n");
            line2.append("\n");
            output.append(line1.as_str());
            output.append(line2.as_str());
            assert(output@ =~= picture(self@, r as nat) + upper_line(self@, r as nat, cols as nat) + "\n"@
                + lower_line(self@, r as nat, cols as nat) + "\n"@);
            r = r + 1;
        }
        output
    }
}

} // verus!
