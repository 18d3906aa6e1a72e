//! The spectator's picture of a map: each cell drawn as two rows of four
//! coloured characters.

use vstd::prelude::*;
use vstd::string::*;
use crate::cell::{ansi, background, foreground, glyphs, Cell};
use crate::map::{FarmMap, MAX_MAP_SIZE};

verus! {

/// Half `h` (0 for the top row, 1 for the bottom) of the drawing of `c`.
pub open spec fn cell_half(c: Cell, h: int) -> Seq<char> {
    let bg = background(c.ground);
    let fg = foreground(c.plant);
    let g = glyphs(c.plant);
    ansi(bg, fg, g[4 * h]) + ansi(bg, fg, g[4 * h + 1]) + ansi(bg, fg, g[4 * h + 2]) + ansi(bg, fg, g[4 * h + 3])
}

/// The first `x` cells of row `y` of a map of side `n`, half `h` of each.
pub open spec fn row_text(cells: Seq<Cell>, n: int, y: int, h: int, x: int) -> Seq<char>
    decreases x,
{
    if x <= 0 {
        seq![]
    } else {
        row_text(cells, n, y, h, x - 1) + cell_half(cells[y * n + x - 1], h)
    }
}

/// The first `lines` text lines of the picture: two per map row.
pub open spec fn grid_text(cells: Seq<Cell>, n: int, lines: int) -> Seq<char>
    decreases lines,
{
    if lines <= 0 {
        seq![]
    } else {
        grid_text(cells, n, lines - 1) + row_text(cells, n, (lines - 1) / 2, (lines - 1) % 2, n) + seq!['\n']
    }
}

impl FarmMap {
    /// The whole map drawn, row by row, each row as two text lines.
    pub fn print_map(&self) -> (r: String)
        requires
            self.wf(),
        ensures
            r@ == grid_text(self.cells@, self.size as int, 2 * self.size),
    {
        let n = self.size;
        let ghost cells = self.cells@;
        let mut s = String::new();
        let mut line: usize = 0;
        while line < 2 * n
            invariant
                self.wf(),
                n == self.size,
                cells == self.cells@,
                line <= 2 * n,
                s@ == grid_text(cells, n as int, line as int),
            decreases 2 * n - line,
        {
            let y = line / 2;
            let h = line % 2;
            let ghost before = s@;
            let mut x: usize = 0;
            while x < n
                invariant
                    self.wf(),
                    n == self.size,
                    cells == self.cells@,
                    line < 2 * n,
                    y == line / 2,
                    h == line % 2,
                    x <= n,
                    s@ == before + row_text(cells, n as int, y as int, h as int, x as int),
                decreases n - x,
            {
                proof {
                    assert(y * n + x < n * n) by (nonlinear_arith)
                        requires
                            y < n,
                            x < n,
                    ;
                    assert(n * n <= MAX_MAP_SIZE * MAX_MAP_SIZE) by (nonlinear_arith)
                        requires
                            n <= MAX_MAP_SIZE,
                    ;
                }
                let a = self.cells[y * n + x].to_ansi();
                let k = 4 * h;
                s.append(a[k].as_str());
                s.append(a[k + 1].as_str());
                s.append(a[k + 2].as_str());
                s.append(a[k + 3].as_str());
                proof {
                    let c = cells[y * n + x];
                    assert(s@ =~= before + row_text(cells, n as int, y as int, h as int, x as int) + cell_half(c, h as int));
                }
                x = x + 1;
            }
            s.append("\n");
            proof {
                reveal_strlit("\n");
                assert(s@ =~= grid_text(cells, n as int, line + 1));
            }
            line = line + 1;
        }
        s
    }
}

} // verus!
