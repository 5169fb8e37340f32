use vstd::prelude::*;
use vstd::string::{StrSliceExecFns, StringExecFns};
use crate::distances::Distances;
use crate::grid_maze::GridMaze;

verus! {

/// The text of hexadecimal digit `d`.
pub open spec fn hex_digit(d: nat) -> Seq<char> {
    if d == 0 { "0"@ } else if d == 1 { "1"@ } else if d == 2 { "2"@ } else if d == 3 { "3"@ }
    else if d == 4 { "4"@ } else if d == 5 { "5"@ } else if d == 6 { "6"@ } else if d == 7 { "7"@ }
    else if d == 8 { "8"@ } else if d == 9 { "9"@ } else if d == 10 { "a"@ } else if d == 11 { "b"@ }
    else if d == 12 { "c"@ } else if d == 13 { "d"@ } else if d == 14 { "e"@ } else { "f"@ }
}

/// `v` in lower-case hexadecimal, without leading zeros.
pub open spec fn hex_digits(v: nat) -> Seq<char>
    decreases v,
{
    if v < 16 {
        hex_digit(v)
    } else {
        hex_digits(v / 16) + hex_digit(v % 16)
    }
}

/// The bits of `v` read as an unsigned number, as `{:x}` prints an `i32`.
pub open spec fn bits(v: i32) -> nat {
    if v >= 0 {
        v as nat
    } else {
        (v + 0x1_0000_0000) as nat
    }
}

pub open spec fn spaces(n: nat) -> Seq<char>
    decreases n,
{
    if n == 0 {
        seq![]
    } else {
        spaces((n - 1) as nat) + " "@
    }
}

pub open spec fn repeat(s: Seq<char>, n: nat) -> Seq<char>
    decreases n,
{
    if n == 0 {
        seq![]
    } else {
        repeat(s, (n - 1) as nat) + s
    }
}

/// `v` in hexadecimal, right-aligned in a field of `width` characters.
pub open spec fn hex_field(v: i32, width: nat) -> Seq<char> {
    let digits = hex_digits(bits(v));
    if digits.len() >= width {
        digits
    } else {
        spaces((width - digits.len()) as nat) + digits
    }
}

/// What the body of a cell shows.
#[derive(PartialEq, Eq, Structural, Clone, Copy, Debug)]
pub enum TextStyle {
    /// Nothing: walls only.
    Plain,
    /// The recorded distance in three hexadecimal columns, blank if none.
    Path,
    /// The recorded distance (0 if none) in two hexadecimal columns.
    Overlay,
}

fn hex_str(d: u32) -> (r: &'static str)
    requires
        d < 16,
    ensures
        r@ == hex_digit(d as nat),
{
    match d {
        0 => "0",
        1 => "1",
        2 => "2",
        3 => "3",
        4 => "4",
        5 => "5",
        6 => "6",
        7 => "7",
        8 => "8",
        9 => "9",
        10 => "a",
        11 => "b",
        12 => "c",
        13 => "d",
        14 => "e",
        _ => "f",
    }
}

fn push_hex_digits(buf: &mut String, v: u32)
    ensures
        final(buf)@ == old(buf)@ + hex_digits(v as nat),
    decreases v,
{
    if v >= 16 {
        push_hex_digits(buf, v / 16);
    }
    buf.append(hex_str(v % 16));
    assert(buf@ =~= old(buf)@ + hex_digits(v as nat));
}

/// Appends `v` in hexadecimal, right-aligned in `width` columns.
fn push_hex_field(buf: &mut String, v: i32, width: usize)
    ensures
        final(buf)@ == old(buf)@ + hex_field(v, width as nat),
{
    let u: u32 = if v >= 0 {
        v as u32
    } else {
        (v as i64 + 0x1_0000_0000i64) as u32
    };
    let mut digits = String::new();
    push_hex_digits(&mut digits, u);
    assert(digits@ =~= hex_digits(bits(v)));
    let len = digits.as_str().unicode_len();
    let mut k = len;
    while k < width
        invariant
            len <= k <= if len <= width { width } else { len },
            buf@ == old(buf)@ + spaces((k - len) as nat),
        decreases width - k,
    {
        buf.append(" ");
        k += 1;
    }
    buf.append(digits.as_str());
    assert(buf@ =~= old(buf)@ + hex_field(v, width as nat));
}

/// The recorded distances, none when there are no distances.
pub open spec fn recorded(d: Option<&Distances>) -> Map<usize, i32> {
    match d {
        Some(x) => x@,
        None => Map::empty(),
    }
}

impl GridMaze {
    /// Node `i` has a right neighbour and a passage to it.
    pub open spec fn open_right(&self, i: nat) -> bool {
        match self.spec_right(i) {
            Some(j) => self.spec_has_link(i, j),
            None => false,
        }
    }

    /// Node `i` has a neighbour below and a passage to it.
    pub open spec fn open_down(&self, i: nat) -> bool {
        match self.spec_down(i) {
            Some(j) => self.spec_has_link(i, j),
            None => false,
        }
    }

    /// The upper line of cell `i`: its body, then its right wall or a gap.
    pub open spec fn cell_top(&self, style: TextStyle, d: Map<usize, i32>, i: nat) -> Seq<char> {
        let open = self.open_right(i);
        match style {
            TextStyle::Plain => if open { "     "@ } else { "    |"@ },
            TextStyle::Path => (if d.contains_key(i as usize) {
                hex_field(d[i as usize], 3)
            } else {
                "   "@
            }) + (if open { "  "@ } else { " |"@ }),
            TextStyle::Overlay => "  "@ + hex_field(
                if d.contains_key(i as usize) { d[i as usize] } else { 0 },
                2,
            ) + (if open { " "@ } else { "|"@ }),
        }
    }

    /// The lower line of cell `i`: its bottom wall or a gap, then a corner.
    pub open spec fn cell_bottom(&self, i: nat) -> Seq<char> {
        if self.open_down(i) { "    +"@ } else { "----+"@ }
    }

    pub open spec fn cells_top(&self, style: TextStyle, d: Map<usize, i32>, r: nat, c: nat) -> Seq<char>
        decreases c,
    {
        if c == 0 {
            seq![]
        } else {
            self.cells_top(style, d, r, (c - 1) as nat) + self.cell_top(style, d, (r * self.cols + c - 1) as nat)
        }
    }

    pub open spec fn cells_bottom(&self, r: nat, c: nat) -> Seq<char>
        decreases c,
    {
        if c == 0 {
            seq![]
        } else {
            self.cells_bottom(r, (c - 1) as nat) + self.cell_bottom((r * self.cols + c - 1) as nat)
        }
    }

    /// The two lines that draw row `r`.
    pub open spec fn row_text(&self, style: TextStyle, d: Map<usize, i32>, r: nat) -> Seq<char> {
        "|"@ + self.cells_top(style, d, r, self.cols as nat) + "\n"@ + "+"@ + self.cells_bottom(
            r,
            self.cols as nat,
        ) + "\n"@
    }

    pub open spec fn rows_text(&self, style: TextStyle, d: Map<usize, i32>, k: nat) -> Seq<char>
        decreases k,
    {
        if k == 0 {
            seq![]
        } else {
            self.rows_text(style, d, (k - 1) as nat) + self.row_text(style, d, (k - 1) as nat)
        }
    }

    /// The maze drawn in ASCII: a top wall, then two lines per row.
    pub open spec fn text(&self, style: TextStyle, d: Map<usize, i32>) -> Seq<char> {
        "+"@ + repeat("----+"@, self.cols as nat) + (if style == TextStyle::Path { " \n"@ } else { "\n"@ })
            + self.rows_text(style, d, self.rows as nat)
    }

    fn push_cell_top(&self, buf: &mut String, style: TextStyle, d: Option<&Distances>, i: usize)
        requires
            self.wf(),
            i < self.nodes@.len(),
        ensures
            final(buf)@ == old(buf)@ + self.cell_top(style, recorded(d), i as nat),
    {
        let node = self.nodes[i];
        let open = match self.right(&node) {
            Some(right_node) => self.has_node_link(&node, &right_node),
            None => false,
        };
        assert(open == self.open_right(i as nat));
        match style {
            TextStyle::Plain => {
                if open {
                    buf.append("     ");
                } else {
                    buf.append("    |");
                }
            },
            TextStyle::Path => {
                let found = match d {
                    Some(x) => x.get(&node),
                    None => None,
                };
                match found {
                    Some(w) => push_hex_field(buf, *w, 3),
                    None => buf.append("   "),
                }
                if open {
                    buf.append("  ");
                } else {
                    buf.append(" |");
                }
            },
            TextStyle::Overlay => {
                let found = match d {
                    Some(x) => x.get(&node),
                    None => None,
                };
                let dist = match found {
                    Some(w) => *w,
                    None => 0,
                };
                buf.append("  ");
                push_hex_field(buf, dist, 2);
                if open {
                    buf.append(" ");
                } else {
                    buf.append("|");
                }
            },
        }
        assert(buf@ =~= old(buf)@ + self.cell_top(style, recorded(d), i as nat));
    }

    fn push_cell_bottom(&self, buf: &mut String, i: usize)
        requires
            self.wf(),
            i < self.nodes@.len(),
        ensures
            final(buf)@ == old(buf)@ + self.cell_bottom(i as nat),
    {
        let node = self.nodes[i];
        let open = match self.down(&node) {
            Some(south_node) => self.has_node_link(&node, &south_node),
            None => false,
        };
        if open {
            buf.append("    +");
        } else {
            buf.append("----+");
        }
    }

    /// Draws the maze with the given cell bodies.
    pub fn render(&self, style: TextStyle, d: Option<&Distances>) -> (r: String)
        requires
            self.wf(),
            self.cols > 0,
        ensures
            r@ == self.text(style, recorded(d)),
    {
        let ghost dm = recorded(d);
        let mut buf = String::from_str("+");
        let mut k: usize = 0;
        while k < self.cols
            invariant
                k <= self.cols,
                buf@ == "+"@ + repeat("----+"@, k as nat),
            decreases self.cols - k,
        {
            buf.append("----+");
            k += 1;
        }
        if style == TextStyle::Path {
            buf.append(" \n");
        } else {
            buf.append("\n");
        }
        let ghost head = buf@;
        let mut r: usize = 0;
        let mut start: usize = 0;
        while r < self.rows
            invariant
                self.wf(),
                self.cols > 0,
                r <= self.rows,
                start == r * self.cols,
                dm == recorded(d),
                buf@ == head + self.rows_text(style, dm, r as nat),
            decreases self.rows - r,
        {
            assert(start + self.cols <= self.rows * self.cols) by (nonlinear_arith)
                requires
                    start == r * self.cols,
                    r < self.rows,
            ;
            let mut top = String::from_str("|");
            let mut bottom = String::from_str("+");
            let mut c: usize = 0;
            while c < self.cols
                invariant
                    self.wf(),
                    c <= self.cols,
                    start == r * self.cols,
                    start + self.cols <= self.nodes@.len(),
                    dm == recorded(d),
                    top@ == "|"@ + self.cells_top(style, dm, r as nat, c as nat),
                    bottom@ == "+"@ + self.cells_bottom(r as nat, c as nat),
                decreases self.cols - c,
            {
                self.push_cell_top(&mut top, style, d, start + c);
                self.push_cell_bottom(&mut bottom, start + c);
                assert(top@ =~= "|"@ + self.cells_top(style, dm, r as nat, (c + 1) as nat));
                assert(bottom@ =~= "+"@ + self.cells_bottom(r as nat, (c + 1) as nat));
                c += 1;
            }
            buf.append(top.as_str());
            buf.append("\n");
            buf.append(bottom.as_str());
            buf.append("\n");
            assert(buf@ =~= head + self.rows_text(style, dm, (r + 1) as nat));
            assert((r + 1) * self.cols == r * self.cols + self.cols) by (nonlinear_arith);
            start = start + self.cols;
            r += 1;
        }
        buf
    }

    /// The maze drawn with walls only.
    pub fn to_string(&self) -> (r: String)
        requires
            self.wf(),
            self.cols > 0,
        ensures
            r@ == self.text(TextStyle::Plain, Map::empty()),
    {
        self.render(TextStyle::Plain, None)
    }

    /// The maze drawn with the distance recorded in `path` for each node, in
    /// hexadecimal; nodes without one are left blank.
    pub fn display_path(&self, path: &Distances) -> (r: String)
        requires
            self.wf(),
            self.cols > 0,
        ensures
            r@ == self.text(TextStyle::Path, path@),
    {
        self.render(TextStyle::Path, Some(path))
    }
}

/// The maze drawn with the distance of each node from the root, in
/// hexadecimal, 0 where none is recorded.
pub fn overlay_distances(maze: &GridMaze, distances: &Distances) -> (r: String)
    requires
        maze.wf(),
        maze.cols > 0,
    ensures
        r@ == maze.text(TextStyle::Overlay, distances@),
{
    maze.render(TextStyle::Overlay, Some(distances))
}

} // verus!
