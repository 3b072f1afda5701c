use vstd::prelude::*;

verus! {

/// The character that marks a traversable cell.
pub const EMPTY: char = ' ';

/// A maze: rows of cell identifiers.
pub type Maze = Vec<Vec<char>>;

/// The cell that holds the point `(x, y)`, where cells are `block_size` wide,
/// or `None` where the point lies outside the grid.
pub open spec fn cell_spec(maze: Seq<Seq<char>>, x: int, y: int, block_size: int) -> Option<char> {
    if x < 0 || y < 0 || block_size <= 0 {
        None
    } else {
        let i = x / block_size;
        let j = y / block_size;
        if j < maze.len() && i < maze[j].len() {
            Some(maze[j][i])
        } else {
            None
        }
    }
}

/// The rows of a maze as sequences.
pub open spec fn maze_view(maze: &Maze) -> Seq<Seq<char>> {
    maze@.map_values(|row: Vec<char>| row@)
}

/// A line without the carriage return that may end it.
pub open spec fn strip_cr(l: Seq<char>) -> Seq<char> {
    if l.len() > 0 && l.last() == '\r' {
        l.drop_last()
    } else {
        l
    }
}

/// The lines of `s` from position `p` on, where the current line began at
/// `start`: lines end at a newline, a carriage return right before a newline
/// is dropped, and the text after the last newline is a line, kept as it is,
/// when it is not empty.
pub open spec fn lines_at(s: Seq<char>, start: int, p: int) -> Seq<Seq<char>>
    decreases s.len() - p,
{
    if p >= s.len() {
        if start < p {
            seq![s.subrange(start, p)]
        } else {
            seq![]
        }
    } else if s[p] == '\n' {
        seq![strip_cr(s.subrange(start, p))] + lines_at(s, p + 1, p + 1)
    } else {
        lines_at(s, start, p + 1)
    }
}

/// Reads a maze from its text: one line per row, one character per cell.
pub fn parse_maze(text: &str) -> (maze: Maze)
    ensures
        maze_view(&maze) == lines_at(text@, 0, 0),
{
    let n = text.unicode_len();
    let mut rows: Maze = Vec::new();
    let mut cur: Vec<char> = Vec::new();
    let ghost mut start: int = 0;
    let mut p: usize = 0;
    while p < n
        invariant
            p <= n == text@.len(),
            0 <= start <= p,
            cur@ == text@.subrange(start, p as int),
            maze_view(&rows) + lines_at(text@, start, p as int) == lines_at(text@, 0, 0),
        decreases n - p,
    {
        let c = text.get_char(p);
        if c == '\n' {
            let ghost line = cur@;
            if cur.len() > 0 && cur[cur.len() - 1] == '\r' {
                cur.pop();
            }
            assert(cur@ == strip_cr(line));
            let ghost before = maze_view(&rows);
            rows.push(cur);
            assert(maze_view(&rows) == before.push(strip_cr(line)));
            assert(maze_view(&rows) + lines_at(text@, p + 1, p + 1) =~= before + (seq![strip_cr(line)] + lines_at(text@, p + 1, p + 1)));
            cur = Vec::new();
            proof {
                start = p + 1;
            }
        } else {
            cur.push(c);
            assert(cur@ =~= text@.subrange(start, p + 1));
        }
        p = p + 1;
    }
    if cur.len() > 0 {
        let ghost line = cur@;
        let ghost before = maze_view(&rows);
        rows.push(cur);
        assert(maze_view(&rows) == before.push(line));
        assert(maze_view(&rows) =~= before + seq![line]);
    } else {
        assert(maze_view(&rows) =~= maze_view(&rows) + lines_at(text@, start, p as int));
    }
    rows
}

/// Every point of the square of cell `(i, j)` lies in that cell: the lookup
/// gives the cell's identifier, the empty sentinel for an empty cell and the
/// wall's identifier for a wall.
pub proof fn lemma_cell_at_inside(maze: Seq<Seq<char>>, i: int, j: int, block_size: int, x: int, y: int)
    requires
        block_size > 0,
        0 <= j < maze.len(),
        0 <= i < maze[j].len(),
        i * block_size <= x < (i + 1) * block_size,
        j * block_size <= y < (j + 1) * block_size,
    ensures
        cell_spec(maze, x, y, block_size) == Some(maze[j][i]),
{
    lemma_div_in_cell(x, i, block_size);
    lemma_div_in_cell(y, j, block_size);
}

/// A coordinate in `[i * b, (i + 1) * b)` divides down to `i`.
pub proof fn lemma_div_in_cell(x: int, i: int, b: int)
    requires
        b > 0,
        i * b <= x < (i + 1) * b,
    ensures
        x / b == i,
        x >= 0 <==> i >= 0,
{
    assert((i + 1) * b == i * b + b) by (nonlinear_arith);
    vstd::arithmetic::div_mod::lemma_fundamental_div_mod_converse(x, b, i, x - i * b);
    if i >= 0 {
        assert(i * b >= 0) by (nonlinear_arith)
            requires
                i >= 0,
                b > 0,
        ;
    } else {
        assert((i + 1) * b <= 0) by (nonlinear_arith)
            requires
                i + 1 <= 0,
                b > 0,
        ;
    }
}

/// Looks up the cell that holds the point `(x, y)`.
pub fn get_cell(maze: &Maze, x: i64, y: i64, block_size: usize) -> (r: Option<char>)
    requires
        block_size > 0,
    ensures
        r == cell_spec(maze_view(maze), x as int, y as int, block_size as int),
{
    if x < 0 || y < 0 {
        return None;
    }
    let i: u64 = x as u64 / block_size as u64;
    let j: u64 = y as u64 / block_size as u64;
    if j < maze.len() as u64 && i < maze[j as usize].len() as u64 {
        Some(maze[j as usize][i as usize])
    } else {
        None
    }
}

} // verus!
