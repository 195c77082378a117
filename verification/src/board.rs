//! The game board: a fixed 7-wide, 6-high grid filled under gravity.
//!
//! Row 0 is the bottom row; a piece inserted into a column comes to rest on
//! the lowest empty row of that column. The board also keeps, for each
//! player, the length of the longest contiguous run that player has ever
//! completed through a placed piece (a high-water mark used as the search
//! heuristic).

use vstd::prelude::*;

verus! {

/// Number of columns of the grid.
pub const WIDTH: usize = 7;

/// Number of rows of the grid.
pub const HEIGHT: usize = 6;

/// Total number of cells of the grid.
pub const NUM_CELLS: usize = 42;

/// Run length that wins the game.
pub const WIN_LENGTH: usize = 4;

/// Upper bound on any axis run length (forward scan plus backward scan,
/// each at most `WIDTH` cells).
pub const MAX_RUN: usize = 14;

/// One cell of the grid: occupied by a player (`X` or `O`) or empty.
#[derive(Clone, Copy, PartialEq, Eq, Structural, Debug)]
pub enum Space {
    X,
    O,
    EMPTY,
}

impl Space {
    /// The other player. Defined only for the two player values.
    pub open spec fn spec_opposing(self) -> Space {
        if self == Space::X {
            Space::O
        } else {
            Space::X
        }
    }

    /// Returns the opposing player.
    pub fn opposing(self) -> (r: Space)
        requires
            self != Space::EMPTY,
        ensures
            r == self.spec_opposing(),
            r != Space::EMPTY,
            r != self,
    {
        match self {
            Space::X => Space::O,
            Space::O => Space::X,
            Space::EMPTY => {
                proof {
                    assert(false);
                }
                Space::X
            },
        }
    }
}

/// Outcome reported by a successful insert.
#[derive(Clone, Copy, PartialEq, Eq, Structural, Debug)]
pub enum GameOutcome {
    /// The game goes on.
    Continue,
    /// The move completed a run of at least `WIN_LENGTH` for this player.
    Win(Space),
    /// The move filled the last empty cell without completing a win.
    Draw,
}

/// Error returned by an insert into a column that is out of range or full.
#[derive(Clone, Copy, PartialEq, Eq, Structural, Debug)]
pub struct InvalidMove;

/// Mathematical model of a board: the grid as a row-major sequence of
/// cells (index `r * WIDTH + c`) and the two high-water run counters.
pub struct BoardModel {
    pub grid: Seq<Space>,
    pub longest_x: int,
    pub longest_o: int,
}

/// Whether `(r, c)` addresses a cell of the grid.
pub open spec fn in_range(r: int, c: int) -> bool {
    0 <= r < HEIGHT && 0 <= c < WIDTH
}

/// Row-major index of cell `(r, c)`.
pub open spec fn cell_index(r: int, c: int) -> int {
    r * (WIDTH as int) + c
}

/// The cell of `g` at row `r`, column `c`.
pub open spec fn cell(g: Seq<Space>, r: int, c: int) -> Space {
    g[cell_index(r, c)]
}

/// The grid has exactly one cell per position.
pub open spec fn grid_wf(g: Seq<Space>) -> bool {
    g.len() == NUM_CELLS
}

/// Gravity: no empty cell ever sits below an occupied one.
pub open spec fn gravity_ok(g: Seq<Space>) -> bool {
    forall|r: int, c: int|
        in_range(r, c) && r >= 1 && cell(g, r, c) != Space::EMPTY ==> cell(g, r - 1, c)
            != Space::EMPTY
}

/// Every cell of the grid is occupied.
pub open spec fn grid_full(g: Seq<Space>) -> bool {
    forall|i: int| 0 <= i < NUM_CELLS ==> g[i] != Space::EMPTY
}

/// The larger of two integers.
pub open spec fn int_max(a: int, b: int) -> int {
    if a >= b {
        a
    } else {
        b
    }
}

/// First empty row of column `c`, scanning upward from row `r`;
/// `HEIGHT` if every row from `r` on is occupied.
pub open spec fn col_height_from(g: Seq<Space>, c: int, r: int) -> int
    decreases HEIGHT - r,
{
    if r < 0 || r >= HEIGHT {
        HEIGHT as int
    } else if cell(g, r, c) == Space::EMPTY {
        r
    } else {
        col_height_from(g, c, r + 1)
    }
}

/// Number of occupied cells at the bottom of column `c`; equivalently the
/// row where the next piece inserted into `c` comes to rest.
pub open spec fn col_height(g: Seq<Space>, c: int) -> int {
    col_height_from(g, c, 0)
}

/// Whether a piece may be inserted into column `c`: in range and not full.
pub open spec fn col_legal(g: Seq<Space>, c: int) -> bool {
    0 <= c < WIDTH && cell(g, (HEIGHT - 1) as int, c) == Space::EMPTY
}

/// Number of contiguous cells equal to `s`, starting at `(r, c)` and
/// stepping by `(dr, dc)`, scanning at most `fuel` cells. The scan stops at
/// the first cell that is out of range or differs from `s`.
pub open spec fn count_dir(
    g: Seq<Space>,
    r: int,
    c: int,
    dr: int,
    dc: int,
    s: Space,
    fuel: nat,
) -> nat
    decreases fuel,
{
    if fuel == 0 || !in_range(r, c) || cell(g, r, c) != s {
        0
    } else {
        1 + count_dir(g, r + dr, c + dc, dr, dc, s, (fuel - 1) as nat)
    }
}

/// Length of the run of `s`-cells through `(r, c)` along the axis
/// `(dr, dc)`: the forward scan (including `(r, c)`) plus the backward scan
/// (excluding it). `WIDTH` cells of fuel suffice in each direction, since
/// no line of the grid holds more cells than that.
pub open spec fn axis_run(g: Seq<Space>, r: int, c: int, dr: int, dc: int, s: Space) -> int {
    count_dir(g, r, c, dr, dc, s, WIDTH as nat) as int + count_dir(
        g,
        r - dr,
        c - dc,
        -dr,
        -dc,
        s,
        WIDTH as nat,
    ) as int
}

/// The longest of the four axis runs through `(r, c)`: horizontal,
/// vertical, and the two diagonals.
pub open spec fn max_axis_run(g: Seq<Space>, r: int, c: int, s: Space) -> int {
    int_max(
        int_max(axis_run(g, r, c, 0, 1, s), axis_run(g, r, c, 1, 1, s)),
        int_max(axis_run(g, r, c, 1, 0, s), axis_run(g, r, c, 1, -1, s)),
    )
}

/// Whether the piece at `(r, c)` completes a winning run for `s`.
pub open spec fn wins_at(g: Seq<Space>, r: int, c: int, s: Space) -> bool {
    max_axis_run(g, r, c, s) >= WIN_LENGTH
}

/// The grid after a legal insert into column `c`: the lowest empty row of
/// the column is overwritten with `s`.
pub open spec fn place(g: Seq<Space>, c: int, s: Space) -> Seq<Space> {
    g.update(cell_index(col_height(g, c), c), s)
}

/// The model after a legal insert into column `c`: the piece placed and the
/// mover's high-water run counter raised to the longest axis run through
/// the new piece.
pub open spec fn model_insert(m: BoardModel, c: int, s: Space) -> BoardModel {
    let rh = col_height(m.grid, c);
    let g2 = place(m.grid, c, s);
    let run = max_axis_run(g2, rh, c, s);
    BoardModel {
        grid: g2,
        longest_x: if s == Space::X {
            int_max(m.longest_x, run)
        } else {
            m.longest_x
        },
        longest_o: if s == Space::O {
            int_max(m.longest_o, run)
        } else {
            m.longest_o
        },
    }
}

/// Whether a legal insert into column `c` wins for `s`.
pub open spec fn move_wins(m: BoardModel, c: int, s: Space) -> bool {
    wins_at(place(m.grid, c, s), col_height(m.grid, c), c, s)
}

/// Outcome of a legal insert into column `c` by `s`: a win takes
/// precedence over a draw, and a draw is reported exactly when the move
/// fills the last empty cell without winning.
pub open spec fn spec_outcome(m: BoardModel, c: int, s: Space) -> GameOutcome {
    if move_wins(m, c, s) {
        GameOutcome::Win(s)
    } else if grid_full(place(m.grid, c, s)) {
        GameOutcome::Draw
    } else {
        GameOutcome::Continue
    }
}

/// The high-water run counter of player `s` in model `m`.
pub open spec fn spec_longest(m: BoardModel, s: Space) -> int {
    if s == Space::X {
        m.longest_x
    } else {
        m.longest_o
    }
}

/// Well-formed board model: a full-size grid obeying gravity, with both
/// run counters within the geometric bound.
pub open spec fn model_wf(m: BoardModel) -> bool {
    &&& grid_wf(m.grid)
    &&& gravity_ok(m.grid)
    &&& 0 <= m.longest_x <= MAX_RUN
    &&& 0 <= m.longest_o <= MAX_RUN
}

/// The legal columns of `g` among columns `0 .. k`, in ascending order.
pub open spec fn legal_cols_upto(g: Seq<Space>, k: int) -> Seq<usize>
    decreases k,
{
    if k <= 0 {
        Seq::empty()
    } else {
        legal_cols_upto(g, k - 1) + if col_legal(g, k - 1) {
            seq![(k - 1) as usize]
        } else {
            Seq::empty()
        }
    }
}

/// All legal columns of `g`, in ascending order.
pub open spec fn legal_cols(g: Seq<Space>) -> Seq<usize> {
    legal_cols_upto(g, WIDTH as int)
}

/// A directional scan never counts more cells than its fuel allows.
pub proof fn lemma_count_dir_le_fuel(
    g: Seq<Space>,
    r: int,
    c: int,
    dr: int,
    dc: int,
    s: Space,
    fuel: nat,
)
    ensures
        count_dir(g, r, c, dr, dc, s, fuel) <= fuel,
    decreases fuel,
{
    if fuel > 0 && in_range(r, c) && cell(g, r, c) == s {
        lemma_count_dir_le_fuel(g, r + dr, c + dc, dr, dc, s, (fuel - 1) as nat);
    }
}

/// Characterization of `col_height_from`: every row from `r` up to the
/// reported height is occupied, and the reported height itself is an empty
/// row whenever it lies inside the grid.
pub proof fn lemma_col_height_from(g: Seq<Space>, c: int, r: int)
    requires
        0 <= r <= HEIGHT,
    ensures
        r <= col_height_from(g, c, r) <= HEIGHT,
        forall|j: int| r <= j < col_height_from(g, c, r) ==> cell(g, j, c) != Space::EMPTY,
        col_height_from(g, c, r) < HEIGHT ==> cell(g, col_height_from(g, c, r), c) == Space::EMPTY,
    decreases HEIGHT - r,
{
    if r < HEIGHT && cell(g, r, c) != Space::EMPTY {
        lemma_col_height_from(g, c, r + 1);
    }
}

/// Characterization of `col_height`: the occupied cells of a column are
/// exactly the rows below its height. The downward direction needs
/// gravity; the upward direction holds of any grid.
pub proof fn lemma_col_height(g: Seq<Space>, c: int)
    requires
        grid_wf(g),
        gravity_ok(g),
        0 <= c < WIDTH,
    ensures
        0 <= col_height(g, c) <= HEIGHT,
        forall|r: int|
            0 <= r < HEIGHT ==> (cell(g, r, c) != Space::EMPTY <==> r < col_height(g, c)),
        col_legal(g, c) <==> col_height(g, c) < HEIGHT,
{
    lemma_col_height_from(g, c, 0);
    let h = col_height(g, c);
    assert forall|r: int| 0 <= r < HEIGHT implies (cell(g, r, c) != Space::EMPTY <==> r < h) by {
        if r >= h && cell(g, r, c) != Space::EMPTY {
            // Gravity would make the empty cell at the height occupied.
            lemma_occupied_down(g, c, h, r);
            assert(false);
        }
    }
}

/// Gravity chained downward: if row `r2` of a column is occupied, so is
/// every row from `r1` down to it.
pub proof fn lemma_occupied_down(g: Seq<Space>, c: int, r1: int, r2: int)
    requires
        grid_wf(g),
        gravity_ok(g),
        0 <= r1 <= r2 < HEIGHT,
        0 <= c < WIDTH,
        cell(g, r2, c) != Space::EMPTY,
    ensures
        cell(g, r1, c) != Space::EMPTY,
    decreases r2 - r1,
{
    if r1 < r2 {
        lemma_occupied_down(g, c, r1 + 1, r2);
        assert(in_range(r1 + 1, c) && cell(g, r1 + 1, c) != Space::EMPTY);
        assert(cell(g, (r1 + 1) - 1, c) != Space::EMPTY);
    }
}

/// On a full grid no column is legal and the legal-column sequence is
/// empty; together with the contract of `insert` (which returns
/// `Err(InvalidMove)` exactly on the non-legal columns) this gives the
/// full-board behaviour: no legal column, and every insert rejected.
pub proof fn lemma_full_board(g: Seq<Space>)
    requires
        grid_wf(g),
        grid_full(g),
    ensures
        forall|c: int| !col_legal(g, c),
        legal_cols(g) == Seq::<usize>::empty(),
{
    assert forall|c: int| !col_legal(g, c) by {
        if 0 <= c < WIDTH {
            assert(cell(g, (HEIGHT - 1) as int, c) != Space::EMPTY);
        }
    }
    lemma_no_legal_cols_empty(g, WIDTH as int);
}

/// If no column below `k` is legal, the legal-column sequence up to `k`
/// is empty.
pub proof fn lemma_no_legal_cols_empty(g: Seq<Space>, k: int)
    requires
        forall|c: int| 0 <= c < k ==> !col_legal(g, c),
    ensures
        legal_cols_upto(g, k) == Seq::<usize>::empty(),
    decreases k,
{
    if k > 0 {
        lemma_no_legal_cols_empty(g, k - 1);
        assert(legal_cols_upto(g, k) =~= Seq::<usize>::empty());
    }
}

/// Placing a piece on the lowest empty row of a legal column changes that
/// cell alone and preserves gravity.
pub proof fn lemma_place_ok(g: Seq<Space>, c: int, s: Space)
    requires
        grid_wf(g),
        gravity_ok(g),
        col_legal(g, c),
        s != Space::EMPTY,
    ensures
        grid_wf(place(g, c, s)),
        gravity_ok(place(g, c, s)),
        cell(place(g, c, s), col_height(g, c), c) == s,
        forall|r2: int, c2: int|
            in_range(r2, c2) && !(r2 == col_height(g, c) && c2 == c) ==> cell(place(g, c, s), r2, c2)
                == cell(g, r2, c2),
{
    let h = col_height(g, c);
    let g2 = place(g, c, s);
    lemma_col_height(g, c);
    assert forall|r2: int, c2: int|
        in_range(r2, c2) && !(r2 == h && c2 == c) implies cell(g2, r2, c2) == cell(g, r2, c2) by {
        assert(cell_index(r2, c2) != cell_index(h, c));
    }
    assert forall|r2: int, c2: int|
        in_range(r2, c2) && r2 >= 1 && cell(g2, r2, c2) != Space::EMPTY implies cell(
        g2,
        r2 - 1,
        c2,
    ) != Space::EMPTY by {
        if r2 == h && c2 == c {
            // The new piece rests on the occupied prefix of its column.
            assert(cell(g, r2 - 1, c2) != Space::EMPTY);
        } else if r2 - 1 == h && c2 == c {
            assert(cell(g2, r2 - 1, c2) == s);
        } else {
            assert(cell(g2, r2, c2) == cell(g, r2, c2));
            assert(cell(g2, r2 - 1, c2) == cell(g, r2 - 1, c2));
        }
    }
}

/// The legal-column sequence lists exactly the legal columns, each once,
/// in strictly ascending order.
pub proof fn lemma_legal_cols_exact(g: Seq<Space>, k: int)
    requires
        0 <= k <= WIDTH,
    ensures
        forall|i: int|
            0 <= i < legal_cols_upto(g, k).len() ==> col_legal(
                g,
                legal_cols_upto(g, k)[i] as int,
            ) && legal_cols_upto(g, k)[i] < k,
        forall|c: usize| c < k && col_legal(g, c as int) ==> legal_cols_upto(g, k).contains(c),
        forall|i: int, j: int|
            0 <= i < j < legal_cols_upto(g, k).len() ==> legal_cols_upto(g, k)[i]
                < legal_cols_upto(g, k)[j],
    decreases k,
{
    if k > 0 {
        lemma_legal_cols_exact(g, k - 1);
        let prev = legal_cols_upto(g, k - 1);
        let cur = legal_cols_upto(g, k);
        if col_legal(g, k - 1) {
            assert forall|c: usize| c < k && col_legal(g, c as int) implies cur.contains(c) by {
                if c < k - 1 {
                    let i = choose|i: int| 0 <= i < prev.len() && prev[i] == c;
                    assert(cur[i] == c);
                } else {
                    assert(cur[cur.len() - 1] == c);
                }
            }
        } else {
            assert forall|c: usize| c < k && col_legal(g, c as int) implies cur.contains(c) by {
                let i = choose|i: int| 0 <= i < prev.len() && prev[i] == c;
                assert(cur[i] == c);
            }
        }
    }
}

/// A legal insert takes a well-formed board to a well-formed board: the
/// gravity invariant (every column's occupied cells form a contiguous
/// prefix from row 0) and the run-counter bounds are preserved. Together
/// with `Board::new`, which starts well-formed, every board reachable
/// through successful inserts is well-formed.
pub proof fn lemma_model_insert_wf(m: BoardModel, c: int, s: Space)
    requires
        model_wf(m),
        col_legal(m.grid, c),
        s != Space::EMPTY,
    ensures
        model_wf(model_insert(m, c, s)),
{
    lemma_place_ok(m.grid, c, s);
    let g2 = place(m.grid, c, s);
    let rh = col_height(m.grid, c);
    lemma_count_dir_le_fuel(g2, rh, c, 0, 1, s, WIDTH as nat);
    lemma_count_dir_le_fuel(g2, rh, c - 1, 0, -1, s, WIDTH as nat);
    lemma_count_dir_le_fuel(g2, rh, c, 1, 1, s, WIDTH as nat);
    lemma_count_dir_le_fuel(g2, rh - 1, c - 1, -1, -1, s, WIDTH as nat);
    lemma_count_dir_le_fuel(g2, rh, c, 1, 0, s, WIDTH as nat);
    lemma_count_dir_le_fuel(g2, rh - 1, c, -1, 0, s, WIDTH as nat);
    lemma_count_dir_le_fuel(g2, rh, c, 1, -1, s, WIDTH as nat);
    lemma_count_dir_le_fuel(g2, rh - 1, c + 1, -1, 1, s, WIDTH as nat);
}

/// The game board. Row 0 is the bottom row.
pub struct Board {
    cells: Vec<Space>,
    longest_x: i32,
    longest_o: i32,
}

impl View for Board {
    type V = BoardModel;

    closed spec fn view(&self) -> BoardModel {
        BoardModel {
            grid: self.cells@,
            longest_x: self.longest_x as int,
            longest_o: self.longest_o as int,
        }
    }
}

impl Board {
    /// Well-formed board: see `model_wf`.
    pub open spec fn wf(&self) -> bool {
        model_wf(self@)
    }

    /// Constructs an empty board with both run counters at zero.
    pub fn new() -> (b: Board)
        ensures
            b.wf(),
            b@.grid.len() == NUM_CELLS,
            forall|i: int| 0 <= i < NUM_CELLS ==> b@.grid[i] == Space::EMPTY,
            b@.longest_x == 0,
            b@.longest_o == 0,
    {
        let mut cells: Vec<Space> = Vec::new();
        let mut i: usize = 0;
        while i < NUM_CELLS
            invariant
                i <= NUM_CELLS,
                cells@.len() == i,
                forall|j: int| 0 <= j < i ==> cells@[j] == Space::EMPTY,
            decreases NUM_CELLS - i,
        {
            cells.push(Space::EMPTY);
            i = i + 1;
        }
        Board { cells, longest_x: 0, longest_o: 0 }
    }

    /// An independent copy of the board with the same model. The search
    /// explores hypothetical continuations on such copies, never on the
    /// caller's board.
    pub fn duplicate(&self) -> (b: Board)
        ensures
            b@ == self@,
    {
        let mut cells: Vec<Space> = Vec::new();
        let mut i: usize = 0;
        while i < self.cells.len()
            invariant
                i <= self.cells@.len(),
                cells@.len() == i,
                forall|j: int| 0 <= j < i ==> cells@[j] == self.cells@[j],
            decreases self.cells@.len() - i,
        {
            cells.push(self.cells[i]);
            i = i + 1;
        }
        proof {
            assert(cells@ =~= self.cells@);
        }
        Board { cells, longest_x: self.longest_x, longest_o: self.longest_o }
    }

    /// Reads the cell at row `r`, column `c`; `None` exactly when `(r, c)`
    /// is outside the grid.
    pub fn get(&self, r: i32, c: i32) -> (res: Option<Space>)
        requires
            grid_wf(self@.grid),
        ensures
            res is Some <==> in_range(r as int, c as int),
            in_range(r as int, c as int) ==> res == Some(cell(self@.grid, r as int, c as int)),
    {
        if r < 0 || c < 0 {
            return None;
        }
        let ru = r as usize;
        let cu = c as usize;
        if ru >= HEIGHT || cu >= WIDTH {
            return None;
        }
        Some(self.cells[ru * WIDTH + cu])
    }

    /// Overwrites the cell at row `r`, column `c` with `v`, in place;
    /// `None`, with the board unchanged, exactly when `(r, c)` is outside
    /// the grid. This is the raw write accessor: it makes no attempt to
    /// respect gravity, so a caller that uses it directly may leave the
    /// board outside the states `insert` can work on.
    pub fn get_mut(&mut self, r: i32, c: i32, v: Space) -> (res: Option<()>)
        requires
            grid_wf(old(self)@.grid),
        ensures
            res is Some <==> in_range(r as int, c as int),
            in_range(r as int, c as int) ==> final(self)@.grid == old(self)@.grid.update(
                cell_index(r as int, c as int),
                v,
            ),
            !in_range(r as int, c as int) ==> final(self)@.grid == old(self)@.grid,
            final(self)@.longest_x == old(self)@.longest_x,
            final(self)@.longest_o == old(self)@.longest_o,
            grid_wf(final(self)@.grid),
    {
        if r < 0 || c < 0 {
            return None;
        }
        let ru = r as usize;
        let cu = c as usize;
        if ru >= HEIGHT || cu >= WIDTH {
            return None;
        }
        self.cells[ru * WIDTH + cu] = v;
        Some(())
    }

    /// Whether every cell of the board is occupied.
    pub fn is_full(&self) -> (r: bool)
        requires
            grid_wf(self@.grid),
        ensures
            r == grid_full(self@.grid),
    {
        let mut i: usize = 0;
        while i < NUM_CELLS
            invariant
                i <= NUM_CELLS,
                grid_wf(self@.grid),
                forall|j: int| 0 <= j < i ==> self@.grid[j] != Space::EMPTY,
            decreases NUM_CELLS - i,
        {
            if self.cells[i] == Space::EMPTY {
                return false;
            }
            i = i + 1;
        }
        true
    }

    /// The columns a piece may be inserted into, in ascending order.
    pub fn legal_columns(&self) -> (r: Vec<usize>)
        requires
            grid_wf(self@.grid),
        ensures
            r@ == legal_cols(self@.grid),
            forall|i: int| 0 <= i < r@.len() ==> col_legal(self@.grid, r@[i] as int),
    {
        let mut out: Vec<usize> = Vec::new();
        let mut c: usize = 0;
        while c < WIDTH
            invariant
                c <= WIDTH,
                grid_wf(self@.grid),
                out@ == legal_cols_upto(self@.grid, c as int),
                forall|i: int| 0 <= i < out@.len() ==> col_legal(self@.grid, out@[i] as int),
            decreases WIDTH - c,
        {
            if self.cells[(HEIGHT - 1) * WIDTH + c] == Space::EMPTY {
                out.push(c);
            }
            proof {
                assert(out@ =~= legal_cols_upto(self@.grid, c as int + 1));
            }
            c = c + 1;
        }
        out
    }

    /// Row where a piece inserted into column `c` would come to rest;
    /// `HEIGHT` when the column is full.
    fn column_height(&self, c: usize) -> (h: usize)
        requires
            grid_wf(self@.grid),
            c < WIDTH,
        ensures
            h as int == col_height(self@.grid, c as int),
            h <= HEIGHT,
    {
        let mut r: usize = 0;
        while r < HEIGHT
            invariant
                r <= HEIGHT,
                c < WIDTH,
                grid_wf(self@.grid),
                col_height(self@.grid, c as int) == col_height_from(
                    self@.grid,
                    c as int,
                    r as int,
                ),
            decreases HEIGHT - r,
        {
            if self.cells[r * WIDTH + c] == Space::EMPTY {
                return r;
            }
            r = r + 1;
        }
        HEIGHT
    }

    /// Inserts a piece of player `s` into column `c`.
    ///
    /// The piece comes to rest on the lowest empty row of the column. A
    /// column that is out of range or full is rejected with `InvalidMove`
    /// and the board is left unchanged. Otherwise the move is applied, the
    /// mover's high-water run counter is raised to the longest axis run
    /// through the new piece, and the outcome is reported: `Win` exactly
    /// when some axis run through the new piece reaches `WIN_LENGTH`, else
    /// `Draw` exactly when the board is now full, else `Continue`.
    pub fn insert(&mut self, c: i32, s: Space) -> (res: Result<GameOutcome, InvalidMove>)
        requires
            old(self).wf(),
            s != Space::EMPTY,
        ensures
            final(self).wf(),
            res is Err <==> !col_legal(old(self)@.grid, c as int),
            !col_legal(old(self)@.grid, c as int) ==> final(self)@ == old(self)@ && res == Result::<
                GameOutcome,
                InvalidMove,
            >::Err(InvalidMove),
            col_legal(old(self)@.grid, c as int) ==> final(self)@ == model_insert(
                old(self)@,
                c as int,
                s,
            ) && res == Result::<GameOutcome, InvalidMove>::Ok(
                spec_outcome(old(self)@, c as int, s),
            ),
    {
        let ghost m0 = self@;
        if c < 0 || c >= WIDTH as i32 {
            return Err(InvalidMove);
        }
        let cu = c as usize;
        let h = self.column_height(cu);
        proof {
            lemma_col_height(m0.grid, cu as int);
        }
        if h >= HEIGHT {
            return Err(InvalidMove);
        }
        proof {
            lemma_place_ok(m0.grid, cu as int, s);
        }
        let _ = self.get_mut(h as i32, c, s);
        proof {
            assert(self@.grid == place(m0.grid, cu as int, s));
        }
        let ri = h as i32;
        let w1 = self.win_in_direction(ri, c, 0, 1, s);
        let w2 = self.win_in_direction(ri, c, 1, 1, s);
        let w3 = self.win_in_direction(ri, c, 1, 0, s);
        let w4 = self.win_in_direction(ri, c, 1, -1, s);
        let won = w1 || w2 || w3 || w4;
        if won {
            Ok(GameOutcome::Win(s))
        } else if self.is_full() {
            Ok(GameOutcome::Draw)
        } else {
            Ok(GameOutcome::Continue)
        }
    }

    /// Counts the contiguous `s`-cells starting at `(r, c)` and stepping
    /// by `(dr, dc)`, up to the `WIDTH`-cell scan bound of `count_dir`.
    fn count_in_direction(&self, r: i32, c: i32, dr: i32, dc: i32, s: Space) -> (n: usize)
        requires
            grid_wf(self@.grid),
            -1 <= dr <= 1,
            -1 <= dc <= 1,
            -2 <= r <= 8,
            -2 <= c <= 8,
        ensures
            n as nat == count_dir(self@.grid, r as int, c as int, dr as int, dc as int, s,
            WIDTH as nat),
            n <= WIDTH,
    {
        let ghost g = self@.grid;
        let mut k: usize = 0;
        let mut rr: i32 = r;
        let mut cc: i32 = c;
        let mut go = true;
        while go && k < WIDTH
            invariant
                grid_wf(g),
                g == self@.grid,
                k <= WIDTH,
                -1 <= dr <= 1,
                -1 <= dc <= 1,
                r - 7 <= rr <= r + 7,
                c - 7 <= cc <= c + 7,
                -2 <= r <= 8,
                -2 <= c <= 8,
                go ==> count_dir(g, r as int, c as int, dr as int, dc as int, s, WIDTH as nat) == k
                    + count_dir(g, rr as int, cc as int, dr as int, dc as int, s, (WIDTH
                    - k) as nat),
                !go ==> count_dir(g, r as int, c as int, dr as int, dc as int, s, WIDTH as nat)
                    == k,
            decreases WIDTH - k, (if go {
                1int
            } else {
                0int
            }),
        {
            let here = self.get(rr, cc);
            match here {
                Some(x) => {
                    if x == s {
                        proof {
                            assert(count_dir(g, rr as int, cc as int, dr as int, dc as int, s,
                            (WIDTH - k) as nat) == 1 + count_dir(g, rr as int + dr, cc as int + dc,
                            dr as int, dc as int, s, (WIDTH - k - 1) as nat));
                        }
                        k = k + 1;
                        rr = rr + dr;
                        cc = cc + dc;
                    } else {
                        go = false;
                    }
                },
                None => {
                    go = false;
                },
            }
        }
        proof {
            if k == WIDTH {
                assert(count_dir(g, rr as int, cc as int, dr as int, dc as int, s, 0nat) == 0);
            }
        }
        k
    }

    /// Scans the axis `(dr, dc)` through the piece at `(r, c)`, raises the
    /// high-water run counter of `s` to the run length found, and reports
    /// whether that run wins.
    fn win_in_direction(&mut self, r: i32, c: i32, dr: i32, dc: i32, s: Space) -> (won: bool)
        requires
            grid_wf(old(self)@.grid),
            in_range(r as int, c as int),
            -1 <= dr <= 1,
            -1 <= dc <= 1,
            s != Space::EMPTY,
            0 <= spec_longest(old(self)@, s) <= MAX_RUN,
        ensures
            final(self)@.grid == old(self)@.grid,
            spec_longest(final(self)@, s) == int_max(
                spec_longest(old(self)@, s),
                axis_run(old(self)@.grid, r as int, c as int, dr as int, dc as int, s),
            ),
            spec_longest(final(self)@, s.spec_opposing()) == spec_longest(
                old(self)@,
                s.spec_opposing(),
            ),
            0 <= spec_longest(final(self)@, s) <= MAX_RUN,
            won == (axis_run(old(self)@.grid, r as int, c as int, dr as int, dc as int, s)
                >= WIN_LENGTH),
    {
        let fwd = self.count_in_direction(r, c, dr, dc, s);
        let bwd = self.count_in_direction(r - dr, c - dc, -dr, -dc, s);
        let total = fwd + bwd;
        let total_i = total as i32;
        let cur = self.get_longest_sequence(s);
        if total_i > cur {
            match s {
                Space::X => {
                    self.longest_x = total_i;
                },
                Space::O => {
                    self.longest_o = total_i;
                },
                Space::EMPTY => {
                    proof {
                        assert(false);
                    }
                },
            }
        }
        total >= WIN_LENGTH
    }

    /// The high-water run counter of player `s`.
    pub fn get_longest_sequence(&self, s: Space) -> (r: i32)
        requires
            s != Space::EMPTY,
        ensures
            r as int == spec_longest(self@, s),
    {
        match s {
            Space::X => self.longest_x,
            Space::O => self.longest_o,
            Space::EMPTY => {
                proof {
                    assert(false);
                }
                0
            },
        }
    }
}

} // verus!
