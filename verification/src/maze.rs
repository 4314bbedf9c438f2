//! The tile grid of one level.
//!
//! A maze is a rectangle of tile symbols together with the edge length of
//! a tile in world units. Every query outside the rectangle answers with a
//! wall, so that nothing that walks the grid can leave it.

use crate::fixed::{fits_i64, mul_i128, HALF, ONE};
use crate::geometry::Vec2;
use vstd::prelude::*;

verus! {

/// Symbol of a wall tile: blocks movement and sight.
pub const WALL: char = '#';

/// Symbol of a door tile: blocks like a wall, and can be used.
pub const DOOR: char = 'D';

/// Symbol of the tile on which the player starts.
pub const SPAWN: char = 'P';

/// Symbol of the tile that holds the proximity trigger.
pub const TRIGGER: char = 'S';

/// Symbol of an empty tile, and the padding of short rows.
pub const EMPTY: char = ' ';

/// What a tile symbol means to the engine.
#[derive(Clone, Copy, Debug, PartialEq, Eq, Structural)]
pub enum TileKind {
    /// Blocks movement and sight.
    Wall,
    /// Blocks like a wall, and can be used.
    Door,
    /// Where the player starts.
    Spawn,
    /// Where the proximity trigger lies.
    Trigger,
    /// Everything else: can be walked on and seen through.
    Floor,
}

/// The meaning of a symbol; every symbol that is not recognised is floor.
pub open spec fn kind_of(c: char) -> TileKind {
    if c == WALL {
        TileKind::Wall
    } else if c == DOOR {
        TileKind::Door
    } else if c == SPAWN {
        TileKind::Spawn
    } else if c == TRIGGER {
        TileKind::Trigger
    } else {
        TileKind::Floor
    }
}

/// Whether a symbol stops movement, rays and sight: walls and doors do.
pub open spec fn blocks(c: char) -> bool {
    c == WALL || c == DOOR
}

/// The meaning of a tile symbol.
pub fn tile_kind(c: char) -> (k: TileKind)
    ensures
        k == kind_of(c),
{
    if c == WALL {
        TileKind::Wall
    } else if c == DOOR {
        TileKind::Door
    } else if c == SPAWN {
        TileKind::Spawn
    } else if c == TRIGGER {
        TileKind::Trigger
    } else {
        TileKind::Floor
    }
}

/// Whether a tile symbol blocks.
pub fn is_blocking(c: char) -> (b: bool)
    ensures
        b == blocks(c),
{
    c == WALL || c == DOOR
}

/// The mathematical model of a maze: its rows from top to bottom, and the
/// edge length of a tile in whole world units.
pub struct Grid {
    /// The rows, each a sequence of tile symbols.
    pub rows: Seq<Seq<char>>,
    /// Edge length of a tile in world units.
    pub tile: int,
}

impl Grid {
    /// Number of rows.
    pub open spec fn height(self) -> int {
        self.rows.len() as int
    }

    /// Number of columns: the length of the first row.
    pub open spec fn width(self) -> int {
        if self.rows.len() > 0 {
            self.rows[0].len() as int
        } else {
            0
        }
    }

    /// All rows have the same length, and the size of a tile is positive
    /// and fits 32 bits.
    pub open spec fn wf(self) -> bool {
        &&& 0 < self.tile <= u32::MAX
        &&& forall|j: int| 0 <= j < self.rows.len() ==> (#[trigger] self.rows[j]).len() == self.width()
    }

    /// Whether the cell in column `i` and row `j` lies inside the grid.
    pub open spec fn in_bounds(self, i: int, j: int) -> bool {
        0 <= i < self.width() && 0 <= j < self.height()
    }

    /// The symbol of a cell; outside the grid, a wall.
    pub open spec fn symbol_at(self, i: int, j: int) -> char {
        if self.in_bounds(i, j) {
            self.rows[j][i]
        } else {
            WALL
        }
    }

    /// Whether a cell blocks; outside the grid, every cell does.
    pub open spec fn blocking(self, i: int, j: int) -> bool {
        blocks(self.symbol_at(i, j))
    }

    /// Edge length of a cell in raw world units.
    pub open spec fn cell_size(self) -> int {
        self.tile * ONE
    }

    /// Index of the column or row that holds the raw world coordinate `v`.
    pub open spec fn cell_of(self, v: int) -> int {
        v / self.cell_size()
    }

    /// Raw world coordinate of the middle of column or row `k`.
    pub open spec fn center(self, k: int) -> int {
        (2 * k + 1) * (self.tile * HALF)
    }

    /// Whether `(i, j)` holds `ch` and no cell before it in row-major
    /// order does.
    pub open spec fn first_at(self, ch: char, i: int, j: int) -> bool {
        &&& self.in_bounds(i, j)
        &&& self.rows[j][i] == ch
        &&& forall|i2: int, j2: int|
            self.in_bounds(i2, j2) && (j2 < j || (j2 == j && i2 < i)) ==> #[trigger] self.rows[j2][i2]
                != ch
    }

    /// Whether any cell of the grid holds `ch`.
    pub open spec fn has(self, ch: char) -> bool {
        exists|i: int, j: int| self.in_bounds(i, j) && #[trigger] self.rows[j][i] == ch
    }

    /// Column and row of the first cell that holds `ch`, in row-major
    /// order. Meaningful only where some cell holds it.
    pub open spec fn first_cell(self, ch: char) -> (int, int) {
        choose|p: (int, int)| self.first_at(ch, p.0, p.1)
    }

    /// World position of the middle of the first cell that holds `ch`,
    /// where there is such a cell and 64-bit coordinates can name its
    /// middle.
    pub open spec fn marker(self, ch: char) -> Option<Vec2> {
        let p = self.first_cell(ch);
        if self.has(ch) && fits_i64(self.center(p.0)) && fits_i64(self.center(p.1)) {
            Some(Vec2 { x: self.center(p.0) as i64, y: self.center(p.1) as i64 })
        } else {
            None
        }
    }

    /// At most one cell is the first to hold a symbol.
    pub proof fn lemma_first_unique(self, ch: char, i: int, j: int)
        requires
            self.first_at(ch, i, j),
        ensures
            self.first_cell(ch) == (i, j),
            self.has(ch),
    {
        let p = self.first_cell(ch);
        assert(self.first_at(ch, (i, j).0, (i, j).1));
        assert(self.first_at(ch, p.0, p.1));
        if p.1 < j || (p.1 == j && p.0 < i) {
            assert(self.rows[p.1][p.0] != ch);
        }
        if j < p.1 || (j == p.1 && i < p.0) {
            assert(self.rows[j][i] != ch);
        }
    }
}

/// The world is closed: every cell outside the grid is a wall, and
/// blocks.
pub proof fn lemma_outside_blocks(g: Grid, i: int, j: int)
    requires
        !g.in_bounds(i, j),
    ensures
        g.symbol_at(i, j) == WALL,
        g.blocking(i, j),
{
}

/// The rows that a vector of rows stands for.
pub open spec fn rows_view(v: Seq<Vec<char>>) -> Seq<Seq<char>> {
    Seq::new(v.len(), |j: int| v[j]@)
}

/// The lines read so far with one more line, unless that line is empty.
pub open spec fn push_line(done: Seq<Seq<char>>, line: Seq<char>) -> Seq<Seq<char>> {
    if line.len() == 0 {
        done
    } else {
        done.push(line)
    }
}

/// A line without the carriage return that ends it, if one does.
pub open spec fn strip_cr(line: Seq<char>) -> Seq<char> {
    if line.len() > 0 && line.last() == '\r' {
        line.drop_last()
    } else {
        line
    }
}

/// The state of reading a text line by line, after its first `n`
/// characters: the lines that are complete and not empty, and the
/// characters of the line that is being read. A line ends at a line feed;
/// a carriage return directly before the line feed belongs to the ending.
pub open spec fn scan_lines(text: Seq<char>, n: nat) -> (Seq<Seq<char>>, Seq<char>)
    decreases n,
{
    if n == 0 {
        (Seq::empty(), Seq::empty())
    } else {
        let before = scan_lines(text, (n - 1) as nat);
        let c = text[n - 1];
        if c == '\n' {
            (push_line(before.0, strip_cr(before.1)), Seq::empty())
        } else {
            (before.0, before.1.push(c))
        }
    }
}

/// The lines of a text that are not empty, from the first to the last.
/// The last line need not end in a line feed.
pub open spec fn text_rows(text: Seq<char>) -> Seq<Seq<char>> {
    let end = scan_lines(text, text.len());
    push_line(end.0, end.1)
}

/// The length of the longest of some rows.
pub open spec fn max_width(rows: Seq<Seq<char>>) -> nat
    decreases rows.len(),
{
    if rows.len() == 0 {
        0
    } else {
        let rest = max_width(rows.drop_last());
        if rows.last().len() > rest {
            rows.last().len()
        } else {
            rest
        }
    }
}

/// A row made `w` symbols long with empty tiles at its end.
pub open spec fn padded(row: Seq<char>, w: nat) -> Seq<char> {
    row + Seq::new((w - row.len()) as nat, |k: int| EMPTY)
}

/// Rows made equally long: each as long as the longest.
pub open spec fn pad_rows(rows: Seq<Seq<char>>) -> Seq<Seq<char>> {
    Seq::new(rows.len(), |j: int| padded(rows[j], max_width(rows)))
}

/// The grid that a text describes, for tiles of `tile` world units: its
/// lines that are not empty, made equally long with empty tiles.
pub open spec fn parse(text: Seq<char>, tile: int) -> Grid {
    Grid { rows: pad_rows(text_rows(text)), tile }
}

/// No row is longer than the longest.
pub proof fn lemma_max_width(rows: Seq<Seq<char>>, j: int)
    requires
        0 <= j < rows.len(),
    ensures
        rows[j].len() <= max_width(rows),
    decreases rows.len(),
{
    if j < rows.len() - 1 {
        lemma_max_width(rows.drop_last(), j);
    }
}

/// The grid that a text describes is well formed.
pub proof fn lemma_parse_wf(text: Seq<char>, tile: int)
    requires
        0 < tile <= u32::MAX,
    ensures
        parse(text, tile).wf(),
        parse(text, tile).height() == text_rows(text).len(),
        parse(text, tile).width() == (if text_rows(text).len() > 0 {
            max_width(text_rows(text))
        } else {
            0
        }),
{
    let rows = text_rows(text);
    let g = parse(text, tile);
    assert forall|j: int| 0 <= j < g.rows.len() implies (#[trigger] g.rows[j]).len() == max_width(
        rows,
    ) by {
        lemma_max_width(rows, j);
    }
}

/// A level: a rectangular grid of tile symbols and the size of a tile.
pub struct Maze {
    grid: Vec<Vec<char>>,
    block_size: u32,
    w: usize,
    h: usize,
}

impl View for Maze {
    type V = Grid;

    closed spec fn view(&self) -> Grid {
        Grid { rows: rows_view(self.grid@), tile: self.block_size as int }
    }
}

impl Clone for Maze {
    /// A copy with the same rows and tile size.
    fn clone(&self) -> (m: Maze)
        ensures
            m@ == self@,
    {
        proof {
            use_type_invariant(self);
        }
        let mut grid: Vec<Vec<char>> = Vec::new();
        let mut j: usize = 0;
        while j < self.grid.len()
            invariant
                j <= self.grid.len(),
                grid.len() == j,
                forall|k: int| 0 <= k < j ==> (#[trigger] grid@[k])@ == self.grid@[k]@,
            decreases self.grid.len() - j,
        {
            let row = self.grid[j].clone();
            assert(row@ =~= self.grid@[j as int]@);
            grid.push(row);
            j = j + 1;
        }
        assert(rows_view(grid@) =~= rows_view(self.grid@));
        Maze { grid, block_size: self.block_size, w: self.w, h: self.h }
    }
}

impl Maze {
    /// The stored width and height are those of the grid, and the grid is
    /// well formed.
    #[verifier::type_invariant]
    pub closed spec fn inv(&self) -> bool {
        &&& self@.wf()
        &&& self.w == self@.width()
        &&& self.h == self@.height()
    }

    /// What the type's invariant says of the model.
    pub proof fn lemma_inv(self)
        requires
            self.inv(),
        ensures
            self@.wf(),
            0 < self@.tile <= u32::MAX,
            self@.width() <= usize::MAX,
            self@.height() <= usize::MAX,
    {
    }

    /// Builds a maze from rows of equal length.
    pub fn new(grid: Vec<Vec<char>>, block_size: u32) -> (m: Maze)
        requires
            (Grid { rows: rows_view(grid@), tile: block_size as int }).wf(),
        ensures
            m@ == (Grid { rows: rows_view(grid@), tile: block_size as int }),
    {
        let h = grid.len();
        let w = if h > 0 {
            grid[0].len()
        } else {
            0
        };
        Maze { grid, block_size, w, h }
    }

    /// Reads a maze from a text of one line per row. Lines end at a line
    /// feed, with or without a carriage return before it; empty lines are
    /// passed over; rows shorter than the longest are filled up with empty
    /// tiles.
    pub fn from_str_map(text: &str, block_size: u32) -> (m: Maze)
        requires
            block_size > 0,
        ensures
            m@ == parse(text@, block_size as int),
    {
        let rows = read_rows(text);
        let width = longest(&rows);
        let mut grid: Vec<Vec<char>> = Vec::new();
        let mut j: usize = 0;
        while j < rows.len()
            invariant
                j <= rows.len(),
                width == max_width(rows_view(rows@)),
                grid@.len() == j,
                forall|k: int|
                    0 <= k < j ==> (#[trigger] grid@[k])@ == padded(rows@[k]@, width as nat),
            decreases rows.len() - j,
        {
            proof {
                lemma_max_width(rows_view(rows@), j as int);
            }
            let mut row = rows[j].clone();
            assert(row@ =~= rows@[j as int]@);
            while row.len() < width
                invariant
                    rows@[j as int]@.len() <= row@.len() <= width,
                    row@ == rows@[j as int]@ + Seq::new(
                        (row@.len() - rows@[j as int]@.len()) as nat,
                        |k: int| EMPTY,
                    ),
                decreases width - row.len(),
            {
                row.push(EMPTY);
                assert(row@ =~= rows@[j as int]@ + Seq::new(
                    (row@.len() - rows@[j as int]@.len()) as nat,
                    |k: int| EMPTY,
                ));
            }
            grid.push(row);
            j = j + 1;
        }
        proof {
            lemma_parse_wf(text@, block_size as int);
            assert(rows_view(grid@) =~= pad_rows(rows_view(rows@)));
        }
        Maze::new(grid, block_size)
    }

    /// Number of columns.
    pub fn width(&self) -> (w: usize)
        ensures
            w == self@.width(),
    {
        proof {
            use_type_invariant(self);
        }
        self.w
    }

    /// Number of rows.
    pub fn height(&self) -> (h: usize)
        ensures
            h == self@.height(),
    {
        proof {
            use_type_invariant(self);
        }
        self.h
    }

    /// Edge length of a tile in whole world units; never zero.
    pub fn block_size(&self) -> (bs: u32)
        ensures
            bs == self@.tile,
            bs > 0,
    {
        proof {
            use_type_invariant(self);
        }
        self.block_size
    }

    /// Edge length of a cell in raw world units.
    pub fn cell_size(&self) -> (cs: i64)
        ensures
            cs == self@.cell_size(),
            ONE <= cs <= 0xffff_ffff_0000,
    {
        let bs = self.block_size();
        let cs = mul_i128(bs as i128, ONE as i128);
        assert(ONE <= cs <= 0xffff_ffff_0000) by {
            assert(1 * 65536 <= bs * ONE <= 0xffff_ffff * 65536);
        }
        cs as i64
    }

    /// The symbol of the cell in column `i` and row `j`, counted from 0;
    /// a wall outside the grid.
    pub fn get(&self, i: usize, j: usize) -> (c: char)
        ensures
            c == self@.symbol_at(i as int, j as int),
    {
        proof {
            use_type_invariant(self);
        }
        if j >= self.h || i >= self.w {
            return WALL;
        }
        let row = &self.grid[j];
        assert(row@ == self@.rows[j as int]);
        row[i]
    }

    /// The symbol of the cell in column `i` and row `j`; a wall outside
    /// the grid.
    pub fn cell_at(&self, i: i64, j: i64) -> (c: char)
        ensures
            c == self@.symbol_at(i as int, j as int),
    {
        proof {
            use_type_invariant(self);
        }
        if i < 0 || j < 0 {
            return WALL;
        }
        if j as u64 >= self.h as u64 || i as u64 >= self.w as u64 {
            return WALL;
        }
        let row = &self.grid[j as usize];
        assert(row@ == self@.rows[j as int]);
        row[i as usize]
    }

    /// The symbol of the cell in column `i` and row `j`; a wall outside
    /// the grid.
    pub fn cell(&self, i: isize, j: isize) -> (c: char)
        ensures
            c == self@.symbol_at(i as int, j as int),
    {
        self.cell_at(i as i64, j as i64)
    }

    /// As `cell`, for 32-bit coordinates.
    pub fn cell_i32(&self, i: i32, j: i32) -> (c: char)
        ensures
            c == self@.symbol_at(i as int, j as int),
    {
        self.cell_at(i as i64, j as i64)
    }

    /// Whether the cell blocks movement and sight. Every cell outside the
    /// grid does.
    pub fn is_blocking_at(&self, i: isize, j: isize) -> (b: bool)
        ensures
            b == self@.blocking(i as int, j as int),
            !self@.in_bounds(i as int, j as int) ==> b,
    {
        is_blocking(self.cell(i, j))
    }

    /// As `is_blocking_at`, for 64-bit coordinates.
    pub fn blocks_at(&self, i: i64, j: i64) -> (b: bool)
        ensures
            b == self@.blocking(i as int, j as int),
            !self@.in_bounds(i as int, j as int) ==> b,
    {
        is_blocking(self.cell_at(i, j))
    }

    /// Whether the cell is a door. No cell outside the grid is.
    pub fn is_door_at(&self, i: isize, j: isize) -> (b: bool)
        ensures
            b == (self@.symbol_at(i as int, j as int) == DOOR),
            b ==> self@.in_bounds(i as int, j as int),
    {
        self.cell(i, j) == DOOR
    }

    /// Column and row of the first cell that holds `ch`, rows from top to
    /// bottom and each row from left to right.
    pub fn find_char(&self, ch: char) -> (found: Option<(usize, usize)>)
        ensures
            found is Some <==> self@.has(ch),
            found matches Some(p) ==> self@.first_at(ch, p.0 as int, p.1 as int) && self@.first_cell(
                ch,
            ) == (p.0 as int, p.1 as int),
    {
        proof {
            use_type_invariant(self);
        }
        let mut j: usize = 0;
        while j < self.h
            invariant
                self.inv(),
                j <= self.h,
                forall|i2: int, j2: int|
                    self@.in_bounds(i2, j2) && j2 < j ==> #[trigger] self@.rows[j2][i2] != ch,
            decreases self.h - j,
        {
            let row = &self.grid[j];
            assert(row@ == self@.rows[j as int]);
            let mut i: usize = 0;
            while i < self.w
                invariant
                    self.inv(),
                    j < self.h,
                    i <= self.w,
                    row@ == self@.rows[j as int],
                    forall|i2: int, j2: int|
                        self@.in_bounds(i2, j2) && (j2 < j || (j2 == j && i2 < i))
                            ==> #[trigger] self@.rows[j2][i2] != ch,
                decreases self.w - i,
            {
                if row[i] == ch {
                    proof {
                        self@.lemma_first_unique(ch, i as int, j as int);
                    }
                    return Some((i, j));
                }
                i = i + 1;
            }
            j = j + 1;
        }
        None
    }

    /// World position of the middle of a cell.
    pub fn cell_center_world(&self, cell: (isize, isize)) -> (p: Vec2)
        requires
            fits_i64(self@.center(cell.0 as int)),
            fits_i64(self@.center(cell.1 as int)),
        ensures
            p.x == self@.center(cell.0 as int),
            p.y == self@.center(cell.1 as int),
    {
        let bs = self.block_size();
        let x = center_coord(cell.0 as i128, bs);
        let y = center_coord(cell.1 as i128, bs);
        Vec2 { x: x as i64, y: y as i64 }
    }

    /// World position of the middle of the first cell that holds `ch`,
    /// where there is such a cell and a position can name its middle.
    pub fn find_marker(&self, ch: char) -> (place: Option<Vec2>)
        ensures
            place == self@.marker(ch),
    {
        match self.find_char(ch) {
            Some(cell) => self.cell_center(cell.0, cell.1),
            None => None,
        }
    }

    /// World position of the middle of a cell, where an `i64` can hold it.
    pub fn cell_center(&self, i: usize, j: usize) -> (p: Option<Vec2>)
        ensures
            p is Some <==> fits_i64(self@.center(i as int)) && fits_i64(self@.center(j as int)),
            p matches Some(v) ==> v.x == self@.center(i as int) && v.y == self@.center(j as int),
    {
        let bs = self.block_size();
        let x = center_coord(i as i128, bs);
        let y = center_coord(j as i128, bs);
        let (lo, hi) = (i64::MIN as i128, i64::MAX as i128);
        if x < lo || x > hi || y < lo || y > hi {
            None
        } else {
            Some(Vec2 { x: x as i64, y: y as i64 })
        }
    }

    /// Column and row of the cell that holds a world position.
    pub fn world_to_cell(&self, p: Vec2) -> (c: (i64, i64))
        ensures
            c.0 == self@.cell_of(p.x as int),
            c.1 == self@.cell_of(p.y as int),
    {
        let bs = self.block_size();
        (cell_index(p.x as i128, bs), cell_index(p.y as i128, bs))
    }
}

/// The lines of a text that are not empty.
fn read_rows(text: &str) -> (rows: Vec<Vec<char>>)
    ensures
        rows_view(rows@) == text_rows(text@),
{
    let mut rows: Vec<Vec<char>> = Vec::new();
    let mut cur: Vec<char> = Vec::new();
    for c in it: text.chars()
        invariant
            it.seq() == text@,
            (rows_view(rows@), cur@) == scan_lines(text@, it.index() as nat),
    {
        let ghost before = (rows_view(rows@), cur@);
        if c == '\n' {
            if cur.len() > 0 && cur[cur.len() - 1] == '\r' {
                cur.pop();
            }
            assert(cur@ =~= strip_cr(before.1));
            if cur.len() > 0 {
                rows.push(cur);
                assert(rows_view(rows@) =~= before.0.push(strip_cr(before.1)));
            }
            cur = Vec::new();
            assert(cur@ =~= Seq::<char>::empty());
        } else {
            cur.push(c);
        }
    }
    let ghost end = (rows_view(rows@), cur@);
    if cur.len() > 0 {
        rows.push(cur);
        assert(rows_view(rows@) =~= end.0.push(end.1));
    }
    rows
}

/// The length of the longest of some rows.
fn longest(rows: &Vec<Vec<char>>) -> (w: usize)
    ensures
        w == max_width(rows_view(rows@)),
{
    let mut w: usize = 0;
    let mut j: usize = 0;
    while j < rows.len()
        invariant
            j <= rows.len(),
            w == max_width(rows_view(rows@).take(j as int)),
        decreases rows.len() - j,
    {
        proof {
            let upto = rows_view(rows@).take(j + 1);
            assert(upto.drop_last() =~= rows_view(rows@).take(j as int));
            assert(upto.last() == rows@[j as int]@);
        }
        if rows[j].len() > w {
            w = rows[j].len();
        }
        j = j + 1;
    }
    assert(rows_view(rows@).take(rows@.len() as int) =~= rows_view(rows@));
    w
}

/// Raw world coordinate of the middle of column or row `k`, for tiles of
/// `bs` world units.
pub fn center_coord(k: i128, bs: u32) -> (c: i128)
    requires
        -0x1_0000_0000_0000_0000 <= k <= 0x1_0000_0000_0000_0000,
    ensures
        c == (2 * k + 1) * (bs * HALF),
{
    let half = mul_i128(bs as i128, HALF as i128);
    let n: i128 = 2 * k + 1;
    assert(0 <= half <= 0x8000_0000_0000) by {
        assert(bs * HALF <= 0xffff_ffff * 32768);
    }
    proof {
        crate::fixed::lemma_product_bound(
            n as int,
            half as int,
            0x2_0000_0000_0000_0001,
            0x8000_0000_0000,
        );
    }
    n * half
}

/// Index of the column or row that holds the raw world coordinate `v`, for
/// tiles of `bs` world units. World coordinates are bounded well within
/// 66 bits, so the index fits 64.
pub fn cell_index(v: i128, bs: u32) -> (k: i64)
    requires
        bs > 0,
        -0x2_0000_0000_0000_0000 <= v <= 0x2_0000_0000_0000_0000,
    ensures
        k == (v as int) / (bs * ONE),
        -0x2_0000_0000_0000 <= k <= 0x2_0000_0000_0000,
{
    let cs = mul_i128(bs as i128, ONE as i128);
    assert(cs >= ONE) by {
        assert(bs * ONE >= 1 * 65536);
    }
    let q = crate::fixed::div_floor(v, cs);
    proof {
        lemma_cell_index_bound(v as int, cs as int);
    }
    q as i64
}

/// A coordinate within 66 bits lies in a cell whose index is within 50.
pub proof fn lemma_cell_index_bound(v: int, cs: int)
    requires
        cs >= ONE,
        -0x2_0000_0000_0000_0000 <= v <= 0x2_0000_0000_0000_0000,
    ensures
        -0x2_0000_0000_0000 <= v / cs <= 0x2_0000_0000_0000,
{
    let q = v / cs;
    vstd::arithmetic::div_mod::lemma_fundamental_div_mod(v, cs);
    vstd::arithmetic::div_mod::lemma_mod_bound(v, cs);
    // v == cs * q + r with 0 <= r < cs
    if q > 0x2_0000_0000_0000 {
        assert(cs * q >= 65536 * 0x2_0000_0000_0001) by (nonlinear_arith)
            requires
                cs >= 65536,
                q >= 0x2_0000_0000_0001,
        ;
    }
    if q < -0x2_0000_0000_0000 {
        assert(cs * q + cs <= 65536 * (-0x2_0000_0000_0000)) by (nonlinear_arith)
            requires
                cs >= 65536,
                q + 1 <= -0x2_0000_0000_0000,
        ;
    }
}

/// A coordinate lies between the lines that bound its cell: at or after
/// the near line and before the far line, which lies one cell farther.
pub proof fn lemma_cell_bounds(v: int, cs: int)
    requires
        cs > 0,
    ensures
        (v / cs) * cs <= v < (v / cs + 1) * cs,
        (v / cs + 1) * cs == (v / cs) * cs + cs,
{
    vstd::arithmetic::div_mod::lemma_fundamental_div_mod(v, cs);
    vstd::arithmetic::div_mod::lemma_mod_bound(v, cs);
    assert((v / cs) * cs == cs * (v / cs)) by (nonlinear_arith);
    assert((v / cs + 1) * cs == (v / cs) * cs + cs) by (nonlinear_arith);
}

/// A coordinate lies in cell `i` where it lies between the lines that
/// bound that cell.
pub proof fn lemma_cell_of_between(v: int, cs: int, i: int)
    requires
        cs > 0,
        i * cs <= v < (i + 1) * cs,
    ensures
        v / cs == i,
{
    assert((i + 1) * cs == i * cs + cs) by (nonlinear_arith);
    assert(cs * i == i * cs) by (nonlinear_arith);
    vstd::arithmetic::div_mod::lemma_fundamental_div_mod_converse(v, cs, i, v - i * cs);
}

/// Cells keep the order of the coordinates in them.
pub proof fn lemma_cell_order(u: int, v: int, cs: int)
    requires
        cs > 0,
        u <= v,
    ensures
        u / cs <= v / cs,
{
    vstd::arithmetic::div_mod::lemma_div_is_ordered(u, v, cs);
}

/// Lines of cells keep the order of the cells.
pub proof fn lemma_line_order(i: int, j: int, cs: int)
    by (nonlinear_arith)
    requires
        cs > 0,
        i <= j,
    ensures
        i * cs <= j * cs,
{
}

} // verus!
