//! The mark's block: how many columns and rows it takes, from the terminal's cell.
//!
//! Its width is chosen from the cell so the block comes out square, rounded to an odd count of
//! columns so the mark keeps a margin at each side.
use vstd::prelude::*;

verus! {

/// One terminal cell, in pixels, as the terminal reports it.
#[derive(Clone, Copy, Debug, PartialEq, Eq, Structural)]
pub struct CellSize {
    pub width: u16,
    pub height: u16,
}

/// A common monospace cell, 0.6 em by 1.32 em, for a terminal that reports none.
pub open spec fn monospace_cell() -> CellSize {
    CellSize { width: 5, height: 11 }
}

/// The cell the block is drawn for: the reported one, unless it is missing or empty.
pub open spec fn known_cell(cell: Option<CellSize>) -> CellSize {
    match cell {
        Some(c) => if c.width > 0 && c.height > 0 {
            c
        } else {
            monospace_cell()
        },
        None => monospace_cell(),
    }
}

/// `n` made odd by adding one where it is even.
pub open spec fn odd_up(n: int) -> int {
    if n % 2 == 0 {
        n + 1
    } else {
        n
    }
}

/// The block's rows for `rows` asked: at least three, and odd.
pub open spec fn block_rows(rows: u16) -> int {
    odd_up(if rows > 3 {
        rows as int
    } else {
        3
    })
}

/// The block's columns: the square width for the cell, rounded to the nearest column, made odd,
/// and kept between three and forty-one.
pub open spec fn block_columns(rows: u16, cell: Option<CellSize>) -> int {
    let c = known_cell(cell);
    let tall = block_rows(rows) * c.height;
    let columns = odd_up((2 * tall + c.width) / (2 * c.width as int));
    if columns < 3 {
        3
    } else if columns > 41 {
        41
    } else {
        columns
    }
}

/// The cell to draw for: the reported one, unless it is missing or empty.
pub fn known(cell: Option<CellSize>) -> (known: CellSize)
    ensures
        known == known_cell(cell),
{
    match cell {
        Some(c) => if c.width > 0 && c.height > 0 {
            c
        } else {
            CellSize { width: 5, height: 11 }
        },
        None => CellSize { width: 5, height: 11 },
    }
}

/// The mark's block for `rows` rows: `(columns, rows)`, rows made odd and at least three, the
/// columns square for the cell.
pub fn size(rows: u16, cell: Option<CellSize>) -> (block: (u16, u16))
    requires
        2 * block_rows(rows) * known_cell(cell).height + known_cell(cell).width <= u32::MAX,
    ensures
        block.0 == block_columns(rows, cell),
        block.1 == block_rows(rows),
{
    let at_least: u16 = if rows > 3 {
        rows
    } else {
        3
    };
    let odd_rows = at_least | 1;
    assert(odd_rows == if at_least % 2 == 0 { at_least + 1 } else { at_least as int }) by (bit_vector)
        requires
            odd_rows == at_least | 1,
    ;
    let c = known(cell);
    let height = c.height as u32;
    let width = c.width as u32;
    assert((odd_rows as u32) * height <= 0xFFFF * 0xFFFF) by (nonlinear_arith)
        requires
            odd_rows <= 0xFFFF,
            height <= 0xFFFF,
    ;
    let tall = (odd_rows as u32) * height;
    assert(2 * tall + width == 2 * (odd_rows as int) * height + width) by (nonlinear_arith)
        requires
            tall == (odd_rows as u32) * height,
    ;
    let rounded = (2 * tall + width) / (2 * width);
    let odd_columns = rounded | 1;
    assert(odd_columns == if rounded % 2 == 0 { rounded + 1 } else { rounded as int }) by (bit_vector)
        requires
            odd_columns == rounded | 1,
    ;
    let columns: u32 = if odd_columns < 3 {
        3
    } else if odd_columns > 41 {
        41
    } else {
        odd_columns
    };
    (columns as u16, odd_rows)
}

/// What one dot of the block belongs to.
#[derive(Clone, Copy, Debug, PartialEq, Eq, Structural)]
pub enum Dot {
    Empty,
    Frame,
    Core,
}

/// One lit braille cell of the block: its glyph, and whether frame dots outnumber or equal the
/// centre's, which decides how it is coloured.
#[derive(Clone, Copy, Debug, PartialEq, Eq, Structural)]
pub struct BrailleCell {
    pub glyph: char,
    pub framed: bool,
}

/// The braille bit of the dot `dy` rows and `dx` columns into a cell: the standard
/// eight-dot order, down the left column, down the right, then the bottom pair.
pub open spec fn dot_bit(dy: int, dx: int) -> int {
    if dx == 0 {
        if dy == 0 {
            0x01
        } else if dy == 1 {
            0x02
        } else if dy == 2 {
            0x04
        } else {
            0x40
        }
    } else {
        if dy == 0 {
            0x08
        } else if dy == 1 {
            0x10
        } else if dy == 2 {
            0x20
        } else {
            0x80
        }
    }
}

/// Whether a dot is of kind `kind`, as 1 or 0.
pub open spec fn is_kind(dot: Dot, kind: Dot) -> int {
    if dot == kind {
        1
    } else {
        0
    }
}

/// The dot at `dy`, `dx` inside the cell at `row`, `column`.
pub open spec fn dot_at(dots: Seq<Seq<Dot>>, row: int, column: int, dy: int, dx: int) -> Dot {
    dots[row * 4 + dy][column * 2 + dx]
}

/// The dots of the first `k` places of a cell, in reading order of the table (`dy`, then `dx`),
/// that are not empty, as their braille bits summed.
pub open spec fn bits_upto(dots: Seq<Seq<Dot>>, row: int, column: int, k: int) -> int
    decreases k,
{
    if k <= 0 {
        0
    } else {
        let d = dot_at(dots, row, column, (k - 1) / 2, (k - 1) % 2);
        bits_upto(dots, row, column, k - 1) + if d == Dot::Empty {
            0
        } else {
            dot_bit((k - 1) / 2, (k - 1) % 2)
        }
    }
}

/// How many of the first `k` places of a cell hold a dot of `kind`.
pub open spec fn count_upto(dots: Seq<Seq<Dot>>, row: int, column: int, k: int, kind: Dot) -> int
    decreases k,
{
    if k <= 0 {
        0
    } else {
        count_upto(dots, row, column, k - 1, kind) + is_kind(
            dot_at(dots, row, column, (k - 1) / 2, (k - 1) % 2),
            kind,
        )
    }
}

/// The braille cell at `row`, `column` of the dot grid: nothing where no dot is lit, else the
/// glyph whose bits are the lit dots and whether frame dots are at least as many as centre dots.
pub open spec fn cell_of(dots: Seq<Seq<Dot>>, row: int, column: int) -> Option<(int, bool)> {
    let bits = bits_upto(dots, row, column, 8);
    if bits == 0 {
        None
    } else {
        Some(
            (
                0x2800 + bits,
                count_upto(dots, row, column, 8, Dot::Frame) >= count_upto(
                    dots,
                    row,
                    column,
                    8,
                    Dot::Core,
                ),
            ),
        )
    }
}

/// Whether `cell` is the braille cell `expected` describes.
pub open spec fn cell_matches(cell: Option<BrailleCell>, expected: Option<(int, bool)>) -> bool {
    match (cell, expected) {
        (None, None) => true,
        (Some(c), Some(e)) => c.glyph as u32 == e.0 && c.framed == e.1,
        _ => false,
    }
}

/// The character for a code point, where it is one.
///
/// Calls `char::from_u32`, which std documents as giving `Some` exactly for Unicode scalar
/// values, carrying that value.
#[verifier::external_body]
fn scalar(code: u32) -> (c: Option<char>)
    ensures
        c is Some <==> (code <= 0xD7FF || (0xE000 <= code && code <= 0x10FFFF)),
        c matches Some(ch) ==> ch as u32 == code,
{
    char::from_u32(code)
}

/// The dot grid packed into braille cells, `rows` rows of `columns` cells, each cell four dots
/// tall and two wide.
pub fn braille_cells(dots: &Vec<Vec<Dot>>, columns: u16, rows: u16) -> (cells: Vec<
    Vec<Option<BrailleCell>>,
>)
    requires
        dots@.len() == 4 * rows,
        forall|r: int| 0 <= r < dots@.len() ==> (#[trigger] dots@[r])@.len() == 2 * columns,
    ensures
        cells@.len() == rows,
        forall|r: int|
            0 <= r < rows ==> (#[trigger] cells@[r])@.len() == columns && forall|c: int|
                0 <= c < columns ==> cell_matches(
                    #[trigger] cells@[r]@[c],
                    cell_of(dots@.map_values(|line: Vec<Dot>| line@), r, c),
                ),
{
    let ghost grid = dots@.map_values(|line: Vec<Dot>| line@);
    let mut cells: Vec<Vec<Option<BrailleCell>>> = Vec::new();
    let mut row: usize = 0;
    while row < rows as usize
        invariant
            grid == dots@.map_values(|line: Vec<Dot>| line@),
            dots@.len() == 4 * rows,
            forall|r: int| 0 <= r < dots@.len() ==> (#[trigger] dots@[r])@.len() == 2 * columns,
            row <= rows,
            cells@.len() == row,
            forall|r: int|
                0 <= r < row ==> (#[trigger] cells@[r])@.len() == columns && forall|c: int|
                    0 <= c < columns ==> cell_matches(
                        #[trigger] cells@[r]@[c],
                        cell_of(grid, r, c),
                    ),
        decreases rows - row,
    {
        let mut line: Vec<Option<BrailleCell>> = Vec::new();
        let mut column: usize = 0;
        while column < columns as usize
            invariant
                grid == dots@.map_values(|line: Vec<Dot>| line@),
                dots@.len() == 4 * rows,
                forall|r: int| 0 <= r < dots@.len() ==> (#[trigger] dots@[r])@.len() == 2 * columns,
                row < rows,
                column <= columns,
                line@.len() == column,
                forall|c: int|
                    0 <= c < column ==> cell_matches(#[trigger] line@[c], cell_of(grid, row as int, c)),
            decreases columns - column,
        {
            let cell = pack_cell(dots, row, column, Ghost(columns), Ghost(rows));
            line.push(cell);
            column += 1;
        }
        cells.push(line);
        row += 1;
    }
    cells
}

/// The braille cell at `row`, `column` of the dot grid.
fn pack_cell(
    dots: &Vec<Vec<Dot>>,
    row: usize,
    column: usize,
    Ghost(columns): Ghost<u16>,
    Ghost(rows): Ghost<u16>,
) -> (cell: Option<BrailleCell>)
    requires
        dots@.len() == 4 * rows,
        forall|r: int| 0 <= r < dots@.len() ==> (#[trigger] dots@[r])@.len() == 2 * columns,
        row < rows,
        column < columns,
    ensures
        cell_matches(cell, cell_of(dots@.map_values(|line: Vec<Dot>| line@), row as int, column as int)),
{
    let ghost grid = dots@.map_values(|line: Vec<Dot>| line@);
    let mut bits: u32 = 0;
    let mut frame: u32 = 0;
    let mut core: u32 = 0;
    let mut k: usize = 0;
    while k < 8
        invariant
            grid == dots@.map_values(|line: Vec<Dot>| line@),
            dots@.len() == 4 * rows,
            forall|r: int| 0 <= r < dots@.len() ==> (#[trigger] dots@[r])@.len() == 2 * columns,
            row < rows,
            column < columns,
            k <= 8,
            bits == bits_upto(grid, row as int, column as int, k as int),
            frame == count_upto(grid, row as int, column as int, k as int, Dot::Frame),
            core == count_upto(grid, row as int, column as int, k as int, Dot::Core),
            bits <= 128 * k,
            frame <= k,
            core <= k,
        decreases 8 - k,
    {
        let dy = k / 2;
        let dx = k % 2;
        let bit: u32 = if dx == 0 {
            if dy == 0 {
                0x01
            } else if dy == 1 {
                0x02
            } else if dy == 2 {
                0x04
            } else {
                0x40
            }
        } else {
            if dy == 0 {
                0x08
            } else if dy == 1 {
                0x10
            } else if dy == 2 {
                0x20
            } else {
                0x80
            }
        };
        let dot = dots[row * 4 + dy][column * 2 + dx];
        assert(dot == dot_at(grid, row as int, column as int, dy as int, dx as int));
        match dot {
            Dot::Empty => {},
            Dot::Frame => {
                bits = bits + bit;
                frame = frame + 1;
            },
            Dot::Core => {
                bits = bits + bit;
                core = core + 1;
            },
        }
        k += 1;
    }
    if bits == 0 {
        None
    } else {
        match scalar(0x2800 + bits) {
            Some(glyph) => Some(BrailleCell { glyph, framed: frame >= core }),
            None => None,
        }
    }
}

} // verus!

