use vstd::prelude::*;

use crate::maze::{cell_at, grid, spec_cell, Maze};

verus! {

/// The face of a cell that a ray crossed. It decides which of the two
/// coordinates of the hit point runs along the wall.
#[derive(Clone, Copy, PartialEq, Eq, Debug, Structural)]
pub enum Face {
    /// A vertical face on the map (left or right side of the cell).
    Vertical,
    /// A horizontal face on the map (top or bottom side of the cell).
    Horizontal,
}

/// What a ray finds at one point of its march through the maze.
#[derive(Clone, Copy, PartialEq, Eq, Debug, Structural)]
pub enum Probe {
    /// The point lies outside the grid: the ray has left the maze.
    Outside,
    /// The point lies in a wall cell, drawn with this character.
    Wall(char),
    /// The point lies on floor; the ray goes on.
    Open,
}

/// What lies at pixel `(x, y)` of a maze drawn with square cells of
/// `block_size` pixels.
pub open spec fn spec_probe(maze: Seq<Seq<char>>, x: int, y: int, block_size: int) -> Probe {
    match spec_cell(maze, x / block_size, y / block_size) {
        None => Probe::Outside,
        Some(c) => if c == ' ' {
            Probe::Open
        } else {
            Probe::Wall(c)
        },
    }
}

/// One step of the ray march: the cell under pixel `(x, y)` decides whether
/// the ray left the maze, hit a wall, or goes on.
pub fn probe(maze: &Maze, x: usize, y: usize, block_size: usize) -> (p: Probe)
    requires
        block_size > 0,
    ensures
        p == spec_probe(grid(maze), x as int, y as int, block_size as int),
        (p is Outside) <==> !((y / block_size) < maze@.len() && (x / block_size) < maze@[(y
            / block_size) as int]@.len()),
        p matches Probe::Wall(c) ==> c == maze@[(y / block_size) as int]@[(x / block_size) as int]
            && c != ' ',
        (p is Open) ==> maze@[(y / block_size) as int]@[(x / block_size) as int] == ' ',
{
    match cell_at(maze, x / block_size, y / block_size) {
        None => Probe::Outside,
        Some(c) => if c != ' ' {
            Probe::Wall(c)
        } else {
            Probe::Open
        },
    }
}

/// The pixel `x` of a line of cells `block_size` wide lies in cell `i`
/// exactly when it falls in that cell's span of pixels.
pub proof fn lemma_pixel_in_cell(x: int, i: int, block_size: int)
    requires
        block_size > 0,
        i >= 0,
        i * block_size <= x < (i + 1) * block_size,
    ensures
        x / block_size == i,
{
    assert((i + 1) * block_size == i * block_size + block_size) by (nonlinear_arith);
    assert(x / block_size == i) by (nonlinear_arith)
        requires
            block_size > 0,
            i >= 0,
            i * block_size <= x,
            x < i * block_size + block_size,
    ;
}

/// A ray step reports what the grid holds under the pixel: a wall exactly
/// where the cell holds a character other than a space (carrying that very
/// character), floor exactly where it holds a space, and outside exactly
/// where the grid has no such cell.
pub proof fn law_probe_reports_cell(maze: Seq<Seq<char>>, x: int, y: int, block_size: int)
    requires
        block_size > 0,
    ensures
        forall|c: char|
            spec_probe(maze, x, y, block_size) == Probe::Wall(c) <==> (spec_cell(
                maze,
                x / block_size,
                y / block_size,
            ) == Some(c) && c != ' '),
        spec_probe(maze, x, y, block_size) == Probe::Open <==> spec_cell(
            maze,
            x / block_size,
            y / block_size,
        ) == Some(' '),
        spec_probe(maze, x, y, block_size) == Probe::Outside <==> spec_cell(
            maze,
            x / block_size,
            y / block_size,
        ) is None,
{
}

/// Every pixel of a cell probes the same: each pixel of a wall cell hits
/// that wall with its character, each pixel of a floor cell is open, and
/// each pixel of a cell the grid lacks is outside.
pub proof fn law_probe_whole_cell(
    maze: Seq<Seq<char>>,
    i: int,
    j: int,
    x: int,
    y: int,
    block_size: int,
)
    requires
        block_size > 0,
        i >= 0,
        j >= 0,
        i * block_size <= x < (i + 1) * block_size,
        j * block_size <= y < (j + 1) * block_size,
    ensures
        0 <= j < maze.len() && 0 <= i < maze[j].len() && maze[j][i] != ' ' ==> spec_probe(
            maze,
            x,
            y,
            block_size,
        ) == Probe::Wall(maze[j][i]),
        0 <= j < maze.len() && 0 <= i < maze[j].len() && maze[j][i] == ' ' ==> spec_probe(
            maze,
            x,
            y,
            block_size,
        ) == Probe::Open,
        !(0 <= j < maze.len() && 0 <= i < maze[j].len()) ==> spec_probe(maze, x, y, block_size)
            == Probe::Outside,
{
    lemma_pixel_in_cell(x, i, block_size);
    lemma_pixel_in_cell(y, j, block_size);
}

} // verus!
