use vstd::prelude::*;

use crate::caster::{lemma_pixel_in_cell, spec_probe, Probe};
use crate::maze::{cell_at, grid, spec_cell, Maze};

verus! {

/// Characters the player can stand on: only floor (a space); every other
/// character is a wall.
pub open spec fn walkable_char(c: char) -> bool {
    c == ' '
}

/// Whether pixel `(x, y)` of a maze with cells of `block_size` pixels lies
/// in a cell the player can stand on.
pub open spec fn spec_walkable(maze: Seq<Seq<char>>, x: int, y: int, block_size: int) -> bool {
    match spec_cell(maze, x / block_size, y / block_size) {
        Some(c) => walkable_char(c),
        None => false,
    }
}

/// Whether the player can stand on pixel `(x, y)`: the cell under it must
/// exist and be floor.
pub fn is_walkable(maze: &Maze, x: usize, y: usize, block_size: usize) -> (r: bool)
    requires
        block_size > 0,
    ensures
        r == spec_walkable(grid(maze), x as int, y as int, block_size as int),
        r == ((y / block_size) < maze@.len() && (x / block_size) < maze@[(y / block_size) as int]@.len()
            && maze@[(y / block_size) as int]@[(x / block_size) as int] == ' '),
{
    match cell_at(maze, x / block_size, y / block_size) {
        Some(cell) => cell == ' ',
        None => false,
    }
}

/// The player and the rays agree on the map: the player can stand exactly
/// where a ray passes through floor, so every walkable point lies inside
/// the maze and no wall cell is walkable.
pub proof fn law_walkable_cells(maze: Seq<Seq<char>>, x: int, y: int, block_size: int)
    requires
        block_size > 0,
    ensures
        spec_walkable(maze, x, y, block_size) <==> spec_probe(maze, x, y, block_size)
            == Probe::Open,
        spec_walkable(maze, x, y, block_size) ==> spec_probe(maze, x, y, block_size)
            != Probe::Outside,
{
}

/// The player can stand on a pixel exactly when the cell containing it
/// holds a space: every pixel of a floor cell is walkable, and no pixel of
/// a wall cell or off the grid is.
pub proof fn law_walkable_whole_cell(
    maze: Seq<Seq<char>>,
    i: int,
    j: int,
    x: int,
    y: int,
    block_size: int,
)
    requires
        block_size > 0,
        i >= 0,
        j >= 0,
        i * block_size <= x < (i + 1) * block_size,
        j * block_size <= y < (j + 1) * block_size,
    ensures
        spec_walkable(maze, x, y, block_size) <==> (0 <= j < maze.len() && 0 <= i < maze[j].len()
            && maze[j][i] == ' '),
{
    lemma_pixel_in_cell(x, i, block_size);
    lemma_pixel_in_cell(y, j, block_size);
}

} // verus!
