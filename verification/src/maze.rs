use vstd::prelude::*;

verus! {

/// The maze is a grid of characters, one row per line of its file: a space
/// (`' '`) is walkable floor, any other character is a wall.
pub type Maze = Vec<Vec<char>>;

/// The character at column `i` of row `j`, when the grid has such a cell.
pub open spec fn spec_cell(maze: Seq<Seq<char>>, i: int, j: int) -> Option<char> {
    if 0 <= j < maze.len() && 0 <= i < maze[j].len() {
        Some(maze[j][i])
    } else {
        None
    }
}

/// The view of a maze as a sequence of rows.
pub open spec fn grid(maze: &Maze) -> Seq<Seq<char>> {
    maze@.map_values(|row: Vec<char>| row@)
}

/// Looks up the cell at column `i` of row `j`; `None` outside the grid
/// (rows may have different lengths).
pub fn cell_at(maze: &Maze, i: usize, j: usize) -> (r: Option<char>)
    ensures
        r == spec_cell(grid(maze), i as int, j as int),
{
    if j < maze.len() && i < maze[j].len() {
        Some(maze[j][i])
    } else {
        None
    }
}

} // verus!

verus! {

/// A line as the maze file stores it, without the `'\r'` that a
/// `"\r\n"` line ending leaves before the newline.
pub open spec fn strip_cr(line: Seq<char>) -> Seq<char> {
    if line.len() > 0 && line.last() == '\r' {
        line.drop_last()
    } else {
        line
    }
}

/// Reading `text` character by character: the lines finished so far (each
/// ended by a `'\n'`, one `'\r'` before it dropped) and the unfinished line.
pub open spec fn read_lines(text: Seq<char>) -> (Seq<Seq<char>>, Seq<char>)
    decreases text.len(),
{
    if text.len() == 0 {
        (seq![], seq![])
    } else {
        let prev = read_lines(text.drop_last());
        if text.last() == '\n' {
            (prev.0.push(strip_cr(prev.1)), seq![])
        } else {
            (prev.0, prev.1.push(text.last()))
        }
    }
}

/// The rows of a maze file: its lines, where a last line without a newline
/// counts when it is not empty.
pub open spec fn maze_rows(text: Seq<char>) -> Seq<Seq<char>> {
    let r = read_lines(text);
    if r.1.len() == 0 {
        r.0
    } else {
        r.0.push(r.1)
    }
}

/// Builds the maze from the text of its file, one row of characters per line.
pub fn parse_maze(text: &str) -> (maze: Maze)
    ensures
        grid(&maze) == maze_rows(text@),
        forall|k: int| 0 <= k < grid(&maze).len() ==> lacks(#[trigger] grid(&maze)[k], '\n'),
        forall|rows: Seq<Seq<char>>|
            rows_lack_newline(rows) && #[trigger] join_crlf(rows) == text@ ==> grid(&maze) == rows,
        forall|rows: Seq<Seq<char>>|
            rows_lack_newline(rows) && rows_end_without_cr(rows) && #[trigger] join_lines(rows)
                == text@ ==> grid(&maze) == rows,
{
    broadcast use vstd::string::group_string_axioms;

    let mut rows: Vec<Vec<char>> = Vec::new();
    let mut cur: Vec<char> = Vec::new();
    let ghost all = text@;
    for c in iter: text.chars()
        invariant
            iter.seq() == all,
            grid(&rows) == read_lines(all.take(iter.index() as int)).0,
            cur@ == read_lines(all.take(iter.index() as int)).1,
    {
        let ghost k = iter.index() as int;
        assert(all.take(k + 1).drop_last() == all.take(k));
        if c == '\n' {
            if cur.len() > 0 && cur[cur.len() - 1] == '\r' {
                cur.pop();
            }
            rows.push(cur);
            cur = Vec::new();
        } else {
            cur.push(c);
        }
        assert(grid(&rows) == read_lines(all.take(k + 1)).0);
    }
    assert(all.take(all.len() as int) == all);
    if cur.len() > 0 {
        rows.push(cur);
    }
    assert(grid(&rows) == maze_rows(all));
    proof {
        law_rows_hold_no_newline(all);
        assert forall|r: Seq<Seq<char>>|
            rows_lack_newline(r) && #[trigger] join_crlf(r) == all implies grid(&rows) == r by {
            law_read_back_crlf(r);
        }
        assert forall|r: Seq<Seq<char>>|
            rows_lack_newline(r) && rows_end_without_cr(r) && #[trigger] join_lines(r)
                == all implies grid(&rows) == r by {
            law_read_back_lf(r);
        }
    }
    rows
}

} // verus!

verus! {

/// The text that writes `rows` back, each row followed by a newline.
pub open spec fn join_lines(rows: Seq<Seq<char>>) -> Seq<char>
    decreases rows.len(),
{
    if rows.len() == 0 {
        seq![]
    } else {
        join_lines(rows.drop_last()) + rows.last().push('\n')
    }
}

/// `c` does not occur in `s`.
pub open spec fn lacks(s: Seq<char>, c: char) -> bool {
    forall|i: int| 0 <= i < s.len() ==> s[i] != c
}

proof fn lemma_read_lines_no_newline(text: Seq<char>)
    ensures
        lacks(read_lines(text).1, '\n'),
        forall|k: int| 0 <= k < read_lines(text).0.len() ==> lacks(#[trigger] read_lines(text).0[k], '\n'),
    decreases text.len(),
{
    if text.len() > 0 {
        lemma_read_lines_no_newline(text.drop_last());
    }
}

proof fn lemma_read_lines_join(text: Seq<char>)
    requires
        lacks(text, '\r'),
    ensures
        join_lines(read_lines(text).0) + read_lines(text).1 == text,
        lacks(read_lines(text).1, '\r'),
        read_lines(text).1.len() == 0 && text.len() > 0 ==> text.last() == '\n',
        read_lines(text).1.len() > 0 ==> text.last() != '\n',
    decreases text.len(),
{
    if text.len() > 0 {
        let prev = text.drop_last();
        assert(lacks(prev, '\r'));
        lemma_read_lines_join(prev);
        let p = read_lines(prev);
        if text.last() == '\n' {
            assert(strip_cr(p.1) == p.1);
            let rows = p.0.push(p.1);
            assert(rows.drop_last() == p.0);
            assert(join_lines(rows) == join_lines(p.0) + p.1.push('\n'));
            assert(join_lines(p.0) + p.1.push('\n') == (join_lines(p.0) + p.1).push('\n'));
            assert(prev.push('\n') == text);
            assert(join_lines(rows) + Seq::<char>::empty() == join_lines(rows));
        } else {
            assert(join_lines(p.0) + p.1.push(text.last()) == (join_lines(p.0) + p.1).push(text.last()));
            assert(prev.push(text.last()) == text);
        }
    }
}

/// No row of a parsed maze holds a newline: each line of the file is one row.
pub proof fn law_rows_hold_no_newline(text: Seq<char>)
    ensures
        forall|k: int| 0 <= k < maze_rows(text).len() ==> lacks(#[trigger] maze_rows(text)[k], '\n'),
{
    lemma_read_lines_no_newline(text);
    let r = read_lines(text);
    if r.1.len() > 0 {
        assert forall|k: int| 0 <= k < maze_rows(text).len() implies lacks(#[trigger] maze_rows(text)[k], '\n') by {
            if k < r.0.len() {
                assert(maze_rows(text)[k] == r.0[k]);
            }
        }
    }
}

/// Writing the rows of a parsed maze back, one line each, gives the text it
/// was read from (with a final newline added where the text had none), for
/// every text that uses `"\n"` line endings.
pub proof fn law_rows_write_back(text: Seq<char>)
    requires
        lacks(text, '\r'),
    ensures
        join_lines(maze_rows(text)) == if text.len() == 0 || text.last() == '\n' {
            text
        } else {
            text.push('\n')
        },
{
    lemma_read_lines_join(text);
    let r = read_lines(text);
    if r.1.len() == 0 {
        assert(join_lines(r.0) + r.1 == join_lines(r.0));
    } else {
        let rows = r.0.push(r.1);
        assert(rows.drop_last() == r.0);
        assert(join_lines(r.0) + r.1.push('\n') == (join_lines(r.0) + r.1).push('\n'));
    }
}

/// The text that writes `rows` back with Windows line endings, each row
/// followed by `"\r\n"`.
pub open spec fn join_crlf(rows: Seq<Seq<char>>) -> Seq<char>
    decreases rows.len(),
{
    if rows.len() == 0 {
        seq![]
    } else {
        join_crlf(rows.drop_last()) + rows.last() + seq!['\r', '\n']
    }
}

/// No row holds a newline.
pub open spec fn rows_lack_newline(rows: Seq<Seq<char>>) -> bool {
    forall|k: int| 0 <= k < rows.len() ==> lacks(#[trigger] rows[k], '\n')
}

/// No row ends with a carriage return.
pub open spec fn rows_end_without_cr(rows: Seq<Seq<char>>) -> bool {
    forall|k: int| 0 <= k < rows.len() ==> #[trigger] strip_cr(rows[k]) == rows[k]
}

proof fn lemma_read_lines_append_line_text(t: Seq<char>, w: Seq<char>)
    requires
        lacks(w, '\n'),
    ensures
        read_lines(t + w).0 == read_lines(t).0,
        read_lines(t + w).1 == read_lines(t).1 + w,
    decreases w.len(),
{
    if w.len() == 0 {
        assert(t + w == t);
        assert(read_lines(t).1 + w == read_lines(t).1);
    } else {
        let wp = w.drop_last();
        assert(lacks(wp, '\n'));
        lemma_read_lines_append_line_text(t, wp);
        assert((t + w).drop_last() == t + wp);
        assert((t + w).last() == w.last());
        assert(w.last() == w[w.len() - 1]);
        assert((read_lines(t).1 + wp).push(w.last()) == read_lines(t).1 + w);
    }
}

proof fn lemma_read_back_lf(rows: Seq<Seq<char>>)
    requires
        rows_lack_newline(rows),
        rows_end_without_cr(rows),
    ensures
        read_lines(join_lines(rows)).0 == rows,
        read_lines(join_lines(rows)).1 == Seq::<char>::empty(),
    decreases rows.len(),
{
    if rows.len() > 0 {
        let prev = rows.drop_last();
        let last = rows.last();
        assert(last == rows[rows.len() - 1]);
        assert forall|k: int| 0 <= k < prev.len() implies lacks(#[trigger] prev[k], '\n') by {
            assert(prev[k] == rows[k]);
        }
        assert forall|k: int| 0 <= k < prev.len() implies #[trigger] strip_cr(prev[k]) == prev[k] by {
            assert(prev[k] == rows[k]);
        }
        lemma_read_back_lf(prev);
        let body = join_lines(prev) + last;
        lemma_read_lines_append_line_text(join_lines(prev), last);
        assert(Seq::<char>::empty() + last == last);
        assert(join_lines(rows) == join_lines(prev) + last.push('\n'));
        assert(join_lines(rows) == body.push('\n'));
        assert(join_lines(rows).drop_last() == body);
        assert(prev.push(last) == rows);
    }
}

proof fn lemma_read_back_crlf(rows: Seq<Seq<char>>)
    requires
        rows_lack_newline(rows),
    ensures
        read_lines(join_crlf(rows)).0 == rows,
        read_lines(join_crlf(rows)).1 == Seq::<char>::empty(),
    decreases rows.len(),
{
    if rows.len() > 0 {
        let prev = rows.drop_last();
        let last = rows.last();
        assert(last == rows[rows.len() - 1]);
        assert forall|k: int| 0 <= k < prev.len() implies lacks(#[trigger] prev[k], '\n') by {
            assert(prev[k] == rows[k]);
        }
        lemma_read_back_crlf(prev);
        let line = last.push('\r');
        assert(lacks(line, '\n')) by {
            assert forall|i: int| 0 <= i < line.len() implies line[i] != '\n' by {
                if i < last.len() {
                    assert(line[i] == last[i]);
                }
            }
        }
        let body = join_crlf(prev) + line;
        lemma_read_lines_append_line_text(join_crlf(prev), line);
        assert(Seq::<char>::empty() + line == line);
        assert(join_crlf(rows) == join_crlf(prev) + last + seq!['\r', '\n']);
        assert(join_crlf(rows) == body.push('\n'));
        assert(join_crlf(rows).drop_last() == body);
        assert(line.drop_last() == last);
        assert(strip_cr(line) == last);
        assert(prev.push(last) == rows);
    }
}

/// Reading back rows written one per line gives those rows again, with
/// Unix line endings: any rows without newlines that do not end in a
/// carriage return, each followed by `'\n'`, parse to exactly themselves.
pub proof fn law_read_back_lf(rows: Seq<Seq<char>>)
    requires
        rows_lack_newline(rows),
        rows_end_without_cr(rows),
    ensures
        maze_rows(join_lines(rows)) == rows,
{
    lemma_read_back_lf(rows);
}

/// Reading back rows written one per line gives those rows again, with
/// Windows line endings: any rows without newlines, each followed by
/// `"\r\n"`, parse to exactly themselves, every `"\r\n"` of every line
/// dropped whatever its position.
pub proof fn law_read_back_crlf(rows: Seq<Seq<char>>)
    requires
        rows_lack_newline(rows),
    ensures
        maze_rows(join_crlf(rows)) == rows,
{
    lemma_read_back_crlf(rows);
}

} // verus!
