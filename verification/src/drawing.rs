use crate::expression::Expression;
use vstd::prelude::*;

verus! {

/// The characters of a drawing, line by line.
pub open spec fn grid(buffer: Seq<Vec<char>>) -> Seq<Seq<char>> {
    Seq::new(buffer.len(), |i: int| buffer[i]@)
}

/// Whether the cell lies on the grid.
pub open spec fn on_grid(g: Seq<Seq<char>>, row: int, col: int) -> bool {
    0 <= row < g.len() && 0 <= col < g[row].len()
}

/// The grid with `c` in the cell; a cell off the grid is not drawn.
pub open spec fn put(g: Seq<Seq<char>>, row: int, col: int, c: char) -> Seq<Seq<char>> {
    if on_grid(g, row, col) {
        g.update(row, g[row].update(col, c))
    } else {
        g
    }
}

/// A grid of blanks.
pub open spec fn blank(rows: nat, cols: nat) -> Seq<Seq<char>> {
    Seq::new(rows, |i: int| Seq::new(cols, |j: int| ' '))
}

/// The place of the last character of the line that is no blank; 0 where
/// there is none.
pub open spec fn last_mark(line: Seq<char>) -> nat
    decreases line.len(),
{
    if line.len() == 0 {
        0
    } else if line.last() != ' ' {
        (line.len() - 1) as nat
    } else {
        last_mark(line.drop_last())
    }
}

/// The line up to its last character that is no blank; of a blank line the
/// first blank.
pub open spec fn trimmed(line: Seq<char>) -> Seq<char> {
    if line.len() == 0 {
        line
    } else {
        line.take(last_mark(line) as int + 1)
    }
}

/// The lines of a grid as text: each trimmed, each ended by a line feed.
pub open spec fn text_of(g: Seq<Seq<char>>) -> Seq<char>
    decreases g.len(),
{
    if g.len() == 0 {
        Seq::empty()
    } else {
        text_of(g.drop_last()) + trimmed(g.last()) + seq!['\n']
    }
}

impl Expression {
    /// The number of levels of the tree.
    pub open spec fn height_spec(self) -> nat
        decreases self,
    {
        match self {
            Expression::Val(_) => 1,
            Expression::Var(_) => 1,
            Expression::Neg(c) => 1 + c.height_spec(),
            Expression::And(l, r)
            | Expression::Or(l, r)
            | Expression::Xor(l, r)
            | Expression::Implication(l, r)
            | Expression::Equivalence(l, r) => 1 + if l.height_spec() >= r.height_spec() {
                l.height_spec()
            } else {
                r.height_spec()
            },
        }
    }

    /// The number of columns that the drawing allows for the tree: one for a
    /// leaf, the sum of both sides for a binary node, and for a negation the
    /// height of what is negated.
    pub open spec fn width_spec(self) -> nat
        decreases self,
    {
        match self {
            Expression::Val(_) => 1,
            Expression::Var(_) => 1,
            Expression::Neg(c) => c.height_spec(),
            Expression::And(l, r)
            | Expression::Or(l, r)
            | Expression::Xor(l, r)
            | Expression::Implication(l, r)
            | Expression::Equivalence(l, r) => l.width_spec() + r.width_spec(),
        }
    }

    /// Whether the height and the width of the tree, and of every tree in
    /// it, are numbers of the machine.
    pub open spec fn fits(self) -> bool
        decreases self,
    {
        &&& self.height_spec() <= usize::MAX
        &&& self.width_spec() <= usize::MAX
        &&& match self {
            Expression::Val(_) => true,
            Expression::Var(_) => true,
            Expression::Neg(c) => c.fits(),
            Expression::And(l, r)
            | Expression::Or(l, r)
            | Expression::Xor(l, r)
            | Expression::Implication(l, r)
            | Expression::Equivalence(l, r) => l.fits() && r.fits(),
        }
    }

    /// The grid with the tree drawn on it, the root in the given cell. A
    /// node takes the cell of its glyph. A negation has a bar under it and
    /// what is negated two rows below. A binary node has a slash to the
    /// lower left and a backslash to the lower right, and its sides two rows
    /// below: the left one moved left by half its width and one, the right
    /// one moved right alike. A node that falls off the grid is not drawn,
    /// nor is anything under it.
    pub open spec fn drawn(self, g: Seq<Seq<char>>, row: int, col: int) -> Seq<Seq<char>>
        decreases self,
    {
        if !on_grid(g, row, col) {
            g
        } else {
            match self {
                Expression::Val(_) => put(g, row, col, self.glyph()),
                Expression::Var(_) => put(g, row, col, self.glyph()),
                Expression::Neg(c) => c.drawn(
                    put(put(g, row, col, '!'), row + 1, col, '|'),
                    row + 2,
                    col,
                ),
                Expression::And(l, r)
                | Expression::Or(l, r)
                | Expression::Xor(l, r)
                | Expression::Implication(l, r)
                | Expression::Equivalence(l, r) => {
                    let marked = put(
                        put(put(g, row, col, self.glyph()), row + 1, col - 1, '/'),
                        row + 1,
                        col + 1,
                        '\\',
                    );
                    let left = l.drawn(marked, row + 2, col - l.width_spec() / 2 - 1);
                    r.drawn(left, row + 2, col + r.width_spec() / 2 + 1)
                },
            }
        }
    }

    /// The drawing of the tree as text: on a grid of blanks with two rows
    /// for each level and four columns for each unit of width, the root in
    /// the middle of the first row.
    pub open spec fn picture(self) -> Seq<char> {
        text_of(
            self.drawn(
                blank(2 * self.height_spec(), 4 * self.width_spec()),
                0,
                2 * self.width_spec() as int,
            ),
        )
    }
}

/// Drawing keeps the shape of the grid.
pub proof fn lemma_drawn_shape(e: Expression, g: Seq<Seq<char>>, row: int, col: int)
    ensures
        e.drawn(g, row, col).len() == g.len(),
        forall|i: int| 0 <= i < g.len() ==> (#[trigger] e.drawn(g, row, col)[i]).len() == g[i].len(),
    decreases e,
{
    if on_grid(g, row, col) {
        match e {
            Expression::Val(_) | Expression::Var(_) => {},
            Expression::Neg(c) => {
                let marked = put(put(g, row, col, '!'), row + 1, col, '|');
                lemma_drawn_shape(*c, marked, row + 2, col);
            },
            Expression::And(l, r)
            | Expression::Or(l, r)
            | Expression::Xor(l, r)
            | Expression::Implication(l, r)
            | Expression::Equivalence(l, r) => {
                let marked = put(
                    put(put(g, row, col, e.glyph()), row + 1, col - 1, '/'),
                    row + 1,
                    col + 1,
                    '\\',
                );
                let left = l.drawn(marked, row + 2, col - l.width_spec() / 2 - 1);
                lemma_drawn_shape(*l, marked, row + 2, col - l.width_spec() / 2 - 1);
                lemma_drawn_shape(*r, left, row + 2, col + r.width_spec() / 2 + 1);
            },
        }
    }
}

/// Writes `c` into the cell; a cell off the grid is left out.
pub fn put_cell(buffer: &mut Vec<Vec<char>>, row: usize, col: usize, c: char)
    ensures
        grid(final(buffer)@) == put(grid(old(buffer)@), row as int, col as int, c),
{
    if row < buffer.len() && col < buffer[row].len() {
        buffer[row][col] = c;
        assert(grid(buffer@) =~= put(grid(old(buffer)@), row as int, col as int, c));
    }
}

impl Expression {
    /// The height and the width of the tree; `None` where one of them, in
    /// the tree or in a tree within it, is no number of the machine.
    pub fn measure(&self) -> (m: Option<(usize, usize)>)
        ensures
            match m {
                Some((h, w)) => self.fits() && h == self.height_spec() && w == self.width_spec(),
                None => !self.fits(),
            },
        decreases *self,
    {
        match self {
            Expression::And(left, right)
            | Expression::Or(left, right)
            | Expression::Xor(left, right)
            | Expression::Implication(left, right)
            | Expression::Equivalence(left, right) => {
                let (left_height, left_width) = left.measure()?;
                let (right_height, right_width) = right.measure()?;
                let tallest = if left_height >= right_height {
                    left_height
                } else {
                    right_height
                };
                let height = tallest.checked_add(1)?;
                let width = left_width.checked_add(right_width)?;
                Some((height, width))
            },
            Expression::Neg(child) => {
                let (child_height, _) = child.measure()?;
                let height = child_height.checked_add(1)?;
                Some((height, child_height))
            },
            Expression::Val(_) | Expression::Var(_) => Some((1, 1)),
        }
    }

    /// The number of levels of the tree.
    pub fn height(&self) -> (h: usize)
        requires
            self.fits(),
        ensures
            h == self.height_spec(),
        decreases *self,
    {
        match self {
            Expression::And(left, right)
            | Expression::Or(left, right)
            | Expression::Xor(left, right)
            | Expression::Implication(left, right)
            | Expression::Equivalence(left, right) => {
                let left_height = left.height();
                let right_height = right.height();
                1 + if left_height >= right_height {
                    left_height
                } else {
                    right_height
                }
            },
            Expression::Neg(child) => 1 + child.height(),
            Expression::Val(_) | Expression::Var(_) => 1,
        }
    }

    /// The number of columns that the drawing allows for the tree.
    pub fn width(&self) -> (w: usize)
        requires
            self.fits(),
        ensures
            w == self.width_spec(),
        decreases *self,
    {
        match self {
            Expression::And(left, right)
            | Expression::Or(left, right)
            | Expression::Xor(left, right)
            | Expression::Implication(left, right)
            | Expression::Equivalence(left, right) => {
                let left_width = left.width();
                let right_width = right.width();
                left_width + right_width
            },
            Expression::Neg(child) => child.height(),
            Expression::Val(_) | Expression::Var(_) => 1,
        }
    }

    /// Draws the tree into the buffer, the root in the given cell.
    pub fn draw_tree(&self, buffer: &mut Vec<Vec<char>>, row: usize, col: usize)
        requires
            self.fits(),
        ensures
            grid(final(buffer)@) == self.drawn(grid(old(buffer)@), row as int, col as int),
        decreases *self,
    {
        if row >= buffer.len() || col >= buffer[row].len() {
            return ;
        }
        let ghost start = grid(buffer@);
        assert(on_grid(start, row as int, col as int));
        match self {
            Expression::And(left, right)
            | Expression::Or(left, right)
            | Expression::Xor(left, right)
            | Expression::Implication(left, right)
            | Expression::Equivalence(left, right) => {
                put_cell(buffer, row, col, self.to_unicode());
                let left_width = left.width();
                let right_width = right.width();
                if col >= 1 {
                    put_cell(buffer, row + 1, col - 1, '/');
                }
                put_cell(buffer, row + 1, col + 1, '\\');
                let ghost marked = grid(buffer@);
                let ghost left_col = col - left_width / 2 - 1;
                let ghost right_col = col + right_width / 2 + 1;
                assert(marked == put(
                    put(put(start, row as int, col as int, self.glyph()), row + 1, col - 1, '/'),
                    row + 1,
                    col + 1,
                    '\\',
                ));
                assert(marked.len() == buffer@.len());
                if row < usize::MAX - 1 {
                    if col >= left_width / 2 + 1 {
                        left.draw_tree(buffer, row + 2, col - left_width / 2 - 1);
                    }
                    let ghost after_left = grid(buffer@);
                    assert(after_left == left.drawn(marked, row + 2, left_col));
                    proof {
                        lemma_drawn_shape(**left, marked, row + 2, left_col);
                    }
                    assert(after_left.len() == buffer@.len());
                    match col.checked_add(right_width / 2 + 1) {
                        Some(place) => {
                            right.draw_tree(buffer, row + 2, place);
                        },
                        None => {
                            assert(!on_grid(after_left, row + 2, right_col)) by {
                                if row + 2 < buffer@.len() {
                                    assert(after_left[row + 2] == buffer@[row + 2]@);
                                    assert(buffer@[row + 2].len() <= usize::MAX);
                                }
                            }
                        },
                    }
                    assert(grid(buffer@) == right.drawn(after_left, row + 2, right_col));
                    assert(grid(buffer@) == self.drawn(start, row as int, col as int));
                } else {
                    assert(left.drawn(marked, row + 2, left_col) == marked);
                    assert(right.drawn(marked, row + 2, right_col) == marked);
                }
            },
            Expression::Neg(child) => {
                put_cell(buffer, row, col, self.to_unicode());
                put_cell(buffer, row + 1, col, '|');
                if row < usize::MAX - 1 {
                    child.draw_tree(buffer, row + 2, col);
                } else {
                    assert(child.drawn(grid(buffer@), row + 2, col as int) == grid(buffer@));
                }
            },
            Expression::Val(_) | Expression::Var(_) => {
                put_cell(buffer, row, col, self.to_unicode());
            },
        }
    }
}

/// The last character of a line that is no blank has a place on the line.
pub proof fn lemma_last_mark_on_line(line: Seq<char>)
    requires
        line.len() > 0,
    ensures
        last_mark(line) < line.len(),
    decreases line.len(),
{
    if line.last() == ' ' {
        if line.len() > 1 {
            lemma_last_mark_on_line(line.drop_last());
        } else {
            assert(last_mark(line.drop_last()) == 0);
        }
    }
}

/// The place of the last character of the line that is no blank.
pub fn last_mark_of(line: &Vec<char>) -> (k: usize)
    ensures
        k == last_mark(line@),
{
    let mut i: usize = line.len();
    assert(line@.take(i as int) == line@);
    while i > 0
        invariant
            i <= line.len(),
            last_mark(line@) == last_mark(line@.take(i as int)),
        decreases i,
    {
        if line[i - 1] != ' ' {
            return i - 1;
        }
        assert(line@.take(i as int).drop_last() == line@.take(i - 1));
        i -= 1;
    }
    0
}

/// A buffer of blanks with the given numbers of rows and columns.
pub fn blank_grid(rows: usize, cols: usize) -> (buffer: Vec<Vec<char>>)
    ensures
        grid(buffer@) == blank(rows as nat, cols as nat),
{
    let mut buffer: Vec<Vec<char>> = Vec::new();
    while buffer.len() < rows
        invariant
            buffer@.len() <= rows,
            forall|i: int|
                0 <= i < buffer@.len() ==> (#[trigger] buffer@[i])@ == Seq::new(
                    cols as nat,
                    |j: int| ' ',
                ),
        decreases rows - buffer@.len(),
    {
        let mut line: Vec<char> = Vec::new();
        while line.len() < cols
            invariant
                line@.len() <= cols,
                forall|j: int| 0 <= j < line@.len() ==> line@[j] == ' ',
            decreases cols - line@.len(),
        {
            line.push(' ');
        }
        assert(line@ =~= Seq::new(cols as nat, |j: int| ' '));
        buffer.push(line);
    }
    assert(grid(buffer@) =~= blank(rows as nat, cols as nat));
    buffer
}

/// The lines of the buffer as text: each trimmed, each ended by a line feed.
pub fn buffer_text(buffer: &Vec<Vec<char>>) -> (s: String)
    ensures
        s@ == text_of(grid(buffer@)),
{
    let mut result = String::new();
    let mut i: usize = 0;
    assert(grid(buffer@).take(0) == Seq::<Seq<char>>::empty());
    while i < buffer.len()
        invariant
            i <= buffer.len(),
            result@ == text_of(grid(buffer@).take(i as int)),
        decreases buffer.len() - i,
    {
        let line = &buffer[i];
        let ghost before = result@;
        assert(grid(buffer@).take(i + 1).drop_last() == grid(buffer@).take(i as int));
        assert(grid(buffer@).take(i + 1).last() == line@);
        if line.len() > 0 {
            let last = last_mark_of(line);
            proof {
                lemma_last_mark_on_line(line@);
            }
            let mut j: usize = 0;
            while j <= last
                invariant
                    j <= last + 1,
                    last < line@.len() <= usize::MAX,
                    result@ == before + line@.take(j as int),
                decreases last + 1 - j,
            {
                result.push(line[j]);
                assert(line@.take(j as int).push(line@[j as int]) == line@.take(j + 1));
                j += 1;
            }
        } else {
            assert(before + line@ == before);
        }
        result.push('\n');
        assert(result@ == before + trimmed(line@) + seq!['\n']);
        i += 1;
    }
    assert(grid(buffer@).take(buffer@.len() as int) == grid(buffer@));
    result
}

impl Expression {
    /// The drawing of the tree as text; `None` where the grid for it has no
    /// size that is a number of the machine.
    pub fn visualize_tree(&self) -> (r: Option<String>)
        ensures
            match r {
                Some(s) => s@ == self.picture(),
                None => !self.fits() || 2 * self.height_spec() > usize::MAX || 4
                    * self.width_spec() > usize::MAX,
            },
    {
        let (tree_height, tree_width) = self.measure()?;
        let height = tree_height.checked_mul(2)?;
        let width = tree_width.checked_mul(4)?;
        let mut buffer = blank_grid(height, width);
        self.draw_tree(&mut buffer, 0, width / 2);
        Some(buffer_text(&buffer))
    }
}

} // verus!
