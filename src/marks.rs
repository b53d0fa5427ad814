use vstd::prelude::*;

verus! {

/// A position in a buffer: a row (line index) and a column within that line. Columns count
/// characters (`char`s), not bytes: for ASCII text the two agree, but a character such as `é`
/// takes one column where its UTF-8 encoding takes two bytes.
#[derive(Clone, Copy, Debug, PartialEq, Eq, Structural)]
pub struct Mark {
    pub row: usize,
    pub col: usize,
}

/// `x`, held to the range of `usize`.
pub open spec fn fit(x: int) -> usize {
    if x < 0 {
        0
    } else if x > usize::MAX {
        usize::MAX
    } else {
        x as usize
    }
}

/// `a` comes strictly before `b`: on an earlier row, or on the same row at a smaller column.
pub open spec fn before(a: Mark, b: Mark) -> bool {
    a.row < b.row || (a.row == b.row && a.col < b.col)
}

impl Mark {
    pub fn new(row: usize, col: usize) -> (r: Mark)
        ensures
            r.row == row,
            r.col == col,
    {
        Mark { row, col }
    }

    fn move_member(member: &mut usize, delta: i64)
        ensures
            *final(member) == fit(*old(member) + delta),
    {
        if delta < 0 {
            let back: u64 = ((-(delta + 1)) as u64) + 1;
            if back as u128 >= *member as u128 {
                *member = 0;
            } else {
                *member = *member - back as usize;
            }
        } else {
            let ahead: u64 = delta as u64;
            let room: usize = usize::MAX - *member;
            if ahead as u128 >= room as u128 {
                *member = usize::MAX;
            } else {
                *member = *member + ahead as usize;
            }
        }
    }

    /// Moves the row by `delta`, stopping at 0 and at the largest `usize`.
    pub fn move_row(&mut self, delta: i64)
        ensures
            final(self).row == fit(old(self).row + delta),
            final(self).col == old(self).col,
    {
        Self::move_member(&mut self.row, delta)
    }

    /// Moves the column by `delta`, stopping at 0 and at the largest `usize`.
    pub fn move_col(&mut self, delta: i64)
        ensures
            final(self).col == fit(old(self).col + delta),
            final(self).row == old(self).row,
    {
        Self::move_member(&mut self.col, delta)
    }

    /// Pulls the row back to `max` if it lies beyond.
    pub fn clamp_row(&mut self, max: usize)
        ensures
            final(self).row == if old(self).row > max { max } else { old(self).row },
            final(self).col == old(self).col,
    {
        if self.row > max {
            self.row = max;
        }
    }

    /// Pulls the column back to `max` if it lies beyond.
    pub fn clamp_col(&mut self, max: usize)
        ensures
            final(self).col == if old(self).col > max { max } else { old(self).col },
            final(self).row == old(self).row,
    {
        if self.col > max {
            self.col = max;
        }
    }
}

} // verus!
