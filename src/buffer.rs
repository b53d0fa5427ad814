use vstd::prelude::*;

use crate::error::Error;
use crate::mark_table::MarkTable;
use crate::marks::{before, fit};
pub use crate::marks::Mark;
use crate::laws::insert_end;
use crate::text::{
    join_lines, lemma_split_lines_shape, no_breaks, push_char, split_into_lines, split_lines,
    view_lines,
};

verus! {

/// The marks that a table of `(key, mark)` entries holds; a later entry hides an earlier one
/// with the same key.
pub open spec fn table_map(s: Seq<(usize, Mark)>) -> Map<usize, Mark>
    decreases s.len(),
{
    if s.len() == 0 {
        Map::empty()
    } else {
        table_map(s.drop_last()).insert(s.last().0, s.last().1)
    }
}

/// Each entry's mark replaced by `f` of it.
pub open spec fn map_entries(s: Seq<(usize, Mark)>, f: spec_fn(Mark) -> Mark) -> Seq<(usize, Mark)> {
    s.map_values(|e: (usize, Mark)| (e.0, f(e.1)))
}

proof fn lemma_table_absent(s: Seq<(usize, Mark)>, k: usize)
    requires
        forall|j: int| 0 <= j < s.len() ==> (#[trigger] s[j]).0 != k,
    ensures
        !table_map(s).contains_key(k),
    decreases s.len(),
{
    if s.len() > 0 {
        lemma_table_absent(s.drop_last(), k);
    }
}

proof fn lemma_table_find(s: Seq<(usize, Mark)>, i: int)
    requires
        0 <= i < s.len(),
        forall|j: int| i < j < s.len() ==> (#[trigger] s[j]).0 != s[i].0,
    ensures
        table_map(s).contains_key(s[i].0),
        table_map(s)[s[i].0] == s[i].1,
    decreases s.len(),
{
    if i < s.len() - 1 {
        let t = s.drop_last();
        assert forall|j: int| i < j < t.len() implies (#[trigger] t[j]).0 != t[i].0 by {
            assert(t[j] == s[j]);
        }
        lemma_table_find(t, i);
    }
}

proof fn lemma_table_update(s: Seq<(usize, Mark)>, i: int, m: Mark)
    requires
        0 <= i < s.len(),
        forall|j: int| i < j < s.len() ==> (#[trigger] s[j]).0 != s[i].0,
    ensures
        table_map(s.update(i, (s[i].0, m))) == table_map(s).insert(s[i].0, m),
    decreases s.len(),
{
    let u = s.update(i, (s[i].0, m));
    if i == s.len() - 1 {
        assert(u.drop_last() =~= s.drop_last());
    } else {
        let t = s.drop_last();
        assert forall|j: int| i < j < t.len() implies (#[trigger] t[j]).0 != t[i].0 by {
            assert(t[j] == s[j]);
        }
        lemma_table_update(t, i, m);
        assert(u.drop_last() =~= t.update(i, (s[i].0, m)));
        assert(s.last().0 != s[i].0);
        assert(table_map(u) =~= table_map(s).insert(s[i].0, m));
    }
}

proof fn lemma_table_map_entries(s: Seq<(usize, Mark)>, f: spec_fn(Mark) -> Mark)
    ensures
        table_map(map_entries(s, f)) == table_map(s).map_values(f),
    decreases s.len(),
{
    if s.len() == 0 {
        assert(table_map(s).map_values(f) =~= Map::empty());
    } else {
        lemma_table_map_entries(s.drop_last(), f);
        assert(map_entries(s, f).drop_last() =~= map_entries(s.drop_last(), f));
        assert(table_map(map_entries(s, f)) =~= table_map(s).map_values(f));
    }
}

/// `p` names a place in `lines`: an existing row, and a column no further than that line's end.
pub open spec fn valid_pos(lines: Seq<Seq<char>>, p: Mark) -> bool {
    p.row < lines.len() && p.col <= lines[p.row as int].len()
}

/// The lines after `pieces` (a text cut at its line breaks) are put in at `at`: the first piece
/// joins the line at `at`, the last one takes the rest of that line, and those in between become
/// lines of their own.
pub open spec fn inserted_lines(lines: Seq<Seq<char>>, at: Mark, pieces: Seq<Seq<char>>) -> Seq<
    Seq<char>,
> {
    let line = lines[at.row as int];
    let head = line.subrange(0, at.col as int);
    let tail = line.subrange(at.col as int, line.len() as int);
    let k = pieces.len() - 1;
    if k == 0 {
        lines.update(at.row as int, head + pieces[0] + tail)
    } else {
        lines.subrange(0, at.row as int) + seq![head + pieces[0]] + pieces.subrange(1, k) + seq![
            pieces[k] + tail,
        ] + lines.subrange(at.row + 1, lines.len() as int)
    }
}

/// Where a mark at `m` goes when `pieces` are put in at `at`. Marks before `at` stay; the rest
/// of `at`'s line follows the end of the inserted text; later lines move down by the number of
/// line breaks inserted. A mark at `at` itself stays for text without line breaks and moves to
/// the end of the inserted text otherwise.
pub open spec fn mark_after_insert(m: Mark, at: Mark, pieces: Seq<Seq<char>>) -> Mark {
    let k = pieces.len() - 1;
    if m.row == at.row && (m.col > at.col || (k > 0 && m.col == at.col)) {
        if k == 0 {
            Mark { row: m.row, col: fit(m.col + pieces[0].len()) }
        } else {
            Mark { row: fit(m.row + k), col: fit(m.col - at.col + pieces[k].len()) }
        }
    } else if m.row > at.row {
        Mark { row: fit(m.row + k), col: m.col }
    } else {
        m
    }
}

/// `a` to `b` is a range that can be taken out of `lines`: `a` names a place, `b` names a place
/// or the start of the row after the last line (the end of the text), and `b` does not come
/// before `a`.
pub open spec fn valid_range(lines: Seq<Seq<char>>, a: Mark, b: Mark) -> bool {
    &&& valid_pos(lines, a)
    &&& valid_pos(lines, b) || (b.row == lines.len() && b.col == 0)
    &&& !before(b, a)
}

/// The lines after the text from `a` up to `b` is taken out: what stood before `a` on its line
/// is joined by what stood from `b` on on its line.
pub open spec fn removed_lines(lines: Seq<Seq<char>>, a: Mark, b: Mark) -> Seq<Seq<char>> {
    let head = lines[a.row as int].subrange(0, a.col as int);
    if b.row < lines.len() {
        let line = lines[b.row as int];
        lines.subrange(0, a.row as int) + seq![head + line.subrange(b.col as int, line.len() as int)]
            + lines.subrange(b.row + 1, lines.len() as int)
    } else {
        lines.subrange(0, a.row as int) + seq![head]
    }
}

/// Where a mark at `m` goes when the text from `a` up to `b` is taken out. Marks up to `a` stay;
/// marks inside the range fall to `a`; marks from `b` on keep their place relative to it, on
/// `a`'s line where they stood on `b`'s line, and otherwise up by the number of rows removed.
pub open spec fn mark_after_remove(m: Mark, a: Mark, b: Mark) -> Mark {
    if !before(a, m) {
        m
    } else if before(m, b) {
        a
    } else if m.row == b.row {
        Mark { row: a.row, col: fit(a.col + (m.col - b.col)) }
    } else {
        Mark { row: (m.row - (b.row - a.row)) as usize, col: m.col }
    }
}

fn mark_shifted_by_insert(
    m: Mark,
    at: Mark,
    k: usize,
    first_len: usize,
    last_len: usize,
    Ghost(pieces): Ghost<Seq<Seq<char>>>,
) -> (r: Mark)
    requires
        pieces.len() == k + 1,
        first_len == pieces[0].len(),
        last_len == pieces[k as int].len(),
    ensures
        r == mark_after_insert(m, at, pieces),
{
    if m.row == at.row && (m.col > at.col || (k > 0 && m.col == at.col)) {
        if k == 0 {
            Mark { row: m.row, col: m.col.saturating_add(first_len) }
        } else {
            Mark { row: m.row.saturating_add(k), col: (m.col - at.col).saturating_add(last_len) }
        }
    } else if m.row > at.row {
        Mark { row: m.row.saturating_add(k), col: m.col }
    } else {
        m
    }
}

fn mark_shifted_by_remove(m: Mark, a: Mark, b: Mark) -> (r: Mark)
    requires
        !before(b, a),
    ensures
        r == mark_after_remove(m, a, b),
{
    if !(a.row < m.row || (a.row == m.row && a.col < m.col)) {
        m
    } else if m.row < b.row || (m.row == b.row && m.col < b.col) {
        a
    } else if m.row == b.row {
        Mark { row: a.row, col: a.col.saturating_add(m.col - b.col) }
    } else {
        Mark { row: m.row - (b.row - a.row), col: m.col }
    }
}

/// No line holds a line break.
pub open spec fn lines_without_breaks(lines: Seq<Seq<char>>) -> bool {
    forall|j: int| 0 <= j < lines.len() ==> no_breaks(#[trigger] lines[j])
}

/// The text of a document as lines, with a table of marks that follow its edits.
pub struct Buffer {
    lines: Vec<String>,
    /// The marks, read through `table_map`. The table keeps each key once (its invariant), and
    /// lets every edit shift all marks in one pass, in place, in an order that no hasher
    /// decides.
    marks: MarkTable,
    /// Where the buffer is saved, if it has been given a file.
    path: Option<String>,
}

impl Buffer {
    /// Every buffer holds at least one line, and no line holds a line break; `use_type_invariant`
    /// on a buffer, then `lemma_well_formed`, brings these facts to a caller.
    #[verifier::type_invariant]
    pub closed spec fn well_formed(&self) -> bool {
        &&& self.lines@.len() >= 1
        &&& lines_without_breaks(view_lines(self.lines@))
    }

    /// What a well-formed buffer's lines are like.
    pub proof fn lemma_well_formed(&self)
        requires
            self.well_formed(),
        ensures
            self.text().len() >= 1,
            lines_without_breaks(self.text()),
    {
    }

    /// The lines of the buffer.
    pub closed spec fn text(&self) -> Seq<Seq<char>> {
        view_lines(self.lines@)
    }

    /// The file the buffer is saved to; none for an unsaved, unnamed buffer.
    pub closed spec fn file_path(&self) -> Option<Seq<char>> {
        match self.path {
            Some(p) => Some(p@),
            None => None,
        }
    }

    /// The marks of the buffer, by key.
    pub closed spec fn marks(&self) -> Map<usize, Mark> {
        table_map(self.marks.entries())
    }

    /// An empty buffer: one empty line, no marks.
    pub fn new() -> (r: Buffer)
        ensures
            r.text() == seq![Seq::<char>::empty()],
            r.marks() == Map::<usize, Mark>::empty(),
            r.file_path() is None,
    {
        let r = Self::from_str("");
        proof {
            reveal_strlit("");
        }
        r
    }

    /// A buffer holding `s`, cut into lines at each `'\n'`; it has no marks.
    pub fn from_str(s: &str) -> (r: Buffer)
        ensures
            r.text() == split_lines(s@),
            r.marks() == Map::<usize, Mark>::empty(),
            r.file_path() is None,
    {
        let lines = split_into_lines(s);
        proof {
            lemma_split_lines_shape(s@);
        }
        Buffer { lines, marks: MarkTable::new(), path: None }
    }

    /// The whole text, with a `'\n'` between lines.
    pub fn to_str(&self) -> (r: String)
        ensures
            r@ == join_lines(self.text()),
    {
        proof {
            use_type_invariant(self);
            reveal_strlit("\n");
        }
        let ghost t = self.text();
        let mut r = String::from_str(self.lines[0].as_str());
        let mut i: usize = 1;
        proof {
            assert(t.subrange(0, 1) =~= seq![t[0]]);
        }
        while i < self.lines.len()
            invariant
                1 <= i <= self.lines@.len(),
                t == view_lines(self.lines@),
                r@ == join_lines(t.subrange(0, i as int)),
            decreases self.lines@.len() - i,
        {
            r.append("\n");
            r.append(self.lines[i].as_str());
            proof {
                reveal_strlit("\n");
                assert(t.subrange(0, i + 1).drop_last() =~= t.subrange(0, i as int));
                assert(t.subrange(0, i + 1).last() == self.lines@[i as int]@);
            }
            i = i + 1;
        }
        proof {
            assert(t.subrange(0, i as int) =~= t);
        }
        r
    }

    /// The file the buffer is saved to, if it has one.
    pub fn get_path(&self) -> (r: Option<&str>)
        ensures
            r matches Some(p) ==> self.file_path() == Some(p@),
            r is None ==> self.file_path() is None,
    {
        match &self.path {
            Some(p) => Some(p.as_str()),
            None => None,
        }
    }

    /// Names the file the buffer is saved to.
    pub fn set_path(&mut self, path: &str)
        ensures
            final(self).file_path() == Some(path@),
            final(self).text() == old(self).text(),
            final(self).marks() == old(self).marks(),
    {
        proof {
            use_type_invariant(&*self);
        }
        self.path = Some(String::from_str(path));
    }

    /// Line `i`.
    pub fn get_line(&self, i: usize) -> (r: &str)
        requires
            i < self.text().len(),
        ensures
            r@ == self.text()[i as int],
    {
        self.lines[i].as_str()
    }

    /// All lines, in order.
    pub fn get_lines(&self) -> (r: &[String])
        ensures
            view_lines(r@) == self.text(),
    {
        self.lines.as_slice()
    }

    /// The number of lines; never 0.
    pub fn line_count(&self) -> (r: usize)
        ensures
            r == self.text().len(),
            r >= 1,
    {
        proof {
            use_type_invariant(self);
        }
        self.lines.len()
    }

    /// The length of line `row`, in characters.
    pub fn line_len(&self, row: usize) -> (r: usize)
        requires
            row < self.text().len(),
        ensures
            r == self.text()[row as int].len(),
    {
        self.lines[row].as_str().unicode_len()
    }

    /// Puts `s` in at `at`, cutting it into lines at each `'\n'`, and moves the marks to follow
    /// the text around them. Fails, changing nothing, where `at` names no place in the buffer.
    pub fn insert(&mut self, at: Mark, s: &str) -> (r: Result<(), Error>)
        ensures
            final(self).file_path() == old(self).file_path(),
            r is Ok <==> valid_pos(old(self).text(), at),
            r is Ok ==> final(self).text() == inserted_lines(old(self).text(), at, split_lines(s@)),
            r is Ok ==> final(self).marks() == old(self).marks().map_values(
                |m: Mark| mark_after_insert(m, at, split_lines(s@)),
            ),
            r is Err ==> r == Err::<(), Error>(Error::OutOfBounds),
            r is Err ==> final(self).text() == old(self).text() && final(self).marks() == old(
                self,
            ).marks(),
    {
        proof {
            use_type_invariant(&*self);
        }
        if at.row >= self.lines.len() {
            return Err(Error::OutOfBounds);
        }
        let len = self.lines[at.row].as_str().unicode_len();
        if at.col > len {
            return Err(Error::OutOfBounds);
        }
        let ghost old_text = self.text();
        let ghost ps = split_lines(s@);
        let mut pieces = split_into_lines(s);
        proof {
            lemma_split_lines_shape(s@);
        }
        let k = pieces.len() - 1;
        let first_len = pieces[0].as_str().unicode_len();
        let last_len = pieces[k].as_str().unicode_len();
        let head = String::from_str(self.lines[at.row].as_str().substring_char(0, at.col));
        let tail = String::from_str(self.lines[at.row].as_str().substring_char(at.col, len));
        // The lines are edited outside `self`, which must hold a line at every moment.
        let mut lines: Vec<String> = Vec::new();
        lines.push(String::new());
        std::mem::swap(&mut lines, &mut self.lines);
        if k == 0 {
            let mut line = head;
            line.append(pieces[0].as_str());
            line.append(tail.as_str());
            lines.set(at.row, line);
            proof {
                assert(view_lines(lines@) =~= inserted_lines(old_text, at, ps));
            }
        } else {
            let mut rest = lines.split_off(at.row + 1);
            lines.pop();
            let mut first = head;
            first.append(pieces[0].as_str());
            let mut last = String::from_str(pieces[k].as_str());
            last.append(tail.as_str());
            pieces.set(0, first);
            pieces.set(k, last);
            lines.append(&mut pieces);
            lines.append(&mut rest);
            proof {
                assert(view_lines(lines@) =~= inserted_lines(old_text, at, ps));
            }
        }
        self.lines = lines;
        let ghost old_marks = self.marks.entries();
        let ghost f = |m: Mark| mark_after_insert(m, at, ps);
        let mut i: usize = 0;
        while i < self.marks.len()
            invariant
                self.lines@.len() >= 1,
                lines_without_breaks(self.text()),
                self.file_path() == old(self).file_path(),
                self.text() == inserted_lines(old_text, at, ps),
                self.marks.entries().len() == old_marks.len(),
                i <= old_marks.len(),
                ps.len() == k + 1,
                first_len == ps[0].len(),
                last_len == ps[k as int].len(),
                forall|j: int|
                    0 <= j < i ==> self.marks.entries()[j] == (
                        old_marks[j].0,
                        mark_after_insert(old_marks[j].1, at, ps),
                    ),
                forall|j: int| i <= j < old_marks.len() ==> self.marks.entries()[j] == old_marks[j],
            decreases old_marks.len() - i,
        {
            let m = self.marks.place(i);
            let moved = mark_shifted_by_insert(m, at, k, first_len, last_len, Ghost(ps));
            self.marks.set_place(i, moved);
            i = i + 1;
        }
        proof {
            assert(self.marks.entries() =~= map_entries(old_marks, f));
            lemma_table_map_entries(old_marks, f);
        }
        Ok(())
    }

    /// `insert` at row `row`, column `col`.
    pub fn insert_str(&mut self, row: usize, col: usize, s: &str) -> (r: Result<(), Error>)
        ensures
            final(self).file_path() == old(self).file_path(),
            r is Ok <==> valid_pos(old(self).text(), Mark { row, col }),
            r is Ok ==> final(self).text() == inserted_lines(
                old(self).text(),
                Mark { row, col },
                split_lines(s@),
            ),
            r is Ok ==> final(self).marks() == old(self).marks().map_values(
                |m: Mark| mark_after_insert(m, Mark { row, col }, split_lines(s@)),
            ),
            r is Err ==> r == Err::<(), Error>(Error::OutOfBounds),
            r is Err ==> final(self).text() == old(self).text() && final(self).marks() == old(
                self,
            ).marks(),
    {
        self.insert(Mark::new(row, col), s)
    }

    /// Takes out the text from `a` up to `b` and moves the marks to follow the text around them.
    /// `b` may be the start of the row after the last line, which stands for the end of the text.
    /// Fails, changing nothing, where the range is not one of the buffer's.
    pub fn remove(&mut self, a: Mark, b: Mark) -> (r: Result<(), Error>)
        ensures
            final(self).file_path() == old(self).file_path(),
            r is Ok <==> valid_range(old(self).text(), a, b),
            r is Ok ==> final(self).text() == removed_lines(old(self).text(), a, b),
            r is Ok ==> final(self).marks() == old(self).marks().map_values(
                |m: Mark| mark_after_remove(m, a, b),
            ),
            r is Err ==> r == Err::<(), Error>(Error::OutOfBounds),
            r is Err ==> final(self).text() == old(self).text() && final(self).marks() == old(
                self,
            ).marks(),
    {
        proof {
            use_type_invariant(&*self);
        }
        let n = self.lines.len();
        if a.row >= n || b.row > n || b.row < a.row || (b.row == a.row && b.col < a.col) {
            return Err(Error::OutOfBounds);
        }
        let a_len = self.lines[a.row].as_str().unicode_len();
        if a.col > a_len {
            return Err(Error::OutOfBounds);
        }
        let b_len = if b.row < n {
            self.lines[b.row].as_str().unicode_len()
        } else {
            0
        };
        if b.col > b_len {
            return Err(Error::OutOfBounds);
        }
        let ghost old_text = self.text();
        let head = String::from_str(self.lines[a.row].as_str().substring_char(0, a.col));
        let mut joined = head;
        if b.row < n {
            joined.append(self.lines[b.row].as_str().substring_char(b.col, b_len));
        }
        // The lines are edited outside `self`, which must hold a line at every moment.
        let mut lines: Vec<String> = Vec::new();
        lines.push(String::new());
        std::mem::swap(&mut lines, &mut self.lines);
        let keep_from = if b.row < n {
            b.row + 1
        } else {
            n
        };
        let mut rest = lines.split_off(keep_from);
        lines.truncate(a.row + 1);
        lines.set(a.row, joined);
        lines.append(&mut rest);
        proof {
            assert(view_lines(lines@) =~= removed_lines(old_text, a, b));
        }
        self.lines = lines;
        let ghost old_marks = self.marks.entries();
        let ghost f = |m: Mark| mark_after_remove(m, a, b);
        let mut i: usize = 0;
        while i < self.marks.len()
            invariant
                self.lines@.len() >= 1,
                lines_without_breaks(self.text()),
                self.file_path() == old(self).file_path(),
                self.text() == removed_lines(old_text, a, b),
                self.marks.entries().len() == old_marks.len(),
                i <= old_marks.len(),
                !before(b, a),
                forall|j: int|
                    0 <= j < i ==> self.marks.entries()[j] == (
                        old_marks[j].0,
                        mark_after_remove(old_marks[j].1, a, b),
                    ),
                forall|j: int| i <= j < old_marks.len() ==> self.marks.entries()[j] == old_marks[j],
            decreases old_marks.len() - i,
        {
            let m = self.marks.place(i);
            let moved = mark_shifted_by_remove(m, a, b);
            self.marks.set_place(i, moved);
            i = i + 1;
        }
        proof {
            assert(self.marks.entries() =~= map_entries(old_marks, f));
            lemma_table_map_entries(old_marks, f);
        }
        Ok(())
    }

    /// The mark `key`, to change in place; a key never set is first put at the start of the
    /// buffer.
    pub fn get_mark_mut(&mut self, key: usize) -> (r: &mut Mark)
        ensures
            final(self).file_path() == old(self).file_path(),
            *r == mark_or_start(old(self).marks(), key),
            final(self).marks() == old(self).marks().insert(key, *final(r)),
            final(self).text() == old(self).text(),
    {
        proof {
            use_type_invariant(&*self);
        }
        let i = match self.find_mark(key) {
            Some(i) => {
                proof {
                    lemma_table_find(self.marks.entries(), i as int);
                }
                i
            },
            None => {
                // Growing the table may unwind, so it grows outside `self`.
                let mut marks = MarkTable::new();
                std::mem::swap(&mut marks, &mut self.marks);
                marks.push(key, Mark { row: 0, col: 0 });
                self.marks = marks;
                proof {
                    assert(self.marks.entries().drop_last() =~= old(self).marks.entries());
                }
                self.marks.len() - 1
            },
        };
        let ghost before = self.marks.entries();
        proof {
            assert forall|j: int| i < j < before.len() implies (#[trigger] before[j]).0 != before[i as int].0 by {
            }
        }
        proof {
            assert forall|m: Mark|
                #![trigger before.update(i as int, (key, m))]
                table_map(before.update(i as int, (key, m))) == old(self).marks().insert(key, m) by {
                lemma_table_update(before, i as int, m);
                assert(table_map(before).insert(key, m) =~= old(self).marks().insert(key, m));
            }
        }
        self.marks.place_mut(i)
    }

    /// Moves the mark `key` (a window's cursor) by `drow` rows and `dcol` columns. The row stays
    /// within the lines of the buffer. The column is held to the line it lands on only when
    /// `dcol` is not 0: a move straight up or down keeps the column it had.
    pub fn move_cursor(&mut self, key: usize, drow: i64, dcol: i64)
        ensures
            final(self).file_path() == old(self).file_path(),
            final(self).text() == old(self).text(),
            final(self).marks() == old(self).marks().insert(
                key,
                cursor_after_move(old(self).text(), mark_or_start(old(self).marks(), key), drow as int, dcol as int),
            ),
            final(self).marks()[key].row < final(self).text().len(),
            dcol != 0 ==> final(self).marks()[key].col <= final(self).text()[final(self).marks()[key].row as int].len(),
    {
        proof {
            use_type_invariant(&*self);
        }
        let mut m = self.get_mark(key);
        m.move_row(drow);
        m.clamp_row(self.lines.len() - 1);
        if dcol != 0 {
            m.move_col(dcol);
            let len = self.line_len(m.row);
            m.clamp_col(len);
        }
        self.set_mark(key, m);
    }

    /// `m` pulled back into the buffer: a place of it.
    pub fn clamp_mark(&self, m: Mark) -> (r: Mark)
        ensures
            r == clamped(self.text(), m),
            valid_pos(self.text(), r),
    {
        proof {
            use_type_invariant(self);
        }
        let mut r = m;
        r.clamp_row(self.lines.len() - 1);
        let len = self.line_len(r.row);
        r.clamp_col(len);
        r
    }

    /// Types `s` at the mark `key`, first pulled back into the text, and leaves that mark at the
    /// end of what was typed.
    pub fn insert_at_mark(&mut self, key: usize, s: &str)
        ensures
            final(self).file_path() == old(self).file_path(),
            ({
                let at = clamped(old(self).text(), mark_or_start(old(self).marks(), key));
                &&& final(self).text() == inserted_lines(old(self).text(), at, split_lines(s@))
                &&& final(self).marks() == old(self).marks().map_values(
                    |m: Mark| mark_after_insert(m, at, split_lines(s@)),
                ).insert(key, insert_end(at, split_lines(s@)))
            }),
    {
        let pieces = split_into_lines(s);
        proof {
            lemma_split_lines_shape(s@);
        }
        let k = pieces.len() - 1;
        let first_len = pieces[0].as_str().unicode_len();
        let last_len = pieces[k].as_str().unicode_len();
        let at = self.clamp_mark(self.get_mark(key));
        self.set_mark(key, at);
        let _ = self.insert(at, s);
        let end = if k == 0 {
            Mark { row: at.row, col: at.col.saturating_add(first_len) }
        } else {
            Mark { row: at.row.saturating_add(k), col: last_len }
        };
        self.set_mark(key, end);
        proof {
            let ps = split_lines(s@);
            assert(end == insert_end(at, ps));
            assert(self.marks() =~= old(self).marks().map_values(
                |m: Mark| mark_after_insert(m, at, ps),
            ).insert(key, end));
        }
    }

    /// Takes out the character before the mark `key`, first pulled back into the text; at the
    /// start of a line, joins that line to the one above. At the start of the text it only pulls
    /// the mark back.
    pub fn backspace_at_mark(&mut self, key: usize)
        ensures
            final(self).file_path() == old(self).file_path(),
            ({
                let at = clamped(old(self).text(), mark_or_start(old(self).marks(), key));
                let start = backspace_start(old(self).text(), at);
                if at.row == 0 && at.col == 0 {
                    &&& final(self).text() == old(self).text()
                    &&& final(self).marks() == old(self).marks().insert(key, at)
                } else {
                    &&& final(self).text() == removed_lines(old(self).text(), start, at)
                    &&& final(self).marks() == old(self).marks().insert(key, at).map_values(
                        |m: Mark| mark_after_remove(m, start, at),
                    )
                }
            }),
    {
        let at = self.clamp_mark(self.get_mark(key));
        self.set_mark(key, at);
        if at.col > 0 {
            let _ = self.remove(Mark { row: at.row, col: at.col - 1 }, at);
        } else if at.row > 0 {
            let len = self.line_len(at.row - 1);
            let _ = self.remove(Mark { row: at.row - 1, col: len }, at);
        }
    }

    /// Puts the character `ch` in at row `row`, column `col`. Marks follow as for `insert`,
    /// except that a mark at that very place moves past the new character. Fails, changing
    /// nothing, where the place is not one of the buffer's.
    pub fn insert_char(&mut self, row: usize, col: usize, ch: char) -> (r: Result<(), Error>)
        ensures
            final(self).file_path() == old(self).file_path(),
            r is Ok <==> valid_pos(old(self).text(), Mark { row, col }),
            r is Ok ==> final(self).text() == inserted_lines(
                old(self).text(),
                Mark { row, col },
                split_lines(seq![ch]),
            ),
            r is Ok ==> final(self).marks() == old(self).marks().map_values(
                |m: Mark| mark_after_insert_char(m, Mark { row, col }, ch),
            ),
            r is Err ==> r == Err::<(), Error>(Error::OutOfBounds),
            r is Err ==> final(self).text() == old(self).text() && final(self).marks() == old(
                self,
            ).marks(),
    {
        let at = Mark { row, col };
        let mut s = String::new();
        push_char(&mut s, ch);
        proof {
            assert(s@ =~= seq![ch]);
            lemma_split_lines_shape(s@);
        }
        let ghost ps = split_lines(s@);
        let end = if ch == '\n' {
            proof {
                assert(seq![ch].drop_last() =~= Seq::<char>::empty());
            }
            Mark { row: row.saturating_add(1), col: 0 }
        } else {
            proof {
                assert(seq![ch].drop_last() =~= Seq::<char>::empty());
            }
            Mark { row, col: col.saturating_add(1) }
        };
        proof {
            let e = Seq::<char>::empty();
            assert(split_lines(e) == seq![e]);
            assert(seq![ch].drop_last() =~= e);
            if ch == '\n' {
                assert(ps == seq![e].push(e));
            } else {
                assert(ps == seq![e].update(0, e.push(ch)));
                assert(e.push(ch) =~= seq![ch]);
            }
            assert(end == insert_end(at, ps));
        }
        let r = self.insert(at, s.as_str());
        if r.is_err() {
            return r;
        }
        proof {
            use_type_invariant(&*self);
        }
        let ghost mid_marks = self.marks.entries();
        let ghost first = old(self).marks.entries();
        proof {
            lemma_table_map_entries(first, |m: Mark| mark_after_insert(m, at, ps));
        }
        let mut i: usize = 0;
        while i < self.marks.len()
            invariant
                self.lines@.len() >= 1,
                lines_without_breaks(self.text()),
                self.file_path() == old(self).file_path(),
                self.text() == inserted_lines(old(self).text(), at, ps),
                ps == split_lines(seq![ch]),
                1 <= ps.len() <= 2,
                end == insert_end(at, ps),
                self.marks.entries().len() == mid_marks.len(),
                table_map(mid_marks) == table_map(first).map_values(
                    |m: Mark| mark_after_insert(m, at, ps),
                ),
                i <= mid_marks.len(),
                forall|j: int|
                    0 <= j < i ==> self.marks.entries()[j] == (
                        mid_marks[j].0,
                        if mid_marks[j].1 == at { end } else { mid_marks[j].1 },
                    ),
                forall|j: int| i <= j < mid_marks.len() ==> self.marks.entries()[j] == mid_marks[j],
            decreases mid_marks.len() - i,
        {
            let m = self.marks.place(i);
            if m == at {
                self.marks.set_place(i, end);
            }
            i = i + 1;
        }
        proof {
            let g = |m: Mark| if m == at { end } else { m };
            assert(self.marks.entries() =~= map_entries(mid_marks, g));
            lemma_table_map_entries(mid_marks, g);
            assert(at.row < self.lines@.len());
            assert(self.lines.len() == self.lines@.len());
            assert(at.row < usize::MAX);
            assert forall|m: Mark| #[trigger] mark_after_insert(m, at, ps) == at implies m == at by {
                if m.row == at.row && m.col > at.col {
                    if ps.len() == 1 {
                        assert(mark_after_insert(m, at, ps).col > at.col);
                    } else {
                        assert(mark_after_insert(m, at, ps).row > at.row);
                    }
                } else if m.row > at.row {
                    assert(mark_after_insert(m, at, ps).row > at.row);
                }
            }
            assert(self.marks() =~= old(self).marks().map_values(
                |m: Mark| mark_after_insert_char(m, at, ch),
            ));
        }
        Ok(())
    }

    /// Deletes the character at row `row`, column `col`; marks after it on its line move back
    /// one column. Fails, changing nothing, where there is no character there.
    pub fn remove_char(&mut self, row: usize, col: usize) -> (r: Result<(), Error>)
        ensures
            final(self).file_path() == old(self).file_path(),
            r is Ok <==> row < old(self).text().len() && col < old(self).text()[row as int].len(),
            r is Ok ==> final(self).text() == removed_lines(
                old(self).text(),
                Mark { row, col },
                Mark { row, col: (col + 1) as usize },
            ),
            r is Ok ==> final(self).marks() == old(self).marks().map_values(
                |m: Mark| mark_after_remove(m, Mark { row, col }, Mark { row, col: (col + 1) as usize }),
            ),
            r is Err ==> r == Err::<(), Error>(Error::OutOfBounds),
            r is Err ==> final(self).text() == old(self).text() && final(self).marks() == old(
                self,
            ).marks(),
    {
        if row >= self.line_count() || col >= self.line_len(row) {
            return Err(Error::OutOfBounds);
        }
        self.remove(Mark { row, col }, Mark { row, col: col + 1 })
    }

    /// Joins row `row` to the end of the row above; marks on it keep their place in its text.
    /// Row 0 has nothing above it and is left as it is. Fails, changing nothing, where there is
    /// no row `row`.
    pub fn join_above(&mut self, row: usize) -> (r: Result<(), Error>)
        ensures
            final(self).file_path() == old(self).file_path(),
            r is Ok <==> row < old(self).text().len(),
            r is Ok && row == 0 ==> *final(self) == *old(self),
            r is Ok && row > 0 ==> final(self).text() == removed_lines(
                old(self).text(),
                Mark { row: (row - 1) as usize, col: old(self).text()[row - 1].len() as usize },
                Mark { row, col: 0 },
            ),
            r is Ok && row > 0 ==> final(self).marks() == old(self).marks().map_values(
                |m: Mark|
                    mark_after_remove(
                        m,
                        Mark { row: (row - 1) as usize, col: old(self).text()[row - 1].len() as usize },
                        Mark { row, col: 0 },
                    ),
            ),
            r is Err ==> r == Err::<(), Error>(Error::OutOfBounds),
            r is Err ==> *final(self) == *old(self),
    {
        if row >= self.line_count() {
            return Err(Error::OutOfBounds);
        }
        if row == 0 {
            return Ok(());
        }
        let len = self.line_len(row - 1);
        self.remove(Mark { row: row - 1, col: len }, Mark { row, col: 0 })
    }

    /// Puts an empty line in before row `row` (after the last line where `row` is the number of
    /// lines); marks from that row on move down one row. Fails, changing nothing, where `row` is
    /// beyond that.
    pub fn insert_line(&mut self, row: usize) -> (r: Result<(), Error>)
        ensures
            final(self).file_path() == old(self).file_path(),
            r is Ok <==> row <= old(self).text().len(),
            r is Ok ==> final(self).text() == old(self).text().insert(row as int, Seq::<char>::empty()),
            r is Ok ==> final(self).marks() == old(self).marks().map_values(
                |m: Mark| mark_after_insert_line(m, row),
            ),
            r is Err ==> r == Err::<(), Error>(Error::OutOfBounds),
            r is Err ==> *final(self) == *old(self),
    {
        proof {
            use_type_invariant(&*self);
        }
        if row > self.lines.len() {
            return Err(Error::OutOfBounds);
        }
        let ghost old_text = self.text();
        // The lines are edited outside `self`, which must hold a line at every moment.
        let mut lines: Vec<String> = Vec::new();
        lines.push(String::new());
        std::mem::swap(&mut lines, &mut self.lines);
        lines.insert(row, String::new());
        proof {
            assert(view_lines(lines@) =~= old_text.insert(row as int, Seq::<char>::empty()));
        }
        self.lines = lines;
        let ghost old_marks = self.marks.entries();
        let mut i: usize = 0;
        while i < self.marks.len()
            invariant
                self.lines@.len() >= 1,
                lines_without_breaks(self.text()),
                self.file_path() == old(self).file_path(),
                self.text() == old_text.insert(row as int, Seq::<char>::empty()),
                self.marks.entries().len() == old_marks.len(),
                i <= old_marks.len(),
                forall|j: int|
                    0 <= j < i ==> self.marks.entries()[j] == (
                        old_marks[j].0,
                        mark_after_insert_line(old_marks[j].1, row),
                    ),
                forall|j: int| i <= j < old_marks.len() ==> self.marks.entries()[j] == old_marks[j],
            decreases old_marks.len() - i,
        {
            let m = self.marks.place(i);
            if m.row >= row {
                self.marks.set_place(i, Mark { row: m.row.saturating_add(1), col: m.col });
            }
            i = i + 1;
        }
        proof {
            let f = |m: Mark| mark_after_insert_line(m, row);
            assert(self.marks.entries() =~= map_entries(old_marks, f));
            lemma_table_map_entries(old_marks, f);
        }
        Ok(())
    }

    /// Deletes row `row`; marks below it move up one row. The only line of the buffer is
    /// emptied instead. Fails, changing nothing, where there is no row `row`.
    pub fn remove_line(&mut self, row: usize) -> (r: Result<(), Error>)
        ensures
            final(self).file_path() == old(self).file_path(),
            r is Ok <==> row < old(self).text().len(),
            r is Ok ==> final(self).text() == lines_without_row(old(self).text(), row as int),
            r is Ok ==> final(self).marks() == old(self).marks().map_values(
                |m: Mark| mark_after_remove_line(m, row),
            ),
            r is Err ==> r == Err::<(), Error>(Error::OutOfBounds),
            r is Err ==> *final(self) == *old(self),
    {
        proof {
            use_type_invariant(&*self);
        }
        if row >= self.lines.len() {
            return Err(Error::OutOfBounds);
        }
        let ghost old_text = self.text();
        // The lines are edited outside `self`, which must hold a line at every moment.
        let mut lines: Vec<String> = Vec::new();
        lines.push(String::new());
        std::mem::swap(&mut lines, &mut self.lines);
        if lines.len() == 1 {
            lines.set(0, String::new());
        } else {
            lines.remove(row);
        }
        proof {
            assert(view_lines(lines@) =~= lines_without_row(old_text, row as int));
        }
        self.lines = lines;
        let ghost old_marks = self.marks.entries();
        let mut i: usize = 0;
        while i < self.marks.len()
            invariant
                self.lines@.len() >= 1,
                lines_without_breaks(self.text()),
                self.file_path() == old(self).file_path(),
                self.text() == lines_without_row(old_text, row as int),
                self.marks.entries().len() == old_marks.len(),
                i <= old_marks.len(),
                forall|j: int|
                    0 <= j < i ==> self.marks.entries()[j] == (
                        old_marks[j].0,
                        mark_after_remove_line(old_marks[j].1, row),
                    ),
                forall|j: int| i <= j < old_marks.len() ==> self.marks.entries()[j] == old_marks[j],
            decreases old_marks.len() - i,
        {
            let m = self.marks.place(i);
            if m.row > row {
                self.marks.set_place(i, Mark { row: m.row - 1, col: m.col });
            }
            i = i + 1;
        }
        proof {
            let f = |m: Mark| mark_after_remove_line(m, row);
            assert(self.marks.entries() =~= map_entries(old_marks, f));
            lemma_table_map_entries(old_marks, f);
        }
        Ok(())
    }

    /// Where the entry for `key` stands in the table, if it has one.
    fn find_mark(&self, key: usize) -> (r: Option<usize>)
        ensures
            r is None ==> !self.marks().contains_key(key),
            r is None ==> forall|j: int| 0 <= j < self.marks.entries().len() ==> (#[trigger] self.marks.entries()[j]).0 != key,
            r matches Some(i) ==> {
                &&& i < self.marks.entries().len()
                &&& self.marks.entries()[i as int].0 == key
                &&& forall|j: int| i < j < self.marks.entries().len() ==> (#[trigger] self.marks.entries()[j]).0 != key
            },
    {
        let mut i = self.marks.len();
        while i > 0
            invariant
                i <= self.marks.entries().len(),
                forall|j: int| i <= j < self.marks.entries().len() ==> (#[trigger] self.marks.entries()[j]).0 != key,
            decreases i,
        {
            i = i - 1;
            if self.marks.key(i) == key {
                return Some(i);
            }
        }
        proof {
            lemma_table_absent(self.marks.entries(), key);
        }
        None
    }

    /// Puts the mark `key` at `mark`.
    pub fn set_mark(&mut self, key: usize, mark: Mark)
        ensures
            final(self).file_path() == old(self).file_path(),
            final(self).text() == old(self).text(),
            final(self).marks() == old(self).marks().insert(key, mark),
    {
        proof {
            use_type_invariant(&*self);
        }
        match self.find_mark(key) {
            Some(i) => {
                proof {
                    lemma_table_update(self.marks.entries(), i as int, mark);
                }
                self.marks.set_place(i, mark);
            },
            None => {
                // Growing the table may unwind, so it grows outside `self`.
                let mut marks = MarkTable::new();
                std::mem::swap(&mut marks, &mut self.marks);
                marks.push(key, mark);
                self.marks = marks;
                proof {
                    assert(self.marks.entries().drop_last() =~= old(self).marks.entries());
                }
            },
        }
    }

    /// The mark `key`; a key never set reads as the start of the buffer.
    pub fn get_mark(&self, key: usize) -> (r: Mark)
        ensures
            r == mark_or_start(self.marks(), key),
    {
        match self.find_mark(key) {
            Some(i) => {
                proof {
                    lemma_table_find(self.marks.entries(), i as int);
                }
                self.marks.place(i)
            },
            None => Mark { row: 0, col: 0 },
        }
    }

    /// Moves the mark `key` by `drow` rows and `dcol` columns, as `move_cursor` does: the row
    /// stays within the lines, and the column is held to its line only when `dcol` is not 0.
    /// A key never set starts from the start of the buffer.
    pub fn move_mark(&mut self, key: usize, drow: i64, dcol: i64)
        ensures
            final(self).file_path() == old(self).file_path(),
            final(self).text() == old(self).text(),
            final(self).marks() == old(self).marks().insert(
                key,
                cursor_after_move(old(self).text(), mark_or_start(old(self).marks(), key), drow as int, dcol as int),
            ),
            final(self).marks()[key].row < final(self).text().len(),
            dcol != 0 ==> final(self).marks()[key].col <= final(self).text()[final(self).marks()[key].row as int].len(),
    {
        self.move_cursor(key, drow, dcol)
    }
}

/// `m` pulled back into `lines`: onto the last line if it lies below it, and to the end of its
/// line if it lies beyond it.
pub open spec fn clamped(lines: Seq<Seq<char>>, m: Mark) -> Mark {
    let row = if m.row >= lines.len() {
        (lines.len() - 1) as usize
    } else {
        m.row
    };
    let len = lines[row as int].len();
    Mark { row, col: if m.col > len { len as usize } else { m.col } }
}

/// Where a backspace at `at` starts taking out text: the character before `at`, or, at the start
/// of a line, the line break before it.
pub open spec fn backspace_start(lines: Seq<Seq<char>>, at: Mark) -> Mark {
    if at.col > 0 {
        Mark { row: at.row, col: (at.col - 1) as usize }
    } else {
        Mark { row: (at.row - 1) as usize, col: lines[at.row - 1].len() as usize }
    }
}

/// Where a mark at `m` goes when a character is put in at `at`: as for `mark_after_insert`,
/// except that a mark at `at` itself moves past the new character.
pub open spec fn mark_after_insert_char(m: Mark, at: Mark, ch: char) -> Mark {
    if m == at {
        insert_end(at, split_lines(seq![ch]))
    } else {
        mark_after_insert(m, at, split_lines(seq![ch]))
    }
}

/// Where a mark at `m` goes when an empty line is put in before row `row`: marks from that row
/// on move down one row.
pub open spec fn mark_after_insert_line(m: Mark, row: usize) -> Mark {
    if m.row >= row {
        Mark { row: fit(m.row + 1), col: m.col }
    } else {
        m
    }
}

/// Where a mark at `m` goes when row `row` is deleted: marks below it move up one row.
pub open spec fn mark_after_remove_line(m: Mark, row: usize) -> Mark {
    if m.row > row {
        Mark { row: (m.row - 1) as usize, col: m.col }
    } else {
        m
    }
}

/// The lines after row `row` is deleted; the only line of a text is emptied instead.
pub open spec fn lines_without_row(lines: Seq<Seq<char>>, row: int) -> Seq<Seq<char>> {
    if lines.len() == 1 {
        seq![Seq::<char>::empty()]
    } else {
        lines.remove(row)
    }
}

/// `x` held to the range from `lo` to `hi`.
pub open spec fn clamp(x: int, lo: int, hi: int) -> int {
    if x < lo {
        lo
    } else if x > hi {
        hi
    } else {
        x
    }
}

/// Where a cursor at `m` lands when moved by `drow` rows and `dcol` columns in `lines`: the row
/// stays within the lines; the column is held to its line only when `dcol` is not 0.
pub open spec fn cursor_after_move(lines: Seq<Seq<char>>, m: Mark, drow: int, dcol: int) -> Mark {
    let row = clamp(m.row + drow, 0, lines.len() - 1);
    let col = if dcol == 0 {
        m.col as int
    } else {
        clamp(m.col + dcol, 0, lines[row].len() as int)
    };
    Mark { row: fit(row), col: fit(col) }
}

/// The mark `key` of `marks`, or the start of the buffer where it has none.
pub open spec fn mark_or_start(marks: Map<usize, Mark>, key: usize) -> Mark {
    if marks.contains_key(key) {
        marks[key]
    } else {
        Mark { row: 0, col: 0 }
    }
}

} // verus!
