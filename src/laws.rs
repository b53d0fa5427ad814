use vstd::prelude::*;

use crate::buffer::{
    inserted_lines, lines_without_breaks, mark_after_insert, mark_after_remove, removed_lines,
    valid_pos, valid_range,
};
use crate::marks::{fit, Mark};
use crate::text::{
    join_lines, lemma_split_append_plain, lemma_split_join, lemma_split_lines_shape, no_breaks,
    split_lines,
};

verus! {

/// Where text cut into `pieces` ends once put in at `at`.
pub open spec fn insert_end(at: Mark, pieces: Seq<Seq<char>>) -> Mark {
    let k = pieces.len() - 1;
    if k == 0 {
        Mark { row: at.row, col: fit(at.col + pieces[0].len()) }
    } else {
        Mark { row: fit(at.row + k), col: fit(pieces[k].len() as int) }
    }
}

/// Where `pieces` end once put in at `at` is a position that `usize`s can hold.
pub open spec fn end_fits(at: Mark, pieces: Seq<Seq<char>>) -> bool {
    let k = pieces.len() - 1;
    &&& at.row + k <= usize::MAX
    &&& at.col + pieces[0].len() <= usize::MAX
    &&& pieces[k].len() <= usize::MAX
}

/// Putting `pieces` in at `at` pushes neither its own end nor the mark `m` past the largest
/// `usize`.
pub open spec fn insert_fits(m: Mark, at: Mark, pieces: Seq<Seq<char>>) -> bool {
    let k = pieces.len() - 1;
    &&& end_fits(at, pieces)
    &&& m.row + k <= usize::MAX
    &&& m.col + pieces[0].len() <= usize::MAX
    &&& m.col + pieces[k].len() <= usize::MAX
}

/// The text from `a` up to `b`, cut at its line breaks.
pub open spec fn removed_pieces(lines: Seq<Seq<char>>, a: Mark, b: Mark) -> Seq<Seq<char>> {
    let first = lines[a.row as int];
    if b.row == a.row {
        seq![first.subrange(a.col as int, b.col as int)]
    } else if b.row < lines.len() {
        seq![first.subrange(a.col as int, first.len() as int)] + lines.subrange(
            a.row + 1,
            b.row as int,
        ) + seq![lines[b.row as int].subrange(0, b.col as int)]
    } else {
        seq![first.subrange(a.col as int, first.len() as int)] + lines.subrange(
            a.row + 1,
            lines.len() as int,
        )
    }
}

/// The text from `a` up to `b`.
pub open spec fn removed_text(lines: Seq<Seq<char>>, a: Mark, b: Mark) -> Seq<char> {
    join_lines(removed_pieces(lines, a, b))
}

/// Text without line breaks, put in anywhere, leaves the number of lines as it was.
pub proof fn law_plain_insert_keeps_line_count(lines: Seq<Seq<char>>, at: Mark, s: Seq<char>)
    requires
        valid_pos(lines, at),
        no_breaks(s),
    ensures
        split_lines(s) == seq![s],
        inserted_lines(lines, at, split_lines(s)).len() == lines.len(),
{
    lemma_split_append_plain(Seq::<char>::empty(), s);
    assert(Seq::<char>::empty() + s =~= s);
    assert(split_lines(Seq::<char>::empty()).update(0, Seq::<char>::empty() + s) =~= seq![s]);
}

/// Putting text in at a place and then taking out the range it came to fill gives back the
/// lines, and puts back every mark that the insertion did not push past the largest `usize`.
pub proof fn law_insert_then_remove(
    lines: Seq<Seq<char>>,
    marks: Map<usize, Mark>,
    at: Mark,
    s: Seq<char>,
)
    requires
        valid_pos(lines, at),
        end_fits(at, split_lines(s)),
        forall|key: usize| #[trigger]
            marks.contains_key(key) ==> insert_fits(marks[key], at, split_lines(s)),
    ensures
        valid_range(inserted_lines(lines, at, split_lines(s)), at, insert_end(at, split_lines(s))),
        removed_lines(inserted_lines(lines, at, split_lines(s)), at, insert_end(at, split_lines(s)))
            == lines,
        marks.map_values(|m: Mark| mark_after_insert(m, at, split_lines(s))).map_values(
            |m: Mark| mark_after_remove(m, at, insert_end(at, split_lines(s))),
        ) == marks,
{
    let ps = split_lines(s);
    let b = insert_end(at, ps);
    lemma_split_lines_shape(s);
    assert forall|key: usize| #[trigger] marks.contains_key(key) implies mark_after_remove(
        mark_after_insert(marks[key], at, ps),
        at,
        b,
    ) == marks[key] by {
        lemma_insert_then_remove(lines, at, s, marks[key]);
    }
    lemma_insert_then_remove(lines, at, s, Mark { row: 0, col: 0 });
    assert(marks.map_values(|m: Mark| mark_after_insert(m, at, ps)).map_values(
        |m: Mark| mark_after_remove(m, at, b),
    ) =~= marks);
}

proof fn lemma_insert_then_remove(lines: Seq<Seq<char>>, at: Mark, s: Seq<char>, m: Mark)
    requires
        valid_pos(lines, at),
        end_fits(at, split_lines(s)),
    ensures
        valid_range(inserted_lines(lines, at, split_lines(s)), at, insert_end(at, split_lines(s))),
        removed_lines(inserted_lines(lines, at, split_lines(s)), at, insert_end(at, split_lines(s)))
            == lines,
        insert_fits(m, at, split_lines(s)) ==> mark_after_remove(
            mark_after_insert(m, at, split_lines(s)),
            at,
            insert_end(at, split_lines(s)),
        ) == m,
{
    let ps = split_lines(s);
    lemma_split_lines_shape(s);
    let k = ps.len() - 1;
    let r = at.row as int;
    let c = at.col as int;
    let line = lines[r];
    let head = line.subrange(0, c);
    let tail = line.subrange(c, line.len() as int);
    let after = inserted_lines(lines, at, ps);
    let b = insert_end(at, ps);
    if k == 0 {
        let nl = head + ps[0] + tail;
        assert(after[r] == nl);
        assert(nl.subrange(0, c) =~= head);
        assert(nl.subrange(b.col as int, nl.len() as int) =~= tail);
        assert(head + tail =~= line);
        assert(removed_lines(after, at, b) =~= lines);
    } else {
        let first = head + ps[0];
        let last = ps[k] + tail;
        assert(after.len() == lines.len() + k);
        assert(after[r] == first);
        assert(after[r + k] == last);
        assert(first.subrange(0, c) =~= head);
        assert(last.subrange(b.col as int, last.len() as int) =~= tail);
        assert(head + tail =~= line);
        assert(after.subrange(0, r) =~= lines.subrange(0, r));
        assert(after.subrange(r + k + 1, after.len() as int) =~= lines.subrange(
            r + 1,
            lines.len() as int,
        ));
        assert(removed_lines(after, at, b) =~= lines);
    }
}

/// Taking out the text between two places and putting the same text back in at the first gives
/// back the lines.
pub proof fn law_remove_then_insert(lines: Seq<Seq<char>>, a: Mark, b: Mark)
    requires
        valid_range(lines, a, b),
        lines_without_breaks(lines),
    ensures
        valid_pos(removed_lines(lines, a, b), a),
        inserted_lines(
            removed_lines(lines, a, b),
            a,
            split_lines(removed_text(lines, a, b)),
        ) == lines,
{
    let ps = removed_pieces(lines, a, b);
    let r = a.row as int;
    let first = lines[r];
    assert(no_breaks(first));
    assert forall|j: int| 0 <= j < ps.len() implies no_breaks(#[trigger] ps[j]) by {
        if j == 0 {
            assert(no_breaks(lines[r]));
        } else if b.row < lines.len() && j == ps.len() - 1 {
            assert(no_breaks(lines[b.row as int]));
        } else {
            assert(ps[j] == lines[r + j]);
            assert(no_breaks(lines[r + j]));
        }
    }
    lemma_split_join(ps);
    let gone = removed_lines(lines, a, b);
    let k = ps.len() - 1;
    let head = first.subrange(0, a.col as int);
    assert(gone[r] == head + (if b.row < lines.len() {
        lines[b.row as int].subrange(b.col as int, lines[b.row as int].len() as int)
    } else {
        Seq::<char>::empty()
    }));
    assert(gone[r].subrange(0, a.col as int) =~= head);
    if b.row == a.row {
        let rest = first.subrange(b.col as int, first.len() as int);
        assert(gone[r] == head + rest);
        assert(gone[r].subrange(a.col as int, gone[r].len() as int) =~= rest);
        assert(head + first.subrange(a.col as int, b.col as int) + rest =~= first);
        assert(gone.len() == lines.len());
        assert(inserted_lines(gone, a, ps) =~= lines);
    } else if b.row < lines.len() {
        let lb = lines[b.row as int];
        let n = lines.len() as int;
        assert(k == b.row - r);
        assert(gone[r].subrange(a.col as int, gone[r].len() as int) =~= lb.subrange(
            b.col as int,
            lb.len() as int,
        ));
        assert(lb.subrange(0, b.col as int) + lb.subrange(b.col as int, lb.len() as int) =~= lb);
        assert(head + first.subrange(a.col as int, first.len() as int) =~= first);
        assert(gone.subrange(0, r) =~= lines.subrange(0, r));
        assert(gone.subrange(r + 1, gone.len() as int) =~= lines.subrange(b.row + 1, n));
        assert(ps.subrange(1, k) =~= lines.subrange(r + 1, b.row as int));
        assert(ps[0] == first.subrange(a.col as int, first.len() as int));
        assert(ps[k] == lb.subrange(0, b.col as int));
        assert(lines =~= lines.subrange(0, r) + seq![first] + lines.subrange(r + 1, b.row as int)
            + seq![lb] + lines.subrange(b.row + 1, n));
        assert(inserted_lines(gone, a, ps) =~= lines);
    } else {
        let n = lines.len() as int;
        assert(k == n - 1 - r);
        assert(gone[r].subrange(a.col as int, gone[r].len() as int) =~= Seq::<char>::empty());
        assert(head + first.subrange(a.col as int, first.len() as int) =~= first);
        assert(gone.subrange(0, r) =~= lines.subrange(0, r));
        assert(ps[0] == first.subrange(a.col as int, first.len() as int));
        if k == 0 {
            assert(inserted_lines(gone, a, ps) =~= lines);
        } else {
            assert(gone.subrange(r + 1, gone.len() as int) =~= Seq::<Seq<char>>::empty());
            assert(ps.subrange(1, k) =~= lines.subrange(r + 1, n - 1));
            assert(ps[k] == lines[n - 1]);
            assert(ps[k] + Seq::<char>::empty() =~= lines[n - 1]);
            assert(lines =~= lines.subrange(0, r) + seq![first] + lines.subrange(r + 1, n - 1)
                + seq![lines[n - 1]]);
            assert(inserted_lines(gone, a, ps) =~= lines);
        }
    }
}

} // verus!
