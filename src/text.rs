use vstd::prelude::*;
use vstd::std_specs::iter::IteratorSpec;

verus! {

/// The contents of a sequence of `String`s.
pub open spec fn view_lines(v: Seq<String>) -> Seq<Seq<char>> {
    v.map_values(|l: String| l@)
}

/// The pieces of `s` between its line breaks: one more piece than `s` holds `'\n'`s.
pub open spec fn split_lines(s: Seq<char>) -> Seq<Seq<char>>
    decreases s.len(),
{
    if s.len() == 0 {
        seq![Seq::<char>::empty()]
    } else {
        let init = split_lines(s.drop_last());
        if s.last() == '\n' {
            init.push(Seq::<char>::empty())
        } else {
            init.update(init.len() - 1, init.last().push(s.last()))
        }
    }
}

/// The lines put back together, with one `'\n'` between neighbours.
pub open spec fn join_lines(lines: Seq<Seq<char>>) -> Seq<char>
    decreases lines.len(),
{
    if lines.len() == 0 {
        Seq::<char>::empty()
    } else if lines.len() == 1 {
        lines[0]
    } else {
        join_lines(lines.drop_last()) + seq!['\n'] + lines.last()
    }
}

/// `s` holds no line break.
pub open spec fn no_breaks(s: Seq<char>) -> bool {
    forall|i: int| 0 <= i < s.len() ==> s[i] != '\n'
}

/// Splitting gives at least one piece, and no piece holds a line break.
pub proof fn lemma_split_lines_shape(s: Seq<char>)
    ensures
        split_lines(s).len() >= 1,
        forall|j: int| 0 <= j < split_lines(s).len() ==> no_breaks(#[trigger] split_lines(s)[j]),
    decreases s.len(),
{
    if s.len() > 0 {
        lemma_split_lines_shape(s.drop_last());
    }
}

/// Text without line breaks added at the end of `a` lengthens its last piece.
pub proof fn lemma_split_append_plain(a: Seq<char>, b: Seq<char>)
    requires
        no_breaks(b),
    ensures
        split_lines(a + b) == split_lines(a).update(
            split_lines(a).len() - 1,
            split_lines(a).last() + b,
        ),
    decreases b.len(),
{
    lemma_split_lines_shape(a);
    if b.len() == 0 {
        assert(a + b =~= a);
        assert(split_lines(a).last() + b =~= split_lines(a).last());
        assert(split_lines(a).update(split_lines(a).len() - 1, split_lines(a).last())
            =~= split_lines(a));
    } else {
        let b0 = b.drop_last();
        assert(no_breaks(b0));
        lemma_split_append_plain(a, b0);
        assert((a + b).drop_last() =~= a + b0);
        assert((a + b).last() == b.last());
        assert(split_lines(a).last() + b0 + seq![b.last()] =~= split_lines(a).last() + b);
        assert((split_lines(a).last() + b0).push(b.last()) =~= split_lines(a).last() + b);
        assert(split_lines(a + b) =~= split_lines(a).update(
            split_lines(a).len() - 1,
            split_lines(a).last() + b,
        ));
    }
}

/// A line break followed by text without breaks adds one piece.
pub proof fn lemma_split_append_line(a: Seq<char>, b: Seq<char>)
    requires
        no_breaks(b),
    ensures
        split_lines(a + seq!['\n'] + b) == split_lines(a).push(b),
{
    let a1 = a + seq!['\n'];
    assert(a1.drop_last() =~= a);
    assert(split_lines(a1) == split_lines(a).push(Seq::<char>::empty()));
    lemma_split_append_plain(a1, b);
    assert(Seq::<char>::empty() + b =~= b);
    assert(split_lines(a1).update(split_lines(a1).len() - 1, split_lines(a1).last() + b)
        =~= split_lines(a).push(b));
}

/// Joining pieces without breaks and splitting the result gives the pieces back.
pub proof fn lemma_split_join(lines: Seq<Seq<char>>)
    requires
        lines.len() >= 1,
        forall|j: int| 0 <= j < lines.len() ==> no_breaks(#[trigger] lines[j]),
    ensures
        split_lines(join_lines(lines)) == lines,
    decreases lines.len(),
{
    if lines.len() == 1 {
        lemma_split_append_plain(Seq::<char>::empty(), lines[0]);
        assert(Seq::<char>::empty() + lines[0] =~= lines[0]);
        assert(split_lines(Seq::<char>::empty()).update(0, Seq::<char>::empty() + lines[0])
            =~= lines);
    } else {
        let init = lines.drop_last();
        assert forall|j: int| 0 <= j < init.len() implies no_breaks(#[trigger] init[j]) by {
            assert(init[j] == lines[j]);
        }
        lemma_split_join(init);
        assert(no_breaks(lines[lines.len() - 1]));
        lemma_split_append_line(join_lines(init), lines.last());
        assert(init.push(lines.last()) =~= lines);
    }
}

/// Relies on `String::push`: the character is added at the end.
#[verifier::external_body]
pub(crate) fn push_char(s: &mut String, c: char)
    ensures
        final(s)@ == old(s)@.push(c),
{
    s.push(c)
}

/// Cuts `s` at every `'\n'`.
pub fn split_into_lines(s: &str) -> (r: Vec<String>)
    ensures
        view_lines(r@) == split_lines(s@),
{
    let mut done: Vec<String> = Vec::new();
    let mut cur = String::new();
    let mut it = s.chars();
    let ghost mut i: int = 0;
    proof {
        assert(s@.subrange(0, 0) =~= Seq::<char>::empty());
        assert(view_lines(done@).push(cur@) =~= seq![Seq::<char>::empty()]);
    }
    loop
        invariant
            0 <= i <= s@.len(),
            it.remaining() == s@.subrange(i, s@.len() as int),
            view_lines(done@).push(cur@) == split_lines(s@.subrange(0, i)),
            it.decrease() is Some,
        decreases it.decrease()->0,
    {
        match it.next() {
            None => {
                assert(s@.subrange(0, i) =~= s@);
                done.push(cur);
                assert(view_lines(done@) =~= split_lines(s@));
                return done;
            },
            Some(c) => {
                assert(c == s@[i]);
                assert(s@.subrange(0, i + 1).drop_last() =~= s@.subrange(0, i));
                if c == '\n' {
                    let ghost old_done = done@;
                    done.push(cur);
                    cur = String::new();
                    assert(view_lines(done@) =~= view_lines(old_done).push(
                        view_lines(done@).last(),
                    ));
                } else {
                    push_char(&mut cur, c);
                }
                proof {
                    i = i + 1;
                    assert(it.remaining() =~= s@.subrange(i, s@.len() as int));
                    assert(view_lines(done@).push(cur@) =~= split_lines(s@.subrange(0, i)));
                }
            },
        }
    }
}

} // verus!
