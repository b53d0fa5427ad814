use vstd::prelude::*;

use crate::buffer::Buffer;

verus! {

/// The number of filled slots.
pub open spec fn filled_count(slots: Seq<Option<Buffer>>) -> nat
    decreases slots.len(),
{
    if slots.len() == 0 {
        0
    } else {
        filled_count(slots.drop_last()) + if slots.last() is Some {
            1nat
        } else {
            0nat
        }
    }
}

/// The buffers of the filled slots, in order.
pub open spec fn filled(slots: Seq<Option<Buffer>>) -> Seq<Buffer>
    decreases slots.len(),
{
    if slots.len() == 0 {
        Seq::empty()
    } else {
        let init = filled(slots.drop_last());
        match slots.last() {
            Some(b) => init.push(b),
            None => init,
        }
    }
}

/// The open buffers, each in a slot whose number stays fixed; a closed buffer leaves its slot
/// empty.
pub struct BufferList {
    buffers: Vec<Option<Buffer>>,
}

impl BufferList {
    /// The slots.
    pub closed spec fn slots(&self) -> Seq<Option<Buffer>> {
        self.buffers@
    }

    /// No slots.
    pub fn new() -> (r: BufferList)
        ensures
            r.slots() == Seq::<Option<Buffer>>::empty(),
    {
        BufferList { buffers: Vec::new() }
    }

    /// One filled slot for each of `bufs`, in order.
    pub fn from_bufs(bufs: Vec<Buffer>) -> (r: BufferList)
        ensures
            r.slots() == bufs@.map_values(|b: Buffer| Some(b)),
    {
        let mut bufs = bufs;
        let ghost all = bufs@;
        let mut rev: Vec<Option<Buffer>> = Vec::new();
        while bufs.len() > 0
            invariant
                bufs@.len() + rev@.len() == all.len(),
                bufs@ == all.subrange(0, bufs@.len() as int),
                forall|j: int|
                    0 <= j < rev@.len() ==> #[trigger] rev@[j] == Some(all[all.len() - 1 - j]),
            decreases bufs@.len(),
        {
            let b = bufs.pop().unwrap();
            rev.push(Some(b));
        }
        let mut buffers: Vec<Option<Buffer>> = Vec::new();
        while rev.len() > 0
            invariant
                buffers@.len() + rev@.len() == all.len(),
                forall|j: int|
                    0 <= j < rev@.len() ==> #[trigger] rev@[j] == Some(all[all.len() - 1 - j]),
                forall|j: int| 0 <= j < buffers@.len() ==> #[trigger] buffers@[j] == Some(all[j]),
            decreases rev@.len(),
        {
            let b = rev.pop().unwrap();
            buffers.push(b);
        }
        proof {
            assert(buffers@ =~= all.map_values(|b: Buffer| Some(b)));
        }
        BufferList { buffers }
    }

    /// How many slots are filled.
    pub fn num_bufs(&self) -> (r: usize)
        ensures
            r == filled_count(self.slots()),
    {
        let mut count: usize = 0;
        let mut i: usize = 0;
        while i < self.buffers.len()
            invariant
                i <= self.buffers@.len(),
                count == filled_count(self.buffers@.subrange(0, i as int)),
                count <= i,
            decreases self.buffers@.len() - i,
        {
            proof {
                assert(self.buffers@.subrange(0, i + 1).drop_last() =~= self.buffers@.subrange(
                    0,
                    i as int,
                ));
            }
            if self.buffers[i].is_some() {
                count = count + 1;
            }
            i = i + 1;
        }
        proof {
            assert(self.buffers@.subrange(0, i as int) =~= self.buffers@);
        }
        count
    }

    /// Puts `buf` in a new slot at the end and returns that slot's number.
    pub fn add_buf(&mut self, buf: Buffer) -> (r: usize)
        requires
            old(self).slots().len() < usize::MAX,
        ensures
            r == old(self).slots().len(),
            final(self).slots() == old(self).slots().push(Some(buf)),
    {
        self.buffers.push(Some(buf));
        self.buffers.len() - 1
    }

    /// The buffer in slot `idx`, if the slot exists and is filled.
    pub fn get_buf(&self, idx: usize) -> (r: Option<&Buffer>)
        ensures
            r is Some <==> idx < self.slots().len() && self.slots()[idx as int] is Some,
            r matches Some(b) ==> *b == self.slots()[idx as int]->Some_0,
    {
        if idx < self.buffers.len() {
            match &self.buffers[idx] {
                Some(b) => Some(b),
                None => None,
            }
        } else {
            None
        }
    }

    /// The buffer in slot `idx`, to change in place, if the slot exists and is filled.
    pub fn get_buf_mut(&mut self, idx: usize) -> (r: Option<&mut Buffer>)
        ensures
            r is Some <==> idx < old(self).slots().len() && old(self).slots()[idx as int] is Some,
            r matches Some(b) ==> *b == old(self).slots()[idx as int]->Some_0 && final(self).slots()
                == old(self).slots().update(idx as int, Some(*final(b))),
            r is None ==> final(self).slots() == old(self).slots(),
        no_unwind
    {
        if idx < self.buffers.len() {
            match &mut self.buffers[idx] {
                Some(b) => Some(b),
                None => None,
            }
        } else {
            None
        }
    }

    /// Empties slot `idx`; a slot number past the end changes nothing.
    pub fn remove(&mut self, idx: usize)
        ensures
            final(self).slots() == if idx < old(self).slots().len() {
                old(self).slots().update(idx as int, None)
            } else {
                old(self).slots()
            },
    {
        if idx < self.buffers.len() {
            self.buffers.set(idx, None);
        }
    }

    /// The buffers of the filled slots, in order.
    pub fn iter(&self) -> (r: Vec<&Buffer>)
        ensures
            r@.map_values(|b: &Buffer| *b) == filled(self.slots()),
    {
        let mut r: Vec<&Buffer> = Vec::new();
        let mut i: usize = 0;
        while i < self.buffers.len()
            invariant
                i <= self.buffers@.len(),
                r@.map_values(|b: &Buffer| *b) == filled(self.buffers@.subrange(0, i as int)),
            decreases self.buffers@.len() - i,
        {
            proof {
                assert(self.buffers@.subrange(0, i + 1).drop_last() =~= self.buffers@.subrange(
                    0,
                    i as int,
                ));
            }
            let ghost before = r@;
            match &self.buffers[i] {
                Some(b) => {
                    r.push(b);
                    proof {
                        assert(r@.map_values(|b: &Buffer| *b) =~= before.map_values(
                            |b: &Buffer| *b,
                        ).push(*b));
                    }
                },
                None => {},
            }
            i = i + 1;
        }
        proof {
            assert(self.buffers@.subrange(0, i as int) =~= self.buffers@);
        }
        r
    }

    /// The numbers of the filled slots, in order.
    pub fn indices(&self) -> (r: Vec<usize>)
        ensures
            forall|j: int| 0 <= j < r@.len() ==> #[trigger] r@[j] < self.slots().len() && self.slots()[r@[j] as int] is Some,
            forall|j: int, l: int| 0 <= j < l < r@.len() ==> r@[j] < r@[l],
            forall|i: int| 0 <= i < self.slots().len() && self.slots()[i] is Some ==> r@.contains(i as usize),
    {
        let mut r: Vec<usize> = Vec::new();
        let mut i: usize = 0;
        while i < self.buffers.len()
            invariant
                i <= self.buffers@.len(),
                forall|j: int| 0 <= j < r@.len() ==> #[trigger] r@[j] < i && self.buffers@[r@[j] as int] is Some,
                forall|j: int, l: int| 0 <= j < l < r@.len() ==> r@[j] < r@[l],
                forall|k: int| 0 <= k < i && self.buffers@[k] is Some ==> r@.contains(k as usize),
            decreases self.buffers@.len() - i,
        {
            if self.buffers[i].is_some() {
                let ghost before = r@;
                r.push(i);
                proof {
                    assert forall|k: int| 0 <= k < i && self.buffers@[k] is Some implies r@.contains(k as usize) by {
                        let w = choose|w: int| 0 <= w < before.len() && before[w] == k as usize;
                        assert(r@[w] == k as usize);
                    }
                    assert(r@[r@.len() - 1] == i);
                }
            }
            i = i + 1;
        }
        r
    }
}

} // verus!
