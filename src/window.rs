use vstd::prelude::*;

use crate::buffer::{mark_or_start, Buffer};
use crate::buffer_list::BufferList;
use crate::marks::Mark;

verus! {

/// The first row and column of a buffer that a window shows.
#[derive(Clone, Copy, Debug, PartialEq, Eq, Structural)]
pub struct WindowOffset {
    pub row: usize,
    pub col: usize,
}

/// A window's number; it is also the key of the window's cursor among its buffer's marks.
#[derive(Clone, Copy, Debug, PartialEq, Eq, Structural)]
pub struct WindowId(pub usize);

/// A view on one buffer of a `BufferList`, by slot number, with its own cursor and scroll
/// position.
pub struct Window {
    win_id: WindowId,
    buf: usize,
    win_offset: WindowOffset,
}

impl Window {
    /// The window's number.
    pub closed spec fn spec_id(&self) -> WindowId {
        self.win_id
    }

    /// The slot of the window's buffer.
    pub closed spec fn spec_buf(&self) -> usize {
        self.buf
    }

    /// The window's scroll position.
    pub closed spec fn spec_offset(&self) -> WindowOffset {
        self.win_offset
    }

    /// A window numbered `win_id` on the buffer in slot `buf`, scrolled to the top.
    pub fn new(win_id: WindowId, buf: usize) -> (r: Window)
        ensures
            r.spec_id() == win_id,
            r.spec_buf() == buf,
            r.spec_offset() == (WindowOffset { row: 0, col: 0 }),
    {
        Window { win_id, buf, win_offset: WindowOffset { row: 0, col: 0 } }
    }

    pub fn id(&self) -> (r: WindowId)
        ensures
            r == self.spec_id(),
    {
        self.win_id
    }

    /// The slot of the window's buffer.
    pub fn buf(&self) -> (r: usize)
        ensures
            r == self.spec_buf(),
    {
        self.buf
    }

    /// The window's buffer, if its slot is filled.
    pub fn cur_buffer<'a>(&self, list: &'a BufferList) -> (r: Option<&'a Buffer>)
        ensures
            r is Some <==> self.spec_buf() < list.slots().len() && list.slots()[self.spec_buf() as int] is Some,
            r matches Some(b) ==> *b == list.slots()[self.spec_buf() as int]->Some_0,
    {
        list.get_buf(self.buf)
    }

    /// The window's buffer, to change in place, if its slot is filled.
    pub fn cur_buffer_mut<'a>(&self, list: &'a mut BufferList) -> (r: Option<&'a mut Buffer>)
        ensures
            r is Some <==> self.spec_buf() < old(list).slots().len() && old(list).slots()[self.spec_buf() as int] is Some,
            r matches Some(b) ==> *b == old(list).slots()[self.spec_buf() as int]->Some_0 && final(list).slots()
                == old(list).slots().update(self.spec_buf() as int, Some(*final(b))),
            r is None ==> final(list).slots() == old(list).slots(),
    {
        list.get_buf_mut(self.buf)
    }

    /// Where the window's cursor stands, if its buffer's slot is filled.
    pub fn cursor(&self, list: &BufferList) -> (r: Option<Mark>)
        ensures
            r is Some <==> self.spec_buf() < list.slots().len() && list.slots()[self.spec_buf() as int] is Some,
            r matches Some(m) ==> m == mark_or_start(list.slots()[self.spec_buf() as int]->Some_0.marks(), self.spec_id().0),
    {
        match list.get_buf(self.buf) {
            Some(b) => Some(b.get_mark(self.win_id.0)),
            None => None,
        }
    }

    pub fn window_offset(&self) -> (r: &WindowOffset)
        ensures
            *r == self.spec_offset(),
    {
        &self.win_offset
    }

    pub fn set_window_offset(&mut self, win_offset: WindowOffset)
        ensures
            final(self).spec_offset() == win_offset,
            final(self).spec_id() == old(self).spec_id(),
            final(self).spec_buf() == old(self).spec_buf(),
        no_unwind
    {
        self.win_offset = win_offset;
    }
}

} // verus!
