use vstd::prelude::*;

use crate::buffer::{
    backspace_start, clamped, cursor_after_move, inserted_lines, mark_after_insert,
    mark_after_remove, mark_or_start, removed_lines, Buffer,
};
use crate::buffer_list::BufferList;
use crate::commands::{command_marks, command_mode, command_text, Command};
use crate::laws::insert_end;
use crate::marks::Mark;
use crate::pane_manager::PaneManager;
use crate::text::split_lines;

verus! {

/// What keys do: move about, or type text.
#[derive(Clone, Copy, Debug, PartialEq, Eq, Structural)]
pub enum Mode {
    Normal,
    Insert,
}

/// The editor: its buffers, its panes, its mode, and the active pane, whose number is also the
/// key of its cursor in the buffer it shows.
pub struct Application {
    buffer_manager: BufferList,
    pane_manager: PaneManager,
    mode: Mode,
    active_pane: usize,
}

impl Application {
    #[verifier::type_invariant]
    spec fn well_formed(&self) -> bool {
        &&& self.active_pane < self.pane_manager.panes().len()
        &&& self.pane_manager.panes()[self.active_pane as int] matches Some(p) && p.buf_num
            < self.buffer_manager.slots().len() && self.buffer_manager.slots()[p.buf_num as int] is Some
    }

    /// The slot of the buffer that the active pane shows.
    pub closed spec fn active_slot(&self) -> usize {
        self.pane_manager.panes()[self.active_pane as int]->Some_0.buf_num
    }

    /// The buffer that the active pane shows.
    pub closed spec fn active_buf(&self) -> Buffer {
        self.buffer_manager.slots()[self.active_slot() as int]->Some_0
    }

    /// The key of the active cursor among the active buffer's marks.
    pub closed spec fn cursor_key(&self) -> usize {
        self.active_pane
    }

    pub closed spec fn mode(&self) -> Mode {
        self.mode
    }

    /// One empty buffer, shown by one pane covering the screen, in normal mode.
    pub fn new() -> (r: Application)
        ensures
            r.active_buf().text() == seq![Seq::<char>::empty()],
            r.active_buf().marks() == Map::<usize, Mark>::empty(),
            r.mode() == Mode::Normal,
            r.cursor_key() == 0,
    {
        let mut buffer_manager = BufferList::new();
        buffer_manager.add_buf(Buffer::new());
        Application { buffer_manager, pane_manager: PaneManager::new(), mode: Mode::Normal, active_pane: 0 }
    }

    fn active_buf_num(&self) -> (r: usize)
        ensures
            r == self.active_slot(),
    {
        proof {
            use_type_invariant(self);
        }
        self.pane_manager.pane(self.active_pane).unwrap().buf_num
    }

    /// The buffer that the active pane shows.
    pub fn get_active_buf(&self) -> (r: &Buffer)
        ensures
            *r == self.active_buf(),
    {
        proof {
            use_type_invariant(self);
        }
        let i = self.active_buf_num();
        self.buffer_manager.get_buf(i).unwrap()
    }

    /// The buffer that the active pane shows, to change in place.
    pub fn get_active_buf_mut(&mut self) -> (r: &mut Buffer)
        ensures
            *r == old(self).active_buf(),
            final(self).active_buf() == *final(r),
            final(self).active_slot() == old(self).active_slot(),
            final(self).cursor_key() == old(self).cursor_key(),
            final(self).mode() == old(self).mode(),
    {
        proof {
            use_type_invariant(&*self);
        }
        let i = self.active_buf_num();
        self.buffer_manager.get_buf_mut(i).unwrap()
    }

    /// Where the active cursor stands.
    pub fn get_active_mark(&self) -> (r: Mark)
        ensures
            r == mark_or_start(self.active_buf().marks(), self.cursor_key()),
    {
        self.get_active_buf().get_mark(self.active_pane)
    }

    /// The active cursor, to change in place.
    pub fn get_active_mark_mut(&mut self) -> (r: &mut Mark)
        ensures
            *r == mark_or_start(old(self).active_buf().marks(), old(self).cursor_key()),
            final(self).active_buf().text() == old(self).active_buf().text(),
            final(self).active_buf().marks() == old(self).active_buf().marks().insert(
                old(self).cursor_key(),
                *final(r),
            ),
            final(self).cursor_key() == old(self).cursor_key(),
            final(self).mode() == old(self).mode(),
    {
        let key = self.active_pane;
        self.get_active_buf_mut().get_mark_mut(key)
    }

    /// Moves the active cursor by `drow` rows and `dcol` columns, as `Buffer::move_cursor` does.
    pub fn move_cursor(&mut self, drow: i64, dcol: i64)
        ensures
            final(self).active_buf().text() == old(self).active_buf().text(),
            final(self).active_buf().marks() == old(self).active_buf().marks().insert(
                old(self).cursor_key(),
                cursor_after_move(
                    old(self).active_buf().text(),
                    mark_or_start(old(self).active_buf().marks(), old(self).cursor_key()),
                    drow as int,
                    dcol as int,
                ),
            ),
            final(self).cursor_key() == old(self).cursor_key(),
            final(self).mode() == old(self).mode(),
    {
        let key = self.active_pane;
        self.get_active_buf_mut().move_cursor(key, drow, dcol);
    }

    /// Types `s` at the active cursor, first pulled back into the text, and leaves the cursor
    /// at the end of what was typed.
    pub fn insert_at_cursor(&mut self, s: &str)
        ensures
            ({
                let b = old(self).active_buf();
                let key = old(self).cursor_key();
                let at = clamped(b.text(), mark_or_start(b.marks(), key));
                &&& final(self).active_buf().text() == inserted_lines(b.text(), at, split_lines(s@))
                &&& final(self).active_buf().marks() == b.marks().map_values(
                    |m: Mark| mark_after_insert(m, at, split_lines(s@)),
                ).insert(key, insert_end(at, split_lines(s@)))
            }),
            final(self).cursor_key() == old(self).cursor_key(),
            final(self).mode() == old(self).mode(),
    {
        let key = self.active_pane;
        self.get_active_buf_mut().insert_at_mark(key, s);
    }

    /// Takes out the character before the active cursor, first pulled back into the text; at
    /// the start of a line, joins it to the line above. At the start of the text it only pulls
    /// the cursor back.
    pub fn backspace(&mut self)
        ensures
            ({
                let b = old(self).active_buf();
                let key = old(self).cursor_key();
                let at = clamped(b.text(), mark_or_start(b.marks(), key));
                let start = backspace_start(b.text(), at);
                if at.row == 0 && at.col == 0 {
                    &&& final(self).active_buf().text() == b.text()
                    &&& final(self).active_buf().marks() == b.marks().insert(key, at)
                } else {
                    &&& final(self).active_buf().text() == removed_lines(b.text(), start, at)
                    &&& final(self).active_buf().marks() == b.marks().insert(key, at).map_values(
                        |m: Mark| mark_after_remove(m, start, at),
                    )
                }
            }),
            final(self).cursor_key() == old(self).cursor_key(),
            final(self).mode() == old(self).mode(),
    {
        let key = self.active_pane;
        self.get_active_buf_mut().backspace_at_mark(key);
    }

    /// Runs `cmd` with the active cursor: switching modes, or working on the active buffer.
    pub fn apply(&mut self, cmd: Command)
        ensures
            final(self).active_buf().text() == command_text(
                old(self).active_buf().text(),
                old(self).active_buf().marks(),
                old(self).cursor_key(),
                cmd,
            ),
            final(self).active_buf().marks() == command_marks(
                old(self).active_buf().text(),
                old(self).active_buf().marks(),
                old(self).cursor_key(),
                cmd,
            ),
            final(self).mode() == command_mode(old(self).mode(), cmd),
            final(self).cursor_key() == old(self).cursor_key(),
    {
        match cmd {
            Command::SetMode(mode) => self.set_mode(mode),
            _ => {
                let key = self.active_pane;
                self.get_active_buf_mut().run(key, cmd);
            },
        }
    }

    pub fn get_mode(&self) -> (r: Mode)
        ensures
            r == self.mode(),
    {
        self.mode
    }

    pub fn set_mode(&mut self, mode: Mode)
        ensures
            final(self).mode() == mode,
            final(self).active_buf() == old(self).active_buf(),
            final(self).cursor_key() == old(self).cursor_key(),
    {
        proof {
            use_type_invariant(&*self);
        }
        self.mode = mode;
    }
}

} // verus!
