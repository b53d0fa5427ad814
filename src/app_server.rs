use vstd::prelude::*;

use crate::application::Mode;
use crate::buffer::{mark_or_start, Buffer};
use crate::buffer_list::BufferList;
use crate::commands::{command_marks, command_mode, command_text, Command};
use crate::error::Error;
use crate::tab::Tab;
use crate::text::{push_char, view_lines};
use crate::window::{Window, WindowId, WindowOffset};

verus! {

/// The least time, in milliseconds, between two snapshots handed to the display.
pub const DEFAULT_REFRESH_RATE_MS: u64 = 30;

/// The size of the screen, in rows and columns of characters.
#[derive(Clone, Copy, Debug, PartialEq, Eq, Structural)]
pub struct ScreenSize {
    pub rows: usize,
    pub cols: usize,
}

/// What the display shows: a tab line, then the visible part of the active window, and where
/// the cursor stands relative to the window's top left corner.
#[derive(Debug, PartialEq, Eq)]
pub struct DrawInfo {
    pub lines: Vec<String>,
    pub cpos: (usize, usize),
}

/// A key as the terminal reports it.
#[derive(Clone, Copy, Debug, PartialEq, Eq, Structural)]
pub enum Key {
    Char(char),
    Esc,
    Backspace,
    Enter,
    Space,
    Tab,
    BackTab,
    Up,
    Down,
    Left,
    Right,
}

/// What the editor's loop receives.
#[derive(Clone, Copy, Debug, PartialEq, Eq, Structural)]
pub enum Event {
    KeyPress(Key),
    ResizeUI(ScreenSize),
    Kill,
}

/// What the editor's loop does after an event: stop, or go on, handing the display a new
/// snapshot first where `publish` says so.
#[derive(Clone, Copy, Debug, PartialEq, Eq, Structural)]
pub enum Step {
    Stop,
    Continue { publish: bool },
}

/// The digit `d`, for `d` below 10.
pub open spec fn digit_char(d: nat) -> char {
    seq!['0', '1', '2', '3', '4', '5', '6', '7', '8', '9'][d as int]
}

/// `n` in decimal, without sign or leading zeros.
pub open spec fn decimal(n: nat) -> Seq<char>
    decreases n,
{
    if n < 10 {
        seq![digit_char(n)]
    } else {
        decimal(n / 10).push(digit_char(n % 10))
    }
}

/// The tab line for `n` tabs: `tab0 tab1 ...`, the names parted by single spaces.
pub open spec fn tab_line(n: nat) -> Seq<char>
    decreases n,
{
    if n == 0 {
        Seq::empty()
    } else if n == 1 {
        seq!['t', 'a', 'b'] + decimal(0)
    } else {
        tab_line((n - 1) as nat) + seq![' ', 't', 'a', 'b'] + decimal((n - 1) as nat)
    }
}

/// `line` cut to its first `width` characters.
pub open spec fn clip(line: Seq<char>, width: int) -> Seq<char> {
    if width < line.len() {
        line.subrange(0, width)
    } else {
        line
    }
}

/// How many lines of `lines`, from row `from` on, fit in `rows - 1` screen rows (one row goes to
/// the tab line).
pub open spec fn visible_count(lines: Seq<Seq<char>>, from: int, rows: int) -> int {
    if from >= lines.len() {
        0
    } else if from + rows - 1 < lines.len() {
        rows - 1
    } else {
        lines.len() - from
    }
}

/// What the display shows of `lines` with `n_tabs` tabs, for a window scrolled to `off` with its
/// cursor at `cursor`, on a screen of `size`.
pub open spec fn drawn_lines(
    n_tabs: nat,
    lines: Seq<Seq<char>>,
    off: WindowOffset,
    size: ScreenSize,
) -> Seq<Seq<char>> {
    seq![tab_line(n_tabs)] + Seq::new(
        visible_count(lines, off.row as int, size.rows as int) as nat,
        |j: int| clip(lines[off.row + j], size.cols as int),
    )
}

/// `a - b`, or 0 where `b` is the larger.
pub open spec fn minus_or_zero(a: usize, b: usize) -> usize {
    if a >= b {
        (a - b) as usize
    } else {
        0
    }
}

/// A snapshot is due at `now` when the last one (or the start of the loop, before any) is at
/// least the refresh interval old.
pub open spec fn snapshot_due(last: u64, now: u64) -> bool {
    now >= last && now - last >= DEFAULT_REFRESH_RATE_MS
}

/// Adds `n` in decimal to the end of `s`.
fn push_decimal(s: &mut String, n: usize)
    ensures
        final(s)@ == old(s)@ + decimal(n as nat),
    decreases n,
{
    if n >= 10 {
        push_decimal(s, n / 10);
    }
    let digits = "0123456789";
    proof {
        reveal_strlit("0123456789");
    }
    let d = digits.get_char(n % 10);
    push_char(s, d);
    proof {
        assert(d == digit_char((n % 10) as nat));
        if n >= 10 {
            assert(decimal(n as nat) == decimal((n / 10) as nat).push(digit_char((n % 10) as nat)));
        } else {
            assert(n % 10 == n);
        }
        assert(s@ =~= old(s)@ + decimal(n as nat));
    }
}

/// The state of the editor's loop: its tabs and buffers, its mode, the screen size, and when it
/// last handed the display a snapshot.
pub struct AppServer {
    tabs: Vec<Tab>,
    cur_tab: usize,
    buffers: BufferList,
    mode: Mode,
    screen_size: ScreenSize,
    last_draw_ms: u64,
}

impl AppServer {
    #[verifier::type_invariant]
    spec fn well_formed(&self) -> bool {
        self.cur_tab < self.tabs@.len()
    }

    pub closed spec fn tabs(&self) -> Seq<Tab> {
        self.tabs@
    }

    /// The window that has the focus.
    pub closed spec fn active_window(&self) -> Window {
        self.tabs@[self.cur_tab as int].windows()[self.tabs@[self.cur_tab as int].current() as int]
    }

    pub closed spec fn buffers(&self) -> BufferList {
        self.buffers
    }

    pub closed spec fn mode(&self) -> Mode {
        self.mode
    }

    pub closed spec fn screen_size(&self) -> ScreenSize {
        self.screen_size
    }

    /// When the last snapshot was handed over, or the loop started where none was yet.
    pub closed spec fn last_draw(&self) -> u64 {
        self.last_draw_ms
    }

    /// One tab with one window on one empty buffer, in normal mode, on a screen of
    /// `screen_size`, for a loop that starts at `start_ms`: the first snapshot is due a refresh
    /// interval after that.
    pub fn new(screen_size: ScreenSize, start_ms: u64) -> (r: AppServer)
        ensures
            r.tabs().len() == 1,
            r.active_window().spec_id() == WindowId(0),
            r.active_window().spec_buf() == 0,
            r.active_window().spec_offset() == (WindowOffset { row: 0, col: 0 }),
            r.buffers().slots().len() == 1,
            r.buffers().slots()[0] matches Some(b) && b.text() == seq![Seq::<char>::empty()]
                && b.marks() == Map::<usize, crate::marks::Mark>::empty(),
            r.mode() == Mode::Normal,
            r.screen_size() == screen_size,
            r.last_draw() == start_ms,
    {
        let mut buffers = BufferList::new();
        buffers.add_buf(Buffer::new());
        let mut tabs = Vec::new();
        tabs.push(Tab::new(Window::new(WindowId(0), 0)));
        AppServer { tabs, cur_tab: 0, buffers, mode: Mode::Normal, screen_size, last_draw_ms: start_ms }
    }

    /// The window that has the focus.
    pub fn cur_window(&self) -> (r: &Window)
        ensures
            *r == self.active_window(),
    {
        proof {
            use_type_invariant(self);
        }
        self.tabs[self.cur_tab].cur_window()
    }

    /// The buffer of the window that has the focus, to change in place, if its slot is filled.
    pub fn cur_buffer_mut(&mut self) -> (r: Option<&mut Buffer>)
        ensures
            r is Some <==> old(self).active_window().spec_buf() < old(self).buffers().slots().len()
                && old(self).buffers().slots()[old(self).active_window().spec_buf() as int] is Some,
            r matches Some(b) ==> *b == old(self).buffers().slots()[old(
                self,
            ).active_window().spec_buf() as int]->Some_0 && final(self).buffers().slots() == old(
                self,
            ).buffers().slots().update(old(self).active_window().spec_buf() as int, Some(*final(b))),
            r is None ==> final(self).buffers().slots() == old(self).buffers().slots(),
            final(self).tabs() == old(self).tabs(),
            final(self).mode() == old(self).mode(),
            final(self).screen_size() == old(self).screen_size(),
            final(self).last_draw() == old(self).last_draw(),
    {
        proof {
            use_type_invariant(&*self);
        }
        let buf = self.tabs[self.cur_tab].cur_window().buf();
        self.buffers.get_buf_mut(buf)
    }

    /// What the display shows now: the tab line, then the lines of the focused window's buffer
    /// from the window's first row on, as many as fit below the tab line, each cut to the
    /// screen's width; and the cursor relative to the window (0
    /// where it lies above or to the left of it). Fails where the screen has no rows yet, or
    /// else where the window's buffer slot is empty.
    pub fn make_draw_info(&self) -> (r: Result<DrawInfo, Error>)
        ensures
            self.screen_size().rows == 0 ==> r == Err::<DrawInfo, Error>(Error::ViewportUnknown),
            ({
                let w = self.active_window();
                let slots = self.buffers().slots();
                self.screen_size().rows > 0 ==> if w.spec_buf() < slots.len() && slots[w.spec_buf() as int] is Some {
                    let b = slots[w.spec_buf() as int]->Some_0;
                    let cursor = mark_or_start(b.marks(), w.spec_id().0);
                    let off = w.spec_offset();
                    r matches Ok(d) && view_lines(d.lines@) == drawn_lines(
                        self.tabs().len(),
                        b.text(),
                        off,
                        self.screen_size(),
                    ) && d.cpos == (minus_or_zero(cursor.row, off.row), minus_or_zero(cursor.col, off.col))
                } else {
                    r == Err::<DrawInfo, Error>(Error::OutOfBounds)
                }
            }),
    {
        proof {
            use_type_invariant(self);
        }
        let size = self.screen_size;
        if size.rows == 0 {
            return Err(Error::ViewportUnknown);
        }
        let win = self.cur_window();
        let buf = match win.cur_buffer(&self.buffers) {
            Some(b) => b,
            None => {
                return Err(Error::OutOfBounds);
            },
        };
        let off = *win.window_offset();
        let n_tabs = self.tabs.len();
        let ghost text = buf.text();
        let mut tab_names = String::new();
        let mut i: usize = 0;
        proof {
            reveal_strlit("");
        }
        while i < n_tabs
            invariant
                i <= n_tabs,
                tab_names@ == tab_line(i as nat),
            decreases n_tabs - i,
        {
            proof {
                reveal_strlit(" ");
                reveal_strlit("tab");
            }
            if i > 0 {
                tab_names.append(" ");
            }
            tab_names.append("tab");
            push_decimal(&mut tab_names, i);
            proof {
                if i == 0 {
                    assert(tab_names@ =~= tab_line(1));
                } else {
                    assert(tab_names@ =~= tab_line((i + 1) as nat));
                }
            }
            i = i + 1;
        }
        let mut lines: Vec<String> = Vec::new();
        lines.push(tab_names);
        let n = buf.line_count();
        let from = off.row;
        let count: usize = if from >= n {
            0
        } else if size.rows - 1 < n - from {
            size.rows - 1
        } else {
            n - from
        };
        let ghost expected = drawn_lines(n_tabs as nat, text, off, size);
        let mut j: usize = 0;
        while j < count
            invariant
                text == buf.text(),
                n == text.len(),
                count == visible_count(text, from as int, size.rows as int),
                j <= count,
                off.row == from,
                expected == drawn_lines(n_tabs as nat, text, off, size),
                lines@.len() == j + 1,
                forall|l: int| 0 <= l <= j ==> #[trigger] lines@[l]@ == expected[l],
            decreases count - j,
        {
            let line = buf.get_line(from + j);
            let len = line.unicode_len();
            let end = if size.cols < len {
                size.cols
            } else {
                len
            };
            lines.push(String::from_str(line.substring_char(0, end)));
            j = j + 1;
        }
        proof {
            assert(view_lines(lines@) =~= expected);
        }
        let cursor = buf.get_mark(win.id().0);
        Ok(DrawInfo {
            lines,
            cpos: (cursor.row.saturating_sub(off.row), cursor.col.saturating_sub(off.col)),
        })
    }

    /// Scrolls the focused window to `offset`.
    pub fn set_window_offset(&mut self, offset: WindowOffset)
        ensures
            final(self).active_window().spec_offset() == offset,
            final(self).active_window().spec_id() == old(self).active_window().spec_id(),
            final(self).active_window().spec_buf() == old(self).active_window().spec_buf(),
            final(self).tabs().len() == old(self).tabs().len(),
            final(self).buffers() == old(self).buffers(),
            final(self).mode() == old(self).mode(),
            final(self).screen_size() == old(self).screen_size(),
            final(self).last_draw() == old(self).last_draw(),
    {
        proof {
            use_type_invariant(&*self);
        }
        let cur = self.cur_tab;
        self.tabs[cur].cur_window_mut().set_window_offset(offset);
    }

    /// Runs `cmd` with the focused window's cursor: switching modes, or working on the
    /// window's buffer where its slot is filled.
    pub fn apply(&mut self, cmd: Command)
        ensures
            final(self).mode() == command_mode(old(self).mode(), cmd),
            ({
                let slot = old(self).active_window().spec_buf() as int;
                let key = old(self).active_window().spec_id().0;
                let before = old(self).buffers().slots();
                let after = final(self).buffers().slots();
                &&& after.len() == before.len()
                &&& forall|i: int| 0 <= i < before.len() && i != slot ==> after[i] == before[i]
                &&& 0 <= slot < before.len() ==> match before[slot] {
                    Some(b) => after[slot] matches Some(nb) && nb.text() == command_text(
                        b.text(),
                        b.marks(),
                        key,
                        cmd,
                    ) && nb.marks() == command_marks(b.text(), b.marks(), key, cmd),
                    None => after[slot] is None,
                }
            }),
            final(self).tabs() == old(self).tabs(),
            final(self).screen_size() == old(self).screen_size(),
            final(self).last_draw() == old(self).last_draw(),
    {
        match cmd {
            Command::SetMode(mode) => self.set_mode(mode),
            _ => {
                let key = self.cur_window().id().0;
                match self.cur_buffer_mut() {
                    Some(buf) => buf.run(key, cmd),
                    None => {},
                }
            },
        }
    }

    pub fn get_mode(&self) -> (r: Mode)
        ensures
            r == self.mode(),
    {
        self.mode
    }

    pub fn set_mode(&mut self, mode: Mode)
        ensures
            final(self).mode() == mode,
            final(self).tabs() == old(self).tabs(),
            final(self).buffers() == old(self).buffers(),
            final(self).screen_size() == old(self).screen_size(),
            final(self).last_draw() == old(self).last_draw(),
    {
        proof {
            use_type_invariant(&*self);
        }
        self.mode = mode;
    }

    /// Decides what the loop does after `event`, received at `now_ms`. A `Kill` stops it at once
    /// and changes nothing. Otherwise a new screen size is taken in, and a snapshot is called
    /// for where one is due, the time of it then kept.
    pub fn handle_event(&mut self, event: &Event, now_ms: u64) -> (r: Step)
        ensures
            *event == Event::Kill ==> r == Step::Stop,
            *event == Event::Kill ==> final(self).last_draw() == old(self).last_draw()
                && final(self).screen_size() == old(self).screen_size(),
            *event != Event::Kill ==> r == (Step::Continue {
                publish: snapshot_due(old(self).last_draw(), now_ms),
            }),
            *event != Event::Kill ==> final(self).last_draw() == if snapshot_due(
                old(self).last_draw(),
                now_ms,
            ) {
                now_ms
            } else {
                old(self).last_draw()
            },
            final(self).screen_size() == match *event {
                Event::ResizeUI(size) => size,
                _ => old(self).screen_size(),
            },
            final(self).tabs() == old(self).tabs(),
            final(self).buffers() == old(self).buffers(),
            final(self).mode() == old(self).mode(),
    {
        proof {
            use_type_invariant(&*self);
        }
        match event {
            Event::Kill => {
                return Step::Stop;
            },
            Event::ResizeUI(size) => {
                self.screen_size = *size;
            },
            Event::KeyPress(_) => {},
        }
        let due = now_ms >= self.last_draw_ms && now_ms - self.last_draw_ms
            >= DEFAULT_REFRESH_RATE_MS;
        if due {
            self.last_draw_ms = now_ms;
        }
        Step::Continue { publish: due }
    }
}

} // verus!
