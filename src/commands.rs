use vstd::prelude::*;

use crate::application::Mode;
use crate::buffer::{
    backspace_start, clamped, cursor_after_move, inserted_lines, mark_after_insert,
    mark_after_remove, mark_or_start, removed_lines, Buffer,
};
use crate::laws::insert_end;
use crate::marks::Mark;
use crate::text::{push_char, split_lines};

verus! {

/// The key that leaves insert mode.
pub const ESCAPE: char = '\u{1b}';

/// The key that takes out the character before the cursor.
pub const BACKSPACE: char = '\u{8}';

/// The characters that type themselves in insert mode, in the order they are bound.
pub const TYPED_KEYS: &'static str = "abcdefghijklmnopqrstuvwxyzABCDEFGHIJKLMNOPQRSTUVWXYZ0123456789";

/// What a key does.
#[derive(Clone, Copy, Debug, PartialEq, Eq, Structural)]
pub enum Command {
    /// Moves the cursor by rows and columns, as `Buffer::move_cursor` does.
    MoveCursor(i64, i64),
    /// Switches to a mode.
    SetMode(Mode),
    /// Types a character at the cursor, as `Buffer::insert_at_mark` does.
    Type(char),
    /// Takes out the character before the cursor, as `Buffer::backspace_at_mark` does.
    Backspace,
}

/// The lines after `cmd` runs with the cursor under `key`.
pub open spec fn command_text(lines: Seq<Seq<char>>, marks: Map<usize, Mark>, key: usize, cmd: Command) -> Seq<
    Seq<char>,
> {
    let at = clamped(lines, mark_or_start(marks, key));
    match cmd {
        Command::Type(c) => inserted_lines(lines, at, split_lines(seq![c])),
        Command::Backspace => if at.row == 0 && at.col == 0 {
            lines
        } else {
            removed_lines(lines, backspace_start(lines, at), at)
        },
        _ => lines,
    }
}

/// The marks after `cmd` runs with the cursor under `key`.
pub open spec fn command_marks(lines: Seq<Seq<char>>, marks: Map<usize, Mark>, key: usize, cmd: Command) -> Map<
    usize,
    Mark,
> {
    let at = clamped(lines, mark_or_start(marks, key));
    match cmd {
        Command::MoveCursor(drow, dcol) => marks.insert(
            key,
            cursor_after_move(lines, mark_or_start(marks, key), drow as int, dcol as int),
        ),
        Command::Type(c) => marks.map_values(
            |m: Mark| mark_after_insert(m, at, split_lines(seq![c])),
        ).insert(key, insert_end(at, split_lines(seq![c]))),
        Command::Backspace => if at.row == 0 && at.col == 0 {
            marks.insert(key, at)
        } else {
            marks.insert(key, at).map_values(
                |m: Mark| mark_after_remove(m, backspace_start(lines, at), at),
            )
        },
        Command::SetMode(_) => marks,
    }
}

/// The mode after `cmd` runs in `mode`.
pub open spec fn command_mode(mode: Mode, cmd: Command) -> Mode {
    match cmd {
        Command::SetMode(m) => m,
        _ => mode,
    }
}

/// The keys bound in normal mode: `j`, `k`, `l` and `h` move down, up, right and left, and `i`
/// enters insert mode.
pub open spec fn normal_bindings() -> Seq<(char, Command)> {
    seq![
        ('j', Command::MoveCursor(1, 0)),
        ('k', Command::MoveCursor(-1i64, 0)),
        ('l', Command::MoveCursor(0, 1)),
        ('h', Command::MoveCursor(0, -1i64)),
        ('i', Command::SetMode(Mode::Insert)),
    ]
}

/// Each of the characters of `s` bound to typing itself.
pub open spec fn typing_bindings(s: Seq<char>) -> Seq<(char, Command)>
    decreases s.len(),
{
    if s.len() == 0 {
        Seq::empty()
    } else {
        typing_bindings(s.drop_last()).push((s.last(), Command::Type(s.last())))
    }
}

/// The keys bound in insert mode: each of `TYPED_KEYS` types itself, as does a line break;
/// escape goes back to normal mode, and backspace takes out a character.
pub open spec fn insert_bindings() -> Seq<(char, Command)> {
    typing_bindings(TYPED_KEYS@) + seq![
        ('\n', Command::Type('\n')),
        (ESCAPE, Command::SetMode(Mode::Normal)),
        (BACKSPACE, Command::Backspace),
    ]
}

/// The keys bound by default in `mode`, each with what it does.
pub fn default_bindings(mode: Mode) -> (r: Vec<(char, Command)>)
    ensures
        r@ == match mode {
            Mode::Normal => normal_bindings(),
            Mode::Insert => insert_bindings(),
        },
{
    let mut r: Vec<(char, Command)> = Vec::new();
    match mode {
        Mode::Normal => {
            r.push(('j', Command::MoveCursor(1, 0)));
            r.push(('k', Command::MoveCursor(-1, 0)));
            r.push(('l', Command::MoveCursor(0, 1)));
            r.push(('h', Command::MoveCursor(0, -1)));
            r.push(('i', Command::SetMode(Mode::Insert)));
            proof {
                assert(r@ =~= normal_bindings());
            }
        },
        Mode::Insert => {
            let keys = TYPED_KEYS;
            let n = keys.unicode_len();
            let mut i: usize = 0;
            proof {
                assert(r@ =~= typing_bindings(keys@.subrange(0, 0)));
            }
            while i < n
                invariant
                    n == keys@.len(),
                    keys@ == TYPED_KEYS@,
                    i <= n,
                    r@ == typing_bindings(keys@.subrange(0, i as int)),
                decreases n - i,
            {
                let c = keys.get_char(i);
                r.push((c, Command::Type(c)));
                proof {
                    assert(keys@.subrange(0, i + 1).drop_last() =~= keys@.subrange(0, i as int));
                    assert(r@ =~= typing_bindings(keys@.subrange(0, i + 1)));
                }
                i = i + 1;
            }
            r.push(('\n', Command::Type('\n')));
            r.push((ESCAPE, Command::SetMode(Mode::Normal)));
            r.push((BACKSPACE, Command::Backspace));
            proof {
                assert(keys@.subrange(0, n as int) =~= keys@);
                assert(r@ =~= insert_bindings());
            }
        },
    }
    r
}

impl Buffer {
    /// Runs `cmd` on this buffer with the cursor under `key`; switching modes leaves the buffer
    /// as it is.
    pub fn run(&mut self, key: usize, cmd: Command)
        ensures
            final(self).file_path() == old(self).file_path(),
            final(self).text() == command_text(old(self).text(), old(self).marks(), key, cmd),
            final(self).marks() == command_marks(old(self).text(), old(self).marks(), key, cmd),
    {
        match cmd {
            Command::MoveCursor(drow, dcol) => self.move_cursor(key, drow, dcol),
            Command::SetMode(_) => {},
            Command::Type(c) => {
                let mut s = String::new();
                push_char(&mut s, c);
                proof {
                    assert(s@ =~= seq![c]);
                }
                self.insert_at_mark(key, s.as_str());
            },
            Command::Backspace => self.backspace_at_mark(key),
        }
    }
}

} // verus!
