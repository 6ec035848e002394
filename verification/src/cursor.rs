//! The cursor: one authoritative position, moved through capability
//! templates.
//!
//! Every movement clamps or guards against the edges it is given, updates
//! the tracked position first, and then emits the corresponding control
//! sequence; a failed write never leaves the tracked position behind.

use crate::output::write_out;
use crate::output::TermError;
use crate::terminfo::cap_text;
use crate::terminfo::TermInfo;
use vstd::prelude::*;

verus! {

/// The control-sequence templates cursor movement needs, resolved once
/// from the capability store.  A capability the terminal does not
/// describe resolves to the empty string, which emits nothing.
pub struct CursorCommand {
    pub address: String,
    pub up: String,
    pub down: String,
    pub left: String,
    pub right: String,
    pub clear: String,
    pub delete_char: String,
    pub delete_line: String,
}

impl CursorCommand {
    pub fn from_terminfo(terminfo: &TermInfo) -> (r: CursorCommand)
        ensures
            r.address@ == cap_text(terminfo@, "cup"@),
            r.up@ == cap_text(terminfo@, "cuu1"@),
            r.down@ == cap_text(terminfo@, "cud1"@),
            r.left@ == cap_text(terminfo@, "cub1"@),
            r.right@ == cap_text(terminfo@, "cuf1"@),
            r.clear@ == cap_text(terminfo@, "clear"@),
            r.delete_char@ == cap_text(terminfo@, "dch1"@),
            r.delete_line@ == cap_text(terminfo@, "dl1"@),
    {
        CursorCommand {
            address: cap_or_empty(terminfo, "cup"),
            up: cap_or_empty(terminfo, "cuu1"),
            down: cap_or_empty(terminfo, "cud1"),
            left: cap_or_empty(terminfo, "cub1"),
            right: cap_or_empty(terminfo, "cuf1"),
            clear: cap_or_empty(terminfo, "clear"),
            delete_char: cap_or_empty(terminfo, "dch1"),
            delete_line: cap_or_empty(terminfo, "dl1"),
        }
    }
}

/// The named capability's text, or the empty string when it is missing
/// or not valid text.
fn cap_or_empty(terminfo: &TermInfo, name: &str) -> (r: String)
    ensures
        r@ == cap_text(terminfo@, name@),
{
    match terminfo.get_string(name) {
        Some(s) => s,
        None => String::new(),
    }
}

/// The cursor: the tracked position and the movement commands.
pub struct Cursor {
    pub x: usize,
    pub y: usize,
    pub commands: CursorCommand,
}

impl Cursor {
    /// A cursor at the origin, with its commands resolved from the
    /// capability store.
    pub fn new(terminfo: &TermInfo) -> (r: Result<Cursor, TermError>)
        ensures
            r is Ok,
            r.unwrap().x == 0,
            r.unwrap().y == 0,
            r.unwrap().commands.address@ == cap_text(terminfo@, "cup"@),
            r.unwrap().commands.clear@ == cap_text(terminfo@, "clear"@),
    {
        Ok(Cursor { x: 0, y: 0, commands: CursorCommand::from_terminfo(terminfo) })
    }

    /// Home the cursor and emit the clear-screen capability.
    pub fn clear(&mut self) -> (r: Result<(), TermError>)
        requires
            old(self).x < usize::MAX,
            old(self).y < usize::MAX,
        ensures
            final (self).x == 0,
            final (self).y == 0,
            final (self).commands == old(self).commands,
    {
        let e = self.move_to((0, 0));
        let e2 = write_out(self.commands.clear.as_str());
        match e {
            Ok(()) => e2,
            Err(err) => Err(err),
        }
    }

    /// Write text at the current position; the position itself does not
    /// move (the owner advances it through `move_to`).
    pub fn print(&mut self, s: &str) -> (r: Result<(), TermError>)
        ensures
            *final (self) == *old(self),
    {
        write_out(s)
    }

    pub fn get_pos(&self) -> (r: (usize, usize))
        ensures
            r == (self.x, self.y),
    {
        (self.x, self.y)
    }

    /// Move to the given position and emit the cursor-address capability
    /// formatted with it (row first, as the capability takes it).
    pub fn move_to(&mut self, pos: (usize, usize)) -> (r: Result<(), TermError>)
        requires
            pos.0 < usize::MAX,
            pos.1 < usize::MAX,
        ensures
            final (self).x == pos.0,
            final (self).y == pos.1,
            final (self).commands == old(self).commands,
    {
        let (x, y) = pos;
        self.x = x;
        self.y = y;
        let mut args: Vec<usize> = Vec::new();
        args.push(y);
        args.push(x);
        let cmd = TermInfo::format(self.commands.address.as_str(), args.as_slice());
        write_out(cmd.as_str())
    }

    /// One step up, emitted only when the cursor is not already at the
    /// top edge; the tracked position moves only when the step is
    /// emitted.
    pub fn move_up(&mut self) -> (r: Result<(), TermError>)
        ensures
            final (self).x == old(self).x,
            final (self).y == if old(self).y > 0 {
                old(self).y - 1
            } else {
                0
            },
            final (self).commands == old(self).commands,
    {
        if self.y > 0 {
            self.y = self.y - 1;
            write_out(self.commands.up.as_str())
        } else {
            Ok(())
        }
    }

    /// One step down, emitted only below `ylimit`.
    pub fn move_down(&mut self, ylimit: usize) -> (r: Result<(), TermError>)
        ensures
            final (self).x == old(self).x,
            final (self).y == if old(self).y < ylimit {
                old(self).y + 1
            } else {
                old(self).y as int
            },
            final (self).commands == old(self).commands,
    {
        if self.y < ylimit {
            self.y = self.y + 1;
            write_out(self.commands.down.as_str())
        } else {
            Ok(())
        }
    }

    /// One step left, emitted only when not at the left edge.
    pub fn move_left(&mut self) -> (r: Result<(), TermError>)
        ensures
            final (self).y == old(self).y,
            final (self).x == if old(self).x > 0 {
                old(self).x - 1
            } else {
                0
            },
            final (self).commands == old(self).commands,
    {
        if self.x > 0 {
            self.x = self.x - 1;
            write_out(self.commands.left.as_str())
        } else {
            Ok(())
        }
    }

    /// One step right, emitted only below `xlimit`.
    pub fn move_right(&mut self, xlimit: usize) -> (r: Result<(), TermError>)
        ensures
            final (self).y == old(self).y,
            final (self).x == if old(self).x < xlimit {
                old(self).x + 1
            } else {
                old(self).x as int
            },
            final (self).commands == old(self).commands,
    {
        if self.x < xlimit {
            self.x = self.x + 1;
            write_out(self.commands.right.as_str())
        } else {
            Ok(())
        }
    }

    /// Emit the delete-character capability; the position is untouched.
    pub fn delete_char(&mut self) -> (r: Result<(), TermError>)
        ensures
            *final (self) == *old(self),
    {
        write_out(self.commands.delete_char.as_str())
    }

    /// Emit the delete-line capability; the position is untouched.
    pub fn delete_line(&mut self) -> (r: Result<(), TermError>)
        ensures
            *final (self) == *old(self),
    {
        write_out(self.commands.delete_line.as_str())
    }

    /// At the left edge a no-op; otherwise one step left, then delete the
    /// character there.
    pub fn backspace(&mut self) -> (r: Result<(), TermError>)
        ensures
            final (self).y == old(self).y,
            final (self).x == if old(self).x > 0 {
                old(self).x - 1
            } else {
                0
            },
            final (self).commands == old(self).commands,
    {
        if self.x == 0 {
            return Ok(());
        }
        let e = self.move_left();
        let e2 = self.delete_char();
        match e {
            Ok(()) => e2,
            Err(err) => Err(err),
        }
    }

    /// Emit a raw, already formatted command string.
    pub fn write_raw_command(command: &str) -> (r: Result<(), TermError>) {
        write_out(command)
    }

    /// Format a command template with arguments and emit it.
    pub fn write_command_with_args(command: &str, args: &[usize]) -> (r: Result<(), TermError>)
        requires
            forall|i: int| 0 <= i < args@.len() ==> #[trigger] args@[i] < usize::MAX,
    {
        let s = TermInfo::format(command, args);
        write_out(s.as_str())
    }
}

} // verus!
