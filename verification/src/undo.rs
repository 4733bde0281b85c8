//! The stack of states that undo returns to.
use vstd::prelude::*;

use crate::app::Mode;
use crate::cursor::Cursor;
use crate::document::view_lines;

verus! {

/// A saved state: the lines, the cursor and the mode.
pub type Snapshot = (Vec<String>, Cursor, Mode);

/// The saved state as values: the characters of each line, the cursor, the mode.
pub open spec fn snapshot_view(s: Snapshot) -> (Seq<Seq<char>>, Cursor, Mode) {
    (view_lines(s.0@), s.1, s.2)
}

/// Saved states, the most recent last.
pub struct UndoStack {
    pub entries: Vec<Snapshot>,
}

impl View for UndoStack {
    type V = Seq<(Seq<Seq<char>>, Cursor, Mode)>;

    open spec fn view(&self) -> Seq<(Seq<Seq<char>>, Cursor, Mode)> {
        self.entries@.map_values(|s: Snapshot| snapshot_view(s))
    }
}

impl UndoStack {
    /// An empty stack.
    pub fn new() -> (u: UndoStack)
        ensures
            u@ == Seq::<(Seq<Seq<char>>, Cursor, Mode)>::empty(),
    {
        let u = UndoStack { entries: Vec::new() };
        proof {
            assert(u@ =~= Seq::<(Seq<Seq<char>>, Cursor, Mode)>::empty());
        }
        u
    }

    /// Saves a state on top.
    pub fn push(&mut self, lines: Vec<String>, cursor: Cursor, mode: Mode)
        ensures
            final(self)@ == old(self)@.push((view_lines(lines@), cursor, mode)),
    {
        let ghost before = self.entries@;
        self.entries.push((lines, cursor, mode));
        proof {
            assert(self@ =~= before.map_values(|s: Snapshot| snapshot_view(s)).push(
                (view_lines(lines@), cursor, mode),
            ));
        }
    }

    /// Takes the most recent state off, if there is one.
    pub fn pop(&mut self) -> (r: Option<Snapshot>)
        ensures
            old(self)@.len() == 0 ==> r.is_none() && final(self)@ == old(self)@,
            old(self)@.len() > 0 ==> r.is_some() && snapshot_view(r.unwrap()) == old(
                self,
            )@.last() && final(self)@ == old(self)@.drop_last(),
    {
        let ghost before = self.entries@;
        let r = self.entries.pop();
        proof {
            if before.len() > 0 {
                assert(self@ =~= before.map_values(|s: Snapshot| snapshot_view(s)).drop_last());
            }
        }
        r
    }
}

} // verus!
