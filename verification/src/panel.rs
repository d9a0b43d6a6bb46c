//! The status panel's layout and the message log it shows.

use crate::colors::Color;
use vstd::prelude::*;
use vstd::string::*;

verus! {

/// Width of the health bar, in cells.
pub const BAR_WIDTH: i32 = 20;

/// Height of the status panel, in rows.
pub const PANEL_HEIGHT: i32 = 7;

/// First screen row of the status panel.
pub const PANEL_Y: i32 = 43;

/// Column at which log lines start.
pub const MSG_X: i32 = 22;

/// Width of the log area, in cells.
pub const MSG_WIDTH: i32 = 28;

/// Number of log rows the panel shows.
pub const MSG_HEIGHT: usize = 6;

/// The message log: text and colour of everything the game has said so far,
/// oldest first. The log only grows.
pub struct Messages {
    messages: Vec<(String, Color)>,
}

impl View for Messages {
    type V = Seq<(Seq<char>, Color)>;

    closed spec fn view(&self) -> Seq<(Seq<char>, Color)> {
        Seq::new(self.messages@.len(), |i: int| (self.messages@[i].0@, self.messages@[i].1))
    }
}

impl Messages {
    /// An empty log.
    pub fn new() -> (log: Self)
        ensures
            log@ == Seq::<(Seq<char>, Color)>::empty(),
    {
        let log = Messages { messages: Vec::new() };
        assert(log@ =~= Seq::<(Seq<char>, Color)>::empty());
        log
    }

    /// Appends one entry.
    pub fn add(&mut self, message: &str, color: Color)
        ensures
            final(self)@ == old(self)@.push((message@, color)),
    {
        self.messages.push((String::from_str(message), color));
        assert(self@ =~= old(self)@.push((message@, color)));
    }

    /// Number of entries.
    pub fn len(&self) -> (n: usize)
        ensures
            n == self@.len(),
    {
        self.messages.len()
    }

    /// The entry at `index`, counting from the oldest.
    pub fn get(&self, index: usize) -> (entry: (&str, Color))
        requires
            index < self@.len(),
        ensures
            entry.0@ == self@[index as int].0,
            entry.1 == self@[index as int].1,
    {
        (self.messages[index].0.as_str(), self.messages[index].1)
    }

    /// Walks the entries, oldest first: what the iterator has to hand out is
    /// the whole log, in order.
    pub fn iter(&self) -> (entries: std::slice::Iter<'_, (String, Color)>)
        ensures
            vstd::std_specs::slice::into_iter_elts(entries).len() == self@.len(),
            forall|i: int|
                0 <= i < self@.len() ==> (#[trigger] vstd::std_specs::slice::into_iter_elts(
                    entries,
                )[i]).0@ == self@[i].0 && vstd::std_specs::slice::into_iter_elts(entries)[i].1
                    == self@[i].1,
    {
        broadcast use vstd::std_specs::slice::group_slice_axioms;

        let entries = self.messages.iter();
        proof {
            let handed = vstd::std_specs::slice::into_iter_elts(entries);
            assert(handed =~= self.messages@);
        }
        entries
    }
}

} // verus!
