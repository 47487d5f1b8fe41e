//! The tmux pane that the watchdog drives.

use vstd::prelude::*;

verus! {

/// A tmux target (a pane id such as `%3`, or `session:window.pane`).
pub struct Tmux {
    target: String,
}

impl View for Tmux {
    type V = Seq<char>;

    closed spec fn view(&self) -> Seq<char> {
        self.target@
    }
}

impl Tmux {
    /// The tmux target `target`.
    pub fn new(target: String) -> (t: Tmux)
        ensures
            t@ == target@,
    {
        Tmux { target }
    }

    /// The target, as passed to `tmux -t`.
    pub fn target(&self) -> (r: &str)
        ensures
            r@ == self@,
    {
        self.target.as_str()
    }
}

} // verus!
