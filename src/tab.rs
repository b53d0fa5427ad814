use vstd::prelude::*;

use crate::window::Window;

verus! {

/// Windows side by side, one of them active.
pub struct Tab {
    windows: Vec<Window>,
    cur_win: usize,
}

impl Tab {
    #[verifier::type_invariant]
    spec fn well_formed(&self) -> bool {
        self.cur_win < self.windows@.len()
    }

    /// The windows, in order.
    pub closed spec fn windows(&self) -> Seq<Window> {
        self.windows@
    }

    /// The position of the active window.
    pub closed spec fn current(&self) -> usize {
        self.cur_win
    }

    /// A tab holding `window` alone.
    pub fn new(window: Window) -> (r: Tab)
        ensures
            r.windows() == seq![window],
            r.current() == 0,
    {
        let mut windows = Vec::new();
        windows.push(window);
        Tab { windows, cur_win: 0 }
    }

    /// The active window.
    pub fn cur_window(&self) -> (r: &Window)
        ensures
            self.current() < self.windows().len(),
            *r == self.windows()[self.current() as int],
    {
        proof {
            use_type_invariant(self);
        }
        &self.windows[self.cur_win]
    }

    /// The active window, to change in place.
    pub fn cur_window_mut(&mut self) -> (r: &mut Window)
        ensures
            old(self).current() < old(self).windows().len(),
            *r == old(self).windows()[old(self).current() as int],
            final(self).current() == old(self).current(),
            final(self).windows() == old(self).windows().update(old(self).current() as int, *final(r)),
        no_unwind
    {
        proof {
            use_type_invariant(&*self);
        }
        &mut self.windows[self.cur_win]
    }
}

} // verus!
