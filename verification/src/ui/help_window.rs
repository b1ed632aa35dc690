//! The help window: open or closed, in one language.

use crate::language::Language;
use vstd::prelude::*;

verus! {

pub struct HelpWindow {
    /// Whether the window is open.
    pub is_open: bool,
    pub language: Language,
}

impl HelpWindow {
    /// Opens the help window.
    pub fn open(&mut self)
        ensures
            final(self).is_open,
            final(self).language == old(self).language,
    {
        self.is_open = true;
    }

    /// Closes the help window.
    pub fn close(&mut self)
        ensures
            !final(self).is_open,
            final(self).language == old(self).language,
    {
        self.is_open = false;
    }

    pub fn set_language(&mut self, language: Language)
        ensures
            final(self).language == language,
            final(self).is_open == old(self).is_open,
    {
        self.language = language;
    }

    /// Opens a closed window and closes an open one.
    pub fn toggle_open_close(&mut self)
        ensures
            final(self).is_open == !old(self).is_open,
            final(self).language == old(self).language,
    {
        self.is_open = !self.is_open;
    }
}

} // verus!
