//! A window that shows one line of text.

use vstd::prelude::*;

verus! {

pub struct TetsWindow {
    title: String,
}

impl TetsWindow {
    pub closed spec fn title(&self) -> Seq<char> {
        self.title@
    }

    pub fn new() -> (w: TetsWindow)
        ensures
            w.title() == seq!['k', 'o', ' ', 'k', 'o', 't'],
    {
        proof {
            reveal_strlit("ko kot");
            assert("ko kot"@ =~= seq!['k', 'o', ' ', 'k', 'o', 't']);
        }
        TetsWindow { title: String::from_str("ko kot") }
    }

    pub fn change_label(&mut self, new_title: String)
        ensures
            final(self).title() == new_title@,
    {
        self.title = new_title;
    }

    pub fn get_label(&self) -> (label: String)
        ensures
            label@ == self.title(),
    {
        self.title.clone()
    }
}

impl Default for TetsWindow {
    fn default() -> (w: TetsWindow)
        ensures
            w.title() == seq!['k', 'o', 't'],
    {
        proof {
            reveal_strlit("kot");
            assert("kot"@ =~= seq!['k', 'o', 't']);
        }
        TetsWindow { title: String::from_str("kot") }
    }
}

} // verus!
