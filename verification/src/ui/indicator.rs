//! An indicator with a fixed text for values that are no character.

use crate::ui::indicator_widget::{indicate, indicated, IndicatorView, ValueFormat};
use vstd::prelude::*;

verus! {

/// What an indicator shows in the character notation for a value that is no
/// character's number.
pub open spec fn invalid_char_text() -> Seq<char> {
    seq!['I', 'n', 'v', 'a', 'l', 'i', 'd', ' ', 'C', 'h', 'a', 'r']
}

pub struct Indicator {
    data: i32,
    format: ValueFormat,
    label: String,
}

impl View for Indicator {
    type V = IndicatorView;

    closed spec fn view(&self) -> IndicatorView {
        IndicatorView { data: self.data, format: self.format, label: self.label@ }
    }
}

impl Indicator {
    /// An indicator that shows zero in decimal under the given label.
    pub fn new(label: String) -> (w: Indicator)
        ensures
            w@ == (IndicatorView { data: 0, format: ValueFormat::Dec, label: label@ }),
    {
        Indicator { data: 0, format: ValueFormat::Dec, label }
    }

    /// Sets the value and the label, and hands the indicator back for
    /// what follows.
    pub fn set(&mut self, data: i32, label: &str) -> (same: &mut Indicator)
        ensures
            same@ == (IndicatorView { data, label: label@, ..old(self)@ }),
            *final(self) == *final(same),
    {
        self.data = data;
        self.label = String::from_str(label);
        self
    }

    /// Sets the value, and hands the indicator back for what follows.
    pub fn set_data(&mut self, data: i32) -> (same: &mut Indicator)
        ensures
            same@ == (IndicatorView { data, ..old(self)@ }),
            *final(self) == *final(same),
    {
        self.data = data;
        self
    }

    pub fn get_label(&self) -> (label: String)
        ensures
            label@ == self@.label,
    {
        self.label.clone()
    }

    /// The value in the current notation.
    pub fn write_in_format(&self) -> (s: String)
        ensures
            s@ == indicated(self@.format, self@.data, invalid_char_text()),
    {
        proof {
            reveal_strlit("Invalid Char");
            assert("Invalid Char"@ =~= invalid_char_text());
        }
        indicate(self.format, self.data, "Invalid Char")
    }

    /// Goes on to the next notation.
    pub fn switch_format(&mut self)
        ensures
            final(self)@ == (IndicatorView { format: old(self)@.format.spec_next(), ..old(self)@ }),
    {
        self.format = self.format.next();
    }
}

} // verus!
