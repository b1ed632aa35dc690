//! A labelled value that is shown in one of four notations and switches to
//! the next notation when clicked.

use crate::text::{decimal_text, quoted_text, radix_text};
use crate::text::{bits_of, decimal, digits, is_scalar_value, quoted};
use vstd::prelude::*;

verus! {

/// The notation in which a value is shown.
#[derive(Debug, Clone, Copy, PartialEq, Eq, Structural)]
pub enum ValueFormat {
    Dec,
    Bin,
    Hex,
    Unicode,
}

impl Default for ValueFormat {
    fn default() -> (f: ValueFormat)
        ensures
            f == ValueFormat::Dec,
    {
        ValueFormat::Dec
    }
}

impl ValueFormat {
    /// The notation that follows this one when the value is clicked.
    pub open spec fn spec_next(self) -> ValueFormat {
        match self {
            ValueFormat::Dec => ValueFormat::Bin,
            ValueFormat::Bin => ValueFormat::Hex,
            ValueFormat::Hex => ValueFormat::Unicode,
            ValueFormat::Unicode => ValueFormat::Dec,
        }
    }

    #[verifier::when_used_as_spec(spec_next)]
    pub fn next(self) -> (f: ValueFormat)
        ensures
            f == self.spec_next(),
    {
        match self {
            ValueFormat::Dec => ValueFormat::Bin,
            ValueFormat::Bin => ValueFormat::Hex,
            ValueFormat::Hex => ValueFormat::Unicode,
            ValueFormat::Unicode => ValueFormat::Dec,
        }
    }
}

/// Clicking four times brings back the notation one started with, and no
/// fewer clicks do.
pub proof fn lemma_formats_cycle(f: ValueFormat)
    ensures
        f.spec_next().spec_next().spec_next().spec_next() == f,
        f.spec_next() != f,
        f.spec_next().spec_next() != f,
        f.spec_next().spec_next().spec_next() != f,
{
}

/// What an indicator shows for `value`. An indicator writes the binary
/// digits, behind `0b`, in the notation called `Hex`, and the hexadecimal
/// digits, behind `0X`, in the notation called `Bin`. A value that is no
/// character's number is shown as `invalid`.
pub open spec fn indicated(format: ValueFormat, value: i32, invalid: Seq<char>) -> Seq<char> {
    match format {
        ValueFormat::Dec => decimal(value as int),
        ValueFormat::Hex => seq!['0', 'b'] + digits(bits_of(value), 2),
        ValueFormat::Bin => seq!['0', 'X'] + digits(bits_of(value), 16),
        ValueFormat::Unicode => if is_scalar_value(value as int) {
            quoted(value as int)
        } else {
            invalid
        },
    }
}

/// Writes `value` as an indicator shows it.
pub fn indicate(format: ValueFormat, value: i32, invalid: &str) -> (s: String)
    ensures
        s@ == indicated(format, value, invalid@),
{
    match format {
        ValueFormat::Dec => decimal_text(value),
        ValueFormat::Hex => {
            proof {
                reveal_strlit("0b");
                assert("0b"@ =~= seq!['0', 'b']);
            }
            radix_text("0b", value, 2)
        },
        ValueFormat::Bin => {
            proof {
                reveal_strlit("0X");
                assert("0X"@ =~= seq!['0', 'X']);
            }
            radix_text("0X", value, 16)
        },
        ValueFormat::Unicode => match quoted_text(value) {
            Some(s) => s,
            None => String::from_str(invalid),
        },
    }
}

/// What an indicator widget holds.
pub struct IndicatorView {
    pub data: i32,
    pub format: ValueFormat,
    pub label: Seq<char>,
}

pub struct IndicatorWidget {
    data: i32,
    format: ValueFormat,
    label: String,
}

impl View for IndicatorWidget {
    type V = IndicatorView;

    closed spec fn view(&self) -> IndicatorView {
        IndicatorView { data: self.data, format: self.format, label: self.label@ }
    }
}

impl IndicatorWidget {
    /// An indicator that shows zero in decimal under the given label.
    pub fn new(label: String) -> (w: IndicatorWidget)
        ensures
            w@ == (IndicatorView { data: 0, format: ValueFormat::Dec, label: label@ }),
    {
        IndicatorWidget { data: 0, format: ValueFormat::Dec, label }
    }

    /// Sets the value and the label, and hands the indicator back for
    /// what follows.
    pub fn set(&mut self, data: i32, label: &str) -> (same: &mut IndicatorWidget)
        ensures
            same@ == (IndicatorView { data, label: label@, ..old(self)@ }),
            *final(self) == *final(same),
    {
        self.data = data;
        self.label = String::from_str(label);
        self
    }

    /// Sets the value, and hands the indicator back for what follows.
    pub fn set_data(&mut self, data: i32) -> (same: &mut IndicatorWidget)
        ensures
            same@ == (IndicatorView { data, ..old(self)@ }),
            *final(self) == *final(same),
    {
        self.data = data;
        self
    }

    pub fn get_data(&self) -> (data: i32)
        ensures
            data == self@.data,
    {
        self.data
    }

    pub fn get_format(&self) -> (format: ValueFormat)
        ensures
            format == self@.format,
    {
        self.format
    }

    pub fn get_label(&self) -> (label: String)
        ensures
            label@ == self@.label,
    {
        self.label.clone()
    }

    /// The value in the current notation; `invalid` where the notation has
    /// no text for the value.
    pub fn write_in_format(&self, invalid: &str) -> (s: String)
        ensures
            s@ == indicated(self@.format, self@.data, invalid@),
    {
        indicate(self.format, self.data, invalid)
    }

    /// Goes on to the next notation.
    pub fn switch_format(&mut self)
        ensures
            final(self)@ == (IndicatorView { format: old(self)@.format.spec_next(), ..old(self)@ }),
    {
        self.format = self.format.next();
    }
}

} // verus!
