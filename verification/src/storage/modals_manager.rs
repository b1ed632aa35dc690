//! Which dialog is waiting to be opened, and the values that dialogs edit.

use crate::text::{parse_value, parsed_value};
use std::collections::HashSet;
use vstd::prelude::*;

verus! {

broadcast use vstd::std_specs::hash::group_hash_axioms;

/// The dialog in which a memory cell's value is entered.
pub const RAM_VALUE_MODAL: usize = 1;

/// The dialog in which a component is renamed.
pub const RENAME_COMPONENT_MODAL: usize = 2;

/// The dialog that asks for confirmation.
pub const ARE_YOU_SURE_MODAL: usize = 3;

/// What opening the current dialog comes to.
#[derive(Clone, Copy, Debug, PartialEq, Eq, Structural)]
pub enum ModalOpening {
    /// No dialog is waiting.
    Nothing,
    /// The dialog with this id has to be opened.
    Open(usize),
    /// The waiting dialog is not known: the user is told so.
    Unknown(usize),
}

/// What the dialog manager holds.
pub struct ModalsView {
    /// The ids of the dialogs that exist.
    pub known: Set<usize>,
    /// The dialog that is waiting to be opened.
    pub current: Option<usize>,
    /// The text that the open dialog edits.
    pub text: Seq<char>,
    /// The value that the dialog for a memory cell has read from its text.
    pub value: Option<i32>,
    /// The cell that the dialog for a memory cell edits.
    pub index: Option<usize>,
    /// The memory module that the dialog for a memory cell edits.
    pub ram_id: Option<usize>,
}

impl ModalsView {
    pub open spec fn opening(self) -> ModalOpening {
        match self.current {
            None => ModalOpening::Nothing,
            Some(id) => if self.known.contains(id) {
                ModalOpening::Open(id)
            } else {
                ModalOpening::Unknown(id)
            },
        }
    }
}

pub struct ModalManager {
    known: HashSet<usize>,
    current: Option<usize>,
    text_edit_buffer: String,
    buffer_value_i32: Option<i32>,
    index_buffer: Option<usize>,
    ram_id: Option<usize>,
}

impl View for ModalManager {
    type V = ModalsView;

    closed spec fn view(&self) -> ModalsView {
        ModalsView {
            known: self.known@,
            current: self.current,
            text: self.text_edit_buffer@,
            value: self.buffer_value_i32,
            index: self.index_buffer,
            ram_id: self.ram_id,
        }
    }
}

impl ModalManager {
    /// A manager that knows no dialog and holds nothing.
    pub fn new() -> (m: ModalManager)
        ensures
            m@ == (ModalsView {
                known: Set::empty(),
                current: None,
                text: Seq::empty(),
                value: None,
                index: None,
                ram_id: None,
            }),
    {
        ModalManager {
            known: HashSet::new(),
            current: None,
            text_edit_buffer: String::new(),
            buffer_value_i32: None,
            index_buffer: None,
            ram_id: None,
        }
    }

    /// Makes the dialog `id` known.
    pub fn add_modal(&mut self, id: usize)
        ensures
            final(self)@ == (ModalsView { known: old(self)@.known.insert(id), ..old(self)@ }),
    {
        self.known.insert(id);
    }

    /// Whether a dialog is waiting to be opened.
    pub fn should_display_modal(&self) -> (b: bool)
        ensures
            b == self@.current.is_some(),
    {
        self.current.is_some()
    }

    /// Says which dialog has to be opened now, if any.
    pub fn open_modal(&self) -> (opening: ModalOpening)
        ensures
            opening == self@.opening(),
    {
        match self.current {
            None => ModalOpening::Nothing,
            Some(id) => {
                if self.known.contains(&id) {
                    ModalOpening::Open(id)
                } else {
                    ModalOpening::Unknown(id)
                }
            },
        }
    }

    /// Lets the dialog `id` wait to be opened, if it is known.
    pub fn set_modal(&mut self, id: usize)
        ensures
            final(self)@ == if old(self)@.known.contains(id) {
                ModalsView { current: Some(id), ..old(self)@ }
            } else {
                old(self)@
            },
    {
        if self.known.contains(&id) {
            self.current = Some(id);
        }
    }

    /// Lets no dialog wait.
    pub fn unset_current_modal(&mut self)
        ensures
            final(self)@ == (ModalsView { current: None, ..old(self)@ }),
    {
        self.current = None;
    }

    /// Reads the edited text as a value for a memory cell and keeps what
    /// it stands for. Returns whether it stands for a value, so that it can
    /// be saved.
    pub fn read_text(&mut self) -> (can_save: bool)
        ensures
            can_save == parsed_value(old(self)@.text).is_some(),
            final(self)@ == (ModalsView { value: parsed_value(old(self)@.text), ..old(self)@ }),
    {
        let value = parse_value(self.text_edit_buffer.as_str());
        self.buffer_value_i32 = value;
        value.is_some()
    }

    pub fn get_text(&self) -> (text: String)
        ensures
            text@ == self@.text,
    {
        self.text_edit_buffer.clone()
    }

    pub fn set_text(&mut self, text: String)
        ensures
            final(self)@ == (ModalsView { text: text@, ..old(self)@ }),
    {
        self.text_edit_buffer = text;
    }

    pub fn get_value(&self) -> (value: Option<i32>)
        ensures
            value == self@.value,
    {
        self.buffer_value_i32
    }

    pub fn set_value(&mut self, value: Option<i32>)
        ensures
            final(self)@ == (ModalsView { value, ..old(self)@ }),
    {
        self.buffer_value_i32 = value;
    }

    pub fn get_index(&self) -> (index: Option<usize>)
        ensures
            index == self@.index,
    {
        self.index_buffer
    }

    pub fn set_index(&mut self, index: Option<usize>)
        ensures
            final(self)@ == (ModalsView { index, ..old(self)@ }),
    {
        self.index_buffer = index;
    }

    pub fn get_ram_id(&self) -> (ram_id: Option<usize>)
        ensures
            ram_id == self@.ram_id,
    {
        self.ram_id
    }

    pub fn set_ram_id(&mut self, ram_id: Option<usize>)
        ensures
            final(self)@ == (ModalsView { ram_id, ..old(self)@ }),
    {
        self.ram_id = ram_id;
    }
}

} // verus!
