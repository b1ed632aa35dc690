//! One entry of the list of components: a machine or a memory module with
//! buttons to show or hide, rename and remove it.

use crate::components::machine::VmStatus;
use vstd::prelude::*;

verus! {

/// What the user asked for in the list of components.
#[derive(Clone, Copy, Debug, PartialEq, Eq, Structural)]
pub enum ComponentAction {
    DoNothing,
    ToggleVmVisibility(usize),
    RenameVm(usize),
    RemoveVm(usize),
    ToggleRamVisibility(usize),
    RenameRam(usize),
    RemoveRam(usize),
}

/// The action behind the buttons of an entry. Where more than one button
/// was clicked, removing wins over renaming and renaming over showing or
/// hiding.
pub open spec fn chosen_action(
    id: usize,
    is_vm: bool,
    show_hide: bool,
    rename: bool,
    remove: bool,
) -> ComponentAction {
    if remove {
        if is_vm {
            ComponentAction::RemoveVm(id)
        } else {
            ComponentAction::RemoveRam(id)
        }
    } else if rename {
        if is_vm {
            ComponentAction::RenameVm(id)
        } else {
            ComponentAction::RenameRam(id)
        }
    } else if show_hide {
        if is_vm {
            ComponentAction::ToggleVmVisibility(id)
        } else {
            ComponentAction::ToggleRamVisibility(id)
        }
    } else {
        ComponentAction::DoNothing
    }
}

/// The key of the text that names a status.
pub open spec fn status_key(status: Option<VmStatus>) -> Seq<char> {
    match status {
        Some(VmStatus::Initial) => "sva.vm_status.initial"@,
        Some(VmStatus::Running) => "sva.vm_status.running"@,
        Some(VmStatus::Stopped) => "sva.vm_status.stopped"@,
        Some(VmStatus::Finished) => "sva.vm_status.finished"@,
        None => Seq::empty(),
    }
}

pub struct ComponentListWidget {
    id: usize,
    name: String,
    is_active: bool,
    status: Option<VmStatus>,
    is_vm: bool,
}

impl ComponentListWidget {
    pub closed spec fn id(&self) -> usize {
        self.id
    }

    pub closed spec fn name(&self) -> Seq<char> {
        self.name@
    }

    pub closed spec fn is_active(&self) -> bool {
        self.is_active
    }

    pub closed spec fn status(&self) -> Option<VmStatus> {
        self.status
    }

    pub closed spec fn is_vm(&self) -> bool {
        self.is_vm
    }

    pub fn new(id: usize, name: String, is_active: bool, status: Option<VmStatus>, is_vm: bool) -> (w:
        ComponentListWidget)
        ensures
            w.id() == id,
            w.name() == name@,
            w.is_active() == is_active,
            w.status() == status,
            w.is_vm() == is_vm,
    {
        ComponentListWidget { id, name, is_active, status, is_vm }
    }

    /// The component's name.
    pub fn get_name(&self) -> (name: String)
        ensures
            name@ == self.name(),
    {
        self.name.clone()
    }

    /// The key of the text that names the machine's status; empty for a
    /// memory module, which has none.
    pub fn get_status_text(&self) -> (key: String)
        ensures
            key@ == status_key(self.status()),
    {
        match self.status {
            Some(VmStatus::Initial) => String::from_str("sva.vm_status.initial"),
            Some(VmStatus::Running) => String::from_str("sva.vm_status.running"),
            Some(VmStatus::Stopped) => String::from_str("sva.vm_status.stopped"),
            Some(VmStatus::Finished) => String::from_str("sva.vm_status.finished"),
            None => String::new(),
        }
    }

    /// Whether the first button hides the component: it does when the
    /// component is shown, and shows it otherwise.
    pub fn offers_hide(&self) -> (b: bool)
        ensures
            b == self.is_active(),
    {
        self.is_active
    }

    /// The action behind the buttons that were clicked.
    pub fn show(&self, show_hide: bool, rename: bool, remove: bool) -> (action: ComponentAction)
        ensures
            action == chosen_action(self.id(), self.is_vm(), show_hide, rename, remove),
    {
        let mut action = ComponentAction::DoNothing;
        if show_hide {
            action = if self.is_vm {
                ComponentAction::ToggleVmVisibility(self.id)
            } else {
                ComponentAction::ToggleRamVisibility(self.id)
            };
        }
        if rename {
            action = if self.is_vm {
                ComponentAction::RenameVm(self.id)
            } else {
                ComponentAction::RenameRam(self.id)
            };
        }
        if remove {
            action = if self.is_vm {
                ComponentAction::RemoveVm(self.id)
            } else {
                ComponentAction::RemoveRam(self.id)
            };
        }
        action
    }
}

} // verus!
