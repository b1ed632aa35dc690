//! What the workbench holds, what its operations make of it, and what
//! holds of them.
//!
//! A port's link and a connection's member list say the same thing from two
//! ends. Here that agreement is defined, together with the state that each
//! operation of the workbench leads to, and the laws are proved: a click
//! keeps the agreement, rebuilding the links establishes it, rebuilding
//! twice is rebuilding once, and saving followed by loading brings back the
//! same graph.

use crate::components::connection::ConnectionView;
use crate::components::machine::MachineView;
use crate::components::port::{Port, PortRef, RamPort};
use crate::language::Language;
use crate::storage::connections_manager::{
    has_member, ids_below, is_wired, later_id, lemma_member_iff_owner,
    lemma_with_member_owner, lemma_without_member_owner, owner_of, valid, with_member,
    without_id, without_member, RegistryView, FIRST_CONNECTION_ID,
};
use crate::storage::modals_manager::{ARE_YOU_SURE_MODAL, RENAME_COMPONENT_MODAL};
use crate::ui::component_list_widget::ComponentAction;
use crate::ui::ram_window::{RamWidow, RamWidowView};
use crate::ui::sva_window::{SVAWindow, SVAWindowView};
use vstd::prelude::*;

verus! {

/// The machines of a list, each by its view.
pub open spec fn vm_views(vms: Seq<SVAWindow>) -> Seq<SVAWindowView> {
    Seq::new(vms.len(), |k: int| vms[k]@)
}

/// The memory windows of a list, each by its view.
pub open spec fn ram_views(rams: Seq<RamWidow>) -> Seq<RamWidowView> {
    Seq::new(rams.len(), |k: int| rams[k]@)
}

/// Whether a machine of the list has the given id.
pub open spec fn has_vm(vms: Seq<SVAWindowView>, id: usize) -> bool {
    exists|k: int| 0 <= k < vms.len() && (#[trigger] vms[k]).id == id
}

/// Whether a memory module of the list has the given id.
pub open spec fn has_ram(rams: Seq<RamWidowView>, id: usize) -> bool {
    exists|k: int| 0 <= k < rams.len() && (#[trigger] rams[k]).id == id
}

/// Every machine is well formed and no two share an id.
pub open spec fn vms_wf(vms: Seq<SVAWindowView>) -> bool {
    &&& forall|k: int| 0 <= k < vms.len() ==> (#[trigger] vms[k]).wf()
    &&& forall|a: int, b: int|
        0 <= a < vms.len() && 0 <= b < vms.len() && a != b ==> (#[trigger] vms[a]).id != (
        #[trigger] vms[b]).id
}

/// Every memory window is well formed and no two share an id.
pub open spec fn rams_wf(rams: Seq<RamWidowView>) -> bool {
    &&& forall|k: int| 0 <= k < rams.len() ==> (#[trigger] rams[k]).wf()
    &&& forall|a: int, b: int|
        0 <= a < rams.len() && 0 <= b < rams.len() && a != b ==> (#[trigger] rams[a]).id != (
        #[trigger] rams[b]).id
}

/// The machines with every port unlinked.
pub open spec fn vms_unlinked(vms: Seq<SVAWindowView>) -> Seq<SVAWindowView> {
    Seq::new(vms.len(), |k: int| vms[k].unlinked())
}

/// The memory windows with every port unlinked.
pub open spec fn rams_unlinked(rams: Seq<RamWidowView>) -> Seq<RamWidowView> {
    Seq::new(rams.len(), |k: int| rams[k].unlinked())
}

/// The machines with every port linked as the connections say.
pub open spec fn vms_relinked(vms: Seq<SVAWindowView>, conns: Seq<ConnectionView>) -> Seq<
    SVAWindowView,
> {
    Seq::new(vms.len(), |k: int| vms[k].relinked(conns))
}

/// The memory windows with every port linked as the connections say.
pub open spec fn rams_relinked(rams: Seq<RamWidowView>, conns: Seq<ConnectionView>) -> Seq<
    RamWidowView,
> {
    Seq::new(rams.len(), |k: int| rams[k].relinked(conns))
}

/// Whether every port of every machine is linked exactly as the connections
/// say.
pub open spec fn vms_linked_as(vms: Seq<SVAWindowView>, conns: Seq<ConnectionView>) -> bool {
    forall|k: int| 0 <= k < vms.len() ==> (#[trigger] vms[k]).linked_as(conns)
}

/// Whether every port of every memory module is linked exactly as the
/// connections say.
pub open spec fn rams_linked_as(rams: Seq<RamWidowView>, conns: Seq<ConnectionView>) -> bool {
    forall|k: int| 0 <= k < rams.len() ==> (#[trigger] rams[k]).linked_as(conns)
}

/// The position of the machine with the given id, where there is one.
pub open spec fn vm_position(vms: Seq<SVAWindowView>, id: usize) -> int {
    choose|k: int| 0 <= k < vms.len() && (#[trigger] vms[k]).id == id
}

/// The position of the memory module with the given id, where there is one.
pub open spec fn ram_position(rams: Seq<RamWidowView>, id: usize) -> int {
    choose|k: int| 0 <= k < rams.len() && (#[trigger] rams[k]).id == id
}

/// The id that a new machine gets: one more than the largest id in use,
/// zero where none is in use.
pub open spec fn is_next_vm_id(vms: Seq<SVAWindowView>, id: usize) -> bool {
    &&& forall|k: int| 0 <= k < vms.len() ==> (#[trigger] vms[k]).id < id
    &&& (id == 0 || has_vm(vms, (id - 1) as usize))
}

/// The id that a new memory module gets: one more than the largest id in
/// use, zero where none is in use.
pub open spec fn is_next_ram_id(rams: Seq<RamWidowView>, id: usize) -> bool {
    &&& forall|k: int| 0 <= k < rams.len() ==> (#[trigger] rams[k]).id < id
    &&& (id == 0 || has_ram(rams, (id - 1) as usize))
}

/// What a confirmed question was about.
#[derive(Clone, Copy, Debug, PartialEq, Eq, Structural)]
pub enum AreYouSureModalAction {
    DoNothing,
    Clear,
    RemoveVm,
    RemoveRam,
}

/// What has to be asked of the user after a click in the list of
/// components.
#[derive(Clone, Copy, Debug, PartialEq, Eq, Structural)]
pub enum ComponentRequest {
    /// Nothing: the click was dealt with.
    Nothing,
    /// The new name of the component.
    Rename { is_ram: bool, id: usize },
    /// Whether the component is really to be removed.
    ConfirmRemoval { is_ram: bool, id: usize },
}

impl ComponentRequest {
    /// The dialog that asks it, if anything is asked.
    pub open spec fn spec_modal(self) -> Option<usize> {
        match self {
            ComponentRequest::Nothing => None,
            ComponentRequest::Rename { .. } => Some(RENAME_COMPONENT_MODAL),
            ComponentRequest::ConfirmRemoval { .. } => Some(ARE_YOU_SURE_MODAL),
        }
    }

    /// What is done when the user confirms.
    pub open spec fn spec_confirmed_action(self) -> AreYouSureModalAction {
        match self {
            ComponentRequest::ConfirmRemoval { is_ram, .. } => if is_ram {
                AreYouSureModalAction::RemoveRam
            } else {
                AreYouSureModalAction::RemoveVm
            },
            _ => AreYouSureModalAction::DoNothing,
        }
    }

    #[verifier::when_used_as_spec(spec_modal)]
    pub fn modal(self) -> (id: Option<usize>)
        ensures
            id == self.spec_modal(),
    {
        match self {
            ComponentRequest::Nothing => None,
            ComponentRequest::Rename { .. } => Some(RENAME_COMPONENT_MODAL),
            ComponentRequest::ConfirmRemoval { .. } => Some(ARE_YOU_SURE_MODAL),
        }
    }

    #[verifier::when_used_as_spec(spec_confirmed_action)]
    pub fn confirmed_action(self) -> (action: AreYouSureModalAction)
        ensures
            action == self.spec_confirmed_action(),
    {
        match self {
            ComponentRequest::ConfirmRemoval { is_ram, .. } => if is_ram {
                AreYouSureModalAction::RemoveRam
            } else {
                AreYouSureModalAction::RemoveVm
            },
            _ => AreYouSureModalAction::DoNothing,
        }
    }
}

/// What a click in the list of components asks of the user.
pub open spec fn request_for(action: ComponentAction) -> ComponentRequest {
    match action {
        ComponentAction::RenameVm(id) => ComponentRequest::Rename { is_ram: false, id },
        ComponentAction::RenameRam(id) => ComponentRequest::Rename { is_ram: true, id },
        ComponentAction::RemoveVm(id) => ComponentRequest::ConfirmRemoval { is_ram: false, id },
        ComponentAction::RemoveRam(id) => ComponentRequest::ConfirmRemoval { is_ram: true, id },
        _ => ComponentRequest::Nothing,
    }
}

/// What a click on a port came to.
#[derive(Clone, Copy, Debug, PartialEq, Eq, Structural)]
pub enum ClickOutcome {
    /// The port joined the connection under the cursor.
    Connected(usize),
    /// The cursor is active but the port is connected already: nothing
    /// changed, and the user is told so.
    AlreadyConnected,
    /// The port left the connection with this id.
    Disconnected(usize),
    /// Disconnect mode is on but the port is not connected: nothing changed.
    NotConnected,
    /// Neither a cursor nor the disconnect mode is active: nothing changed.
    Idle,
    /// There is no such port: nothing changed.
    NoSuchPort,
}

/// What the workbench holds.
pub struct SvaView {
    pub vms: Seq<SVAWindowView>,
    pub rams: Seq<RamWidowView>,
    pub registry: RegistryView,
    /// The connections as they were when the state was last prepared for
    /// saving.
    pub connections_copy: Seq<ConnectionView>,
    /// The connection names that go with `connections_copy`.
    pub conn_names_copies: Map<usize, Seq<char>>,
    /// The next connection id that goes with `connections_copy`.
    pub next_id_copy: usize,
    /// Whether the registry is set aside at present.
    pub copy_taken: bool,
}

impl SvaView {
    pub open spec fn wf(self) -> bool {
        &&& vms_wf(self.vms)
        &&& rams_wf(self.rams)
        &&& self.registry.wf()
    }

    /// Ports and connections agree: every port of every machine and memory
    /// module is linked to the connection that lists it, and to none where
    /// none lists it.
    pub open spec fn consistent(self) -> bool {
        &&& vms_linked_as(self.vms, self.registry.connections)
        &&& rams_linked_as(self.rams, self.registry.connections)
    }

    /// The port that `port` names, if its component exists and has it.
    pub open spec fn port(self, port: PortRef) -> Option<Port> {
        match port {
            PortRef::Vm { owner_id, index } => {
                let k = vm_position(self.vms, owner_id);
                if has_vm(self.vms, owner_id) && index < self.vms[k].machine.ports.len() {
                    Some(self.vms[k].machine.ports[index as int])
                } else {
                    None
                }
            },
            PortRef::Ram { owner_id, port } => {
                let k = ram_position(self.rams, owner_id);
                if has_ram(self.rams, owner_id) {
                    Some(self.rams[k].ram.port(port))
                } else {
                    None
                }
            },
        }
    }

    /// The state in which the port that `port` names is replaced by `p`.
    pub open spec fn with_port(self, port: PortRef, p: Port) -> SvaView {
        match port {
            PortRef::Vm { owner_id, index } => {
                let k = vm_position(self.vms, owner_id);
                SvaView {
                    vms: self.vms.update(
                        k,
                        SVAWindowView {
                            machine: MachineView {
                                ports: self.vms[k].machine.ports.update(index as int, p),
                                ..self.vms[k].machine
                            },
                            ..self.vms[k]
                        },
                    ),
                    ..self
                }
            },
            PortRef::Ram { owner_id, port } => {
                let k = ram_position(self.rams, owner_id);
                SvaView {
                    rams: self.rams.update(
                        k,
                        RamWidowView { ram: self.rams[k].ram.with_port(port, p), ..self.rams[k] },
                    ),
                    ..self
                }
            },
        }
    }

    /// What a click on `port` comes to. With an active cursor a port that
    /// is not connected joins the connection under the cursor, and a
    /// connected one is refused. In disconnect mode a connected port leaves
    /// its connection.
    pub open spec fn click_outcome(self, port: PortRef) -> ClickOutcome {
        match self.port(port) {
            None => ClickOutcome::NoSuchPort,
            Some(p) => if self.registry.cursor_active() {
                if p.link().is_none() && !is_wired(self.registry.connections, port) {
                    ClickOutcome::Connected(self.registry.current_id.unwrap())
                } else {
                    ClickOutcome::AlreadyConnected
                }
            } else if self.registry.disconnect_mode {
                match p.link() {
                    Some(c) => ClickOutcome::Disconnected(c),
                    None => ClickOutcome::NotConnected,
                }
            } else {
                ClickOutcome::Idle
            },
        }
    }

    /// The state after a click on `port`.
    pub open spec fn after_click(self, port: PortRef) -> SvaView {
        match self.click_outcome(port) {
            ClickOutcome::Connected(c) => SvaView {
                registry: RegistryView {
                    connections: with_member(self.registry.connections, c, port),
                    ..self.registry
                },
                ..self.with_port(port, self.port(port).unwrap().linked_to(c))
            },
            ClickOutcome::Disconnected(_) => SvaView {
                registry: RegistryView {
                    connections: without_member(self.registry.connections, port),
                    ..self.registry
                },
                ..self.with_port(port, self.port(port).unwrap().unlinked())
            },
            _ => self,
        }
    }

    /// The state prepared for saving: the registry copied aside, and every
    /// link dropped.
    pub open spec fn export_begun(self) -> SvaView {
        SvaView {
            vms: vms_unlinked(self.vms),
            rams: rams_unlinked(self.rams),
            registry: self.registry,
            connections_copy: self.registry.connections,
            conn_names_copies: self.registry.names,
            next_id_copy: self.registry.next_id,
            copy_taken: true,
        }
    }

    /// Whether a copy is set aside that can be installed as the registry.
    pub open spec fn copy_installable(self) -> bool {
        self.copy_taken && valid(self.connections_copy) && ids_below(
            self.connections_copy,
            self.next_id_copy as int,
        )
    }

    /// The registry after the copy that was set aside is put back; a copy
    /// that cannot be installed leaves the registry as it is.
    pub open spec fn registry_restored(self) -> RegistryView {
        if self.copy_installable() {
            RegistryView {
                connections: self.connections_copy,
                names: self.conn_names_copies,
                next_id: later_id(self.registry.next_id, self.next_id_copy),
                ..self.registry
            }
        } else {
            self.registry
        }
    }

    /// The state after saving: the registry put back from the copy, the
    /// copy emptied, and every listed port linked again.
    pub open spec fn export_finished(self) -> SvaView {
        let registry = self.registry_restored();
        SvaView {
            vms: vms_relinked(self.vms, registry.connections),
            rams: rams_relinked(self.rams, registry.connections),
            registry,
            connections_copy: Seq::empty(),
            conn_names_copies: Map::empty(),
            next_id_copy: 0,
            copy_taken: false,
        }
    }

    /// Whether nothing is set aside for saving.
    pub open spec fn copy_empty(self) -> bool {
        !self.copy_taken && self.connections_copy == Seq::<ConnectionView>::empty()
            && self.conn_names_copies == Map::<usize, Seq<char>>::empty() && self.next_id_copy
            == 0
    }

    /// Whether saved machines, memory modules and connections can be loaded.
    pub open spec fn loadable(
        vms: Seq<SVAWindowView>,
        rams: Seq<RamWidowView>,
        connections: Seq<ConnectionView>,
        next_id: usize,
    ) -> bool {
        vms_wf(vms) && rams_wf(rams) && valid(connections) && ids_below(connections, next_id as int)
    }

    /// The state after loading: the saved components and connections in
    /// place of the present ones, and every listed port linked. The cursor
    /// and the disconnect mode are not saved and stay.
    pub open spec fn loaded(
        self,
        vms: Seq<SVAWindowView>,
        rams: Seq<RamWidowView>,
        connections: Seq<ConnectionView>,
        names: Map<usize, Seq<char>>,
        next_id: usize,
    ) -> SvaView {
        SvaView {
            vms: vms_relinked(vms_unlinked(vms), connections),
            rams: rams_relinked(rams_unlinked(rams), connections),
            registry: RegistryView {
                connections,
                names,
                next_id: later_id(self.registry.next_id, next_id),
                ..self.registry
            },
            ..self
        }
    }

    /// The state after `v` is written to connection `c`: every port linked
    /// to `c` holds `v`.
    pub open spec fn reached(self, c: usize, v: i32) -> SvaView {
        SvaView {
            vms: Seq::new(
                self.vms.len(),
                |k: int|
                    SVAWindowView { machine: self.vms[k].machine.reached(c, v), ..self.vms[k] },
            ),
            rams: Seq::new(
                self.rams.len(),
                |k: int| RamWidowView { ram: self.rams[k].ram.reached(c, v), ..self.rams[k] },
            ),
            ..self
        }
    }

    /// The state after `v` is written to a port: the port holds `v`, and so
    /// does every port linked to the same connection.
    pub open spec fn after_write(self, port: PortRef, v: i32) -> SvaView {
        match self.port(port) {
            None => self,
            Some(p) => match p.link() {
                Some(c) => self.reached(c, v),
                None => self.with_port(port, p.holding(v)),
            },
        }
    }

    /// The state after the memory module at position `k` is refreshed: one
    /// value moves between its data port and the addressed cell, and a
    /// value that it puts on its data port reaches every port linked to
    /// the same connection.
    pub open spec fn refresh_step(self, k: int) -> SvaView {
        let w = self.rams[k];
        let t = SvaView {
            rams: self.rams.update(k, RamWidowView { ram: w.ram.refreshed(), ..w }),
            ..self
        };
        match (w.ram.read_out(), w.ram.data_port.link()) {
            (Some(v), Some(c)) => t.reached(c, v),
            _ => t,
        }
    }

    /// The state after the first `n` memory modules are refreshed, one
    /// after the other.
    pub open spec fn refreshed_upto(self, n: nat) -> SvaView
        decreases n,
    {
        if n == 0 {
            self
        } else {
            self.refreshed_upto((n - 1) as nat).refresh_step(n - 1)
        }
    }

    /// The state after every memory module is refreshed.
    pub open spec fn refreshed(self) -> SvaView {
        self.refreshed_upto(self.rams.len())
    }

    /// Whether `other` has the same components with the same links, and
    /// the same registry: it differs at most in what the components hold.
    pub open spec fn same_wiring(self, other: SvaView) -> bool {
        &&& other.registry == self.registry
        &&& other.vms.len() == self.vms.len()
        &&& other.rams.len() == self.rams.len()
        &&& forall|k: int|
            0 <= k < self.vms.len() ==> {
                &&& (#[trigger] other.vms[k]).id == self.vms[k].id
                &&& other.vms[k].wf()
                &&& other.vms[k].machine.ports.len() == self.vms[k].machine.ports.len()
            }
        &&& forall|k: int, i: int|
            0 <= k < self.vms.len() && 0 <= i < self.vms[k].machine.ports.len() ==> (
            #[trigger] other.vms[k].machine.ports[i]).link()
                == self.vms[k].machine.ports[i].link()
        &&& forall|k: int|
            0 <= k < self.rams.len() ==> (#[trigger] other.rams[k]).id == self.rams[k].id
                && other.rams[k].wf()
        &&& forall|k: int, which: RamPort|
            0 <= k < self.rams.len() ==> (#[trigger] other.rams[k].ram.port(which)).link()
                == self.rams[k].ram.port(which).link()
    }

    /// The state without the machine `id`.
    pub open spec fn vm_removed(self, id: Option<usize>) -> SvaView {
        if id.is_some() && has_vm(self.vms, id.unwrap()) {
            SvaView { vms: self.vms.remove(vm_position(self.vms, id.unwrap())), ..self }
        } else {
            self
        }
    }

    /// The state without the memory module `id`.
    pub open spec fn ram_removed(self, id: Option<usize>) -> SvaView {
        if id.is_some() && has_ram(self.rams, id.unwrap()) {
            SvaView { rams: self.rams.remove(ram_position(self.rams, id.unwrap())), ..self }
        } else {
            self
        }
    }

    /// The state without the connection `id`, with the links still to be
    /// rebuilt.
    pub open spec fn connection_removed(self, id: Option<usize>) -> SvaView {
        SvaView {
            registry: RegistryView {
                connections: match id {
                    Some(c) => without_id(self.registry.connections, c),
                    None => self.registry.connections,
                },
                reload: true,
                ..self.registry
            },
            ..self
        }
    }

    /// The state without any machine, memory module or connection.
    pub open spec fn cleared(self) -> SvaView {
        SvaView {
            vms: Seq::empty(),
            rams: Seq::empty(),
            registry: RegistryView {
                connections: Seq::empty(),
                next_id: FIRST_CONNECTION_ID,
                ..self.registry
            },
            ..self
        }
    }

    /// The state after the user has confirmed a question: the connection
    /// that the question named is removed, and then what the question was
    /// about is done.
    pub open spec fn confirmed(
        self,
        action: AreYouSureModalAction,
        component_id: Option<usize>,
        connection_id: Option<usize>,
    ) -> SvaView {
        let s = if connection_id.is_some() {
            self.connection_removed(connection_id)
        } else {
            self
        };
        match action {
            AreYouSureModalAction::DoNothing => s,
            AreYouSureModalAction::Clear => s.cleared(),
            AreYouSureModalAction::RemoveVm => s.vm_removed(component_id),
            AreYouSureModalAction::RemoveRam => s.ram_removed(component_id),
        }
    }

    /// The state in which the window of the machine `id` is shown if it was
    /// hidden and hidden if it was shown.
    pub open spec fn vm_toggled(self, id: usize) -> SvaView {
        if has_vm(self.vms, id) {
            let k = vm_position(self.vms, id);
            SvaView {
                vms: self.vms.update(
                    k,
                    SVAWindowView { active: !self.vms[k].active, ..self.vms[k] },
                ),
                ..self
            }
        } else {
            self
        }
    }

    /// The state in which the window of the memory module `id` is shown if
    /// it was hidden and hidden if it was shown.
    pub open spec fn ram_toggled(self, id: usize) -> SvaView {
        if has_ram(self.rams, id) {
            let k = ram_position(self.rams, id);
            SvaView {
                rams: self.rams.update(
                    k,
                    RamWidowView { is_open: !self.rams[k].is_open, ..self.rams[k] },
                ),
                ..self
            }
        } else {
            self
        }
    }

    /// The state after a click in the list of components: showing and
    /// hiding happens at once, everything else waits for the user's answer.
    pub open spec fn after_component_action(self, action: ComponentAction) -> SvaView {
        match action {
            ComponentAction::ToggleVmVisibility(id) => self.vm_toggled(id),
            ComponentAction::ToggleRamVisibility(id) => self.ram_toggled(id),
            _ => self,
        }
    }

    /// The state in which every machine uses the given language.
    pub open spec fn in_language(self, language: Language) -> SvaView {
        SvaView {
            vms: Seq::new(
                self.vms.len(),
                |k: int| SVAWindowView { language, ..self.vms[k] },
            ),
            ..self
        }
    }

    /// The state after every machine port has lost its link.
    pub open spec fn vm_ports_unlinked(self) -> SvaView {
        SvaView { vms: vms_unlinked(self.vms), ..self }
    }

    /// The state after every memory port has lost its link.
    pub open spec fn ram_ports_unlinked(self) -> SvaView {
        SvaView { rams: rams_unlinked(self.rams), ..self }
    }

    /// The state after every machine port that a connection lists is linked
    /// to that connection.
    pub open spec fn vm_ports_relinked(self) -> SvaView {
        SvaView { vms: vms_relinked(self.vms, self.registry.connections), ..self }
    }

    /// The state after every memory port that a connection lists is linked
    /// to that connection.
    pub open spec fn ram_ports_relinked(self) -> SvaView {
        SvaView { rams: rams_relinked(self.rams, self.registry.connections), ..self }
    }

    /// Whether `vm` can take the place of the machine at position `k`: it
    /// is well formed and has the same id and the same links.
    pub open spec fn vm_fits(self, k: int, vm: SVAWindowView) -> bool {
        &&& vm.wf()
        &&& vm.id == self.vms[k].id
        &&& forall|i: int|
            0 <= i < vm.machine.ports.len() ==> (#[trigger] vm.machine.ports[i]).link()
                == self.vms[k].machine.ports[i].link()
    }

    /// Whether `ram` can take the place of the memory window at position
    /// `k`: it is well formed and has the same id and the same links.
    pub open spec fn ram_fits(self, k: int, ram: RamWidowView) -> bool {
        &&& ram.wf()
        &&& ram.id == self.rams[k].id
        &&& forall|which: RamPort| #[trigger]
            ram.ram.port(which).link() == self.rams[k].ram.port(which).link()
    }

    /// The state after the links of all ports are rebuilt from the
    /// connections: every link dropped, then every listed port linked.
    pub open spec fn reloaded(self) -> SvaView {
        SvaView {
            vms: vms_relinked(vms_unlinked(self.vms), self.registry.connections),
            rams: rams_relinked(rams_unlinked(self.rams), self.registry.connections),
            registry: RegistryView { reload: false, ..self.registry },
            ..self
        }
    }
}

/// In a consistent workbench, port `i` of a machine is linked to the
/// connection `c` exactly when `c` lists that port.
pub proof fn lemma_vm_link_iff_member(s: SvaView, k: int, i: int, c: usize)
    requires
        s.wf(),
        s.consistent(),
        0 <= k < s.vms.len(),
        0 <= i < s.vms[k].machine.ports.len(),
    ensures
        s.vms[k].machine.ports[i].link() == Some(c) <==> has_member(
            s.registry.connections,
            c,
            s.vms[k].port_ref(i),
        ),
{
    assert(s.vms[k].linked_as(s.registry.connections));
    lemma_member_iff_owner(s.registry.connections, c, s.vms[k].port_ref(i));
}

/// In a consistent workbench, a port of a memory module is linked to the
/// connection `c` exactly when `c` lists that port.
pub proof fn lemma_ram_link_iff_member(s: SvaView, k: int, which: RamPort, c: usize)
    requires
        s.wf(),
        s.consistent(),
        0 <= k < s.rams.len(),
    ensures
        s.rams[k].ram.port(which).link() == Some(c) <==> has_member(
            s.registry.connections,
            c,
            s.rams[k].port_ref(which),
        ),
{
    assert(s.rams[k].linked_as(s.registry.connections));
    assert(s.rams[k].ram.port(which).link() == owner_of(
        s.registry.connections,
        s.rams[k].port_ref(which),
    ));
    lemma_member_iff_owner(s.registry.connections, c, s.rams[k].port_ref(which));
}

/// No port belongs to two connections: if two connections list the same
/// port, they are the same connection.
pub proof fn lemma_one_connection_per_port(
    conns: Seq<ConnectionView>,
    port: PortRef,
    c1: usize,
    c2: usize,
)
    requires
        valid(conns),
        has_member(conns, c1, port),
        has_member(conns, c2, port),
    ensures
        c1 == c2,
{
    lemma_member_iff_owner(conns, c1, port);
    lemma_member_iff_owner(conns, c2, port);
}

/// Rebuilding the links makes ports and connections agree, whatever the
/// links were before.
pub proof fn lemma_reload_makes_consistent(s: SvaView)
    requires
        s.wf(),
    ensures
        s.reloaded().wf(),
        s.reloaded().consistent(),
{
    let t = s.reloaded();
    let conns = s.registry.connections;
    assert forall|k: int| 0 <= k < t.vms.len() implies (#[trigger] t.vms[k]).linked_as(conns)
        && t.vms[k].wf() && t.vms[k].id == s.vms[k].id by {
        assert(s.vms[k].wf());
        let u = s.vms[k].unlinked();
        assert(t.vms[k] == u.relinked(conns));
        assert forall|i: int| 0 <= i < t.vms[k].machine.ports.len() implies (
        #[trigger] t.vms[k].machine.ports[i]).link() == owner_of(conns, t.vms[k].port_ref(i)) by {
            assert(u.machine.ports[i].link().is_none());
        }
    }
    assert forall|k: int| 0 <= k < t.rams.len() implies (#[trigger] t.rams[k]).linked_as(conns)
        && t.rams[k].wf() && t.rams[k].id == s.rams[k].id by {
        assert(s.rams[k].wf());
        let u = s.rams[k].unlinked();
        assert(t.rams[k] == u.relinked(conns));
        assert forall|which: RamPort| #[trigger]
            t.rams[k].ram.port(which).link() == owner_of(conns, t.rams[k].port_ref(which)) by {
            assert(u.ram.port(which).link().is_none());
        }
    }
    assert forall|a: int, b: int|
        0 <= a < t.vms.len() && 0 <= b < t.vms.len() && a != b implies (#[trigger] t.vms[a]).id != (
    #[trigger] t.vms[b]).id by {
        assert(s.vms[a].id != s.vms[b].id);
    }
    assert forall|a: int, b: int|
        0 <= a < t.rams.len() && 0 <= b < t.rams.len() && a != b implies (
    #[trigger] t.rams[a]).id != (#[trigger] t.rams[b]).id by {
        assert(s.rams[a].id != s.rams[b].id);
    }
}

/// The order of the passes does not matter: linking the machines' ports
/// before the memory modules' or after gives the same state, and so does
/// dropping the links in either order.
pub proof fn lemma_pass_order_is_irrelevant(s: SvaView)
    ensures
        s.vm_ports_relinked().ram_ports_relinked() == s.ram_ports_relinked().vm_ports_relinked(),
        s.vm_ports_unlinked().ram_ports_unlinked() == s.ram_ports_unlinked().vm_ports_unlinked(),
        s.vm_ports_unlinked().ram_ports_unlinked().vm_ports_relinked().ram_ports_relinked()
            == (SvaView { registry: s.registry, ..s.reloaded() }),
{
}

/// Linking the listed ports a second time changes nothing.
pub proof fn lemma_relink_idempotent(
    vms: Seq<SVAWindowView>,
    rams: Seq<RamWidowView>,
    conns: Seq<ConnectionView>,
)
    ensures
        vms_relinked(vms_relinked(vms, conns), conns) == vms_relinked(vms, conns),
        rams_relinked(rams_relinked(rams, conns), conns) == rams_relinked(rams, conns),
{
    let once = vms_relinked(vms, conns);
    let twice = vms_relinked(once, conns);
    assert forall|k: int| 0 <= k < vms.len() implies twice[k] == once[k] by {
        assert(twice[k].machine.ports =~= once[k].machine.ports);
    }
    assert(twice =~= once);
    let ronce = rams_relinked(rams, conns);
    let rtwice = rams_relinked(ronce, conns);
    assert(rtwice =~= ronce);
}

/// Running the pass that links the listed ports twice in a row gives what
/// running it once gives.
pub proof fn lemma_reconnect_is_idempotent(s: SvaView)
    ensures
        s.vm_ports_relinked().vm_ports_relinked() == s.vm_ports_relinked(),
        s.ram_ports_relinked().ram_ports_relinked() == s.ram_ports_relinked(),
        s.vm_ports_relinked().ram_ports_relinked().vm_ports_relinked().ram_ports_relinked()
            == s.vm_ports_relinked().ram_ports_relinked(),
{
    lemma_relink_idempotent(s.vms, s.rams, s.registry.connections);
}

/// Where ports and connections agree already, linking the listed ports
/// changes nothing.
pub proof fn lemma_relink_of_consistent(s: SvaView)
    requires
        s.consistent(),
    ensures
        vms_relinked(s.vms, s.registry.connections) == s.vms,
        rams_relinked(s.rams, s.registry.connections) == s.rams,
{
    let conns = s.registry.connections;
    let v = vms_relinked(s.vms, conns);
    assert forall|k: int| 0 <= k < s.vms.len() implies v[k] == s.vms[k] by {
        assert(s.vms[k].linked_as(conns));
        assert forall|i: int| 0 <= i < s.vms[k].machine.ports.len() implies v[k].machine.ports[i]
            == s.vms[k].machine.ports[i] by {
            assert(s.vms[k].machine.ports[i].link() == owner_of(conns, s.vms[k].port_ref(i)));
        }
        assert(v[k].machine.ports =~= s.vms[k].machine.ports);
    }
    assert(v =~= s.vms);
    let r = rams_relinked(s.rams, conns);
    assert forall|k: int| 0 <= k < s.rams.len() implies r[k] == s.rams[k] by {
        assert(s.rams[k].linked_as(conns));
        assert(s.rams[k].ram.port(RamPort::Index).link() == owner_of(
            conns,
            s.rams[k].port_ref(RamPort::Index),
        ));
        assert(s.rams[k].ram.port(RamPort::Data).link() == owner_of(
            conns,
            s.rams[k].port_ref(RamPort::Data),
        ));
        assert(s.rams[k].ram.port(RamPort::Mode).link() == owner_of(
            conns,
            s.rams[k].port_ref(RamPort::Mode),
        ));
    }
    assert(r =~= s.rams);
}

/// Where ports and connections agree, dropping every link and linking the
/// listed ports again brings back the same state: the links can be rebuilt
/// from the connections alone.
pub proof fn lemma_unlink_relink_of_consistent(s: SvaView)
    requires
        s.consistent(),
    ensures
        vms_relinked(vms_unlinked(s.vms), s.registry.connections) == s.vms,
        rams_relinked(rams_unlinked(s.rams), s.registry.connections) == s.rams,
{
    let conns = s.registry.connections;
    let v = vms_relinked(vms_unlinked(s.vms), conns);
    assert forall|k: int| 0 <= k < s.vms.len() implies v[k] == s.vms[k] by {
        assert(s.vms[k].linked_as(conns));
        assert forall|i: int| 0 <= i < s.vms[k].machine.ports.len() implies v[k].machine.ports[i]
            == s.vms[k].machine.ports[i] by {
            assert(s.vms[k].machine.ports[i].link() == owner_of(conns, s.vms[k].port_ref(i)));
        }
        assert(v[k].machine.ports =~= s.vms[k].machine.ports);
    }
    assert(v =~= s.vms);
    let r = rams_relinked(rams_unlinked(s.rams), conns);
    assert forall|k: int| 0 <= k < s.rams.len() implies r[k] == s.rams[k] by {
        assert(s.rams[k].linked_as(conns));
        assert(s.rams[k].ram.port(RamPort::Index).link() == owner_of(
            conns,
            s.rams[k].port_ref(RamPort::Index),
        ));
        assert(s.rams[k].ram.port(RamPort::Data).link() == owner_of(
            conns,
            s.rams[k].port_ref(RamPort::Data),
        ));
        assert(s.rams[k].ram.port(RamPort::Mode).link() == owner_of(
            conns,
            s.rams[k].port_ref(RamPort::Mode),
        ));
    }
    assert(r =~= s.rams);
}

/// In a well-formed workbench a port reference names the port at the
/// position of its component.
pub proof fn lemma_port_is_at(s: SvaView, k: int, i: int)
    requires
        s.wf(),
        0 <= k < s.vms.len(),
        0 <= i < s.vms[k].machine.ports.len(),
    ensures
        s.port(s.vms[k].port_ref(i)) == Some(s.vms[k].machine.ports[i]),
{
    let id = s.vms[k].id;
    let k0 = vm_position(s.vms, id);
    if k0 != k {
        assert(s.vms[k0].id != s.vms[k].id);
    }
    assert(s.vms[k].wf());
}

/// In a well-formed workbench a port reference names the port of the
/// memory module at the position of that module.
pub proof fn lemma_ram_port_is_at(s: SvaView, k: int, which: RamPort)
    requires
        s.wf(),
        0 <= k < s.rams.len(),
    ensures
        s.port(s.rams[k].port_ref(which)) == Some(s.rams[k].ram.port(which)),
{
    let id = s.rams[k].id;
    let k0 = ram_position(s.rams, id);
    if k0 != k {
        assert(s.rams[k0].id != s.rams[k].id);
    }
}

/// Replacing one port keeps the workbench well formed, changes no other
/// port, and puts the new port in its place.
pub proof fn lemma_with_port(s: SvaView, port: PortRef, p: Port)
    requires
        s.wf(),
        s.port(port).is_some(),
    ensures
        s.with_port(port, p).wf(),
        s.with_port(port, p).port(port) == Some(p),
        s.with_port(port, p).vms.len() == s.vms.len(),
        s.with_port(port, p).rams.len() == s.rams.len(),
        forall|k: int, i: int|
            0 <= k < s.vms.len() && 0 <= i < s.vms[k].machine.ports.len() ==> {
                &&& s.with_port(port, p).vms[k].id == s.vms[k].id
                &&& s.with_port(port, p).vms[k].machine.ports.len()
                    == s.vms[k].machine.ports.len()
                &&& #[trigger] s.with_port(port, p).vms[k].machine.ports[i] == if s.vms[k].port_ref(
                    i,
                ) == port {
                    p
                } else {
                    s.vms[k].machine.ports[i]
                }
            },
        forall|k: int, which: RamPort|
            0 <= k < s.rams.len() ==> {
                &&& s.with_port(port, p).rams[k].id == s.rams[k].id
                &&& #[trigger] s.with_port(port, p).rams[k].ram.port(which) == if s.rams[k].port_ref(
                    which,
                ) == port {
                    p
                } else {
                    s.rams[k].ram.port(which)
                }
            },
{
    let t = s.with_port(port, p);
    match port {
        PortRef::Vm { owner_id, index } => {
            let k0 = vm_position(s.vms, owner_id);
            assert(s.vms[k0].wf());
            assert forall|k: int| 0 <= k < t.vms.len() implies (#[trigger] t.vms[k]).wf()
                && t.vms[k].id == s.vms[k].id by {
                assert(s.vms[k].wf());
            }
            assert forall|a: int, b: int|
                0 <= a < t.vms.len() && 0 <= b < t.vms.len() && a != b implies (
            #[trigger] t.vms[a]).id != (#[trigger] t.vms[b]).id by {
                assert(s.vms[a].id != s.vms[b].id);
            }
            assert(t.vms[k0].id == owner_id);
            assert(has_vm(t.vms, owner_id));
            let k1 = vm_position(t.vms, owner_id);
            assert(k1 == k0) by {
                if k1 != k0 {
                    assert(t.vms[k1].id != t.vms[k0].id);
                }
            }
            assert forall|k: int, i: int|
                0 <= k < s.vms.len() && 0 <= i < s.vms[k].machine.ports.len() implies #[trigger] t.vms[k].machine.ports[i]
                == if s.vms[k].port_ref(i) == port {
                p
            } else {
                s.vms[k].machine.ports[i]
            } by {
                assert(s.vms[k].wf());
                if k != k0 {
                    assert(s.vms[k].id != s.vms[k0].id);
                }
            }
        },
        PortRef::Ram { owner_id, port: which0 } => {
            let k0 = ram_position(s.rams, owner_id);
            assert(s.rams[k0].wf());
            assert forall|k: int| 0 <= k < t.rams.len() implies (#[trigger] t.rams[k]).wf()
                && t.rams[k].id == s.rams[k].id by {
                assert(s.rams[k].wf());
            }
            assert forall|a: int, b: int|
                0 <= a < t.rams.len() && 0 <= b < t.rams.len() && a != b implies (
            #[trigger] t.rams[a]).id != (#[trigger] t.rams[b]).id by {
                assert(s.rams[a].id != s.rams[b].id);
            }
            assert(t.rams[k0].id == owner_id);
            assert(has_ram(t.rams, owner_id));
            let k1 = ram_position(t.rams, owner_id);
            assert(k1 == k0) by {
                if k1 != k0 {
                    assert(t.rams[k1].id != t.rams[k0].id);
                }
            }
            assert forall|k: int, which: RamPort| 0 <= k < s.rams.len() implies #[trigger] t.rams[k].ram.port(
                which,
            ) == if s.rams[k].port_ref(which) == port {
                p
            } else {
                s.rams[k].ram.port(which)
            } by {
                if k != k0 {
                    assert(s.rams[k].id != s.rams[k0].id);
                }
            }
        },
    }
}

/// A click keeps the workbench well formed, and where ports and connections
/// agreed before it they agree after it.
pub proof fn lemma_click_keeps_consistent(s: SvaView, port: PortRef)
    requires
        s.wf(),
    ensures
        s.after_click(port).wf(),
        s.consistent() ==> s.after_click(port).consistent(),
{
    let t = s.after_click(port);
    let conns = s.registry.connections;
    match s.click_outcome(port) {
        ClickOutcome::Connected(c) => {
            let p = s.port(port).unwrap().linked_to(c);
            lemma_with_port(s, port, p);
            lemma_with_member_owner(conns, c, port, port);
            let after = with_member(conns, c, port);
            assert(t.registry.wf()) by {
                assert forall|a: int| 0 <= a < after.len() implies (#[trigger] after[a]).id
                    < s.registry.next_id by {
                    assert(conns[a].id < s.registry.next_id);
                }
            }
            if s.consistent() {
                assert forall|k: int| 0 <= k < t.vms.len() implies (#[trigger] t.vms[k]).linked_as(
                    after,
                ) by {
                    assert(s.vms[k].linked_as(conns));
                    assert forall|i: int| 0 <= i < t.vms[k].machine.ports.len() implies (
                    #[trigger] t.vms[k].machine.ports[i]).link() == owner_of(
                        after,
                        t.vms[k].port_ref(i),
                    ) by {
                        lemma_with_member_owner(conns, c, port, s.vms[k].port_ref(i));
                        assert(s.vms[k].machine.ports[i].link() == owner_of(
                            conns,
                            s.vms[k].port_ref(i),
                        ));
                    }
                }
                assert forall|k: int| 0 <= k < t.rams.len() implies (
                #[trigger] t.rams[k]).linked_as(after) by {
                    assert(s.rams[k].linked_as(conns));
                    assert forall|which: RamPort| #[trigger]
                        t.rams[k].ram.port(which).link() == owner_of(
                            after,
                            t.rams[k].port_ref(which),
                        ) by {
                        lemma_with_member_owner(conns, c, port, s.rams[k].port_ref(which));
                        assert(s.rams[k].ram.port(which).link() == owner_of(
                            conns,
                            s.rams[k].port_ref(which),
                        ));
                    }
                }
            }
        },
        ClickOutcome::Disconnected(_) => {
            let p = s.port(port).unwrap().unlinked();
            lemma_with_port(s, port, p);
            lemma_without_member_owner(conns, port, port);
            let after = without_member(conns, port);
            assert(t.registry.wf()) by {
                assert forall|a: int| 0 <= a < after.len() implies (#[trigger] after[a]).id
                    < s.registry.next_id by {
                    assert(conns[a].id < s.registry.next_id);
                }
            }
            if s.consistent() {
                assert forall|k: int| 0 <= k < t.vms.len() implies (#[trigger] t.vms[k]).linked_as(
                    after,
                ) by {
                    assert(s.vms[k].linked_as(conns));
                    assert forall|i: int| 0 <= i < t.vms[k].machine.ports.len() implies (
                    #[trigger] t.vms[k].machine.ports[i]).link() == owner_of(
                        after,
                        t.vms[k].port_ref(i),
                    ) by {
                        lemma_without_member_owner(conns, port, s.vms[k].port_ref(i));
                        assert(s.vms[k].machine.ports[i].link() == owner_of(
                            conns,
                            s.vms[k].port_ref(i),
                        ));
                    }
                }
                assert forall|k: int| 0 <= k < t.rams.len() implies (
                #[trigger] t.rams[k]).linked_as(after) by {
                    assert(s.rams[k].linked_as(conns));
                    assert forall|which: RamPort| #[trigger]
                        t.rams[k].ram.port(which).link() == owner_of(
                            after,
                            t.rams[k].port_ref(which),
                        ) by {
                        lemma_without_member_owner(conns, port, s.rams[k].port_ref(which));
                        assert(s.rams[k].ram.port(which).link() == owner_of(
                            conns,
                            s.rams[k].port_ref(which),
                        ));
                    }
                }
            }
        },
        _ => {},
    }
}

/// Saving leaves no trace: where ports and connections agree and nothing
/// is set aside, preparing the state for saving and finishing again gives
/// back the state as it was.
pub proof fn lemma_export_is_side_effect_free(s: SvaView)
    requires
        s.wf(),
        s.consistent(),
        s.copy_empty(),
    ensures
        s.export_begun().export_finished() == s,
{
    let b = s.export_begun();
    assert(b.copy_installable());
    assert(b.registry_restored() == s.registry);
    lemma_unlink_relink_of_consistent(s);
    assert(b.export_finished().connections_copy =~= s.connections_copy);
    assert(b.export_finished().conn_names_copies =~= s.conn_names_copies);
}

/// However a save begins, it ends with ports and connections in agreement:
/// the links are rebuilt from the connections that were set aside.
pub proof fn lemma_export_ends_consistent(s: SvaView)
    requires
        s.wf(),
    ensures
        s.export_begun().wf(),
        s.export_begun().export_finished().wf(),
        s.export_begun().export_finished().consistent(),
        s.export_begun().export_finished().registry == s.registry,
{
    let b = s.export_begun();
    lemma_unlinked_wf(s);
    assert(b.copy_installable());
    assert(b.registry_restored() == s.registry);
    lemma_reload_makes_consistent(s);
    assert(b.export_finished().vms == s.reloaded().vms);
    assert(b.export_finished().rams == s.reloaded().rams);
}

/// Save, then load: what was prepared for saving, loaded into any
/// workbench, gives the same connections with the same members and names,
/// and the same machines and memory modules, with every port linked as the
/// connections say. Where ports and connections agreed when the state was
/// saved, that is the state that was saved, link for link.
pub proof fn lemma_save_load_round_trip(s: SvaView, into: SvaView)
    requires
        s.wf(),
    ensures
        SvaView::loadable(
            s.export_begun().vms,
            s.export_begun().rams,
            s.export_begun().connections_copy,
            s.export_begun().next_id_copy,
        ),
        ({
            let b = s.export_begun();
            let l = into.loaded(
                b.vms,
                b.rams,
                b.connections_copy,
                b.conn_names_copies,
                b.next_id_copy,
            );
            &&& l.registry.connections == s.registry.connections
            &&& l.registry.names == s.registry.names
            &&& l.registry.next_id >= s.registry.next_id
            &&& l.vms == s.reloaded().vms
            &&& l.rams == s.reloaded().rams
            &&& l.consistent()
            &&& s.consistent() ==> l.vms == s.vms && l.rams == s.rams
        }),
{
    let b = s.export_begun();
    lemma_unlinked_wf(s);
    let conns = s.registry.connections;
    let l = into.loaded(b.vms, b.rams, b.connections_copy, b.conn_names_copies, b.next_id_copy);
    assert(vms_unlinked(vms_unlinked(s.vms)) =~= vms_unlinked(s.vms)) by {
        assert forall|k: int| 0 <= k < s.vms.len() implies vms_unlinked(vms_unlinked(s.vms))[k]
            == vms_unlinked(s.vms)[k] by {
            assert(s.vms[k].unlinked().unlinked().machine.ports =~= s.vms[k].unlinked().machine.ports);
        }
    }
    assert(rams_unlinked(rams_unlinked(s.rams)) =~= rams_unlinked(s.rams));
    lemma_reload_makes_consistent(s);
    if s.consistent() {
        lemma_unlink_relink_of_consistent(s);
    }
}

/// Replacing a machine by one with the same id and the same links keeps the
/// workbench well formed and keeps ports and connections in agreement. All
/// that a machine does by itself is of this kind: commands, steps, resets,
/// recovery and taking over the engine's state never touch a link.
pub proof fn lemma_vm_update_keeps_consistent(s: SvaView, k: int, vm: SVAWindowView)
    requires
        s.wf(),
        0 <= k < s.vms.len(),
        s.vm_fits(k, vm),
    ensures
        (SvaView { vms: s.vms.update(k, vm), ..s }).wf(),
        s.consistent() ==> (SvaView { vms: s.vms.update(k, vm), ..s }).consistent(),
{
    let t = SvaView { vms: s.vms.update(k, vm), ..s };
    assert(s.vms[k].wf());
    assert forall|j: int| 0 <= j < t.vms.len() implies (#[trigger] t.vms[j]).wf() && t.vms[j].id
        == s.vms[j].id by {
        assert(s.vms[j].wf());
    }
    assert forall|a: int, b: int| 0 <= a < t.vms.len() && 0 <= b < t.vms.len() && a != b implies (
    #[trigger] t.vms[a]).id != (#[trigger] t.vms[b]).id by {
        assert(s.vms[a].id != s.vms[b].id);
    }
    if s.consistent() {
        assert forall|j: int| 0 <= j < t.vms.len() implies (#[trigger] t.vms[j]).linked_as(
            s.registry.connections,
        ) by {
            assert(s.vms[j].linked_as(s.registry.connections));
            if j == k {
                assert forall|i: int| 0 <= i < vm.machine.ports.len() implies (
                #[trigger] vm.machine.ports[i]).link() == owner_of(
                    s.registry.connections,
                    vm.port_ref(i),
                ) by {
                    assert(s.vms[k].machine.ports[i].link() == owner_of(
                        s.registry.connections,
                        s.vms[k].port_ref(i),
                    ));
                }
            }
        }
    }
}

/// Replacing a memory window by one with the same id and the same links
/// keeps the workbench well formed and keeps ports and connections in
/// agreement.
pub proof fn lemma_ram_update_keeps_consistent(s: SvaView, k: int, ram: RamWidowView)
    requires
        s.wf(),
        0 <= k < s.rams.len(),
        s.ram_fits(k, ram),
    ensures
        (SvaView { rams: s.rams.update(k, ram), ..s }).wf(),
        s.consistent() ==> (SvaView { rams: s.rams.update(k, ram), ..s }).consistent(),
{
    let t = SvaView { rams: s.rams.update(k, ram), ..s };
    assert forall|j: int| 0 <= j < t.rams.len() implies (#[trigger] t.rams[j]).wf() && t.rams[j].id
        == s.rams[j].id by {
        assert(s.rams[j].wf());
    }
    assert forall|a: int, b: int|
        0 <= a < t.rams.len() && 0 <= b < t.rams.len() && a != b implies (#[trigger] t.rams[a]).id
        != (#[trigger] t.rams[b]).id by {
        assert(s.rams[a].id != s.rams[b].id);
    }
    if s.consistent() {
        assert forall|j: int| 0 <= j < t.rams.len() implies (#[trigger] t.rams[j]).linked_as(
            s.registry.connections,
        ) by {
            assert(s.rams[j].linked_as(s.registry.connections));
            if j == k {
                assert forall|which: RamPort| #[trigger]
                    ram.ram.port(which).link() == owner_of(
                        s.registry.connections,
                        ram.port_ref(which),
                    ) by {
                    assert(s.rams[k].ram.port(which).link() == owner_of(
                        s.registry.connections,
                        s.rams[k].port_ref(which),
                    ));
                }
            }
        }
    }
}

/// A state that differs from a well-formed one only in what the components
/// hold is well formed, and ports and connections agree in it if they did
/// before.
pub proof fn lemma_same_wiring_keeps_consistent(s: SvaView, t: SvaView)
    requires
        s.wf(),
        s.same_wiring(t),
    ensures
        t.wf(),
        s.consistent() ==> t.consistent(),
{
    assert forall|a: int, b: int| 0 <= a < t.vms.len() && 0 <= b < t.vms.len() && a != b implies (
    #[trigger] t.vms[a]).id != (#[trigger] t.vms[b]).id by {
        assert(s.vms[a].id != s.vms[b].id);
    }
    assert forall|a: int, b: int|
        0 <= a < t.rams.len() && 0 <= b < t.rams.len() && a != b implies (#[trigger] t.rams[a]).id
        != (#[trigger] t.rams[b]).id by {
        assert(s.rams[a].id != s.rams[b].id);
    }
    if s.consistent() {
        let conns = s.registry.connections;
        assert forall|k: int| 0 <= k < t.vms.len() implies (#[trigger] t.vms[k]).linked_as(
            conns,
        ) by {
            assert(s.vms[k].linked_as(conns));
            assert forall|i: int| 0 <= i < t.vms[k].machine.ports.len() implies (
            #[trigger] t.vms[k].machine.ports[i]).link() == owner_of(conns, t.vms[k].port_ref(i)) by {
                assert(s.vms[k].machine.ports[i].link() == owner_of(conns, s.vms[k].port_ref(i)));
            }
        }
        assert forall|k: int| 0 <= k < t.rams.len() implies (#[trigger] t.rams[k]).linked_as(
            conns,
        ) by {
            assert(s.rams[k].linked_as(conns));
            assert forall|which: RamPort| #[trigger]
                t.rams[k].ram.port(which).link() == owner_of(conns, t.rams[k].port_ref(which)) by {
                assert(s.rams[k].ram.port(which).link() == owner_of(
                    conns,
                    s.rams[k].port_ref(which),
                ));
            }
        }
    }
}

/// Writing a value to a connection changes no link.
pub proof fn lemma_reached_same_wiring(s: SvaView, c: usize, v: i32)
    requires
        s.wf(),
    ensures
        s.same_wiring(s.reached(c, v)),
{
    let t = s.reached(c, v);
    assert forall|k: int| 0 <= k < s.vms.len() implies (#[trigger] t.vms[k]).wf() by {
        assert(s.vms[k].wf());
    }
    assert forall|k: int| 0 <= k < s.rams.len() implies (#[trigger] t.rams[k]).wf() by {
        assert(s.rams[k].wf());
    }
}

/// Refreshing a memory module changes no link.
pub proof fn lemma_refresh_step_same_wiring(s: SvaView, k: int)
    requires
        s.wf(),
        0 <= k < s.rams.len(),
    ensures
        s.same_wiring(s.refresh_step(k)),
        s.refresh_step(k).wf(),
        s.consistent() ==> s.refresh_step(k).consistent(),
{
    let w = s.rams[k];
    assert(w.wf());
    let t = SvaView { rams: s.rams.update(k, RamWidowView { ram: w.ram.refreshed(), ..w }), ..s };
    assert(s.same_wiring(t)) by {
        assert forall|j: int| 0 <= j < s.vms.len() implies (#[trigger] t.vms[j]).wf() by {
            assert(s.vms[j].wf());
        }
        assert forall|j: int| 0 <= j < s.rams.len() implies (#[trigger] t.rams[j]).wf() by {
            assert(s.rams[j].wf());
        }
    }
    lemma_same_wiring_keeps_consistent(s, t);
    match (w.ram.read_out(), w.ram.data_port.link()) {
        (Some(v), Some(c)) => {
            lemma_reached_same_wiring(t, c, v);
            let u = t.reached(c, v);
            assert(s.same_wiring(u)) by {
                assert forall|j: int, i: int|
                    0 <= j < s.vms.len() && 0 <= i < s.vms[j].machine.ports.len() implies (
                #[trigger] u.vms[j].machine.ports[i]).link() == s.vms[j].machine.ports[i].link() by {
                    assert(t.vms[j].machine.ports[i].link() == s.vms[j].machine.ports[i].link());
                }
                assert forall|j: int, which: RamPort| 0 <= j < s.rams.len() implies (
                #[trigger] u.rams[j].ram.port(which)).link() == s.rams[j].ram.port(which).link() by {
                    assert(t.rams[j].ram.port(which).link() == s.rams[j].ram.port(which).link());
                }
            }
        },
        _ => {},
    }
    lemma_same_wiring_keeps_consistent(s, s.refresh_step(k));
}

/// Refreshing memory modules keeps the workbench well formed, keeps the
/// number of components, and keeps ports and connections in agreement.
pub proof fn lemma_refreshed_upto(s: SvaView, n: nat)
    requires
        s.wf(),
        n <= s.rams.len(),
    ensures
        s.refreshed_upto(n).wf(),
        s.refreshed_upto(n).rams.len() == s.rams.len(),
        s.refreshed_upto(n).vms.len() == s.vms.len(),
        s.refreshed_upto(n).registry == s.registry,
        s.consistent() ==> s.refreshed_upto(n).consistent(),
    decreases n,
{
    if n > 0 {
        lemma_refreshed_upto(s, (n - 1) as nat);
        lemma_refresh_step_same_wiring(s.refreshed_upto((n - 1) as nat), n - 1);
    }
}

/// Dropping links keeps a workbench well formed.
pub proof fn lemma_unlinked_wf(s: SvaView)
    requires
        s.wf(),
    ensures
        vms_wf(vms_unlinked(s.vms)),
        rams_wf(rams_unlinked(s.rams)),
{
    let v = vms_unlinked(s.vms);
    assert forall|k: int| 0 <= k < v.len() implies (#[trigger] v[k]).wf() by {
        assert(s.vms[k].wf());
    }
    assert forall|a: int, b: int| 0 <= a < v.len() && 0 <= b < v.len() && a != b implies (
    #[trigger] v[a]).id != (#[trigger] v[b]).id by {
        assert(s.vms[a].id != s.vms[b].id);
    }
    let r = rams_unlinked(s.rams);
    assert forall|k: int| 0 <= k < r.len() implies (#[trigger] r[k]).wf() by {
        assert(s.rams[k].wf());
    }
    assert forall|a: int, b: int| 0 <= a < r.len() && 0 <= b < r.len() && a != b implies (
    #[trigger] r[a]).id != (#[trigger] r[b]).id by {
        assert(s.rams[a].id != s.rams[b].id);
    }
}

/// Linking listed ports keeps a workbench well formed.
pub proof fn lemma_relinked_wf(s: SvaView)
    requires
        s.wf(),
    ensures
        vms_wf(vms_relinked(s.vms, s.registry.connections)),
        rams_wf(rams_relinked(s.rams, s.registry.connections)),
{
    let conns = s.registry.connections;
    let v = vms_relinked(s.vms, conns);
    assert forall|k: int| 0 <= k < v.len() implies (#[trigger] v[k]).wf() by {
        assert(s.vms[k].wf());
    }
    assert forall|a: int, b: int| 0 <= a < v.len() && 0 <= b < v.len() && a != b implies (
    #[trigger] v[a]).id != (#[trigger] v[b]).id by {
        assert(s.vms[a].id != s.vms[b].id);
    }
    let r = rams_relinked(s.rams, conns);
    assert forall|k: int| 0 <= k < r.len() implies (#[trigger] r[k]).wf() by {
        assert(s.rams[k].wf());
    }
    assert forall|a: int, b: int| 0 <= a < r.len() && 0 <= b < r.len() && a != b implies (
    #[trigger] r[a]).id != (#[trigger] r[b]).id by {
        assert(s.rams[a].id != s.rams[b].id);
    }
}

} // verus!
