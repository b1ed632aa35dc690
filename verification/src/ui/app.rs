//! The workbench as a whole: the machines, the memory modules and the
//! connection registry, and the operations that keep them in step.
//!
//! Every operation here that touches a port's link touches the member list
//! of the connection too, so that the two keep agreeing; the two exceptions
//! are removing a connection, which leaves stale links until the links are
//! rebuilt, and saving, which drops all links for the time in which the
//! state is written out.

use crate::components::connection::{Connection, ConnectionView};
use crate::components::port::{Port, PortRef, RamPort};
use crate::components::ram::RamView;
use crate::language::Language;
use crate::storage::connections_manager::{
    default_name, has_id, later_id, lemma_push_owner, name_texts, owner_of, views,
    ConnectionManager, RegistrySnapshot, RegistryView,
};
use crate::ui::component_list_widget::ComponentAction;
use crate::ui::ram_window::{fresh_ram, RamWidow, RamWidowView};
use crate::ui::sva_window::{fresh_vm, SVAWindow, SVAWindowView};
use crate::ui::wiring::{
    has_ram, has_vm, is_next_ram_id, is_next_vm_id, lemma_click_keeps_consistent,
    lemma_port_is_at, lemma_ram_port_is_at, lemma_ram_update_keeps_consistent,
    lemma_reached_same_wiring, lemma_refresh_step_same_wiring, lemma_refreshed_upto,
    lemma_relinked_wf, lemma_reload_makes_consistent, lemma_same_wiring_keeps_consistent,
    lemma_unlinked_wf, lemma_vm_update_keeps_consistent, lemma_with_port, ram_position,
    ram_views, rams_linked_as, rams_relinked, rams_unlinked, rams_wf, request_for, vm_position,
    vm_views, vms_linked_as, vms_relinked, vms_unlinked, vms_wf, AreYouSureModalAction,
    ClickOutcome, ComponentRequest, SvaView,
};
use std::collections::HashMap;
use vstd::prelude::*;

verus! {

pub struct SvaUI {
    vms: Vec<SVAWindow>,
    rams: Vec<RamWidow>,
    connections: ConnectionManager,
    connections_copy: Vec<Connection>,
    conn_names_copies: HashMap<usize, String>,
    next_id_copy: usize,
    copy_taken: bool,
}

impl View for SvaUI {
    type V = SvaView;

    closed spec fn view(&self) -> SvaView {
        SvaView {
            vms: vm_views(self.vms@),
            rams: ram_views(self.rams@),
            registry: self.connections@,
            connections_copy: views(self.connections_copy@),
            conn_names_copies: name_texts(self.conn_names_copies@),
            next_id_copy: self.next_id_copy,
            copy_taken: self.copy_taken,
        }
    }
}

impl SvaUI {
    pub open spec fn wf(&self) -> bool {
        self@.wf()
    }

    /// An empty workbench.
    pub fn new() -> (ui: SvaUI)
        ensures
            ui.wf(),
            ui@.consistent(),
            ui@.vms == Seq::<SVAWindowView>::empty(),
            ui@.rams == Seq::<RamWidowView>::empty(),
            ui@.registry.connections == Seq::<ConnectionView>::empty(),
            ui@.registry.names == Map::<usize, Seq<char>>::empty(),
            ui@.registry.current_id.is_none(),
            !ui@.registry.disconnect_mode,
            !ui@.registry.reload,
            ui@.copy_empty(),
    {
        let ui = SvaUI {
            vms: Vec::new(),
            rams: Vec::new(),
            connections: ConnectionManager::new(),
            connections_copy: Vec::new(),
            conn_names_copies: HashMap::new(),
            next_id_copy: 0,
            copy_taken: false,
        };
        assert(ui@.vms =~= Seq::<SVAWindowView>::empty());
        assert(ui@.rams =~= Seq::<RamWidowView>::empty());
        assert(ui@.connections_copy =~= Seq::<ConnectionView>::empty());
        assert(ui@.conn_names_copies =~= Map::<usize, Seq<char>>::empty());
        ui
    }

    /// The connection registry, to read.
    pub fn connections(&self) -> (registry: &ConnectionManager)
        ensures
            registry@ == self@.registry,
    {
        &self.connections
    }

    /// The number of machines.
    pub fn vm_count(&self) -> (n: usize)
        ensures
            n == self@.vms.len(),
    {
        self.vms.len()
    }

    /// The number of memory modules.
    pub fn ram_count(&self) -> (n: usize)
        ensures
            n == self@.rams.len(),
    {
        self.rams.len()
    }

    /// The machine at position `k`.
    pub fn vm_at(&self, k: usize) -> (vm: &SVAWindow)
        requires
            k < self@.vms.len(),
        ensures
            vm@ == self@.vms[k as int],
    {
        &self.vms[k]
    }

    /// The memory window at position `k`.
    pub fn ram_at(&self, k: usize) -> (ram: &RamWidow)
        requires
            k < self@.rams.len(),
        ensures
            ram@ == self@.rams[k as int],
    {
        &self.rams[k]
    }

    /// Whether every machine and memory window is well formed, ids are not
    /// shared, and the registry is in order.
    pub fn is_wf(&self) -> (b: bool)
        ensures
            b == self.wf(),
    {
        Self::are_vms_wf(&self.vms) && Self::are_rams_wf(&self.rams) && self.connections.is_wf()
    }

    /// Whether ports and connections agree.
    pub fn is_consistent(&self) -> (b: bool)
        requires
            self.wf(),
        ensures
            b == self@.consistent(),
    {
        let ghost conns = self@.registry.connections;
        let mut k: usize = 0;
        while k < self.vms.len()
            invariant
                k <= self.vms.len(),
                self.wf(),
                conns == self@.registry.connections,
                forall|j: int| 0 <= j < k ==> (#[trigger] self@.vms[j]).linked_as(conns),
            decreases self.vms.len() - k,
        {
            assert(self@.vms[k as int].wf());
            if !self.vms[k].is_linked_as(&self.connections) {
                assert(!self@.vms[k as int].linked_as(conns));
                return false;
            }
            k += 1;
        }
        let mut r: usize = 0;
        while r < self.rams.len()
            invariant
                r <= self.rams.len(),
                self.wf(),
                conns == self@.registry.connections,
                vms_linked_as(self@.vms, conns),
                forall|j: int| 0 <= j < r ==> (#[trigger] self@.rams[j]).linked_as(conns),
            decreases self.rams.len() - r,
        {
            if !self.rams[r].is_linked_as(&self.connections) {
                assert(!self@.rams[r as int].linked_as(conns));
                return false;
            }
            r += 1;
        }
        true
    }

    /// Whether the machines of a list are well formed and share no id.
    pub fn are_vms_wf(vms: &Vec<SVAWindow>) -> (b: bool)
        ensures
            b == vms_wf(vm_views(vms@)),
    {
        let ghost vs = vm_views(vms@);
        let mut k: usize = 0;
        while k < vms.len()
            invariant
                k <= vms.len(),
                vs == vm_views(vms@),
                forall|j: int| 0 <= j < k ==> (#[trigger] vs[j]).wf(),
                forall|a: int, b: int| 0 <= a < b < k ==> (#[trigger] vs[a]).id != (#[trigger] vs[b]).id,
            decreases vms.len() - k,
        {
            if !vms[k].is_wf() {
                assert(!vs[k as int].wf());
                return false;
            }
            let mut j: usize = 0;
            while j < k
                invariant
                    j <= k < vms.len(),
                    vs == vm_views(vms@),
                    forall|a: int| 0 <= a < j ==> (#[trigger] vs[a]).id != vs[k as int].id,
                decreases k - j,
            {
                if vms[j].get_id() == vms[k].get_id() {
                    assert(vs[j as int].id == vs[k as int].id);
                    return false;
                }
                j += 1;
            }
            k += 1;
        }
        assert forall|a: int, b: int| 0 <= a < vs.len() && 0 <= b < vs.len() && a != b implies (
        #[trigger] vs[a]).id != (#[trigger] vs[b]).id by {
            if a < b {
            } else {
                assert(vs[b].id != vs[a].id);
            }
        }
        true
    }

    /// Whether the memory windows of a list are well formed and share no id.
    pub fn are_rams_wf(rams: &Vec<RamWidow>) -> (b: bool)
        ensures
            b == rams_wf(ram_views(rams@)),
    {
        let ghost rs = ram_views(rams@);
        let mut k: usize = 0;
        while k < rams.len()
            invariant
                k <= rams.len(),
                rs == ram_views(rams@),
                forall|j: int| 0 <= j < k ==> (#[trigger] rs[j]).wf(),
                forall|a: int, b: int| 0 <= a < b < k ==> (#[trigger] rs[a]).id != (#[trigger] rs[b]).id,
            decreases rams.len() - k,
        {
            if !rams[k].is_wf() {
                assert(!rs[k as int].wf());
                return false;
            }
            let mut j: usize = 0;
            while j < k
                invariant
                    j <= k < rams.len(),
                    rs == ram_views(rams@),
                    forall|a: int| 0 <= a < j ==> (#[trigger] rs[a]).id != rs[k as int].id,
                decreases k - j,
            {
                if rams[j].get_id() == rams[k].get_id() {
                    assert(rs[j as int].id == rs[k as int].id);
                    return false;
                }
                j += 1;
            }
            k += 1;
        }
        assert forall|a: int, b: int| 0 <= a < rs.len() && 0 <= b < rs.len() && a != b implies (
        #[trigger] rs[a]).id != (#[trigger] rs[b]).id by {
            if a < b {
            } else {
                assert(rs[b].id != rs[a].id);
            }
        }
        true
    }

    /// The machine at position `k`, to work with. Whatever a machine does
    /// by itself keeps its id and its links, and so keeps the workbench in
    /// order and its ports in agreement with the connections.
    pub fn vm_mut(&mut self, k: usize) -> (vm: &mut SVAWindow)
        requires
            k < old(self)@.vms.len(),
        ensures
            vm@ == old(self)@.vms[k as int],
            final(self)@ == (SvaView {
                vms: old(self)@.vms.update(k as int, final(vm)@),
                ..old(self)@
            }),
            old(self).wf() && old(self)@.vm_fits(k as int, final(vm)@) ==> final(self).wf() && (old(
                self,
            )@.consistent() ==> final(self)@.consistent()),
    {
        proof {
            let vms = self.vms@;
            let s = self@;
            assert forall|w: SVAWindow| #[trigger]
                vm_views(vms.update(k as int, w)) == vm_views(vms).update(k as int, w@) by {
                assert(vm_views(vms.update(k as int, w)) =~= vm_views(vms).update(k as int, w@));
            }
            assert forall|v: SVAWindowView| s.wf() && #[trigger] s.vm_fits(k as int, v) implies {
                let t = SvaView { vms: s.vms.update(k as int, v), ..s };
                t.wf() && (s.consistent() ==> t.consistent())
            } by {
                lemma_vm_update_keeps_consistent(s, k as int, v);
            }
        }
        &mut self.vms[k]
    }

    /// The memory window at position `k`, to work with. Whatever a memory
    /// window does by itself keeps its id and its links.
    pub fn ram_mut(&mut self, k: usize) -> (ram: &mut RamWidow)
        requires
            k < old(self)@.rams.len(),
        ensures
            ram@ == old(self)@.rams[k as int],
            final(self)@ == (SvaView {
                rams: old(self)@.rams.update(k as int, final(ram)@),
                ..old(self)@
            }),
            old(self).wf() && old(self)@.ram_fits(k as int, final(ram)@) ==> final(self).wf() && (
            old(self)@.consistent() ==> final(self)@.consistent()),
    {
        proof {
            let s = self@;
            assert forall|v: RamWidowView| s.wf() && #[trigger] s.ram_fits(k as int, v) implies {
                let t = SvaView { rams: s.rams.update(k as int, v), ..s };
                t.wf() && (s.consistent() ==> t.consistent())
            } by {
                lemma_ram_update_keeps_consistent(s, k as int, v);
            }
            let rams = self.rams@;
            assert forall|w: RamWidow| #[trigger]
                ram_views(rams.update(k as int, w)) == ram_views(rams).update(k as int, w@) by {
                assert(ram_views(rams.update(k as int, w)) =~= ram_views(rams).update(
                    k as int,
                    w@,
                ));
            }
        }
        &mut self.rams[k]
    }

    /// The position of the machine with the given id.
    pub fn find_vm(&self, id: usize) -> (pos: Option<usize>)
        ensures
            pos.is_some() == has_vm(self@.vms, id),
            pos.is_some() ==> pos.unwrap() < self@.vms.len() && self@.vms[pos.unwrap() as int].id
                == id,
    {
        let ghost vs = self@.vms;
        let mut k: usize = 0;
        while k < self.vms.len()
            invariant
                k <= self.vms.len(),
                vs == vm_views(self.vms@),
                forall|j: int| 0 <= j < k ==> (#[trigger] vs[j]).id != id,
            decreases self.vms.len() - k,
        {
            if self.vms[k].get_id() == id {
                assert(vs[k as int].id == id);
                return Some(k);
            }
            k += 1;
        }
        None
    }

    /// The position of the memory module with the given id.
    pub fn find_ram(&self, id: usize) -> (pos: Option<usize>)
        ensures
            pos.is_some() == has_ram(self@.rams, id),
            pos.is_some() ==> pos.unwrap() < self@.rams.len() && self@.rams[pos.unwrap() as int].id
                == id,
    {
        let ghost rs = self@.rams;
        let mut k: usize = 0;
        while k < self.rams.len()
            invariant
                k <= self.rams.len(),
                rs == ram_views(self.rams@),
                forall|j: int| 0 <= j < k ==> (#[trigger] rs[j]).id != id,
            decreases self.rams.len() - k,
        {
            if self.rams[k].get_id() == id {
                assert(rs[k as int].id == id);
                return Some(k);
            }
            k += 1;
        }
        None
    }

    /// The port that `port` names, if its component exists and has it.
    pub fn get_port(&self, port: PortRef) -> (p: Option<Port>)
        requires
            self.wf(),
        ensures
            p == self@.port(port),
    {
        match port {
            PortRef::Vm { owner_id, index } => match self.find_vm(owner_id) {
                Some(k) => {
                    proof {
                        let k0 = vm_position(self@.vms, owner_id);
                        if k0 != k {
                            assert(self@.vms[k0].id != self@.vms[k as int].id);
                        }
                    }
                    self.vms[k].get_port(index)
                },
                None => None,
            },
            PortRef::Ram { owner_id, port: which } => match self.find_ram(owner_id) {
                Some(k) => {
                    proof {
                        let k0 = ram_position(self@.rams, owner_id);
                        if k0 != k {
                            assert(self@.rams[k0].id != self@.rams[k as int].id);
                        }
                    }
                    Some(self.rams[k].get_port(which))
                },
                None => None,
            },
        }
    }

    /// Replaces the port that `port` names.
    fn put_port(&mut self, port: PortRef, p: Port)
        requires
            old(self).wf(),
            old(self)@.port(port).is_some(),
        ensures
            final(self)@ == old(self)@.with_port(port, p),
    {
        let ghost before = self@;
        match port {
            PortRef::Vm { owner_id, index } => match self.find_vm(owner_id) {
                Some(k) => {
                    proof {
                        let k0 = vm_position(before.vms, owner_id);
                        if k0 != k {
                            assert(before.vms[k0].id != before.vms[k as int].id);
                        }
                        assert(before.vms[k as int].wf());
                    }
                    self.vms[k].set_port(index, p);
                    assert(self@.vms =~= before.with_port(port, p).vms);
                },
                None => {},
            },
            PortRef::Ram { owner_id, port: which } => match self.find_ram(owner_id) {
                Some(k) => {
                    proof {
                        let k0 = ram_position(before.rams, owner_id);
                        if k0 != k {
                            assert(before.rams[k0].id != before.rams[k as int].id);
                        }
                        assert(before.rams[k as int].wf());
                    }
                    self.rams[k].set_port(which, p);
                    assert(self@.rams =~= before.with_port(port, p).rams);
                },
                None => {},
            },
        }
    }

    /// A click on a port. With an active cursor, a port that is not
    /// connected joins the connection under the cursor and a connected one
    /// is refused without any change. In disconnect mode a connected port
    /// leaves its connection, which stays even when it is then empty.
    /// Where ports and connections agreed before the click, they agree
    /// after it.
    pub fn click_port(&mut self, port: PortRef) -> (outcome: ClickOutcome)
        requires
            old(self).wf(),
        ensures
            final(self).wf(),
            outcome == old(self)@.click_outcome(port),
            final(self)@ == old(self)@.after_click(port),
            old(self)@.consistent() ==> final(self)@.consistent(),
    {
        proof {
            lemma_click_keeps_consistent(self@, port);
        }
        let p = match self.get_port(port) {
            Some(p) => p,
            None => {
                return ClickOutcome::NoSuchPort;
            },
        };
        if self.connections.is_cursor_active() {
            let c = match self.connections.get_current_id() {
                Some(c) => c,
                None => {
                    return ClickOutcome::AlreadyConnected;
                },
            };
            if p.is_connected() {
                return ClickOutcome::AlreadyConnected;
            }
            if !self.connections.add_member(c, port) {
                return ClickOutcome::AlreadyConnected;
            }
            let mut linked = p;
            linked.connect(c);
            self.put_port(port, linked);
            ClickOutcome::Connected(c)
        } else if self.connections.in_disconnect_mode() {
            match p.get_conn_id() {
                Some(c) => {
                    self.connections.remove_member(port);
                    let mut unlinked = p;
                    unlinked.disconnect();
                    self.put_port(port, unlinked);
                    ClickOutcome::Disconnected(c)
                },
                None => ClickOutcome::NotConnected,
            }
        } else {
            ClickOutcome::Idle
        }
    }

    /// A click on port `index` of the machine `vm_id`.
    pub fn click_vm_port(&mut self, vm_id: usize, index: usize) -> (outcome: ClickOutcome)
        requires
            old(self).wf(),
        ensures
            final(self).wf(),
            outcome == old(self)@.click_outcome(PortRef::Vm { owner_id: vm_id, index }),
            final(self)@ == old(self)@.after_click(PortRef::Vm { owner_id: vm_id, index }),
            old(self)@.consistent() ==> final(self)@.consistent(),
    {
        self.click_port(PortRef::Vm { owner_id: vm_id, index })
    }

    /// A click on a port of the memory module `ram_id`.
    pub fn click_ram_port(&mut self, ram_id: usize, which: RamPort) -> (outcome: ClickOutcome)
        requires
            old(self).wf(),
        ensures
            final(self).wf(),
            outcome == old(self)@.click_outcome(PortRef::Ram { owner_id: ram_id, port: which }),
            final(self)@ == old(self)@.after_click(PortRef::Ram { owner_id: ram_id, port: which }),
            old(self)@.consistent() ==> final(self)@.consistent(),
    {
        self.click_port(PortRef::Ram { owner_id: ram_id, port: which })
    }

    /// The id for a new machine, or `None` when the largest number there is
    /// is in use.
    pub fn next_vm_id(&self) -> (id: Option<usize>)
        ensures
            match id {
                Some(id) => is_next_vm_id(self@.vms, id),
                None => has_vm(self@.vms, usize::MAX),
            },
    {
        let ghost vs = self@.vms;
        let mut next: usize = 0;
        let mut k: usize = 0;
        while k < self.vms.len()
            invariant
                k <= self.vms.len(),
                vs == vm_views(self.vms@),
                forall|j: int| 0 <= j < k ==> (#[trigger] vs[j]).id < next,
                next == 0 || has_vm(vs, (next - 1) as usize),
            decreases self.vms.len() - k,
        {
            let id = self.vms[k].get_id();
            assert(vs[k as int].id == id);
            if id == usize::MAX {
                return None;
            }
            if id >= next {
                next = id + 1;
            }
            k += 1;
        }
        Some(next)
    }

    /// The id for a new memory module, or `None` when the largest number
    /// there is is in use.
    pub fn next_ram_id(&self) -> (id: Option<usize>)
        ensures
            match id {
                Some(id) => is_next_ram_id(self@.rams, id),
                None => has_ram(self@.rams, usize::MAX),
            },
    {
        let ghost rs = self@.rams;
        let mut next: usize = 0;
        let mut k: usize = 0;
        while k < self.rams.len()
            invariant
                k <= self.rams.len(),
                rs == ram_views(self.rams@),
                forall|j: int| 0 <= j < k ==> (#[trigger] rs[j]).id < next,
                next == 0 || has_ram(rs, (next - 1) as usize),
            decreases self.rams.len() - k,
        {
            let id = self.rams[k].get_id();
            assert(rs[k as int].id == id);
            if id == usize::MAX {
                return None;
            }
            if id >= next {
                next = id + 1;
            }
            k += 1;
        }
        Some(next)
    }

    /// Adds a machine under the next id and returns that id. Ports that a
    /// connection lists already, left over from a machine that had this id,
    /// are linked at once. Nothing is added when the ids have run out.
    pub fn add_vm(&mut self, stack_present: bool) -> (id: Option<usize>)
        requires
            old(self).wf(),
        ensures
            final(self).wf(),
            id.is_none() == has_vm(old(self)@.vms, usize::MAX),
            match id {
                Some(id) => is_next_vm_id(old(self)@.vms, id) && final(self)@ == (SvaView {
                    vms: old(self)@.vms.push(
                        fresh_vm(id, stack_present).relinked(old(self)@.registry.connections),
                    ),
                    ..old(self)@
                }),
                None => final(self)@ == old(self)@,
            },
            old(self)@.consistent() ==> final(self)@.consistent(),
    {
        let id = match self.next_vm_id() {
            Some(id) => id,
            None => {
                return None;
            },
        };
        let ghost before = self@;
        let mut vm = SVAWindow::new(id, stack_present);
        vm.relink_ports(&self.connections);
        self.vms.push(vm);
        proof {
            let conns = before.registry.connections;
            let added = fresh_vm(id, stack_present).relinked(conns);
            assert(self@.vms =~= before.vms.push(added));
            assert(!has_vm(before.vms, usize::MAX)) by {
                if has_vm(before.vms, usize::MAX) {
                    let k = choose|k: int|
                        0 <= k < before.vms.len() && (#[trigger] before.vms[k]).id == usize::MAX;
                    assert(before.vms[k].id < id);
                }
            }
            assert forall|k: int| 0 <= k < self@.vms.len() implies (#[trigger] self@.vms[k]).wf() by {
                if k < before.vms.len() {
                    assert(before.vms[k].wf());
                }
            }
            assert forall|a: int, b: int|
                0 <= a < self@.vms.len() && 0 <= b < self@.vms.len() && a != b implies (
            #[trigger] self@.vms[a]).id != (#[trigger] self@.vms[b]).id by {
                if a < before.vms.len() {
                    assert(before.vms[a].id < id);
                }
                if b < before.vms.len() {
                    assert(before.vms[b].id < id);
                }
                if a < before.vms.len() && b < before.vms.len() {
                    assert(before.vms[a].id != before.vms[b].id);
                }
            }
            if before.consistent() {
                assert forall|k: int| 0 <= k < self@.vms.len() implies (
                #[trigger] self@.vms[k]).linked_as(conns) by {
                    if k < before.vms.len() {
                        assert(before.vms[k].linked_as(conns));
                    } else {
                        assert forall|i: int| 0 <= i < added.machine.ports.len() implies (
                        #[trigger] added.machine.ports[i]).link() == owner_of(
                            conns,
                            added.port_ref(i),
                        ) by {
                            assert(fresh_vm(id, stack_present).machine.ports[i].link().is_none());
                        }
                    }
                }
            }
        }
        Some(id)
    }

    /// Adds a memory module under the next id and returns that id. Ports
    /// that a connection lists already are linked at once. Nothing is added
    /// when the ids have run out.
    pub fn add_ram(&mut self) -> (id: Option<usize>)
        requires
            old(self).wf(),
        ensures
            final(self).wf(),
            id.is_none() == has_ram(old(self)@.rams, usize::MAX),
            match id {
                Some(id) => is_next_ram_id(old(self)@.rams, id) && final(self)@ == (SvaView {
                    rams: old(self)@.rams.push(
                        fresh_ram(id).relinked(old(self)@.registry.connections),
                    ),
                    ..old(self)@
                }),
                None => final(self)@ == old(self)@,
            },
            old(self)@.consistent() ==> final(self)@.consistent(),
    {
        let id = match self.next_ram_id() {
            Some(id) => id,
            None => {
                return None;
            },
        };
        let ghost before = self@;
        let mut ram = RamWidow::new(id);
        ram.relink_ports(&self.connections);
        self.rams.push(ram);
        proof {
            let conns = before.registry.connections;
            let added = fresh_ram(id).relinked(conns);
            assert(self@.rams =~= before.rams.push(added));
            assert(!has_ram(before.rams, usize::MAX)) by {
                if has_ram(before.rams, usize::MAX) {
                    let k = choose|k: int|
                        0 <= k < before.rams.len() && (#[trigger] before.rams[k]).id == usize::MAX;
                    assert(before.rams[k].id < id);
                }
            }
            assert forall|k: int| 0 <= k < self@.rams.len() implies (
            #[trigger] self@.rams[k]).wf() by {
                if k < before.rams.len() {
                    assert(before.rams[k].wf());
                }
            }
            assert forall|a: int, b: int|
                0 <= a < self@.rams.len() && 0 <= b < self@.rams.len() && a != b implies (
            #[trigger] self@.rams[a]).id != (#[trigger] self@.rams[b]).id by {
                if a < before.rams.len() {
                    assert(before.rams[a].id < id);
                }
                if b < before.rams.len() {
                    assert(before.rams[b].id < id);
                }
                if a < before.rams.len() && b < before.rams.len() {
                    assert(before.rams[a].id != before.rams[b].id);
                }
            }
            if before.consistent() {
                assert forall|k: int| 0 <= k < self@.rams.len() implies (
                #[trigger] self@.rams[k]).linked_as(conns) by {
                    if k < before.rams.len() {
                        assert(before.rams[k].linked_as(conns));
                    } else {
                        assert forall|which: RamPort| #[trigger]
                            added.ram.port(which).link() == owner_of(
                                conns,
                                added.port_ref(which),
                            ) by {
                            assert(fresh_ram(id).ram.port(which).link().is_none());
                        }
                    }
                }
            }
        }
        Some(id)
    }

    /// Removes the machine with the given id, if there is one. Returns
    /// whether the removed machine has a thread, which then has to be
    /// joined. Connections that list the machine's ports keep listing them.
    pub fn remove_vm(&mut self, id: Option<usize>) -> (had_thread: bool)
        requires
            old(self).wf(),
        ensures
            final(self).wf(),
            final(self)@ == old(self)@.vm_removed(id),
            had_thread == (id.is_some() && has_vm(old(self)@.vms, id.unwrap()) && old(
                self,
            )@.vms[vm_position(old(self)@.vms, id.unwrap())].has_thread),
            old(self)@.consistent() ==> final(self)@.consistent(),
    {
        let id = match id {
            Some(id) => id,
            None => {
                return false;
            },
        };
        let ghost before = self@;
        match self.find_vm(id) {
            None => false,
            Some(k) => {
                proof {
                    let k0 = vm_position(before.vms, id);
                    if k0 != k {
                        assert(before.vms[k0].id != before.vms[k as int].id);
                    }
                }
                let vm = self.vms.remove(k);
                proof {
                    let after = self@.vms;
                    assert(after =~= before.vms.remove(k as int));
                    assert forall|j: int| 0 <= j < after.len() implies (#[trigger] after[j]).wf()
                        && (before.consistent() ==> after[j].linked_as(
                        before.registry.connections,
                    )) by {
                        let j0 = if j < k { j } else { j + 1 };
                        assert(before.vms[j0].wf());
                        if before.consistent() {
                            assert(before.vms[j0].linked_as(before.registry.connections));
                        }
                    }
                    assert forall|a: int, b: int|
                        0 <= a < after.len() && 0 <= b < after.len() && a != b implies (
                    #[trigger] after[a]).id != (#[trigger] after[b]).id by {
                        let a0 = if a < k { a } else { a + 1 };
                        let b0 = if b < k { b } else { b + 1 };
                        assert(before.vms[a0].id != before.vms[b0].id);
                    }
                }
                vm.has_thread()
            },
        }
    }

    /// Removes the memory module with the given id, if there is one.
    /// Connections that list its ports keep listing them.
    pub fn remove_ram(&mut self, id: Option<usize>)
        requires
            old(self).wf(),
        ensures
            final(self).wf(),
            final(self)@ == old(self)@.ram_removed(id),
            old(self)@.consistent() ==> final(self)@.consistent(),
    {
        let id = match id {
            Some(id) => id,
            None => {
                return ;
            },
        };
        let ghost before = self@;
        match self.find_ram(id) {
            None => {},
            Some(k) => {
                proof {
                    let k0 = ram_position(before.rams, id);
                    if k0 != k {
                        assert(before.rams[k0].id != before.rams[k as int].id);
                    }
                }
                self.rams.remove(k);
                proof {
                    let after = self@.rams;
                    assert(after =~= before.rams.remove(k as int));
                    assert forall|j: int| 0 <= j < after.len() implies (#[trigger] after[j]).wf()
                        && (before.consistent() ==> after[j].linked_as(
                        before.registry.connections,
                    )) by {
                        let j0 = if j < k { j } else { j + 1 };
                        assert(before.rams[j0].wf());
                        if before.consistent() {
                            assert(before.rams[j0].linked_as(before.registry.connections));
                        }
                    }
                    assert forall|a: int, b: int|
                        0 <= a < after.len() && 0 <= b < after.len() && a != b implies (
                    #[trigger] after[a]).id != (#[trigger] after[b]).id by {
                        let a0 = if a < k { a } else { a + 1 };
                        let b0 = if b < k { b } else { b + 1 };
                        assert(before.rams[a0].id != before.rams[b0].id);
                    }
                }
            },
        }
    }

    /// Removes every machine, memory module and connection, and starts the
    /// connection ids over.
    pub fn clear_file(&mut self)
        requires
            old(self).wf(),
        ensures
            final(self).wf(),
            final(self)@.consistent(),
            final(self)@ == old(self)@.cleared(),
    {
        self.vms.clear();
        self.rams.clear();
        self.connections.clear_connections();
        assert(self@.vms =~= Seq::empty());
        assert(self@.rams =~= Seq::empty());
    }

    /// Renames the machine with the given id; returns whether there is one.
    pub fn change_vm_name(&mut self, id: usize, name: String) -> (found: bool)
        requires
            old(self).wf(),
        ensures
            final(self).wf(),
            found == has_vm(old(self)@.vms, id),
            final(self)@ == if found {
                SvaView {
                    vms: old(self)@.vms.update(
                        vm_position(old(self)@.vms, id),
                        SVAWindowView {
                            name: name@,
                            ..old(self)@.vms[vm_position(old(self)@.vms, id)]
                        },
                    ),
                    ..old(self)@
                }
            } else {
                old(self)@
            },
            old(self)@.consistent() ==> final(self)@.consistent(),
    {
        let ghost before = self@;
        match self.find_vm(id) {
            None => false,
            Some(k) => {
                proof {
                    let k0 = vm_position(before.vms, id);
                    if k0 != k {
                        assert(before.vms[k0].id != before.vms[k as int].id);
                    }
                }
                self.vms[k].set_name(name);
                proof {
                    let renamed = SVAWindowView { name: name@, ..before.vms[k as int] };
                    assert(self@.vms =~= before.vms.update(k as int, renamed));
                    assert(before.vms[k as int].wf());
                    lemma_vm_update_keeps_consistent(before, k as int, renamed);
                }
                true
            },
        }
    }

    /// Renames the memory module with the given id; returns whether there
    /// is one.
    pub fn change_ram_name(&mut self, id: usize, name: String) -> (found: bool)
        requires
            old(self).wf(),
        ensures
            final(self).wf(),
            found == has_ram(old(self)@.rams, id),
            final(self)@ == if found {
                SvaView {
                    rams: old(self)@.rams.update(
                        ram_position(old(self)@.rams, id),
                        RamWidowView {
                            name: name@,
                            ..old(self)@.rams[ram_position(old(self)@.rams, id)]
                        },
                    ),
                    ..old(self)@
                }
            } else {
                old(self)@
            },
            old(self)@.consistent() ==> final(self)@.consistent(),
    {
        let ghost before = self@;
        match self.find_ram(id) {
            None => false,
            Some(k) => {
                proof {
                    let k0 = ram_position(before.rams, id);
                    if k0 != k {
                        assert(before.rams[k0].id != before.rams[k as int].id);
                    }
                }
                self.rams[k].set_name(name);
                proof {
                    let renamed = RamWidowView { name: name@, ..before.rams[k as int] };
                    assert(self@.rams =~= before.rams.update(k as int, renamed));
                    assert(before.rams[k as int].wf());
                    lemma_ram_update_keeps_consistent(before, k as int, renamed);
                }
                true
            },
        }
    }

    /// Stores `value` in cell `index` of the memory module `ram_id`.
    /// Returns whether it did: there has to be such a module and such a
    /// cell.
    pub fn set_ram_value(&mut self, ram_id: Option<usize>, index: usize, value: i32) -> (stored:
        bool)
        requires
            old(self).wf(),
        ensures
            final(self).wf(),
            stored == (ram_id.is_some() && has_ram(old(self)@.rams, ram_id.unwrap()) && index < old(
                self,
            )@.rams[ram_position(old(self)@.rams, ram_id.unwrap())].ram.cells.len()),
            final(self)@ == if stored {
                let k = ram_position(old(self)@.rams, ram_id.unwrap());
                SvaView {
                    rams: old(self)@.rams.update(
                        k,
                        RamWidowView {
                            ram: crate::components::ram::RamView {
                                cells: old(self)@.rams[k].ram.cells.update(index as int, value),
                                ..old(self)@.rams[k].ram
                            },
                            ..old(self)@.rams[k]
                        },
                    ),
                    ..old(self)@
                }
            } else {
                old(self)@
            },
            old(self)@.consistent() ==> final(self)@.consistent(),
    {
        let id = match ram_id {
            Some(id) => id,
            None => {
                return false;
            },
        };
        let ghost before = self@;
        match self.find_ram(id) {
            None => false,
            Some(k) => {
                proof {
                    let k0 = ram_position(before.rams, id);
                    if k0 != k {
                        assert(before.rams[k0].id != before.rams[k as int].id);
                    }
                    assert(before.rams[k as int].wf());
                }
                let stored = self.rams[k].set_value_at_index(index, value);
                proof {
                    assert(self@.rams =~= before.rams.update(k as int, self@.rams[k as int]));
                    lemma_ram_update_keeps_consistent(before, k as int, self@.rams[k as int]);
                    if !stored {
                        assert(self@.rams =~= before.rams);
                    }
                }
                stored
            },
        }
    }

    /// Creates an empty connection and returns its id, or `None` when the
    /// ids have run out.
    pub fn create_connection(&mut self) -> (id: Option<usize>)
        requires
            old(self).wf(),
        ensures
            final(self).wf(),
            id.is_some() == (old(self)@.registry.next_id < usize::MAX),
            match id {
                Some(id) => id == old(self)@.registry.next_id && final(self)@ == (SvaView {
                    registry: RegistryView {
                        connections: old(self)@.registry.connections.push(
                            ConnectionView { id, members: Seq::empty() },
                        ),
                        names: old(self)@.registry.names.insert(id, default_name(id)),
                        next_id: (id + 1) as usize,
                        ..old(self)@.registry
                    },
                    ..old(self)@
                }),
                None => final(self)@ == old(self)@,
            },
            old(self)@.consistent() ==> final(self)@.consistent(),
    {
        if !self.connections.can_create() {
            return None;
        }
        let ghost before = self@;
        let id = self.connections.create_connection();
        proof {
            let conns = before.registry.connections;
            let after = self@.registry.connections;
            if before.consistent() {
                assert forall|k: int| 0 <= k < self@.vms.len() implies (
                #[trigger] self@.vms[k]).linked_as(after) by {
                    assert(before.vms[k].linked_as(conns));
                    assert forall|i: int| 0 <= i < self@.vms[k].machine.ports.len() implies (
                    #[trigger] self@.vms[k].machine.ports[i]).link() == owner_of(
                        after,
                        self@.vms[k].port_ref(i),
                    ) by {
                        lemma_push_owner(conns, id, before.vms[k].port_ref(i));
                        assert(before.vms[k].machine.ports[i].link() == owner_of(
                            conns,
                            before.vms[k].port_ref(i),
                        ));
                    }
                }
                assert forall|k: int| 0 <= k < self@.rams.len() implies (
                #[trigger] self@.rams[k]).linked_as(after) by {
                    assert(before.rams[k].linked_as(conns));
                    assert forall|which: RamPort| #[trigger]
                        self@.rams[k].ram.port(which).link() == owner_of(
                            after,
                            self@.rams[k].port_ref(which),
                        ) by {
                        lemma_push_owner(conns, id, before.rams[k].port_ref(which));
                        assert(before.rams[k].ram.port(which).link() == owner_of(
                            conns,
                            before.rams[k].port_ref(which),
                        ));
                    }
                }
            }
        }
        Some(id)
    }

    /// Removes the connection `id`, if there is one, and asks for the links
    /// to be rebuilt. Until they are, ports that were linked to the
    /// connection keep their stale link.
    pub fn remove_connection(&mut self, id: Option<usize>)
        requires
            old(self).wf(),
        ensures
            final(self).wf(),
            final(self)@ == old(self)@.connection_removed(id),
    {
        self.connections.remove_connection(id);
    }

    /// Gives the connection `id` a new display name. Nothing happens when
    /// `id` is `None` or names no connection.
    pub fn rename_connection(&mut self, id: Option<usize>, new_name: String)
        requires
            old(self).wf(),
        ensures
            final(self).wf(),
            final(self)@ == if id.is_some() && has_id(
                old(self)@.registry.connections,
                id.unwrap(),
            ) {
                SvaView {
                    registry: RegistryView {
                        names: old(self)@.registry.names.insert(id.unwrap(), new_name@),
                        ..old(self)@.registry
                    },
                    ..old(self)@
                }
            } else {
                old(self)@
            },
            old(self)@.consistent() ==> final(self)@.consistent(),
    {
        self.connections.set_name(id, new_name);
    }

    /// Selects the connection that clicked ports join, or none. Selecting
    /// ends the disconnect mode.
    pub fn set_current_id(&mut self, id: Option<usize>)
        requires
            old(self).wf(),
        ensures
            final(self).wf(),
            final(self)@ == (SvaView {
                registry: RegistryView {
                    current_id: id,
                    disconnect_mode: false,
                    ..old(self)@.registry
                },
                ..old(self)@
            }),
            old(self)@.consistent() ==> final(self)@.consistent(),
    {
        self.connections.set_current_id(id);
    }

    /// What the connect button of the connection `id` does: it selects the
    /// connection, or clears the cursor when the connection is selected
    /// already.
    pub fn toggle_current_id(&mut self, id: usize)
        requires
            old(self).wf(),
        ensures
            final(self).wf(),
            final(self)@ == (SvaView {
                registry: RegistryView {
                    current_id: if old(self)@.registry.current_id == Some(id) {
                        None
                    } else {
                        Some(id)
                    },
                    disconnect_mode: false,
                    ..old(self)@.registry
                },
                ..old(self)@
            }),
            old(self)@.consistent() ==> final(self)@.consistent(),
    {
        let selected = match self.connections.get_current_id() {
            Some(c) => c == id,
            None => false,
        };
        if selected {
            self.connections.set_current_id(None);
        } else {
            self.connections.set_current_id(Some(id));
        }
    }

    /// Switches the disconnect mode on or off and clears the cursor.
    pub fn toggle_disconnect_mode(&mut self)
        requires
            old(self).wf(),
        ensures
            final(self).wf(),
            final(self)@ == (SvaView {
                registry: RegistryView {
                    current_id: None,
                    disconnect_mode: !old(self)@.registry.disconnect_mode,
                    ..old(self)@.registry
                },
                ..old(self)@
            }),
            old(self)@.consistent() ==> final(self)@.consistent(),
    {
        self.connections.toggle_disconnect_mode();
    }

    /// Sets the registry aside for saving.
    pub fn copy_connections_and_their_names(&mut self)
        requires
            old(self).wf(),
        ensures
            final(self).wf(),
            final(self)@ == (SvaView {
                connections_copy: old(self)@.registry.connections,
                conn_names_copies: old(self)@.registry.names,
                next_id_copy: old(self)@.registry.next_id,
                copy_taken: true,
                ..old(self)@
            }),
    {
        let snap = self.connections.snapshot();
        self.connections_copy = snap.connections;
        self.conn_names_copies = snap.names;
        self.next_id_copy = snap.next_id;
        self.copy_taken = true;
    }

    /// Puts the registry back from what was set aside, and empties that.
    /// Returns whether the copy could be installed; one that cannot leaves
    /// the registry as it is.
    pub fn set_connections_and_their_names(&mut self) -> (installed: bool)
        requires
            old(self).wf(),
        ensures
            final(self).wf(),
            installed == old(self)@.copy_installable(),
            final(self)@ == (SvaView {
                registry: old(self)@.registry_restored(),
                connections_copy: Seq::empty(),
                conn_names_copies: Map::empty(),
                next_id_copy: 0,
                copy_taken: false,
                ..old(self)@
            }),
    {
        let mut connections: Vec<Connection> = Vec::new();
        let mut names: HashMap<usize, String> = HashMap::new();
        std::mem::swap(&mut connections, &mut self.connections_copy);
        std::mem::swap(&mut names, &mut self.conn_names_copies);
        let snap = RegistrySnapshot { connections, names, next_id: self.next_id_copy };
        let taken = self.copy_taken;
        self.next_id_copy = 0;
        self.copy_taken = false;
        let installed = if taken {
            self.connections.restore(snap)
        } else {
            false
        };
        proof {
            assert(self@.connections_copy =~= Seq::empty());
            assert(self@.conn_names_copies =~= Map::empty());
        }
        installed
    }

    /// Prepares the state for being written out: the registry is set aside
    /// and every link is dropped.
    pub fn begin_export(&mut self)
        requires
            old(self).wf(),
        ensures
            final(self).wf(),
            final(self)@ == old(self)@.export_begun(),
    {
        self.copy_connections_and_their_names();
        self.disconnect_vm_ports();
        self.disconnect_ram_ports();
    }

    /// Ends what [`SvaUI::begin_export`] began: the registry is put back
    /// and every listed port is linked again. After a save that began from
    /// a state in which ports and connections agreed, the state is what it
    /// was before.
    pub fn finish_export(&mut self)
        requires
            old(self).wf(),
        ensures
            final(self).wf(),
            final(self)@ == old(self)@.export_finished(),
    {
        self.set_connections_and_their_names();
        self.reconnect_vm_ports();
        self.reconnect_ram_ports();
    }

    /// Loads saved machines, memory modules and connections in place of the
    /// present ones and links every listed port; members whose component is
    /// not there are passed over. What cannot be loaded is refused as a
    /// whole and changes nothing.
    pub fn import(
        &mut self,
        vms: Vec<SVAWindow>,
        rams: Vec<RamWidow>,
        snapshot: RegistrySnapshot,
    ) -> (loaded: bool)
        requires
            old(self).wf(),
        ensures
            final(self).wf(),
            loaded == SvaView::loadable(
                vm_views(vms@),
                ram_views(rams@),
                views(snapshot.connections@),
                snapshot.next_id,
            ),
            final(self)@ == if loaded {
                old(self)@.loaded(
                    vm_views(vms@),
                    ram_views(rams@),
                    views(snapshot.connections@),
                    name_texts(snapshot.names@),
                    snapshot.next_id,
                )
            } else {
                old(self)@
            },
            loaded ==> final(self)@.consistent(),
    {
        if !Self::are_vms_wf(&vms) || !Self::are_rams_wf(&rams) || !ConnectionManager::can_restore(
            &snapshot,
        ) {
            return false;
        }
        let ghost before = self@;
        let ghost given = SvaView {
            vms: vm_views(vms@),
            rams: ram_views(rams@),
            registry: RegistryView {
                connections: views(snapshot.connections@),
                names: name_texts(snapshot.names@),
                next_id: later_id(before.registry.next_id, snapshot.next_id),
                ..before.registry
            },
            ..before
        };
        self.vms = vms;
        self.rams = rams;
        self.connections.restore(snapshot);
        assert(self@ == given);
        self.disconnect_vm_ports();
        self.disconnect_ram_ports();
        self.reconnect_vm_ports();
        self.reconnect_ram_ports();
        proof {
            lemma_reload_makes_consistent(given);
            assert(vms_linked_as(self@.vms, self@.registry.connections));
            assert(rams_linked_as(self@.rams, self@.registry.connections));
        }
        true
    }

    /// Writes `v` to every port that is linked to connection `c`.
    fn reach(&mut self, c: usize, v: i32)
        requires
            old(self).wf(),
        ensures
            final(self).wf(),
            final(self)@ == old(self)@.reached(c, v),
    {
        let ghost before = self@;
        let mut k: usize = 0;
        while k < self.vms.len()
            invariant
                k <= self.vms.len(),
                before.wf(),
                self.vms.len() == before.vms.len(),
                self@ == (SvaView { vms: self@.vms, ..before }),
                forall|j: int|
                    0 <= j < k ==> (#[trigger] self@.vms[j]) == before.reached(c, v).vms[j],
                forall|j: int| k <= j < self.vms.len() ==> (#[trigger] self@.vms[j]) == before.vms[j],
            decreases self.vms.len() - k,
        {
            let ghost mid = self@;
            assert(mid.vms[k as int] == before.vms[k as int]);
            assert(before.vms[k as int].wf());
            self.vms[k].reach(c, v);
            proof {
                assert forall|j: int| 0 <= j < self.vms.len() && j != k implies (
                #[trigger] self@.vms[j]) == mid.vms[j] by {}
            }
            k += 1;
        }
        let ghost half = self@;
        let mut r: usize = 0;
        while r < self.rams.len()
            invariant
                r <= self.rams.len(),
                before.wf(),
                self.rams.len() == before.rams.len(),
                half.vms =~= before.reached(c, v).vms,
                self@ == (SvaView { rams: self@.rams, ..half }),
                forall|j: int|
                    0 <= j < r ==> (#[trigger] self@.rams[j]) == before.reached(c, v).rams[j],
                forall|j: int|
                    r <= j < self.rams.len() ==> (#[trigger] self@.rams[j]) == before.rams[j],
            decreases self.rams.len() - r,
        {
            let ghost mid = self@;
            assert(mid.rams[r as int] == before.rams[r as int]);
            assert(before.rams[r as int].wf());
            self.rams[r].reach(c, v);
            proof {
                assert forall|j: int| 0 <= j < self.rams.len() && j != r implies (
                #[trigger] self@.rams[j]) == mid.rams[j] by {}
            }
            r += 1;
        }
        proof {
            assert(self@.vms =~= before.reached(c, v).vms);
            assert(self@.rams =~= before.reached(c, v).rams);
            lemma_reached_same_wiring(before, c, v);
            lemma_same_wiring_keeps_consistent(before, before.reached(c, v));
        }
    }

    /// Writes `v` to a port. The port then holds `v`, and so does every
    /// port linked to the same connection. Returns whether there is such a
    /// port.
    pub fn write_port(&mut self, port: PortRef, v: i32) -> (written: bool)
        requires
            old(self).wf(),
        ensures
            final(self).wf(),
            written == old(self)@.port(port).is_some(),
            final(self)@ == old(self)@.after_write(port, v),
            old(self)@.consistent() ==> final(self)@.consistent(),
    {
        let ghost before = self@;
        match self.get_port(port) {
            None => false,
            Some(p) => {
                match p.get_conn_id() {
                    Some(c) => {
                        proof {
                            lemma_reached_same_wiring(before, c, v);
                            lemma_same_wiring_keeps_consistent(before, before.reached(c, v));
                        }
                        self.reach(c, v);
                    },
                    None => {
                        let mut q = p;
                        q.set_value(v);
                        proof {
                            lemma_with_port(before, port, q);
                            let t = before.with_port(port, q);
                            assert(before.same_wiring(t)) by {
                                assert forall|k: int| 0 <= k < before.vms.len() implies (
                                #[trigger] t.vms[k]).wf() by {}
                                assert forall|k: int| 0 <= k < before.rams.len() implies (
                                #[trigger] t.rams[k]).wf() by {}
                                assert forall|k: int, i: int|
                                    0 <= k < before.vms.len() && 0 <= i
                                        < before.vms[k].machine.ports.len() implies (
                                #[trigger] t.vms[k].machine.ports[i]).link()
                                    == before.vms[k].machine.ports[i].link() by {
                                    if before.vms[k].port_ref(i) == port {
                                        lemma_port_is_at(before, k, i);
                                    }
                                }
                                assert forall|k: int, which: RamPort|
                                    0 <= k < before.rams.len() implies (
                                #[trigger] t.rams[k].ram.port(which)).link()
                                    == before.rams[k].ram.port(which).link() by {
                                    if before.rams[k].port_ref(which) == port {
                                        lemma_ram_port_is_at(before, k, which);
                                    }
                                }
                            }
                            lemma_same_wiring_keeps_consistent(before, t);
                        }
                        self.put_port(port, q);
                    },
                }
                true
            },
        }
    }

    /// Refreshes every memory module, one after the other: each moves one
    /// value between its data port and the cell that its index port
    /// addresses, and a value that it puts on its data port reaches every
    /// port linked to the same connection. No link changes.
    pub fn refresh(&mut self)
        requires
            old(self).wf(),
        ensures
            final(self).wf(),
            final(self)@ == old(self)@.refreshed(),
            old(self)@.consistent() ==> final(self)@.consistent(),
    {
        let ghost before = self@;
        let n = self.rams.len();
        let mut k: usize = 0;
        while k < n
            invariant
                k <= n,
                n == before.rams.len(),
                before.wf(),
                self.wf(),
                self.rams.len() == n,
                self@ == before.refreshed_upto(k as nat),
            decreases n - k,
        {
            let ghost mid = self@;
            proof {
                lemma_refresh_step_same_wiring(mid, k as int);
                assert(mid.rams[k as int].wf());
            }
            let link = self.rams[k].get_port(RamPort::Data).get_conn_id();
            let out = self.rams[k].refresh();
            proof {
                assert(self@.rams =~= mid.rams.update(
                    k as int,
                    RamWidowView { ram: mid.rams[k as int].ram.refreshed(), ..mid.rams[k as int] },
                ));
                let t = SvaView {
                    rams: mid.rams.update(
                        k as int,
                        RamWidowView {
                            ram: mid.rams[k as int].ram.refreshed(),
                            ..mid.rams[k as int]
                        },
                    ),
                    ..mid
                };
                assert(self@ == t);
                assert(mid.same_wiring(t)) by {
                    assert forall|j: int| 0 <= j < mid.vms.len() implies (#[trigger] t.vms[j]).wf() by {
                        assert(mid.vms[j].wf());
                    }
                    assert forall|j: int| 0 <= j < mid.rams.len() implies (
                    #[trigger] t.rams[j]).wf() by {
                        assert(mid.rams[j].wf());
                    }
                }
                lemma_same_wiring_keeps_consistent(mid, t);
            }
            match (out, link) {
                (Some(v), Some(c)) => {
                    self.reach(c, v);
                },
                _ => {},
            }
            k += 1;
        }
        proof {
            lemma_refreshed_upto(before, n as nat);
        }
    }

    /// What happens once per frame: every memory module is refreshed, and
    /// the links are rebuilt if a connection was removed since they were
    /// last rebuilt. Returns whether they were rebuilt.
    pub fn update(&mut self) -> (reloaded: bool)
        requires
            old(self).wf(),
        ensures
            final(self).wf(),
            reloaded == old(self)@.registry.reload,
            final(self)@ == if reloaded {
                old(self)@.refreshed().reloaded()
            } else {
                old(self)@.refreshed()
            },
            (reloaded || old(self)@.consistent()) ==> final(self)@.consistent(),
    {
        proof {
            lemma_refreshed_upto(self@, self@.rams.len());
        }
        self.refresh();
        self.reload_if_needed()
    }

    /// Clears the cursor.
    pub fn unset_current_id(&mut self)
        requires
            old(self).wf(),
        ensures
            final(self).wf(),
            final(self)@ == (SvaView {
                registry: RegistryView { current_id: None, ..old(self)@.registry },
                ..old(self)@
            }),
            old(self)@.consistent() ==> final(self)@.consistent(),
    {
        self.connections.unset_current_id();
    }

    /// Shows the window of the machine `id` if it is hidden and hides it if
    /// it is shown. Returns whether there is such a machine.
    pub fn toggle_vm_visibility(&mut self, id: usize) -> (found: bool)
        requires
            old(self).wf(),
        ensures
            final(self).wf(),
            found == has_vm(old(self)@.vms, id),
            final(self)@ == old(self)@.vm_toggled(id),
            old(self)@.consistent() ==> final(self)@.consistent(),
    {
        let ghost before = self@;
        match self.find_vm(id) {
            None => false,
            Some(k) => {
                proof {
                    let k0 = vm_position(before.vms, id);
                    if k0 != k {
                        assert(before.vms[k0].id != before.vms[k as int].id);
                    }
                }
                let shown = self.vms[k].is_active();
                self.vms[k].set_active(!shown);
                proof {
                    let toggled = SVAWindowView {
                        active: !before.vms[k as int].active,
                        ..before.vms[k as int]
                    };
                    assert(self@.vms =~= before.vms.update(k as int, toggled));
                    assert(before.vms[k as int].wf());
                    lemma_vm_update_keeps_consistent(before, k as int, toggled);
                }
                true
            },
        }
    }

    /// Shows the window of the memory module `id` if it is hidden and hides
    /// it if it is shown. Returns whether there is such a module.
    pub fn toggle_ram_visibility(&mut self, id: usize) -> (found: bool)
        requires
            old(self).wf(),
        ensures
            final(self).wf(),
            found == has_ram(old(self)@.rams, id),
            final(self)@ == old(self)@.ram_toggled(id),
            old(self)@.consistent() ==> final(self)@.consistent(),
    {
        let ghost before = self@;
        match self.find_ram(id) {
            None => false,
            Some(k) => {
                proof {
                    let k0 = ram_position(before.rams, id);
                    if k0 != k {
                        assert(before.rams[k0].id != before.rams[k as int].id);
                    }
                }
                let open = self.rams[k].is_open();
                self.rams[k].set_open(!open);
                proof {
                    let toggled = RamWidowView {
                        is_open: !before.rams[k as int].is_open,
                        ..before.rams[k as int]
                    };
                    assert(self@.rams =~= before.rams.update(k as int, toggled));
                    assert(before.rams[k as int].wf());
                    lemma_ram_update_keeps_consistent(before, k as int, toggled);
                }
                true
            },
        }
    }

    /// Deals with a click in the list of components. Showing and hiding
    /// happens at once; for renaming and removing it says what to ask the
    /// user first.
    pub fn handle_component_action(&mut self, action: ComponentAction) -> (request:
        ComponentRequest)
        requires
            old(self).wf(),
        ensures
            final(self).wf(),
            request == request_for(action),
            final(self)@ == old(self)@.after_component_action(action),
            old(self)@.consistent() ==> final(self)@.consistent(),
    {
        match action {
            ComponentAction::DoNothing => ComponentRequest::Nothing,
            ComponentAction::ToggleVmVisibility(id) => {
                self.toggle_vm_visibility(id);
                ComponentRequest::Nothing
            },
            ComponentAction::ToggleRamVisibility(id) => {
                self.toggle_ram_visibility(id);
                ComponentRequest::Nothing
            },
            ComponentAction::RenameVm(id) => ComponentRequest::Rename { is_ram: false, id },
            ComponentAction::RenameRam(id) => ComponentRequest::Rename { is_ram: true, id },
            ComponentAction::RemoveVm(id) => ComponentRequest::ConfirmRemoval {
                is_ram: false,
                id,
            },
            ComponentAction::RemoveRam(id) => ComponentRequest::ConfirmRemoval { is_ram: true, id },
        }
    }

    /// Does what the user has confirmed: removes the connection that the
    /// question named, if it named one, and then clears everything or
    /// removes the component that the question was about. Returns whether
    /// a removed machine has a thread, which then has to be joined.
    pub fn confirm(
        &mut self,
        action: AreYouSureModalAction,
        component_id: Option<usize>,
        connection_id: Option<usize>,
    ) -> (had_thread: bool)
        requires
            old(self).wf(),
        ensures
            final(self).wf(),
            final(self)@ == old(self)@.confirmed(action, component_id, connection_id),
            (old(self)@.consistent() && connection_id.is_none()) ==> final(self)@.consistent(),
    {
        if connection_id.is_some() {
            self.remove_connection(connection_id);
        }
        match action {
            AreYouSureModalAction::DoNothing => false,
            AreYouSureModalAction::Clear => {
                self.clear_file();
                false
            },
            AreYouSureModalAction::RemoveVm => self.remove_vm(component_id),
            AreYouSureModalAction::RemoveRam => {
                self.remove_ram(component_id);
                false
            },
        }
    }

    /// Lets every machine use the given language.
    pub fn set_language(&mut self, language: Language)
        requires
            old(self).wf(),
        ensures
            final(self).wf(),
            final(self)@ == old(self)@.in_language(language),
            old(self)@.consistent() ==> final(self)@.consistent(),
    {
        let ghost before = self@;
        let mut k: usize = 0;
        while k < self.vms.len()
            invariant
                k <= self.vms.len(),
                before.wf(),
                self.vms.len() == before.vms.len(),
                self@ == (SvaView { vms: self@.vms, ..before }),
                forall|j: int|
                    0 <= j < k ==> (#[trigger] self@.vms[j]) == (SVAWindowView {
                        language,
                        ..before.vms[j]
                    }),
                forall|j: int| k <= j < self.vms.len() ==> (#[trigger] self@.vms[j]) == before.vms[j],
            decreases self.vms.len() - k,
        {
            let ghost mid = self@;
            assert(mid.vms[k as int] == before.vms[k as int]);
            self.vms[k].set_language(language);
            proof {
                assert forall|j: int| 0 <= j < self.vms.len() && j != k implies (
                #[trigger] self@.vms[j]) == mid.vms[j] by {}
            }
            k += 1;
        }
        proof {
            let t = before.in_language(language);
            assert(self@.vms =~= t.vms);
            assert(before.same_wiring(t)) by {
                assert forall|j: int| 0 <= j < before.vms.len() implies (#[trigger] t.vms[j]).wf() by {
                    assert(before.vms[j].wf());
                }
                assert forall|j: int| 0 <= j < before.rams.len() implies (
                #[trigger] t.rams[j]).wf() by {
                    assert(before.rams[j].wf());
                }
            }
            lemma_same_wiring_keeps_consistent(before, t);
        }
    }

    /// Drops the link of every port of every machine. The connections keep
    /// their member lists.
    pub fn disconnect_vm_ports(&mut self)
        requires
            old(self).wf(),
        ensures
            final(self).wf(),
            final(self)@ == old(self)@.vm_ports_unlinked(),
    {
        let ghost before = self@;
        let mut k: usize = 0;
        while k < self.vms.len()
            invariant
                k <= self.vms.len(),
                before.wf(),
                self.vms.len() == before.vms.len(),
                self@ == (SvaView { vms: self@.vms, ..before }),
                forall|j: int| 0 <= j < k ==> (#[trigger] self@.vms[j]) == before.vms[j].unlinked(),
                forall|j: int| k <= j < self.vms.len() ==> (#[trigger] self@.vms[j]) == before.vms[j],
            decreases self.vms.len() - k,
        {
            let ghost mid = self@;
            assert(mid.vms[k as int] == before.vms[k as int]);
            assert(before.vms[k as int].wf());
            self.vms[k].disconnect_ports();
            proof {
                assert forall|j: int| 0 <= j < self.vms.len() && j != k implies (
                #[trigger] self@.vms[j]) == mid.vms[j] by {}
            }
            k += 1;
        }
        proof {
            assert(self@.vms =~= vms_unlinked(before.vms));
            lemma_unlinked_wf(before);
        }
    }

    /// Drops the link of every port of every memory module.
    pub fn disconnect_ram_ports(&mut self)
        requires
            old(self).wf(),
        ensures
            final(self).wf(),
            final(self)@ == old(self)@.ram_ports_unlinked(),
    {
        let ghost before = self@;
        let mut k: usize = 0;
        while k < self.rams.len()
            invariant
                k <= self.rams.len(),
                before.wf(),
                self.rams.len() == before.rams.len(),
                self@ == (SvaView { rams: self@.rams, ..before }),
                forall|j: int|
                    0 <= j < k ==> (#[trigger] self@.rams[j]) == before.rams[j].unlinked(),
                forall|j: int|
                    k <= j < self.rams.len() ==> (#[trigger] self@.rams[j]) == before.rams[j],
            decreases self.rams.len() - k,
        {
            let ghost mid = self@;
            assert(mid.rams[k as int] == before.rams[k as int]);
            assert(before.rams[k as int].wf());
            self.rams[k].disconnect_ports();
            proof {
                assert forall|j: int| 0 <= j < self.rams.len() && j != k implies (
                #[trigger] self@.rams[j]) == mid.rams[j] by {}
            }
            k += 1;
        }
        proof {
            assert(self@.rams =~= rams_unlinked(before.rams));
            lemma_unlinked_wf(before);
        }
    }

    /// Links every machine port that a connection lists to that connection.
    /// Members whose machine does not exist are passed over.
    pub fn reconnect_vm_ports(&mut self)
        requires
            old(self).wf(),
        ensures
            final(self).wf(),
            final(self)@ == old(self)@.vm_ports_relinked(),
    {
        let ghost before = self@;
        let ghost conns = before.registry.connections;
        let mut k: usize = 0;
        while k < self.vms.len()
            invariant
                k <= self.vms.len(),
                before.wf(),
                conns == before.registry.connections,
                self.vms.len() == before.vms.len(),
                self@ == (SvaView { vms: self@.vms, ..before }),
                forall|j: int|
                    0 <= j < k ==> (#[trigger] self@.vms[j]) == before.vms[j].relinked(conns),
                forall|j: int| k <= j < self.vms.len() ==> (#[trigger] self@.vms[j]) == before.vms[j],
            decreases self.vms.len() - k,
        {
            let ghost mid = self@;
            assert(mid.vms[k as int] == before.vms[k as int]);
            assert(before.vms[k as int].wf());
            self.vms[k].relink_ports(&self.connections);
            proof {
                assert forall|j: int| 0 <= j < self.vms.len() && j != k implies (
                #[trigger] self@.vms[j]) == mid.vms[j] by {}
            }
            k += 1;
        }
        proof {
            assert(self@.vms =~= vms_relinked(before.vms, conns));
            lemma_relinked_wf(before);
        }
    }

    /// Links every memory port that a connection lists to that connection.
    /// Members whose memory module does not exist are passed over.
    pub fn reconnect_ram_ports(&mut self)
        requires
            old(self).wf(),
        ensures
            final(self).wf(),
            final(self)@ == old(self)@.ram_ports_relinked(),
    {
        let ghost before = self@;
        let ghost conns = before.registry.connections;
        let mut k: usize = 0;
        while k < self.rams.len()
            invariant
                k <= self.rams.len(),
                before.wf(),
                conns == before.registry.connections,
                self.rams.len() == before.rams.len(),
                self@ == (SvaView { rams: self@.rams, ..before }),
                forall|j: int|
                    0 <= j < k ==> (#[trigger] self@.rams[j]) == before.rams[j].relinked(conns),
                forall|j: int|
                    k <= j < self.rams.len() ==> (#[trigger] self@.rams[j]) == before.rams[j],
            decreases self.rams.len() - k,
        {
            let ghost mid = self@;
            assert(mid.rams[k as int] == before.rams[k as int]);
            assert(before.rams[k as int].wf());
            self.rams[k].relink_ports(&self.connections);
            proof {
                assert forall|j: int| 0 <= j < self.rams.len() && j != k implies (
                #[trigger] self@.rams[j]) == mid.rams[j] by {}
            }
            k += 1;
        }
        proof {
            assert(self@.rams =~= rams_relinked(before.rams, conns));
            lemma_relinked_wf(before);
        }
    }

    /// Rebuilds the links of all ports from the connections, and records
    /// that this was done. Afterwards ports and connections agree.
    pub fn reload_connections(&mut self)
        requires
            old(self).wf(),
        ensures
            final(self).wf(),
            final(self)@ == old(self)@.reloaded(),
            final(self)@.consistent(),
    {
        self.disconnect_ram_ports();
        self.disconnect_vm_ports();
        self.reconnect_ram_ports();
        self.reconnect_vm_ports();
        self.connections.reload_done();
        proof {
            lemma_reload_makes_consistent(old(self)@);
        }
    }

    /// Rebuilds the links if a connection was removed since they were last
    /// rebuilt. Returns whether it did.
    pub fn reload_if_needed(&mut self) -> (reloaded: bool)
        requires
            old(self).wf(),
        ensures
            final(self).wf(),
            reloaded == old(self)@.registry.reload,
            final(self)@ == if reloaded {
                old(self)@.reloaded()
            } else {
                old(self)@
            },
            reloaded ==> final(self)@.consistent(),
    {
        if self.connections.needs_reload() {
            self.reload_connections();
            true
        } else {
            false
        }
    }
}


} // verus!
