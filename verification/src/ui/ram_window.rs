//! The window of one memory module: the module, its name, and the notation
//! in which its cells are shown.

use crate::components::port::{Port, PortRef, RamPort};
use crate::components::ram::{Ram, RamView};
use crate::storage::connections_manager::{owner_of, ConnectionManager};
use crate::components::connection::ConnectionView;
use crate::text::{bits_of, decimal, digits, is_scalar_value, push_digits, quoted};
use crate::text::{decimal_text, quoted_text, radix_text};
use crate::ui::indicator_widget::ValueFormat;
use vstd::prelude::*;

verus! {

/// How a memory window writes `value`: in decimal, in hexadecimal behind
/// `0x`, in binary behind `0b`, or as a character between quotes. A value
/// that is no character's number is written as `invalid`.
pub open spec fn formatted(format: ValueFormat, value: i32, invalid: Seq<char>) -> Seq<char> {
    match format {
        ValueFormat::Dec => decimal(value as int),
        ValueFormat::Hex => seq!['0', 'x'] + digits(bits_of(value), 16),
        ValueFormat::Bin => seq!['0', 'b'] + digits(bits_of(value), 2),
        ValueFormat::Unicode => if is_scalar_value(value as int) {
            quoted(value as int)
        } else {
            invalid
        },
    }
}

/// The port with the link that the connections give it: linked to its owner
/// where it has one, as it is where it has none.
pub open spec fn relinked_port(port: Port, owner: Option<usize>) -> Port {
    match owner {
        Some(c) => port.linked_to(c),
        None => port,
    }
}

/// The name of a new memory module with the given id.
pub open spec fn default_ram_name(id: usize) -> Seq<char> {
    seq!['r', 'a', 'm', ':'] + decimal(id as int)
}

/// An open window on a new memory module, named after its id, showing
/// decimal values.
pub open spec fn fresh_ram(id: usize) -> RamWidowView {
    RamWidowView {
        id,
        name: default_ram_name(id),
        is_open: true,
        ram: RamView {
            id,
            cells: Seq::new(crate::components::ram::RAM_SIZE as nat, |i: int| 0i32),
            index_port: Port::Disconnected(0),
            data_port: Port::Disconnected(0),
            mode_port: Port::Disconnected(0),
        },
        format: ValueFormat::Dec,
    }
}

/// What a memory window holds.
pub struct RamWidowView {
    pub id: usize,
    pub name: Seq<char>,
    pub is_open: bool,
    pub ram: RamView,
    pub format: ValueFormat,
}

impl RamWidowView {
    pub open spec fn wf(self) -> bool {
        self.ram.wf() && self.ram.id == self.id
    }

    /// The reference to one of this module's ports.
    pub open spec fn port_ref(self, which: RamPort) -> PortRef {
        PortRef::Ram { owner_id: self.id, port: which }
    }

    /// The window with every port unlinked.
    pub open spec fn unlinked(self) -> RamWidowView {
        RamWidowView { ram: self.ram.unlinked(), ..self }
    }

    /// The window with every port linked as the connections say.
    pub open spec fn relinked(self, conns: Seq<ConnectionView>) -> RamWidowView {
        RamWidowView {
            ram: RamView {
                index_port: relinked_port(
                    self.ram.index_port,
                    owner_of(conns, self.port_ref(RamPort::Index)),
                ),
                data_port: relinked_port(
                    self.ram.data_port,
                    owner_of(conns, self.port_ref(RamPort::Data)),
                ),
                mode_port: relinked_port(
                    self.ram.mode_port,
                    owner_of(conns, self.port_ref(RamPort::Mode)),
                ),
                ..self.ram
            },
            ..self
        }
    }

    /// Whether every port is linked exactly as the connections say.
    pub open spec fn linked_as(self, conns: Seq<ConnectionView>) -> bool {
        forall|which: RamPort| #[trigger]
            self.ram.port(which).link() == owner_of(conns, self.port_ref(which))
    }
}

pub struct RamWidow {
    id: usize,
    name: String,
    is_open: bool,
    ram: Ram,
    format: ValueFormat,
}

impl View for RamWidow {
    type V = RamWidowView;

    closed spec fn view(&self) -> RamWidowView {
        RamWidowView {
            id: self.id,
            name: self.name@,
            is_open: self.is_open,
            ram: self.ram@,
            format: self.format,
        }
    }
}

impl RamWidow {
    pub open spec fn wf(&self) -> bool {
        self@.wf()
    }

    /// An open window on a new memory module, named after its id, showing
    /// decimal values.
    pub fn new(id: usize) -> (w: RamWidow)
        ensures
            w.wf(),
            w@ == fresh_ram(id),
    {
        let mut name = String::from_str("ram:");
        proof {
            reveal_strlit("ram:");
            assert("ram:"@ =~= seq!['r', 'a', 'm', ':']);
        }
        push_digits(id as u64, 10, &mut name);
        assert(name@ =~= default_ram_name(id));
        RamWidow { is_open: true, ram: Ram::new(id), id, name, format: ValueFormat::Dec }
    }

    /// A memory window as it is loaded from a saved session: with the saved
    /// id, name, notation and cells, and no link. Where the saved cells are
    /// not as many as a module has, the module starts with every cell zero.
    pub fn from_saved(
        id: usize,
        name: String,
        is_open: bool,
        format: ValueFormat,
        cells: Vec<i32>,
    ) -> (w: RamWidow)
        ensures
            w.wf(),
            w@ == (RamWidowView {
                name: name@,
                is_open,
                format,
                ram: RamView {
                    cells: if cells@.len() == crate::components::ram::RAM_SIZE {
                        cells@
                    } else {
                        fresh_ram(id).ram.cells
                    },
                    ..fresh_ram(id).ram
                },
                ..fresh_ram(id)
            }),
    {
        let mut ram = Ram::new(id);
        if cells.len() == crate::components::ram::RAM_SIZE {
            ram.set_cells(cells);
        }
        RamWidow { id, name, is_open, ram, format }
    }

    /// Whether the window and its module belong together and the module
    /// has all its cells.
    pub fn is_wf(&self) -> (b: bool)
        ensures
            b == self.wf(),
    {
        self.ram.is_wf() && self.ram.get_id() == self.id
    }

    /// Whether every port is linked exactly as the connections say.
    pub fn is_linked_as(&self, registry: &ConnectionManager) -> (b: bool)
        requires
            registry.wf(),
        ensures
            b == self@.linked_as(registry@.connections),
    {
        let ghost conns = registry@.connections;
        let a = self.port_agrees(RamPort::Index, registry);
        let b = self.port_agrees(RamPort::Data, registry);
        let c = self.port_agrees(RamPort::Mode, registry);
        proof {
            if a && b && c {
                assert forall|which: RamPort| #[trigger]
                    self@.ram.port(which).link() == owner_of(
                        conns,
                        self@.port_ref(which),
                    ) by {
                    match which {
                        RamPort::Index => {},
                        RamPort::Data => {},
                        RamPort::Mode => {},
                    }
                }
            } else if !a {
                assert(self@.ram.port(RamPort::Index).link() != owner_of(
                    conns,
                    self@.port_ref(RamPort::Index),
                ));
            } else if !b {
                assert(self@.ram.port(RamPort::Data).link() != owner_of(
                    conns,
                    self@.port_ref(RamPort::Data),
                ));
            } else {
                assert(self@.ram.port(RamPort::Mode).link() != owner_of(
                    conns,
                    self@.port_ref(RamPort::Mode),
                ));
            }
        }
        a && b && c
    }

    fn port_agrees(&self, which: RamPort, registry: &ConnectionManager) -> (b: bool)
        requires
            registry.wf(),
        ensures
            b == (self@.ram.port(which).link() == owner_of(
                registry@.connections,
                self@.port_ref(which),
            )),
    {
        let owner = registry.find_owner(PortRef::Ram { owner_id: self.id, port: which });
        let link = self.ram.get_port(which).get_conn_id();
        match (owner, link) {
            (Some(a), Some(b)) => a == b,
            (None, None) => true,
            _ => false,
        }
    }

    pub fn get_id(&self) -> (id: usize)
        ensures
            id == self@.id,
    {
        self.id
    }

    pub fn get_name(&self) -> (name: String)
        ensures
            name@ == self@.name,
    {
        self.name.clone()
    }

    pub fn set_name(&mut self, name: String)
        ensures
            final(self)@ == (RamWidowView { name: name@, ..old(self)@ }),
    {
        self.name = name;
    }

    pub fn is_open(&self) -> (b: bool)
        ensures
            b == self@.is_open,
    {
        self.is_open
    }

    pub fn set_open(&mut self, open: bool)
        ensures
            final(self)@ == (RamWidowView { is_open: open, ..old(self)@ }),
    {
        self.is_open = open;
    }

    pub fn get_format(&self) -> (format: ValueFormat)
        ensures
            format == self@.format,
    {
        self.format
    }

    pub fn set_format(&mut self, format: ValueFormat)
        ensures
            final(self)@ == (RamWidowView { format, ..old(self)@ }),
    {
        self.format = format;
    }

    /// Writes `value` in the window's notation; `invalid` stands for a value
    /// that the notation has no text for.
    pub fn format_value(&self, value: i32, invalid: &str) -> (s: String)
        ensures
            s@ == formatted(self@.format, value, invalid@),
    {
        match self.format {
            ValueFormat::Dec => decimal_text(value),
            ValueFormat::Hex => {
                proof {
                    reveal_strlit("0x");
                    assert("0x"@ =~= seq!['0', 'x']);
                }
                radix_text("0x", value, 16)
            },
            ValueFormat::Bin => {
                proof {
                    reveal_strlit("0b");
                    assert("0b"@ =~= seq!['0', 'b']);
                }
                radix_text("0b", value, 2)
            },
            ValueFormat::Unicode => match quoted_text(value) {
                Some(s) => s,
                None => String::from_str(invalid),
            },
        }
    }

    /// Moves one value between the data port and the addressed cell.
    /// Returns the value that was put on the data port, if one was.
    pub fn refresh(&mut self) -> (out: Option<i32>)
        requires
            old(self).wf(),
        ensures
            final(self).wf(),
            final(self)@ == (RamWidowView { ram: old(self)@.ram.refreshed(), ..old(self)@ }),
            out == old(self)@.ram.read_out(),
    {
        self.ram.refresh()
    }

    /// Writes `v` to every port that is linked to connection `c`.
    pub(crate) fn reach(&mut self, c: usize, v: i32)
        requires
            old(self).wf(),
        ensures
            final(self).wf(),
            final(self)@ == (RamWidowView { ram: old(self)@.ram.reached(c, v), ..old(self)@ }),
    {
        self.ram.reach(c, v);
    }

    /// Takes over what the engine reports of the module: its cells and the
    /// values on its ports. The ports keep their links. A report that does
    /// not hold as many cells as a module has is passed over; the result
    /// says whether the report was taken.
    pub fn observe(&mut self, cells: Vec<i32>, index: i32, data: i32, mode: i32) -> (taken: bool)
        requires
            old(self).wf(),
        ensures
            final(self).wf(),
            taken == (cells@.len() == crate::components::ram::RAM_SIZE),
            final(self)@ == if taken {
                RamWidowView {
                    ram: RamView {
                        cells: cells@,
                        index_port: old(self)@.ram.index_port.holding(index),
                        data_port: old(self)@.ram.data_port.holding(data),
                        mode_port: old(self)@.ram.mode_port.holding(mode),
                        ..old(self)@.ram
                    },
                    ..old(self)@
                }
            } else {
                old(self)@
            },
    {
        if cells.len() != crate::components::ram::RAM_SIZE {
            return false;
        }
        self.ram.set_cells(cells);
        let mut index_port = self.ram.get_port(RamPort::Index);
        index_port.set_value(index);
        self.ram.set_port(RamPort::Index, index_port);
        let mut data_port = self.ram.get_port(RamPort::Data);
        data_port.set_value(data);
        self.ram.set_port(RamPort::Data, data_port);
        let mut mode_port = self.ram.get_port(RamPort::Mode);
        mode_port.set_value(mode);
        self.ram.set_port(RamPort::Mode, mode_port);
        true
    }

    /// Stores `value` in cell `index`; returns whether there is such a cell.
    pub fn set_value_at_index(&mut self, index: usize, value: i32) -> (stored: bool)
        requires
            old(self).wf(),
        ensures
            final(self).wf(),
            stored == (index < old(self)@.ram.cells.len()),
            final(self)@ == if stored {
                RamWidowView {
                    ram: RamView {
                        cells: old(self)@.ram.cells.update(index as int, value),
                        ..old(self)@.ram
                    },
                    ..old(self)@
                }
            } else {
                old(self)@
            },
    {
        self.ram.set_value(index, value)
    }

    /// Sets every cell to zero.
    pub fn zero_data(&mut self)
        requires
            old(self).wf(),
        ensures
            final(self).wf(),
            final(self)@ == (RamWidowView {
                ram: RamView {
                    cells: Seq::new(old(self)@.ram.cells.len(), |i: int| 0i32),
                    ..old(self)@.ram
                },
                ..old(self)@
            }),
    {
        self.ram.zero_data();
    }

    /// The value of cell `index`, or `None` when there is no such cell.
    pub fn get_value(&self, index: usize) -> (v: Option<i32>)
        ensures
            v == if index < self@.ram.cells.len() {
                Some(self@.ram.cells[index as int])
            } else {
                None
            },
    {
        self.ram.get_value(index)
    }

    /// A copy of the cells.
    pub fn get_data(&self) -> (cells: Vec<i32>)
        ensures
            cells@ == self@.ram.cells,
    {
        self.ram.get_data()
    }

    pub fn get_port(&self, which: RamPort) -> (p: Port)
        ensures
            p == self@.ram.port(which),
    {
        self.ram.get_port(which)
    }

    /// Replaces one port.
    pub(crate) fn set_port(&mut self, which: RamPort, port: Port)
        requires
            old(self).wf(),
        ensures
            final(self).wf(),
            final(self)@ == (RamWidowView {
                ram: old(self)@.ram.with_port(which, port),
                ..old(self)@
            }),
    {
        self.ram.set_port(which, port);
    }

    /// Drops the link of every port.
    pub(crate) fn disconnect_ports(&mut self)
        requires
            old(self).wf(),
        ensures
            final(self).wf(),
            final(self)@ == old(self)@.unlinked(),
    {
        self.ram.disconnect_all();
    }

    fn relink_port(&mut self, which: RamPort, registry: &ConnectionManager)
        requires
            old(self).wf(),
            registry.wf(),
        ensures
            final(self).wf(),
            final(self)@ == (RamWidowView {
                ram: old(self)@.ram.with_port(
                    which,
                    relinked_port(
                        old(self)@.ram.port(which),
                        owner_of(registry@.connections, old(self)@.port_ref(which)),
                    ),
                ),
                ..old(self)@
            }),
    {
        let port_ref = PortRef::Ram { owner_id: self.id, port: which };
        match registry.find_owner(port_ref) {
            Some(c) => {
                let mut p = self.ram.get_port(which);
                p.connect(c);
                self.ram.set_port(which, p);
            },
            None => {
                assert(self@.ram.with_port(which, self@.ram.port(which)) == self@.ram);
            },
        }
    }

    /// Links every port that a connection lists to that connection; the
    /// other ports stay as they are.
    pub(crate) fn relink_ports(&mut self, registry: &ConnectionManager)
        requires
            old(self).wf(),
            registry.wf(),
        ensures
            final(self).wf(),
            final(self)@ == old(self)@.relinked(registry@.connections),
    {
        self.relink_port(RamPort::Index, registry);
        self.relink_port(RamPort::Data, registry);
        self.relink_port(RamPort::Mode, registry);
    }
}

} // verus!
