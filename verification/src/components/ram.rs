//! A memory module: cells, and three ports through which a machine
//! addresses, reads and writes them.

use crate::components::port::{Port, RamPort};
use vstd::prelude::*;

verus! {

/// Number of cells of a memory module.
pub const RAM_SIZE: usize = 512;

/// The value of the mode port under which the module stores the data
/// port's value in the addressed cell. Under any other value it puts the
/// addressed cell on its data port.
pub const MODE_WRITE: i32 = 0;

/// What a memory module holds.
pub struct RamView {
    pub id: usize,
    pub cells: Seq<i32>,
    pub index_port: Port,
    pub data_port: Port,
    pub mode_port: Port,
}

impl RamView {
    pub open spec fn wf(self) -> bool {
        self.cells.len() == RAM_SIZE
    }

    pub open spec fn port(self, which: RamPort) -> Port {
        match which {
            RamPort::Index => self.index_port,
            RamPort::Data => self.data_port,
            RamPort::Mode => self.mode_port,
        }
    }

    pub open spec fn with_port(self, which: RamPort, port: Port) -> RamView {
        match which {
            RamPort::Index => RamView { index_port: port, ..self },
            RamPort::Data => RamView { data_port: port, ..self },
            RamPort::Mode => RamView { mode_port: port, ..self },
        }
    }

    /// Whether the index port addresses a cell.
    pub open spec fn addresses_cell(self) -> bool {
        0 <= self.index_port.value() < self.cells.len()
    }

    /// Whether the module is in write mode.
    pub open spec fn writes(self) -> bool {
        self.mode_port.value() == MODE_WRITE
    }

    /// One refresh: with the index port addressing a cell, a module in
    /// write mode stores the data port's value in that cell, and a module
    /// in read mode puts that cell on the data port. With the index port
    /// out of range nothing moves.
    pub open spec fn refreshed(self) -> RamView {
        let i = self.index_port.value() as int;
        if !self.addresses_cell() {
            self
        } else if self.writes() {
            RamView { cells: self.cells.update(i, self.data_port.value()), ..self }
        } else {
            RamView { data_port: self.data_port.holding(self.cells[i]), ..self }
        }
    }

    /// Every port linked to connection `c` holding `v`.
    pub open spec fn reached(self, c: usize, v: i32) -> RamView {
        RamView {
            index_port: self.index_port.reached(c, v),
            data_port: self.data_port.reached(c, v),
            mode_port: self.mode_port.reached(c, v),
            ..self
        }
    }

    /// The value that a refresh puts on the data port, if it puts one
    /// there: the addressed cell, for a module in read mode.
    pub open spec fn read_out(self) -> Option<i32> {
        if self.addresses_cell() && !self.writes() {
            Some(self.cells[self.index_port.value() as int])
        } else {
            None
        }
    }

    /// Every port without its link.
    pub open spec fn unlinked(self) -> RamView {
        RamView {
            index_port: self.index_port.unlinked(),
            data_port: self.data_port.unlinked(),
            mode_port: self.mode_port.unlinked(),
            ..self
        }
    }
}

pub struct Ram {
    id: usize,
    cells: Vec<i32>,
    index_port: Port,
    data_port: Port,
    mode_port: Port,
}

impl View for Ram {
    type V = RamView;

    closed spec fn view(&self) -> RamView {
        RamView {
            id: self.id,
            cells: self.cells@,
            index_port: self.index_port,
            data_port: self.data_port,
            mode_port: self.mode_port,
        }
    }
}

impl Ram {
    pub open spec fn wf(&self) -> bool {
        self@.wf()
    }

    /// A module with the given id, every cell zero and no port linked.
    pub fn new(id: usize) -> (ram: Ram)
        ensures
            ram.wf(),
            ram@ == (RamView {
                id,
                cells: Seq::new(RAM_SIZE as nat, |i: int| 0i32),
                index_port: Port::Disconnected(0),
                data_port: Port::Disconnected(0),
                mode_port: Port::Disconnected(0),
            }),
    {
        let mut cells: Vec<i32> = Vec::new();
        let mut i: usize = 0;
        while i < RAM_SIZE
            invariant
                i <= RAM_SIZE,
                cells@.len() == i,
                forall|k: int| 0 <= k < i ==> cells@[k] == 0,
            decreases RAM_SIZE - i,
        {
            cells.push(0);
            i += 1;
        }
        assert(cells@ =~= Seq::new(RAM_SIZE as nat, |i: int| 0i32));
        Ram {
            id,
            cells,
            index_port: Port::new(0),
            data_port: Port::new(0),
            mode_port: Port::new(0),
        }
    }

    /// Whether the module has all its cells.
    pub fn is_wf(&self) -> (b: bool)
        ensures
            b == self.wf(),
    {
        self.cells.len() == RAM_SIZE
    }

    pub fn get_id(&self) -> (id: usize)
        ensures
            id == self@.id,
    {
        self.id
    }

    /// A copy of the cells.
    pub fn get_data(&self) -> (cells: Vec<i32>)
        ensures
            cells@ == self@.cells,
    {
        let mut cells: Vec<i32> = Vec::new();
        let mut i: usize = 0;
        while i < self.cells.len()
            invariant
                i <= self.cells.len(),
                cells@.len() == i,
                forall|k: int| 0 <= k < i ==> cells@[k] == self.cells@[k],
            decreases self.cells.len() - i,
        {
            cells.push(self.cells[i]);
            i += 1;
        }
        assert(cells@ =~= self.cells@);
        cells
    }

    /// The value of cell `index`, or `None` when there is no such cell.
    pub fn get_value(&self, index: usize) -> (v: Option<i32>)
        ensures
            v == if index < self@.cells.len() {
                Some(self@.cells[index as int])
            } else {
                None
            },
    {
        if index < self.cells.len() {
            Some(self.cells[index])
        } else {
            None
        }
    }

    pub fn get_port(&self, which: RamPort) -> (p: Port)
        ensures
            p == self@.port(which),
    {
        match which {
            RamPort::Index => self.index_port,
            RamPort::Data => self.data_port,
            RamPort::Mode => self.mode_port,
        }
    }

    pub fn get_index_port(&self) -> (p: Port)
        ensures
            p == self@.index_port,
    {
        self.index_port
    }

    pub fn get_data_port(&self) -> (p: Port)
        ensures
            p == self@.data_port,
    {
        self.data_port
    }

    pub fn get_mode_port(&self) -> (p: Port)
        ensures
            p == self@.mode_port,
    {
        self.mode_port
    }

    /// Replaces one port.
    pub fn set_port(&mut self, which: RamPort, port: Port)
        ensures
            final(self)@ == old(self)@.with_port(which, port),
    {
        match which {
            RamPort::Index => {
                self.index_port = port;
            },
            RamPort::Data => {
                self.data_port = port;
            },
            RamPort::Mode => {
                self.mode_port = port;
            },
        }
    }

    /// Stores `value` in cell `index` and returns `true`; with no such cell
    /// nothing changes and `false` is returned.
    pub fn set_value(&mut self, index: usize, value: i32) -> (stored: bool)
        ensures
            stored == (index < old(self)@.cells.len()),
            final(self)@ == if stored {
                RamView { cells: old(self)@.cells.update(index as int, value), ..old(self)@ }
            } else {
                old(self)@
            },
    {
        if index < self.cells.len() {
            self.cells[index] = value;
            true
        } else {
            false
        }
    }

    /// Replaces all cells at once.
    pub fn set_cells(&mut self, cells: Vec<i32>)
        requires
            cells@.len() == RAM_SIZE,
        ensures
            final(self)@ == (RamView { cells: cells@, ..old(self)@ }),
    {
        self.cells = cells;
    }

    /// Sets every cell to zero.
    pub fn zero_data(&mut self)
        ensures
            final(self)@ == (RamView {
                cells: Seq::new(old(self)@.cells.len(), |i: int| 0i32),
                ..old(self)@
            }),
    {
        let mut i: usize = 0;
        while i < self.cells.len()
            invariant
                i <= self.cells.len(),
                self.cells.len() == old(self).cells.len(),
                self.id == old(self).id,
                self.index_port == old(self).index_port,
                self.data_port == old(self).data_port,
                self.mode_port == old(self).mode_port,
                forall|k: int| 0 <= k < i ==> self.cells@[k] == 0,
            decreases self.cells.len() - i,
        {
            self.cells[i] = 0;
            i += 1;
        }
        assert(self@.cells =~= Seq::new(old(self)@.cells.len(), |i: int| 0i32));
    }

    /// Drops the link of every port.
    pub fn disconnect_all(&mut self)
        ensures
            final(self)@ == old(self)@.unlinked(),
    {
        self.index_port.disconnect();
        self.data_port.disconnect();
        self.mode_port.disconnect();
    }

    /// Moves one value between the data port and the addressed cell, in the
    /// direction that the mode port gives. Returns the value that was put
    /// on the data port, if one was.
    pub fn refresh(&mut self) -> (out: Option<i32>)
        ensures
            final(self)@ == old(self)@.refreshed(),
            out == old(self)@.read_out(),
    {
        let index = self.index_port.get_value();
        if index < 0 {
            return None;
        }
        let i = index as usize;
        if i >= self.cells.len() {
            return None;
        }
        if self.mode_port.get_value() == MODE_WRITE {
            let v = self.data_port.get_value();
            self.cells[i] = v;
            None
        } else {
            let v = self.cells[i];
            self.data_port.set_value(v);
            Some(v)
        }
    }

    /// Writes `v` to every port that is linked to connection `c`.
    pub fn reach(&mut self, c: usize, v: i32)
        ensures
            final(self)@ == old(self)@.reached(c, v),
    {
        self.index_port.reach(c, v);
        self.data_port.reach(c, v);
        self.mode_port.reach(c, v);
    }
}

} // verus!
