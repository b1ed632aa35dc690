//! The state of one virtual machine as the workbench sees it: registers,
//! ports and status. Running instructions is the engine's business; here is
//! what is shown, wired and reset.

use crate::components::port::Port;
use vstd::prelude::*;

verus! {

/// Number of general registers of a machine.
pub const REGISTER_COUNT: usize = 4;

/// Number of ports of a machine.
pub const PORT_COUNT: usize = 6;

/// Where a machine is in its life.
#[derive(Clone, Copy, Debug, PartialEq, Eq, Structural)]
pub enum VmStatus {
    Initial,
    Running,
    Stopped,
    Finished,
}

/// Result of the last comparison.
#[derive(Clone, Copy, Debug, PartialEq, Eq, Structural)]
pub enum Flag {
    Equal,
    Greater,
    Lesser,
}

/// What a machine holds.
pub struct MachineView {
    pub acc: i32,
    pub pc: usize,
    pub flag: Flag,
    pub registers: Seq<i32>,
    pub ports: Seq<Port>,
    pub status: VmStatus,
    pub program_len: usize,
}

impl MachineView {
    pub open spec fn wf(self) -> bool {
        self.registers.len() == REGISTER_COUNT && self.ports.len() == PORT_COUNT
    }

    /// The state of a machine that has just been built.
    pub open spec fn fresh() -> MachineView {
        MachineView {
            acc: 0,
            pc: 0,
            flag: Flag::Equal,
            registers: Seq::new(REGISTER_COUNT as nat, |i: int| 0i32),
            ports: Seq::new(PORT_COUNT as nat, |i: int| Port::Disconnected(0)),
            status: VmStatus::Initial,
            program_len: 0,
        }
    }

    /// Accumulator, program counter, flag and registers back at their
    /// initial values; ports, status and program as they are.
    pub open spec fn cleared(self) -> MachineView {
        MachineView {
            acc: 0,
            pc: 0,
            flag: Flag::Equal,
            registers: Seq::new(REGISTER_COUNT as nat, |i: int| 0i32),
            ..self
        }
    }

    /// Every port without its link, values kept.
    pub open spec fn unlinked(self) -> MachineView {
        MachineView { ports: Seq::new(self.ports.len(), |i: int| self.ports[i].unlinked()), ..self }
    }

    /// Every port linked to connection `c` holding `v`.
    pub open spec fn reached(self, c: usize, v: i32) -> MachineView {
        MachineView {
            ports: Seq::new(self.ports.len(), |i: int| self.ports[i].reached(c, v)),
            ..self
        }
    }

    /// A fresh machine that keeps the links of this one's ports.
    pub open spec fn rebuilt(self) -> MachineView {
        MachineView {
            ports: Seq::new(self.ports.len(), |i: int| self.ports[i].holding(0)),
            ..MachineView::fresh()
        }
    }

    /// What the engine reports, with the links of this machine's ports.
    pub open spec fn observed(
        self,
        acc: i32,
        pc: usize,
        flag: Flag,
        registers: Seq<i32>,
        port_values: Seq<i32>,
        status: VmStatus,
    ) -> MachineView {
        MachineView {
            acc,
            pc,
            flag,
            registers,
            ports: Seq::new(self.ports.len(), |i: int| self.ports[i].holding(port_values[i])),
            status,
            program_len: self.program_len,
        }
    }
}

pub struct Machine {
    acc: i32,
    pc: usize,
    flag: Flag,
    registers: Vec<i32>,
    ports: Vec<Port>,
    status: VmStatus,
    program_len: usize,
}

impl View for Machine {
    type V = MachineView;

    closed spec fn view(&self) -> MachineView {
        MachineView {
            acc: self.acc,
            pc: self.pc,
            flag: self.flag,
            registers: self.registers@,
            ports: self.ports@,
            status: self.status,
            program_len: self.program_len,
        }
    }
}

fn zero_registers() -> (r: Vec<i32>)
    ensures
        r@ == Seq::new(REGISTER_COUNT as nat, |i: int| 0i32),
{
    let mut r: Vec<i32> = Vec::new();
    let mut i: usize = 0;
    while i < REGISTER_COUNT
        invariant
            i <= REGISTER_COUNT,
            r@.len() == i,
            forall|k: int| 0 <= k < i ==> r@[k] == 0,
        decreases REGISTER_COUNT - i,
    {
        r.push(0);
        i += 1;
    }
    assert(r@ =~= Seq::new(REGISTER_COUNT as nat, |i: int| 0i32));
    r
}

impl Machine {
    pub open spec fn wf(&self) -> bool {
        self@.wf()
    }

    /// A machine with everything at zero, no program and no link.
    pub fn new() -> (m: Machine)
        ensures
            m.wf(),
            m@ == MachineView::fresh(),
    {
        let mut ports: Vec<Port> = Vec::new();
        let mut i: usize = 0;
        while i < PORT_COUNT
            invariant
                i <= PORT_COUNT,
                ports@.len() == i,
                forall|k: int| 0 <= k < i ==> ports@[k] == Port::Disconnected(0),
            decreases PORT_COUNT - i,
        {
            ports.push(Port::new(0));
            i += 1;
        }
        let m = Machine {
            acc: 0,
            pc: 0,
            flag: Flag::Equal,
            registers: zero_registers(),
            ports,
            status: VmStatus::Initial,
            program_len: 0,
        };
        assert(m@.ports =~= MachineView::fresh().ports);
        m
    }

    /// Whether the machine has all its registers and ports.
    pub fn is_wf(&self) -> (b: bool)
        ensures
            b == self.wf(),
    {
        self.registers.len() == REGISTER_COUNT && self.ports.len() == PORT_COUNT
    }

    pub fn get_acc(&self) -> (v: i32)
        ensures
            v == self@.acc,
    {
        self.acc
    }

    pub fn get_pc(&self) -> (v: usize)
        ensures
            v == self@.pc,
    {
        self.pc
    }

    pub fn get_flag(&self) -> (v: Flag)
        ensures
            v == self@.flag,
    {
        self.flag
    }

    pub fn get_status(&self) -> (v: VmStatus)
        ensures
            v == self@.status,
    {
        self.status
    }

    /// The number of instructions of the loaded program.
    pub fn get_program_len(&self) -> (v: usize)
        ensures
            v == self@.program_len,
    {
        self.program_len
    }

    /// The value of register `i`, or `None` when there is no such register.
    pub fn get_register(&self, i: usize) -> (v: Option<i32>)
        ensures
            v == if i < self@.registers.len() {
                Some(self@.registers[i as int])
            } else {
                None
            },
    {
        if i < self.registers.len() {
            Some(self.registers[i])
        } else {
            None
        }
    }

    /// Port `i`, or `None` when there is no such port.
    pub fn get_port(&self, i: usize) -> (p: Option<Port>)
        ensures
            p == if i < self@.ports.len() {
                Some(self@.ports[i as int])
            } else {
                None
            },
    {
        if i < self.ports.len() {
            Some(self.ports[i])
        } else {
            None
        }
    }

    /// Replaces port `i`. Nothing happens when there is no such port.
    pub fn set_port(&mut self, i: usize, port: Port)
        ensures
            final(self)@ == if i < old(self)@.ports.len() {
                MachineView { ports: old(self)@.ports.update(i as int, port), ..old(self)@ }
            } else {
                old(self)@
            },
    {
        if i < self.ports.len() {
            self.ports[i] = port;
        }
    }

    /// Records the status that the supervisor has decided on.
    pub fn set_status(&mut self, status: VmStatus)
        ensures
            final(self)@ == (MachineView { status, ..old(self)@ }),
    {
        self.status = status;
    }

    /// Records that a program of `len` instructions was loaded.
    pub fn load_program(&mut self, len: usize)
        ensures
            final(self)@ == (MachineView { program_len: len, ..old(self)@ }),
    {
        self.program_len = len;
    }

    /// Puts accumulator, program counter, flag and registers back to their
    /// initial values. The program, the status and the ports stay.
    pub fn clear_registers(&mut self)
        ensures
            final(self)@ == old(self)@.cleared(),
    {
        self.acc = 0;
        self.pc = 0;
        self.flag = Flag::Equal;
        self.registers = zero_registers();
    }

    /// Drops the link of every port.
    pub fn disconnect_all(&mut self)
        ensures
            final(self)@ == old(self)@.unlinked(),
    {
        let mut i: usize = 0;
        while i < self.ports.len()
            invariant
                i <= self.ports.len(),
                self.ports.len() == old(self).ports.len(),
                self.acc == old(self).acc,
                self.pc == old(self).pc,
                self.flag == old(self).flag,
                self.registers == old(self).registers,
                self.status == old(self).status,
                self.program_len == old(self).program_len,
                forall|k: int| 0 <= k < i ==> self.ports@[k] == old(self).ports@[k].unlinked(),
                forall|k: int| i <= k < self.ports.len() ==> self.ports@[k] == old(self).ports@[k],
            decreases self.ports.len() - i,
        {
            let mut p = self.ports[i];
            p.disconnect();
            self.ports[i] = p;
            i += 1;
        }
        assert(self@.ports =~= old(self)@.unlinked().ports);
    }

    /// Writes `v` to every port that is linked to connection `c`.
    pub fn reach(&mut self, c: usize, v: i32)
        ensures
            final(self)@ == old(self)@.reached(c, v),
    {
        let mut i: usize = 0;
        while i < self.ports.len()
            invariant
                i <= self.ports.len(),
                self.ports.len() == old(self).ports.len(),
                self.acc == old(self).acc,
                self.pc == old(self).pc,
                self.flag == old(self).flag,
                self.registers == old(self).registers,
                self.status == old(self).status,
                self.program_len == old(self).program_len,
                forall|k: int| 0 <= k < i ==> self.ports@[k] == old(self).ports@[k].reached(c, v),
                forall|k: int| i <= k < self.ports.len() ==> self.ports@[k] == old(self).ports@[k],
            decreases self.ports.len() - i,
        {
            let mut p = self.ports[i];
            p.reach(c, v);
            self.ports[i] = p;
            i += 1;
        }
        assert(self@.ports =~= old(self)@.reached(c, v).ports);
    }

    /// Replaces the state by that of a fresh machine, except that each port
    /// keeps its link.
    pub fn rebuild(&mut self)
        ensures
            final(self)@ == old(self)@.rebuilt(),
    {
        self.acc = 0;
        self.pc = 0;
        self.flag = Flag::Equal;
        self.registers = zero_registers();
        self.status = VmStatus::Initial;
        self.program_len = 0;
        let mut i: usize = 0;
        while i < self.ports.len()
            invariant
                i <= self.ports.len(),
                self.ports.len() == old(self).ports.len(),
                self.acc == 0,
                self.pc == 0,
                self.flag == Flag::Equal,
                self.registers@ == Seq::new(REGISTER_COUNT as nat, |i: int| 0i32),
                self.status == VmStatus::Initial,
                self.program_len == 0,
                forall|k: int| 0 <= k < i ==> self.ports@[k] == old(self).ports@[k].holding(0),
                forall|k: int| i <= k < self.ports.len() ==> self.ports@[k] == old(self).ports@[k],
            decreases self.ports.len() - i,
        {
            let mut p = self.ports[i];
            p.set_value(0);
            self.ports[i] = p;
            i += 1;
        }
        assert(self@.ports =~= old(self)@.rebuilt().ports);
    }

    /// Takes over what the engine reports. The ports take the reported
    /// values and keep their links.
    pub fn observe(
        &mut self,
        acc: i32,
        pc: usize,
        flag: Flag,
        registers: [i32; 4],
        port_values: [i32; 6],
        status: VmStatus,
    )
        requires
            old(self).wf(),
        ensures
            final(self).wf(),
            final(self)@ == old(self)@.observed(acc, pc, flag, registers@, port_values@, status),
    {
        self.acc = acc;
        self.pc = pc;
        self.flag = flag;
        self.status = status;
        let mut regs: Vec<i32> = Vec::new();
        let mut r: usize = 0;
        while r < REGISTER_COUNT
            invariant
                r <= REGISTER_COUNT,
                regs@.len() == r,
                forall|k: int| 0 <= k < r ==> regs@[k] == registers@[k],
            decreases REGISTER_COUNT - r,
        {
            regs.push(registers[r]);
            r += 1;
        }
        assert(regs@ =~= registers@);
        self.registers = regs;
        let mut i: usize = 0;
        while i < PORT_COUNT
            invariant
                i <= PORT_COUNT,
                self.ports.len() == PORT_COUNT,
                old(self).ports.len() == PORT_COUNT,
                self.acc == acc,
                self.pc == pc,
                self.flag == flag,
                self.registers@ == registers@,
                self.status == status,
                self.program_len == old(self).program_len,
                forall|k: int|
                    0 <= k < i ==> self.ports@[k] == old(self).ports@[k].holding(port_values@[k]),
                forall|k: int| i <= k < PORT_COUNT ==> self.ports@[k] == old(self).ports@[k],
            decreases PORT_COUNT - i,
        {
            let mut p = self.ports[i];
            p.set_value(port_values[i]);
            self.ports[i] = p;
            i += 1;
        }
        assert(self@.ports =~= old(self)@.observed(
            acc,
            pc,
            flag,
            registers@,
            port_values@,
            status,
        ).ports);
    }
}

} // verus!
