//! One virtual machine under supervision: its life cycle, its thread, its
//! source text, and what to do when its engine has crashed.
//!
//! The machine's instructions run elsewhere, on a thread of their own. This
//! module decides which commands are valid in which status, what has to
//! happen to that thread, and what the machine's state is afterwards.

use crate::components::connection::ConnectionView;
use crate::components::machine::{Flag, Machine, MachineView, VmStatus, PORT_COUNT};
use crate::components::port::{Port, PortRef};
use crate::storage::connections_manager::{owner_of, ConnectionManager};
use crate::ui::ram_window::relinked_port;
use crate::language::Language;
use crate::text::{decimal, push_digits};
use vstd::prelude::*;

verus! {

/// The delay between two instructions that a new machine starts with.
pub const DEFAULT_DELAY_MS: u64 = 1000;

/// The longest delay between two instructions.
pub const MAX_DELAY_MS: u64 = 5000;

/// The shortest time after which the window is drawn again.
pub const MIN_REPAINT_MS: u64 = 10;

/// A command that moves a machine through its life cycle.
#[derive(Clone, Copy, Debug, PartialEq, Eq, Structural)]
pub enum VmCommand {
    Start,
    Stop,
    Resume,
    Halt,
}

/// What has to happen to a machine's thread after a command.
#[derive(Clone, Copy, Debug, PartialEq, Eq, Structural)]
pub enum ThreadAction {
    /// Start a new thread that runs the loaded program.
    Spawn,
    /// Let the thread park at the next instruction boundary.
    Park,
    /// Let the parked thread continue.
    Wake,
    /// Let the thread end at the next instruction boundary.
    Terminate,
}

/// Whether `command` is valid for a machine in `status`.
pub open spec fn command_valid(status: VmStatus, command: VmCommand) -> bool {
    match command {
        VmCommand::Start => status == VmStatus::Initial || status == VmStatus::Finished,
        VmCommand::Stop => status == VmStatus::Running,
        VmCommand::Resume => status == VmStatus::Stopped,
        VmCommand::Halt => status == VmStatus::Running || status == VmStatus::Stopped,
    }
}

/// The status that a valid `command` leads to.
pub open spec fn status_after(command: VmCommand) -> VmStatus {
    match command {
        VmCommand::Start => VmStatus::Running,
        VmCommand::Stop => VmStatus::Stopped,
        VmCommand::Resume => VmStatus::Running,
        VmCommand::Halt => VmStatus::Finished,
    }
}

/// What a valid `command` asks of the thread. Resuming a machine that has
/// no thread, as after loading a saved session, starts one.
pub open spec fn thread_action(command: VmCommand, has_thread: bool) -> ThreadAction {
    match command {
        VmCommand::Start => ThreadAction::Spawn,
        VmCommand::Stop => ThreadAction::Park,
        VmCommand::Resume => if has_thread {
            ThreadAction::Wake
        } else {
            ThreadAction::Spawn
        },
        VmCommand::Halt => ThreadAction::Terminate,
    }
}

/// The command behind the main control button: start a machine that has not
/// run or has finished, stop a running one, resume a stopped one.
pub open spec fn control_command(status: VmStatus) -> VmCommand {
    match status {
        VmStatus::Initial => VmCommand::Start,
        VmStatus::Running => VmCommand::Stop,
        VmStatus::Stopped => VmCommand::Resume,
        VmStatus::Finished => VmCommand::Start,
    }
}

/// The life cycle: a machine that has not run can only be started, and so
/// can one that has finished or was halted; only a running machine can be
/// stopped; only a stopped one can be resumed; a running or stopped one can
/// be halted.
pub proof fn lemma_life_cycle(status: VmStatus, command: VmCommand)
    ensures
        command_valid(VmStatus::Initial, command) <==> command == VmCommand::Start,
        command_valid(VmStatus::Finished, command) <==> command == VmCommand::Start,
        command_valid(status, VmCommand::Stop) <==> status == VmStatus::Running,
        command_valid(status, VmCommand::Resume) <==> status == VmStatus::Stopped,
        command_valid(status, VmCommand::Halt) <==> (status == VmStatus::Running || status
            == VmStatus::Stopped),
        command_valid(status, VmCommand::Start) <==> (status == VmStatus::Initial || status
            == VmStatus::Finished),
        command_valid(status, control_command(status)),
{
}

/// Whether `command` is valid for a machine in `status`.
pub fn is_command_valid(status: VmStatus, command: VmCommand) -> (b: bool)
    ensures
        b == command_valid(status, command),
{
    match command {
        VmCommand::Start => status == VmStatus::Initial || status == VmStatus::Finished,
        VmCommand::Stop => status == VmStatus::Running,
        VmCommand::Resume => status == VmStatus::Stopped,
        VmCommand::Halt => status == VmStatus::Running || status == VmStatus::Stopped,
    }
}

/// The command behind the main control button.
pub fn control_command_for(status: VmStatus) -> (command: VmCommand)
    ensures
        command == control_command(status),
{
    match status {
        VmStatus::Initial => VmCommand::Start,
        VmStatus::Running => VmCommand::Stop,
        VmStatus::Stopped => VmCommand::Resume,
        VmStatus::Finished => VmCommand::Start,
    }
}

/// What the program has to do after the engine of a machine has crashed:
/// build a new engine, with a stack or without, and assemble `source` into
/// it.
pub struct Recovery {
    pub with_stack: bool,
    pub source: String,
}

/// What a supervised machine holds.
pub struct SVAWindowView {
    pub id: usize,
    pub name: Seq<char>,
    /// The source text as last edited.
    pub code: Seq<char>,
    pub machine: MachineView,
    pub delay_ms: u64,
    pub stack_present: bool,
    pub stack_data: Seq<i32>,
    /// Whether a thread was started for this machine and not joined since.
    pub has_thread: bool,
    /// Whether the machine finished because it was halted.
    pub halted: bool,
    /// The assembler's complaint about `code`, if it had one.
    pub parsing_error: Option<Seq<char>>,
    pub language: Language,
    /// Whether the machine's window is shown.
    pub active: bool,
}

impl SVAWindowView {
    pub open spec fn wf(self) -> bool {
        self.machine.wf() && self.delay_ms <= MAX_DELAY_MS
    }

    /// The state after `command`; an invalid command changes nothing.
    pub open spec fn after_command(self, command: VmCommand) -> SVAWindowView {
        if command_valid(self.machine.status, command) {
            SVAWindowView {
                machine: MachineView { status: status_after(command), ..self.machine },
                has_thread: self.has_thread || command == VmCommand::Start || command
                    == VmCommand::Resume,
                halted: command == VmCommand::Halt || (self.halted && command
                    != VmCommand::Start),
                ..self
            }
        } else {
            self
        }
    }

    /// The reference to port `i` of this machine.
    pub open spec fn port_ref(self, i: int) -> PortRef {
        PortRef::Vm { owner_id: self.id, index: i as usize }
    }

    /// The machine with every port unlinked.
    pub open spec fn unlinked(self) -> SVAWindowView {
        SVAWindowView { machine: self.machine.unlinked(), ..self }
    }

    /// The machine with every port linked as the connections say.
    pub open spec fn relinked(self, conns: Seq<ConnectionView>) -> SVAWindowView {
        SVAWindowView {
            machine: MachineView {
                ports: Seq::new(
                    self.machine.ports.len(),
                    |i: int|
                        relinked_port(self.machine.ports[i], owner_of(conns, self.port_ref(i))),
                ),
                ..self.machine
            },
            ..self
        }
    }

    /// Whether every port is linked exactly as the connections say.
    pub open spec fn linked_as(self, conns: Seq<ConnectionView>) -> bool {
        forall|i: int|
            0 <= i < self.machine.ports.len() ==> (#[trigger] self.machine.ports[i]).link()
                == owner_of(conns, self.port_ref(i))
    }

    /// Whether a step has to start over: the program counter is at or past
    /// the end of the program.
    pub open spec fn step_wraps(self) -> bool {
        self.machine.pc >= self.machine.program_len
    }

    /// The state in which one instruction is then executed.
    pub open spec fn before_step(self) -> SVAWindowView {
        if self.step_wraps() {
            SVAWindowView { machine: self.machine.cleared(), ..self }
        } else {
            self
        }
    }

    /// The state after the engine has crashed: a new machine in its initial
    /// status with everything at zero, no thread, the same source text and
    /// the same stack setting. The ports keep their links.
    pub open spec fn recovered(self) -> SVAWindowView {
        SVAWindowView {
            machine: self.machine.rebuilt(),
            stack_data: Seq::empty(),
            has_thread: false,
            halted: false,
            ..self
        }
    }
}

/// The name of a new machine with the given id.
pub open spec fn default_vm_name(id: usize) -> Seq<char> {
    seq!['v', 'm', ':'] + decimal(id as int)
}

/// A machine that has not run: no source, no program, no thread, the
/// default delay, named after its id.
pub open spec fn fresh_vm(id: usize, stack_present: bool) -> SVAWindowView {
    SVAWindowView {
        id,
        name: default_vm_name(id),
        code: Seq::empty(),
        machine: MachineView::fresh(),
        delay_ms: DEFAULT_DELAY_MS,
        stack_present,
        stack_data: Seq::empty(),
        has_thread: false,
        halted: false,
        parsing_error: None,
        language: Language::En,
        active: true,
    }
}

pub struct SVAWindow {
    id: usize,
    name: String,
    code: String,
    machine: Machine,
    delay_ms: u64,
    stack_present: bool,
    stack_data: Vec<i32>,
    has_thread: bool,
    halted: bool,
    parsing_error: Option<String>,
    language: Language,
    active: bool,
}

impl View for SVAWindow {
    type V = SVAWindowView;

    closed spec fn view(&self) -> SVAWindowView {
        SVAWindowView {
            id: self.id,
            name: self.name@,
            code: self.code@,
            machine: self.machine@,
            delay_ms: self.delay_ms,
            stack_present: self.stack_present,
            stack_data: self.stack_data@,
            has_thread: self.has_thread,
            halted: self.halted,
            parsing_error: match self.parsing_error {
                Some(e) => Some(e@),
                None => None,
            },
            language: self.language,
            active: self.active,
        }
    }
}

impl SVAWindow {
    pub open spec fn wf(&self) -> bool {
        self@.wf()
    }

    /// A machine that has not run: no source, no program, no thread, the
    /// default delay, named after its id.
    pub fn new(id: usize, stack_present: bool) -> (w: SVAWindow)
        ensures
            w.wf(),
            w@ == fresh_vm(id, stack_present),
    {
        let mut name = String::from_str("vm:");
        proof {
            reveal_strlit("vm:");
            assert("vm:"@ =~= seq!['v', 'm', ':']);
        }
        push_digits(id as u64, 10, &mut name);
        assert(name@ =~= default_vm_name(id));
        SVAWindow {
            id,
            name,
            code: String::new(),
            machine: Machine::new(),
            delay_ms: DEFAULT_DELAY_MS,
            stack_present,
            stack_data: Vec::new(),
            has_thread: false,
            halted: false,
            parsing_error: None,
            language: Language::En,
            active: true,
        }
    }

    /// A machine as it is loaded from a saved session: with the saved id,
    /// name, source and settings, in the saved status, with everything else
    /// at zero, no program, no thread and no link. A delay above the
    /// longest one becomes the longest one.
    pub fn from_saved(
        id: usize,
        name: String,
        code: String,
        delay_ms: u64,
        stack_present: bool,
        status: VmStatus,
        active: bool,
    ) -> (w: SVAWindow)
        ensures
            w.wf(),
            w@ == (SVAWindowView {
                name: name@,
                code: code@,
                delay_ms: if delay_ms <= MAX_DELAY_MS {
                    delay_ms
                } else {
                    MAX_DELAY_MS
                },
                machine: MachineView { status, ..MachineView::fresh() },
                active,
                ..fresh_vm(id, stack_present)
            }),
    {
        let mut machine = Machine::new();
        machine.set_status(status);
        SVAWindow {
            id,
            name,
            code,
            machine,
            delay_ms: if delay_ms <= MAX_DELAY_MS {
                delay_ms
            } else {
                MAX_DELAY_MS
            },
            stack_present,
            stack_data: Vec::new(),
            has_thread: false,
            halted: false,
            parsing_error: None,
            language: Language::En,
            active,
        }
    }

    /// Whether the machine's window is shown.
    pub fn is_active(&self) -> (b: bool)
        ensures
            b == self@.active,
    {
        self.active
    }

    /// Shows or hides the machine's window.
    pub fn set_active(&mut self, active: bool)
        ensures
            final(self)@ == (SVAWindowView { active, ..old(self)@ }),
    {
        self.active = active;
    }

    /// Whether the machine has all its registers and ports and its delay is
    /// in range.
    pub fn is_wf(&self) -> (b: bool)
        ensures
            b == self.wf(),
    {
        self.machine.is_wf() && self.delay_ms <= MAX_DELAY_MS
    }

    /// Whether every port is linked exactly as the connections say.
    pub fn is_linked_as(&self, registry: &ConnectionManager) -> (b: bool)
        requires
            self.wf(),
            registry.wf(),
        ensures
            b == self@.linked_as(registry@.connections),
    {
        let ghost conns = registry@.connections;
        let mut i: usize = 0;
        while i < PORT_COUNT
            invariant
                i <= PORT_COUNT,
                self.wf(),
                registry.wf(),
                conns == registry@.connections,
                forall|k: int|
                    0 <= k < i ==> (#[trigger] self@.machine.ports[k]).link() == owner_of(
                        conns,
                        self@.port_ref(k),
                    ),
            decreases PORT_COUNT - i,
        {
            let owner = registry.find_owner(PortRef::Vm { owner_id: self.id, index: i });
            let link = match self.machine.get_port(i) {
                Some(p) => p.get_conn_id(),
                None => None,
            };
            let same = match (owner, link) {
                (Some(a), Some(b)) => a == b,
                (None, None) => true,
                _ => false,
            };
            if !same {
                assert(self@.machine.ports[i as int].link() != owner_of(
                    conns,
                    self@.port_ref(i as int),
                ));
                return false;
            }
            i += 1;
        }
        true
    }

    /// Applies a life-cycle command. A valid command changes the status and
    /// says what has to happen to the thread; an invalid one changes nothing
    /// and returns `None`.
    pub fn command(&mut self, command: VmCommand) -> (action: Option<ThreadAction>)
        requires
            old(self).wf(),
        ensures
            final(self).wf(),
            final(self)@ == old(self)@.after_command(command),
            action == if command_valid(old(self)@.machine.status, command) {
                Some(thread_action(command, old(self)@.has_thread))
            } else {
                None
            },
    {
        let status = self.machine.get_status();
        if !is_command_valid(status, command) {
            return None;
        }
        let had_thread = self.has_thread;
        match command {
            VmCommand::Start => {
                self.machine.set_status(VmStatus::Running);
                self.has_thread = true;
                self.halted = false;
                Some(ThreadAction::Spawn)
            },
            VmCommand::Stop => {
                self.machine.set_status(VmStatus::Stopped);
                Some(ThreadAction::Park)
            },
            VmCommand::Resume => {
                self.machine.set_status(VmStatus::Running);
                self.has_thread = true;
                if had_thread {
                    Some(ThreadAction::Wake)
                } else {
                    Some(ThreadAction::Spawn)
                }
            },
            VmCommand::Halt => {
                self.machine.set_status(VmStatus::Finished);
                self.halted = true;
                Some(ThreadAction::Terminate)
            },
        }
    }

    /// Starts the machine; valid when it has not run or has finished.
    pub fn start_vm(&mut self) -> (action: Option<ThreadAction>)
        requires
            old(self).wf(),
        ensures
            final(self).wf(),
            final(self)@ == old(self)@.after_command(VmCommand::Start),
            action == if command_valid(old(self)@.machine.status, VmCommand::Start) {
                Some(ThreadAction::Spawn)
            } else {
                None
            },
    {
        self.command(VmCommand::Start)
    }

    /// Stops the machine; valid while it runs.
    pub fn stop_vm(&mut self) -> (action: Option<ThreadAction>)
        requires
            old(self).wf(),
        ensures
            final(self).wf(),
            final(self)@ == old(self)@.after_command(VmCommand::Stop),
            action == if command_valid(old(self)@.machine.status, VmCommand::Stop) {
                Some(ThreadAction::Park)
            } else {
                None
            },
    {
        self.command(VmCommand::Stop)
    }

    /// Resumes the machine; valid while it is stopped.
    pub fn resume_vm(&mut self) -> (action: Option<ThreadAction>)
        requires
            old(self).wf(),
        ensures
            final(self).wf(),
            final(self)@ == old(self)@.after_command(VmCommand::Resume),
            action == if command_valid(old(self)@.machine.status, VmCommand::Resume) {
                Some(thread_action(VmCommand::Resume, old(self)@.has_thread))
            } else {
                None
            },
    {
        self.command(VmCommand::Resume)
    }

    /// Halts the machine; valid while it runs or is stopped.
    pub fn halt_vm(&mut self) -> (action: Option<ThreadAction>)
        requires
            old(self).wf(),
        ensures
            final(self).wf(),
            final(self)@ == old(self)@.after_command(VmCommand::Halt),
            action == if command_valid(old(self)@.machine.status, VmCommand::Halt) {
                Some(ThreadAction::Terminate)
            } else {
                None
            },
    {
        self.command(VmCommand::Halt)
    }

    /// What the main control button does in the current status.
    pub fn press_control_button(&mut self) -> (action: ThreadAction)
        requires
            old(self).wf(),
        ensures
            final(self).wf(),
            final(self)@ == old(self)@.after_command(control_command(old(self)@.machine.status)),
            action == thread_action(
                control_command(old(self)@.machine.status),
                old(self)@.has_thread,
            ),
    {
        let command = control_command_for(self.machine.get_status());
        match self.command(command) {
            Some(action) => action,
            None => ThreadAction::Spawn,
        }
    }

    /// Prepares one step: when the program counter is at or past the end of
    /// the program, the registers are cleared first. Returns whether they
    /// were. The engine then executes one instruction.
    pub fn step(&mut self) -> (cleared: bool)
        requires
            old(self).wf(),
        ensures
            final(self).wf(),
            cleared == old(self)@.step_wraps(),
            final(self)@ == old(self)@.before_step(),
    {
        if self.machine.get_pc() >= self.machine.get_program_len() {
            self.machine.clear_registers();
            true
        } else {
            false
        }
    }

    /// Clears accumulator, program counter, flag and registers. The program
    /// and the ports stay as they are.
    pub fn reset_vm(&mut self)
        requires
            old(self).wf(),
        ensures
            final(self).wf(),
            final(self)@ == (SVAWindowView { machine: old(self)@.machine.cleared(), ..old(self)@ }),
    {
        self.machine.clear_registers();
    }

    /// Replaces a crashed machine by a new one and says how the engine has
    /// to be rebuilt: with the same stack setting and from the same source.
    pub fn handle_poison_error(&mut self) -> (recovery: Recovery)
        requires
            old(self).wf(),
        ensures
            final(self).wf(),
            final(self)@ == old(self)@.recovered(),
            recovery.with_stack == old(self)@.stack_present,
            recovery.source@ == old(self)@.code,
    {
        self.machine.rebuild();
        self.stack_data = Vec::new();
        self.has_thread = false;
        self.halted = false;
        Recovery { with_stack: self.stack_present, source: self.code.clone() }
    }

    /// Records that the machine's thread has been joined. Returns whether
    /// there was one to join.
    pub fn join_vm(&mut self) -> (had_thread: bool)
        requires
            old(self).wf(),
        ensures
            final(self).wf(),
            had_thread == old(self)@.has_thread,
            final(self)@ == (SVAWindowView { has_thread: false, ..old(self)@ }),
    {
        let had_thread = self.has_thread;
        self.has_thread = false;
        had_thread
    }

    /// Records the outcome of assembling the source: a program of so many
    /// instructions, which is loaded, or the assembler's complaint, which
    /// leaves the loaded program as it is.
    pub fn try_assemble_and_load(&mut self, outcome: Result<usize, String>)
        requires
            old(self).wf(),
        ensures
            final(self).wf(),
            final(self)@ == match outcome {
                Ok(len) => SVAWindowView {
                    machine: MachineView { program_len: len, ..old(self)@.machine },
                    parsing_error: None,
                    ..old(self)@
                },
                Err(e) => SVAWindowView { parsing_error: Some(e@), ..old(self)@ },
            },
    {
        match outcome {
            Ok(len) => {
                self.machine.load_program(len);
                self.parsing_error = None;
            },
            Err(e) => {
                self.parsing_error = Some(e);
            },
        }
    }

    /// Takes over what the engine reports of its state.
    pub fn observe(
        &mut self,
        acc: i32,
        pc: usize,
        flag: Flag,
        registers: [i32; 4],
        port_values: [i32; 6],
        status: VmStatus,
    )
        requires
            old(self).wf(),
        ensures
            final(self).wf(),
            final(self)@ == (SVAWindowView {
                machine: old(self)@.machine.observed(
                    acc,
                    pc,
                    flag,
                    registers@,
                    port_values@,
                    status,
                ),
                ..old(self)@
            }),
    {
        self.machine.observe(acc, pc, flag, registers, port_values, status);
    }

    /// Takes over the engine's stack.
    pub fn set_stack(&mut self, stack: Vec<i32>)
        requires
            old(self).wf(),
        ensures
            final(self).wf(),
            final(self)@ == (SVAWindowView { stack_data: stack@, ..old(self)@ }),
    {
        self.stack_data = stack;
    }

    pub fn get_status(&self) -> (status: VmStatus)
        ensures
            status == self@.machine.status,
    {
        self.machine.get_status()
    }

    pub fn has_stack(&self) -> (b: bool)
        ensures
            b == self@.stack_present,
    {
        self.stack_present
    }

    pub fn has_thread(&self) -> (b: bool)
        ensures
            b == self@.has_thread,
    {
        self.has_thread
    }

    /// Whether the machine finished because it was halted.
    pub fn was_halted(&self) -> (b: bool)
        ensures
            b == self@.halted,
    {
        self.halted
    }

    pub fn get_id(&self) -> (id: usize)
        ensures
            id == self@.id,
    {
        self.id
    }

    pub fn get_name(&self) -> (name: String)
        ensures
            name@ == self@.name,
    {
        self.name.clone()
    }

    pub fn set_name(&mut self, name: String)
        ensures
            final(self)@ == (SVAWindowView { name: name@, ..old(self)@ }),
    {
        self.name = name;
    }

    pub fn get_code(&self) -> (code: String)
        ensures
            code@ == self@.code,
    {
        self.code.clone()
    }

    /// Replaces the source text.
    pub fn set_code(&mut self, code: String)
        ensures
            final(self)@ == (SVAWindowView { code: code@, ..old(self)@ }),
    {
        self.code = code;
    }

    pub fn get_language(&self) -> (language: Language)
        ensures
            language == self@.language,
    {
        self.language
    }

    pub fn set_language(&mut self, language: Language)
        ensures
            final(self)@ == (SVAWindowView { language, ..old(self)@ }),
    {
        self.language = language;
    }

    /// The assembler's complaint about the source, if it had one. While
    /// there is one the machine's controls are not offered.
    pub fn get_parsing_error(&self) -> (e: Option<String>)
        ensures
            e.is_some() == self@.parsing_error.is_some(),
            e.is_some() ==> e.unwrap()@ == self@.parsing_error.unwrap(),
    {
        match &self.parsing_error {
            Some(e) => Some(e.clone()),
            None => None,
        }
    }

    pub fn get_delay(&self) -> (ms: u64)
        ensures
            ms == self@.delay_ms,
    {
        self.delay_ms
    }

    /// Sets the delay between two instructions; a delay above the longest
    /// one becomes the longest one.
    pub fn set_delay(&mut self, ms: u64)
        requires
            old(self).wf(),
        ensures
            final(self).wf(),
            final(self)@ == (SVAWindowView {
                delay_ms: if ms <= MAX_DELAY_MS {
                    ms
                } else {
                    MAX_DELAY_MS
                },
                ..old(self)@
            }),
    {
        self.delay_ms = if ms <= MAX_DELAY_MS {
            ms
        } else {
            MAX_DELAY_MS
        };
    }

    /// After how many milliseconds the window is drawn again: the delay,
    /// but not less than the shortest repaint time.
    pub fn repaint_after_ms(&self) -> (ms: u64)
        ensures
            ms == if self@.delay_ms > MIN_REPAINT_MS {
                self@.delay_ms
            } else {
                MIN_REPAINT_MS
            },
    {
        if self.delay_ms > MIN_REPAINT_MS {
            self.delay_ms
        } else {
            MIN_REPAINT_MS
        }
    }

    /// A copy of the stack as last reported.
    pub fn get_stack(&self) -> (stack: Vec<i32>)
        ensures
            stack@ == self@.stack_data,
    {
        let mut stack: Vec<i32> = Vec::new();
        let mut i: usize = 0;
        while i < self.stack_data.len()
            invariant
                i <= self.stack_data.len(),
                stack@.len() == i,
                forall|k: int| 0 <= k < i ==> stack@[k] == self.stack_data@[k],
            decreases self.stack_data.len() - i,
        {
            stack.push(self.stack_data[i]);
            i += 1;
        }
        assert(stack@ =~= self.stack_data@);
        stack
    }

    pub fn get_acc(&self) -> (v: i32)
        ensures
            v == self@.machine.acc,
    {
        self.machine.get_acc()
    }

    pub fn get_pc(&self) -> (v: usize)
        ensures
            v == self@.machine.pc,
    {
        self.machine.get_pc()
    }

    pub fn get_flag(&self) -> (v: Flag)
        ensures
            v == self@.machine.flag,
    {
        self.machine.get_flag()
    }

    pub fn get_register(&self, i: usize) -> (v: Option<i32>)
        ensures
            v == if i < self@.machine.registers.len() {
                Some(self@.machine.registers[i as int])
            } else {
                None
            },
    {
        self.machine.get_register(i)
    }

    /// Port `i`, or `None` when there is no such port.
    pub fn get_port(&self, i: usize) -> (p: Option<Port>)
        ensures
            p == if i < self@.machine.ports.len() {
                Some(self@.machine.ports[i as int])
            } else {
                None
            },
    {
        self.machine.get_port(i)
    }

    /// Replaces port `i`. Nothing happens when there is no such port.
    pub(crate) fn set_port(&mut self, i: usize, port: Port)
        requires
            old(self).wf(),
        ensures
            final(self).wf(),
            final(self)@ == if i < old(self)@.machine.ports.len() {
                SVAWindowView {
                    machine: MachineView {
                        ports: old(self)@.machine.ports.update(i as int, port),
                        ..old(self)@.machine
                    },
                    ..old(self)@
                }
            } else {
                old(self)@
            },
    {
        self.machine.set_port(i, port);
    }

    /// Writes `v` to every port that is linked to connection `c`.
    pub(crate) fn reach(&mut self, c: usize, v: i32)
        requires
            old(self).wf(),
        ensures
            final(self).wf(),
            final(self)@ == (SVAWindowView {
                machine: old(self)@.machine.reached(c, v),
                ..old(self)@
            }),
    {
        self.machine.reach(c, v);
    }

    /// Drops the link of every port.
    pub(crate) fn disconnect_ports(&mut self)
        requires
            old(self).wf(),
        ensures
            final(self).wf(),
            final(self)@ == old(self)@.unlinked(),
    {
        self.machine.disconnect_all();
    }

    /// Links every port that a connection lists to that connection; the
    /// other ports stay as they are.
    pub(crate) fn relink_ports(&mut self, registry: &ConnectionManager)
        requires
            old(self).wf(),
            registry.wf(),
        ensures
            final(self).wf(),
            final(self)@ == old(self)@.relinked(registry@.connections),
    {
        let ghost conns = registry@.connections;
        let ghost before = self@;
        let mut i: usize = 0;
        while i < PORT_COUNT
            invariant
                i <= PORT_COUNT,
                self.wf(),
                before.wf(),
                registry.wf(),
                conns == registry@.connections,
                self@ == (SVAWindowView {
                    machine: MachineView { ports: self@.machine.ports, ..before.machine },
                    ..before
                }),
                forall|k: int|
                    0 <= k < i ==> self@.machine.ports[k] == relinked_port(
                        before.machine.ports[k],
                        owner_of(conns, before.port_ref(k)),
                    ),
                forall|k: int| i <= k < PORT_COUNT ==> self@.machine.ports[k] == before.machine.ports[k],
            decreases PORT_COUNT - i,
        {
            let port_ref = PortRef::Vm { owner_id: self.id, index: i };
            match registry.find_owner(port_ref) {
                Some(c) => {
                    match self.machine.get_port(i) {
                        Some(p) => {
                            let mut p = p;
                            p.connect(c);
                            self.machine.set_port(i, p);
                        },
                        None => {},
                    }
                },
                None => {},
            }
            i += 1;
        }
        assert(self@.machine.ports =~= before.relinked(conns).machine.ports);
    }
}

} // verus!
