use sva_ui::components::machine::{Flag, VmStatus};
use sva_ui::components::port::Port;
use sva_ui::ui::app::SvaUI;
use sva_ui::ui::sva_window::{
    control_command_for, is_command_valid, SVAWindow, ThreadAction, VmCommand,
};

const COMMANDS: [VmCommand; 4] = [
    VmCommand::Start,
    VmCommand::Stop,
    VmCommand::Resume,
    VmCommand::Halt,
];

const STATUSES: [VmStatus; 4] = [
    VmStatus::Initial,
    VmStatus::Running,
    VmStatus::Stopped,
    VmStatus::Finished,
];

fn in_status(status: VmStatus) -> SVAWindow {
    SVAWindow::from_saved(0, "vm".to_string(), String::new(), 1000, false, status, true)
}

#[test]
fn new_machine_is_initial() {
    let w = SVAWindow::new(5, true);
    assert!(w.is_wf());
    assert_eq!(w.get_id(), 5);
    assert_eq!(w.get_name(), "vm:5");
    assert_eq!(w.get_status(), VmStatus::Initial);
    assert_eq!(w.get_delay(), 1000);
    assert!(w.has_stack());
    assert!(!w.has_thread());
    assert!(!w.was_halted());
    assert!(w.is_active());
    assert_eq!(w.get_code(), "");
    assert_eq!(w.get_parsing_error(), None);
    assert_eq!(w.get_acc(), 0);
    assert_eq!(w.get_pc(), 0);
    assert_eq!(w.get_flag(), Flag::Equal);
    for i in 0..4 {
        assert_eq!(w.get_register(i), Some(0));
    }
    assert_eq!(w.get_register(4), None);
    for i in 0..6 {
        assert_eq!(w.get_port(i), Some(Port::Disconnected(0)));
    }
    assert_eq!(w.get_port(6), None);
}

#[test]
fn valid_commands_by_status() {
    for command in COMMANDS {
        assert_eq!(
            is_command_valid(VmStatus::Initial, command),
            command == VmCommand::Start
        );
        assert_eq!(
            is_command_valid(VmStatus::Finished, command),
            command == VmCommand::Start
        );
    }
    for status in STATUSES {
        assert_eq!(
            is_command_valid(status, VmCommand::Stop),
            status == VmStatus::Running
        );
        assert_eq!(
            is_command_valid(status, VmCommand::Resume),
            status == VmStatus::Stopped
        );
        assert_eq!(
            is_command_valid(status, VmCommand::Halt),
            status == VmStatus::Running || status == VmStatus::Stopped
        );
        assert!(is_command_valid(status, control_command_for(status)));
    }
}

#[test]
fn invalid_command_changes_nothing() {
    for status in STATUSES {
        for command in COMMANDS {
            let mut w = in_status(status);
            let action = w.command(command);
            if is_command_valid(status, command) {
                assert!(action.is_some());
            } else {
                assert_eq!(action, None);
                assert_eq!(w.get_status(), status);
                assert!(!w.has_thread());
                assert!(!w.was_halted());
            }
        }
    }
}

#[test]
fn full_life_cycle() {
    let mut w = SVAWindow::new(0, false);
    assert_eq!(w.stop_vm(), None);
    assert_eq!(w.resume_vm(), None);
    assert_eq!(w.halt_vm(), None);
    assert_eq!(w.start_vm(), Some(ThreadAction::Spawn));
    assert_eq!(w.get_status(), VmStatus::Running);
    assert!(w.has_thread());
    assert_eq!(w.start_vm(), None);
    assert_eq!(w.stop_vm(), Some(ThreadAction::Park));
    assert_eq!(w.get_status(), VmStatus::Stopped);
    assert_eq!(w.resume_vm(), Some(ThreadAction::Wake));
    assert_eq!(w.get_status(), VmStatus::Running);
    assert_eq!(w.halt_vm(), Some(ThreadAction::Terminate));
    assert_eq!(w.get_status(), VmStatus::Finished);
    assert!(w.was_halted());
    assert_eq!(w.stop_vm(), None);
    assert_eq!(w.resume_vm(), None);
    assert_eq!(w.halt_vm(), None);
    assert_eq!(w.start_vm(), Some(ThreadAction::Spawn));
    assert_eq!(w.get_status(), VmStatus::Running);
    assert!(!w.was_halted());
}

#[test]
fn halt_from_stopped() {
    let mut w = in_status(VmStatus::Stopped);
    assert_eq!(w.halt_vm(), Some(ThreadAction::Terminate));
    assert_eq!(w.get_status(), VmStatus::Finished);
    assert!(w.was_halted());
}

#[test]
fn resume_without_thread_spawns_one() {
    let mut w = in_status(VmStatus::Stopped);
    assert!(!w.has_thread());
    assert_eq!(w.resume_vm(), Some(ThreadAction::Spawn));
    assert!(w.has_thread());
    assert_eq!(w.get_status(), VmStatus::Running);
}

#[test]
fn control_button_follows_status() {
    assert_eq!(control_command_for(VmStatus::Initial), VmCommand::Start);
    assert_eq!(control_command_for(VmStatus::Running), VmCommand::Stop);
    assert_eq!(control_command_for(VmStatus::Stopped), VmCommand::Resume);
    assert_eq!(control_command_for(VmStatus::Finished), VmCommand::Start);
    let mut w = SVAWindow::new(0, false);
    assert_eq!(w.press_control_button(), ThreadAction::Spawn);
    assert_eq!(w.press_control_button(), ThreadAction::Park);
    assert_eq!(w.press_control_button(), ThreadAction::Wake);
    assert_eq!(w.get_status(), VmStatus::Running);
}

#[test]
fn join_forgets_the_thread() {
    let mut w = SVAWindow::new(0, false);
    assert!(!w.join_vm());
    w.start_vm();
    assert!(w.join_vm());
    assert!(!w.has_thread());
    assert!(!w.join_vm());
    assert_eq!(w.get_status(), VmStatus::Running);
}

#[test]
fn step_wraps_at_end_of_program() {
    let mut w = SVAWindow::new(0, false);
    w.try_assemble_and_load(Ok(3));
    w.observe(7, 3, Flag::Greater, [1, 2, 3, 4], [0; 6], VmStatus::Initial);
    assert!(w.step());
    assert_eq!(w.get_pc(), 0);
    assert_eq!(w.get_acc(), 0);
    assert_eq!(w.get_flag(), Flag::Equal);
    assert_eq!(w.get_register(2), Some(0));

    w.observe(7, 2, Flag::Lesser, [1, 2, 3, 4], [0; 6], VmStatus::Initial);
    assert!(!w.step());
    assert_eq!(w.get_pc(), 2);
    assert_eq!(w.get_acc(), 7);
    assert_eq!(w.get_flag(), Flag::Lesser);
    assert_eq!(w.get_register(3), Some(4));
}

#[test]
fn step_without_program_wraps() {
    let mut w = SVAWindow::new(0, false);
    assert!(w.step());
    assert_eq!(w.get_pc(), 0);
}

#[test]
fn reset_keeps_program_and_ports() {
    let mut ui = SvaUI::new();
    let vm = ui.add_vm(false).unwrap();
    let c = ui.create_connection().unwrap();
    ui.set_current_id(Some(c));
    ui.click_vm_port(vm, 1);
    let w = ui.vm_mut(0);
    w.try_assemble_and_load(Ok(4));
    w.observe(5, 2, Flag::Greater, [9, 8, 7, 6], [1, 2, 3, 4, 5, 6], VmStatus::Stopped);
    w.reset_vm();
    assert_eq!(w.get_acc(), 0);
    assert_eq!(w.get_pc(), 0);
    assert_eq!(w.get_flag(), Flag::Equal);
    assert_eq!(w.get_register(0), Some(0));
    assert_eq!(w.get_status(), VmStatus::Stopped);
    assert_eq!(w.get_port(1), Some(Port::Connected(c, 2)));
    assert_eq!(w.get_port(0), Some(Port::Disconnected(1)));
    assert!(!w.step());
    assert!(ui.is_consistent());
}

#[test]
fn recovery_after_crash() {
    let mut ui = SvaUI::new();
    for _ in 0..4 {
        ui.add_vm(true);
    }
    let c = ui.create_connection().unwrap();
    ui.set_current_id(Some(c));
    ui.click_vm_port(3, 2);
    let w = ui.vm_mut(3);
    w.set_code("MOV 5 acc\nADD 1".to_string());
    w.try_assemble_and_load(Ok(2));
    w.start_vm();
    w.observe(6, 1, Flag::Greater, [1, 1, 1, 1], [0, 0, 44, 0, 0, 0], VmStatus::Running);
    w.set_stack(vec![1, 2]);

    let recovery = w.handle_poison_error();
    assert!(recovery.with_stack);
    assert_eq!(recovery.source, "MOV 5 acc\nADD 1");
    assert_eq!(w.get_status(), VmStatus::Initial);
    assert_eq!(w.get_acc(), 0);
    assert_eq!(w.get_pc(), 0);
    assert_eq!(w.get_flag(), Flag::Equal);
    for i in 0..4 {
        assert_eq!(w.get_register(i), Some(0));
    }
    assert!(!w.has_thread());
    assert!(!w.was_halted());
    assert!(w.get_stack().is_empty());
    assert_eq!(w.get_code(), "MOV 5 acc\nADD 1");
    assert_eq!(w.get_port(2), Some(Port::Connected(c, 0)));
    w.try_assemble_and_load(Ok(2));
    assert!(!w.step());
    assert_eq!(w.start_vm(), Some(ThreadAction::Spawn));
    assert!(ui.is_wf());
    assert!(ui.is_consistent());
    assert_eq!(ui.vm_at(0).get_status(), VmStatus::Initial);
}

#[test]
fn recovery_keeps_missing_stack() {
    let mut w = SVAWindow::new(1, false);
    let recovery = w.handle_poison_error();
    assert!(!recovery.with_stack);
    assert_eq!(recovery.source, "");
}

#[test]
fn assembly_outcome_is_recorded() {
    let mut w = SVAWindow::new(0, false);
    w.try_assemble_and_load(Err("line 2: unknown instruction".to_string()));
    assert_eq!(
        w.get_parsing_error(),
        Some("line 2: unknown instruction".to_string())
    );
    assert!(w.step());
    w.try_assemble_and_load(Ok(1));
    assert_eq!(w.get_parsing_error(), None);
    assert!(!w.step());
}

#[test]
fn delay_is_bounded() {
    let mut w = SVAWindow::new(0, false);
    assert_eq!(w.repaint_after_ms(), 1000);
    w.set_delay(0);
    assert_eq!(w.get_delay(), 0);
    assert_eq!(w.repaint_after_ms(), 10);
    w.set_delay(10);
    assert_eq!(w.repaint_after_ms(), 10);
    w.set_delay(11);
    assert_eq!(w.repaint_after_ms(), 11);
    w.set_delay(5000);
    assert_eq!(w.get_delay(), 5000);
    w.set_delay(5001);
    assert_eq!(w.get_delay(), 5000);
    assert!(w.is_wf());
}

#[test]
fn observe_keeps_links() {
    let mut ui = SvaUI::new();
    let vm = ui.add_vm(false).unwrap();
    let c = ui.create_connection().unwrap();
    ui.set_current_id(Some(c));
    ui.click_vm_port(vm, 5);
    ui.vm_mut(0)
        .observe(-1, 9, Flag::Lesser, [4, 3, 2, 1], [10, 20, 30, 40, 50, 60], VmStatus::Finished);
    let w = ui.vm_at(0);
    assert_eq!(w.get_acc(), -1);
    assert_eq!(w.get_pc(), 9);
    assert_eq!(w.get_register(0), Some(4));
    assert_eq!(w.get_status(), VmStatus::Finished);
    assert_eq!(w.get_port(5), Some(Port::Connected(c, 60)));
    assert_eq!(w.get_port(4), Some(Port::Disconnected(50)));
    assert!(ui.is_consistent());
}
