use sva_ui::components::port::{Port, PortRef, RamPort};
use sva_ui::ui::app::SvaUI;
use sva_ui::ui::wiring::ClickOutcome;

fn vm_at(owner_id: usize, index: usize) -> PortRef {
    PortRef::Vm { owner_id, index }
}

fn ram_at(owner_id: usize, port: RamPort) -> PortRef {
    PortRef::Ram { owner_id, port }
}

fn members(ui: &SvaUI, c: usize) -> Vec<PortRef> {
    ui.connections().get_connection_by_id(Some(c)).unwrap().get_members()
}

#[test]
fn new_workbench_is_consistent() {
    let ui = SvaUI::new();
    assert!(ui.is_wf());
    assert!(ui.is_consistent());
    assert_eq!(ui.vm_count(), 0);
    assert_eq!(ui.ram_count(), 0);
}

#[test]
fn components_get_increasing_ids() {
    let mut ui = SvaUI::new();
    assert_eq!(ui.add_vm(true), Some(0));
    assert_eq!(ui.add_vm(false), Some(1));
    assert_eq!(ui.add_ram(), Some(0));
    assert_eq!(ui.add_ram(), Some(1));
    assert_eq!(ui.add_ram(), Some(2));
    ui.remove_vm(Some(0));
    assert_eq!(ui.add_vm(true), Some(2));
    ui.remove_ram(Some(2));
    assert_eq!(ui.add_ram(), Some(2));
    assert_eq!(ui.find_vm(1), Some(0));
    assert_eq!(ui.find_vm(0), None);
    assert_eq!(ui.vm_at(1).get_name(), "vm:2");
    assert_eq!(ui.ram_at(0).get_name(), "ram:0");
    assert!(ui.vm_at(1).has_stack());
    assert!(!ui.vm_at(0).has_stack());
    assert!(ui.is_wf());
}

#[test]
fn click_with_cursor_connects() {
    let mut ui = SvaUI::new();
    let vm = ui.add_vm(true).unwrap();
    let c = ui.create_connection().unwrap();
    ui.set_current_id(Some(c));
    assert_eq!(ui.click_vm_port(vm, 3), ClickOutcome::Connected(c));
    assert_eq!(ui.get_port(vm_at(vm, 3)), Some(Port::Connected(c, 0)));
    assert_eq!(members(&ui, c), vec![vm_at(vm, 3)]);
    assert!(ui.is_consistent());
}

#[test]
fn click_on_connected_port_is_refused() {
    let mut ui = SvaUI::new();
    let vm = ui.add_vm(true).unwrap();
    let a = ui.create_connection().unwrap();
    let b = ui.create_connection().unwrap();
    ui.set_current_id(Some(a));
    ui.click_vm_port(vm, 0);
    ui.set_current_id(Some(b));
    assert_eq!(ui.click_vm_port(vm, 0), ClickOutcome::AlreadyConnected);
    assert_eq!(ui.get_port(vm_at(vm, 0)), Some(Port::Connected(a, 0)));
    assert_eq!(members(&ui, a), vec![vm_at(vm, 0)]);
    assert!(members(&ui, b).is_empty());
    assert!(ui.is_consistent());
}

#[test]
fn click_without_mode_changes_nothing() {
    let mut ui = SvaUI::new();
    let vm = ui.add_vm(true).unwrap();
    ui.create_connection();
    assert_eq!(ui.click_vm_port(vm, 0), ClickOutcome::Idle);
    assert_eq!(ui.get_port(vm_at(vm, 0)), Some(Port::Disconnected(0)));
    ui.toggle_disconnect_mode();
    assert_eq!(ui.click_vm_port(vm, 0), ClickOutcome::NotConnected);
    assert!(ui.is_consistent());
}

#[test]
fn click_on_missing_port() {
    let mut ui = SvaUI::new();
    let vm = ui.add_vm(true).unwrap();
    let c = ui.create_connection().unwrap();
    ui.set_current_id(Some(c));
    assert_eq!(ui.click_vm_port(vm, 6), ClickOutcome::NoSuchPort);
    assert_eq!(ui.click_vm_port(vm + 1, 0), ClickOutcome::NoSuchPort);
    assert_eq!(ui.click_ram_port(0, RamPort::Data), ClickOutcome::NoSuchPort);
    assert!(members(&ui, c).is_empty());
    assert_eq!(ui.get_port(vm_at(vm, 6)), None);
}

#[test]
fn cursor_on_removed_connection_does_not_connect() {
    let mut ui = SvaUI::new();
    let vm = ui.add_vm(true).unwrap();
    let c = ui.create_connection().unwrap();
    ui.set_current_id(Some(c));
    ui.remove_connection(Some(c));
    assert_eq!(ui.click_vm_port(vm, 0), ClickOutcome::Idle);
    assert_eq!(ui.get_port(vm_at(vm, 0)), Some(Port::Disconnected(0)));
}

#[test]
fn disconnect_click_leaves_empty_connection() {
    let mut ui = SvaUI::new();
    let vm = ui.add_vm(true).unwrap();
    let c = ui.create_connection().unwrap();
    ui.set_current_id(Some(c));
    ui.click_vm_port(vm, 1);
    assert_eq!(members(&ui, c).len(), 1);
    ui.toggle_disconnect_mode();
    assert_eq!(ui.click_vm_port(vm, 1), ClickOutcome::Disconnected(c));
    assert_eq!(ui.get_port(vm_at(vm, 1)), Some(Port::Disconnected(0)));
    assert_eq!(members(&ui, c).len(), 0);
    assert_eq!(ui.connections().get_connection_index_by_id(Some(c)), Some(0));
    assert!(ui.is_consistent());
}

#[test]
fn disconnect_click_takes_one_member() {
    let mut ui = SvaUI::new();
    let vm = ui.add_vm(true).unwrap();
    let ram = ui.add_ram().unwrap();
    let c = ui.create_connection().unwrap();
    ui.set_current_id(Some(c));
    ui.click_vm_port(vm, 0);
    ui.click_ram_port(ram, RamPort::Data);
    ui.click_ram_port(ram, RamPort::Index);
    assert_eq!(members(&ui, c).len(), 3);
    ui.toggle_disconnect_mode();
    assert_eq!(ui.click_ram_port(ram, RamPort::Data), ClickOutcome::Disconnected(c));
    assert_eq!(
        members(&ui, c),
        vec![vm_at(vm, 0), ram_at(ram, RamPort::Index)]
    );
    assert_eq!(ui.ram_at(0).get_port(RamPort::Data), Port::Disconnected(0));
    assert_eq!(ui.ram_at(0).get_port(RamPort::Index), Port::Connected(c, 0));
    assert!(ui.is_consistent());
}

#[test]
fn link_and_membership_agree_after_every_step() {
    let mut ui = SvaUI::new();
    let v0 = ui.add_vm(true).unwrap();
    let v1 = ui.add_vm(false).unwrap();
    let r0 = ui.add_ram().unwrap();
    let a = ui.create_connection().unwrap();
    let b = ui.create_connection().unwrap();
    assert!(ui.is_consistent());
    ui.set_current_id(Some(a));
    ui.click_vm_port(v0, 0);
    assert!(ui.is_consistent());
    ui.click_ram_port(r0, RamPort::Data);
    assert!(ui.is_consistent());
    ui.toggle_current_id(b);
    ui.click_vm_port(v1, 5);
    ui.click_vm_port(v0, 0);
    assert!(ui.is_consistent());
    ui.rename_connection(Some(a), "wire".to_string());
    ui.remove_vm(Some(v1));
    assert!(ui.is_consistent());
    ui.toggle_disconnect_mode();
    ui.click_vm_port(v0, 0);
    assert!(ui.is_consistent());
    for port in [vm_at(v0, 0), ram_at(r0, RamPort::Data), vm_at(v1, 5)] {
        let link = ui.get_port(port).and_then(|p| p.get_conn_id());
        if ui.get_port(port).is_some() {
            assert_eq!(link, ui.connections().find_owner(port));
        }
    }
    assert_eq!(ui.connections().find_owner(vm_at(v1, 5)), Some(b));
}

#[test]
fn removing_a_connection_leaves_stale_links_until_reload() {
    let mut ui = SvaUI::new();
    let vm = ui.add_vm(true).unwrap();
    let ram = ui.add_ram().unwrap();
    let a = ui.create_connection().unwrap();
    let b = ui.create_connection().unwrap();
    ui.set_current_id(Some(a));
    ui.click_vm_port(vm, 0);
    ui.set_current_id(Some(b));
    ui.click_ram_port(ram, RamPort::Mode);
    ui.remove_connection(Some(a));
    assert_eq!(ui.get_port(vm_at(vm, 0)), Some(Port::Connected(a, 0)));
    assert!(!ui.is_consistent());
    assert!(ui.connections().needs_reload());
    assert!(ui.reload_if_needed());
    assert_eq!(ui.get_port(vm_at(vm, 0)), Some(Port::Disconnected(0)));
    assert_eq!(
        ui.get_port(ram_at(ram, RamPort::Mode)),
        Some(Port::Connected(b, 0))
    );
    assert!(ui.is_consistent());
    assert!(!ui.connections().needs_reload());
    assert!(!ui.reload_if_needed());
}

#[test]
fn reconnect_twice_is_reconnect_once() {
    let mut ui = SvaUI::new();
    let vm = ui.add_vm(true).unwrap();
    let ram = ui.add_ram().unwrap();
    let c = ui.create_connection().unwrap();
    ui.set_current_id(Some(c));
    ui.click_vm_port(vm, 2);
    ui.click_ram_port(ram, RamPort::Index);
    ui.disconnect_vm_ports();
    ui.disconnect_ram_ports();
    assert_eq!(ui.get_port(vm_at(vm, 2)), Some(Port::Disconnected(0)));
    assert!(!ui.is_consistent());
    ui.reconnect_vm_ports();
    ui.reconnect_ram_ports();
    let once: Vec<Option<Port>> = (0..6).map(|i| ui.get_port(vm_at(vm, i))).collect();
    let once_ram = ui.get_port(ram_at(ram, RamPort::Index));
    ui.reconnect_vm_ports();
    ui.reconnect_ram_ports();
    let twice: Vec<Option<Port>> = (0..6).map(|i| ui.get_port(vm_at(vm, i))).collect();
    assert_eq!(once, twice);
    assert_eq!(once_ram, ui.get_port(ram_at(ram, RamPort::Index)));
    assert_eq!(once[2], Some(Port::Connected(c, 0)));
    assert_eq!(once_ram, Some(Port::Connected(c, 0)));
    assert!(ui.is_consistent());
}

#[test]
fn reconnect_order_does_not_matter() {
    let build = || {
        let mut ui = SvaUI::new();
        let vm = ui.add_vm(true).unwrap();
        let ram = ui.add_ram().unwrap();
        let c = ui.create_connection().unwrap();
        ui.set_current_id(Some(c));
        ui.click_vm_port(vm, 4);
        ui.click_ram_port(ram, RamPort::Data);
        ui.disconnect_ram_ports();
        ui.disconnect_vm_ports();
        ui
    };
    let mut first = build();
    first.reconnect_vm_ports();
    first.reconnect_ram_ports();
    let mut second = build();
    second.reconnect_ram_ports();
    second.reconnect_vm_ports();
    for port in [vm_at(0, 4), vm_at(0, 0), ram_at(0, RamPort::Data)] {
        assert_eq!(first.get_port(port), second.get_port(port));
    }
    assert_eq!(first.get_port(vm_at(0, 4)), Some(Port::Connected(1, 0)));
    assert!(first.is_consistent() && second.is_consistent());
}

#[test]
fn dangling_member_is_tolerated() {
    let mut ui = SvaUI::new();
    let vm = ui.add_vm(true).unwrap();
    let c = ui.create_connection().unwrap();
    ui.set_current_id(Some(c));
    ui.click_vm_port(vm, 0);
    ui.remove_vm(Some(vm));
    assert_eq!(members(&ui, c), vec![vm_at(vm, 0)]);
    ui.reload_connections();
    assert!(ui.is_consistent());
    assert_eq!(ui.get_port(vm_at(vm, 0)), None);
}

#[test]
fn new_component_takes_up_listed_ports() {
    let mut ui = SvaUI::new();
    let vm = ui.add_vm(true).unwrap();
    let c = ui.create_connection().unwrap();
    ui.set_current_id(Some(c));
    ui.click_vm_port(vm, 0);
    ui.remove_vm(Some(vm));
    assert_eq!(ui.add_vm(true), Some(vm));
    assert_eq!(ui.get_port(vm_at(vm, 0)), Some(Port::Connected(c, 0)));
    assert!(ui.is_consistent());
}

#[test]
fn clear_file_removes_everything() {
    let mut ui = SvaUI::new();
    ui.add_vm(true);
    ui.add_ram();
    ui.create_connection();
    ui.create_connection();
    ui.clear_file();
    assert_eq!(ui.vm_count(), 0);
    assert_eq!(ui.ram_count(), 0);
    assert_eq!(ui.connections().connection_count(), 0);
    assert_eq!(ui.create_connection(), Some(1));
    assert!(ui.is_consistent());
}

#[test]
fn renaming_components() {
    let mut ui = SvaUI::new();
    let vm = ui.add_vm(true).unwrap();
    let ram = ui.add_ram().unwrap();
    assert!(ui.change_vm_name(vm, "cpu".to_string()));
    assert!(ui.change_ram_name(ram, "memory".to_string()));
    assert!(!ui.change_vm_name(vm + 1, "nobody".to_string()));
    assert!(!ui.change_ram_name(ram + 1, "nobody".to_string()));
    assert_eq!(ui.vm_at(0).get_name(), "cpu");
    assert_eq!(ui.ram_at(0).get_name(), "memory");
}

#[test]
fn set_ram_value_by_module_and_cell() {
    let mut ui = SvaUI::new();
    let ram = ui.add_ram().unwrap();
    assert!(ui.set_ram_value(Some(ram), 511, -7));
    assert_eq!(ui.ram_at(0).get_value(511), Some(-7));
    assert!(!ui.set_ram_value(Some(ram), 512, 1));
    assert!(!ui.set_ram_value(Some(ram + 1), 0, 1));
    assert!(!ui.set_ram_value(None, 0, 1));
    assert_eq!(ui.ram_at(0).get_value(0), Some(0));
    assert_eq!(ui.ram_at(0).get_value(512), None);
}
