use sva_ui::components::port::{OwnerKind, Port, PortRef, RamPort};
use sva_ui::components::ram::{Ram, MODE_WRITE};
use sva_ui::ui::app::SvaUI;
use sva_ui::ui::wiring::ClickOutcome;

fn vm_on(owner_id: usize, index: usize) -> PortRef {
    PortRef::Vm { owner_id, index }
}

fn ram_on(owner_id: usize, port: RamPort) -> PortRef {
    PortRef::Ram { owner_id, port }
}

#[test]
fn new_ram_is_zeroed() {
    let ram = Ram::new(3);
    assert!(ram.is_wf());
    assert_eq!(ram.get_id(), 3);
    assert_eq!(ram.get_data(), vec![0; 512]);
    assert_eq!(ram.get_index_port(), Port::Disconnected(0));
    assert_eq!(ram.get_data_port(), Port::Disconnected(0));
    assert_eq!(ram.get_mode_port(), Port::Disconnected(0));
}

#[test]
fn ram_in_read_mode_puts_cell_on_data_port() {
    let mut ram = Ram::new(0);
    ram.set_value(5, 77);
    ram.set_port(RamPort::Index, Port::new(5));
    ram.set_port(RamPort::Mode, Port::new(1));
    ram.set_port(RamPort::Data, Port::new(1));
    assert_eq!(ram.refresh(), Some(77));
    assert_eq!(ram.get_data_port(), Port::Disconnected(77));
    assert_eq!(ram.get_value(5), Some(77));
}

#[test]
fn ram_in_write_mode_stores_data_port() {
    let mut ram = Ram::new(0);
    ram.set_port(RamPort::Index, Port::new(511));
    ram.set_port(RamPort::Mode, Port::new(MODE_WRITE));
    ram.set_port(RamPort::Data, Port::new(-3));
    assert_eq!(ram.refresh(), None);
    assert_eq!(ram.get_value(511), Some(-3));
    assert_eq!(ram.get_data_port(), Port::Disconnected(-3));
}

#[test]
fn ram_with_index_out_of_range_moves_nothing() {
    for index in [-1, 512, i32::MAX, i32::MIN] {
        for mode in [MODE_WRITE, 1, -1] {
            let mut ram = Ram::new(0);
            ram.set_value(0, 4);
            ram.set_port(RamPort::Index, Port::new(index));
            ram.set_port(RamPort::Mode, Port::new(mode));
            ram.set_port(RamPort::Data, Port::new(9));
            assert_eq!(ram.refresh(), None);
            assert_eq!(ram.get_data_port(), Port::Disconnected(9));
            assert_eq!(ram.get_value(0), Some(4));
        }
    }
}

#[test]
fn zero_data_clears_cells() {
    let mut ram = Ram::new(0);
    ram.set_value(1, 1);
    ram.set_value(300, 2);
    assert!(!ram.set_value(512, 3));
    ram.zero_data();
    assert_eq!(ram.get_data(), vec![0; 512]);
}

#[test]
fn written_value_reaches_linked_ports() {
    let mut ui = SvaUI::new();
    let v0 = ui.add_vm(true).unwrap();
    let v1 = ui.add_vm(true).unwrap();
    let c = ui.create_connection().unwrap();
    ui.set_current_id(Some(c));
    ui.click_vm_port(v0, 0);
    ui.click_vm_port(v1, 3);
    assert!(ui.write_port(vm_on(v0, 0), 42));
    assert_eq!(ui.get_port(vm_on(v0, 0)), Some(Port::Connected(c, 42)));
    assert_eq!(ui.get_port(vm_on(v1, 3)), Some(Port::Connected(c, 42)));
    assert_eq!(ui.get_port(vm_on(v1, 0)), Some(Port::Disconnected(0)));
    assert!(ui.write_port(vm_on(v1, 0), 5));
    assert_eq!(ui.get_port(vm_on(v1, 0)), Some(Port::Disconnected(5)));
    assert_eq!(ui.get_port(vm_on(v0, 0)), Some(Port::Connected(c, 42)));
    assert!(!ui.write_port(vm_on(9, 0), 1));
    assert!(ui.is_consistent());
}

#[test]
fn memory_read_through_a_connection() {
    let mut ui = SvaUI::new();
    let vm = ui.add_vm(true).unwrap();
    let ram = ui.add_ram().unwrap();
    let c1 = ui.create_connection().unwrap();
    ui.set_current_id(Some(c1));
    assert!(matches!(ui.click_vm_port(vm, 0), ClickOutcome::Connected(_)));
    assert!(matches!(
        ui.click_ram_port(ram, RamPort::Data),
        ClickOutcome::Connected(_)
    ));
    ui.set_ram_value(Some(ram), 0, 1234);
    ui.write_port(vm_on(vm, 0), 42);
    assert_eq!(
        ui.get_port(ram_on(ram, RamPort::Data)),
        Some(Port::Connected(c1, 42))
    );
    ui.write_port(ram_on(ram, RamPort::Mode), 1);
    ui.refresh();
    assert_eq!(ui.get_port(vm_on(vm, 0)), Some(Port::Connected(c1, 1234)));
    assert_eq!(
        ui.get_port(ram_on(ram, RamPort::Data)),
        Some(Port::Connected(c1, 1234))
    );
    assert_eq!(ui.ram_at(0).get_value(0), Some(1234));
    assert!(ui.is_consistent());
}

#[test]
fn memory_write_through_connections() {
    let mut ui = SvaUI::new();
    let vm = ui.add_vm(true).unwrap();
    let ram = ui.add_ram().unwrap();
    let data = ui.create_connection().unwrap();
    let index = ui.create_connection().unwrap();
    let mode = ui.create_connection().unwrap();
    ui.set_current_id(Some(data));
    ui.click_vm_port(vm, 0);
    ui.click_ram_port(ram, RamPort::Data);
    ui.set_current_id(Some(index));
    ui.click_vm_port(vm, 1);
    ui.click_ram_port(ram, RamPort::Index);
    ui.set_current_id(Some(mode));
    ui.click_vm_port(vm, 2);
    ui.click_ram_port(ram, RamPort::Mode);

    ui.write_port(vm_on(vm, 0), 42);
    ui.write_port(vm_on(vm, 1), 7);
    ui.write_port(vm_on(vm, 2), MODE_WRITE);
    ui.refresh();
    assert_eq!(ui.ram_at(0).get_value(7), Some(42));
    assert_eq!(ui.get_port(vm_on(vm, 0)), Some(Port::Connected(data, 42)));

    ui.write_port(vm_on(vm, 0), 0);
    ui.write_port(vm_on(vm, 2), 5);
    ui.refresh();
    assert_eq!(ui.get_port(vm_on(vm, 0)), Some(Port::Connected(data, 42)));
    assert_eq!(ui.ram_at(0).get_value(7), Some(42));
    assert!(ui.is_consistent());
}

#[test]
fn update_refreshes_and_reloads() {
    let mut ui = SvaUI::new();
    let vm = ui.add_vm(true).unwrap();
    let ram = ui.add_ram().unwrap();
    let c = ui.create_connection().unwrap();
    ui.set_current_id(Some(c));
    ui.click_vm_port(vm, 0);
    ui.click_ram_port(ram, RamPort::Data);
    ui.set_ram_value(Some(ram), 0, 8);
    ui.write_port(ram_on(ram, RamPort::Mode), 1);
    assert!(!ui.update());
    assert_eq!(ui.get_port(vm_on(vm, 0)), Some(Port::Connected(c, 8)));
    ui.remove_connection(Some(c));
    assert!(ui.update());
    assert_eq!(ui.get_port(vm_on(vm, 0)), Some(Port::Disconnected(8)));
    assert_eq!(
        ui.get_port(ram_on(ram, RamPort::Data)),
        Some(Port::Disconnected(8))
    );
    assert!(ui.is_consistent());
    assert!(!ui.update());
}

#[test]
fn port_operations() {
    let mut p = Port::new(5);
    assert_eq!(p, Port::Disconnected(5));
    assert_eq!(p.get_value(), 5);
    assert_eq!(p.get_conn_id(), None);
    assert!(!p.is_connected());
    p.connect(3);
    assert_eq!(p, Port::Connected(3, 5));
    assert_eq!(p.get_conn_id(), Some(3));
    p.set_value(-1);
    assert_eq!(p, Port::Connected(3, -1));
    p.reach(4, 10);
    assert_eq!(p, Port::Connected(3, -1));
    p.reach(3, 10);
    assert_eq!(p, Port::Connected(3, 10));
    p.disconnect();
    assert_eq!(p, Port::Disconnected(10));
    p.reach(3, 11);
    assert_eq!(p, Port::Disconnected(10));
}

#[test]
fn port_reference_owner() {
    let v = vm_on(4, 1);
    let r = ram_on(6, RamPort::Mode);
    assert_eq!(v.owner_kind(), OwnerKind::Vm);
    assert_eq!(r.owner_kind(), OwnerKind::Ram);
    assert_eq!(v.owner_id(), 4);
    assert_eq!(r.owner_id(), 6);
    assert!(v.same(vm_on(4, 1)));
    assert!(!v.same(vm_on(4, 2)));
    assert!(!vm_on(0, 0).same(ram_on(0, RamPort::Index)));
}
