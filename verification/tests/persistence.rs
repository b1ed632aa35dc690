use sva_ui::components::connection::Connection;
use sva_ui::components::machine::VmStatus;
use sva_ui::components::port::{Port, PortRef, RamPort};
use sva_ui::storage::connections_manager::RegistrySnapshot;
use sva_ui::ui::app::SvaUI;
use sva_ui::ui::indicator_widget::ValueFormat;
use sva_ui::ui::ram_window::RamWidow;
use sva_ui::ui::sva_window::SVAWindow;

fn vm_of(owner_id: usize, index: usize) -> PortRef {
    PortRef::Vm { owner_id, index }
}

fn ram_of(owner_id: usize, port: RamPort) -> PortRef {
    PortRef::Ram { owner_id, port }
}

/// Two machines, one memory module and two connections: the first joins
/// port 0 of machine 0 and the data port, the second port 1 of machine 1.
fn wired() -> SvaUI {
    let mut ui = SvaUI::new();
    let v0 = ui.add_vm(true).unwrap();
    let v1 = ui.add_vm(false).unwrap();
    let r0 = ui.add_ram().unwrap();
    let a = ui.create_connection().unwrap();
    let b = ui.create_connection().unwrap();
    ui.set_current_id(Some(a));
    ui.click_vm_port(v0, 0);
    ui.click_ram_port(r0, RamPort::Data);
    ui.set_current_id(Some(b));
    ui.click_vm_port(v1, 1);
    ui.rename_connection(Some(b), "second".to_string());
    ui.unset_current_id();
    ui
}

fn links(ui: &SvaUI) -> Vec<Option<Port>> {
    let mut all = Vec::new();
    for vm in 0..3 {
        for i in 0..6 {
            all.push(ui.get_port(vm_of(vm, i)));
        }
    }
    for which in [RamPort::Index, RamPort::Data, RamPort::Mode] {
        all.push(ui.get_port(ram_of(0, which)));
    }
    all
}

fn saved_components(ui: &SvaUI) -> (Vec<SVAWindow>, Vec<RamWidow>) {
    let mut vms = Vec::new();
    for k in 0..ui.vm_count() {
        let vm = ui.vm_at(k);
        vms.push(SVAWindow::from_saved(
            vm.get_id(),
            vm.get_name(),
            vm.get_code(),
            vm.get_delay(),
            vm.has_stack(),
            vm.get_status(),
            vm.is_active(),
        ));
    }
    let mut rams = Vec::new();
    for k in 0..ui.ram_count() {
        let ram = ui.ram_at(k);
        rams.push(RamWidow::from_saved(
            ram.get_id(),
            ram.get_name(),
            ram.is_open(),
            ram.get_format(),
            ram.get_data(),
        ));
    }
    (vms, rams)
}

#[test]
fn begin_export_drops_links_and_keeps_members() {
    let mut ui = wired();
    ui.begin_export();
    assert!(links(&ui).iter().flatten().all(|p| !p.is_connected()));
    assert_eq!(ui.connections().find_owner(vm_of(0, 0)), Some(1));
    assert_eq!(ui.connections().find_owner(ram_of(0, RamPort::Data)), Some(1));
    assert_eq!(ui.connections().find_owner(vm_of(1, 1)), Some(2));
    assert!(ui.is_wf());
}

#[test]
fn saving_leaves_the_session_as_it_was() {
    let mut ui = wired();
    let before = links(&ui);
    let names_before = ui.connections().get_names();
    ui.begin_export();
    ui.finish_export();
    assert_eq!(links(&ui), before);
    assert_eq!(ui.connections().get_names(), names_before);
    assert_eq!(ui.connections().connection_count(), 2);
    assert_eq!(ui.create_connection(), Some(3));
    assert!(ui.is_consistent());
}

#[test]
fn save_then_load_reproduces_the_graph() {
    let mut ui = wired();
    let before = links(&ui);
    ui.vm_mut(0).set_code("MOV 1 acc".to_string());
    ui.begin_export();
    let (vms, rams) = saved_components(&ui);
    let snapshot = ui.connections().snapshot();
    ui.finish_export();

    let mut loaded = SvaUI::new();
    loaded.add_vm(true);
    assert!(loaded.import(vms, rams, snapshot));
    assert_eq!(loaded.vm_count(), 2);
    assert_eq!(loaded.ram_count(), 1);
    assert_eq!(loaded.connections().connection_count(), 2);
    assert_eq!(
        loaded.connections().get_name(1),
        Some("conn:1".to_string())
    );
    assert_eq!(
        loaded.connections().get_name(2),
        Some("second".to_string())
    );
    assert_eq!(links(&loaded), before);
    assert_eq!(loaded.vm_at(0).get_code(), "MOV 1 acc");
    assert_eq!(
        loaded.connections().get_connection_by_id(Some(1)).unwrap().get_members(),
        vec![vm_of(0, 0), ram_of(0, RamPort::Data)]
    );
    assert!(loaded.is_consistent());
    assert_eq!(loaded.create_connection(), Some(3));
}

#[test]
fn load_passes_over_members_without_component() {
    let mut ui = wired();
    ui.begin_export();
    let (mut vms, rams) = saved_components(&ui);
    let snapshot = ui.connections().snapshot();
    vms.remove(1);
    let mut loaded = SvaUI::new();
    assert!(loaded.import(vms, rams, snapshot));
    assert_eq!(loaded.vm_count(), 1);
    assert_eq!(loaded.get_port(vm_of(0, 0)), Some(Port::Connected(1, 0)));
    assert_eq!(loaded.get_port(vm_of(1, 1)), None);
    assert_eq!(loaded.connections().find_owner(vm_of(1, 1)), Some(2));
    assert!(loaded.is_consistent());
}

#[test]
fn load_refuses_machines_that_share_an_id() {
    let mut ui = wired();
    let before = links(&ui);
    let vms = vec![
        SVAWindow::new(4, true),
        SVAWindow::from_saved(
            4,
            "twin".to_string(),
            String::new(),
            10,
            false,
            VmStatus::Stopped,
            true,
        ),
    ];
    let snapshot = RegistrySnapshot {
        connections: Vec::new(),
        names: Default::default(),
        next_id: 1,
    };
    assert!(!ui.import(vms, Vec::new(), snapshot));
    assert_eq!(ui.vm_count(), 2);
    assert_eq!(links(&ui), before);
    assert_eq!(ui.connections().connection_count(), 2);
}

#[test]
fn load_refuses_connections_that_share_a_port() {
    let mut ui = wired();
    let mut a = Connection::new_with_id(1);
    let mut b = Connection::new_with_id(2);
    a.add_port(vm_of(0, 0));
    b.add_port(vm_of(0, 0));
    let snapshot = RegistrySnapshot {
        connections: vec![a, b],
        names: Default::default(),
        next_id: 3,
    };
    assert!(!ui.import(vec![SVAWindow::new(0, true)], Vec::new(), snapshot));
    assert_eq!(ui.vm_count(), 2);
    assert_eq!(ui.ram_count(), 1);
    assert!(ui.is_consistent());
}

#[test]
fn load_refuses_memory_modules_that_share_an_id() {
    let mut ui = SvaUI::new();
    let rams = vec![
        RamWidow::new(1),
        RamWidow::from_saved(1, "copy".to_string(), false, ValueFormat::Hex, Vec::new()),
    ];
    let snapshot = RegistrySnapshot {
        connections: Vec::new(),
        names: Default::default(),
        next_id: 1,
    };
    assert!(!ui.import(Vec::new(), rams, snapshot));
    assert_eq!(ui.ram_count(), 0);
}

#[test]
fn load_keeps_cursor_and_mode() {
    let mut ui = SvaUI::new();
    ui.toggle_disconnect_mode();
    let snapshot = RegistrySnapshot {
        connections: vec![Connection::new_with_id(8)],
        names: Default::default(),
        next_id: 9,
    };
    assert!(ui.import(Vec::new(), Vec::new(), snapshot));
    assert!(ui.connections().in_disconnect_mode());
    assert_eq!(ui.connections().get_current_id(), None);
    assert_eq!(ui.create_connection(), Some(9));
}

#[test]
fn copies_are_emptied_after_restoring() {
    let mut ui = wired();
    ui.copy_connections_and_their_names();
    ui.remove_connection(Some(1));
    assert_eq!(ui.connections().connection_count(), 1);
    assert!(ui.set_connections_and_their_names());
    assert_eq!(ui.connections().connection_count(), 2);
    assert!(!ui.set_connections_and_their_names());
    assert_eq!(ui.connections().connection_count(), 2);
}

#[test]
fn saved_machine_keeps_settings() {
    let w = SVAWindow::from_saved(
        3,
        "third".to_string(),
        "NOP".to_string(),
        9000,
        true,
        VmStatus::Stopped,
        false,
    );
    assert!(w.is_wf());
    assert_eq!(w.get_id(), 3);
    assert_eq!(w.get_name(), "third");
    assert_eq!(w.get_code(), "NOP");
    assert_eq!(w.get_delay(), 5000);
    assert!(w.has_stack());
    assert_eq!(w.get_status(), VmStatus::Stopped);
    assert!(!w.is_active());
    assert!(!w.has_thread());
    assert_eq!(w.get_port(0), Some(Port::Disconnected(0)));
}

#[test]
fn saved_memory_keeps_cells() {
    let mut cells = vec![0; 512];
    cells[17] = 99;
    let w = RamWidow::from_saved(2, "m".to_string(), false, ValueFormat::Bin, cells);
    assert!(w.is_wf());
    assert_eq!(w.get_value(17), Some(99));
    assert_eq!(w.get_format(), ValueFormat::Bin);
    assert!(!w.is_open());
    let short = RamWidow::from_saved(2, "m".to_string(), true, ValueFormat::Dec, vec![5; 3]);
    assert!(short.is_wf());
    assert_eq!(short.get_value(0), Some(0));
    assert_eq!(short.get_data().len(), 512);
}

#[test]
fn a_save_ends_with_links_rebuilt() {
    let mut ui = wired();
    ui.remove_connection(Some(1));
    assert!(!ui.is_consistent());
    ui.begin_export();
    ui.finish_export();
    assert!(ui.is_consistent());
    assert_eq!(ui.get_port(vm_of(0, 0)), Some(Port::Disconnected(0)));
    assert_eq!(ui.get_port(vm_of(1, 1)), Some(Port::Connected(2, 0)));
    assert_eq!(ui.connections().connection_count(), 1);
}

#[test]
fn memory_window_takes_over_a_report() {
    let mut ui = SvaUI::new();
    let ram = ui.add_ram().unwrap();
    let c = ui.create_connection().unwrap();
    ui.set_current_id(Some(c));
    ui.click_ram_port(ram, RamPort::Index);
    let mut cells = vec![0; 512];
    cells[3] = 30;
    assert!(ui.ram_mut(0).observe(cells, 3, 30, 1));
    assert_eq!(ui.ram_at(0).get_value(3), Some(30));
    assert_eq!(ui.ram_at(0).get_port(RamPort::Index), Port::Connected(c, 3));
    assert_eq!(ui.ram_at(0).get_port(RamPort::Data), Port::Disconnected(30));
    assert_eq!(ui.ram_at(0).get_port(RamPort::Mode), Port::Disconnected(1));
    assert!(!ui.ram_mut(0).observe(vec![1; 4], 0, 0, 0));
    assert_eq!(ui.ram_at(0).get_value(3), Some(30));
    assert_eq!(ui.ram_at(0).get_port(RamPort::Index), Port::Connected(c, 3));
    assert!(ui.is_wf());
    assert!(ui.is_consistent());
}
