use std::collections::HashMap;

use sva_ui::components::connection::Connection;
use sva_ui::components::port::{Port, PortRef, RamPort};
use sva_ui::storage::connections_manager::{
    ConnectionManager, PortHighlight, RegistrySnapshot,
};

fn vm_ref(owner_id: usize, index: usize) -> PortRef {
    PortRef::Vm { owner_id, index }
}

fn ram_ref(owner_id: usize, port: RamPort) -> PortRef {
    PortRef::Ram { owner_id, port }
}

#[test]
fn new_registry_is_empty() {
    let m = ConnectionManager::new();
    assert!(m.is_wf());
    assert_eq!(m.connection_count(), 0);
    assert_eq!(m.get_current_id(), None);
    assert!(!m.in_disconnect_mode());
    assert!(!m.is_cursor_active());
    assert!(!m.needs_reload());
    assert!(m.get_names().is_empty());
}

#[test]
fn create_connection_allocates_ids_in_order() {
    let mut m = ConnectionManager::new();
    assert_eq!(m.create_connection(), 1);
    assert_eq!(m.create_connection(), 2);
    assert_eq!(m.create_connection(), 3);
    assert_eq!(m.connection_count(), 3);
    let conns = m.get_connections();
    assert_eq!(conns[0].get_id(), 1);
    assert_eq!(conns[2].get_id(), 3);
    assert_eq!(conns[1].len(), 0);
    assert!(m.is_wf());
}

#[test]
fn create_connection_names_after_id() {
    let mut m = ConnectionManager::new();
    let a = m.create_connection();
    for _ in 0..11 {
        m.create_connection();
    }
    assert_eq!(m.get_name(a), Some("conn:1".to_string()));
    assert_eq!(m.get_name(12), Some("conn:12".to_string()));
    assert_eq!(m.get_name(13), None);
}

#[test]
fn ids_are_not_reused_after_removal() {
    let mut m = ConnectionManager::new();
    let a = m.create_connection();
    let b = m.create_connection();
    m.remove_connection(Some(b));
    let c = m.create_connection();
    assert_ne!(c, a);
    assert_ne!(c, b);
    assert_eq!(c, 3);
}

#[test]
fn clear_connections_starts_ids_over() {
    let mut m = ConnectionManager::new();
    m.create_connection();
    m.create_connection();
    m.clear_connections();
    assert_eq!(m.connection_count(), 0);
    assert_eq!(m.create_connection(), 1);
}

#[test]
fn rename_known_and_unknown() {
    let mut m = ConnectionManager::new();
    let a = m.create_connection();
    m.set_name(Some(a), "bus".to_string());
    assert_eq!(m.get_name(a), Some("bus".to_string()));
    m.set_name(Some(77), "ghost".to_string());
    assert_eq!(m.get_name(77), None);
    m.set_name(None, "nobody".to_string());
    assert_eq!(m.get_names().len(), 1);
}

#[test]
fn set_names_replaces_all() {
    let mut m = ConnectionManager::new();
    let a = m.create_connection();
    let mut names = HashMap::new();
    names.insert(a, "x".to_string());
    names.insert(9, "y".to_string());
    m.set_names(names);
    assert_eq!(m.get_name(a), Some("x".to_string()));
    assert_eq!(m.get_name(9), Some("y".to_string()));
}

#[test]
fn remove_connection_asks_for_reload() {
    let mut m = ConnectionManager::new();
    let a = m.create_connection();
    let b = m.create_connection();
    assert!(!m.needs_reload());
    m.remove_connection(Some(a));
    assert!(m.needs_reload());
    assert_eq!(m.connection_count(), 1);
    assert_eq!(m.get_connection_index_by_id(Some(b)), Some(0));
    assert_eq!(m.get_connection_index_by_id(Some(a)), None);
    m.reload_done();
    assert!(!m.needs_reload());
    m.remove_connection(Some(55));
    assert_eq!(m.connection_count(), 1);
    assert!(m.needs_reload());
    m.remove_connection(None);
    assert_eq!(m.connection_count(), 1);
}

#[test]
fn cursor_and_disconnect_mode_exclude_each_other() {
    let mut m = ConnectionManager::new();
    let a = m.create_connection();
    m.toggle_disconnect_mode();
    assert!(m.in_disconnect_mode());
    assert!(m.is_disconnect_mode());
    m.set_current_id(Some(a));
    assert!(!m.in_disconnect_mode());
    assert_eq!(m.get_current_id(), Some(a));
    assert!(m.is_cursor_active());
    m.toggle_disconnect_mode();
    assert!(m.in_disconnect_mode());
    assert_eq!(m.get_current_id(), None);
    assert!(!m.is_cursor_active());
    m.toggle_disconnect_mode();
    assert!(!m.in_disconnect_mode());
    assert_eq!(m.get_current_id(), None);
    assert!(m.is_wf());
}

#[test]
fn cursor_on_missing_connection_is_not_active() {
    let mut m = ConnectionManager::new();
    let a = m.create_connection();
    m.set_current_id(Some(a + 5));
    assert_eq!(m.get_current_id(), Some(a + 5));
    assert_eq!(m.get_current_id_index(), None);
    assert!(!m.is_cursor_active());
    assert!(m.get_connection_to_current().is_none());
    m.set_current_id(Some(a));
    assert_eq!(m.get_current_id_index(), Some(0));
    assert_eq!(m.get_connection_to_current().unwrap().get_id(), a);
    m.unset_current_id();
    assert_eq!(m.get_current_id(), None);
}

#[test]
fn index_by_id_finds_position() {
    let mut m = ConnectionManager::new();
    let a = m.create_connection();
    let b = m.create_connection();
    let c = m.create_connection();
    assert_eq!(m.get_connection_index_by_id(Some(a)), Some(0));
    assert_eq!(m.get_connection_index_by_id(Some(b)), Some(1));
    assert_eq!(m.get_connection_index_by_id(Some(c)), Some(2));
    assert_eq!(m.get_connection_index_by_id(Some(0)), None);
    assert_eq!(m.get_connection_index_by_id(None), None);
    assert_eq!(m.get_connection_by_id(Some(b)).unwrap().get_id(), b);
    assert!(m.get_connection_by_id(Some(99)).is_none());
}

#[test]
fn a_port_joins_at_most_one_connection() {
    let mut m = ConnectionManager::new();
    let a = m.create_connection();
    let b = m.create_connection();
    let p = vm_ref(0, 2);
    assert!(m.add_member(a, p));
    assert!(!m.add_member(b, p));
    assert!(!m.add_member(a, p));
    assert_eq!(m.find_owner(p), Some(a));
    assert_eq!(m.get_connection_by_id(Some(a)).unwrap().len(), 1);
    assert_eq!(m.get_connection_by_id(Some(b)).unwrap().len(), 0);
    assert!(m.is_wf());
}

#[test]
fn add_member_needs_the_connection() {
    let mut m = ConnectionManager::new();
    let p = ram_ref(3, RamPort::Mode);
    assert!(!m.add_member(4, p));
    assert_eq!(m.find_owner(p), None);
}

#[test]
fn remove_member_reports_owner() {
    let mut m = ConnectionManager::new();
    let a = m.create_connection();
    let p = ram_ref(1, RamPort::Data);
    let q = vm_ref(1, 0);
    m.add_member(a, p);
    m.add_member(a, q);
    assert_eq!(m.remove_member(p), Some(a));
    assert_eq!(m.find_owner(p), None);
    assert_eq!(m.find_owner(q), Some(a));
    assert_eq!(m.remove_member(p), None);
    let conn = m.get_connection_by_id(Some(a)).unwrap();
    assert_eq!(conn.get_members(), vec![q]);
}

#[test]
fn connection_members_keep_joining_order() {
    let mut c = Connection::new_with_id(7);
    assert!(c.add_port(vm_ref(0, 0)));
    assert!(c.add_port(ram_ref(0, RamPort::Index)));
    assert!(c.add_port(vm_ref(1, 5)));
    assert!(!c.add_port(vm_ref(0, 0)));
    assert_eq!(c.len(), 3);
    assert_eq!(c.member_at(1), ram_ref(0, RamPort::Index));
    assert!(c.contains(vm_ref(1, 5)));
    assert!(!c.contains(vm_ref(1, 4)));
    assert!(c.remove_port(ram_ref(0, RamPort::Index)));
    assert!(!c.remove_port(ram_ref(0, RamPort::Index)));
    assert_eq!(c.get_members(), vec![vm_ref(0, 0), vm_ref(1, 5)]);
    assert!(c.is_wf());
    let d = c.clone();
    assert_eq!(d.get_id(), 7);
    assert_eq!(d.get_members(), c.get_members());
}

#[test]
fn set_connection_installs_valid_state() {
    let mut m = ConnectionManager::new();
    let mut a = Connection::new_with_id(4);
    a.add_port(vm_ref(0, 0));
    let b = Connection::new_with_id(9);
    assert!(m.set_connection(vec![a, b]));
    assert_eq!(m.connection_count(), 2);
    assert_eq!(m.find_owner(vm_ref(0, 0)), Some(4));
    assert_eq!(m.create_connection(), 10);
    assert!(m.is_wf());
}

#[test]
fn set_connection_never_lowers_next_id() {
    let mut m = ConnectionManager::new();
    for _ in 0..5 {
        m.create_connection();
    }
    assert!(m.set_connection(vec![Connection::new_with_id(2)]));
    assert_eq!(m.create_connection(), 6);
    assert!(m.set_connection(Vec::new()));
    assert_eq!(m.create_connection(), 7);
}

#[test]
fn set_connection_refuses_shared_id() {
    let mut m = ConnectionManager::new();
    let a = m.create_connection();
    assert!(!m.set_connection(vec![Connection::new_with_id(3), Connection::new_with_id(3)]));
    assert_eq!(m.connection_count(), 1);
    assert_eq!(m.get_connection_index_by_id(Some(a)), Some(0));
}

#[test]
fn set_connection_refuses_shared_port() {
    let mut m = ConnectionManager::new();
    let mut a = Connection::new_with_id(1);
    let mut b = Connection::new_with_id(2);
    a.add_port(vm_ref(0, 1));
    b.add_port(vm_ref(0, 1));
    assert!(!m.set_connection(vec![a, b]));
    assert_eq!(m.connection_count(), 0);
}

#[test]
fn set_connection_refuses_largest_id() {
    let mut m = ConnectionManager::new();
    assert!(!m.set_connection(vec![Connection::new_with_id(usize::MAX)]));
    assert_eq!(m.connection_count(), 0);
    assert!(m.can_create());
}

#[test]
fn snapshot_and_restore_round_trip() {
    let mut m = ConnectionManager::new();
    let a = m.create_connection();
    let b = m.create_connection();
    m.add_member(a, vm_ref(0, 0));
    m.add_member(b, ram_ref(0, RamPort::Data));
    m.set_name(Some(b), "data".to_string());
    m.set_current_id(Some(a));
    let snap = m.snapshot();
    assert!(ConnectionManager::can_restore(&snap));
    assert_eq!(snap.next_id, 3);

    let mut other = ConnectionManager::new();
    other.toggle_disconnect_mode();
    assert!(other.restore(snap));
    assert_eq!(other.connection_count(), 2);
    assert_eq!(other.get_name(a), Some("conn:1".to_string()));
    assert_eq!(other.get_name(b), Some("data".to_string()));
    assert_eq!(other.find_owner(vm_ref(0, 0)), Some(a));
    assert_eq!(other.find_owner(ram_ref(0, RamPort::Data)), Some(b));
    assert_eq!(other.create_connection(), 3);
    assert!(other.in_disconnect_mode());
    assert_eq!(other.get_current_id(), None);
    assert!(other.is_wf());
}

#[test]
fn restore_refuses_next_id_in_use() {
    let mut m = ConnectionManager::new();
    let kept = m.create_connection();
    let snap = RegistrySnapshot {
        connections: vec![Connection::new_with_id(5)],
        names: HashMap::new(),
        next_id: 5,
    };
    assert!(!ConnectionManager::can_restore(&snap));
    assert!(!m.restore(snap));
    assert_eq!(m.connection_count(), 1);
    assert_eq!(m.get_connection_index_by_id(Some(kept)), Some(0));
}

#[test]
fn ports_are_highlighted_by_what_a_click_does() {
    let mut m = ConnectionManager::new();
    let loose = Port::Disconnected(1);
    let tied = Port::Connected(1, 1);
    assert_eq!(m.highlight(loose), PortHighlight::Plain);
    assert_eq!(m.highlight(tied), PortHighlight::Plain);
    m.set_current_id(Some(1));
    assert_eq!(m.highlight(loose), PortHighlight::Plain);
    let c = m.create_connection();
    m.set_current_id(Some(c));
    assert_eq!(m.highlight(loose), PortHighlight::Connectable);
    assert_eq!(m.highlight(tied), PortHighlight::Plain);
    m.toggle_disconnect_mode();
    assert_eq!(m.highlight(loose), PortHighlight::Plain);
    assert_eq!(m.highlight(tied), PortHighlight::Disconnectable);
}
