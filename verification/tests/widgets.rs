use sva_ui::components::connection::Connection;
use sva_ui::components::machine::VmStatus;
use sva_ui::language::Language;
use sva_ui::storage::connections_manager::ConnectionManager;
use sva_ui::storage::custom_logger::{CustomLogger, MAX_LOGS};
use sva_ui::storage::modals_manager::{
    ModalManager, ModalOpening, ARE_YOU_SURE_MODAL, RAM_VALUE_MODAL, RENAME_COMPONENT_MODAL,
};
use sva_ui::storage::toasts::{ToastKind, ToastsManager};
use sva_ui::test_window::TetsWindow;
use sva_ui::ui::app::SvaUI;
use sva_ui::ui::wiring::{AreYouSureModalAction, ComponentRequest};
use sva_ui::ui::component_list_widget::{ComponentAction, ComponentListWidget};
use sva_ui::ui::connection_widget::ConnectionWidget;
use sva_ui::ui::help_window::HelpWindow;
use sva_ui::ui::indicator::Indicator;
use sva_ui::ui::indicator_widget::{indicate, IndicatorWidget, ValueFormat};

#[test]
fn value_format_cycles() {
    assert_eq!(ValueFormat::default(), ValueFormat::Dec);
    assert_eq!(ValueFormat::Dec.next(), ValueFormat::Bin);
    assert_eq!(ValueFormat::Bin.next(), ValueFormat::Hex);
    assert_eq!(ValueFormat::Hex.next(), ValueFormat::Unicode);
    assert_eq!(ValueFormat::Unicode.next(), ValueFormat::Dec);
}

#[test]
fn indicator_widget_shows_value() {
    let mut w = IndicatorWidget::new("acc".to_string());
    assert_eq!(w.get_label(), "acc");
    assert_eq!(w.get_data(), 0);
    assert_eq!(w.get_format(), ValueFormat::Dec);
    assert_eq!(w.write_in_format("?"), "0");
    w.set(255, "r0");
    assert_eq!(w.get_label(), "r0");
    assert_eq!(w.write_in_format("?"), "255");
    w.switch_format();
    assert_eq!(w.get_format(), ValueFormat::Bin);
    assert_eq!(w.write_in_format("?"), "0XFF");
    w.switch_format();
    assert_eq!(w.get_format(), ValueFormat::Hex);
    assert_eq!(w.write_in_format("?"), "0b11111111");
    w.switch_format();
    assert_eq!(w.write_in_format("?"), "'\u{ff}'");
    assert_eq!(w.set_data(-5).write_in_format("none"), "none");
    w.switch_format();
    assert_eq!(w.write_in_format("?"), "-5");
}

#[test]
fn indicate_agrees_with_std() {
    for v in [0, 3, -3, 4096, i32::MIN, i32::MAX] {
        assert_eq!(indicate(ValueFormat::Dec, v, ""), format!("{}", v));
        assert_eq!(indicate(ValueFormat::Hex, v, ""), format!("0b{:b}", v));
        assert_eq!(indicate(ValueFormat::Bin, v, ""), format!("0X{:X}", v));
    }
}

#[test]
fn indicator_has_fixed_text_for_no_character() {
    let mut w = Indicator::new("p0".to_string());
    w.set_data(-1);
    assert_eq!(w.write_in_format(), "-1");
    w.switch_format();
    w.switch_format();
    w.switch_format();
    assert_eq!(w.write_in_format(), "Invalid Char");
    assert_eq!(w.set(0x1F600, "face").write_in_format(), "'\u{1F600}'");
    assert_eq!(w.get_label(), "face");
    w.set_data(0xDABC);
    assert_eq!(w.write_in_format(), "Invalid Char");
}

#[test]
fn logger_appends_without_bound() {
    let mut logger = CustomLogger::new();
    assert!(logger.get_logs().is_empty());
    for i in 0..40 {
        logger.append("t", &i.to_string());
    }
    assert_eq!(logger.get_logs2().len(), 40);
    assert_eq!(logger.get_logs()[0], "t|0");
    assert_eq!(logger.get_logs_c()[39], "t|39");
}

#[test]
fn logger_keeps_the_newest_entries() {
    let mut logger = CustomLogger::new();
    for i in 0..MAX_LOGS {
        logger.record("2024-01-01 00:00:00", &format!("event {}", i));
    }
    assert_eq!(logger.get_logs_c().len(), 32);
    assert_eq!(logger.get_logs_c()[0], "2024-01-01 00:00:00|event 0");
    logger.record("2024-01-01 00:00:01", "one more");
    let logs = logger.get_logs_c();
    assert_eq!(logs.len(), 32);
    assert_eq!(logs[0], "2024-01-01 00:00:00|event 1");
    assert_eq!(logs[31], "2024-01-01 00:00:01|one more");
    logger.clear_logs();
    assert!(logger.get_logs_c().is_empty());
}

#[test]
fn logger_stamps_with_the_time() {
    let mut logger = CustomLogger::new();
    logger.log("removing connection");
    logger.log2("Save");
    let logs = logger.get_logs_c();
    assert_eq!(logs.len(), 2);
    let (stamp, event) = logs[0].split_once('|').unwrap();
    assert_eq!(event, "removing connection");
    assert_eq!(stamp.len(), 19);
    let shape: String = stamp
        .chars()
        .map(|c| if c.is_ascii_digit() { '9' } else { c })
        .collect();
    assert_eq!(shape, "9999-99-99 99:99:99");
    assert!(logs[1].ends_with("|Save"));
    for _ in 0..40 {
        logger.log("again");
    }
    assert_eq!(logger.get_logs_c().len(), 32);
}

#[test]
fn modal_manager_opens_known_dialogs() {
    let mut m = ModalManager::new();
    assert!(!m.should_display_modal());
    assert_eq!(m.open_modal(), ModalOpening::Nothing);
    m.set_modal(RAM_VALUE_MODAL);
    assert!(!m.should_display_modal());
    m.add_modal(RAM_VALUE_MODAL);
    m.add_modal(ARE_YOU_SURE_MODAL);
    m.set_modal(RAM_VALUE_MODAL);
    assert!(m.should_display_modal());
    assert_eq!(m.open_modal(), ModalOpening::Open(1));
    m.set_modal(RENAME_COMPONENT_MODAL);
    assert_eq!(m.open_modal(), ModalOpening::Open(1));
    m.set_modal(ARE_YOU_SURE_MODAL);
    assert_eq!(m.open_modal(), ModalOpening::Open(3));
    m.unset_current_modal();
    assert!(!m.should_display_modal());
    assert_eq!(m.open_modal(), ModalOpening::Nothing);
}

#[test]
fn modal_manager_reads_the_entered_value() {
    let mut m = ModalManager::new();
    assert_eq!(m.get_text(), "");
    assert_eq!(m.get_value(), None);
    m.set_text("0x1F".to_string());
    assert!(m.read_text());
    assert_eq!(m.get_value(), Some(31));
    m.set_text("0x1G".to_string());
    assert!(!m.read_text());
    assert_eq!(m.get_value(), None);
    m.set_index(Some(12));
    m.set_ram_id(Some(2));
    m.set_value(Some(-4));
    assert_eq!(m.get_index(), Some(12));
    assert_eq!(m.get_ram_id(), Some(2));
    assert_eq!(m.get_value(), Some(-4));
    assert_eq!(m.get_text(), "0x1G");
}

#[test]
fn toasts_wait_in_order() {
    let mut t = ToastsManager::new();
    assert_eq!(t.pending_count(), 0);
    t.show_err("Couldn't open modal".to_string(), 10);
    t.show_info("restarting".to_string(), 3);
    assert_eq!(t.pending_count(), 2);
    let pending = t.take_pending();
    assert_eq!(pending.len(), 2);
    assert_eq!(pending[0].kind, ToastKind::Error);
    assert_eq!(pending[0].message, "Couldn't open modal");
    assert_eq!(pending[0].duration_seconds, 10);
    assert_eq!(pending[1].kind, ToastKind::Info);
    assert_eq!(pending[1].message, "restarting");
    assert_eq!(pending[1].duration_seconds, 3);
    assert_eq!(t.pending_count(), 0);
    assert!(t.take_pending().is_empty());
}

#[test]
fn test_window_label() {
    let mut w = TetsWindow::new();
    assert_eq!(w.get_label(), "ko kot");
    w.change_label("pies".to_string());
    assert_eq!(w.get_label(), "pies");
    assert_eq!(TetsWindow::default().get_label(), "kot");
}

#[test]
fn help_window_opens_and_closes() {
    let mut w = HelpWindow {
        is_open: false,
        language: Language::En,
    };
    w.open();
    assert!(w.is_open);
    w.open();
    assert!(w.is_open);
    w.toggle_open_close();
    assert!(!w.is_open);
    w.toggle_open_close();
    assert!(w.is_open);
    w.close();
    assert!(!w.is_open);
    w.set_language(Language::Pl);
    assert_eq!(w.language, Language::Pl);
    assert_eq!(Language::Pl.string_code(), "pl");
    assert_eq!(Language::En.string_code(), "en");
}

#[test]
fn component_entry_status_text() {
    let entry = |status| ComponentListWidget::new(0, "vm".to_string(), true, status, true);
    assert_eq!(
        entry(Some(VmStatus::Initial)).get_status_text(),
        "sva.vm_status.initial"
    );
    assert_eq!(
        entry(Some(VmStatus::Running)).get_status_text(),
        "sva.vm_status.running"
    );
    assert_eq!(
        entry(Some(VmStatus::Stopped)).get_status_text(),
        "sva.vm_status.stopped"
    );
    assert_eq!(
        entry(Some(VmStatus::Finished)).get_status_text(),
        "sva.vm_status.finished"
    );
    assert_eq!(entry(None).get_status_text(), "");
    assert_eq!(entry(None).get_name(), "vm");
}

#[test]
fn component_entry_buttons() {
    let vm = ComponentListWidget::new(4, "vm:4".to_string(), true, Some(VmStatus::Initial), true);
    let ram = ComponentListWidget::new(2, "ram:2".to_string(), false, None, false);
    assert!(vm.offers_hide());
    assert!(!ram.offers_hide());
    assert_eq!(vm.show(false, false, false), ComponentAction::DoNothing);
    assert_eq!(vm.show(true, false, false), ComponentAction::ToggleVmVisibility(4));
    assert_eq!(vm.show(false, true, false), ComponentAction::RenameVm(4));
    assert_eq!(vm.show(false, false, true), ComponentAction::RemoveVm(4));
    assert_eq!(vm.show(true, true, false), ComponentAction::RenameVm(4));
    assert_eq!(vm.show(true, true, true), ComponentAction::RemoveVm(4));
    assert_eq!(ram.show(true, false, false), ComponentAction::ToggleRamVisibility(2));
    assert_eq!(ram.show(false, true, false), ComponentAction::RenameRam(2));
    assert_eq!(ram.show(true, false, true), ComponentAction::RemoveRam(2));
}

#[test]
fn component_actions_are_handled() {
    let mut ui = SvaUI::new();
    let vm = ui.add_vm(true).unwrap();
    let ram = ui.add_ram().unwrap();
    assert_eq!(
        ui.handle_component_action(ComponentAction::DoNothing),
        ComponentRequest::Nothing
    );
    assert_eq!(
        ui.handle_component_action(ComponentAction::ToggleVmVisibility(vm)),
        ComponentRequest::Nothing
    );
    assert!(!ui.vm_at(0).is_active());
    assert!(ui.ram_at(0).is_open());
    ui.handle_component_action(ComponentAction::ToggleRamVisibility(ram));
    ui.handle_component_action(ComponentAction::ToggleVmVisibility(vm));
    ui.handle_component_action(ComponentAction::ToggleVmVisibility(vm + 9));
    assert!(ui.vm_at(0).is_active());
    assert!(!ui.ram_at(0).is_open());

    let rename = ui.handle_component_action(ComponentAction::RenameRam(ram));
    assert_eq!(rename, ComponentRequest::Rename { is_ram: true, id: ram });
    assert_eq!(rename.modal(), Some(RENAME_COMPONENT_MODAL));
    assert_eq!(rename.confirmed_action(), AreYouSureModalAction::DoNothing);
    let remove = ui.handle_component_action(ComponentAction::RemoveVm(vm));
    assert_eq!(remove, ComponentRequest::ConfirmRemoval { is_ram: false, id: vm });
    assert_eq!(remove.modal(), Some(ARE_YOU_SURE_MODAL));
    assert_eq!(remove.confirmed_action(), AreYouSureModalAction::RemoveVm);
    assert_eq!(
        ui.handle_component_action(ComponentAction::RemoveRam(ram)).confirmed_action(),
        AreYouSureModalAction::RemoveRam
    );
    assert_eq!(ComponentRequest::Nothing.modal(), None);
    assert_eq!(ui.vm_count(), 1);
    assert_eq!(ui.ram_count(), 1);
}

#[test]
fn confirmed_questions_are_carried_out() {
    let mut ui = SvaUI::new();
    let v0 = ui.add_vm(true).unwrap();
    let v1 = ui.add_vm(true).unwrap();
    let ram = ui.add_ram().unwrap();
    let c = ui.create_connection().unwrap();
    ui.vm_mut(1).start_vm();

    assert!(!ui.confirm(AreYouSureModalAction::DoNothing, Some(v0), None));
    assert_eq!(ui.vm_count(), 2);
    assert!(!ui.confirm(AreYouSureModalAction::RemoveVm, Some(v0), None));
    assert_eq!(ui.vm_count(), 1);
    assert!(ui.confirm(AreYouSureModalAction::RemoveVm, Some(v1), None));
    assert_eq!(ui.vm_count(), 0);
    assert!(!ui.confirm(AreYouSureModalAction::RemoveVm, None, None));
    assert!(!ui.confirm(AreYouSureModalAction::DoNothing, None, Some(c)));
    assert_eq!(ui.connections().connection_count(), 0);
    assert!(ui.connections().needs_reload());
    assert!(!ui.confirm(AreYouSureModalAction::RemoveRam, Some(ram), None));
    assert_eq!(ui.ram_count(), 0);

    ui.add_vm(false);
    ui.add_ram();
    ui.create_connection();
    assert!(!ui.confirm(AreYouSureModalAction::Clear, None, None));
    assert_eq!(ui.vm_count() + ui.ram_count(), 0);
    assert_eq!(ui.connections().connection_count(), 0);
}

#[test]
fn connection_entry_toggles_cursor() {
    let mut registry = ConnectionManager::new();
    let a = registry.create_connection();
    let b = registry.create_connection();
    let entry_a = ConnectionWidget::new(registry.get_connection_by_id(Some(a)).unwrap());
    let entry_b = ConnectionWidget::new(registry.get_connection_by_id(Some(b)).unwrap());
    let stray = ConnectionWidget::new(Connection::new_with_id(40));
    assert_eq!(entry_a.get_id(), a);
    assert_eq!(entry_a.name(&registry), "conn:1");
    assert_eq!(stray.name(&registry), "");
    assert!(!entry_a.is_selected(&registry));
    registry.toggle_disconnect_mode();
    entry_a.click_connect(&mut registry);
    assert!(entry_a.is_selected(&registry));
    assert!(!registry.in_disconnect_mode());
    entry_b.click_connect(&mut registry);
    assert!(!entry_a.is_selected(&registry));
    assert!(entry_b.is_selected(&registry));
    entry_b.click_connect(&mut registry);
    assert_eq!(registry.get_current_id(), None);
}

#[test]
fn language_reaches_every_machine() {
    let mut ui = SvaUI::new();
    ui.add_vm(true);
    ui.add_vm(false);
    assert_eq!(ui.vm_at(1).get_language(), Language::En);
    ui.set_language(Language::Pl);
    assert_eq!(ui.vm_at(0).get_language(), Language::Pl);
    assert_eq!(ui.vm_at(1).get_language(), Language::Pl);
    assert!(ui.is_consistent());
}
