//! State that the whole workbench shares: the connection registry, the log,
//! the pending dialog and the notices.

pub mod connections_manager;
pub mod custom_logger;
pub mod modals_manager;
pub mod toasts;
