//! The windows and widgets of the workbench, as far as they decide anything:
//! what a click does, what a button says, what a value looks like.

pub mod app;
pub mod component_list_widget;
pub mod connection_widget;
pub mod help_window;
pub mod indicator;
pub mod indicator_widget;
pub mod ram_window;
pub mod sva_window;
pub mod wiring;
