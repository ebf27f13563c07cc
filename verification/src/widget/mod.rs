pub mod high_level;
pub mod tool_buttons;
pub mod actions;
pub mod print_dialog;
pub mod position_info;
pub mod items_selection_dialog;
pub mod profile_window;
pub mod stats_widget;
pub mod sync;
pub mod scalar_field_properties;
