//! What the widget builder decides before a toolkit is asked for widgets.

pub mod build_widget;
