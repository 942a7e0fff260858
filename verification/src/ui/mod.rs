//! Terminal-independent UI state: key events, text input, pickers and menus.
pub mod calendar;
pub mod date_range;
pub mod fuzzy;
pub mod input;
pub mod iteration_picker;
pub mod picker;
pub mod select;
pub mod tags_editor;
pub mod tree;
pub mod type_filter;
pub mod yank;
