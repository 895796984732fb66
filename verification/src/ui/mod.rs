pub mod accordion;
pub mod button;
pub mod command;
pub mod events;
pub mod icon;
pub mod select;
pub mod types;
