//! The window: its forms, pages and the state of a session.

pub mod curves;
pub mod forms;
pub mod markup;
pub mod messages;
pub mod model;
pub mod page;
pub mod pages;
pub mod predict;
pub mod runs;
pub mod session;
pub mod sheets;
pub mod shown;
pub mod tabs;
pub mod tools;
pub mod train;
pub mod training;
pub mod worker;
