//! Interactive package-selection menu core: a main-menu cursor state machine
//! and a reusable multi-select list over string names, with the surrounding
//! terminal I/O kept outside the library.

pub mod input;
pub mod managers;
pub mod menu;
pub mod multiselect;
pub mod order;
pub mod selection;
