//! The rules of a falling-puyo screensaver: boards of columns, the
//! directions between cells, grouping adjacency, banishing and gravity.

pub mod dir;
pub mod puyo_chara;
pub mod board;
pub mod owanimo_impl;
pub mod main_loop;
pub mod cartesian;
pub mod layout;
