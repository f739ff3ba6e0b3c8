use vstd::prelude::*;

pub mod cands;
pub mod check;
pub mod commands;
pub mod creds;
pub mod creds_screen;
pub mod detect;
pub mod evidence;
pub mod flow;
pub mod keys;
pub mod model;
pub mod panel;
pub mod select_screen;
pub mod state;
pub mod text;
pub mod ui;

verus! {
} // verus!
