use vstd::prelude::*;

pub mod text;
pub mod hotkey;
pub mod config;
pub mod index;
pub mod search;
pub mod pins;
pub mod icons;
pub mod indexer;
pub mod commands;


verus! {

} // verus!
