//! The session core of a GeoParquet workbench: the state machines, rules and
//! texts behind its map window and its command line, with their contracts.
use vstd::prelude::*;

pub mod arming;
pub mod attrs;
pub mod calendar;
pub mod cancel;
pub mod catalogs;
pub mod cli;
pub mod context;
pub mod counts;
pub mod delivery;
pub mod dialogs;
pub mod export;
pub mod filters;
pub mod grids;
pub mod imports;
pub mod info;
pub mod joins;
pub mod laws;
pub mod layers;
pub mod loader;
pub mod map;
pub mod panel;
pub mod publish;
pub mod refine;
pub mod repos;
pub mod requests;
pub mod session;
pub mod settings;
pub mod shots;
pub mod styling;
pub mod svg;
pub mod tables;
pub mod tally;
pub mod text;
pub mod upkeep;
pub mod viewer;
