//! Verified core of an EPICS IOC server: access security, autosave request
//! and save files, database file loading, IOC shell command lines, record
//! links and alarm bookkeeping.
use vstd::prelude::*;

pub mod error;
pub mod text;
pub mod name_map;
pub mod scan;
pub mod number;
pub mod access_security;
pub mod autosave;
pub mod record;
pub mod recgbl;
pub mod common;
pub mod device_support;
pub mod database;
pub mod db_loader;
pub mod iocsh;

verus! {

} // verus!
