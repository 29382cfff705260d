//! Constants of the autosave file formats.
use vstd::prelude::*;

verus! {

pub const VERSION: &'static str = "autosave-rs V1.0";

pub const END_MARKER: &'static str = "<END>";

pub const ARRAY_MARKER: &'static str = "@array@";

pub const SAV_EXT: &'static str = "sav";

pub const SAVB_EXT: &'static str = "savB";

pub const MAX_INCLUDE_DEPTH: usize = 10;

#[derive(Debug, Clone, Copy, PartialEq, Eq, Structural)]
pub enum CompatMode {
    /// autosave-rs native format
    Native,
    /// C autosave file reading support (Level B)
    CRead,
}

} // verus!
