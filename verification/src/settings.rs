//! The validated configuration record the core consumes.
//!
//! It is produced by flag parsing outside the core: verbosity, an
//! optional permission mode (already parsed from octal text), four
//! independent scaffolding toggles, and the ordered list of target
//! paths, which the parsing layer guarantees to be non-empty.

use vstd::prelude::*;

verus! {

pub struct Settings {
    pub verbose: bool,
    pub git: bool,
    pub npm: bool,
    pub cargo: bool,
    pub go: bool,
    pub mode: Option<u32>,
    pub paths: Vec<String>,
}

impl Settings {
    /// The parsing layer hands the core at least one path.
    pub open spec fn wf(&self) -> bool {
        self.paths@.len() > 0
    }

    /// Some scaffolding tool is enabled.
    pub open spec fn any_tool(&self) -> bool {
        self.git || self.npm || self.cargo || self.go
    }
}

} // verus!
