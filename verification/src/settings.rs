//! What the user has chosen for one export.

use vstd::prelude::*;

verus! {

/// A ready-made block of text that can be put behind the airspace.
#[derive(Clone, Copy, Debug, PartialEq, Eq, Structural)]
pub enum Overlay {
    FL195,
    FL105,
    AtzDz,
}

/// What becomes of the gliding sites.
#[derive(Clone, Copy, Debug, PartialEq, Eq, Structural)]
pub enum GlidingSites {
    Exclude,
    Include,
}

/// The choices for one export. The three name lists are read as sets:
/// order and repeats do not matter. They are lists because vstd says
/// nothing of what a set of strings holds, so nothing could be proved of
/// a lookup in one.
#[derive(Clone, Debug)]
pub struct Settings {
    /// Names of the temporary restrictions to include.
    pub rat: Vec<String>,
    /// Names of the local agreements to apply, besides those in force by default.
    pub loa: Vec<String>,
    /// Names of the wave boxes to include.
    pub wave: Vec<String>,
    pub gliding: GlidingSites,
    /// Leave out the features whose only rule is `Notam`.
    pub exclude_notam: bool,
    pub overlay: Option<Overlay>,
}

impl Default for Settings {
    /// Nothing chosen: no extras, gliding sites left out, no overlay.
    fn default() -> (settings: Settings)
        ensures
            settings.rat@.len() == 0,
            settings.loa@.len() == 0,
            settings.wave@.len() == 0,
            settings.gliding == GlidingSites::Exclude,
            !settings.exclude_notam,
            settings.overlay is None,
    {
        Settings {
            rat: Vec::new(),
            loa: Vec::new(),
            wave: Vec::new(),
            gliding: GlidingSites::Exclude,
            exclude_notam: false,
            overlay: None,
        }
    }
}

} // verus!
