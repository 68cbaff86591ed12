use vstd::prelude::*;

verus! {

/// How the renderer lays out lists and objects.
#[derive(Clone, Copy, PartialEq, Eq, Debug, Structural)]
pub enum Formatting {
    /// Everything on one line.
    Compact,
    /// One element per line, indented by nesting depth.
    Indented,
}

/// The program-wide settings that body generation reads from.
#[derive(Clone, Copy, PartialEq, Eq, Debug, Structural)]
pub struct Settings {
    pub formatting: Formatting,
}

/// The part of the settings that body generation uses.
#[derive(Clone, Copy, PartialEq, Eq, Debug, Structural)]
pub struct SpecBodySettings {
    pub formatting: Formatting,
}

impl SpecBodySettings {
    pub fn from_settings(settings: &Settings) -> (r: Self)
        ensures
            r.formatting == settings.formatting,
    {
        SpecBodySettings { formatting: settings.formatting }
    }
}

} // verus!
