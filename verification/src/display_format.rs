//! How positions, pieces and outcomes are rendered for people.
//!
//! `chinese` picks the traditional piece characters over Latin letters,
//! `effects` allows terminal styling, and `concise` selects the short
//! single-line form. The built-in defaults show Chinese characters with
//! effects on.

use vstd::prelude::*;

verus! {

/// Rendering choices for the human-readable output.
#[derive(Clone, Copy, PartialEq, Eq, Structural, Debug)]
pub struct DisplayFormat {
    pub chinese: bool,
    pub effects: bool,
    pub concise: bool,
}

impl DisplayFormat {
    /// The built-in defaults with the given verbosity.
    pub fn default(concise: bool) -> (r: DisplayFormat)
        ensures
            r == (DisplayFormat { chinese: true, effects: true, concise }),
    {
        DisplayFormat { chinese: true, effects: true, concise }
    }

    /// The full rendering for a terminal.
    pub fn pretty() -> (r: DisplayFormat)
        ensures
            r == (DisplayFormat { chinese: true, effects: true, concise: false }),
    {
        DisplayFormat::default(false)
    }

    /// The short plain form, without terminal effects.
    pub fn string() -> (r: DisplayFormat)
        ensures
            r == (DisplayFormat { chinese: true, effects: false, concise: true }),
    {
        let base = DisplayFormat::default(true);
        DisplayFormat { chinese: base.chinese, effects: false, concise: base.concise }
    }

    /// The same choices with another verbosity.
    pub fn with_concise(&self, concise: bool) -> (r: DisplayFormat)
        ensures
            r == (DisplayFormat { chinese: self.chinese, effects: self.effects, concise }),
    {
        DisplayFormat { chinese: self.chinese, effects: self.effects, concise }
    }
}

} // verus!
