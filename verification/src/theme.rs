//! The two interface themes and the toggle between them.

use vstd::prelude::*;

verus! {

/// The interface theme.
#[derive(Clone, Copy, Debug, PartialEq, Eq, Structural)]
pub enum Theme {
    Light,
    Dark,
}

impl Theme {
    /// The theme's display name.
    pub open spec fn spec_name(&self) -> Seq<char> {
        match *self {
            Theme::Light => "Light"@,
            Theme::Dark => "Dark"@,
        }
    }

    /// The theme's display name.
    pub fn name(&self) -> (r: &str)
        ensures
            r@ == self.spec_name(),
    {
        match self {
            Theme::Light => "Light",
            Theme::Dark => "Dark",
        }
    }

    /// The other theme.
    pub fn next(&self) -> (r: Theme)
        ensures
            r == (match *self {
                Theme::Light => Theme::Dark,
                Theme::Dark => Theme::Light,
            }),
    {
        match self {
            Theme::Light => Theme::Dark,
            Theme::Dark => Theme::Light,
        }
    }
}

impl Default for Theme {
    /// The light theme is the default.
    fn default() -> (r: Theme)
        ensures
            r == Theme::Light,
    {
        Theme::Light
    }
}

} // verus!
