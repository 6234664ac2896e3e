//! Color themes and the settings that keep them in step with the light/dark
//! switch and the system appearance.

use vstd::prelude::*;

verus! {

/// The viewer's color themes.
#[derive(Clone, Copy, Debug, PartialEq, Eq, Structural)]
pub enum Theme {
    Light,
    Dark,
    SolarizedLight,
    SolarizedDark,
    Dracula,
    GruvboxDark,
    Sepia,
    Allison,
}

/// Themes with a dark background.
pub open spec fn theme_is_dark(t: Theme) -> bool {
    match t {
        Theme::Dark | Theme::SolarizedDark | Theme::Dracula | Theme::GruvboxDark
        | Theme::Allison => true,
        _ => false,
    }
}

/// Display name of a theme.
pub open spec fn theme_name(t: Theme) -> Seq<char> {
    match t {
        Theme::Light => "Light"@,
        Theme::Dark => "Dark"@,
        Theme::SolarizedLight => "Solarized Light"@,
        Theme::SolarizedDark => "Solarized Dark"@,
        Theme::Dracula => "Dracula"@,
        Theme::GruvboxDark => "Gruvbox Dark"@,
        Theme::Sepia => "Sepia"@,
        Theme::Allison => "Allison"@,
    }
}

/// The plain theme for a light/dark setting.
pub open spec fn theme_for(dark: bool) -> Theme {
    if dark {
        Theme::Dark
    } else {
        Theme::Light
    }
}

/// Panel background of a theme, as red, green and blue.
pub open spec fn panel_color(t: Theme) -> (u8, u8, u8) {
    match t {
        Theme::Light => (247, 247, 249),
        Theme::Dark => (22, 22, 24),
        Theme::SolarizedLight => (253, 246, 227),
        Theme::SolarizedDark => (0, 43, 54),
        Theme::Dracula => (30, 31, 41),
        Theme::GruvboxDark => (40, 40, 40),
        Theme::Sepia => (247, 242, 231),
        Theme::Allison => (24, 26, 30),
    }
}

impl Default for Theme {
    fn default() -> (r: Theme)
        ensures
            r == Theme::Dark,
    {
        Theme::Dark
    }
}

impl Theme {
    /// Whether the theme has a dark background.
    pub fn is_dark(self) -> (r: bool)
        ensures
            r == theme_is_dark(self),
    {
        match self {
            Theme::Dark | Theme::SolarizedDark | Theme::Dracula | Theme::GruvboxDark
            | Theme::Allison => true,
            _ => false,
        }
    }

    /// The theme's display name.
    pub fn name(self) -> (r: &'static str)
        ensures
            r@ == theme_name(self),
    {
        match self {
            Theme::Light => "Light",
            Theme::Dark => "Dark",
            Theme::SolarizedLight => "Solarized Light",
            Theme::SolarizedDark => "Solarized Dark",
            Theme::Dracula => "Dracula",
            Theme::GruvboxDark => "Gruvbox Dark",
            Theme::Sepia => "Sepia",
            Theme::Allison => "Allison",
        }
    }

    /// `Dark` for a dark setting, `Light` otherwise.
    pub fn for_dark_mode(dark: bool) -> (r: Theme)
        ensures
            r == theme_for(dark),
            theme_is_dark(r) == dark,
    {
        if dark {
            Theme::Dark
        } else {
            Theme::Light
        }
    }

    /// The theme kept with a light/dark setting: unchanged where the two
    /// agree, else the plain theme of the setting.
    pub fn reconciled(self, dark_mode: bool) -> (r: Theme)
        ensures
            r == if theme_is_dark(self) == dark_mode {
                self
            } else {
                theme_for(dark_mode)
            },
            theme_is_dark(r) == dark_mode,
    {
        if self.is_dark() == dark_mode {
            self
        } else {
            Theme::for_dark_mode(dark_mode)
        }
    }

    /// Panel background of the theme, as red, green and blue.
    pub fn panel_rgb(self) -> (r: (u8, u8, u8))
        ensures
            r == panel_color(self),
    {
        match self {
            Theme::Light => (247, 247, 249),
            Theme::Dark => (22, 22, 24),
            Theme::SolarizedLight => (253, 246, 227),
            Theme::SolarizedDark => (0, 43, 54),
            Theme::Dracula => (30, 31, 41),
            Theme::GruvboxDark => (40, 40, 40),
            Theme::Sepia => (247, 242, 231),
            Theme::Allison => (24, 26, 30),
        }
    }
}

/// Dark-mode flag and theme after the system appearance was read: a change
/// of appearance switches to the plain theme of the new mode; otherwise both
/// stay.
pub fn follow_system(system_dark: bool, dark_mode: bool, theme: Theme) -> (r: (bool, Theme))
    ensures
        r == if system_dark != dark_mode {
            (system_dark, theme_for(system_dark))
        } else {
            (dark_mode, theme)
        },
{
    if system_dark != dark_mode {
        (system_dark, Theme::for_dark_mode(system_dark))
    } else {
        (dark_mode, theme)
    }
}

/// Following the system appearance is on unless a saved setting says
/// otherwise.
pub fn default_follow_system_true() -> (r: bool)
    ensures
        r,
{
    true
}

/// Corner radius used when none was saved.
pub fn default_rounding() -> (r: u8)
    ensures
        r == 6,
{
    6
}

/// A saved corner radius, with zero read as unset.
pub fn normalized_rounding(r: u8) -> (out: u8)
    ensures
        out == if r == 0 {
            6
        } else {
            r
        },
{
    if r == 0 {
        default_rounding()
    } else {
        r
    }
}

} // verus!
