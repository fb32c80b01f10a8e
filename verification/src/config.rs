//! The desktop's appearance settings, as the shared settings file holds them.
//!
//! The file is read by the program; what the window draws with is decided
//! here: the defaults, and whether an accent may reach a stylesheet at all.

use vstd::prelude::*;

use crate::text::chars_of;

verus! {

/// The compositor's compiled-in accent, and the first swatch in Settings.
pub const DEFAULT_ACCENT: &'static str = "#7AA2F7";

#[derive(Clone, Copy, Debug, PartialEq, Eq, Structural)]
pub enum ThemeMode {
    Light,
    Dark,
    /// Follow the system preference, which on Raven means dark.
    Auto,
}

impl Default for ThemeMode {
    fn default() -> (r: ThemeMode)
        ensures
            r == ThemeMode::Dark,
    {
        ThemeMode::Dark
    }
}

#[derive(Clone, Debug)]
pub struct Appearance {
    pub theme_mode: ThemeMode,
    /// `#RRGGBB`.
    pub accent: String,
    /// The glass shell: a translucent window for the compositor to blur
    /// behind.
    pub transparency: bool,
}

impl Default for Appearance {
    fn default() -> (r: Appearance)
        ensures
            r.theme_mode == ThemeMode::Dark,
            r.accent@ == DEFAULT_ACCENT@,
            r.transparency,
    {
        Appearance {
            theme_mode: ThemeMode::Dark,
            accent: String::from_str(DEFAULT_ACCENT),
            transparency: true,
        }
    }
}

pub open spec fn is_hex_digit(c: char) -> bool {
    ('0' <= c && c <= '9') || ('a' <= c && c <= 'f') || ('A' <= c && c <= 'F')
}

/// `#RRGGBB` and nothing else.
pub open spec fn hex_colour(s: Seq<char>) -> bool {
    s.len() == 7 && s[0] == '#' && forall|i: int| 1 <= i < 7 ==> is_hex_digit(#[trigger] s[i])
}

/// `#RRGGBB`, and nothing else, because this string is interpolated straight
/// into a stylesheet.
pub fn is_hex(s: &str) -> (b: bool)
    ensures
        b == hex_colour(s@),
{
    let c = chars_of(s);
    if c.len() != 7 || c[0] != '#' {
        return false;
    }
    let mut i: usize = 1;
    while i < 7
        invariant
            1 <= i <= 7,
            c@ == s@,
            c@.len() == 7,
            forall|j: int| 1 <= j < i ==> is_hex_digit(#[trigger] c@[j]),
        decreases 7 - i,
    {
        let d = c[i];
        if !(('0' <= d && d <= '9') || ('a' <= d && d <= 'f') || ('A' <= d && d <= 'F')) {
            return false;
        }
        i = i + 1;
    }
    true
}

/// What reaches a stylesheet cannot close a rule or open another: an
/// accepted colour holds no `;`, `}`, `{` or space.
pub proof fn lemma_a_colour_cannot_escape_its_rule(s: Seq<char>)
    requires
        hex_colour(s),
    ensures
        forall|i: int|
            0 <= i < s.len() ==> #[trigger] s[i] != ';' && s[i] != '}' && s[i] != '{' && s[i]
                != ' ',
{
    assert forall|i: int| 0 <= i < s.len() implies #[trigger] s[i] != ';' && s[i] != '}' && s[i]
        != '{' && s[i] != ' ' by {
        if i > 0 {
            assert(is_hex_digit(s[i]));
        }
    }
}

} // verus!
