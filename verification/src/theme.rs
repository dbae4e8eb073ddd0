//! Style tokens and their colors.

use vstd::prelude::*;

verus! {

/// Color as red, green, blue and alpha.
#[derive(Debug, Clone, Copy, PartialEq, Eq, Hash)]
pub struct TokenColor(pub [u8; 4]);

impl TokenColor {
    /// Creates a color from its channels.
    #[must_use]
    pub fn from_rgba(rgba: [u8; 4]) -> (c: Self)
        ensures
            c == TokenColor(rgba),
    {
        Self(rgba)
    }
}

/// A token of the core inventory with its default color.
#[derive(Debug, Clone, Copy, PartialEq, Eq, Hash)]
pub struct CoreToken {
    /// Name of the token.
    pub name: &'static str,
    /// Default color.
    pub color: TokenColor,
}

} // verus!
