//! Typed failures of the font-atlas and text-rendering components.
//!
//! Configuration errors fail fast at construction; format and integrity
//! errors surface as typed load failures; resource exhaustion is not an
//! error at all but a degraded result, handled where it arises.

use vstd::prelude::*;

verus! {

/// A failure while building, saving or loading a font atlas.
#[derive(Clone, Debug)]
pub enum FontError {
    /// A character-set name other than ASCII or UNICODE.
    InvalidFontType(String),
    /// The font program did not parse, or the atlas could not be built.
    FontLoadError(String),
    /// A persisted atlas could not be produced.
    SaveError(String),
    /// A persisted atlas was rejected: malformed, wrong version, failed
    /// checksum, or inconsistent contents.
    LoadError(String),
}

impl FontError {
    /// The stored description of the failure.
    pub fn message(&self) -> (r: &String)
        ensures
            r@ == self.message_spec(),
    {
        match self {
            FontError::InvalidFontType(s) => s,
            FontError::FontLoadError(s) => s,
            FontError::SaveError(s) => s,
            FontError::LoadError(s) => s,
        }
    }

    /// The description carried by each variant.
    pub open spec fn message_spec(self) -> Seq<char> {
        match self {
            FontError::InvalidFontType(s) => s@,
            FontError::FontLoadError(s) => s@,
            FontError::SaveError(s) => s@,
            FontError::LoadError(s) => s@,
        }
    }
}

/// A failure while assembling a text renderer.
#[derive(Clone, Debug)]
pub enum TextError {
    /// No font atlas was supplied, or its texture could not be set up.
    FontLoadError(String),
}

impl TextError {
    /// The stored description of the failure.
    pub fn message(&self) -> (r: &String)
        ensures
            r@ == self.message_spec(),
    {
        match self {
            TextError::FontLoadError(s) => s,
        }
    }

    /// The description carried by each variant.
    pub open spec fn message_spec(self) -> Seq<char> {
        match self {
            TextError::FontLoadError(s) => s@,
        }
    }
}

} // verus!
