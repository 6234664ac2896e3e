//! Size gates: which annotation stages run for a buffer of a given size.

use vstd::prelude::*;
use crate::text::{count_lines, line_count};

verus! {

/// A buffer of at least this many bytes is big.
pub const BIG_TEXT_CHAR_THRESHOLD: usize = 500_000;

/// A buffer of at least this many lines is big.
pub const BIG_TEXT_LINE_THRESHOLD: usize = 50_000;

/// Syntax coloring and match counting run only up to this many bytes.
pub const HIGHLIGHT_CHAR_THRESHOLD: usize = 200_000;


/// Which expensive stages a buffer of a given size allows.
#[derive(Clone, Copy, Debug, PartialEq, Eq, Structural)]
pub struct FeatureGate {
    /// Line numbers and syntax coloring are off, whatever the settings.
    pub is_big: bool,
    /// Syntax coloring and match counting may run.
    pub highlighting_allowed: bool,
}

/// A buffer of `bytes` bytes and `lines` lines is big.
pub open spec fn is_big_buffer(bytes: int, lines: int) -> bool {
    bytes >= BIG_TEXT_CHAR_THRESHOLD || lines >= BIG_TEXT_LINE_THRESHOLD
}

impl FeatureGate {
    /// Switches for a buffer of the given size in bytes and in lines.
    pub fn new(bytes: usize, lines: usize) -> (r: FeatureGate)
        ensures
            r.is_big == is_big_buffer(bytes as int, lines as int),
            r.highlighting_allowed == (bytes <= HIGHLIGHT_CHAR_THRESHOLD),
    {
        FeatureGate {
            is_big: bytes >= BIG_TEXT_CHAR_THRESHOLD || lines >= BIG_TEXT_LINE_THRESHOLD,
            highlighting_allowed: bytes <= HIGHLIGHT_CHAR_THRESHOLD,
        }
    }

    /// Switches for `text`, measured in bytes and in lines.
    pub fn for_text(text: &str) -> (r: FeatureGate)
        ensures
            r.is_big == is_big_buffer(text.len() as int, line_count(text@) as int),
            r.highlighting_allowed == (text.len() <= HIGHLIGHT_CHAR_THRESHOLD),
    {
        let lines = count_lines(text);
        FeatureGate::new(text.len(), lines)
    }

    /// Whether line numbers are drawn, given the user's setting.
    pub fn line_numbers(&self, enabled: bool) -> (r: bool)
        ensures
            r == (enabled && !self.is_big),
    {
        enabled && !self.is_big
    }

    /// Whether syntax coloring runs.
    pub fn syntax(&self) -> (r: bool)
        ensures
            r == (!self.is_big && self.highlighting_allowed),
    {
        !self.is_big && self.highlighting_allowed
    }

    /// Whether the lines go through the annotator at all: some stage must
    /// have work to do, else the text is drawn as it is.
    pub fn needs_annotation(&self, line_numbers_enabled: bool, query: &str) -> (r: bool)
        ensures
            r == ((line_numbers_enabled && !self.is_big) || (!self.is_big
                && self.highlighting_allowed) || query@.len() > 0),
    {
        self.line_numbers(line_numbers_enabled) || self.syntax() || !query.is_empty()
    }
}

} // verus!
