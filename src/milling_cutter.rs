//! The shape of the cutting tool.
use vstd::prelude::*;

use crate::text::{chars_of, parse_unsigned, unsigned_value};

verus! {

/// Micrometres of tool radius per unit of the diameter code: a code `d`
/// stands for a radius of `d / 20` centimetres, a diameter of `d` millimetres.
pub const RADIUS_MICROS_PER_CODE: u64 = 500;

/// A tool shape with its diameter code, as the toolpath file's suffix writes
/// it (see `RADIUS_MICROS_PER_CODE`).
#[derive(Debug, Clone, Copy, PartialEq, Eq, Structural)]
pub enum MillingCutter {
    Flat(u8),
    Spherical(u8),
}

/// The cutter that a tag such as `k16` or `f10` selects: `k` for a
/// spherical tool, `f` for a flat one, followed by the diameter code.
pub open spec fn cutter_of_tag(tag: Seq<char>) -> Option<MillingCutter> {
    if tag.len() == 0 {
        None
    } else {
        match unsigned_value(tag.drop_first()) {
            Some(size) => if size > 255 {
                None
            } else if tag[0] == 'k' {
                Some(MillingCutter::Spherical(size as u8))
            } else if tag[0] == 'f' {
                Some(MillingCutter::Flat(size as u8))
            } else {
                None
            },
            None => None,
        }
    }
}

impl MillingCutter {
    /// The diameter code of either shape.
    pub open spec fn spec_size(self) -> u8 {
        match self {
            MillingCutter::Flat(size) => size,
            MillingCutter::Spherical(size) => size,
        }
    }

    /// The tool radius in micrometres.
    pub open spec fn spec_radius(self) -> int {
        self.spec_size() * RADIUS_MICROS_PER_CODE
    }

    /// Selects the cutter from its tag (see `cutter_of_tag`); `None` where the
    /// shape letter is unknown or the diameter code is not a number up to 255.
    pub fn parse(file_extension: &str) -> (r: Option<Self>)
        ensures
            r == cutter_of_tag(file_extension@),
    {
        let tag = chars_of(file_extension);
        assert(tag@.subrange(0, tag@.len() as int) =~= tag@);
        Self::parse_tag(&tag, 0, tag.len())
    }

    /// Selects the cutter from the tag `s[from..to]` (see `cutter_of_tag`).
    pub fn parse_tag(s: &Vec<char>, from: usize, to: usize) -> (r: Option<Self>)
        requires
            from <= to <= s.len(),
        ensures
            r == cutter_of_tag(s@.subrange(from as int, to as int)),
    {
        reveal(unsigned_value);
        let ghost tag = s@.subrange(from as int, to as int);
        if from == to {
            return None;
        }
        assert(s@.subrange(from + 1, to as int) =~= tag.drop_first());
        let size = match parse_unsigned(s, from + 1, to, 255) {
            Some(size) => size as u8,
            None => {
                return None;
            },
        };
        if s[from] == 'k' {
            Some(MillingCutter::Spherical(size))
        } else if s[from] == 'f' {
            Some(MillingCutter::Flat(size))
        } else {
            None
        }
    }

    /// The diameter code of either shape.
    pub fn size(&self) -> (r: u8)
        ensures
            r == self.spec_size(),
    {
        match self {
            MillingCutter::Flat(size) => *size,
            MillingCutter::Spherical(size) => *size,
        }
    }

    /// The tool radius in micrometres.
    pub fn radius(&self) -> (r: u64)
        ensures
            r == self.spec_radius(),
    {
        self.size() as u64 * RADIUS_MICROS_PER_CODE
    }
}

} // verus!
