//! Font descriptions.
use vstd::prelude::*;

verus! {

/// Describes the style of a font.
#[derive(Debug, Clone, Copy, PartialEq, Eq, Hash)]
pub struct FontStyle {
    /// The weight, between 100 and 900; 400 is normal and 700 bold.
    pub weight: i32,
    pub italic: bool,
    /// The stretch; 5 is normal.
    pub stretch: i32,
}

impl FontStyle {
    /// Weight 400, upright, normal stretch.
    pub fn normal() -> (r: Self)
        ensures
            r.weight == 400,
            !r.italic,
            r.stretch == 5,
    {
        Self { weight: 400, italic: false, stretch: 5 }
    }

    /// Weight 700, upright, normal stretch.
    pub fn bold() -> (r: Self)
        ensures
            r.weight == 700,
            !r.italic,
            r.stretch == 5,
    {
        Self { weight: 700, italic: false, stretch: 5 }
    }

    /// Weight 400, italic, normal stretch.
    pub fn italic() -> (r: Self)
        ensures
            r.weight == 400,
            r.italic,
            r.stretch == 5,
    {
        Self { weight: 400, italic: true, stretch: 5 }
    }

    pub fn new(weight: i32, italic: bool, stretch: i32) -> (r: Self)
        ensures
            r.weight == weight,
            r.italic == italic,
            r.stretch == stretch,
    {
        Self { weight, italic, stretch }
    }
}

impl Default for FontStyle {
    /// The normal style.
    fn default() -> (r: Self)
        ensures
            r.weight == 400,
            !r.italic,
            r.stretch == 5,
    {
        Self::normal()
    }
}

/// Names a font and its style.
#[derive(Debug, Clone, PartialEq, Eq, Hash)]
pub struct FontDescription {
    pub name: String,
    pub family: String,
    pub style: FontStyle,
}

} // verus!
