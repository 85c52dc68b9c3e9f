use vstd::prelude::*;

verus! {

/// Horizontal alignment of a text clip; `Center` by default.
#[derive(Debug, Clone, Copy, PartialEq, Eq, Structural)]
pub enum TextAlignment {
    Left,
    Center,
    Right,
}

impl Default for TextAlignment {
    fn default() -> (r: Self)
        ensures
            r == TextAlignment::Center,
    {
        TextAlignment::Center
    }
}

/// A small owned string holding a font name.
#[derive(Debug, Clone)]
pub struct SmallStr(String);

impl View for SmallStr {
    type V = Seq<char>;

    closed spec fn view(&self) -> Seq<char> {
        self.0@
    }
}

impl SmallStr {
    /// An owned copy of `s`.
    pub fn from_str(s: &str) -> (r: Self)
        ensures
            r@ == s@,
    {
        SmallStr(String::from_str(s))
    }

    /// The held text.
    pub fn as_str(&self) -> (r: &str)
        ensures
            r@ == self@,
    {
        self.0.as_str()
    }
}

/// The font name of a text style.
pub type FontName = SmallStr;

} // verus!
