use crate::grid::GridCell;
use vstd::prelude::*;

verus! {

/// A colour as the terminal was told it: the default, a palette index or an RGB triple.
#[derive(Clone, Copy, Debug, PartialEq, Eq, Structural)]
pub enum TerminalColor {
    Default,
    Indexed(u8),
    Rgb(u8, u8, u8),
}

impl Default for TerminalColor {
    fn default() -> (r: Self)
        ensures
            r == TerminalColor::Default,
    {
        TerminalColor::Default
    }
}

/// The graphic rendition of a cell.
#[derive(Clone, Copy, Debug, PartialEq, Eq, Structural)]
pub struct CellAttributes {
    pub fg: TerminalColor,
    pub bg: TerminalColor,
    pub bold: bool,
    pub dim: bool,
    pub italic: bool,
    pub underline: bool,
    pub inverse: bool,
}

/// The attributes of a freshly reset terminal: default colours, no style.
pub open spec fn default_attrs() -> CellAttributes {
    CellAttributes {
        fg: TerminalColor::Default,
        bg: TerminalColor::Default,
        bold: false,
        dim: false,
        italic: false,
        underline: false,
        inverse: false,
    }
}

impl Default for CellAttributes {
    fn default() -> (r: Self)
        ensures
            r == default_attrs(),
    {
        CellAttributes {
            fg: TerminalColor::Default,
            bg: TerminalColor::Default,
            bold: false,
            dim: false,
            italic: false,
            underline: false,
            inverse: false,
        }
    }
}

/// What a cell holds: its text, its attributes, whether it starts a wide character and whether
/// it is the right half of one.
pub type CellView = (Seq<char>, CellAttributes, bool, bool);

/// An empty cell with default attributes.
pub open spec fn blank_view() -> CellView {
    (Seq::empty(), default_attrs(), false, false)
}

/// The right half of a wide character drawn with `attrs`.
pub open spec fn continuation_view(attrs: CellAttributes) -> CellView {
    (Seq::empty(), attrs, false, true)
}

/// One cell of the terminal grid.
#[derive(Debug, PartialEq, Eq)]
pub struct TerminalCell {
    contents: String,
    attrs: CellAttributes,
    wide: bool,
    wide_continuation: bool,
}

impl View for TerminalCell {
    type V = CellView;

    open spec fn view(&self) -> CellView {
        (self.contents_view(), self.attrs(), self.is_wide(), self.is_continuation())
    }
}

impl Clone for TerminalCell {
    fn clone(&self) -> (r: Self)
        ensures
            r@ == self@,
    {
        TerminalCell {
            contents: self.contents.clone(),
            attrs: self.attrs,
            wide: self.wide,
            wide_continuation: self.wide_continuation,
        }
    }
}

impl Default for TerminalCell {
    fn default() -> (r: Self)
        ensures
            r@ == blank_view(),
    {
        TerminalCell::blank()
    }
}

impl TerminalCell {
    /// The text of the cell.
    pub closed spec fn contents_view(&self) -> Seq<char> {
        self.contents@
    }

    /// The attributes of the cell.
    pub closed spec fn attrs(&self) -> CellAttributes {
        self.attrs
    }

    /// Whether the cell starts a wide character.
    pub closed spec fn is_wide(&self) -> bool {
        self.wide
    }

    /// Whether the cell is the right half of a wide character.
    pub closed spec fn is_continuation(&self) -> bool {
        self.wide_continuation
    }

    /// The text of the cell.
    pub fn contents(&self) -> (r: &str)
        ensures
            r@ == self@.0,
    {
        self.contents.as_str()
    }

    /// Whether the cell holds any text.
    pub fn has_contents(&self) -> (r: bool)
        ensures
            r == (self@.0.len() > 0),
    {
        !self.contents.as_str().is_empty()
    }

    /// Whether the cell is the right half of a wide character.
    pub fn is_wide_continuation(&self) -> (r: bool)
        ensures
            r == self@.3,
    {
        self.wide_continuation
    }

    /// The foreground colour.
    pub fn fgcolor(&self) -> (r: TerminalColor)
        ensures
            r == self@.1.fg,
    {
        self.attrs.fg
    }

    /// The background colour.
    pub fn bgcolor(&self) -> (r: TerminalColor)
        ensures
            r == self@.1.bg,
    {
        self.attrs.bg
    }

    /// Whether the cell is bold.
    pub fn bold(&self) -> (r: bool)
        ensures
            r == self@.1.bold,
    {
        self.attrs.bold
    }

    /// Whether the cell is drawn with foreground and background exchanged.
    pub fn inverse(&self) -> (r: bool)
        ensures
            r == self@.1.inverse,
    {
        self.attrs.inverse
    }

    /// The attributes of the cell.
    pub fn attrs_value(&self) -> (r: CellAttributes)
        ensures
            r == self@.1,
    {
        self.attrs
    }

    /// Whether the cell starts a wide character.
    pub fn wide(&self) -> (r: bool)
        ensures
            r == self@.2,
    {
        self.wide
    }

    /// A cell holding `contents`.
    pub fn new(contents: String, attrs: CellAttributes, wide: bool) -> (r: Self)
        ensures
            r@ == (contents@, attrs, wide, false),
    {
        Self { contents, attrs, wide, wide_continuation: false }
    }

    /// A cell holding the one character `c`.
    pub fn from_char(c: char, attrs: CellAttributes, wide: bool) -> (r: Self)
        ensures
            r@ == (seq![c], attrs, wide, false),
    {
        let mut contents = String::new();
        string_push(&mut contents, c);
        proof {
            assert(contents@ =~= seq![c]);
        }
        Self { contents, attrs, wide, wide_continuation: false }
    }

    /// The right half of a wide character drawn with `attrs`.
    pub fn continuation(attrs: CellAttributes) -> (r: Self)
        ensures
            r@ == continuation_view(attrs),
    {
        Self { contents: String::new(), attrs, wide: false, wide_continuation: true }
    }

    /// An empty cell with default attributes.
    pub fn blank() -> (r: Self)
        ensures
            r@ == blank_view(),
    {
        Self {
            contents: String::new(),
            attrs: CellAttributes::default(),
            wide: false,
            wide_continuation: false,
        }
    }

    /// Whether the cell is empty with default attributes.
    pub fn is_blank(&self) -> (r: bool)
        ensures
            r == (self@ == blank_view()),
    {
        let attrs_default = self.attrs == CellAttributes::default();
        let r = self.contents.as_str().is_empty() && attrs_default && !self.wide
            && !self.wide_continuation;
        proof {
            if self.contents@.len() == 0 {
                assert(self.contents@ =~= Seq::<char>::empty());
            }
        }
        r
    }

    /// Appends `c` to the text of the cell.
    pub fn push_char(&mut self, c: char)
        ensures
            final(self)@ == (old(self)@.0.push(c), old(self)@.1, old(self)@.2, old(self)@.3),
    {
        string_push(&mut self.contents, c);
    }
}

impl GridCell for TerminalCell {
    open spec fn spec_is_empty(&self) -> bool {
        self@ == blank_view()
    }

    fn is_empty(&self) -> (r: bool) {
        self.is_blank()
    }

    open spec fn spec_same(&self, other: &Self) -> bool {
        self@ == other@
    }

    fn reset(&mut self, template: &Self) {
        *self = template.clone();
    }
}

/// Appends a character to a string.
#[verifier::external_body]
pub(crate) fn string_push(s: &mut String, c: char)
    ensures
        final(s)@ == old(s)@.push(c),
{
    s.push(c);
}

} // verus!
