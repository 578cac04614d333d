use vstd::prelude::*;
use crate::math::Axis;
use crate::observer::{Changed, Observer};

verus! {

/// Vertical alignment of text in its box.
#[derive(Debug, Clone, Copy, PartialEq, Eq, Structural, Hash)]
pub enum VerticalTextAlignment {
    Center,
    Top,
    Bottom,
}

impl Default for VerticalTextAlignment {
    fn default() -> (r: Self)
        ensures
            r == VerticalTextAlignment::Center,
    {
        VerticalTextAlignment::Center
    }
}

/// Whether a node's children may be hidden instead of removed.
#[derive(Debug, Clone, Copy, PartialEq, Eq, Structural, Hash)]
pub enum ChildrenCanHide {
    Yes,
    No,
    Inherit,
}

/// The edge a slide animation moves from or to.
#[derive(Debug, Clone, Copy, PartialEq, Eq, Structural, Hash)]
pub enum SlideEdge {
    Top,
    Bottom,
    Left,
    Right,
}

/// Whether a slide animation moves in or out.
#[derive(Debug, Clone, Copy, PartialEq, Eq, Structural, Hash)]
pub enum SlideDirection {
    In,
    Out,
}

/// How a node animates when its state changes.
#[derive(Debug, Clone, Copy, PartialEq, Eq, Structural)]
pub struct StateTransition {
    pub animate_position: bool,
}

/// The horizontal edge a position is measured from.
#[derive(Debug, Clone, Copy, PartialEq, Eq, Structural, Hash)]
pub enum HorizontalOrigin {
    Left,
    Right,
}

/// The vertical edge a position is measured from.
#[derive(Debug, Clone, Copy, PartialEq, Eq, Structural, Hash)]
pub enum VerticalOrigin {
    Top,
    Bottom,
}

/// How many cells of a grid a node occupies.
#[derive(Debug, Clone, Copy, PartialEq, Eq, Structural, Hash)]
pub struct GridElement {
    pub row_span: u16,
    pub column_span: u16,
}

impl GridElement {
    /// A single cell.
    pub fn one_by_one() -> (r: GridElement)
        ensures
            r.row_span == 1,
            r.column_span == 1,
    {
        GridElement { row_span: 1, column_span: 1 }
    }
}

/// The direction in which grid cells are filled along an axis.
#[derive(Debug, Clone, Copy, PartialEq, Eq, Structural, Hash)]
pub enum Direction {
    LeftToRight,
    RightToLeft,
}

/// In which direction grid children are placed.
#[derive(Debug, Clone, Copy, PartialEq, Eq, Structural, Hash)]
pub struct GridFlow {
    pub main_axis: Axis,
    pub x_fill_direction: Direction,
    pub y_fill_direction: Direction,
    /// Whether placement restarts from the beginning of the grid for each
    /// item, filling gaps left by earlier items.
    pub backfill: bool,
}

impl GridFlow {
    /// Rows first, left to right and top to bottom, without backfill.
    pub fn default_flow() -> (r: GridFlow)
        ensures
            r.main_axis == Axis::X,
            r.x_fill_direction == Direction::LeftToRight,
            r.y_fill_direction == Direction::LeftToRight,
            !r.backfill,
    {
        GridFlow { main_axis: Axis::X, x_fill_direction: Direction::LeftToRight, y_fill_direction: Direction::LeftToRight, backfill: false }
    }
}

/// The arrangement of child nodes within a stack node.
#[derive(Debug, Clone, Copy, PartialEq, Eq, Structural, Hash)]
pub enum Arrange {
    Start,
    End,
    Center,
    SpaceBetween,
    SpaceAround,
    SpaceEvenly,
}

/// Options for stack container nodes.
#[derive(Debug, Clone, Copy, PartialEq, Eq, Structural, Hash)]
pub struct Stack {
    pub arrange: Arrange,
    pub axis: Axis,
    pub spacing: u32,
}

impl Default for Stack {
    /// Centered, vertical, with 5 pixels of spacing.
    fn default() -> (r: Stack)
        ensures
            r.arrange == Arrange::Center,
            r.axis == Axis::Y,
            r.spacing == 5,
    {
        Stack { arrange: Arrange::Center, axis: Axis::Y, spacing: 5 }
    }
}

impl Stack {
    pub fn arrange(self, arrange: Arrange) -> (r: Self)
        ensures
            r == (Stack { arrange, ..self }),
    {
        Stack { arrange, ..self }
    }

    pub fn spacing(self, spacing: u32) -> (r: Self)
        ensures
            r == (Stack { spacing, ..self }),
    {
        Stack { spacing, ..self }
    }

    pub fn axis(self, axis: Axis) -> (r: Self)
        ensures
            r == (Stack { axis, ..self }),
    {
        Stack { axis, ..self }
    }
}

/// Options for text nodes.
#[derive(Debug, Clone, Copy, PartialEq, Eq, Structural, Hash)]
pub struct TextOptions {
    pub editable: bool,
    pub single_line: bool,
    pub selectable: bool,
    pub edit_disabled: bool,
    pub auto_markdown: bool,
    pub use_pointer_comparison: bool,
}

impl TextOptions {
    /// Selectable, not editable, multi-line text.
    pub fn const_default() -> (r: Self)
        ensures
            !r.editable,
            !r.single_line,
            r.selectable,
            !r.edit_disabled,
            !r.auto_markdown,
            !r.use_pointer_comparison,
    {
        TextOptions {
            editable: false,
            single_line: false,
            selectable: true,
            edit_disabled: false,
            auto_markdown: false,
            use_pointer_comparison: false,
        }
    }
}

impl Default for TextOptions {
    fn default() -> (r: Self)
        ensures
            !r.editable,
            !r.single_line,
            r.selectable,
            !r.edit_disabled,
            !r.auto_markdown,
            !r.use_pointer_comparison,
    {
        Self::const_default()
    }
}

/// The text of a node, borrowed for the frame or static.
#[derive(Clone, Copy, Debug)]
pub enum NodeText<'a> {
    Dynamic(&'a str),
    Static(&'static str),
}

impl<'a> NodeText<'a> {
    pub fn as_str(&self) -> (r: &str)
        ensures
            match self {
                NodeText::Dynamic(s) => r@ == s@,
                NodeText::Static(s) => r@ == s@,
            },
    {
        match self {
            NodeText::Dynamic(s) => s,
            NodeText::Static(s) => s,
        }
    }

    pub fn is_static(&self) -> (r: bool)
        ensures
            r == (self is Static),
    {
        match self {
            NodeText::Static(_) => true,
            NodeText::Dynamic(_) => false,
        }
    }
}

/// Data for an image to be displayed.
#[derive(Clone, Copy, Debug)]
pub enum ImageData {
    /// Raster image (PNG, JPEG, etc.)
    Raster(&'static [u8]),
    /// SVG image data.
    Svg(&'static [u8]),
}

/// An image, from static bytes or from a path.
#[derive(Clone, Copy, Debug)]
pub enum Image<'a> {
    RasterStatic(&'static [u8]),
    RasterPath(&'a str),
    SvgStatic(&'static [u8]),
    SvgPath(&'a str),
}

/// Where the image of a node was last loaded from.
#[derive(Debug, Clone, Copy, PartialEq, Eq, Structural, Hash)]
pub enum ImageSourceId {
    /// Static bytes, identified by their address.
    StaticPtr(usize),
    /// A path, identified by its hash.
    PathHash(u64),
}

/// Line cap style.
#[derive(Debug, Clone, Copy, PartialEq, Eq, Structural)]
pub enum Cap {
    Butt,
    Round,
    Square,
}

/// Line join style.
#[derive(Debug, Clone, Copy, PartialEq, Eq, Structural)]
pub enum Join {
    Miter,
    Round,
    Bevel,
}

/// A value that is never mutated: its text needs no change tracking.
pub struct Static<T: 'static>(pub &'static T);

/// A value that the user guarantees is never mutated during its lifetime.
pub struct Immut<T>(pub T);

/// A text source, and how the GUI can tell whether it changed.
pub trait MaybeObservedText {
    fn as_text(&self) -> &str;

    fn changed_at(&self) -> Changed;
}

impl MaybeObservedText for String {
    fn as_text(&self) -> (r: &str)
        ensures
            r@ == self@,
    {
        self.as_str()
    }

    /// A plain string is hashed to detect changes.
    fn changed_at(&self) -> (r: Changed)
        ensures
            r == Changed::NeedsHash,
    {
        Changed::NeedsHash
    }
}

impl MaybeObservedText for Observer<String> {
    fn as_text(&self) -> (r: &str)
        ensures
            r@ == self.value@,
    {
        self.value.as_str()
    }

    /// An observed string reports when it was last written.
    fn changed_at(&self) -> (r: Changed)
        ensures
            r == Changed::ChangedAt(self.changed_at),
    {
        Changed::ChangedAt(self.changed_at)
    }
}

impl MaybeObservedText for Static<String> {
    fn as_text(&self) -> (r: &str)
        ensures
            r@ == self.0@,
    {
        self.0.as_str()
    }

    /// A static string never changes.
    fn changed_at(&self) -> (r: Changed)
        ensures
            r == Changed::Static,
    {
        Changed::Static
    }
}

impl MaybeObservedText for Immut<String> {
    fn as_text(&self) -> (r: &str)
        ensures
            r@ == self.0@,
    {
        self.0.as_str()
    }

    /// An immutable string never changes.
    fn changed_at(&self) -> (r: Changed)
        ensures
            r == Changed::Static,
    {
        Changed::Static
    }
}

} // verus!
