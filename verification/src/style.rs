//! Plain style, element and input enumerations shared by layout, rendering
//! and event handling.
use vstd::prelude::*;

verus! {

#[derive(Debug, Clone, Copy, PartialEq, Eq, Structural)]
pub enum Direction {
    Row,
    RowReverse,
    Column,
    ColumnReverse,
}

#[derive(Debug, Clone, Copy, PartialEq, Eq, Structural)]
pub enum Alignment {
    Start,
    Center,
    End,
    Stretch,
    Baseline,
}

#[derive(Debug, Clone, Copy, PartialEq, Eq, Structural)]
pub enum Justify {
    Start,
    Center,
    End,
    SpaceBetween,
    SpaceAround,
    SpaceEvenly,
}

#[derive(Debug, Clone, Copy, PartialEq, Eq, Structural)]
pub enum AlignContent {
    Start,
    Center,
    End,
    Stretch,
    SpaceBetween,
    SpaceAround,
    SpaceEvenly,
}

#[derive(Debug, Clone, Copy, PartialEq, Eq, Structural)]
pub enum DisplayMode {
    Flex,
    Grid,
    /// Not displayed (CSS `display: none`).
    NoDisplay,
}

#[derive(Debug, Clone, Copy, PartialEq, Eq, Structural)]
pub enum PositionType {
    Relative,
    Absolute,
}

#[derive(Debug, Clone, Copy, PartialEq, Eq, Structural)]
pub enum Overflow {
    Visible,
    Hidden,
    Clip,
    Scroll,
}

#[derive(Debug, Clone, Copy, PartialEq, Eq, Structural)]
pub enum FlexWrap {
    NoWrap,
    Wrap,
    WrapReverse,
}

/// Grid placement of a child element.
#[derive(Debug, Clone, Copy, PartialEq, Eq, Structural)]
pub enum GridPlacement {
    Auto,
    Line(i16),
    Span(u16),
}

#[derive(Debug, Clone, Copy, PartialEq, Eq, Structural)]
pub enum GridAutoFlow {
    Row,
    Column,
    RowDense,
    ColumnDense,
}

#[derive(Debug, Clone, Copy, PartialEq, Eq, Hash, Structural)]
pub enum TextAlign {
    Left,
    Center,
    Right,
    Justify,
}

#[derive(Debug, Clone, Copy, PartialEq, Eq, Hash, Structural)]
pub enum TextDirection {
    Ltr,
    Rtl,
}

#[derive(Debug, Clone, Copy, PartialEq, Eq, Hash, Structural)]
pub enum TextDecorationStyle {
    Solid,
    Double,
    Dotted,
    Dashed,
    Wavy,
}

/// Where the background is painted relative to the box model.
#[derive(Debug, Clone, Copy, PartialEq, Eq, Hash, Structural)]
pub enum BackgroundClip {
    /// Within the border edge (default).
    BorderBox,
    /// Within the padding edge.
    PaddingBox,
    /// Within the content edge.
    ContentBox,
}

impl Default for BackgroundClip {
    fn default() -> (r: Self)
        ensures
            r == BackgroundClip::BorderBox,
    {
        BackgroundClip::BorderBox
    }
}

/// The origin for background positioning.
#[derive(Debug, Clone, Copy, PartialEq, Eq, Hash, Structural)]
pub enum BackgroundOrigin {
    /// Relative to the border box.
    BorderBox,
    /// Relative to the padding box (default).
    PaddingBox,
    /// Relative to the content box.
    ContentBox,
}

impl Default for BackgroundOrigin {
    fn default() -> (r: Self)
        ensures
            r == BackgroundOrigin::PaddingBox,
    {
        BackgroundOrigin::PaddingBox
    }
}

#[derive(Debug, Clone, Copy, PartialEq, Eq, Structural)]
pub enum BorderStyle {
    /// No border (CSS `border-style: none`).
    NoBorder,
    Solid,
    Dashed,
    Dotted,
    Double,
}

/// CSS mix-blend-mode values.
#[derive(Debug, Clone, Copy, PartialEq, Eq, Structural)]
pub enum BlendMode {
    Normal,
    Multiply,
    Screen,
    Overlay,
    Darken,
    Lighten,
    ColorDodge,
    ColorBurn,
    HardLight,
    SoftLight,
    Difference,
    Exclusion,
    Hue,
    Saturation,
    Color,
    Luminosity,
}

/// Alignment of an inline placeholder relative to the surrounding text.
#[derive(Debug, Clone, Copy, PartialEq, Eq, Structural)]
pub enum PlaceholderAlignment {
    Baseline,
    AboveBaseline,
    BelowBaseline,
    Top,
    Bottom,
    Middle,
}

#[derive(Debug, Clone, Copy, PartialEq, Eq, Structural)]
pub enum ScrollDirection {
    Vertical,
    Horizontal,
    Both,
}

/// Where an image comes from.
#[derive(Debug, Clone)]
pub enum ImageSource {
    Svg(String),
    File(String),
    /// Vector SVG, rendered as paths rather than rasterized.
    VectorSvg(String),
}

#[derive(Debug, Clone, Copy, PartialEq, Eq, Structural)]
pub enum ImageFit {
    Contain,
    Cover,
    Fill,
    ScaleDown,
}

#[derive(Debug, Clone, Copy, PartialEq, Eq, Structural)]
pub enum ButtonVariant {
    Primary,
    Secondary,
    /// Transparent button with only a label.
    GhostButton,
    Danger,
}

#[derive(Debug, Clone, Copy, PartialEq, Eq, Structural)]
pub enum ProgressVariant {
    Bar,
    Circular,
}

/// Text wrapping mode of a textarea.
#[derive(Debug, Clone, Copy, PartialEq, Eq, Structural)]
pub enum TextWrap {
    /// Visual wrapping only, no newlines inserted.
    Soft,
    /// No wrapping, horizontal scroll.
    Off,
}

/// Resize behavior of a textarea.
#[derive(Debug, Clone, Copy, PartialEq, Eq, Structural)]
pub enum TextareaResize {
    /// Not resizable.
    NoResize,
    Vertical,
    Horizontal,
    Both,
}

#[derive(Debug, Clone, Copy, PartialEq, Eq, Structural)]
pub enum TextInputVariant {
    Text,
    Password,
    Email,
    Url,
    Search,
    Number,
    Tel,
}

/// Phase of a scroll container's motion.
#[derive(Debug, Clone, Copy, PartialEq, Eq, Structural)]
pub enum ScrollPhase {
    Idle,
    /// Finger down, scrolling one to one.
    Tracking,
    /// Finger lifted, decelerating.
    Momentum,
    /// Rubber-band snap back.
    Snapping,
}

} // verus!
