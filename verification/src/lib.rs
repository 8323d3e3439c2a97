//! A named style registry for terminal text.
//!
//! A [`Stylesheet`] maps symbolic style names to resolved text-rendering
//! attributes (transformations plus foreground and background colors) and
//! renders messages through those named styles.  Styles are registered
//! incrementally, the registry can be frozen one way, and rendering an
//! unknown name falls back to the always-present default style instead of
//! failing.

pub mod registry;
pub mod render;
pub mod style;

pub use registry::Stylesheet;
pub use registry::default_style_name;
pub use registry::StylesheetMisuse;
pub use style::StyleColor;
pub use style::StyleProperties;
pub use style::StyleTransformation;
