//! A verified renderer for small raster banner images ("userbars"): a
//! vertical background gradient, an optional diagonal stripe overlay, an
//! optional background image, bitmap text with an outline pass, an
//! anti-aliased decorative ellipse and a border, composited in a fixed
//! layer order into an 8-bit RGB byte buffer.

pub mod canvas;
pub mod color;
pub mod font;
pub mod layout;
pub mod parse;
pub mod pipeline;

pub use parse::ParseError;
pub use parse::color_from_hex;
pub use parse::colora_from_hex;
pub use parse::parse_placement;

pub use pipeline::BgImage;
pub use pipeline::Options;
pub use pipeline::StripePattern;
pub use pipeline::generate;
pub use pipeline::generate_rgba;

pub use font::Glyph;
pub use font::GlyphTable;
pub use font::render;

pub use layout::AxisAnchor;
pub use layout::AxisPlacement;
pub use layout::Placement;
pub use layout::make_placement;
pub use color::Color;
pub use color::ColorA;
pub use color::LinColor;
pub use color::make_color;
pub use color::make_colora;
