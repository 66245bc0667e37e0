//! Text rendering tuner: the decisions and the pixel arithmetic behind a
//! FreeType based replacement for the system's text drawing.

pub mod bootstrap;
pub mod canvas;
pub mod config;
pub mod coverage;
pub mod custom;
pub mod d2d;
pub mod dwrite;
pub mod faces;
pub mod families;
pub mod filter;
pub mod fonts;
pub mod ft;
pub mod gdi;
pub mod gdi_metrics;
pub mod geometry;
pub mod glyphs;
pub mod lang;
pub mod layout;
pub mod numbers;
pub mod probe;
pub mod process;
pub mod profile;
pub mod render;
pub mod stale;
pub mod sysfont;
pub mod text;
pub mod tray;
pub mod utf16;
pub mod version;
mod wide;
pub mod xform;
