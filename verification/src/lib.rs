//! Text-to-page pagination engine for novel-reader sources, with the
//! per-site helpers that feed it.
//!
//! The core pipeline turns a block of plain prose into transport-ready
//! page images: `reflow` wraps the text into width-bounded lines,
//! `paginate` groups the lines into fixed-size pages, `raster` draws a
//! page onto a pixel canvas, and `codec` frames and base64-encodes the
//! canvas for the host.  The site modules hold the pure decision and
//! string-building logic of two novel sites; the surrounding I/O lives
//! outside this crate.

pub mod ascii;
pub mod codec;
pub mod font;
pub mod freewebnovel;
pub mod lightnovelpub;
pub mod model;
pub mod options;
pub mod pages;
pub mod paginate;
pub mod raster;
pub mod reflow;
pub mod strutil;
pub mod textprep;
