//! The verified core of a software rasterizer.
//!
//! The library owns everything that is decided on integers: packed colours
//! and their bytes, the indexing of the buffers, a colour and depth
//! framebuffer with its clipping pixel writer and line drawer, the traversal
//! of a triangle's bounding box with the depth test, the framing of textures
//! and images, and the reading of mesh files.
//!
//! It computes nothing with fractions. Where a caller works with such
//! numbers, the library meets it at three places:
//!
//! - a depth sample is the binary32 encoding of a number, and [`depth`]
//!   compares and rounds encodings;
//! - the rasterizer takes the weights and the shading of a pixel as two
//!   functions of the caller, makes the sign test and the depth test
//!   itself, and says of each pixel what it holds afterwards in terms of
//!   what the two returned;
//! - the numbers of a mesh file are kept as the text that writes them.
pub mod codec;
pub mod depth;
pub mod geometry;
pub mod grid;
pub mod line;
pub mod objloader;
pub mod present;
pub mod raster;
pub mod renderer;
pub mod text;
pub mod util;
