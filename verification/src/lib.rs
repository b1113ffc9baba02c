//! Terminal pokemon sprite toolkit: a name/ID registry, selection
//! resolution, variant attributes, asset-path building, and bitmap
//! trimming and compositing, with contracts proved by Verus.

pub mod cli;
pub mod list;
pub mod pokemon;
pub mod sprites;
pub mod text;
pub mod utils;
