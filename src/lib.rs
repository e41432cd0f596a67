//! ω-tile sets: corner-coded square tiles that can be laid out edge to edge
//! without seams, the enumeration of the tile families, the layout solver
//! and the pixel work around them.

pub mod atlas;
pub mod cache;
pub mod driver;
pub mod error;
pub mod mask;
pub mod progress;
pub mod raster;
pub mod render;
pub mod tile;
pub mod tileset;
pub mod variation;

pub use atlas::{build_atlas, place_tiles, Atlas};
pub use cache::{entry_name, sample_key, tile_key};
pub use driver::{Awaiting, CachedRun, Event, Step};
pub use error::Error;
pub use mask::build_mask;
pub use progress::{ProgressState, ProgressUpdate};
pub use raster::{LumaRaster, Pixel, Raster};
pub use render::{compose, grid_side, render_combined, render_tileset};
pub use tile::{Direction, Edge, WTile};
pub use tileset::{
    assemble_tiles, build_test_tiles, build_testset, crop, merge_samples, sample_keys, split_samples, testset_samples,
    tile_keys, GenerateOptions, WTileSet,
};
pub use variation::{parse_variation, variation_tuples, Corners, SampleMode, WTileVariation};
