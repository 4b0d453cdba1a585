//! What the pipeline reports instead of a tileset.

use vstd::prelude::*;
use vstd::string::StringExecFns;

verus! {

/// One of the two dimensions of an image.
#[derive(Clone, Copy, Debug, PartialEq, Eq, Structural)]
pub enum Axis {
    Width,
    Height,
}

/// Why a source image and a tile size cannot be turned into a tileset.
#[derive(Clone, Copy, Debug, PartialEq, Eq, Structural)]
pub enum TilesetError {
    /// The source's extent along `axis` is not an exact multiple of the tile size.
    DimensionMismatch { axis: Axis },
    /// The tile size is zero.
    InvalidTileSize,
}

impl TilesetError {
    /// The text shown to the user for this error.
    pub open spec fn text(self) -> Seq<char> {
        match self {
            TilesetError::DimensionMismatch { axis: Axis::Width } =>
                "ERROR: Image width must be a multiple of the tile size"@,
            TilesetError::DimensionMismatch { axis: Axis::Height } =>
                "ERROR: Image height must be a multiple of the tile size"@,
            TilesetError::InvalidTileSize => "ERROR: Tile size must be greater than zero"@,
        }
    }

    /// The text shown to the user for this error.
    pub fn message(&self) -> (text: String)
        ensures
            text@ == self.text(),
    {
        match self {
            TilesetError::DimensionMismatch { axis: Axis::Width } => String::from_str(
                "ERROR: Image width must be a multiple of the tile size",
            ),
            TilesetError::DimensionMismatch { axis: Axis::Height } => String::from_str(
                "ERROR: Image height must be a multiple of the tile size",
            ),
            TilesetError::InvalidTileSize => String::from_str(
                "ERROR: Tile size must be greater than zero",
            ),
        }
    }
}

} // verus!
