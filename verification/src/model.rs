//! The parsed map: tilesets, layers, objects, and the checks that make a
//! decoded document a [`MapModel`].

use vstd::prelude::*;
use crate::properties::Property;
use crate::scalar::FloatBits;

verus! {

/// How tiles are laid out in a map.
#[derive(Clone, Copy, Debug, PartialEq, Eq, Structural)]
pub enum Orientation {
    Orthogonal,
    Isometric,
    Staggered,
    Hexagonal,
}

/// The grid type that the tilemap renderer draws.
#[derive(Clone, Copy, Debug, PartialEq, Eq, Structural)]
pub enum MapType {
    /// A square grid.
    Square,
    /// Hexagons in the row coordinate system.
    HexagonRow,
    /// Isometric tiles in the diamond coordinate system.
    IsometricDiamond,
    /// Isometric tiles in the staggered coordinate system.
    IsometricStaggered,
}

impl Orientation {
    /// The grid type of each orientation.
    pub open spec fn spec_map_type(self) -> MapType {
        match self {
            Orientation::Hexagonal => MapType::HexagonRow,
            Orientation::Isometric => MapType::IsometricDiamond,
            Orientation::Staggered => MapType::IsometricStaggered,
            Orientation::Orthogonal => MapType::Square,
        }
    }

    /// Maps the orientation to the grid type that renders it.
    pub fn map_type(self) -> (t: MapType)
        ensures
            t == self.spec_map_type(),
            self == Orientation::Hexagonal ==> t == MapType::HexagonRow,
            self == Orientation::Isometric ==> t == MapType::IsometricDiamond,
            self == Orientation::Staggered ==> t == MapType::IsometricStaggered,
            self == Orientation::Orthogonal ==> t == MapType::Square,
    {
        match self {
            Orientation::Hexagonal => MapType::HexagonRow,
            Orientation::Isometric => MapType::IsometricDiamond,
            Orientation::Staggered => MapType::IsometricStaggered,
            Orientation::Orthogonal => MapType::Square,
        }
    }
}

/// Different orientations are drawn on different grid types.
pub proof fn lemma_map_type_injective(a: Orientation, b: Orientation)
    requires
        a.spec_map_type() == b.spec_map_type(),
    ensures
        a == b,
{
}

/// A set of equally sized tile images.
#[derive(Debug, PartialEq)]
pub struct Tileset {
    pub name: String,
    /// Width of one tile, in pixels.
    pub tile_width: u32,
    /// Height of one tile, in pixels.
    pub tile_height: u32,
    /// Pixels between neighbouring tiles in the source image.
    pub spacing: u32,
    /// Path of the single source image. `None` for a tileset made of one
    /// image per tile, which cannot be drawn from an atlas.
    pub image: Option<String>,
}

/// The tile in one occupied cell of a tile layer.
#[derive(Clone, Copy, Debug, PartialEq, Eq, Structural)]
pub struct TileReference {
    /// Index of the tileset among the map's tilesets.
    pub tileset_index: usize,
    /// Id of the tile within that tileset.
    pub id: u32,
    pub flip_h: bool,
    pub flip_v: bool,
    pub flip_d: bool,
}

/// Where the tileset of an object's tile is found.
#[derive(Clone, Copy, Debug, PartialEq, Eq, Structural)]
pub enum TilesetLocation {
    /// One of the map's tilesets, by index.
    OfMap(usize),
    /// A tileset that belongs to an object template, not to the map.
    OfTemplate,
}

/// The tile that an object shows.
#[derive(Clone, Copy, Debug, PartialEq, Eq, Structural)]
pub struct ObjectTile {
    pub tileset: TilesetLocation,
    /// Id of the tile within its tileset.
    pub id: u32,
    pub flip_h: bool,
    pub flip_v: bool,
    pub flip_d: bool,
}

/// An entity placed freely on an object layer.
#[derive(Debug, PartialEq)]
pub struct Object {
    /// Horizontal position in map pixels.
    pub x: FloatBits,
    /// Vertical position in map pixels.
    pub y: FloatBits,
    pub tile: Option<ObjectTile>,
    pub properties: Vec<Property>,
}

/// A bounded grid of optional tiles, stored row by row from the top.
#[derive(Debug, PartialEq)]
pub struct TileLayer {
    pub width: u32,
    pub height: u32,
    pub cells: Vec<Option<TileReference>>,
}

/// What a layer holds.
#[derive(Debug, PartialEq)]
pub enum LayerKind {
    /// A bounded tile grid.
    Tiles(TileLayer),
    /// An unbounded tile layer, stored in chunks.
    InfiniteTiles,
    Objects(Vec<Object>),
    Image,
    Group,
}

/// One drawable slice of a map.
#[derive(Debug, PartialEq)]
pub struct Layer {
    pub id: u32,
    /// Horizontal offset in pixels.
    pub offset_x: FloatBits,
    /// Vertical offset in pixels, growing downwards.
    pub offset_y: FloatBits,
    pub kind: LayerKind,
}

/// A decoded map document, not yet checked.
#[derive(Debug, PartialEq)]
pub struct Document {
    /// Width of the map, in tiles.
    pub width: u32,
    /// Height of the map, in tiles.
    pub height: u32,
    /// Width of a grid cell, in pixels.
    pub tile_width: u32,
    /// Height of a grid cell, in pixels.
    pub tile_height: u32,
    pub orientation: Orientation,
    pub tilesets: Vec<Tileset>,
    pub layers: Vec<Layer>,
}

/// Why a document is no map.
#[derive(Clone, Copy, Debug, PartialEq, Eq, Structural)]
pub enum ParseError {
    /// The document could not be decoded, a tile grid does not hold one entry
    /// per cell, or there are more tilesets or layers than a 32-bit index
    /// can count.
    Malformed,
    /// A cell of a tile layer names a tileset that the map does not have.
    UnresolvedReference,
}

impl TileLayer {
    /// The grid has exactly one entry per cell.
    pub open spec fn complete(self) -> bool {
        self.cells.len() == self.width * self.height
    }

    /// Every occupied cell names one of the first `tilesets` tilesets.
    pub open spec fn resolved(self, tilesets: nat) -> bool {
        forall|k: int|
            0 <= k < self.cells.len() ==> match #[trigger] self.cells[k] {
                Some(t) => t.tileset_index < tilesets,
                None => true,
            }
    }

    /// The tile at column `x` of row `y`, rows counted from the top. `None`
    /// outside the grid and in an empty cell.
    pub open spec fn spec_tile_at(self, x: int, y: int) -> Option<TileReference> {
        if 0 <= x < self.width && 0 <= y < self.height && y * self.width + x < self.cells.len() {
            self.cells[y * self.width + x]
        } else {
            None
        }
    }

    /// Reads one cell of the grid.
    pub fn tile_at(&self, x: u32, y: u32) -> (t: Option<TileReference>)
        ensures
            t == self.spec_tile_at(x as int, y as int),
    {
        if x < self.width && y < self.height {
            assert(y * self.width + x <= 0xffff_ffff * 0xffff_ffff + 0xffff_ffff) by (nonlinear_arith)
                requires
                    0 <= y <= 0xffff_ffff,
                    0 <= self.width <= 0xffff_ffff,
                    0 <= x <= 0xffff_ffff,
            ;
            let index: u64 = (y as u64) * (self.width as u64) + (x as u64);
            if index < self.cells.len() as u64 {
                return self.cells[index as usize];
            }
        }
        None
    }

    fn is_complete(&self) -> (b: bool)
        ensures
            b == self.complete(),
    {
        assert(self.width * self.height <= 0xffff_ffff * 0xffff_ffff) by (nonlinear_arith)
            requires
                0 <= self.width <= 0xffff_ffff,
                0 <= self.height <= 0xffff_ffff,
        ;
        self.cells.len() as u64 == (self.width as u64) * (self.height as u64)
    }

    fn is_resolved(&self, tilesets: usize) -> (b: bool)
        ensures
            b == self.resolved(tilesets as nat),
    {
        let mut k: usize = 0;
        while k < self.cells.len()
            invariant
                k <= self.cells.len(),
                forall|j: int|
                    0 <= j < k ==> match #[trigger] self.cells[j] {
                        Some(t) => t.tileset_index < tilesets,
                        None => true,
                    },
            decreases self.cells.len() - k,
        {
            match self.cells[k] {
                Some(t) => {
                    if t.tileset_index >= tilesets {
                        return false;
                    }
                },
                None => {},
            }
            k += 1;
        }
        true
    }
}

impl Document {
    /// Every bounded tile layer has one entry per cell.
    pub open spec fn grids_complete(self) -> bool {
        forall|i: int|
            0 <= i < self.layers.len() ==> match (#[trigger] self.layers[i]).kind {
                LayerKind::Tiles(grid) => grid.complete(),
                _ => true,
            }
    }

    /// Every occupied cell of every bounded tile layer names a tileset of
    /// this document.
    pub open spec fn references_resolved(self) -> bool {
        forall|i: int|
            0 <= i < self.layers.len() ==> match (#[trigger] self.layers[i]).kind {
                LayerKind::Tiles(grid) => grid.resolved(self.tilesets.len() as nat),
                _ => true,
            }
    }

    /// The document can be decoded into a map as far as its shape goes: the
    /// tilesets and the layers can be counted by a 32-bit index and the
    /// grids are complete.
    pub open spec fn shaped(self) -> bool {
        self.tilesets.len() <= u32::MAX && self.layers.len() <= u32::MAX && self.grids_complete()
    }

    /// The document is a map.
    pub open spec fn well_formed(self) -> bool {
        self.shaped() && self.references_resolved()
    }

    fn is_shaped(&self) -> (b: bool)
        ensures
            b == self.shaped(),
    {
        if self.tilesets.len() > u32::MAX as usize || self.layers.len() > u32::MAX as usize {
            return false;
        }
        let mut i: usize = 0;
        while i < self.layers.len()
            invariant
                i <= self.layers.len(),
                forall|j: int|
                    0 <= j < i ==> match (#[trigger] self.layers[j]).kind {
                        LayerKind::Tiles(grid) => grid.complete(),
                        _ => true,
                    },
            decreases self.layers.len() - i,
        {
            match &self.layers[i].kind {
                LayerKind::Tiles(grid) => {
                    if !grid.is_complete() {
                        return false;
                    }
                },
                _ => {},
            }
            i += 1;
        }
        true
    }

    fn is_resolved(&self) -> (b: bool)
        ensures
            b == self.references_resolved(),
    {
        let mut i: usize = 0;
        while i < self.layers.len()
            invariant
                i <= self.layers.len(),
                forall|j: int|
                    0 <= j < i ==> match (#[trigger] self.layers[j]).kind {
                        LayerKind::Tiles(grid) => grid.resolved(self.tilesets.len() as nat),
                        _ => true,
                    },
            decreases self.layers.len() - i,
        {
            match &self.layers[i].kind {
                LayerKind::Tiles(grid) => {
                    if !grid.is_resolved(self.tilesets.len()) {
                        return false;
                    }
                },
                _ => {},
            }
            i += 1;
        }
        true
    }
}

/// A map document that passed the checks: its grids are complete and its
/// tile references name existing tilesets. It cannot be changed afterwards.
#[derive(Debug)]
pub struct MapModel {
    document: Document,
}

impl View for MapModel {
    type V = Document;

    closed spec fn view(&self) -> Document {
        self.document
    }
}

impl MapModel {
    #[verifier::type_invariant]
    spec fn valid(self) -> bool {
        self.document.well_formed()
    }

    /// Checks a decoded document and wraps it.
    ///
    /// The shape is checked first, over the whole document, so a document
    /// with both faults is `Malformed`.
    pub fn new(document: Document) -> (r: Result<MapModel, ParseError>)
        ensures
            match r {
                Ok(map) => document.well_formed() && map@ == document,
                Err(ParseError::Malformed) => !document.shaped(),
                Err(ParseError::UnresolvedReference) => document.shaped()
                    && !document.references_resolved(),
            },
    {
        if !document.is_shaped() {
            return Err(ParseError::Malformed);
        }
        if !document.is_resolved() {
            return Err(ParseError::UnresolvedReference);
        }
        Ok(MapModel { document })
    }

    /// The checked document.
    pub fn document(&self) -> (d: &Document)
        ensures
            *d == self@,
            d.well_formed(),
    {
        proof {
            use_type_invariant(self);
        }
        &self.document
    }
}

} // verus!
