//! The world synthesizer: from the map events of one tick to the batches of
//! entities that replace the old ones.

use vstd::prelude::*;
use bevy::platform::collections::HashMap;
use crate::collider::{collider_of, extract_collider, Hitbox, RigidBodyKind, TiledColliderObject};
use crate::loader::TiledMap;
use crate::model::{Document, Layer, LayerKind, MapType, Object, TileLayer, TilesetLocation};
use crate::platform::{table_entries, table_get, table_insert, table_new, table_pairs};
use crate::scalar::{FloatBits, MAP_SCALE_BITS};
use crate::world::{despawned_all, lemma_despawned_all, Batch, World};

verus! {

/// Where a tile entity is placed.
#[derive(Clone, Copy, Debug, PartialEq, Eq)]
pub enum TilePlacement {
    /// A cell of the render grid; row 0 is the bottom row.
    Cell { x: u32, y: u32 },
    /// An object's position in map pixels, together with the map's extent
    /// in pixels by which the engine divides it.
    Fraction { pixel_x: FloatBits, pixel_y: FloatBits, map_width_px: u64, map_height_px: u64 },
}

/// The physics attributes of a collider-bearing tile.
#[derive(Clone, Copy, Debug, PartialEq, Eq)]
pub struct ColliderSpawn {
    pub marker: TiledColliderObject,
    pub body: RigidBodyKind,
    pub hitbox: Hitbox,
}

/// One tile entity to spawn under a layer root.
#[derive(Clone, Copy, Debug, PartialEq, Eq)]
pub struct TileSpawn {
    pub placement: TilePlacement,
    /// Index of the tile's image within the tileset's texture.
    pub texture_index: u32,
    pub flip_x: bool,
    pub flip_y: bool,
    pub flip_d: bool,
    /// Present on tiles that come from an object layer.
    pub collider: Option<ColliderSpawn>,
}

/// How the renderer chunks and sorts a tilemap.
#[derive(Clone, Copy, Debug, PartialEq, Eq)]
pub struct RenderSettings {
    pub render_chunk_width: u32,
    pub render_chunk_height: u32,
    pub y_sort: bool,
}

impl Default for RenderSettings {
    /// Chunks of 64 by 64 tiles, not sorted by `y`.
    fn default() -> (settings: RenderSettings)
        ensures
            settings == (RenderSettings {
                render_chunk_width: 64,
                render_chunk_height: 64,
                y_sort: false,
            }),
    {
        RenderSettings { render_chunk_width: 64, render_chunk_height: 64, y_sort: false }
    }
}

/// The layer root entity of one batch.
#[derive(Clone, Copy, Debug, PartialEq, Eq)]
pub struct LayerSpawn {
    /// Id of the layer in the document.
    pub layer_id: u32,
    /// Size of the map, in tiles.
    pub size_x: u32,
    pub size_y: u32,
    /// Size of a grid cell, in pixels.
    pub grid_width: u32,
    pub grid_height: u32,
    /// Size of a tile of the tileset, in pixels.
    pub tile_width: u32,
    pub tile_height: u32,
    /// Spacing between the tiles of the tileset, the same on both axes.
    pub spacing: u32,
    /// Handle of the tileset's texture.
    pub texture: usize,
    pub map_type: MapType,
    /// The layer's horizontal offset.
    pub offset_x: FloatBits,
    /// The layer's vertical offset, negated: the render space grows upwards.
    pub offset_y: FloatBits,
    /// The layer's index in the document; layers with a higher one are drawn
    /// in front.
    pub z: usize,
    /// The uniform world scale.
    pub scale: FloatBits,
    pub render_settings: RenderSettings,
}

/// The document row that is drawn in render row `y` of a map `height` rows
/// high: the document counts rows from the top, the render space from the
/// bottom. The same function maps a document row to its render row.
pub open spec fn flipped_row(height: int, y: int) -> int {
    height - 1 - y
}

/// The tile entity for render cell (`x`, `y`), if the document has a tile of
/// tileset `tileset` there.
pub open spec fn cell_spawn(grid: TileLayer, tileset: int, height: int, x: int, y: int) -> Option<
    TileSpawn,
> {
    match grid.spec_tile_at(x, flipped_row(height, y)) {
        Some(t) => if t.tileset_index == tileset {
            Some(
                TileSpawn {
                    placement: TilePlacement::Cell { x: x as u32, y: y as u32 },
                    texture_index: t.id,
                    flip_x: t.flip_h,
                    flip_y: t.flip_v,
                    flip_d: t.flip_d,
                    collider: None,
                },
            )
        } else {
            None
        },
        None => None,
    }
}

/// The tile entities of the first `n` cells of render row `y`.
pub open spec fn row_tiles(grid: TileLayer, tileset: int, height: int, y: int, n: int) -> Seq<
    TileSpawn,
>
    decreases n,
{
    if n <= 0 {
        Seq::empty()
    } else {
        match cell_spawn(grid, tileset, height, n - 1, y) {
            Some(s) => row_tiles(grid, tileset, height, y, n - 1).push(s),
            None => row_tiles(grid, tileset, height, y, n - 1),
        }
    }
}

/// The tile entities of the first `m` render rows of a map `width` by
/// `height` tiles, row by row, each row from left to right.
pub open spec fn grid_tiles_upto(
    grid: TileLayer,
    tileset: int,
    width: int,
    height: int,
    m: int,
) -> Seq<TileSpawn>
    decreases m,
{
    if m <= 0 {
        Seq::empty()
    } else {
        grid_tiles_upto(grid, tileset, width, height, m - 1) + row_tiles(
            grid,
            tileset,
            height,
            m - 1,
            width,
        )
    }
}

/// The tile entities that a bounded tile layer gives for one tileset.
pub open spec fn grid_tiles(document: Document, grid: TileLayer, tileset: int) -> Seq<TileSpawn> {
    grid_tiles_upto(
        grid,
        tileset,
        document.width as int,
        document.height as int,
        document.height as int,
    )
}

/// The collider-bearing tile for an object, if the object shows a tile of
/// tileset `tileset`.
pub open spec fn object_spawn(document: Document, tileset: int, object: Object) -> Option<
    TileSpawn,
> {
    match object.tile {
        Some(t) => if 0 <= tileset < document.tilesets.len() && t.tileset
            == TilesetLocation::OfMap(tileset as usize) {
            let native = document.tilesets[tileset];
            let derived = collider_of(object.properties@, native.tile_width, native.tile_height);
            Some(
                TileSpawn {
                    placement: TilePlacement::Fraction {
                        pixel_x: object.x,
                        pixel_y: object.y,
                        map_width_px: (document.width * document.tile_width) as u64,
                        map_height_px: (document.height * document.tile_height) as u64,
                    },
                    texture_index: t.id,
                    flip_x: t.flip_h,
                    flip_y: t.flip_v,
                    flip_d: t.flip_d,
                    collider: Some(
                        ColliderSpawn {
                            marker: TiledColliderObject,
                            body: derived.0,
                            hitbox: derived.1,
                        },
                    ),
                },
            )
        } else {
            None
        },
        None => None,
    }
}

/// The tiles that the first `n` objects of an object layer give for one
/// tileset, in document order.
pub open spec fn object_tiles(document: Document, tileset: int, objects: Seq<Object>, n: int) -> Seq<
    TileSpawn,
>
    decreases n,
{
    if n <= 0 {
        Seq::empty()
    } else {
        match object_spawn(document, tileset, objects[n - 1]) {
            Some(s) => object_tiles(document, tileset, objects, n - 1).push(s),
            None => object_tiles(document, tileset, objects, n - 1),
        }
    }
}

/// Whether a layer is synthesized: bounded tile layers and object layers
/// are, everything else is skipped.
pub open spec fn drawable(layer: Layer) -> bool {
    layer.kind is Tiles || layer.kind is Objects
}

/// The tile entities of one layer for one tileset.
pub open spec fn layer_tiles(document: Document, tileset: int, layer: Layer) -> Seq<TileSpawn> {
    match layer.kind {
        LayerKind::Tiles(grid) => grid_tiles(document, grid, tileset),
        LayerKind::Objects(objects) => object_tiles(
            document,
            tileset,
            objects@,
            objects@.len() as int,
        ),
        _ => Seq::empty(),
    }
}

/// The layer root for layer `layer` drawn with tileset `tileset`.
pub open spec fn layer_root(
    document: Document,
    tileset: int,
    texture: usize,
    layer: int,
    settings: RenderSettings,
) -> LayerSpawn {
    LayerSpawn {
        layer_id: document.layers[layer].id,
        size_x: document.width,
        size_y: document.height,
        grid_width: document.tile_width,
        grid_height: document.tile_height,
        tile_width: document.tilesets[tileset].tile_width,
        tile_height: document.tilesets[tileset].tile_height,
        spacing: document.tilesets[tileset].spacing,
        texture,
        map_type: document.orientation.spec_map_type(),
        offset_x: document.layers[layer].offset_x,
        offset_y: document.layers[layer].offset_y.spec_negated(),
        z: layer as usize,
        scale: FloatBits { bits: MAP_SCALE_BITS },
        render_settings: settings,
    }
}

/// Gives the tile entities of a bounded tile layer for one tileset: one for
/// each cell of the map whose document cell holds a tile of that tileset,
/// row by row from the bottom render row, each row from left to right.
pub fn synthesize_grid(document: &Document, grid: &TileLayer, tileset: usize) -> (tiles: Vec<
    TileSpawn,
>)
    ensures
        tiles@ == grid_tiles(*document, *grid, tileset as int),
{
    let width = document.width;
    let height = document.height;
    let mut tiles: Vec<TileSpawn> = Vec::new();
    let mut y: u32 = 0;
    while y < height
        invariant
            y <= height,
            width == document.width,
            height == document.height,
            tiles@ == grid_tiles_upto(*grid, tileset as int, width as int, height as int, y as int),
        decreases height - y,
    {
        let ghost before = tiles@;
        let mut x: u32 = 0;
        while x < width
            invariant
                x <= width,
                y < height,
                tiles@ == before + row_tiles(
                    *grid,
                    tileset as int,
                    height as int,
                    y as int,
                    x as int,
                ),
            decreases width - x,
        {
            match grid.tile_at(x, height - 1 - y) {
                Some(t) => {
                    if t.tileset_index == tileset {
                        tiles.push(
                            TileSpawn {
                                placement: TilePlacement::Cell { x, y },
                                texture_index: t.id,
                                flip_x: t.flip_h,
                                flip_y: t.flip_v,
                                flip_d: t.flip_d,
                                collider: None,
                            },
                        );
                    }
                },
                None => {},
            }
            x += 1;
        }
        y += 1;
    }
    tiles
}

/// No object shows a tile of a tileset that the map does not have.
proof fn lemma_object_tiles_of_no_tileset(
    document: Document,
    tileset: int,
    objects: Seq<Object>,
    n: int,
)
    requires
        tileset >= document.tilesets.len(),
    ensures
        object_tiles(document, tileset, objects, n) == Seq::<TileSpawn>::empty(),
    decreases n,
{
    if n > 0 {
        lemma_object_tiles_of_no_tileset(document, tileset, objects, n - 1);
    }
}

/// Gives the collider-bearing tiles of an object layer for one tileset: one
/// for each object that shows a tile of that tileset, in document order.
pub fn synthesize_objects(document: &Document, objects: &Vec<Object>, tileset: usize) -> (tiles:
    Vec<TileSpawn>)
    ensures
        tiles@ == object_tiles(*document, tileset as int, objects@, objects@.len() as int),
{
    if tileset >= document.tilesets.len() {
        proof {
            lemma_object_tiles_of_no_tileset(
                *document,
                tileset as int,
                objects@,
                objects@.len() as int,
            );
        }
        return Vec::new();
    }
    assert(document.width * document.tile_width <= 0xffff_ffff * 0xffff_ffff) by (nonlinear_arith)
        requires
            0 <= document.width <= 0xffff_ffff,
            0 <= document.tile_width <= 0xffff_ffff,
    ;
    assert(document.height * document.tile_height <= 0xffff_ffff * 0xffff_ffff) by (nonlinear_arith)
        requires
            0 <= document.height <= 0xffff_ffff,
            0 <= document.tile_height <= 0xffff_ffff,
    ;
    let map_width_px: u64 = (document.width as u64) * (document.tile_width as u64);
    let map_height_px: u64 = (document.height as u64) * (document.tile_height as u64);
    let native = &document.tilesets[tileset];
    let mut tiles: Vec<TileSpawn> = Vec::new();
    let mut i: usize = 0;
    while i < objects.len()
        invariant
            i <= objects.len(),
            tileset < document.tilesets@.len(),
            *native == document.tilesets@[tileset as int],
            map_width_px == document.width * document.tile_width,
            map_height_px == document.height * document.tile_height,
            tiles@ == object_tiles(*document, tileset as int, objects@, i as int),
        decreases objects.len() - i,
    {
        let object = &objects[i];
        match object.tile {
            Some(t) => {
                let matches = match t.tileset {
                    TilesetLocation::OfMap(index) => index == tileset,
                    TilesetLocation::OfTemplate => false,
                };
                if matches {
                    let (body, hitbox) = extract_collider(
                        &object.properties,
                        native.tile_width,
                        native.tile_height,
                    );
                    tiles.push(
                        TileSpawn {
                            placement: TilePlacement::Fraction {
                                pixel_x: object.x,
                                pixel_y: object.y,
                                map_width_px,
                                map_height_px,
                            },
                            texture_index: t.id,
                            flip_x: t.flip_h,
                            flip_y: t.flip_v,
                            flip_d: t.flip_d,
                            collider: Some(
                                ColliderSpawn { marker: TiledColliderObject, body, hitbox },
                            ),
                        },
                    );
                }
            },
            None => {},
        }
        i += 1;
    }
    tiles
}

/// The batch that one layer gives for one tileset: the layer root and the
/// tiles under it.
pub struct LayerPlan {
    pub tileset_index: usize,
    pub layer_index: usize,
    pub layer: LayerSpawn,
    pub tiles: Seq<TileSpawn>,
}

/// A batch to spawn, with the name that the world gave it.
#[derive(Debug, PartialEq, Eq)]
pub struct LayerBatch {
    /// Name of the batch, and of its layer root.
    pub root: usize,
    pub tileset_index: usize,
    pub layer_index: usize,
    pub layer: LayerSpawn,
    /// The tiles to spawn under the root, in this order.
    pub tiles: Vec<TileSpawn>,
}

impl View for LayerBatch {
    type V = LayerPlan;

    open spec fn view(&self) -> LayerPlan {
        LayerPlan {
            tileset_index: self.tileset_index,
            layer_index: self.layer_index,
            layer: self.layer,
            tiles: self.tiles@,
        }
    }
}

/// The plans of a list of batches.
pub open spec fn plans_of(built: Seq<LayerBatch>) -> Seq<LayerPlan> {
    built.map_values(|b: LayerBatch| b@)
}

/// The batch of layer `layer` for tileset `tileset`.
pub open spec fn layer_plan(
    document: Document,
    tileset: int,
    texture: usize,
    layer: int,
    settings: RenderSettings,
) -> LayerPlan {
    LayerPlan {
        tileset_index: tileset as usize,
        layer_index: layer as usize,
        layer: layer_root(document, tileset, texture, layer, settings),
        tiles: layer_tiles(document, tileset, document.layers[layer]),
    }
}

/// The batches that the first `n` layers give for one tileset, in document
/// order: one for each bounded tile layer and each object layer.
pub open spec fn tileset_plans(
    document: Document,
    tileset: int,
    texture: usize,
    settings: RenderSettings,
    n: int,
) -> Seq<LayerPlan>
    decreases n,
{
    if n <= 0 {
        Seq::empty()
    } else if drawable(document.layers[n - 1]) {
        tileset_plans(document, tileset, texture, settings, n - 1).push(
            layer_plan(document, tileset, texture, n - 1, settings),
        )
    } else {
        tileset_plans(document, tileset, texture, settings, n - 1)
    }
}

/// The batches of a map for its first `n` tilesets, in ascending tileset
/// order. A tileset without a texture gives none.
pub open spec fn map_plans(
    document: Document,
    textures: Map<u32, usize>,
    settings: RenderSettings,
    n: int,
) -> Seq<LayerPlan>
    decreases n,
{
    if n <= 0 {
        Seq::empty()
    } else if textures.contains_key((n - 1) as u32) {
        map_plans(document, textures, settings, n - 1) + tileset_plans(
            document,
            n - 1,
            textures[(n - 1) as u32],
            settings,
            document.layers.len() as int,
        )
    } else {
        map_plans(document, textures, settings, n - 1)
    }
}

/// Every batch of a loaded map.
pub open spec fn asset_plans(asset: TiledMap, settings: RenderSettings) -> Seq<LayerPlan> {
    map_plans(
        asset.map@,
        table_entries(asset.tilemap_textures),
        settings,
        asset.map@.tilesets.len() as int,
    )
}

/// The roots on record after the first `n` batches were spawned, when the
/// first of them is named `base` and each later one by the next number. A
/// later batch of the same layer takes the place of an earlier one.
pub open spec fn recorded(plans: Seq<LayerPlan>, base: int, n: int) -> Map<u32, usize>
    decreases n,
{
    if n <= 0 {
        Map::empty()
    } else {
        recorded(plans, base, n - 1).insert(
            plans[n - 1].layer_index as u32,
            (base + n - 1) as usize,
        )
    }
}

/// The batches that spawning `plans` adds to the world.
pub open spec fn spawned(plans: Seq<LayerPlan>) -> Seq<Batch> {
    plans.map_values(|p: LayerPlan| Batch { live: true, tiles: p.tiles.len() as usize })
}

/// The layer roots of one map instance, by layer index.
#[derive(Debug)]
pub struct TiledLayersStorage {
    pub storage: HashMap<u32, usize>,
}

impl TiledLayersStorage {
    /// The recorded roots.
    pub open spec fn roots(self) -> Map<u32, usize> {
        table_entries(self.storage)
    }

    /// A storage without roots.
    pub fn new() -> (storage: TiledLayersStorage)
        ensures
            storage.roots() =~= Map::empty(),
    {
        TiledLayersStorage { storage: table_new() }
    }

    /// The root recorded for a layer.
    pub fn root_of(&self, layer_index: u32) -> (root: Option<usize>)
        ensures
            root == if self.roots().contains_key(layer_index) {
                Some(self.roots()[layer_index])
            } else {
                None
            },
    {
        table_get(&self.storage, layer_index)
    }
}

impl Default for TiledLayersStorage {
    fn default() -> (storage: TiledLayersStorage)
        ensures
            storage.roots() =~= Map::empty(),
    {
        TiledLayersStorage::new()
    }
}

/// The teardown and rebuild of one map instance.
#[derive(Debug, PartialEq, Eq)]
pub struct Rebuild {
    /// Index of the instance among the map instances.
    pub instance: usize,
    /// The recorded layers that were torn down, each with its root, in the
    /// order in which the storage was walked.
    pub torn_down: Vec<(u32, usize)>,
    /// The batches to spawn, in order.
    pub built: Vec<LayerBatch>,
}

/// The world after a rebuild: the torn-down roots are gone, the new batches
/// follow the old ones.
pub open spec fn world_after(before: Seq<Batch>, rebuild: Rebuild) -> Seq<Batch> {
    despawned_all(before, rebuild.torn_down@, rebuild.torn_down@.len() as int) + spawned(
        plans_of(rebuild.built@),
    )
}

/// What one rebuild does, given the world before it, the roots recorded for
/// the instance before and after, and the instance's map.
pub open spec fn rebuilt(
    before: Seq<Batch>,
    old_roots: Map<u32, usize>,
    asset: TiledMap,
    settings: RenderSettings,
    rebuild: Rebuild,
    new_roots: Map<u32, usize>,
) -> bool {
    let plans = asset_plans(asset, settings);
    &&& rebuild.torn_down@.no_duplicates()
    &&& forall|p: (u32, usize)|
        rebuild.torn_down@.contains(p) <==> (old_roots.contains_key(p.0) && old_roots[p.0] == p.1)
    &&& plans_of(rebuild.built@) == plans
    &&& forall|k: int|
        0 <= k < rebuild.built@.len() ==> (#[trigger] rebuild.built@[k]).root == before.len() + k
    &&& new_roots == recorded(plans, before.len() as int, plans.len() as int)
}

/// Tears down what is recorded for a map instance and builds its batches
/// anew from `asset`.
///
/// Every recorded root is despawned with everything under it, and the
/// record is emptied. Then, for each tileset with a texture in ascending
/// order and each layer in document order, a batch is spawned and recorded
/// under the layer's index.
pub fn rebuild_instance(
    world: &mut World,
    storage: &mut TiledLayersStorage,
    asset: &TiledMap,
    settings: RenderSettings,
    instance: usize,
) -> (rebuild: Rebuild)
    ensures
        rebuild.instance == instance,
        rebuilt(
            old(world)@,
            old(storage).roots(),
            *asset,
            settings,
            rebuild,
            final(storage).roots(),
        ),
        final(world)@ == world_after(old(world)@, rebuild),
{
    let document = asset.map.document();
    let torn_down = table_pairs(&storage.storage);
    let mut k: usize = 0;
    while k < torn_down.len()
        invariant
            k <= torn_down.len(),
            world@ == despawned_all(old(world)@, torn_down@, k as int),
        decreases torn_down.len() - k,
    {
        world.despawn_batch(torn_down[k].1);
        k += 1;
    }
    storage.storage = table_new();
    let base = world.spawned();
    proof {
        lemma_despawned_all(old(world)@, torn_down@, torn_down@.len() as int);
    }
    let ghost cleared = world@;
    let ghost textures = table_entries(asset.tilemap_textures);
    let mut built: Vec<LayerBatch> = Vec::new();
    let mut tileset: usize = 0;
    while tileset < document.tilesets.len()
        invariant
            tileset <= document.tilesets@.len(),
            document.well_formed(),
            *document == asset.map@,
            textures == table_entries(asset.tilemap_textures),
            base == old(world)@.len(),
            cleared.len() == base,
            plans_of(built@) == map_plans(*document, textures, settings, tileset as int),
            forall|j: int| 0 <= j < built@.len() ==> (#[trigger] built@[j]).root == base + j,
            world@ == cleared + spawned(plans_of(built@)),
            storage.roots() == recorded(plans_of(built@), base as int, built@.len() as int),
        decreases document.tilesets@.len() - tileset,
    {
        match table_get(&asset.tilemap_textures, tileset as u32) {
            Some(texture) => {
                let ghost earlier = plans_of(built@);
                let mut layer: usize = 0;
                while layer < document.layers.len()
                    invariant
                        layer <= document.layers@.len(),
                        tileset < document.tilesets@.len(),
                        document.well_formed(),
                        *document == asset.map@,
                        base == old(world)@.len(),
                        cleared.len() == base,
                        plans_of(built@) == earlier + tileset_plans(
                            *document,
                            tileset as int,
                            texture,
                            settings,
                            layer as int,
                        ),
                        forall|j: int|
                            0 <= j < built@.len() ==> (#[trigger] built@[j]).root == base + j,
                        world@ == cleared + spawned(plans_of(built@)),
                        storage.roots() == recorded(
                            plans_of(built@),
                            base as int,
                            built@.len() as int,
                        ),
                    decreases document.layers@.len() - layer,
                {
                    let tiles = match &document.layers[layer].kind {
                        LayerKind::Tiles(grid) => Some(synthesize_grid(document, grid, tileset)),
                        LayerKind::Objects(objects) => Some(
                            synthesize_objects(document, objects, tileset),
                        ),
                        _ => None,
                    };
                    match tiles {
                        Some(tiles) => {
                            let spawn = LayerSpawn {
                                layer_id: document.layers[layer].id,
                                size_x: document.width,
                                size_y: document.height,
                                grid_width: document.tile_width,
                                grid_height: document.tile_height,
                                tile_width: document.tilesets[tileset].tile_width,
                                tile_height: document.tilesets[tileset].tile_height,
                                spacing: document.tilesets[tileset].spacing,
                                texture,
                                map_type: document.orientation.map_type(),
                                offset_x: document.layers[layer].offset_x,
                                offset_y: document.layers[layer].offset_y.negated(),
                                z: layer,
                                scale: FloatBits { bits: MAP_SCALE_BITS },
                                render_settings: settings,
                            };
                            let ghost plans_before = plans_of(built@);
                            let ghost plan = layer_plan(
                                *document,
                                tileset as int,
                                texture,
                                layer as int,
                                settings,
                            );
                            let root = world.spawn_batch(tiles.len());
                            table_insert(&mut storage.storage, layer as u32, root);
                            built.push(
                                LayerBatch {
                                    root,
                                    tileset_index: tileset,
                                    layer_index: layer,
                                    layer: spawn,
                                    tiles,
                                },
                            );
                            proof {
                                assert(plans_of(built@) =~= plans_before.push(plan));
                                assert(plans_before.push(plan) =~= earlier + tileset_plans(
                                    *document,
                                    tileset as int,
                                    texture,
                                    settings,
                                    layer as int + 1,
                                ));
                                assert(cleared + spawned(plans_of(built@)) =~= (cleared + spawned(
                                    plans_before,
                                )).push(Batch { live: true, tiles: plan.tiles.len() as usize }));
                                lemma_recorded_agree(
                                    plans_before,
                                    plans_of(built@),
                                    base as int,
                                    plans_before.len() as int,
                                );
                            }
                        },
                        None => {},
                    }
                    layer += 1;
                }
            },
            None => {},
        }
        tileset += 1;
    }
    Rebuild { instance, torn_down, built }
}

/// The record of a prefix only depends on that prefix.
pub proof fn lemma_recorded_agree(a: Seq<LayerPlan>, b: Seq<LayerPlan>, base: int, n: int)
    requires
        0 <= n <= a.len(),
        n <= b.len(),
        forall|i: int| 0 <= i < n ==> a[i].layer_index == b[i].layer_index,
    ensures
        recorded(a, base, n) == recorded(b, base, n),
    decreases n,
{
    if n > 0 {
        lemma_recorded_agree(a, b, base, n - 1);
    }
}

/// A reference to a loaded map, by the identity of the asset.
#[derive(Clone, Copy, Debug, Default, PartialEq, Eq, Structural)]
pub struct TiledMapHandle(pub u64);

/// One map instance in the world: which map it shows, the layer roots it
/// owns, and how it is rendered.
#[derive(Debug)]
pub struct TiledMapBundle {
    pub tiled_map: TiledMapHandle,
    pub storage: TiledLayersStorage,
    pub render_settings: RenderSettings,
}

impl Default for TiledMapBundle {
    /// An instance that shows the map 0 and owns no layer root yet.
    fn default() -> (bundle: TiledMapBundle)
        ensures
            bundle.tiled_map == TiledMapHandle(0),
            bundle.storage.roots() =~= Map::empty(),
            bundle.render_settings == (RenderSettings {
                render_chunk_width: 64,
                render_chunk_height: 64,
                y_sort: false,
            }),
    {
        TiledMapBundle {
            tiled_map: TiledMapHandle(0),
            storage: TiledLayersStorage::new(),
            render_settings: RenderSettings::default(),
        }
    }
}

/// What happened to a map asset since the last tick.
#[derive(Clone, Copy, Debug, PartialEq, Eq, Structural)]
pub enum MapEvent {
    Added { id: u64 },
    Modified { id: u64 },
    Removed { id: u64 },
    Unused { id: u64 },
    LoadedWithDependencies { id: u64 },
}

/// A loaded map under its identity.
#[derive(Debug)]
pub struct MapAsset {
    pub id: u64,
    pub map: TiledMap,
}

/// Whether an event marks the map `id` as changed: it was added or
/// modified.
pub open spec fn marks_changed(event: MapEvent, id: u64) -> bool {
    event == (MapEvent::Added { id }) || event == (MapEvent::Modified { id })
}

/// The identities that changed this tick: those of the maps that an event
/// reports as added or modified, and those that a new instance shows.
pub open spec fn changed_ids(events: Seq<MapEvent>, new_maps: Seq<TiledMapHandle>) -> Set<u64> {
    Set::new(
        |id: u64|
            event_marks(events, events.len() as int, id) || instance_marks(
                new_maps,
                new_maps.len() as int,
                id,
            ),
    )
}

/// The index of the first asset with the identity `id`.
pub open spec fn asset_index(maps: Seq<MapAsset>, id: u64) -> Option<int>
    decreases maps.len(),
{
    if maps.len() == 0 {
        None
    } else if maps[0].id == id {
        Some(0)
    } else {
        match asset_index(maps.drop_first(), id) {
            Some(i) => Some(i + 1),
            None => None,
        }
    }
}

/// `asset_index` returns the least index with the identity, and `None`
/// exactly when no asset has it.
pub proof fn lemma_asset_index(maps: Seq<MapAsset>, id: u64)
    ensures
        match asset_index(maps, id) {
            Some(i) => 0 <= i < maps.len() && maps[i].id == id && forall|j: int|
                0 <= j < i ==> maps[j].id != id,
            None => forall|j: int| 0 <= j < maps.len() ==> maps[j].id != id,
        },
    decreases maps.len(),
{
    if maps.len() != 0 && maps[0].id != id {
        let rest = maps.drop_first();
        lemma_asset_index(rest, id);
        match asset_index(rest, id) {
            Some(i) => {
                assert forall|j: int| 0 <= j < i + 1 implies maps[j].id != id by {
                    if j > 0 {
                        assert(maps[j] == rest[j - 1]);
                    }
                }
            },
            None => {
                assert forall|j: int| 0 <= j < maps.len() implies maps[j].id != id by {
                    if j > 0 {
                        assert(maps[j] == rest[j - 1]);
                    }
                }
            },
        }
    }
}

/// Whether an instance is rebuilt this tick: its map changed and is loaded.
pub open spec fn targeted(changed: Set<u64>, maps: Seq<MapAsset>, handle: TiledMapHandle) -> bool {
    changed.contains(handle.0) && asset_index(maps, handle.0) is Some
}

/// The instances among the first `n` that are rebuilt, in ascending order.
pub open spec fn targets(
    changed: Set<u64>,
    maps: Seq<MapAsset>,
    instances: Seq<TiledMapBundle>,
    n: int,
) -> Seq<int>
    decreases n,
{
    if n <= 0 {
        Seq::empty()
    } else if targeted(changed, maps, instances[n - 1].tiled_map) {
        targets(changed, maps, instances, n - 1).push(n - 1)
    } else {
        targets(changed, maps, instances, n - 1)
    }
}

/// The world after the first `n` rebuilds.
pub open spec fn world_after_all(initial: Seq<Batch>, rebuilds: Seq<Rebuild>, n: int) -> Seq<Batch>
    decreases n,
{
    if n <= 0 {
        initial
    } else {
        world_after(world_after_all(initial, rebuilds, n - 1), rebuilds[n - 1])
    }
}

/// The rebuilt instances are among the first `n`, each at most once, and
/// the list depends on nothing but the instances' handles.
pub proof fn lemma_targets(
    changed: Set<u64>,
    maps: Seq<MapAsset>,
    a: Seq<TiledMapBundle>,
    b: Seq<TiledMapBundle>,
    n: int,
)
    requires
        0 <= n <= a.len(),
        n <= b.len(),
        forall|i: int| 0 <= i < n ==> a[i].tiled_map == b[i].tiled_map,
    ensures
        targets(changed, maps, a, n) == targets(changed, maps, b, n),
        targets(changed, maps, a, n).len() <= n,
        forall|k: int|
            0 <= k < targets(changed, maps, a, n).len() ==> 0 <= #[trigger] targets(
                changed,
                maps,
                a,
                n,
            )[k] < n && targeted(changed, maps, a[targets(changed, maps, a, n)[k]].tiled_map),
        forall|k: int, l: int|
            0 <= k < l < targets(changed, maps, a, n).len() ==> targets(changed, maps, a, n)[k]
                < targets(changed, maps, a, n)[l],
    decreases n,
{
    if n > 0 {
        lemma_targets(changed, maps, a, b, n - 1);
    }
}

/// The world after a prefix of the rebuilds only depends on that prefix.
pub proof fn lemma_world_after_all_agree(
    initial: Seq<Batch>,
    a: Seq<Rebuild>,
    b: Seq<Rebuild>,
    n: int,
)
    requires
        0 <= n <= a.len(),
        n <= b.len(),
        forall|i: int| 0 <= i < n ==> a[i] == b[i],
    ensures
        world_after_all(initial, a, n) == world_after_all(initial, b, n),
    decreases n,
{
    if n > 0 {
        lemma_world_after_all_agree(initial, a, b, n - 1);
    }
}

/// Whether one of the first `n` events marks the map `id` as changed.
pub open spec fn event_marks(events: Seq<MapEvent>, n: int, id: u64) -> bool {
    exists|k: int| 0 <= k < n && marks_changed(#[trigger] events[k], id)
}

/// Whether one of the first `n` new instances shows the map `id`.
pub open spec fn instance_marks(new_maps: Seq<TiledMapHandle>, n: int, id: u64) -> bool {
    exists|k: int| 0 <= k < n && (#[trigger] new_maps[k]).0 == id
}

proof fn lemma_event_marks_step(events: Seq<MapEvent>, n: int, id: u64)
    requires
        0 <= n < events.len(),
    ensures
        event_marks(events, n + 1, id) <==> (event_marks(events, n, id) || marks_changed(
            events[n],
            id,
        )),
{
    if event_marks(events, n + 1, id) {
        let k = choose|k: int| 0 <= k < n + 1 && marks_changed(#[trigger] events[k], id);
        if k < n {
            assert(marks_changed(events[k], id));
        }
    }
    if event_marks(events, n, id) {
        let k = choose|k: int| 0 <= k < n && marks_changed(#[trigger] events[k], id);
        assert(marks_changed(events[k], id));
    }
    if marks_changed(events[n], id) {
    }
}

proof fn lemma_instance_marks_step(new_maps: Seq<TiledMapHandle>, n: int, id: u64)
    requires
        0 <= n < new_maps.len(),
    ensures
        instance_marks(new_maps, n + 1, id) <==> (instance_marks(new_maps, n, id) || new_maps[n].0
            == id),
{
    if instance_marks(new_maps, n + 1, id) {
        let k = choose|k: int| 0 <= k < n + 1 && (#[trigger] new_maps[k]).0 == id;
        if k < n {
            assert(new_maps[k].0 == id);
        }
    }
    if instance_marks(new_maps, n, id) {
        let k = choose|k: int| 0 <= k < n && (#[trigger] new_maps[k]).0 == id;
        assert(new_maps[k].0 == id);
    }
    if new_maps[n].0 == id {
    }
}

/// What a sequence contains after a push.
proof fn lemma_push_contains(s: Seq<u64>, v: u64, id: u64)
    ensures
        s.push(v).contains(id) <==> (s.contains(id) || id == v),
{
    if s.push(v).contains(id) {
        let k = choose|k: int| 0 <= k < s.push(v).len() && s.push(v)[k] == id;
        if k < s.len() {
            assert(s[k] == id);
        }
    }
    if s.contains(id) {
        let k = choose|k: int| 0 <= k < s.len() && s[k] == id;
        assert(s.push(v)[k] == id);
    }
    if id == v {
        assert(s.push(v)[s.len() as int] == id);
    }
}

fn collect_changed(map_events: &Vec<MapEvent>, new_maps: &Vec<TiledMapHandle>) -> (changed: Vec<
    u64,
>)
    ensures
        forall|id: u64| changed@.contains(id) <==> changed_ids(map_events@, new_maps@).contains(id),
{
    let mut changed: Vec<u64> = Vec::new();
    let mut i: usize = 0;
    while i < map_events.len()
        invariant
            i <= map_events.len(),
            forall|id: u64| changed@.contains(id) <==> event_marks(map_events@, i as int, id),
        decreases map_events.len() - i,
    {
        let ghost before = changed@;
        let marked: Option<u64> = match map_events[i] {
            MapEvent::Added { id } => Some(id),
            MapEvent::Modified { id } => Some(id),
            _ => None,
        };
        match marked {
            Some(v) => {
                changed.push(v);
                proof {
                    assert forall|id: u64| changed@.contains(id) <==> event_marks(
                        map_events@,
                        i as int + 1,
                        id,
                    ) by {
                        lemma_push_contains(before, v, id);
                        lemma_event_marks_step(map_events@, i as int, id);
                    }
                }
            },
            None => {
                proof {
                    assert forall|id: u64| changed@.contains(id) <==> event_marks(
                        map_events@,
                        i as int + 1,
                        id,
                    ) by {
                        lemma_event_marks_step(map_events@, i as int, id);
                    }
                }
            },
        }
        i += 1;
    }
    let mut j: usize = 0;
    while j < new_maps.len()
        invariant
            j <= new_maps.len(),
            forall|id: u64|
                changed@.contains(id) <==> (event_marks(
                    map_events@,
                    map_events@.len() as int,
                    id,
                ) || instance_marks(new_maps@, j as int, id)),
        decreases new_maps.len() - j,
    {
        let ghost before = changed@;
        let v = new_maps[j].0;
        changed.push(v);
        proof {
            assert forall|id: u64|
                changed@.contains(id) <==> (event_marks(
                    map_events@,
                    map_events@.len() as int,
                    id,
                ) || instance_marks(new_maps@, j as int + 1, id)) by {
                lemma_push_contains(before, v, id);
                lemma_instance_marks_step(new_maps@, j as int, id);
            }
        }
        j += 1;
    }
    changed
}

fn is_changed(changed: &Vec<u64>, id: u64) -> (b: bool)
    ensures
        b == changed@.contains(id),
{
    let mut i: usize = 0;
    while i < changed.len()
        invariant
            i <= changed.len(),
            forall|k: int| 0 <= k < i ==> changed@[k] != id,
        decreases changed.len() - i,
    {
        if changed[i] == id {
            return true;
        }
        i += 1;
    }
    false
}

/// Looks a loaded map up by its identity.
pub fn find_asset(maps: &Vec<MapAsset>, id: u64) -> (found: Option<usize>)
    ensures
        match found {
            Some(i) => i < maps@.len() && asset_index(maps@, id) == Some(i as int),
            None => asset_index(maps@, id) is None,
        },
{
    let mut i: usize = 0;
    while i < maps.len()
        invariant
            i <= maps.len(),
            forall|j: int| 0 <= j < i ==> maps@[j].id != id,
        decreases maps.len() - i,
    {
        if maps[i].id == id {
            proof {
                lemma_asset_index(maps@, id);
            }
            return Some(i);
        }
        i += 1;
    }
    proof {
        lemma_asset_index(maps@, id);
    }
    None
}

/// What a tick does: which instances are rebuilt, what each rebuild tears
/// down, builds and records, and what the world is afterwards.
pub open spec fn processed(
    before: Seq<Batch>,
    map_events: Seq<MapEvent>,
    maps: Seq<MapAsset>,
    old_instances: Seq<TiledMapBundle>,
    new_maps: Seq<TiledMapHandle>,
    rebuilds: Seq<Rebuild>,
    after: Seq<Batch>,
    new_instances: Seq<TiledMapBundle>,
    n: int,
) -> bool {
    let changed = changed_ids(map_events, new_maps);
    let rebuilt_instances = targets(changed, maps, old_instances, n);
    &&& new_instances.len() == old_instances.len()
    &&& forall|i: int|
        0 <= i < old_instances.len() ==> (#[trigger] new_instances[i]).tiled_map
            == old_instances[i].tiled_map && new_instances[i].render_settings
            == old_instances[i].render_settings
    &&& forall|i: int|
        0 <= i < old_instances.len() && !(i < n && targeted(
            changed,
            maps,
            old_instances[i].tiled_map,
        )) ==> #[trigger] new_instances[i] == old_instances[i]
    &&& rebuilds.len() == rebuilt_instances.len()
    &&& forall|k: int|
        0 <= k < rebuilds.len() ==> (#[trigger] rebuilds[k]).instance == rebuilt_instances[k]
            && rebuilt(
            world_after_all(before, rebuilds, k),
            old_instances[rebuilt_instances[k]].storage.roots(),
            maps[asset_index(maps, old_instances[rebuilt_instances[k]].tiled_map.0).unwrap()].map,
            old_instances[rebuilt_instances[k]].render_settings,
            rebuilds[k],
            new_instances[rebuilt_instances[k]].storage.roots(),
        )
    &&& after == world_after_all(before, rebuilds, rebuilds.len() as int)
}

/// A tick that has looked at `n` instances has looked at `n + 1` once it
/// passed over the next one, which is not rebuilt.
proof fn lemma_processed_skip(
    before: Seq<Batch>,
    map_events: Seq<MapEvent>,
    maps: Seq<MapAsset>,
    old_instances: Seq<TiledMapBundle>,
    new_maps: Seq<TiledMapHandle>,
    rebuilds: Seq<Rebuild>,
    after: Seq<Batch>,
    new_instances: Seq<TiledMapBundle>,
    n: int,
)
    requires
        0 <= n < old_instances.len(),
        processed(
            before,
            map_events,
            maps,
            old_instances,
            new_maps,
            rebuilds,
            after,
            new_instances,
            n,
        ),
        !targeted(changed_ids(map_events, new_maps), maps, old_instances[n].tiled_map),
    ensures
        processed(
            before,
            map_events,
            maps,
            old_instances,
            new_maps,
            rebuilds,
            after,
            new_instances,
            n + 1,
        ),
{
}

/// A tick that has looked at `n` instances has looked at `n + 1` once it
/// rebuilt the next one.
#[verifier::rlimit(40)]
proof fn lemma_processed_rebuild(
    before: Seq<Batch>,
    map_events: Seq<MapEvent>,
    maps: Seq<MapAsset>,
    old_instances: Seq<TiledMapBundle>,
    new_maps: Seq<TiledMapHandle>,
    rebuilds: Seq<Rebuild>,
    world: Seq<Batch>,
    instances: Seq<TiledMapBundle>,
    n: int,
    rebuild: Rebuild,
    world_then: Seq<Batch>,
    instances_then: Seq<TiledMapBundle>,
)
    requires
        0 <= n < old_instances.len(),
        processed(
            before,
            map_events,
            maps,
            old_instances,
            new_maps,
            rebuilds,
            world,
            instances,
            n,
        ),
        targeted(changed_ids(map_events, new_maps), maps, old_instances[n].tiled_map),
        rebuild.instance == n,
        rebuilt(
            world,
            old_instances[n].storage.roots(),
            maps[asset_index(maps, old_instances[n].tiled_map.0).unwrap()].map,
            old_instances[n].render_settings,
            rebuild,
            instances_then[n].storage.roots(),
        ),
        world_then == world_after(world, rebuild),
        instances_then.len() == instances.len(),
        forall|i: int| 0 <= i < instances.len() && i != n ==> instances_then[i] == instances[i],
        instances_then[n].tiled_map == old_instances[n].tiled_map,
        instances_then[n].render_settings == old_instances[n].render_settings,
    ensures
        processed(
            before,
            map_events,
            maps,
            old_instances,
            new_maps,
            rebuilds.push(rebuild),
            world_then,
            instances_then,
            n + 1,
        ),
{
    let changed = changed_ids(map_events, new_maps);
    let earlier = targets(changed, maps, old_instances, n);
    let now = targets(changed, maps, old_instances, n + 1);
    let all = rebuilds.push(rebuild);
    lemma_targets(changed, maps, old_instances, old_instances, n);
    assert(now == earlier.push(n));
    assert forall|k: int| 0 <= k <= rebuilds.len() implies world_after_all(before, all, k)
        == world_after_all(before, rebuilds, k) by {
        lemma_world_after_all_agree(before, all, rebuilds, k);
    }
    assert(world_then == world_after_all(before, all, all.len() as int));
    assert forall|k: int| 0 <= k < all.len() implies (#[trigger] all[k]).instance == now[k]
        && rebuilt(
        world_after_all(before, all, k),
        old_instances[now[k]].storage.roots(),
        maps[asset_index(maps, old_instances[now[k]].tiled_map.0).unwrap()].map,
        old_instances[now[k]].render_settings,
        all[k],
        instances_then[now[k]].storage.roots(),
    ) by {
        if k < rebuilds.len() {
            assert(all[k] == rebuilds[k]);
            assert(now[k] == earlier[k]);
            assert(earlier[k] < n);
            assert(instances_then[earlier[k]] == instances[earlier[k]]);
        } else {
            assert(now[k] == n);
            assert(world_after_all(before, all, k) == world);
        }
    }
}

/// Reacts to the map events of one tick.
///
/// An instance is rebuilt when its map is loaded and either an event
/// reports the map as added or modified or one of the new instances shows
/// it. Each such instance is rebuilt once, in ascending instance order,
/// however many events name its map: everything recorded for it is torn
/// down and its batches are built anew. Other events, and instances whose
/// map did not change, leave the world untouched.
///
/// The returned rebuilds are what the engine has to replay.
pub fn process_loaded_maps(
    world: &mut World,
    map_events: &Vec<MapEvent>,
    maps: &Vec<MapAsset>,
    map_query: &mut Vec<TiledMapBundle>,
    new_maps: &Vec<TiledMapHandle>,
) -> (rebuilds: Vec<Rebuild>)
    ensures
        processed(
            old(world)@,
            map_events@,
            maps@,
            old(map_query)@,
            new_maps@,
            rebuilds@,
            final(world)@,
            final(map_query)@,
            old(map_query)@.len() as int,
        ),
{
    let changed = collect_changed(map_events, new_maps);
    let mut rebuilds: Vec<Rebuild> = Vec::new();
    let mut i: usize = 0;
    while i < map_query.len()
        invariant
            i <= map_query.len(),
            map_query@.len() == old(map_query)@.len(),
            forall|id: u64|
                changed@.contains(id) <==> changed_ids(map_events@, new_maps@).contains(id),
            processed(
                old(world)@,
                map_events@,
                maps@,
                old(map_query)@,
                new_maps@,
                rebuilds@,
                world@,
                map_query@,
                i as int,
            ),
        decreases map_query.len() - i,
    {
        let id = map_query[i].tiled_map.0;
        let ghost rebuilds_before = rebuilds@;
        let ghost instances_before = map_query@;
        let ghost world_before = world@;
        let found = if is_changed(&changed, id) {
            find_asset(maps, id)
        } else {
            None
        };
        match found {
            Some(found) => {
                let settings = map_query[i].render_settings;
                let rebuild = rebuild_instance(
                    world,
                    &mut map_query[i].storage,
                    &maps[found].map,
                    settings,
                    i,
                );
                proof {
                    lemma_processed_rebuild(
                        old(world)@,
                        map_events@,
                        maps@,
                        old(map_query)@,
                        new_maps@,
                        rebuilds_before,
                        world_before,
                        instances_before,
                        i as int,
                        rebuild,
                        world@,
                        map_query@,
                    );
                }
                rebuilds.push(rebuild);
            },
            None => {
                proof {
                    lemma_processed_skip(
                        old(world)@,
                        map_events@,
                        maps@,
                        old(map_query)@,
                        new_maps@,
                        rebuilds_before,
                        world_before,
                        instances_before,
                        i as int,
                    );
                }
            },
        }
        i += 1;
    }
    rebuilds
}

} // verus!
