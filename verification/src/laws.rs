//! Laws of the synthesizer, stated over the functions that define it.

use vstd::prelude::*;
use crate::loader::{lemma_texture_map_domain, skip_reason, texture_map, TiledMap};
use crate::model::{Document, Layer, TileLayer, TileReference};
use crate::platform::table_entries;
use crate::synth::{
    asset_index, asset_plans, cell_spawn, changed_ids, drawable, event_marks, flipped_row,
    grid_tiles, grid_tiles_upto, layer_plan, lemma_targets, map_plans, marks_changed, plans_of,
    processed, rebuilt, recorded, row_tiles, spawned, targeted, targets, tileset_plans, world_after,
    LayerPlan, MapAsset, MapEvent, Rebuild, RenderSettings, TilePlacement, TileSpawn,
    TiledMapBundle, TiledMapHandle,
};
use crate::world::{
    despawned_all, entities_upto, entity_count, lemma_despawned_all, lemma_entities_upto_agree,
    lemma_entity_count_push, Batch,
};

verus! {

/// The number of tiles in a list that are placed in render cell (`x`, `y`).
pub open spec fn tiles_at(tiles: Seq<TileSpawn>, x: u32, y: u32) -> nat
    decreases tiles.len(),
{
    if tiles.len() == 0 {
        0
    } else {
        tiles_at(tiles.drop_last(), x, y) + if tiles.last().placement == (TilePlacement::Cell {
            x,
            y,
        }) {
            1nat
        } else {
            0nat
        }
    }
}

proof fn lemma_tiles_at_push(tiles: Seq<TileSpawn>, tile: TileSpawn, x: u32, y: u32)
    ensures
        tiles_at(tiles.push(tile), x, y) == tiles_at(tiles, x, y) + if tile.placement == (
        TilePlacement::Cell { x, y }) {
            1nat
        } else {
            0nat
        },
{
    assert(tiles.push(tile).drop_last() =~= tiles);
}

proof fn lemma_tiles_at_add(a: Seq<TileSpawn>, b: Seq<TileSpawn>, x: u32, y: u32)
    ensures
        tiles_at(a + b, x, y) == tiles_at(a, x, y) + tiles_at(b, x, y),
    decreases b.len(),
{
    if b.len() == 0 {
        assert(a + b =~= a);
    } else {
        assert((a + b).drop_last() =~= a + b.drop_last());
        lemma_tiles_at_add(a, b.drop_last(), x, y);
    }
}

proof fn lemma_row_tiles_at(
    grid: TileLayer,
    tileset: int,
    height: int,
    row: int,
    n: int,
    x: u32,
    y: u32,
)
    requires
        0 <= n <= u32::MAX,
        0 <= row <= u32::MAX,
    ensures
        tiles_at(row_tiles(grid, tileset, height, row, n), x, y) == if y == row && x < n
            && cell_spawn(grid, tileset, height, x as int, row) is Some {
            1nat
        } else {
            0nat
        },
    decreases n,
{
    if n > 0 {
        lemma_row_tiles_at(grid, tileset, height, row, n - 1, x, y);
        match cell_spawn(grid, tileset, height, n - 1, row) {
            Some(s) => {
                lemma_tiles_at_push(row_tiles(grid, tileset, height, row, n - 1), s, x, y);
            },
            None => {},
        }
    }
}

proof fn lemma_grid_tiles_at(
    grid: TileLayer,
    tileset: int,
    width: int,
    height: int,
    m: int,
    x: u32,
    y: u32,
)
    requires
        0 <= m <= u32::MAX,
        0 <= width <= u32::MAX,
    ensures
        tiles_at(grid_tiles_upto(grid, tileset, width, height, m), x, y) == if y < m && x < width
            && cell_spawn(grid, tileset, height, x as int, y as int) is Some {
            1nat
        } else {
            0nat
        },
    decreases m,
{
    if m > 0 {
        lemma_grid_tiles_at(grid, tileset, width, height, m - 1, x, y);
        lemma_row_tiles_at(grid, tileset, height, m - 1, width, x, y);
        lemma_tiles_at_add(
            grid_tiles_upto(grid, tileset, width, height, m - 1),
            row_tiles(grid, tileset, height, m - 1, width),
            x,
            y,
        );
    }
}

proof fn lemma_row_tiles_members(grid: TileLayer, tileset: int, height: int, row: int, n: int)
    requires
        0 <= n <= u32::MAX,
        0 <= row <= u32::MAX,
    ensures
        forall|i: int|
            0 <= i < row_tiles(grid, tileset, height, row, n).len() ==> {
                let tile = #[trigger] row_tiles(grid, tileset, height, row, n)[i];
                tile.placement matches TilePlacement::Cell { x, y } && x < n && y == row
                    && cell_spawn(grid, tileset, height, x as int, y as int) == Some(tile)
            },
    decreases n,
{
    if n > 0 {
        lemma_row_tiles_members(grid, tileset, height, row, n - 1);
    }
}

proof fn lemma_grid_tiles_upto_members(
    grid: TileLayer,
    tileset: int,
    width: int,
    height: int,
    m: int,
)
    requires
        0 <= m <= u32::MAX,
        0 <= width <= u32::MAX,
    ensures
        forall|i: int|
            0 <= i < grid_tiles_upto(grid, tileset, width, height, m).len() ==> {
                let tile = #[trigger] grid_tiles_upto(grid, tileset, width, height, m)[i];
                tile.placement matches TilePlacement::Cell { x, y } && x < width && y < m
                    && cell_spawn(grid, tileset, height, x as int, y as int) == Some(tile)
            },
    decreases m,
{
    if m > 0 {
        lemma_grid_tiles_upto_members(grid, tileset, width, height, m - 1);
        lemma_row_tiles_members(grid, tileset, height, m - 1, width);
    }
}

/// Flipping a row twice gives the row back, and a row of the map stays a
/// row of the map.
pub proof fn lemma_flipped_row_round_trip(height: int, y: int)
    ensures
        flipped_row(height, flipped_row(height, y)) == y,
        0 <= y < height ==> 0 <= flipped_row(height, y) < height,
{
}

/// Every occupied cell of a bounded tile layer is drawn exactly once.
///
/// If the document has the tile `t` of tileset `tileset` in column `x` of
/// row `row`, inside the map, then the layer's tiles for that tileset hold
/// exactly one tile in render cell (`x`, `height - 1 - row`), and that tile
/// carries the id and the flip flags of `t`.
pub proof fn lemma_occupied_cell_drawn_once(
    document: Document,
    grid: TileLayer,
    tileset: usize,
    x: u32,
    row: u32,
    t: TileReference,
)
    requires
        x < document.width,
        row < document.height,
        grid.spec_tile_at(x as int, row as int) == Some(t),
        t.tileset_index == tileset,
    ensures
        0 <= flipped_row(document.height as int, row as int) < document.height,
        flipped_row(document.height as int, flipped_row(document.height as int, row as int))
            == row,
        tiles_at(
            grid_tiles(document, grid, tileset as int),
            x,
            flipped_row(document.height as int, row as int) as u32,
        ) == 1,
        forall|i: int|
            0 <= i < grid_tiles(document, grid, tileset as int).len() && (#[trigger] grid_tiles(
                document,
                grid,
                tileset as int,
            )[i]).placement == (TilePlacement::Cell {
                x,
                y: flipped_row(document.height as int, row as int) as u32,
            }) ==> grid_tiles(document, grid, tileset as int)[i] == (TileSpawn {
                placement: TilePlacement::Cell {
                    x,
                    y: flipped_row(document.height as int, row as int) as u32,
                },
                texture_index: t.id,
                flip_x: t.flip_h,
                flip_y: t.flip_v,
                flip_d: t.flip_d,
                collider: None,
            }),
{
    let height = document.height as int;
    let y = flipped_row(height, row as int);
    lemma_grid_tiles_at(
        grid,
        tileset as int,
        document.width as int,
        height,
        height,
        x,
        y as u32,
    );
    lemma_grid_tiles_upto_members(grid, tileset as int, document.width as int, height, height);
}

/// Nothing else is drawn: every tile of a bounded tile layer sits in a cell
/// of the map whose document cell holds a tile of the tileset, and a render
/// cell whose document cell is empty, outside the layer, or of another
/// tileset holds no tile.
pub proof fn lemma_only_occupied_cells_drawn(document: Document, grid: TileLayer, tileset: usize)
    ensures
        forall|i: int|
            0 <= i < grid_tiles(document, grid, tileset as int).len() ==> {
                let tile = #[trigger] grid_tiles(document, grid, tileset as int)[i];
                tile.placement matches TilePlacement::Cell { x, y } && x < document.width && y
                    < document.height && tile.collider is None && (grid.spec_tile_at(
                    x as int,
                    flipped_row(document.height as int, y as int),
                ) matches Some(t) && t.tileset_index == tileset && tile.texture_index == t.id)
            },
        forall|x: u32, y: u32|
            cell_spawn(grid, tileset as int, document.height as int, x as int, y as int) is None
                ==> #[trigger] tiles_at(grid_tiles(document, grid, tileset as int), x, y) == 0,
{
    let height = document.height as int;
    lemma_grid_tiles_upto_members(grid, tileset as int, document.width as int, height, height);
    assert forall|x: u32, y: u32|
        cell_spawn(
            grid,
            tileset as int,
            document.height as int,
            x as int,
            y as int,
        ) is None implies #[trigger] tiles_at(grid_tiles(document, grid, tileset as int), x, y)
        == 0 by {
        lemma_grid_tiles_at(grid, tileset as int, document.width as int, height, height, x, y);
    }
}

/// The layers that loading reports as skipped are exactly those for which
/// the synthesizer builds no batch.
pub proof fn lemma_skipped_is_not_drawn(layer: Layer)
    ensures
        skip_reason(layer) is Some <==> !drawable(layer),
{
}

/// The batches of one tileset belong to that tileset and to synthesized
/// layers, in ascending layer order.
pub proof fn lemma_tileset_plans_members(
    document: Document,
    tileset: int,
    texture: usize,
    settings: RenderSettings,
    n: int,
)
    requires
        0 <= n <= usize::MAX,
        0 <= tileset <= usize::MAX,
    ensures
        forall|k: int|
            0 <= k < tileset_plans(document, tileset, texture, settings, n).len() ==> {
                let plan = #[trigger] tileset_plans(document, tileset, texture, settings, n)[k];
                plan.tileset_index == tileset && plan.layer_index < n && plan.layer.texture
                    == texture
            },
        forall|k: int, l: int|
            0 <= k < l < tileset_plans(document, tileset, texture, settings, n).len()
                ==> tileset_plans(document, tileset, texture, settings, n)[k].layer_index
                < tileset_plans(document, tileset, texture, settings, n)[l].layer_index,
    decreases n,
{
    if n > 0 {
        lemma_tileset_plans_members(document, tileset, texture, settings, n - 1);
    }
}

/// Every batch of a map belongs to a tileset that has a texture, and is
/// drawn with that texture.
pub proof fn lemma_map_plans_textured(
    document: Document,
    textures: Map<u32, usize>,
    settings: RenderSettings,
    n: int,
)
    requires
        0 <= n <= u32::MAX,
        document.layers.len() <= u32::MAX,
    ensures
        forall|k: int|
            0 <= k < map_plans(document, textures, settings, n).len() ==> {
                let plan = #[trigger] map_plans(document, textures, settings, n)[k];
                plan.tileset_index < n && textures.contains_key(plan.tileset_index as u32)
                    && plan.layer.texture == textures[plan.tileset_index as u32]
                    && plan.layer_index < document.layers.len()
            },
    decreases n,
{
    if n > 0 {
        lemma_map_plans_textured(document, textures, settings, n - 1);
        if textures.contains_key((n - 1) as u32) {
            lemma_tileset_plans_members(
                document,
                n - 1,
                textures[(n - 1) as u32],
                settings,
                document.layers.len() as int,
            );
        }
    }
}

/// A tileset without a single source image has no texture, and nothing
/// that refers to it reaches the world: no batch of the map belongs to it.
pub proof fn lemma_tileset_without_image_contributes_nothing(
    document: Document,
    settings: RenderSettings,
    tileset: usize,
)
    requires
        document.well_formed(),
        tileset < document.tilesets.len(),
        document.tilesets[tileset as int].image is None,
    ensures
        !texture_map(
            document.tilesets@,
            document.tilesets.len() as int,
        ).contains_key(tileset as u32),
        forall|k: int|
            0 <= k < map_plans(
                document,
                texture_map(document.tilesets@, document.tilesets.len() as int),
                settings,
                document.tilesets.len() as int,
            ).len() ==> (#[trigger] map_plans(
                document,
                texture_map(document.tilesets@, document.tilesets.len() as int),
                settings,
                document.tilesets.len() as int,
            )[k]).tileset_index != tileset,
{
    let n = document.tilesets.len() as int;
    let textures = texture_map(document.tilesets@, n);
    lemma_texture_map_domain(document.tilesets@, n, tileset as u32);
    lemma_map_plans_textured(document, textures, settings, n);
}

/// A tick in which no instance's map changed does nothing: no instance is
/// rebuilt, the world and the instances are as before, and so is the
/// number of entities.
pub proof fn lemma_unchanged_maps_untouched(
    before: Seq<Batch>,
    map_events: Seq<MapEvent>,
    maps: Seq<MapAsset>,
    old_instances: Seq<TiledMapBundle>,
    new_maps: Seq<TiledMapHandle>,
    rebuilds: Seq<Rebuild>,
    after: Seq<Batch>,
    new_instances: Seq<TiledMapBundle>,
)
    requires
        processed(
            before,
            map_events,
            maps,
            old_instances,
            new_maps,
            rebuilds,
            after,
            new_instances,
            old_instances.len() as int,
        ),
        forall|i: int|
            0 <= i < old_instances.len() ==> !changed_ids(map_events, new_maps).contains(
                (#[trigger] old_instances[i]).tiled_map.0,
            ),
    ensures
        rebuilds.len() == 0,
        after == before,
        new_instances == old_instances,
        entity_count(after) == entity_count(before),
{
    let changed = changed_ids(map_events, new_maps);
    let n = old_instances.len() as int;
    lemma_targets(changed, maps, old_instances, old_instances, n);
    if targets(changed, maps, old_instances, n).len() > 0 {
        let i = targets(changed, maps, old_instances, n)[0];
        assert(targeted(changed, maps, old_instances[i].tiled_map));
    }
    assert(new_instances =~= old_instances);
}

proof fn lemma_targets_complete(
    changed: Set<u64>,
    maps: Seq<MapAsset>,
    instances: Seq<TiledMapBundle>,
    n: int,
    instance: int,
)
    requires
        0 <= instance < n <= instances.len(),
        targeted(changed, maps, instances[instance].tiled_map),
    ensures
        exists|k: int|
            0 <= k < targets(changed, maps, instances, n).len() && #[trigger] targets(
                changed,
                maps,
                instances,
                n,
            )[k] == instance,
    decreases n,
{
    let now = targets(changed, maps, instances, n);
    if instance == n - 1 {
        assert(now[now.len() - 1] == instance);
    } else {
        lemma_targets_complete(changed, maps, instances, n - 1, instance);
        let earlier = targets(changed, maps, instances, n - 1);
        let k = choose|k: int| 0 <= k < earlier.len() && #[trigger] earlier[k] == instance;
        assert(now[k] == instance);
    }
}

/// A change of a loaded map rebuilds every instance that shows it, once.
///
/// If an event reports the map of `instance` as added or modified, and the
/// map is loaded, then exactly one of the tick's rebuilds is that of
/// `instance`; and no instance is rebuilt twice in a tick.
pub proof fn lemma_changed_map_rebuilt_once(
    before: Seq<Batch>,
    map_events: Seq<MapEvent>,
    maps: Seq<MapAsset>,
    old_instances: Seq<TiledMapBundle>,
    new_maps: Seq<TiledMapHandle>,
    rebuilds: Seq<Rebuild>,
    after: Seq<Batch>,
    new_instances: Seq<TiledMapBundle>,
    event: int,
    instance: int,
)
    requires
        processed(
            before,
            map_events,
            maps,
            old_instances,
            new_maps,
            rebuilds,
            after,
            new_instances,
            old_instances.len() as int,
        ),
        0 <= event < map_events.len(),
        0 <= instance < old_instances.len(),
        marks_changed(map_events[event], old_instances[instance].tiled_map.0),
        asset_index(maps, old_instances[instance].tiled_map.0) is Some,
    ensures
        exists|k: int| 0 <= k < rebuilds.len() && (#[trigger] rebuilds[k]).instance == instance,
        forall|k: int, l: int|
            0 <= k < rebuilds.len() && 0 <= l < rebuilds.len() && (#[trigger] rebuilds[k]).instance
                == (#[trigger] rebuilds[l]).instance ==> k == l,
{
    let changed = changed_ids(map_events, new_maps);
    let n = old_instances.len() as int;
    let id = old_instances[instance].tiled_map.0;
    assert(event_marks(map_events, map_events.len() as int, id));
    assert(changed.contains(id));
    lemma_targets(changed, maps, old_instances, old_instances, n);
    lemma_targets_complete(changed, maps, old_instances, n, instance);
    let all = targets(changed, maps, old_instances, n);
    let k = choose|k: int| 0 <= k < all.len() && #[trigger] all[k] == instance;
    assert(rebuilds[k].instance == instance);
    assert forall|k: int, l: int|
        0 <= k < rebuilds.len() && 0 <= l < rebuilds.len() && (#[trigger] rebuilds[k]).instance == (
        #[trigger] rebuilds[l]).instance implies k == l by {
        if k < l {
            assert(all[k] < all[l]);
        } else if l < k {
            assert(all[l] < all[k]);
        }
    }
}

/// At most one tileset has a texture.
pub open spec fn single_textured(textures: Map<u32, usize>) -> bool {
    forall|a: u32, b: u32| textures.contains_key(a) && textures.contains_key(b) ==> a == b
}

/// The number of entities that spawning `plans` adds: a root and its tiles
/// for each batch.
pub open spec fn plan_entities(plans: Seq<LayerPlan>) -> nat {
    entity_count(spawned(plans))
}

proof fn lemma_single_textured_layers_ascend(
    document: Document,
    textures: Map<u32, usize>,
    settings: RenderSettings,
    n: int,
)
    requires
        0 <= n <= u32::MAX,
        document.layers.len() <= u32::MAX,
        single_textured(textures),
    ensures
        forall|k: int, l: int|
            0 <= k < l < map_plans(document, textures, settings, n).len() ==> map_plans(
                document,
                textures,
                settings,
                n,
            )[k].layer_index < map_plans(document, textures, settings, n)[l].layer_index,
    decreases n,
{
    if n > 0 {
        lemma_single_textured_layers_ascend(document, textures, settings, n - 1);
        if textures.contains_key((n - 1) as u32) {
            lemma_map_plans_textured(document, textures, settings, n - 1);
            let earlier = map_plans(document, textures, settings, n - 1);
            if earlier.len() > 0 {
                assert(textures.contains_key(earlier[0].tileset_index as u32));
            }
            let here = tileset_plans(
                document,
                n - 1,
                textures[(n - 1) as u32],
                settings,
                document.layers.len() as int,
            );
            assert(earlier + here =~= here);
            lemma_tileset_plans_members(
                document,
                n - 1,
                textures[(n - 1) as u32],
                settings,
                document.layers.len() as int,
            );
        }
    }
}

proof fn lemma_recorded_members(plans: Seq<LayerPlan>, base: int, n: int)
    requires
        0 <= n <= plans.len(),
        0 <= base,
        n > 0 ==> base + n - 1 <= usize::MAX,
        forall|k: int| 0 <= k < plans.len() ==> (#[trigger] plans[k]).layer_index <= u32::MAX,
        forall|k: int, l: int|
            0 <= k < l < plans.len() ==> plans[k].layer_index < plans[l].layer_index,
    ensures
        forall|k: int|
            0 <= k < n ==> recorded(plans, base, n).contains_key(
                (#[trigger] plans[k]).layer_index as u32,
            ) && recorded(plans, base, n)[plans[k].layer_index as u32] == base + k,
        forall|key: u32|
            recorded(plans, base, n).contains_key(key) ==> exists|k: int|
                0 <= k < n && (#[trigger] plans[k]).layer_index == key,
    decreases n,
{
    if n > 0 {
        lemma_recorded_members(plans, base, n - 1);
        let earlier = recorded(plans, base, n - 1);
        let now = recorded(plans, base, n);
        assert forall|key: u32| now.contains_key(key) implies exists|k: int|
            0 <= k < n && (#[trigger] plans[k]).layer_index == key by {
            if key == plans[n - 1].layer_index as u32 {
                assert(plans[n - 1].layer_index == key);
            } else {
                let k = choose|k: int| 0 <= k < n - 1 && (#[trigger] plans[k]).layer_index == key;
                assert(plans[k].layer_index == key);
            }
        }
    }
}

proof fn lemma_entity_count_add(a: Seq<Batch>, b: Seq<Batch>)
    ensures
        entity_count(a + b) == entity_count(a) + entity_count(b),
    decreases b.len(),
{
    if b.len() == 0 {
        assert(a + b =~= a);
    } else {
        let front = b.drop_last();
        assert(a + b =~= (a + front).push(b.last()));
        assert(b =~= front.push(b.last()));
        lemma_entity_count_push(a + front, b.last());
        lemma_entity_count_push(front, b.last());
        lemma_entity_count_add(a, front);
    }
}

proof fn lemma_dead_tail(world: Seq<Batch>, m: int, n: int)
    requires
        0 <= m <= n <= world.len(),
        forall|i: int| m <= i < n ==> !(#[trigger] world[i]).live,
    ensures
        entities_upto(world, n) == entities_upto(world, m),
    decreases n,
{
    if m < n {
        lemma_dead_tail(world, m, n - 1);
    }
}

proof fn lemma_entities_between_agree(a: Seq<Batch>, b: Seq<Batch>, m: int, n: int)
    requires
        0 <= m <= n <= a.len(),
        n <= b.len(),
        forall|i: int| m <= i < n ==> a[i] == b[i],
    ensures
        entities_upto(a, n) - entities_upto(a, m) == entities_upto(b, n) - entities_upto(b, m),
    decreases n,
{
    if m < n {
        lemma_entities_between_agree(a, b, m, n - 1);
    }
}

/// A rebuild leaves nothing behind of the rebuild before it.
///
/// Take two rebuilds of one instance, the first from a map of which at
/// most one tileset has a texture, the second in any later world in which
/// the batches of the first are as the first left them. After the second,
/// every batch that the first one spawned is gone, and the number of
/// entities has changed by what the two maps give: it is the number of
/// the first rebuild's entities less, and the number of the second's more.
/// Rebuilt from the same map, the world holds as many entities as before.
pub proof fn lemma_rebuild_leaves_no_orphans(
    initial: Seq<Batch>,
    initial_roots: Map<u32, usize>,
    first_asset: TiledMap,
    first_settings: RenderSettings,
    first: Rebuild,
    first_roots: Map<u32, usize>,
    later: Seq<Batch>,
    second_asset: TiledMap,
    second_settings: RenderSettings,
    second: Rebuild,
    second_roots: Map<u32, usize>,
)
    requires
        first_asset.map@.well_formed(),
        single_textured(table_entries(first_asset.tilemap_textures)),
        rebuilt(initial, initial_roots, first_asset, first_settings, first, first_roots),
        later.len() >= world_after(initial, first).len(),
        forall|k: int|
            0 <= k < asset_plans(first_asset, first_settings).len() ==> #[trigger] later[initial.len()
                + k] == world_after(initial, first)[initial.len() + k],
        rebuilt(later, first_roots, second_asset, second_settings, second, second_roots),
    ensures
        forall|k: int|
            0 <= k < asset_plans(first_asset, first_settings).len() ==> !(#[trigger] world_after(
                later,
                second,
            )[initial.len() + k]).live,
        entity_count(world_after(later, second)) + plan_entities(
            asset_plans(first_asset, first_settings),
        ) == entity_count(later) + plan_entities(asset_plans(second_asset, second_settings)),
        asset_plans(second_asset, second_settings) == asset_plans(first_asset, first_settings)
            ==> entity_count(world_after(later, second)) == entity_count(later),
{
    let document = first_asset.map@;
    let textures = table_entries(first_asset.tilemap_textures);
    let plans = asset_plans(first_asset, first_settings);
    let base = initial.len() as int;
    let end = base + plans.len();
    let cleared = despawned_all(initial, first.torn_down@, first.torn_down@.len() as int);
    let then = world_after(initial, first);
    let torn = second.torn_down@;
    let swept = despawned_all(later, torn, torn.len() as int);
    let last = world_after(later, second);
    lemma_despawned_all(initial, first.torn_down@, first.torn_down@.len() as int);
    lemma_despawned_all(later, torn, torn.len() as int);
    lemma_map_plans_textured(document, textures, first_settings, document.tilesets.len() as int);
    lemma_single_textured_layers_ascend(
        document,
        textures,
        first_settings,
        document.tilesets.len() as int,
    );
    assert(plans.len() == first.built@.len());
    assert(then.len() == end);
    if plans.len() > 0 {
        assert(first.built@[plans.len() - 1].root == base + plans.len() - 1);
    }
    lemma_recorded_members(plans, base, plans.len() as int);
    assert forall|b: int| base <= b < end implies !(#[trigger] swept[b]).live by {
        let k = b - base;
        let pair = (plans[k].layer_index as u32, b as usize);
        assert(first_roots.contains_key(pair.0) && first_roots[pair.0] == pair.1);
        assert(torn.contains(pair));
        let j = choose|j: int| 0 <= j < torn.len() && torn[j] == pair;
        assert(torn[j].1 == b);
    }
    assert forall|b: int| 0 <= b < later.len() && !(base <= b < end) implies #[trigger] swept[b]
        == later[b] by {
        assert forall|j: int| 0 <= j < torn.len() implies (#[trigger] torn[j]).1 != b by {
            assert(torn.contains(torn[j]));
            let key = torn[j].0;
            let k = choose|k: int| 0 <= k < plans.len() && (#[trigger] plans[k]).layer_index == key;
            assert(first_roots[plans[k].layer_index as u32] == base + k);
        }
    }
    assert forall|k: int| 0 <= k < plans.len() implies !(#[trigger] last[base + k]).live by {
        assert(last[base + k] == swept[base + k]);
    }
    // What the first rebuild spawned, counted in the later world.
    lemma_entity_count_add(cleared, spawned(plans_of(first.built@)));
    lemma_entities_upto_agree(then, cleared, base);
    assert forall|i: int| base <= i < end implies later[i] == then[i] by {
        assert(later[base + (i - base)] == then[base + (i - base)]);
    }
    lemma_entities_between_agree(later, then, base, end);
    assert(entities_upto(later, end) - entities_upto(later, base) == plan_entities(plans));
    // The swept world, counted in three parts.
    lemma_entities_upto_agree(swept, later, base);
    lemma_dead_tail(swept, base, end);
    lemma_entities_between_agree(swept, later, end, later.len() as int);
    lemma_entity_count_add(swept, spawned(plans_of(second.built@)));
}

/// With at most one textured tileset, every batch of a rebuild is on
/// record: each synthesized layer has exactly one live batch, the one that
/// the instance's record holds under the layer's index.
pub proof fn lemma_single_texture_every_batch_recorded(
    before: Seq<Batch>,
    old_roots: Map<u32, usize>,
    asset: TiledMap,
    settings: RenderSettings,
    rebuild: Rebuild,
    new_roots: Map<u32, usize>,
    k: int,
)
    requires
        asset.map@.well_formed(),
        single_textured(table_entries(asset.tilemap_textures)),
        rebuilt(before, old_roots, asset, settings, rebuild, new_roots),
        0 <= k < rebuild.built@.len(),
    ensures
        new_roots.contains_key(rebuild.built@[k].layer_index as u32),
        new_roots[rebuild.built@[k].layer_index as u32] == rebuild.built@[k].root,
        world_after(before, rebuild)[rebuild.built@[k].root as int] == (Batch {
            live: true,
            tiles: rebuild.built@[k].tiles.len(),
        }),
        forall|l: int|
            0 <= l < rebuild.built@.len() && l != k ==> (#[trigger] rebuild.built@[l]).layer_index
                != rebuild.built@[k].layer_index,
{
    let document = asset.map@;
    let textures = table_entries(asset.tilemap_textures);
    let plans = asset_plans(asset, settings);
    let base = before.len() as int;
    lemma_despawned_all(before, rebuild.torn_down@, rebuild.torn_down@.len() as int);
    lemma_map_plans_textured(document, textures, settings, document.tilesets.len() as int);
    lemma_single_textured_layers_ascend(
        document,
        textures,
        settings,
        document.tilesets.len() as int,
    );
    assert(rebuild.built@[plans.len() - 1].root == base + plans.len() - 1);
    lemma_recorded_members(plans, base, plans.len() as int);
    assert(plans[k] == rebuild.built@[k]@);
    assert(rebuild.built@[k].tiles.len() == rebuild.built@[k].tiles@.len());
    assert forall|l: int| 0 <= l < rebuild.built@.len() && l != k implies (
    #[trigger] rebuild.built@[l]).layer_index != rebuild.built@[k].layer_index by {
        assert(plans[l] == rebuild.built@[l]@);
        if l < k {
            assert(plans[l].layer_index < plans[k].layer_index);
        } else {
            assert(plans[k].layer_index < plans[l].layer_index);
        }
    }
}

proof fn lemma_recorded_values(plans: Seq<LayerPlan>, base: int, n: int)
    requires
        0 <= n <= plans.len(),
        0 <= base,
        n > 0 ==> base + n - 1 <= usize::MAX,
    ensures
        forall|key: u32|
            recorded(plans, base, n).contains_key(key) ==> exists|k: int|
                0 <= k < n && (#[trigger] plans[k]).layer_index as u32 == key && recorded(
                    plans,
                    base,
                    n,
                )[key] == base + k,
    decreases n,
{
    if n > 0 {
        lemma_recorded_values(plans, base, n - 1);
        let earlier = recorded(plans, base, n - 1);
        let now = recorded(plans, base, n);
        assert forall|key: u32| now.contains_key(key) implies exists|k: int|
            0 <= k < n && (#[trigger] plans[k]).layer_index as u32 == key && now[key] == base
                + k by {
            if key == plans[n - 1].layer_index as u32 {
                assert(plans[n - 1].layer_index as u32 == key && now[key] == base + (n - 1));
            } else {
                let k = choose|k: int|
                    0 <= k < n - 1 && (#[trigger] plans[k]).layer_index as u32 == key
                        && earlier[key] == base + k;
                assert(plans[k].layer_index as u32 == key && now[key] == base + k);
            }
        }
    }
}

/// After a rebuild every recorded root is alive: the record of an instance
/// holds, for each layer index, at most one root, and that root is a batch
/// which this rebuild spawned for that layer.
pub proof fn lemma_recorded_roots_live(
    before: Seq<Batch>,
    old_roots: Map<u32, usize>,
    asset: TiledMap,
    settings: RenderSettings,
    rebuild: Rebuild,
    new_roots: Map<u32, usize>,
    layer: u32,
)
    requires
        rebuilt(before, old_roots, asset, settings, rebuild, new_roots),
        new_roots.contains_key(layer),
    ensures
        before.len() <= new_roots[layer] < world_after(before, rebuild).len(),
        world_after(before, rebuild)[new_roots[layer] as int].live,
        asset_plans(asset, settings)[new_roots[layer] - before.len()].layer_index as u32 == layer,
        world_after(before, rebuild)[new_roots[layer] as int].tiles == asset_plans(
            asset,
            settings,
        )[new_roots[layer] - before.len()].tiles.len(),
{
    let plans = asset_plans(asset, settings);
    let base = before.len() as int;
    lemma_despawned_all(before, rebuild.torn_down@, rebuild.torn_down@.len() as int);
    if plans.len() > 0 {
        assert(rebuild.built@[plans.len() - 1].root == base + plans.len() - 1);
    }
    lemma_recorded_values(plans, base, plans.len() as int);
    let k = choose|k: int|
        0 <= k < plans.len() && (#[trigger] plans[k]).layer_index as u32 == layer && new_roots[layer]
            == base + k;
    assert(plans[k] == rebuild.built@[k]@);
    assert(rebuild.built@[k].tiles.len() == rebuild.built@[k].tiles@.len());
}

proof fn lemma_tileset_plans_complete(
    document: Document,
    tileset: int,
    texture: usize,
    settings: RenderSettings,
    n: int,
    layer: int,
)
    requires
        0 <= layer < n,
        drawable(document.layers[layer]),
    ensures
        exists|k: int|
            0 <= k < tileset_plans(document, tileset, texture, settings, n).len()
                && #[trigger] tileset_plans(document, tileset, texture, settings, n)[k]
                == layer_plan(document, tileset, texture, layer, settings),
    decreases n,
{
    let now = tileset_plans(document, tileset, texture, settings, n);
    if layer == n - 1 {
        assert(now[now.len() - 1] == layer_plan(
            document,
            tileset,
            texture,
            layer,
            settings,
        ));
    } else {
        lemma_tileset_plans_complete(document, tileset, texture, settings, n - 1, layer);
        let earlier = tileset_plans(document, tileset, texture, settings, n - 1);
        let k = choose|k: int|
            0 <= k < earlier.len() && #[trigger] earlier[k] == layer_plan(
                document,
                tileset,
                texture,
                layer,
                settings,
            );
        assert(now[k] == earlier[k]);
    }
}

/// Whether batch `a` comes before batch `b`: it belongs to an earlier
/// tileset, or to the same tileset and an earlier layer.
pub open spec fn precedes(a: LayerPlan, b: LayerPlan) -> bool {
    a.tileset_index < b.tileset_index || (a.tileset_index == b.tileset_index && a.layer_index
        < b.layer_index)
}

proof fn lemma_map_plans_ordered(
    document: Document,
    textures: Map<u32, usize>,
    settings: RenderSettings,
    n: int,
)
    requires
        0 <= n <= u32::MAX,
        document.layers.len() <= u32::MAX,
    ensures
        forall|k: int, l: int|
            0 <= k < l < map_plans(document, textures, settings, n).len() ==> precedes(
                #[trigger] map_plans(document, textures, settings, n)[k],
                #[trigger] map_plans(document, textures, settings, n)[l],
            ),
    decreases n,
{
    if n > 0 {
        lemma_map_plans_ordered(document, textures, settings, n - 1);
        lemma_map_plans_textured(document, textures, settings, n - 1);
        if textures.contains_key((n - 1) as u32) {
            lemma_tileset_plans_members(
                document,
                n - 1,
                textures[(n - 1) as u32],
                settings,
                document.layers.len() as int,
            );
        }
    }
}

/// Each synthesized layer gets exactly one batch for each tileset that has
/// a texture.
///
/// If tileset `tileset` has a texture and layer `layer` is a bounded tile
/// layer or an object layer, then the map's batches hold the batch of that
/// layer for that tileset; and the batches of a map are in strict order,
/// by tileset and then by layer, so no two of them share both.
pub proof fn lemma_one_batch_per_tileset_and_layer(
    document: Document,
    textures: Map<u32, usize>,
    settings: RenderSettings,
    tileset: usize,
    layer: usize,
)
    requires
        document.well_formed(),
        tileset < document.tilesets.len(),
        textures.contains_key(tileset as u32),
        layer < document.layers.len(),
        drawable(document.layers[layer as int]),
    ensures
        exists|k: int|
            0 <= k < map_plans(
                document,
                textures,
                settings,
                document.tilesets.len() as int,
            ).len() && #[trigger] map_plans(
                document,
                textures,
                settings,
                document.tilesets.len() as int,
            )[k] == layer_plan(
                document,
                tileset as int,
                textures[tileset as u32],
                layer as int,
                settings,
            ),
        forall|k: int, l: int|
            0 <= k < l < map_plans(
                document,
                textures,
                settings,
                document.tilesets.len() as int,
            ).len() ==> precedes(
                #[trigger] map_plans(
                    document,
                    textures,
                    settings,
                    document.tilesets.len() as int,
                )[k],
                #[trigger] map_plans(
                    document,
                    textures,
                    settings,
                    document.tilesets.len() as int,
                )[l],
            ),
{
    let n = document.tilesets.len() as int;
    lemma_map_plans_ordered(document, textures, settings, n);
    lemma_map_plans_complete(document, textures, settings, n, tileset as int, layer as int);
}

proof fn lemma_map_plans_complete(
    document: Document,
    textures: Map<u32, usize>,
    settings: RenderSettings,
    n: int,
    tileset: int,
    layer: int,
)
    requires
        0 <= tileset < n <= u32::MAX,
        textures.contains_key(tileset as u32),
        0 <= layer < document.layers.len(),
        drawable(document.layers[layer]),
    ensures
        exists|k: int|
            0 <= k < map_plans(document, textures, settings, n).len() && #[trigger] map_plans(
                document,
                textures,
                settings,
                n,
            )[k] == layer_plan(
                document,
                tileset,
                textures[tileset as u32],
                layer,
                settings,
            ),
    decreases n,
{
    let now = map_plans(document, textures, settings, n);
    let earlier = map_plans(document, textures, settings, n - 1);
    let wanted = layer_plan(
        document,
        tileset,
        textures[tileset as u32],
        layer,
        settings,
    );
    if tileset == n - 1 {
        let here = tileset_plans(
            document,
            tileset,
            textures[tileset as u32],
            settings,
            document.layers.len() as int,
        );
        lemma_tileset_plans_complete(
            document,
            tileset,
            textures[tileset as u32],
            settings,
            document.layers.len() as int,
            layer,
        );
        let k = choose|k: int| 0 <= k < here.len() && #[trigger] here[k] == wanted;
        assert(now[earlier.len() + k] == here[k]);
    } else {
        lemma_map_plans_complete(document, textures, settings, n - 1, tileset, layer);
        let k = choose|k: int| 0 <= k < earlier.len() && #[trigger] earlier[k] == wanted;
        assert(now[k] == earlier[k]);
    }
}

} // verus!
