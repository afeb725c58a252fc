use terra_firma::collider::{Hitbox, RigidBodyKind, TiledColliderObject};
use terra_firma::loader::{TiledLoader, TiledMap};
use terra_firma::model::{
    Document, Layer, LayerKind, MapType, Object, ObjectTile, Orientation, TileLayer,
    TileReference, Tileset, TilesetLocation,
};
use terra_firma::properties::{Property, PropertyValue};
use terra_firma::scalar::FloatBits;
use terra_firma::synth::{
    find_asset, process_loaded_maps, rebuild_instance, synthesize_grid, synthesize_objects,
    ColliderSpawn, MapAsset, MapEvent, RenderSettings, TilePlacement, TileSpawn,
    TiledLayersStorage, TiledMapBundle, TiledMapHandle,
};
use terra_firma::world::{Batch, World};

fn bits(value: f32) -> FloatBits {
    FloatBits { bits: value.to_bits() }
}

fn tileset(name: &str, image: bool, tile_width: u32, tile_height: u32, spacing: u32) -> Tileset {
    Tileset {
        name: name.to_string(),
        tile_width,
        tile_height,
        spacing,
        image: if image { Some(format!("{name}.png")) } else { None },
    }
}

fn cell(tileset_index: usize, id: u32) -> Option<TileReference> {
    Some(TileReference { tileset_index, id, flip_h: false, flip_v: false, flip_d: false })
}

fn grid(width: u32, height: u32, cells: Vec<Option<TileReference>>) -> TileLayer {
    TileLayer { width, height, cells }
}

fn tile_layer(id: u32, width: u32, height: u32, cells: Vec<Option<TileReference>>) -> Layer {
    Layer {
        id,
        offset_x: bits(0.0),
        offset_y: bits(0.0),
        kind: LayerKind::Tiles(grid(width, height, cells)),
    }
}

fn object_layer(id: u32, objects: Vec<Object>) -> Layer {
    Layer { id, offset_x: bits(0.0), offset_y: bits(0.0), kind: LayerKind::Objects(objects) }
}

fn object(x: f32, y: f32, tileset_index: usize, id: u32, properties: Vec<Property>) -> Object {
    Object {
        x: bits(x),
        y: bits(y),
        tile: Some(ObjectTile {
            tileset: TilesetLocation::OfMap(tileset_index),
            id,
            flip_h: false,
            flip_v: false,
            flip_d: false,
        }),
        properties,
    }
}

fn map(width: u32, height: u32, tilesets: Vec<Tileset>, layers: Vec<Layer>) -> Document {
    Document {
        width,
        height,
        tile_width: 16,
        tile_height: 16,
        orientation: Orientation::Orthogonal,
        tilesets,
        layers,
    }
}

fn loaded(document: Document) -> TiledMap {
    TiledLoader.load(Some(document)).unwrap().asset
}

fn settings() -> RenderSettings {
    RenderSettings { render_chunk_width: 64, render_chunk_height: 64, y_sort: false }
}

fn instance(id: u64) -> TiledMapBundle {
    TiledMapBundle {
        tiled_map: TiledMapHandle(id),
        storage: TiledLayersStorage::new(),
        render_settings: settings(),
    }
}

fn placed(x: u32, y: u32, texture_index: u32) -> TileSpawn {
    TileSpawn {
        placement: TilePlacement::Cell { x, y },
        texture_index,
        flip_x: false,
        flip_y: false,
        flip_d: false,
        collider: None,
    }
}

/// Two columns, three rows; ids count the document cells row by row.
fn small_grid() -> TileLayer {
    grid(2, 3, vec![cell(0, 0), cell(0, 1), cell(0, 2), None, cell(0, 4), cell(0, 5)])
}

fn small_map() -> Document {
    map(
        2,
        3,
        vec![tileset("a", true, 16, 16, 0)],
        vec![Layer {
            id: 7,
            offset_x: bits(0.0),
            offset_y: bits(0.0),
            kind: LayerKind::Tiles(small_grid()),
        }],
    )
}

#[test]
fn document_rows_are_flipped_into_render_rows() {
    let document = small_map();
    let tiles = synthesize_grid(&document, &small_grid(), 0);
    assert_eq!(
        tiles,
        vec![placed(0, 0, 4), placed(1, 0, 5), placed(0, 1, 2), placed(0, 2, 0), placed(1, 2, 1)]
    );
}

#[test]
fn each_occupied_cell_is_drawn_once_in_the_flipped_row() {
    let document = small_map();
    let layer = small_grid();
    let tiles = synthesize_grid(&document, &layer, 0);
    for row in 0..3u32 {
        for x in 0..2u32 {
            let y = 3 - 1 - row;
            let here: Vec<&TileSpawn> = tiles
                .iter()
                .filter(|t| t.placement == TilePlacement::Cell { x, y })
                .collect();
            match layer.tile_at(x, row) {
                Some(t) => {
                    assert_eq!(here.len(), 1);
                    assert_eq!(here[0].texture_index, t.id);
                    assert_eq!(3 - 1 - y, row);
                }
                None => assert_eq!(here.len(), 0),
            }
        }
    }
    assert_eq!(tiles.len(), 5);
}

#[test]
fn flip_flags_are_carried_through() {
    let document = map(1, 1, vec![tileset("a", true, 16, 16, 0)], vec![]);
    let layer = grid(
        1,
        1,
        vec![Some(TileReference {
            tileset_index: 0,
            id: 9,
            flip_h: true,
            flip_v: false,
            flip_d: true,
        })],
    );
    let tiles = synthesize_grid(&document, &layer, 0);
    assert_eq!(
        tiles,
        vec![TileSpawn {
            placement: TilePlacement::Cell { x: 0, y: 0 },
            texture_index: 9,
            flip_x: true,
            flip_y: false,
            flip_d: true,
            collider: None,
        }]
    );
}

#[test]
fn cells_of_another_tileset_are_left_to_its_own_pass() {
    let document =
        map(2, 1, vec![tileset("a", true, 16, 16, 0), tileset("b", true, 16, 16, 0)], vec![]);
    let layer = grid(2, 1, vec![cell(0, 3), cell(1, 4)]);
    assert_eq!(synthesize_grid(&document, &layer, 0), vec![placed(0, 0, 3)]);
    assert_eq!(synthesize_grid(&document, &layer, 1), vec![placed(1, 0, 4)]);
    assert_eq!(synthesize_grid(&document, &layer, 2), vec![]);
}

#[test]
fn a_layer_smaller_than_the_map_leaves_the_rest_empty() {
    let document = map(3, 3, vec![tileset("a", true, 16, 16, 0)], vec![]);
    let layer = grid(2, 2, vec![cell(0, 0), cell(0, 1), cell(0, 2), cell(0, 3)]);
    let tiles = synthesize_grid(&document, &layer, 0);
    assert_eq!(tiles, vec![placed(0, 1, 2), placed(1, 1, 3), placed(0, 2, 0), placed(1, 2, 1)]);
}

#[test]
fn a_layer_larger_than_the_map_is_cut_to_the_map() {
    let document = map(1, 1, vec![tileset("a", true, 16, 16, 0)], vec![]);
    let layer = grid(2, 2, vec![cell(0, 0), cell(0, 1), cell(0, 2), cell(0, 3)]);
    assert_eq!(synthesize_grid(&document, &layer, 0), vec![placed(0, 0, 0)]);
}

#[test]
fn an_empty_map_gives_no_tiles() {
    let document = map(0, 0, vec![tileset("a", true, 16, 16, 0)], vec![]);
    assert_eq!(synthesize_grid(&document, &grid(0, 0, vec![]), 0), vec![]);
}

#[test]
fn objects_become_collider_tiles() {
    let hitbox = Property {
        name: "hitbox".to_string(),
        value: PropertyValue::ClassValue {
            property_type: "Hitbox".to_string(),
            properties: vec![Property {
                name: "width".to_string(),
                value: PropertyValue::FloatValue(bits(10.0)),
            }],
        },
    };
    let kind = Property {
        name: "collider_type".to_string(),
        value: PropertyValue::StringValue("Dynamic".to_string()),
    };
    let objects = vec![
        object(32.0, 48.0, 0, 5, vec![kind, hitbox]),
        object(1.0, 2.0, 1, 6, vec![]),
        Object { x: bits(0.0), y: bits(0.0), tile: None, properties: vec![] },
        object(3.5, 4.5, 0, 7, vec![]),
    ];
    let document = Document {
        width: 4,
        height: 3,
        tile_width: 16,
        tile_height: 8,
        orientation: Orientation::Orthogonal,
        tilesets: vec![tileset("a", true, 12, 14, 0), tileset("b", true, 16, 16, 0)],
        layers: vec![],
    };
    let tiles = synthesize_objects(&document, &objects, 0);
    assert_eq!(
        tiles,
        vec![
            TileSpawn {
                placement: TilePlacement::Fraction {
                    pixel_x: bits(32.0),
                    pixel_y: bits(48.0),
                    map_width_px: 64,
                    map_height_px: 24,
                },
                texture_index: 5,
                flip_x: false,
                flip_y: false,
                flip_d: false,
                collider: Some(ColliderSpawn {
                    marker: TiledColliderObject,
                    body: RigidBodyKind::Dynamic,
                    hitbox: Hitbox::Authored { width: bits(10.0), height: bits(10.0) },
                }),
            },
            TileSpawn {
                placement: TilePlacement::Fraction {
                    pixel_x: bits(3.5),
                    pixel_y: bits(4.5),
                    map_width_px: 64,
                    map_height_px: 24,
                },
                texture_index: 7,
                flip_x: false,
                flip_y: false,
                flip_d: false,
                collider: Some(ColliderSpawn {
                    marker: TiledColliderObject,
                    body: RigidBodyKind::Static,
                    hitbox: Hitbox::TileSized { tile_width: 12, tile_height: 14 },
                }),
            },
        ]
    );
}

#[test]
fn objects_of_a_template_tileset_are_skipped() {
    let document = map(1, 1, vec![tileset("a", true, 16, 16, 0)], vec![]);
    let objects = vec![Object {
        x: bits(0.0),
        y: bits(0.0),
        tile: Some(ObjectTile {
            tileset: TilesetLocation::OfTemplate,
            id: 0,
            flip_h: false,
            flip_v: false,
            flip_d: false,
        }),
        properties: vec![],
    }];
    assert_eq!(synthesize_objects(&document, &objects, 0), vec![]);
}

#[test]
fn the_map_extent_in_pixels_does_not_overflow() {
    let document = Document {
        width: u32::MAX,
        height: u32::MAX,
        tile_width: u32::MAX,
        tile_height: 2,
        orientation: Orientation::Orthogonal,
        tilesets: vec![tileset("a", true, 16, 16, 0)],
        layers: vec![],
    };
    let tiles = synthesize_objects(&document, &vec![object(0.0, 0.0, 0, 0, vec![])], 0);
    assert_eq!(
        tiles[0].placement,
        TilePlacement::Fraction {
            pixel_x: bits(0.0),
            pixel_y: bits(0.0),
            map_width_px: 18446744065119617025,
            map_height_px: 8589934590,
        }
    );
}

#[test]
fn a_rebuild_spawns_one_batch_per_layer() {
    let document = Document {
        width: 2,
        height: 3,
        tile_width: 20,
        tile_height: 10,
        orientation: Orientation::Staggered,
        tilesets: vec![tileset("a", true, 16, 18, 2)],
        layers: vec![
            Layer {
                id: 7,
                offset_x: bits(1.5),
                offset_y: bits(2.5),
                kind: LayerKind::Tiles(small_grid()),
            },
            Layer { id: 8, offset_x: bits(0.0), offset_y: bits(0.0), kind: LayerKind::Image },
            object_layer(9, vec![object(1.0, 1.0, 0, 3, vec![])]),
        ],
    };
    let asset = loaded(document);
    let mut world = World::new();
    let mut storage = TiledLayersStorage::new();
    let rebuild = rebuild_instance(&mut world, &mut storage, &asset, settings(), 4);

    assert_eq!(rebuild.instance, 4);
    assert_eq!(rebuild.torn_down, vec![]);
    assert_eq!(rebuild.built.len(), 2);

    let first = &rebuild.built[0];
    assert_eq!((first.root, first.tileset_index, first.layer_index), (0, 0, 0));
    assert_eq!(first.tiles.len(), 5);
    assert_eq!(first.layer.layer_id, 7);
    assert_eq!((first.layer.size_x, first.layer.size_y), (2, 3));
    assert_eq!((first.layer.grid_width, first.layer.grid_height), (20, 10));
    assert_eq!((first.layer.tile_width, first.layer.tile_height), (16, 18));
    assert_eq!(first.layer.spacing, 2);
    assert_eq!(first.layer.texture, 0);
    assert_eq!(first.layer.map_type, MapType::IsometricStaggered);
    assert_eq!(f32::from_bits(first.layer.offset_x.bits), 1.5);
    assert_eq!(f32::from_bits(first.layer.offset_y.bits), -2.5);
    assert_eq!(first.layer.z, 0);
    assert_eq!(f32::from_bits(first.layer.scale.bits), 2.0);
    assert_eq!(first.layer.render_settings, settings());

    let second = &rebuild.built[1];
    assert_eq!((second.root, second.tileset_index, second.layer_index), (1, 0, 2));
    assert_eq!(second.tiles.len(), 1);
    assert_eq!(second.layer.layer_id, 9);
    assert_eq!(second.layer.z, 2);

    assert_eq!(storage.root_of(0), Some(0));
    assert_eq!(storage.root_of(1), None);
    assert_eq!(storage.root_of(2), Some(1));
    assert_eq!(world.batch(0), Some(Batch { live: true, tiles: 5 }));
    assert_eq!(world.batch(1), Some(Batch { live: true, tiles: 1 }));
    assert_eq!(world.live_entities(), Some(8));
}

#[test]
fn a_layer_without_matching_tiles_still_gets_its_root() {
    let asset = loaded(map(
        1,
        1,
        vec![tileset("a", true, 16, 16, 0)],
        vec![tile_layer(1, 1, 1, vec![None]), object_layer(2, vec![])],
    ));
    let mut world = World::new();
    let mut storage = TiledLayersStorage::new();
    let rebuild = rebuild_instance(&mut world, &mut storage, &asset, settings(), 0);
    assert_eq!(rebuild.built.len(), 2);
    assert_eq!(world.live_entities(), Some(2));
}

#[test]
fn unbounded_and_other_layers_are_skipped() {
    let asset = loaded(map(
        1,
        1,
        vec![tileset("a", true, 16, 16, 0)],
        vec![
            Layer { id: 1, offset_x: bits(0.0), offset_y: bits(0.0), kind: LayerKind::InfiniteTiles },
            Layer { id: 2, offset_x: bits(0.0), offset_y: bits(0.0), kind: LayerKind::Image },
            Layer { id: 3, offset_x: bits(0.0), offset_y: bits(0.0), kind: LayerKind::Group },
        ],
    ));
    let mut world = World::new();
    let mut storage = TiledLayersStorage::new();
    let rebuild = rebuild_instance(&mut world, &mut storage, &asset, settings(), 0);
    assert_eq!(rebuild.built, vec![]);
    assert_eq!(world.live_entities(), Some(0));
}

#[test]
fn a_tileset_without_an_image_contributes_nothing() {
    let asset = loaded(map(
        2,
        1,
        vec![tileset("collection", false, 16, 16, 0), tileset("atlas", true, 16, 16, 0)],
        vec![
            tile_layer(1, 2, 1, vec![cell(0, 3), cell(1, 4)]),
            object_layer(2, vec![object(0.0, 0.0, 0, 1, vec![])]),
        ],
    ));
    let mut world = World::new();
    let mut storage = TiledLayersStorage::new();
    let rebuild = rebuild_instance(&mut world, &mut storage, &asset, settings(), 0);
    assert_eq!(rebuild.built.len(), 2);
    assert!(rebuild.built.iter().all(|batch| batch.tileset_index == 1));
    assert_eq!(rebuild.built[0].tiles, vec![placed(1, 0, 4)]);
    assert_eq!(rebuild.built[1].tiles, vec![]);
    assert_eq!(world.live_entities(), Some(3));
}

#[test]
fn a_map_with_only_image_collections_spawns_nothing() {
    let asset = loaded(map(
        1,
        1,
        vec![tileset("collection", false, 16, 16, 0)],
        vec![tile_layer(1, 1, 1, vec![cell(0, 0)])],
    ));
    let mut world = World::new();
    let mut storage = TiledLayersStorage::new();
    let rebuild = rebuild_instance(&mut world, &mut storage, &asset, settings(), 0);
    assert_eq!(rebuild.built, vec![]);
    assert_eq!(world.live_entities(), Some(0));
}

#[test]
fn a_second_rebuild_replaces_the_first() {
    let asset = loaded(small_map());
    let mut world = World::new();
    let mut storage = TiledLayersStorage::new();
    rebuild_instance(&mut world, &mut storage, &asset, settings(), 0);
    assert_eq!(world.live_entities(), Some(6));

    let again = rebuild_instance(&mut world, &mut storage, &asset, settings(), 0);
    assert_eq!(again.torn_down, vec![(0, 0)]);
    assert_eq!(again.built[0].root, 1);
    assert_eq!(world.batch(0), Some(Batch { live: false, tiles: 5 }));
    assert_eq!(world.batch(1), Some(Batch { live: true, tiles: 5 }));
    assert_eq!(world.live_entities(), Some(6));
    assert_eq!(storage.root_of(0), Some(1));
}

#[test]
fn a_rebuild_from_a_changed_map_leaves_nothing_of_the_old_one() {
    let before = loaded(map(
        2,
        1,
        vec![tileset("a", true, 16, 16, 0)],
        vec![
            tile_layer(1, 2, 1, vec![cell(0, 0), cell(0, 1)]),
            tile_layer(2, 2, 1, vec![cell(0, 2), None]),
        ],
    ));
    let after = loaded(map(
        2,
        1,
        vec![tileset("a", true, 16, 16, 0)],
        vec![tile_layer(1, 2, 1, vec![cell(0, 0), None])],
    ));
    let mut world = World::new();
    let mut storage = TiledLayersStorage::new();
    rebuild_instance(&mut world, &mut storage, &before, settings(), 0);
    assert_eq!(world.live_entities(), Some(5));

    let mut rebuild = rebuild_instance(&mut world, &mut storage, &after, settings(), 0);
    rebuild.torn_down.sort();
    assert_eq!(rebuild.torn_down, vec![(0, 0), (1, 1)]);
    assert_eq!(world.live_entities(), Some(2));
    assert_eq!(storage.root_of(0), Some(2));
    assert_eq!(storage.root_of(1), None);
}

#[test]
fn with_two_textures_the_later_batch_takes_the_layer_record() {
    let asset = loaded(map(
        2,
        1,
        vec![tileset("a", true, 16, 16, 0), tileset("b", true, 16, 16, 0)],
        vec![tile_layer(1, 2, 1, vec![cell(0, 0), cell(1, 1)])],
    ));
    let mut world = World::new();
    let mut storage = TiledLayersStorage::new();
    let rebuild = rebuild_instance(&mut world, &mut storage, &asset, settings(), 0);
    assert_eq!(rebuild.built.len(), 2);
    assert_eq!(storage.root_of(0), Some(1));
    assert_eq!(world.live_entities(), Some(4));

    let again = rebuild_instance(&mut world, &mut storage, &asset, settings(), 0);
    assert_eq!(again.torn_down, vec![(0, 1)]);
    assert_eq!(world.batch(0), Some(Batch { live: true, tiles: 1 }));
    assert_eq!(world.batch(1), Some(Batch { live: false, tiles: 1 }));
    assert_eq!(world.live_entities(), Some(6));
}

#[test]
fn an_added_map_is_built_for_its_instance() {
    let maps = vec![MapAsset { id: 11, map: loaded(small_map()) }];
    let mut world = World::new();
    let mut instances = vec![instance(11)];
    let rebuilds = process_loaded_maps(
        &mut world,
        &vec![MapEvent::Added { id: 11 }],
        &maps,
        &mut instances,
        &vec![],
    );
    assert_eq!(rebuilds.len(), 1);
    assert_eq!(rebuilds[0].instance, 0);
    assert_eq!(rebuilds[0].built.len(), 1);
    assert_eq!(world.live_entities(), Some(6));
    assert_eq!(instances[0].storage.root_of(0), Some(0));
}

#[test]
fn a_tick_without_changes_does_nothing() {
    let maps = vec![MapAsset { id: 11, map: loaded(small_map()) }];
    let mut world = World::new();
    let mut instances = vec![instance(11)];
    process_loaded_maps(
        &mut world,
        &vec![MapEvent::Added { id: 11 }],
        &maps,
        &mut instances,
        &vec![],
    );
    let once = world.live_entities();
    let spawned = world.spawned();

    let rebuilds = process_loaded_maps(&mut world, &vec![], &maps, &mut instances, &vec![]);
    assert_eq!(rebuilds, vec![]);
    assert_eq!(world.live_entities(), once);
    assert_eq!(world.spawned(), spawned);
    assert_eq!(instances[0].storage.root_of(0), Some(0));
}

#[test]
fn several_events_for_one_map_rebuild_it_once() {
    let maps = vec![MapAsset { id: 11, map: loaded(small_map()) }];
    let mut world = World::new();
    let mut instances = vec![instance(11)];
    let events = vec![
        MapEvent::Added { id: 11 },
        MapEvent::Modified { id: 11 },
        MapEvent::Modified { id: 11 },
    ];
    let rebuilds =
        process_loaded_maps(&mut world, &events, &maps, &mut instances, &vec![TiledMapHandle(11)]);
    assert_eq!(rebuilds.len(), 1);
    assert_eq!(world.spawned(), 1);
    assert_eq!(world.live_entities(), Some(6));
}

#[test]
fn a_modified_map_is_torn_down_and_rebuilt() {
    let maps = vec![MapAsset { id: 11, map: loaded(small_map()) }];
    let mut world = World::new();
    let mut instances = vec![instance(11)];
    process_loaded_maps(
        &mut world,
        &vec![MapEvent::Added { id: 11 }],
        &maps,
        &mut instances,
        &vec![],
    );
    let rebuilds = process_loaded_maps(
        &mut world,
        &vec![MapEvent::Modified { id: 11 }],
        &maps,
        &mut instances,
        &vec![],
    );
    assert_eq!(rebuilds.len(), 1);
    assert_eq!(rebuilds[0].torn_down, vec![(0, 0)]);
    assert_eq!(rebuilds[0].built[0].root, 1);
    assert_eq!(world.live_entities(), Some(6));
    assert_eq!(instances[0].storage.root_of(0), Some(1));
}

#[test]
fn every_instance_of_a_changed_map_is_rebuilt() {
    let maps = vec![
        MapAsset { id: 11, map: loaded(small_map()) },
        MapAsset { id: 12, map: loaded(small_map()) },
    ];
    let mut world = World::new();
    let mut instances = vec![instance(11), instance(12), instance(11)];
    let rebuilds = process_loaded_maps(
        &mut world,
        &vec![MapEvent::Modified { id: 11 }],
        &maps,
        &mut instances,
        &vec![],
    );
    let rebuilt: Vec<usize> = rebuilds.iter().map(|r| r.instance).collect();
    assert_eq!(rebuilt, vec![0, 2]);
    assert_eq!(rebuilds[0].built[0].root, 0);
    assert_eq!(rebuilds[1].built[0].root, 1);
    assert_eq!(instances[0].storage.root_of(0), Some(0));
    assert_eq!(instances[1].storage.root_of(0), None);
    assert_eq!(instances[2].storage.root_of(0), Some(1));
    assert_eq!(world.live_entities(), Some(12));
}

#[test]
fn a_new_instance_of_a_loaded_map_is_built() {
    let maps = vec![MapAsset { id: 11, map: loaded(small_map()) }];
    let mut world = World::new();
    let mut instances = vec![instance(11)];
    let rebuilds =
        process_loaded_maps(&mut world, &vec![], &maps, &mut instances, &vec![TiledMapHandle(11)]);
    assert_eq!(rebuilds.len(), 1);
    assert_eq!(world.live_entities(), Some(6));
}

#[test]
fn a_changed_map_that_is_not_loaded_is_left_alone() {
    let maps = vec![MapAsset { id: 12, map: loaded(small_map()) }];
    let mut world = World::new();
    let mut instances = vec![instance(11)];
    let rebuilds = process_loaded_maps(
        &mut world,
        &vec![MapEvent::Added { id: 11 }],
        &maps,
        &mut instances,
        &vec![],
    );
    assert_eq!(rebuilds, vec![]);
    assert_eq!(world.live_entities(), Some(0));
}

#[test]
fn other_events_do_not_mark_a_map_as_changed() {
    let maps = vec![MapAsset { id: 11, map: loaded(small_map()) }];
    let mut world = World::new();
    let mut instances = vec![instance(11)];
    let events = vec![
        MapEvent::Removed { id: 11 },
        MapEvent::Unused { id: 11 },
        MapEvent::LoadedWithDependencies { id: 11 },
    ];
    let rebuilds = process_loaded_maps(&mut world, &events, &maps, &mut instances, &vec![]);
    assert_eq!(rebuilds, vec![]);
    assert_eq!(world.spawned(), 0);
}

#[test]
fn a_removal_does_not_undo_the_change_of_another_map() {
    let maps = vec![MapAsset { id: 11, map: loaded(small_map()) }];
    let mut world = World::new();
    let mut instances = vec![instance(11)];
    let events = vec![MapEvent::Modified { id: 11 }, MapEvent::Removed { id: 12 }];
    let rebuilds = process_loaded_maps(&mut world, &events, &maps, &mut instances, &vec![]);
    assert_eq!(rebuilds.len(), 1);
}

#[test]
fn the_first_asset_of_an_identity_is_the_one_found() {
    let maps = vec![
        MapAsset { id: 5, map: loaded(small_map()) },
        MapAsset { id: 6, map: loaded(small_map()) },
        MapAsset { id: 5, map: loaded(small_map()) },
    ];
    assert_eq!(find_asset(&maps, 5), Some(0));
    assert_eq!(find_asset(&maps, 6), Some(1));
    assert_eq!(find_asset(&maps, 7), None);
}

#[test]
fn a_fresh_storage_records_nothing() {
    let storage = TiledLayersStorage::default();
    assert_eq!(storage.root_of(0), None);
    assert!(storage.storage.is_empty());
}
