use terra_firma::loader::{
    resolve_textures, unsupported_layers, Resolution, SkipReason, SkippedLayer, TiledLoader,
};
use terra_firma::model::{
    Document, Layer, LayerKind, MapModel, Orientation, ParseError, TileLayer, TileReference,
    Tileset,
};
use terra_firma::scalar::FloatBits;

fn atlas(name: &str, image: Option<&str>) -> Tileset {
    Tileset {
        name: name.to_string(),
        tile_width: 16,
        tile_height: 16,
        spacing: 1,
        image: image.map(|path| path.to_string()),
    }
}

fn plain(tilesets: Vec<Tileset>, layers: Vec<Layer>) -> Document {
    Document {
        width: 1,
        height: 1,
        tile_width: 16,
        tile_height: 16,
        orientation: Orientation::Orthogonal,
        tilesets,
        layers,
    }
}

fn one_cell(tileset_index: usize) -> Layer {
    Layer {
        id: 1,
        offset_x: FloatBits { bits: 0 },
        offset_y: FloatBits { bits: 0 },
        kind: LayerKind::Tiles(TileLayer {
            width: 1,
            height: 1,
            cells: vec![Some(TileReference {
                tileset_index,
                id: 0,
                flip_h: false,
                flip_v: false,
                flip_d: false,
            })],
        }),
    }
}

#[test]
fn an_undecodable_document_is_malformed() {
    assert_eq!(TiledLoader.load(None).unwrap_err(), ParseError::Malformed);
}

#[test]
fn load_reports_a_dangling_reference() {
    let document = plain(vec![atlas("a", Some("a.png"))], vec![one_cell(1)]);
    assert_eq!(TiledLoader.load(Some(document)).unwrap_err(), ParseError::UnresolvedReference);
}

#[test]
fn load_reports_a_broken_grid() {
    let broken = Layer {
        id: 1,
        offset_x: FloatBits { bits: 0 },
        offset_y: FloatBits { bits: 0 },
        kind: LayerKind::Tiles(TileLayer { width: 3, height: 3, cells: vec![None] }),
    };
    let document = plain(vec![atlas("a", Some("a.png"))], vec![broken]);
    assert_eq!(TiledLoader.load(Some(document)).unwrap_err(), ParseError::Malformed);
}

#[test]
fn load_keeps_the_document() {
    let loaded = TiledLoader
        .load(Some(plain(vec![atlas("a", Some("a.png"))], vec![one_cell(0)])))
        .unwrap();
    let expected = plain(vec![atlas("a", Some("a.png"))], vec![one_cell(0)]);
    assert_eq!(*loaded.asset.map.document(), expected);
}

#[test]
fn every_tileset_with_an_image_gets_a_texture() {
    let tilesets = vec![atlas("a", Some("a.png")), atlas("b", Some("dir/b.png"))];
    let loaded = TiledLoader.load(Some(plain(tilesets, vec![]))).unwrap();
    assert_eq!(loaded.asset.tilemap_textures.len(), 2);
    assert_eq!(loaded.asset.tilemap_textures.get(&0), Some(&0));
    assert_eq!(loaded.asset.tilemap_textures.get(&1), Some(&1));
    assert_eq!(
        loaded.resolutions,
        vec![
            Resolution::Requested { handle: 0, path: "a.png".to_string() },
            Resolution::Requested { handle: 1, path: "dir/b.png".to_string() },
        ]
    );
}

#[test]
fn a_tileset_without_an_image_is_absent_from_the_textures() {
    let tilesets =
        vec![atlas("first", None), atlas("second", Some("s.png")), atlas("third", None)];
    let loaded = TiledLoader.load(Some(plain(tilesets, vec![]))).unwrap();
    assert_eq!(loaded.asset.tilemap_textures.len(), 1);
    assert_eq!(loaded.asset.tilemap_textures.get(&0), None);
    assert_eq!(loaded.asset.tilemap_textures.get(&1), Some(&0));
    assert_eq!(loaded.asset.tilemap_textures.get(&2), None);
}

#[test]
fn resolutions_come_in_ascending_tileset_order() {
    let tilesets = vec![
        atlas("first", None),
        atlas("second", Some("s.png")),
        atlas("third", None),
        atlas("fourth", Some("f.png")),
    ];
    let loaded = TiledLoader.load(Some(plain(tilesets, vec![]))).unwrap();
    assert_eq!(
        loaded.resolutions,
        vec![
            Resolution::Skipped { name: "first".to_string() },
            Resolution::Requested { handle: 0, path: "s.png".to_string() },
            Resolution::Skipped { name: "third".to_string() },
            Resolution::Requested { handle: 1, path: "f.png".to_string() },
        ]
    );
    assert_eq!(loaded.asset.tilemap_textures.get(&3), Some(&1));
}

#[test]
fn a_map_without_tilesets_has_no_textures() {
    let loaded = TiledLoader.load(Some(plain(vec![], vec![]))).unwrap();
    assert!(loaded.asset.tilemap_textures.is_empty());
    assert!(loaded.resolutions.is_empty());
}

#[test]
fn resolve_textures_is_what_load_uses() {
    let map =
        MapModel::new(plain(vec![atlas("a", None), atlas("b", Some("b.png"))], vec![])).unwrap();
    let (textures, resolutions) = resolve_textures(&map);
    assert_eq!(textures.len(), 1);
    assert_eq!(textures.get(&1), Some(&0));
    assert_eq!(resolutions.len(), 2);
}

#[test]
fn the_loader_takes_tmx_files() {
    assert_eq!(TiledLoader.extensions(), vec!["tmx"]);
}

fn layer(id: u32, kind: LayerKind) -> Layer {
    Layer { id, offset_x: FloatBits { bits: 0 }, offset_y: FloatBits { bits: 0 }, kind }
}

#[test]
fn unbounded_and_other_layers_are_listed_as_skipped() {
    let layers = vec![
        one_cell(0),
        layer(4, LayerKind::InfiniteTiles),
        layer(5, LayerKind::Objects(vec![])),
        layer(6, LayerKind::Image),
        layer(7, LayerKind::Group),
    ];
    let loaded = TiledLoader.load(Some(plain(vec![atlas("a", Some("a.png"))], layers))).unwrap();
    assert_eq!(
        loaded.skipped_layers,
        vec![
            SkippedLayer { layer_index: 1, layer_id: 4, reason: SkipReason::Unbounded },
            SkippedLayer { layer_index: 3, layer_id: 6, reason: SkipReason::NotTilesOrObjects },
            SkippedLayer { layer_index: 4, layer_id: 7, reason: SkipReason::NotTilesOrObjects },
        ]
    );
}

#[test]
fn tile_and_object_layers_are_not_skipped() {
    let map = MapModel::new(plain(
        vec![atlas("a", Some("a.png"))],
        vec![one_cell(0), layer(2, LayerKind::Objects(vec![]))],
    ))
    .unwrap();
    assert_eq!(unsupported_layers(&map), vec![]);
}
