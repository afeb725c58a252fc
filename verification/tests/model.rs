use terra_firma::model::{
    Document, Layer, LayerKind, MapModel, MapType, Orientation, ParseError, TileLayer,
    TileReference, Tileset,
};
use terra_firma::scalar::FloatBits;

fn zero() -> FloatBits {
    FloatBits { bits: 0 }
}

fn sheet(name: &str) -> Tileset {
    Tileset {
        name: name.to_string(),
        tile_width: 16,
        tile_height: 16,
        spacing: 0,
        image: Some(format!("{name}.png")),
    }
}

fn tile(tileset_index: usize, id: u32) -> Option<TileReference> {
    Some(TileReference { tileset_index, id, flip_h: false, flip_v: false, flip_d: false })
}

fn tiles(width: u32, height: u32, cells: Vec<Option<TileReference>>) -> Layer {
    Layer {
        id: 1,
        offset_x: zero(),
        offset_y: zero(),
        kind: LayerKind::Tiles(TileLayer { width, height, cells }),
    }
}

fn document(tilesets: Vec<Tileset>, layers: Vec<Layer>) -> Document {
    Document {
        width: 2,
        height: 2,
        tile_width: 16,
        tile_height: 16,
        orientation: Orientation::Orthogonal,
        tilesets,
        layers,
    }
}

#[test]
fn every_orientation_has_its_map_type() {
    assert_eq!(Orientation::Orthogonal.map_type(), MapType::Square);
    assert_eq!(Orientation::Isometric.map_type(), MapType::IsometricDiamond);
    assert_eq!(Orientation::Staggered.map_type(), MapType::IsometricStaggered);
    assert_eq!(Orientation::Hexagonal.map_type(), MapType::HexagonRow);
}

#[test]
fn orientations_map_to_different_types() {
    let all = [
        Orientation::Orthogonal,
        Orientation::Isometric,
        Orientation::Staggered,
        Orientation::Hexagonal,
    ];
    for a in 0..all.len() {
        for b in 0..all.len() {
            assert_eq!(all[a].map_type() == all[b].map_type(), a == b);
        }
    }
}

#[test]
fn a_sound_document_becomes_a_map() {
    let cells = vec![tile(0, 3), None, None, tile(0, 4)];
    let map = MapModel::new(document(vec![sheet("a")], vec![tiles(2, 2, cells)])).unwrap();
    assert_eq!(map.document().width, 2);
    assert_eq!(map.document().tilesets.len(), 1);
    assert_eq!(map.document().layers.len(), 1);
}

#[test]
fn an_empty_document_is_a_map() {
    assert!(MapModel::new(document(vec![], vec![])).is_ok());
}

#[test]
fn a_dangling_tileset_index_is_an_unresolved_reference() {
    let cells = vec![tile(0, 3), None, None, tile(1, 4)];
    let result = MapModel::new(document(vec![sheet("a")], vec![tiles(2, 2, cells)]));
    assert_eq!(result.unwrap_err(), ParseError::UnresolvedReference);
}

#[test]
fn a_tile_without_any_tileset_is_an_unresolved_reference() {
    let result = MapModel::new(document(vec![], vec![tiles(1, 1, vec![tile(0, 0)])]));
    assert_eq!(result.unwrap_err(), ParseError::UnresolvedReference);
}

#[test]
fn a_short_grid_is_malformed() {
    let result = MapModel::new(document(vec![sheet("a")], vec![tiles(2, 2, vec![tile(0, 3)])]));
    assert_eq!(result.unwrap_err(), ParseError::Malformed);
}

#[test]
fn a_long_grid_is_malformed() {
    let cells = vec![None, None, None, None, None];
    let result = MapModel::new(document(vec![sheet("a")], vec![tiles(2, 2, cells)]));
    assert_eq!(result.unwrap_err(), ParseError::Malformed);
}

#[test]
fn a_document_with_both_faults_is_malformed() {
    let layers = vec![tiles(1, 1, vec![tile(9, 0)]), tiles(2, 2, vec![])];
    let result = MapModel::new(document(vec![sheet("a")], layers));
    assert_eq!(result.unwrap_err(), ParseError::Malformed);
}

#[test]
fn only_bounded_tile_layers_are_checked() {
    let layers = vec![
        Layer { id: 1, offset_x: zero(), offset_y: zero(), kind: LayerKind::InfiniteTiles },
        Layer { id: 2, offset_x: zero(), offset_y: zero(), kind: LayerKind::Image },
        Layer { id: 3, offset_x: zero(), offset_y: zero(), kind: LayerKind::Group },
        Layer { id: 4, offset_x: zero(), offset_y: zero(), kind: LayerKind::Objects(vec![]) },
    ];
    assert!(MapModel::new(document(vec![], layers)).is_ok());
}

#[test]
fn tile_at_reads_rows_from_the_top() {
    let grid = TileLayer {
        width: 3,
        height: 2,
        cells: vec![tile(0, 0), tile(0, 1), tile(0, 2), tile(0, 3), None, tile(0, 5)],
    };
    assert_eq!(grid.tile_at(0, 0), tile(0, 0));
    assert_eq!(grid.tile_at(2, 0), tile(0, 2));
    assert_eq!(grid.tile_at(0, 1), tile(0, 3));
    assert_eq!(grid.tile_at(1, 1), None);
    assert_eq!(grid.tile_at(2, 1), tile(0, 5));
}

#[test]
fn tile_at_is_empty_outside_the_grid() {
    let grid = TileLayer { width: 2, height: 1, cells: vec![tile(0, 0), tile(0, 1)] };
    assert_eq!(grid.tile_at(2, 0), None);
    assert_eq!(grid.tile_at(0, 1), None);
    assert_eq!(grid.tile_at(u32::MAX, u32::MAX), None);
}

#[test]
fn tile_at_is_empty_where_a_short_grid_has_no_entry() {
    let grid = TileLayer { width: 2, height: 2, cells: vec![tile(0, 0), tile(0, 1), tile(0, 2)] };
    assert_eq!(grid.tile_at(0, 1), tile(0, 2));
    assert_eq!(grid.tile_at(1, 1), None);
}
