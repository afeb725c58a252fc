//! Loading a map asset: checking the decoded document and deciding which
//! tilesets get a texture.

use vstd::prelude::*;
use bevy::platform::collections::HashMap;
use crate::model::{Document, Layer, LayerKind, MapModel, ParseError, Tileset};
use crate::platform::{table_entries, table_insert, table_new};

verus! {

/// A loaded map: the checked model, and for each tileset that is drawn from
/// a single image the handle of that image's load request.
///
/// Tilesets without a single source image have no entry in
/// `tilemap_textures`.
#[derive(Debug)]
pub struct TiledMap {
    pub map: MapModel,
    pub tilemap_textures: HashMap<u32, usize>,
}

/// What the resolver decided for one tileset.
#[derive(Debug, PartialEq, Eq)]
pub enum Resolution {
    /// A deferred load of the tileset's image was requested; `handle` counts
    /// the requests of this map from zero.
    Requested { handle: usize, path: String },
    /// The tileset is a collection of single images and gets no texture.
    Skipped { name: String },
}

/// Why a layer is not drawn.
#[derive(Clone, Copy, Debug, PartialEq, Eq, Structural)]
pub enum SkipReason {
    /// The layer is an unbounded tile layer.
    Unbounded,
    /// The layer holds neither tiles nor objects.
    NotTilesOrObjects,
}

/// A layer that the synthesizer passes over.
#[derive(Clone, Copy, Debug, PartialEq, Eq, Structural)]
pub struct SkippedLayer {
    /// Index of the layer in the document.
    pub layer_index: usize,
    /// Id of the layer in the document.
    pub layer_id: u32,
    pub reason: SkipReason,
}

/// A map asset together with what was decided while loading it: the
/// texture resolution, one entry per tileset in ascending tileset order,
/// and the layers that will not be drawn, in document order.
#[derive(Debug)]
pub struct Loaded {
    pub asset: TiledMap,
    pub resolutions: Vec<Resolution>,
    pub skipped_layers: Vec<SkippedLayer>,
}

/// Why layer `layer` is passed over, if it is.
pub open spec fn skip_reason(layer: Layer) -> Option<SkipReason> {
    match layer.kind {
        LayerKind::Tiles(_) => None,
        LayerKind::Objects(_) => None,
        LayerKind::InfiniteTiles => Some(SkipReason::Unbounded),
        LayerKind::Image => Some(SkipReason::NotTilesOrObjects),
        LayerKind::Group => Some(SkipReason::NotTilesOrObjects),
    }
}

/// The layers among the first `n` that are passed over, in document order.
pub open spec fn skipped_among(layers: Seq<Layer>, n: int) -> Seq<SkippedLayer>
    decreases n,
{
    if n <= 0 {
        Seq::empty()
    } else {
        match skip_reason(layers[n - 1]) {
            Some(reason) => skipped_among(layers, n - 1).push(
                SkippedLayer {
                    layer_index: (n - 1) as usize,
                    layer_id: layers[n - 1].id,
                    reason,
                },
            ),
            None => skipped_among(layers, n - 1),
        }
    }
}

/// Lists the layers that will not be drawn: unbounded tile layers, and
/// layers that hold neither tiles nor objects.
pub fn unsupported_layers(map: &MapModel) -> (skipped: Vec<SkippedLayer>)
    ensures
        skipped@ == skipped_among(map@.layers@, map@.layers@.len() as int),
{
    let layers = &map.document().layers;
    let mut skipped: Vec<SkippedLayer> = Vec::new();
    let mut i: usize = 0;
    while i < layers.len()
        invariant
            i <= layers.len(),
            skipped@ == skipped_among(layers@, i as int),
        decreases layers.len() - i,
    {
        let reason = match &layers[i].kind {
            LayerKind::Tiles(_) => None,
            LayerKind::Objects(_) => None,
            LayerKind::InfiniteTiles => Some(SkipReason::Unbounded),
            LayerKind::Image => Some(SkipReason::NotTilesOrObjects),
            LayerKind::Group => Some(SkipReason::NotTilesOrObjects),
        };
        match reason {
            Some(reason) => {
                skipped.push(SkippedLayer { layer_index: i, layer_id: layers[i].id, reason });
            },
            None => {},
        }
        i += 1;
    }
    skipped
}

/// The number of tilesets before index `n` that have a single source image.
pub open spec fn imaged_before(tilesets: Seq<Tileset>, n: int) -> nat
    decreases n,
{
    if n <= 0 {
        0
    } else {
        imaged_before(tilesets, n - 1) + if tilesets[n - 1].image is Some {
            1nat
        } else {
            0nat
        }
    }
}

/// The texture mapping of the first `n` tilesets: each tileset with a single
/// source image maps to the number of such tilesets before it.
pub open spec fn texture_map(tilesets: Seq<Tileset>, n: int) -> Map<u32, usize>
    decreases n,
{
    if n <= 0 {
        Map::empty()
    } else if tilesets[n - 1].image is Some {
        texture_map(tilesets, n - 1).insert(
            (n - 1) as u32,
            imaged_before(tilesets, n - 1) as usize,
        )
    } else {
        texture_map(tilesets, n - 1)
    }
}

/// The record that the resolver makes for tileset `i`.
pub open spec fn resolution_matches(tilesets: Seq<Tileset>, i: int, r: Resolution) -> bool {
    match tilesets[i].image {
        Some(image) => r matches Resolution::Requested { handle, path } && handle
            == imaged_before(tilesets, i) && path@ == image@,
        None => r matches Resolution::Skipped { name } && name@ == tilesets[i].name@,
    }
}

/// At most `n` of the first `n` tilesets have an image.
pub proof fn lemma_imaged_before_bound(tilesets: Seq<Tileset>, n: int)
    requires
        0 <= n,
    ensures
        imaged_before(tilesets, n) <= n,
    decreases n,
{
    if n > 0 {
        lemma_imaged_before_bound(tilesets, n - 1);
    }
}

/// The texture mapping holds exactly the tilesets that have a single source
/// image: one without it is absent, whatever refers to it.
pub proof fn lemma_texture_map_domain(tilesets: Seq<Tileset>, n: int, i: u32)
    requires
        0 <= n <= tilesets.len(),
        n <= u32::MAX,
    ensures
        texture_map(tilesets, n).contains_key(i) <==> (i < n && tilesets[i as int].image is Some),
        texture_map(tilesets, n).contains_key(i) ==> texture_map(tilesets, n)[i] == imaged_before(
            tilesets,
            i as int,
        ),
    decreases n,
{
    if n > 0 {
        lemma_texture_map_domain(tilesets, n - 1, i);
        lemma_imaged_before_bound(tilesets, n - 1);
    }
}

/// Requests a texture for every tileset that has a single source image, in
/// ascending tileset order, and records each decision.
pub fn resolve_textures(map: &MapModel) -> (r: (HashMap<u32, usize>, Vec<Resolution>))
    ensures
        table_entries(r.0) == texture_map(map@.tilesets@, map@.tilesets@.len() as int),
        r.1@.len() == map@.tilesets@.len(),
        forall|i: int|
            0 <= i < r.1@.len() ==> resolution_matches(map@.tilesets@, i, #[trigger] r.1@[i]),
{
    let document = map.document();
    let tilesets = &document.tilesets;
    let mut textures = table_new();
    let mut resolutions: Vec<Resolution> = Vec::new();
    let mut issued: usize = 0;
    let mut i: usize = 0;
    while i < tilesets.len()
        invariant
            i <= tilesets.len(),
            tilesets.len() <= u32::MAX,
            issued == imaged_before(tilesets@, i as int),
            issued <= i,
            table_entries(textures) == texture_map(tilesets@, i as int),
            resolutions@.len() == i,
            forall|j: int|
                0 <= j < i ==> resolution_matches(tilesets@, j, #[trigger] resolutions@[j]),
        decreases tilesets.len() - i,
    {
        match &tilesets[i].image {
            Some(image) => {
                table_insert(&mut textures, i as u32, issued);
                resolutions.push(Resolution::Requested { handle: issued, path: image.clone() });
                issued += 1;
            },
            None => {
                resolutions.push(Resolution::Skipped { name: tilesets[i].name.clone() });
            },
        }
        i += 1;
    }
    (textures, resolutions)
}

/// Loads maps from their decoded documents.
#[derive(Clone, Copy, Debug, Default)]
pub struct TiledLoader;

impl TiledLoader {
    /// Turns a decoded document into a map asset. `None` stands for a
    /// document that could not be decoded at all.
    ///
    /// Nothing is returned for a faulty document, not even in part.
    pub fn load(&self, document: Option<Document>) -> (r: Result<Loaded, ParseError>)
        ensures
            match r {
                Ok(loaded) => document matches Some(d) && d.well_formed() && loaded.asset.map@ == d
                    && table_entries(loaded.asset.tilemap_textures) == texture_map(
                    d.tilesets@,
                    d.tilesets@.len() as int,
                ) && loaded.skipped_layers@ == skipped_among(d.layers@, d.layers@.len() as int)
                    && loaded.resolutions@.len() == d.tilesets@.len() && forall|i: int|
                    0 <= i < d.tilesets@.len() ==> resolution_matches(
                        d.tilesets@,
                        i,
                        #[trigger] loaded.resolutions@[i],
                    ),
                Err(ParseError::Malformed) => match document {
                    Some(d) => !d.shaped(),
                    None => true,
                },
                Err(ParseError::UnresolvedReference) => document matches Some(d) && d.shaped()
                    && !d.references_resolved(),
            },
    {
        match document {
            None => Err(ParseError::Malformed),
            Some(d) => match MapModel::new(d) {
                Err(e) => Err(e),
                Ok(map) => {
                    let (tilemap_textures, resolutions) = resolve_textures(&map);
                    let skipped_layers = unsupported_layers(&map);
                    Ok(
                        Loaded {
                            asset: TiledMap { map, tilemap_textures },
                            resolutions,
                            skipped_layers,
                        },
                    )
                },
            },
        }
    }

    /// The file extensions of the documents this loader takes.
    pub fn extensions(&self) -> (e: Vec<&'static str>)
        ensures
            e@.len() == 1,
            e@[0]@ == "tmx"@,
    {
        vec!["tmx"]
    }
}

} // verus!
