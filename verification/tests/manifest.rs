use std::collections::HashMap;
use zap_engine::assets::manifest::{default_span, AssetManifest, AtlasDescriptor, SpriteDescriptor};

#[test]
fn sprite_span_defaults_to_one() {
    assert_eq!(default_span(), 1);
}

#[test]
fn manifest_holds_descriptors() {
    let mut sprites = HashMap::new();
    sprites.insert("hero".to_string(), SpriteDescriptor { atlas: 0, col: 3, row: 5, span: default_span() });
    let manifest = AssetManifest {
        atlases: vec![AtlasDescriptor { name: "tiles".into(), cols: 16, rows: 8, path: "tiles.png".into() }],
        sprites,
        sounds: HashMap::new(),
    };
    assert_eq!(manifest.atlases[0].cols, 16);
    assert_eq!(manifest.sprites["hero"].span, 1);
}
