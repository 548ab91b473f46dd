use zap_engine::components::layer::RenderLayer;
use zap_engine::systems::render::{plan_render_batches, LayerBatch};

#[test]
fn plan_atlas_grouping_within_layers() {
    let keys = vec![
        (RenderLayer::Background, 1),
        (RenderLayer::Background, 0),
        (RenderLayer::Objects, 0),
        (RenderLayer::Objects, 1),
    ];
    let plan = plan_render_batches(&keys);
    assert_eq!(plan.order, vec![1, 0, 2, 3]);
    assert_eq!(plan.batches.len(), 4);
    assert_eq!(plan.batches[0], LayerBatch { layer: RenderLayer::Background, start: 0, end: 1, atlas_id: 0 });
    assert_eq!(plan.batches[1], LayerBatch { layer: RenderLayer::Background, start: 1, end: 2, atlas_id: 1 });
    assert_eq!(plan.batches[2], LayerBatch { layer: RenderLayer::Objects, start: 2, end: 3, atlas_id: 0 });
    assert_eq!(plan.batches[3], LayerBatch { layer: RenderLayer::Objects, start: 3, end: 4, atlas_id: 1 });
    assert_eq!(plan.atlas_split, 2);
}

#[test]
fn plan_n_atlas_support() {
    let keys = vec![
        (RenderLayer::Objects, 0),
        (RenderLayer::Objects, 2),
        (RenderLayer::Objects, 1),
        (RenderLayer::Objects, 3),
        (RenderLayer::Objects, 2),
    ];
    let plan = plan_render_batches(&keys);
    assert_eq!(plan.batches.len(), 4);
    let atlases: Vec<u32> = plan.batches.iter().map(|b| b.atlas_id).collect();
    assert_eq!(atlases, vec![0, 1, 2, 3]);
    let sizes: Vec<u32> = plan.batches.iter().map(|b| b.end - b.start).collect();
    assert_eq!(sizes, vec![1, 1, 2, 1]);
    // Equal keys keep their scene order.
    assert_eq!(plan.order, vec![0, 2, 1, 4, 3]);
    assert_eq!(plan.atlas_split, 1);
}

#[test]
fn plan_sorts_by_layer_back_to_front() {
    let keys = vec![
        (RenderLayer::UI, 0),
        (RenderLayer::Background, 0),
        (RenderLayer::Objects, 0),
        (RenderLayer::Background, 0),
    ];
    let plan = plan_render_batches(&keys);
    assert_eq!(plan.order, vec![1, 3, 2, 0]);
    let layers: Vec<RenderLayer> = plan.batches.iter().map(|b| b.layer).collect();
    assert_eq!(layers, vec![RenderLayer::Background, RenderLayer::Objects, RenderLayer::UI]);
    assert_eq!(plan.batches[0].end, 2);
    assert_eq!(plan.atlas_split, 4);
}

#[test]
fn plan_empty_has_no_batches() {
    let keys: Vec<(RenderLayer, u32)> = Vec::new();
    let plan = plan_render_batches(&keys);
    assert!(plan.order.is_empty());
    assert!(plan.batches.is_empty());
    assert_eq!(plan.atlas_split, 0);
}

#[test]
fn plan_single_key_single_batch() {
    let keys = vec![(RenderLayer::VFX, 7); 3];
    let plan = plan_render_batches(&keys);
    assert_eq!(plan.order, vec![0, 1, 2]);
    assert_eq!(plan.batches, vec![LayerBatch { layer: RenderLayer::VFX, start: 0, end: 3, atlas_id: 7 }]);
    assert_eq!(plan.atlas_split, 0);
    assert_eq!(LayerBatch::FLOATS, 4);
}

#[test]
fn plan_many_entries_matches_stable_sort() {
    let layers = [
        RenderLayer::Background,
        RenderLayer::Terrain,
        RenderLayer::Objects,
        RenderLayer::Foreground,
        RenderLayer::VFX,
        RenderLayer::UI,
    ];
    let mut keys = Vec::new();
    let mut state: u32 = 12345;
    for _ in 0..500 {
        state = state.wrapping_mul(1103515245).wrapping_add(12345);
        let layer = layers[((state >> 16) % 6) as usize];
        let atlas = (state >> 8) % 4;
        keys.push((layer, atlas));
    }
    let plan = plan_render_batches(&keys);
    let mut expected: Vec<usize> = (0..keys.len()).collect();
    expected.sort_by_key(|&i| (keys[i].0.as_u8(), keys[i].1));
    assert_eq!(plan.order, expected);
    let covered: u32 = plan.batches.iter().map(|b| b.end - b.start).sum();
    assert_eq!(covered, 500);
    let zeros = keys.iter().filter(|k| k.1 == 0).count() as u32;
    assert_eq!(plan.atlas_split, zeros);
}
