use zap_engine::renderer::traits::{BakeState, DrawTiming, LayerBatch, RenderTier};

#[test]
fn render_tier_variants() {
    assert_ne!(RenderTier::HdrEdr, RenderTier::Sdr);
    assert_eq!(RenderTier::Software, RenderTier::Software);
}

#[test]
fn layer_batch_default() {
    let batch = LayerBatch::default();
    assert_eq!(batch.layer_id, 0);
    assert_eq!(batch.start, 0);
    assert_eq!(batch.end, 0);
}

#[test]
fn bake_state_and_timing_defaults() {
    let bake = BakeState::default();
    assert_eq!(bake.mask, 0);
    assert_eq!(bake.generation, 0);
    let timing = DrawTiming::default();
    assert_eq!(timing.draw_us, 0);
    assert_eq!(timing.raster_us, 0);
}
