use zap_engine::api::game::BakeState;
use zap_engine::components::layer::RenderLayer;

#[test]
fn bake_state_new_is_empty() {
    let bake = BakeState::new();
    assert_eq!(bake.mask(), 0);
    assert_eq!(bake.generation(), 0);
    assert_eq!(bake.encode_bits() as f32, 0.0);
}

#[test]
fn bake_state_bake_sets_bit() {
    let mut bake = BakeState::new();
    bake.bake(RenderLayer::Terrain);
    assert_eq!(bake.mask(), 0b00_0010); // bit 1
    assert_eq!(bake.generation(), 1);
}

#[test]
fn bake_state_unbake_clears_bit() {
    let mut bake = BakeState::new();
    bake.bake(RenderLayer::Background);
    bake.bake(RenderLayer::Terrain);
    assert_eq!(bake.mask(), 0b00_0011);

    bake.unbake(RenderLayer::Terrain);
    assert_eq!(bake.mask(), 0b00_0001); // only Background
}

#[test]
fn bake_state_encode_round_trip() {
    let mut bake = BakeState::new();
    bake.bake(RenderLayer::Terrain); // mask = 0b10, gen = 1
    bake.bake(RenderLayer::Foreground); // mask = 0b1010, gen = 2

    let encoded = bake.encode_bits() as f32;
    let raw = encoded as u32;
    let decoded_mask = raw & 0x3F;
    let decoded_gen = raw >> 6;

    assert_eq!(decoded_mask, 0b00_1010); // Terrain(1) + Foreground(3)
    assert_eq!(decoded_gen, 2);
}

#[test]
fn bake_invalidate_bumps_generation_only() {
    let mut bake = BakeState::new();
    bake.bake(RenderLayer::Terrain);
    let mask_before = bake.mask();
    let gen_before = bake.generation();
    bake.invalidate(RenderLayer::Terrain);
    assert_eq!(bake.mask(), mask_before);
    assert_eq!(bake.generation(), gen_before + 1);
}

#[test]
fn bake_unbake_undoes_bake_of_unbaked_layer() {
    let mut bake = BakeState::new();
    bake.bake(RenderLayer::UI);
    let before = bake.mask();
    bake.bake(RenderLayer::VFX);
    bake.unbake(RenderLayer::VFX);
    assert_eq!(bake.mask(), before);
    assert_eq!(bake.mask(), 0b10_0000);
    assert_eq!(bake.generation(), 3);
}

#[test]
fn bake_twice_keeps_single_bit() {
    let mut bake = BakeState::new();
    bake.bake(RenderLayer::Objects);
    bake.bake(RenderLayer::Objects);
    assert_eq!(bake.mask(), 0b00_0100);
    assert_eq!(bake.generation(), 2);
    assert_eq!(bake.encode_bits(), 0b00_0100 | (2 << 6));
}

#[test]
fn bake_default_is_empty() {
    let bake = BakeState::default();
    assert_eq!(bake.mask(), 0);
    assert_eq!(bake.generation(), 0);
}

#[test]
fn bake_history_latest_call_wins() {
    let mut b = BakeState::new();
    b.bake(RenderLayer::Terrain);
    b.bake(RenderLayer::UI);
    b.unbake(RenderLayer::Terrain);
    b.invalidate(RenderLayer::UI);
    b.bake(RenderLayer::Background);
    b.unbake(RenderLayer::Objects);
    assert_eq!(b.mask(), 0b10_0001);
    assert_eq!(b.mask() & 0b1100_0000, 0);
    b.bake(RenderLayer::Terrain);
    assert_eq!(b.mask(), 0b10_0011);
    assert_eq!(b.generation(), 7);
}
