use zap_engine::components::layer::RenderLayer;

#[test]
fn default_is_objects() {
    assert_eq!(RenderLayer::default(), RenderLayer::Objects);
}

#[test]
fn ordering_is_back_to_front() {
    assert!(RenderLayer::Background < RenderLayer::Terrain);
    assert!(RenderLayer::Terrain < RenderLayer::Objects);
    assert!(RenderLayer::Objects < RenderLayer::Foreground);
    assert!(RenderLayer::Foreground < RenderLayer::VFX);
    assert!(RenderLayer::VFX < RenderLayer::UI);
}

#[test]
fn round_trip_u8() {
    for val in 0..RenderLayer::COUNT as u8 {
        let layer = RenderLayer::from_u8(val).unwrap();
        assert_eq!(layer.as_u8(), val);
    }
    assert!(RenderLayer::from_u8(6).is_none());
}

#[test]
fn count_is_correct() {
    assert_eq!(RenderLayer::COUNT, 6);
}

#[test]
fn layer_wire_numbers() {
    assert_eq!(RenderLayer::Background.as_u8(), 0);
    assert_eq!(RenderLayer::Terrain.as_u8(), 1);
    assert_eq!(RenderLayer::UI.as_u8(), 5);
    assert_eq!(RenderLayer::from_u8(3), Some(RenderLayer::Foreground));
    assert_eq!(RenderLayer::from_u8(255), None);
}
