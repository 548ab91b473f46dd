use zap_engine::bridge::protocol::{
    ProtocolLayout, HEADER_FLOATS, HEADER_LAYER_BATCH_COUNT, HEADER_LAYER_BATCH_OFFSET,
    HEADER_MAX_LAYER_BATCHES, PROTOCOL_VERSION, HEADER_BAKE_STATE, LIGHT_FLOATS,
};

#[test]
fn custom_capacities_compute_correctly() {
    let layout = ProtocolLayout::new(256, 8192, 16, 64, 64, 4096, 8);

    assert_eq!(layout.instance_data_floats, 256 * 8);
    assert_eq!(layout.effects_data_floats, 8192 * 5);
    assert_eq!(layout.sound_data_floats, 16);
    assert_eq!(layout.event_data_floats, 64 * 4);
    assert_eq!(layout.sdf_data_floats, 64 * 12);
    assert_eq!(layout.vector_data_floats, 4096 * 6);
    assert_eq!(layout.layer_batch_data_floats, 8 * 4);

    let expected_total = HEADER_FLOATS + 256 * 8 + 8192 * 5 + 16 + 64 * 4 + 64 * 12 + 4096 * 6 + 8 * 4;
    assert_eq!(layout.buffer_total_floats, expected_total);
    assert_eq!(layout.buffer_total_bytes, expected_total * 4);
}

#[test]
fn offsets_are_contiguous() {
    let layout = ProtocolLayout::new(100, 200, 10, 20, 50, 100, 6);

    assert_eq!(layout.instance_data_offset, HEADER_FLOATS);
    assert_eq!(layout.effects_data_offset, layout.instance_data_offset + layout.instance_data_floats);
    assert_eq!(layout.sound_data_offset, layout.effects_data_offset + layout.effects_data_floats);
    assert_eq!(layout.event_data_offset, layout.sound_data_offset + layout.sound_data_floats);
    assert_eq!(layout.sdf_data_offset, layout.event_data_offset + layout.event_data_floats);
    assert_eq!(layout.vector_data_offset, layout.sdf_data_offset + layout.sdf_data_floats);
    assert_eq!(layout.layer_batch_data_offset, layout.vector_data_offset + layout.vector_data_floats);
    assert_eq!(layout.buffer_total_floats, layout.layer_batch_data_offset + layout.layer_batch_data_floats);
}

#[test]
fn header_size_is_22() {
    assert_eq!(HEADER_FLOATS, 22);
    assert_eq!(HEADER_MAX_LAYER_BATCHES, 18);
    assert_eq!(HEADER_LAYER_BATCH_COUNT, 19);
    assert_eq!(HEADER_LAYER_BATCH_OFFSET, 20);
}

#[test]
fn layer_batch_section_comes_after_vectors() {
    let layout = ProtocolLayout::new(512, 16384, 32, 32, 128, 8192, 6);
    assert_eq!(layout.layer_batch_data_offset, layout.vector_data_offset + layout.vector_data_floats);
}

#[test]
fn protocol_version_is_3() {
    assert_eq!(PROTOCOL_VERSION as f32, 3.0);
}

#[test]
fn zero_capacities_leave_only_the_header() {
    let layout = ProtocolLayout::new(0, 0, 0, 0, 0, 0, 0);
    assert_eq!(layout.instance_data_offset, 22);
    assert_eq!(layout.layer_batch_data_offset, 22);
    assert_eq!(layout.buffer_total_floats, 22);
    assert_eq!(layout.buffer_total_bytes, 88);
    assert_eq!(HEADER_BAKE_STATE, HEADER_FLOATS - 1);
}

#[test]
fn small_layout_exact_offsets() {
    let layout = ProtocolLayout::new(1, 1, 1, 1, 1, 1, 1);
    assert_eq!(layout.effects_data_offset, 30);
    assert_eq!(layout.sound_data_offset, 35);
    assert_eq!(layout.event_data_offset, 36);
    assert_eq!(layout.sdf_data_offset, 40);
    assert_eq!(layout.vector_data_offset, 52);
    assert_eq!(layout.layer_batch_data_offset, 58);
    assert_eq!(layout.buffer_total_floats, 62);
    assert_eq!(layout.buffer_total_bytes, 248);
    assert_eq!(LIGHT_FLOATS, 8);
}
