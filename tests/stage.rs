use mickey::stage::StageBuffer;

#[test]
fn test_stage_buffer() {
    // The default `min_uniform_buffer_offset_alignment` of a wgpu device.
    let align: u64 = 256;
    let mut buffer = StageBuffer::new(align);

    let data = [0, 1, 2, 3, 4, 5, 6, 7, 8, 9];
    let range = buffer.push_data(&data);

    assert_eq!(range.start, 0);
    assert_eq!(range.end, 10);

    let data = [0, 1, 2, 3, 4, 5, 6, 7, 8, 9, 10, 11, 12, 13, 14, 15];
    let range = buffer.push_data_align(&data);

    assert_eq!(range.start, align);
    assert_eq!(range.end, align + 16);

    assert_eq!(buffer.len() as u64, align + 16);
}

#[test]
fn aligned_push_pads_with_zeros() {
    let mut buffer = StageBuffer::new(8);
    buffer.push_data(&[9, 9, 9]);
    let range = buffer.push_data_align(&[1, 2]);
    assert_eq!(range, 8..10);
    assert_eq!(buffer.as_bytes(), &[9, 9, 9, 0, 0, 0, 0, 0, 1, 2]);
}

#[test]
fn aligned_push_on_boundary_adds_no_padding() {
    let mut buffer = StageBuffer::new(4);
    assert_eq!(buffer.push_data_align(&[1, 2, 3, 4]), 0..4);
    assert_eq!(buffer.push_data_align(&[5]), 4..5);
    assert_eq!(buffer.as_bytes(), &[1, 2, 3, 4, 5]);
}

#[test]
fn empty_push_is_empty_range() {
    let mut buffer = StageBuffer::new(16);
    assert_eq!(buffer.push_data(&[]), 0..0);
    assert_eq!(buffer.len(), 0);
}
