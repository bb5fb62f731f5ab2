use threed_from_scratch::buffer_utils::get_index_by_coord;
use threed_from_scratch::color_buffer::ColorBuffer;
use threed_from_scratch::z_buffer::ZBuffer;

#[test]
fn index_is_row_major() {
    assert_eq!(get_index_by_coord(0, 0, 10), 0);
    assert_eq!(get_index_by_coord(3, 2, 10), 23);
    assert_eq!(get_index_by_coord(9, 0, 10), 9);
    assert_eq!(get_index_by_coord(0, 1, 10), 10);
}

#[test]
fn new_color_buffer_is_black() {
    let mut buffer = ColorBuffer::new(3, 2);
    assert_eq!(buffer.width, 3);
    assert_eq!(buffer.height, 2);
    let bytes = buffer.get_raw_data();
    assert_eq!(bytes.len(), 24);
    assert!(bytes.iter().all(|&b| b == 0));
}

#[test]
fn get_mut_reaches_the_pixel() {
    let mut buffer = ColorBuffer::new(3, 2);
    *buffer.get_mut(1, 1).unwrap() = 0x01020304;
    assert_eq!(*buffer.get_mut(1, 1).unwrap(), 0x01020304);
    assert_eq!(*buffer.get_mut(0, 0).unwrap(), 0);
    // index 1 * 3 + 1 == 4 holds the pixel: the raw bytes show it there
    let bytes = buffer.get_raw_data();
    assert_eq!(&bytes[16..20], &0x01020304u32.to_ne_bytes());
    assert_eq!(&bytes[0..16], &[0u8; 16]);
}

#[test]
fn get_mut_past_the_end_is_none() {
    let mut buffer = ColorBuffer::new(3, 2);
    assert!(buffer.get_mut(0, 2).is_none());
    assert!(buffer.get_mut(6, 0).is_none());
    // a column past the row's end still names a cell of the next row
    assert!(buffer.get_mut(4, 0).is_some());
}

#[test]
fn clear_sets_every_pixel() {
    let mut buffer = ColorBuffer::new(2, 2);
    buffer.clear(0xFF00FF00);
    for y in 0..2 {
        for x in 0..2 {
            assert_eq!(*buffer.get_mut(x, y).unwrap(), 0xFF00FF00);
        }
    }
}

#[test]
fn raw_data_is_in_native_byte_order() {
    let mut buffer = ColorBuffer::new(2, 1);
    *buffer.get_mut(0, 0).unwrap() = 0xAABBCCDD;
    *buffer.get_mut(1, 0).unwrap() = 0x11223344;
    let bytes = buffer.get_raw_data();
    let mut expected = Vec::new();
    expected.extend_from_slice(&0xAABBCCDDu32.to_ne_bytes());
    expected.extend_from_slice(&0x11223344u32.to_ne_bytes());
    assert_eq!(bytes, expected);
}

#[test]
fn z_buffer_starts_with_the_initial_value() {
    let buffer = ZBuffer::new(2, 3, 0.0f32);
    assert_eq!(buffer.width, 2);
    assert_eq!(buffer.height, 3);
    for y in 0..3 {
        for x in 0..2 {
            assert_eq!(buffer.get_pixel_value(x, y), 0.0);
        }
    }
}

#[test]
fn z_buffer_reads_back_a_write() {
    let mut buffer = ZBuffer::new(2, 2, 0.0f32);
    buffer.set_pixel_value(1, 0, 0.5);
    assert_eq!(buffer.get_pixel_value(1, 0), 0.5);
    assert_eq!(buffer.get_pixel_value(0, 0), 0.0);
    assert_eq!(buffer.get_pixel_value(0, 1), 0.0);
    assert_eq!(buffer.get_pixel_value(1, 1), 0.0);
}

#[test]
fn z_buffer_clear_resets_every_cell() {
    let mut buffer = ZBuffer::new(2, 2, 0.0f32);
    buffer.set_pixel_value(1, 1, 0.25);
    buffer.clear(1.0);
    for y in 0..2 {
        for x in 0..2 {
            assert_eq!(buffer.get_pixel_value(x, y), 1.0);
        }
    }
}
