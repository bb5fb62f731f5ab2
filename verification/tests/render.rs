use threed_from_scratch::render::{draw_dot_grid, draw_rect, ColorBuffer};

fn lit(buffer: &ColorBuffer<f32>, color: u32) -> Vec<(usize, usize)> {
    let mut result = Vec::new();
    for y in 0..buffer.height {
        for x in 0..buffer.width {
            if buffer.get_pixel(x, y) == color {
                result.push((x, y));
            }
        }
    }
    result
}

#[test]
fn new_render_buffer_is_black_with_the_given_depth() {
    let buffer = ColorBuffer::new(4, 3, 0.0f32);
    assert_eq!(buffer.buffer, vec![0u32; 12]);
    assert_eq!(buffer.zbuffer, vec![0.0f32; 12]);
    assert_eq!(buffer.width, 4);
    assert_eq!(buffer.height, 3);
}

#[test]
fn set_pixel_then_get_pixel() {
    let mut buffer = ColorBuffer::new(4, 3, 0.0f32);
    buffer.set_pixel(2, 1, 0xFF112233);
    assert_eq!(buffer.get_pixel(2, 1), 0xFF112233);
    assert_eq!(buffer.buffer[6], 0xFF112233);
    assert_eq!(lit(&buffer, 0xFF112233), vec![(2, 1)]);
}

#[test]
fn set_pixel_outside_changes_nothing() {
    let mut buffer = ColorBuffer::new(4, 3, 0.0f32);
    buffer.set_pixel(4, 0, 0xFFFFFFFF);
    buffer.set_pixel(0, 3, 0xFFFFFFFF);
    buffer.set_pixel(usize::MAX, usize::MAX, 0xFFFFFFFF);
    assert_eq!(buffer.buffer, vec![0u32; 12]);
}

#[test]
fn depth_test_keeps_the_nearer_pixel() {
    let mut buffer = ColorBuffer::new(2, 2, 0.0f32);
    let nearer = |stored: f32, incoming: f32| stored < incoming;
    buffer.set_pixel_zcell(1, 1, 0.5, 0xFF0000FF, nearer);
    assert_eq!(buffer.get_pixel(1, 1), 0xFF0000FF);
    assert_eq!(buffer.zbuffer[3], 0.5);
    // farther: rejected
    buffer.set_pixel_zcell(1, 1, 0.25, 0xFF00FF00, nearer);
    assert_eq!(buffer.get_pixel(1, 1), 0xFF0000FF);
    assert_eq!(buffer.zbuffer[3], 0.5);
    // nearer: accepted
    buffer.set_pixel_zcell(1, 1, 0.75, 0xFFFF0000, nearer);
    assert_eq!(buffer.get_pixel(1, 1), 0xFFFF0000);
    assert_eq!(buffer.zbuffer[3], 0.75);
    // outside: nothing
    buffer.set_pixel_zcell(2, 0, 9.0, 0xFFFFFFFF, nearer);
    assert_eq!(buffer.zbuffer, vec![0.0, 0.0, 0.0, 0.75]);
}

#[test]
fn clear_sets_colors_and_depths() {
    let mut buffer = ColorBuffer::new(3, 2, 0.5f32);
    buffer.set_pixel(1, 1, 7);
    buffer.clear(0xFF000000, 0.0);
    assert_eq!(buffer.buffer, vec![0xFF000000u32; 6]);
    assert_eq!(buffer.zbuffer, vec![0.0f32; 6]);
}

#[test]
fn dot_grid_marks_every_step_pixels() {
    let mut buffer = ColorBuffer::new(5, 4, 0.0f32);
    draw_dot_grid(&mut buffer, 2, 9);
    assert_eq!(lit(&buffer, 9), vec![(0, 0), (2, 0), (4, 0), (0, 2), (2, 2), (4, 2)]);
}

#[test]
fn dot_grid_with_step_one_fills_everything() {
    let mut buffer = ColorBuffer::new(3, 3, 0.0f32);
    draw_dot_grid(&mut buffer, 1, 5);
    assert_eq!(buffer.buffer, vec![5u32; 9]);
}

#[test]
fn dot_grid_with_a_large_step_marks_only_the_origin() {
    let mut buffer = ColorBuffer::new(3, 3, 0.0f32);
    draw_dot_grid(&mut buffer, usize::MAX, 5);
    assert_eq!(lit(&buffer, 5), vec![(0, 0)]);
}

#[test]
fn rect_fills_its_pixels() {
    let mut buffer = ColorBuffer::new(6, 5, 0.0f32);
    draw_rect(&mut buffer, 1, 2, 3, 2, 4);
    assert_eq!(lit(&buffer, 4), vec![(1, 2), (2, 2), (3, 2), (1, 3), (2, 3), (3, 3)]);
}

#[test]
fn rect_is_clipped_to_the_buffer() {
    let mut buffer = ColorBuffer::new(4, 4, 0.0f32);
    draw_rect(&mut buffer, -2, 2, 5, 5, 1);
    assert_eq!(lit(&buffer, 1), vec![(0, 2), (1, 2), (2, 2), (0, 3), (1, 3), (2, 3)]);
}

#[test]
fn empty_rect_draws_nothing() {
    let mut buffer = ColorBuffer::new(4, 4, 0.0f32);
    draw_rect(&mut buffer, 1, 1, 0, 3, 1);
    draw_rect(&mut buffer, 1, 1, 3, -1, 1);
    assert_eq!(buffer.buffer, vec![0u32; 16]);
}
