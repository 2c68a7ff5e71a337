use raytracer::math3d::{camera_ray_components, Axis};
use raytracer::sched::{default_worker_count, set_color, Framebuffer, RowQueue, BYTES_PER_PIXEL};

#[test]
fn row_queue_hands_out_each_row_once() {
    let mut q = RowQueue::new(3);
    assert_eq!(q.pop(), Some(0));
    assert_eq!(q.pop(), Some(1));
    assert_eq!(q.pop(), Some(2));
    assert_eq!(q.pop(), None);
    assert_eq!(q.pop(), None);
}

#[test]
fn row_queue_of_empty_image_is_empty() {
    let mut q = RowQueue::new(0);
    assert_eq!(q.pop(), None);
}

#[test]
fn framebuffer_starts_black() {
    let fb = Framebuffer::new(2, 3);
    assert_eq!(fb.width(), 2);
    assert_eq!(fb.height(), 3);
    assert_eq!(fb.as_bytes().len(), 2 * 3 * BYTES_PER_PIXEL);
    assert!(fb.as_bytes().iter().all(|&b| b == 0));
}

#[test]
fn write_row_changes_exactly_that_row() {
    let mut fb = Framebuffer::new(2, 3);
    let row: Vec<u8> = vec![1, 2, 3, 4, 5, 6, 7, 8];
    fb.write_row(1, &row);
    let bytes = fb.as_bytes();
    assert_eq!(&bytes[0..8], &[0; 8]);
    assert_eq!(&bytes[8..16], &row[..]);
    assert_eq!(&bytes[16..24], &[0; 8]);
}

#[test]
fn rows_tile_the_framebuffer_exactly() {
    // Writing every row once, each with its own fill value, reaches every
    // byte exactly once: afterwards every byte holds its row's value.
    let width = 3;
    let height = 4;
    let mut fb = Framebuffer::new(width, height);
    for row in 0..height {
        let fill = (row as u8) + 1;
        fb.write_row(row, &vec![fill; width * 4]);
    }
    let bytes = fb.as_bytes();
    assert_eq!(bytes.len(), width * height * 4);
    for (k, &b) in bytes.iter().enumerate() {
        let row_of_k = k / (width * 4);
        assert_eq!(b, (row_of_k as u8) + 1);
    }
}

#[test]
fn set_color_writes_one_opaque_pixel() {
    let mut row: Vec<u8> = vec![0; 8];
    set_color(&mut row, 1, 10, 20, 30);
    assert_eq!(row, vec![0, 0, 0, 0, 10, 20, 30, 255]);
    set_color(&mut row, 0, 1, 2, 3);
    assert_eq!(row, vec![1, 2, 3, 255, 10, 20, 30, 255]);
}

#[test]
fn worker_pool_is_never_empty() {
    assert!(default_worker_count() >= 1);
}

#[test]
fn camera_rays_spread_from_the_center() {
    assert_eq!(camera_ray_components(0, 0, 512, 256), (-256, -256, 256));
    assert_eq!(camera_ray_components(511, 511, 512, 256), (255, 255, 256));
    assert_eq!(camera_ray_components(256, 256, 512, 256), (0, 0, 256));
}

#[test]
fn axes_are_three() {
    let axes = [Axis::X, Axis::Y, Axis::Z];
    assert!(matches!(axes[0], Axis::X));
    assert!(matches!(axes[1], Axis::Y));
    assert!(matches!(axes[2], Axis::Z));
}
