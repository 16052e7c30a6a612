use extrem::cpu_renderer::{CpuRenderer, FrameStats};

fn pixel(renderer: &CpuRenderer, x: usize, y: usize) -> [u8; 3] {
    let start = (y * renderer.width() as usize + x) * 3;
    let bytes = renderer.framebuffer();
    [bytes[start], bytes[start + 1], bytes[start + 2]]
}

const BACKGROUND: [u8; 3] = [18, 22, 30];
const MARKER: [u8; 3] = [92, 201, 255];

#[test]
fn new_framebuffer_is_black_with_three_bytes_per_pixel() {
    let renderer = CpuRenderer::new(32, 16);
    assert_eq!(renderer.width(), 32);
    assert_eq!(renderer.height(), 16);
    assert_eq!(renderer.framebuffer().len(), 32 * 16 * 3);
    assert!(renderer.framebuffer().iter().all(|byte| *byte == 0));
    assert_eq!(renderer.last_stats(), FrameStats::default());
    let default = CpuRenderer::default();
    assert_eq!((default.width(), default.height()), (640, 360));
    assert_eq!(default.framebuffer().len(), 640 * 360 * 3);
}

#[test]
fn begin_frame_clears_to_background() {
    let mut renderer = CpuRenderer::new(4, 3);
    renderer.begin_frame();
    for y in 0..3 {
        for x in 0..4 {
            assert_eq!(pixel(&renderer, x, y), BACKGROUND);
        }
    }
}

#[test]
fn centred_marker_paints_seven_by_seven_pixels() {
    let mut renderer = CpuRenderer::new(32, 32);
    renderer.begin_frame();
    renderer.count_command();
    assert!(renderer.marker_fits_at(16, 16));
    renderer.draw_marker_at(16, 16);
    let stats = renderer.end_frame();
    assert_eq!(stats, FrameStats { submitted_commands: 1, drawn_pixels: 49 });
    assert_eq!(renderer.last_stats(), stats);
    for y in 0..32 {
        for x in 0..32 {
            let inside = (13..=19).contains(&x) && (13..=19).contains(&y);
            let expected = if inside { MARKER } else { BACKGROUND };
            assert_eq!(pixel(&renderer, x, y), expected, "pixel ({x}, {y})");
        }
    }
}

#[test]
fn markers_are_clipped_at_every_edge() {
    let mut renderer = CpuRenderer::new(10, 8);
    renderer.begin_frame();
    renderer.draw_marker_at(0, 0);
    assert_eq!(renderer.end_frame().drawn_pixels, 16);
    assert_eq!(pixel(&renderer, 3, 3), MARKER);
    assert_eq!(pixel(&renderer, 4, 3), BACKGROUND);

    renderer.begin_frame();
    renderer.draw_marker_at(9, 7);
    assert_eq!(renderer.end_frame().drawn_pixels, 16);
    assert_eq!(pixel(&renderer, 6, 4), MARKER);
    assert_eq!(pixel(&renderer, 5, 4), BACKGROUND);

    renderer.begin_frame();
    renderer.draw_marker_at(-10, 3);
    renderer.draw_marker_at(5, 12);
    assert_eq!(renderer.end_frame().drawn_pixels, 0);
    assert!(renderer.framebuffer().chunks(3).all(|p| p == BACKGROUND));
}

#[test]
fn counters_restart_each_frame_and_accumulate_within_one() {
    let mut renderer = CpuRenderer::new(16, 16);
    renderer.begin_frame();
    renderer.count_command();
    renderer.count_command();
    renderer.draw_marker_at(8, 8);
    renderer.draw_marker_at(8, 8);
    assert_eq!(renderer.end_frame(), FrameStats { submitted_commands: 2, drawn_pixels: 98 });
    renderer.begin_frame();
    assert_eq!(renderer.end_frame(), FrameStats { submitted_commands: 0, drawn_pixels: 0 });
}

#[test]
fn extents_beyond_signed_range_paint_nothing() {
    let mut renderer = CpuRenderer::new(0x8000_0000, 0);
    assert!(renderer.framebuffer().is_empty());
    assert!(renderer.marker_fits_at(0, 0));
    renderer.draw_marker_at(0, 0);
    assert_eq!(renderer.end_frame().drawn_pixels, 0);
}

#[test]
fn marker_centres_near_the_signed_limits_do_not_fit() {
    let renderer = CpuRenderer::new(8, 8);
    assert!(!renderer.marker_fits_at(i32::MAX, 0));
    assert!(!renderer.marker_fits_at(0, i32::MIN + 2));
    assert!(renderer.marker_fits_at(i32::MAX - 3, i32::MIN + 3));
}

#[test]
fn cpu_renderer_draws_transform_markers() {
    // A transform at the origin lands on the centre of a 32 by 32 framebuffer.
    let mut renderer = CpuRenderer::new(32, 32);
    renderer.begin_frame();
    renderer.count_command();
    assert!(renderer.marker_fits_at(16, 16));
    renderer.draw_marker_at(16, 16);
    let stats = renderer.end_frame();
    assert_eq!(stats.submitted_commands, 1);
    assert!(stats.drawn_pixels > 0);
}
