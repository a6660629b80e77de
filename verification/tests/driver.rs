use raytracer::driver::{
    draw_order, render_step, PartialRenderMessage, PartialRenderMessagePixels, Progress,
    ProgressAggregator,
};
use raytracer::renderer::{Pixel, Renderer, Rgb8};
use raytracer::tiles::{getBBoxesFor, BBox};
use std::sync::Arc;

#[test]
fn test_progress_counts_up_and_ends_once() {
    let mut agg = ProgressAggregator::new(4);
    let mut reports = Vec::new();
    for _ in 0..7 {
        if let Some(p) = agg.tile_done() {
            reports.push(p);
        }
    }
    assert_eq!(
        reports,
        vec![
            Progress { completed: 1, total: 4 },
            Progress { completed: 2, total: 4 },
            Progress { completed: 3, total: 4 },
            Progress { completed: 4, total: 4 },
        ]
    );
    assert_eq!(reports.iter().filter(|p| p.is_complete()).count(), 1);
    assert!(reports[3].is_complete());
    for pair in reports.windows(2) {
        assert!(pair[0].completed * pair[1].total <= pair[1].completed * pair[0].total);
    }
}

#[test]
fn test_progress_of_no_tiles_is_complete() {
    let mut agg = ProgressAggregator::new(0);
    assert_eq!(agg.tile_done(), None);
    assert!(Progress { completed: 0, total: 0 }.is_complete());
}

#[test]
fn test_render_step_writes_pixels() {
    let mut r = Renderer::new(2, 1);
    let m = PartialRenderMessage::PixelData(PartialRenderMessagePixels {
        pixel_data: Arc::new(vec![Pixel { x: 1, y: 0, color: Rgb8 { r: 5, g: 6, b: 7 } }]),
        bbox: BBox::new(1, 0, 1, 1),
    });
    assert!(!render_step(&mut r, &m));
    assert_eq!(r.data(), &vec![0, 0, 0, 0, 5, 6, 7, 255]);
}

#[test]
fn test_render_step_ends_at_full_progress() {
    let mut r = Renderer::new(1, 1);
    let half = PartialRenderMessage::Progress(Progress { completed: 1, total: 2 });
    let full = PartialRenderMessage::Progress(Progress { completed: 2, total: 2 });
    assert!(!render_step(&mut r, &half));
    assert!(render_step(&mut r, &full));
    assert_eq!(r.data(), &vec![0, 0, 0, 0]);
}

#[test]
fn test_draw_order_is_spiral_backwards() {
    let mut spiral = getBBoxesFor(8, 8, 4);
    spiral.reverse();
    let order = draw_order(8, 8, 4).unwrap();
    assert_eq!(order, spiral);
    assert_eq!(order[0], BBox::new(2, 4, 2, 2));
    assert_eq!(order[15], BBox::new(0, 0, 2, 2));
}

#[test]
fn test_draw_order_limits() {
    assert_eq!(draw_order(8, 8, 0), None);
    assert_eq!(draw_order(1 << 31, 8, 2), None);
    assert_eq!(draw_order(8, 1 << 31, 2), None);
    assert_eq!(draw_order(8, 8, 46341), None);
    assert_eq!(draw_order(0, 0, 1), Some(vec![BBox::new(0, 0, 0, 0)]));
}
