use raytracer::tiles::{getBBoxesFor, BBox};

#[test]
fn test_bbox_generator4() {
    let bboxes = getBBoxesFor(4, 4, 4);
    assert_eq!(bboxes.len(), 16);

    let expected = vec![
        BBox::new(0, 0, 1, 1),
        BBox::new(1, 0, 1, 1),
        BBox::new(2, 0, 1, 1),
        BBox::new(3, 0, 1, 1),
        BBox::new(3, 1, 1, 1),
        BBox::new(3, 2, 1, 1),
        BBox::new(3, 3, 1, 1),
        BBox::new(2, 3, 1, 1),
        BBox::new(1, 3, 1, 1),
        BBox::new(0, 3, 1, 1),
        BBox::new(0, 2, 1, 1),
        BBox::new(0, 1, 1, 1),
        BBox::new(1, 1, 1, 1),
        BBox::new(2, 1, 1, 1),
        BBox::new(2, 2, 1, 1),
        BBox::new(1, 2, 1, 1),
    ];

    for (k, _v) in bboxes.iter().enumerate() {
        assert_eq!(bboxes[k], expected[k], "@ index {}", k);
    }
}

fn cells(w: i32, h: i32, n: i32) -> Vec<(i32, i32)> {
    getBBoxesFor(w, h, n).iter().map(|b| (b.x / (w / n), b.y / (h / n))).collect()
}

#[test]
fn test_single_tile_is_whole_image() {
    assert_eq!(getBBoxesFor(7, 5, 1), vec![BBox::new(0, 0, 7, 5)]);
}

#[test]
fn test_spiral_two_by_two() {
    assert_eq!(cells(2, 2, 2), vec![(0, 0), (1, 0), (1, 1), (0, 1)]);
}

#[test]
fn test_spiral_three_ends_in_centre() {
    assert_eq!(
        cells(3, 3, 3),
        vec![(0, 0), (1, 0), (2, 0), (2, 1), (2, 2), (1, 2), (0, 2), (0, 1), (1, 1)]
    );
}

#[test]
fn test_tiles_scale_with_image() {
    let bboxes = getBBoxesFor(8, 4, 2);
    assert_eq!(
        bboxes,
        vec![
            BBox::new(0, 0, 4, 2),
            BBox::new(4, 0, 4, 2),
            BBox::new(4, 2, 4, 2),
            BBox::new(0, 2, 4, 2),
        ]
    );
}

#[test]
fn test_remainder_pixels_are_truncated() {
    let bboxes = getBBoxesFor(10, 7, 3);
    assert_eq!(bboxes.len(), 9);
    for b in bboxes.iter() {
        assert_eq!((b.w, b.h), (3, 2));
        assert!(b.x + b.w <= 9 && b.y + b.h <= 6);
    }
    assert_eq!(bboxes[2], BBox::new(6, 0, 3, 2));
    assert_eq!(bboxes[8], BBox::new(3, 2, 3, 2));
}

#[test]
fn test_tiles_are_a_permutation_of_the_grid() {
    for n in 1..=9 {
        let mut seen = cells(n * 3, n * 2, n);
        assert_eq!(seen.len(), (n * n) as usize);
        seen.sort();
        seen.dedup();
        assert_eq!(seen.len(), (n * n) as usize);
        for c in seen.iter() {
            assert!(0 <= c.0 && c.0 < n && 0 <= c.1 && c.1 < n);
        }
    }
}

#[test]
fn test_tile_corners_are_multiples_of_the_tile_size() {
    for b in getBBoxesFor(23, 17, 5) {
        assert_eq!((b.w, b.h), (4, 3));
        assert_eq!((b.x % b.w, b.y % b.h), (0, 0));
    }
}

#[test]
fn test_tiles_cover_each_pixel_once() {
    let (w, h, n) = (12, 8, 4);
    let bboxes = getBBoxesFor(w, h, n);
    let mut count = vec![0u32; (w * h) as usize];
    for b in bboxes.iter() {
        for (x, y) in b.pixels() {
            count[(y * w as u64 + x) as usize] += 1;
        }
    }
    assert!(count.iter().all(|c| *c == 1));
}

#[test]
fn test_pixels_row_by_row() {
    let b = BBox::new(4, 2, 3, 2);
    assert_eq!(b.pixels(), vec![(4, 2), (5, 2), (6, 2), (4, 3), (5, 3), (6, 3)]);
}

#[test]
fn test_pixels_of_empty_rectangle() {
    assert_eq!(BBox::new(1, 1, 0, 5).pixels(), Vec::<(u64, u64)>::new());
    assert_eq!(BBox::new(1, 1, 5, 0).pixels(), Vec::<(u64, u64)>::new());
    assert_eq!(BBox::new(1, 1, -2, 3).pixels(), Vec::<(u64, u64)>::new());
}
