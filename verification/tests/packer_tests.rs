//! Shelf-packer behavior: placement order, shelf wrapping, exhaustion.

use teengine::ShelfPacker;

#[test]
fn places_left_to_right_on_one_shelf() {
    let mut p = ShelfPacker::new(256, 256, 1);
    let a = p.insert(10, 12).unwrap();
    assert_eq!((a.x, a.y), (0, 0));
    let b = p.insert(9, 12).unwrap();
    assert_eq!((b.x, b.y), (11, 0));
    assert_eq!(p.cursor_x(), 21);
    assert_eq!(p.cursor_y(), 0);
}

#[test]
fn wraps_to_a_new_shelf_when_the_row_is_full() {
    let mut p = ShelfPacker::new(256, 256, 1);
    let a = p.insert(200, 10).unwrap();
    assert_eq!((a.x, a.y), (0, 0));
    let b = p.insert(100, 10).unwrap();
    assert_eq!((b.x, b.y), (0, 11));
    assert_eq!(p.cursor_y(), 11);
}

#[test]
fn refuses_a_rectangle_wider_than_the_region() {
    let mut p = ShelfPacker::new(256, 256, 1);
    assert!(p.insert(300, 10).is_none());
    assert_eq!(p.cursor_x(), 0);
    assert_eq!(p.cursor_y(), 0);
}

#[test]
fn exhaustion_returns_no_room_and_keeps_state() {
    let mut p = ShelfPacker::new(256, 256, 1);
    assert!(p.insert(255, 255).is_some());
    let cx = p.cursor_x();
    let cy = p.cursor_y();
    // The remaining area cannot hold another padded 255 x 255 rectangle.
    assert!(p.insert(255, 255).is_none());
    assert_eq!(p.cursor_x(), cx);
    assert_eq!(p.cursor_y(), cy);
}

#[test]
fn placements_never_overlap() {
    let mut p = ShelfPacker::new(256, 256, 2);
    let sizes = [(40u32, 30u32), (60, 20), (100, 35), (90, 10), (120, 25), (70, 40)];
    let mut placed: Vec<(u32, u32, u32, u32)> = Vec::new();
    for (w, h) in sizes {
        if let Some(at) = p.insert(w, h) {
            placed.push((at.x, at.y, w + 2, h + 2));
        }
    }
    assert!(placed.len() >= 4);
    for i in 0..placed.len() {
        for j in (i + 1)..placed.len() {
            let (ax, ay, aw, ah) = placed[i];
            let (bx, by, bw, bh) = placed[j];
            let disjoint = ax + aw <= bx || bx + bw <= ax || ay + ah <= by || by + bh <= ay;
            assert!(disjoint, "placements overlap");
            assert!(ax + aw <= 256 && ay + ah <= 256);
            assert!(bx + bw <= 256 && by + bh <= 256);
        }
    }
}
