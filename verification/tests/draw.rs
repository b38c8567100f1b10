use space_invaders::color::from_rgb;
use space_invaders::compositor::insert_drawing;
use space_invaders::drawings::get_bullet;
use space_invaders::drawings::get_invader;
use space_invaders::drawings::get_number;
use space_invaders::drawings::get_player;
use space_invaders::drawings::Drawing;
use space_invaders::render::score_digits;
use space_invaders::state::WIDTH;

#[test]
fn from_rgb_packs_the_channels() {
    assert_eq!(from_rgb(0, 0, 0), 0);
    assert_eq!(from_rgb(1, 2, 3), 0x010203);
    assert_eq!(from_rgb(255, 255, 255), 0xFFFFFF);
    assert_eq!(from_rgb(0x12, 0x34, 0x56), 0x123456);
}

#[test]
fn insert_drawing_copies_row_major_at_the_offset() {
    let mut buf = vec![0u32; WIDTH * 4];
    let d = Drawing { width: 2, height: 2, pixels: vec![1, 2, 3, 4] };
    insert_drawing(&mut buf, 5, 1, &d);
    assert_eq!(buf[1 * WIDTH + 5], 1);
    assert_eq!(buf[1 * WIDTH + 6], 2);
    assert_eq!(buf[2 * WIDTH + 5], 3);
    assert_eq!(buf[2 * WIDTH + 6], 4);
    assert_eq!(buf.iter().filter(|&&p| p != 0).count(), 4);
}

#[test]
fn insert_drawing_clips_past_the_buffer_end() {
    let mut buf = vec![0u32; WIDTH * 2];
    let d = Drawing { width: 3, height: 1, pixels: vec![7, 8, 9] };
    // the row starts in range and runs off the end of the buffer
    insert_drawing(&mut buf, WIDTH - 1, 1, &d);
    assert_eq!(buf[2 * WIDTH - 1], 7);
    assert_eq!(buf.len(), WIDTH * 2);
    assert_eq!(buf.iter().filter(|&&p| p != 0).count(), 1);
}

#[test]
fn insert_drawing_bleeds_into_the_next_row_without_right_clipping() {
    let mut buf = vec![0u32; WIDTH * 3];
    let d = Drawing { width: 3, height: 1, pixels: vec![7, 8, 9] };
    insert_drawing(&mut buf, WIDTH - 1, 0, &d);
    assert_eq!(buf[WIDTH - 1], 7);
    assert_eq!(buf[WIDTH], 8);
    assert_eq!(buf[WIDTH + 1], 9);
}

#[test]
fn sprites_have_their_stated_shapes() {
    let p = get_player();
    assert_eq!((p.width, p.height, p.pixels.len()), (24, 16, 384));
    let i = get_invader();
    assert_eq!((i.width, i.height, i.pixels.len()), (24, 16, 384));
    let b = get_bullet();
    assert_eq!((b.width, b.height, b.pixels.len()), (4, 8, 32));
    assert!(b.pixels.iter().all(|&px| px != 0));
}

#[test]
fn digit_glyphs_are_distinct_and_sized() {
    let mut seen: Vec<Vec<u32>> = Vec::new();
    for d in 0..10u8 {
        let g = get_number(d);
        assert_eq!((g.width, g.height, g.pixels.len()), (12, 20, 240));
        assert!(g.pixels.iter().any(|&px| px != 0));
        assert!(!seen.contains(&g.pixels));
        seen.push(g.pixels);
    }
}

#[test]
fn score_digits_expands_most_significant_first() {
    assert_eq!(score_digits(0), vec![0]);
    assert_eq!(score_digits(7), vec![7]);
    assert_eq!(score_digits(10), vec![1, 0]);
    assert_eq!(score_digits(1024), vec![1, 0, 2, 4]);
    assert_eq!(score_digits(u64::MAX), vec![1, 8, 4, 4, 6, 7, 4, 4, 0, 7, 3, 7, 0, 9, 5, 5, 1, 6, 1, 5]);
}
