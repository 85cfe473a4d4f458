use way_edges::icon::argb_to_rgba;

#[test]
fn argb_pixels_become_rgba() {
    let mut pixels: Vec<u8> = vec![0xff, 0x10, 0x20, 0x30, 0x80, 1, 2, 3];
    argb_to_rgba(&mut pixels);
    assert_eq!(pixels, vec![0x10, 0x20, 0x30, 0xff, 1, 2, 3, 0x80]);
}

#[test]
fn no_pixels_stay_empty() {
    let mut pixels: Vec<u8> = vec![];
    argb_to_rgba(&mut pixels);
    assert!(pixels.is_empty());
}

#[test]
fn four_rotations_give_back_the_pixels() {
    let before: Vec<u8> = (0u8..16).collect();
    let mut pixels = before.clone();
    for _ in 0..4 {
        argb_to_rgba(&mut pixels);
    }
    assert_eq!(pixels, before);
}
