use raycaster::caster::Face;
use raycaster::color::{pack_pixel, unpack_pixel};
use raycaster::textures::{Texture, TextureManager};

fn tex(width: usize, height: usize, rgb: &[u8]) -> Texture {
    Texture::from_rgb(width, height, rgb)
}

#[test]
fn packs_channels_as_rrggbb() {
    assert_eq!(pack_pixel(0x12, 0x34, 0x56), 0x123456);
    assert_eq!(pack_pixel(255, 221, 221), 0xFFDDDD);
    assert_eq!(pack_pixel(0, 0, 0), 0);
}

#[test]
fn unpack_reads_channels_back() {
    assert_eq!(unpack_pixel(0x040C24), (0x04, 0x0C, 0x24));
    assert_eq!(unpack_pixel(pack_pixel(7, 8, 9)), (7, 8, 9));
    assert_eq!(pack_pixel(0xAB, 0xCD, 0xEF), 0xABCDEF);
    let (r, g, b) = unpack_pixel(0xABCDEF);
    assert_eq!(pack_pixel(r, g, b), 0xABCDEF);
    assert_eq!(unpack_pixel(0xFF123456), (0x12, 0x34, 0x56));
}

#[test]
fn texture_from_rgb_packs_each_pixel() {
    let rgb = [1u8, 2, 3, 4, 5, 6, 7, 8, 9, 10, 11, 12];
    let t = tex(2, 2, &rgb);
    assert_eq!(t.width(), 2);
    assert_eq!(t.height(), 2);
    assert_eq!(t.sample(0, 0), 0x010203);
    assert_eq!(t.sample(1, 0), 0x040506);
    assert_eq!(t.sample(0, 1), 0x070809);
    assert_eq!(t.sample(1, 1), 0x0A0B0C);
}

#[test]
fn sample_clamps_past_the_edges() {
    let rgb = [1u8, 2, 3, 4, 5, 6, 7, 8, 9, 10, 11, 12, 13, 14, 15, 16, 17, 18];
    let t = tex(3, 2, &rgb);
    assert_eq!(t.sample(3, 0), t.sample(2, 0));
    assert_eq!(t.sample(100, 100), 0x101112);
    assert_eq!(t.sample(0, 7), 0x0A0B0C);
    assert_eq!(t.sample(usize::MAX, usize::MAX), 0x101112);
}

#[test]
fn manager_uses_own_texture_or_fallback() {
    let wall = tex(1, 1, &[1, 1, 1]);
    let door = tex(1, 1, &[2, 2, 2]);
    let fallback = tex(1, 1, &[9, 9, 9]);
    let m = TextureManager::new(vec![('+', wall), ('g', door)], fallback);
    assert_eq!(m.texture('+').sample(0, 0), 0x010101);
    assert_eq!(m.texture('g').sample(0, 0), 0x020202);
    assert_eq!(m.texture('|').sample(0, 0), 0x090909);
    assert_eq!(m.texture(' ').sample(0, 0), 0x090909);
}

#[test]
fn manager_keeps_last_texture_for_a_character() {
    let first = tex(1, 1, &[1, 0, 0]);
    let second = tex(1, 1, &[2, 0, 0]);
    let other = tex(1, 1, &[3, 0, 0]);
    let fallback = tex(1, 1, &[0, 0, 0]);
    let m = TextureManager::new(vec![('-', first), ('|', other), ('-', second)], fallback);
    assert_eq!(m.texture('-').sample(0, 0), 0x020000);
    assert_eq!(m.texture('|').sample(0, 0), 0x030000);
}

#[test]
fn manager_with_no_entries_draws_fallback() {
    let fallback = tex(2, 1, &[5, 6, 7, 8, 9, 10]);
    let m = TextureManager::new(Vec::new(), fallback);
    assert_eq!(m.texture('+').sample(1, 0), 0x08090A);
    assert_eq!(m.texture('+').width(), 2);
}

#[test]
fn faces_compare() {
    assert!(Face::Vertical == Face::Vertical);
    assert!(Face::Vertical != Face::Horizontal);
}
