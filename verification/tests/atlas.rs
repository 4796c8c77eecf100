use daub::atlas::{
    extrude_gutter, grow_dimension, image_byte_len, pixel_offset, AtlasRegion, ImageAtlas, ImageAtlasError,
    BYTES_PER_PIXEL,
};

fn pixel(pixels: &[u8], width: u32, x: u32, y: u32) -> [u8; BYTES_PER_PIXEL] {
    let offset = pixel_offset(x, y, width);
    let mut out = [0u8; BYTES_PER_PIXEL];
    out.copy_from_slice(&pixels[offset..offset + BYTES_PER_PIXEL]);
    out
}

#[test]
fn rejects_invalid_source_images() {
    let mut atlas = ImageAtlas::new(wgpu::Limits::default().max_texture_dimension_2d);

    assert_eq!(
        atlas.add_rgba8(0, 1, &[]).err(),
        Some(ImageAtlasError::EmptyImage { width: 0, height: 1 })
    );
    assert_eq!(
        atlas.add_rgba8(2, 2, &[0; 15]).err(),
        Some(ImageAtlasError::InvalidDataLength { width: 2, height: 2, expected: 16, actual: 15 })
    );
}

#[test]
fn add_returns_the_final_image_handle() {
    let mut atlas = ImageAtlas::new(wgpu::Limits::default().max_texture_dimension_2d);
    let placement = atlas.add_rgba8(4, 2, &[255; 32]).expect("the image is accepted");

    assert_eq!((placement.region.width, placement.region.height), (4, 2));
}

#[test]
fn existing_handles_follow_texture_growth() {
    let mut atlas = ImageAtlas::with_initial_size(4, 64);
    let first = atlas.add_rgba8(1, 1, &[255; BYTES_PER_PIXEL]).expect("the image is accepted");
    let original_region = first.region;
    let second = atlas.add_rgba8(1, 1, &[0; BYTES_PER_PIXEL]).expect("the image is accepted");

    assert_eq!(first.region, original_region);
    assert_eq!(second.region.x, 4);
    assert_eq!((atlas.width(), atlas.height()), (8, 4));
}

#[test]
fn grows_exactly_to_fit_an_oversized_image() {
    let mut atlas = ImageAtlas::with_initial_size(4, 64);

    atlas.add_rgba8(7, 1, &[255; 28]).expect("the image is accepted");

    assert_eq!((atlas.width(), atlas.height()), (9, 4));
}

#[test]
fn extrudes_edge_pixels_into_the_gutter() {
    let red = [255, 0, 0, 255];
    let blue = [0, 0, 255, 128];
    let padded = extrude_gutter(2, 1, &[red, blue].concat());

    for y in 0..3 {
        assert_eq!(pixel(&padded, 4, 0, y), red);
        assert_eq!(pixel(&padded, 4, 1, y), red);
        assert_eq!(pixel(&padded, 4, 2, y), blue);
        assert_eq!(pixel(&padded, 4, 3, y), blue);
    }
}

#[test]
fn new_atlas_starts_at_the_initial_size_under_the_limit() {
    let atlas = ImageAtlas::new(8192);
    assert_eq!((atlas.width(), atlas.height(), atlas.limit()), (256, 256, 8192));
    let small = ImageAtlas::new(100);
    assert_eq!((small.width(), small.height(), small.limit()), (100, 100, 100));
    let zero = ImageAtlas::new(0);
    assert_eq!((zero.width(), zero.height(), zero.limit()), (1, 1, 1));
}

#[test]
fn rejects_images_that_exceed_the_limit_with_their_gutter() {
    let mut atlas = ImageAtlas::new(4);
    assert_eq!(
        atlas.add_rgba8(3, 1, &[0; 12]).err(),
        Some(ImageAtlasError::ImageTooLarge { width: 3, height: 1, limit: 4 })
    );
    assert!(atlas.add_rgba8(2, 2, &[0; 16]).is_ok());
}

#[test]
fn reports_a_full_atlas_only_at_the_limit() {
    let mut atlas = ImageAtlas::with_initial_size(2, 4);
    let placement = atlas.add_rgba8(2, 2, &[7; 16]).expect("the image is accepted");
    assert_eq!(placement.padded_region, AtlasRegion { x: 0, y: 0, width: 4, height: 4 });
    assert_eq!((atlas.width(), atlas.height()), (4, 4));
    assert_eq!(atlas.add_rgba8(1, 1, &[0; 4]).err(), Some(ImageAtlasError::AtlasFull { limit: 4 }));
    assert_eq!((atlas.width(), atlas.height()), (4, 4));
}

#[test]
fn placements_share_a_shelf_then_open_a_new_one() {
    let mut atlas = ImageAtlas::with_initial_size(8, 8);
    let a = atlas.add_rgba8(1, 2, &[1; 8]).expect("the image is accepted");
    let b = atlas.add_rgba8(1, 1, &[2; 4]).expect("the image is accepted");
    let c = atlas.add_rgba8(4, 1, &[3; 16]).expect("the image is accepted");
    assert_eq!(a.padded_region, AtlasRegion { x: 0, y: 0, width: 3, height: 4 });
    assert_eq!(b.padded_region, AtlasRegion { x: 3, y: 0, width: 3, height: 3 });
    assert_eq!(c.padded_region, AtlasRegion { x: 0, y: 4, width: 6, height: 3 });
    assert_eq!(c.region, AtlasRegion { x: 1, y: 5, width: 4, height: 1 });
    assert_eq!(c.pixels.len(), 6 * 3 * 4);
    assert_eq!((atlas.width(), atlas.height()), (8, 8));
}

#[test]
fn placement_pixels_carry_the_gutter() {
    let mut atlas = ImageAtlas::with_initial_size(8, 8);
    let p = atlas.add_rgba8(1, 1, &[9, 8, 7, 6]).expect("the image is accepted");
    assert_eq!(p.pixels, [9, 8, 7, 6].repeat(9));
}

#[test]
fn growth_doubles_the_shorter_edge_up_to_the_limit() {
    assert_eq!(grow_dimension(4, 64), 8);
    assert_eq!(grow_dimension(40, 64), 64);
    assert_eq!(grow_dimension(0x8000_0000, u32::MAX), u32::MAX);
}

#[test]
fn byte_lengths_and_offsets() {
    assert_eq!(image_byte_len(3, 5), 60);
    assert_eq!(pixel_offset(2, 1, 3), 20);
}

#[test]
fn padded_regions_stay_inside_and_apart_over_many_additions() {
    let mut atlas = ImageAtlas::with_initial_size(4, 128);
    let sizes = [(3u32, 5u32), (7, 2), (1, 1), (10, 4), (2, 9), (6, 6), (1, 12), (15, 1), (4, 4), (8, 3)];
    let mut padded: Vec<AtlasRegion> = Vec::new();
    for (width, height) in sizes {
        let pixels = vec![7u8; (width * height) as usize * BYTES_PER_PIXEL];
        let placement = atlas.add_rgba8(width, height, &pixels).expect("the image fits under the limit");
        assert_eq!(placement.padded_region.width, width + 2);
        assert_eq!(placement.padded_region.height, height + 2);
        padded.push(placement.padded_region);
    }
    for (i, a) in padded.iter().enumerate() {
        assert!(a.x + a.width <= atlas.width() && a.y + a.height <= atlas.height());
        for b in &padded[i + 1..] {
            assert!(
                a.x + a.width <= b.x || b.x + b.width <= a.x || a.y + a.height <= b.y || b.y + b.height <= a.y,
                "{a:?} overlaps {b:?}"
            );
        }
    }
}
