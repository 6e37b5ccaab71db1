use falconshot::color::PixelColor;
use falconshot::pixels::{
    apply_mosaic, bgra_to_rgba, decode_dib, decorate_pin, dim_image, encode_dib24, swap_red_blue, GrayImage, RgbaImage,
    PIN_GLOW_MARGIN,
};
use falconshot::transform::{crop, flip_horizontal, flip_vertical, resize, rotate_90, ImageFormat, OcrPreprocessor};

fn numbered(w: u32, h: u32) -> RgbaImage {
    let mut img = RgbaImage::new(w, h);
    for y in 0..h {
        for x in 0..w {
            img.put_pixel(x, y, PixelColor::new((x * 10) as u8, (y * 10) as u8, (x + y) as u8, 255));
        }
    }
    img
}

fn to_image_crate(img: &RgbaImage) -> image::RgbaImage {
    image::RgbaImage::from_raw(img.width(), img.height(), img.as_raw().clone()).unwrap()
}

#[test]
fn mosaic_averages_each_block() {
    let mut img = RgbaImage::new(4, 2);
    img.put_pixel(0, 0, PixelColor::new(10, 20, 30, 7));
    img.put_pixel(1, 0, PixelColor::new(30, 40, 50, 7));
    img.put_pixel(0, 1, PixelColor::new(50, 60, 70, 7));
    img.put_pixel(1, 1, PixelColor::new(70, 80, 90, 7));
    img.put_pixel(2, 0, PixelColor::new(100, 100, 100, 9));
    apply_mosaic(&mut img, 0, 0, 2, 2, 2);
    for (x, y) in [(0, 0), (1, 0), (0, 1), (1, 1)] {
        assert_eq!(img.get_pixel(x, y), PixelColor::new(40, 50, 60, 255));
    }
    // Outside the area nothing changes.
    assert_eq!(img.get_pixel(2, 0), PixelColor::new(100, 100, 100, 9));
}

#[test]
fn mosaic_clips_blocks_at_the_edges() {
    let mut img = numbered(5, 3);
    let orig = img.get_pixel(4, 2);
    apply_mosaic(&mut img, 3, 1, 10, 10, 4);
    // The only block is the 2 x 2 corner (3..5, 1..3).
    let a = [(3, 1), (4, 1), (3, 2), (4, 2)].map(|(x, y)| numbered(5, 3).get_pixel(x, y));
    let r = a.iter().map(|p| p.r as u32).sum::<u32>() / 4;
    let g = a.iter().map(|p| p.g as u32).sum::<u32>() / 4;
    let b = a.iter().map(|p| p.b as u32).sum::<u32>() / 4;
    assert_eq!(img.get_pixel(4, 2), PixelColor::new(r as u8, g as u8, b as u8, 255));
    assert_ne!(orig, img.get_pixel(4, 2));
    assert_eq!(img.get_pixel(0, 0), numbered(5, 3).get_pixel(0, 0));
}

#[test]
fn dimming_scales_channels() {
    let img = RgbaImage::from_pixel(2, 1, PixelColor::new(200, 100, 1, 3));
    let d = dim_image(&img);
    assert_eq!(d.get_pixel(1, 0), PixelColor::new(110, 55, 0, 255));
}

#[test]
fn byte_order_conversions() {
    let bgra = vec![1, 2, 3, 4, 5, 6, 7, 8];
    assert_eq!(bgra_to_rgba(&bgra), vec![3, 2, 1, 255, 7, 6, 5, 255]);
    assert_eq!(swap_red_blue(&[1, 2, 3, 4, 5, 6]), vec![3, 2, 1, 4, 5, 6]);
    let twice = swap_red_blue(&swap_red_blue(&bgra));
    assert_eq!(twice, bgra);
}

#[test]
fn dib_round_trip_keeps_colours_and_drops_alpha() {
    let mut img = numbered(3, 2);
    img.put_pixel(1, 1, PixelColor::new(9, 8, 7, 100));
    let dib = encode_dib24(&img);
    assert_eq!(dib.len(), 40 + 12 * 2);
    assert_eq!(&dib[0..4], &[40, 0, 0, 0]);
    assert_eq!(&dib[14..16], &[24, 0]);
    let back = decode_dib(&dib).unwrap();
    assert_eq!(back.dimensions(), (3, 2));
    for y in 0..2 {
        for x in 0..3 {
            let p = img.get_pixel(x, y);
            assert_eq!(back.get_pixel(x, y), PixelColor::new(p.r, p.g, p.b, 255));
        }
    }
}

#[test]
fn dib_bottom_up_32_bit() {
    let mut d = vec![0u8; 40];
    d[0] = 40;
    d[4] = 1; // width 1
    d[8] = 2; // height 2, positive: bottom row first
    d[14] = 32;
    d.extend_from_slice(&[1, 2, 3, 4]); // bottom row
    d.extend_from_slice(&[5, 6, 7, 8]); // top row
    let img = decode_dib(&d).unwrap();
    assert_eq!(img.get_pixel(0, 0), PixelColor::new(7, 6, 5, 8));
    assert_eq!(img.get_pixel(0, 1), PixelColor::new(3, 2, 1, 4));
}

#[test]
fn dib_refuses_other_depths_and_short_data() {
    let mut d = vec![0u8; 40];
    d[0] = 40;
    d[4] = 1;
    d[8] = 1;
    d[14] = 8;
    assert!(decode_dib(&d).is_none());
    d[14] = 32;
    assert!(decode_dib(&d).is_none());
    assert!(decode_dib(&[1, 2, 3]).is_none());
}

#[test]
fn pin_frame_layout() {
    let img = RgbaImage::from_pixel(3, 3, PixelColor::new(100, 100, 100, 255));
    let halo: Vec<u8> = (0..=PIN_GLOW_MARGIN).map(|d| if d < 2 { 0 } else { (11 - d) as u8 * 10 }).collect();
    let out = decorate_pin(&img, &halo);
    let m = PIN_GLOW_MARGIN;
    assert_eq!(out.dimensions(), (3 + 2 * m, 3 + 2 * m));
    // Centre of the image is untouched; its edge is tinted.
    assert_eq!(out.get_pixel(m + 1, m + 1), PixelColor::new(100, 100, 100, 255));
    assert_eq!(out.get_pixel(m, m + 1), PixelColor::new(60, 129, 162, 255));
    // The ring just outside is the accent colour.
    assert_eq!(out.get_pixel(m - 1, m + 1), PixelColor::new(0, 174, 255, 255));
    // The halo is premultiplied.
    let a = halo[2];
    assert_eq!(out.get_pixel(m - 2, m + 1), PixelColor::new(0, (174 * a as u32 / 255) as u8, a, a));
}

#[test]
fn transforms_match_the_image_crate() {
    let img = numbered(4, 3);
    let ic = image::DynamicImage::ImageRgba8(to_image_crate(&img));
    assert_eq!(rotate_90(&img).into_raw(), ic.rotate90().to_rgba8().into_raw());
    assert_eq!(flip_horizontal(&img).into_raw(), ic.fliph().to_rgba8().into_raw());
    assert_eq!(flip_vertical(&img).into_raw(), ic.flipv().to_rgba8().into_raw());
    let r = rotate_90(&img);
    assert_eq!(r.dimensions(), (3, 4));
    assert_eq!(r.get_pixel(2, 0), img.get_pixel(0, 0));
    assert_ne!(rotate_90(&img).into_raw(), img.as_raw().clone());
}

#[test]
fn crop_takes_the_window() {
    let img = numbered(5, 4);
    let c = crop(&img, 1, 2, 3, 2);
    assert_eq!(c.dimensions(), (3, 2));
    assert_eq!(c.get_pixel(0, 0), img.get_pixel(1, 2));
    assert_eq!(c.get_pixel(2, 1), img.get_pixel(3, 3));
}

#[test]
fn resize_to_same_size_is_a_copy() {
    let img = numbered(4, 3);
    assert_eq!(resize(&img, 4, 3).into_raw(), img.as_raw().clone());
    let big = resize(&img, 8, 6);
    assert_eq!(big.dimensions(), (8, 6));
}

#[test]
fn grayscale_and_threshold() {
    let img = RgbaImage::from_pixel(2, 2, PixelColor::new(255, 255, 255, 255));
    let g = OcrPreprocessor::to_grayscale(&img);
    assert_eq!(g.as_raw(), &vec![255u8; 4]);
    let gray = GrayImage::from_raw(4, 1, vec![0, 100, 101, 255]).unwrap();
    let b = OcrPreprocessor::binarize(&gray, 100);
    assert_eq!(b.as_raw(), &vec![0, 0, 255, 255]);
}

#[test]
fn raw_buffers_must_fit() {
    assert!(RgbaImage::from_raw(2, 2, vec![0; 15]).is_none());
    assert!(RgbaImage::from_raw(2, 2, vec![0; 16]).is_some());
    assert!(GrayImage::from_raw(2, 2, vec![0; 5]).is_none());
}

#[test]
fn file_extensions() {
    assert_eq!(ImageFormat::Png.extension(), "png");
    assert_eq!(ImageFormat::Jpg.extension(), "jpg");
    assert_eq!(ImageFormat::WebP.extension(), "webp");
    assert_eq!(ImageFormat::Bmp.extension(), "bmp");
}
