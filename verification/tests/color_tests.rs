use falconshot::color::{ColorPicker, PixelColor, MAX_HISTORY};
use falconshot::pixels::RgbaImage;

#[test]
fn test_hex_format() {
    let c = PixelColor::new(255, 128, 0, 255);
    assert_eq!(c.hex(), "#FF8000");
    assert_eq!(c.hex_with_alpha(), "#FF8000FF");
}

#[test]
fn test_rgb_string() {
    let c = PixelColor::new(10, 20, 30, 255);
    assert_eq!(c.rgb_string(), "rgb(10, 20, 30)");
}

#[test]
fn test_pick_from_image() {
    let img = RgbaImage::from_pixel(10, 10, PixelColor::new(100, 150, 200, 255));
    let mut picker = ColorPicker::new();
    let color = picker.pick_from_image(&img, 5, 5).unwrap();
    assert_eq!(color, PixelColor::new(100, 150, 200, 255));
    assert_eq!(picker.history().len(), 1);
}

#[test]
fn test_pick_out_of_bounds() {
    let img = RgbaImage::new(10, 10);
    let mut picker = ColorPicker::new();
    assert!(picker.pick_from_image(&img, 20, 20).is_none());
}

#[test]
fn test_average_color() {
    let img = RgbaImage::from_pixel(10, 10, PixelColor::new(100, 100, 100, 255));
    let picker = ColorPicker::new();
    let avg = picker.average_color(&img, 5, 5, 2).unwrap();
    assert_eq!(avg, PixelColor::new(100, 100, 100, 255));
}

#[test]
fn test_history_dedup() {
    let mut picker = ColorPicker::new();
    let c = PixelColor::new(255, 0, 0, 255);
    picker.add_to_history(c);
    picker.add_to_history(PixelColor::new(0, 255, 0, 255));
    picker.add_to_history(c);
    assert_eq!(picker.history().len(), 2);
    assert_eq!(picker.history()[0], c);
}

#[test]
fn rgba_string_matches_float_formatting_for_every_alpha() {
    for a in 0..=255u8 {
        let c = PixelColor::new(1, 2, 3, a);
        let expected = format!("rgba(1, 2, 3, {:.2})", a as f32 / 255.0);
        assert_eq!(c.rgba_string(), expected, "alpha {a}");
    }
}

#[test]
fn history_is_capped_newest_first() {
    let mut picker = ColorPicker::new();
    for i in 0..30u8 {
        picker.add_to_history(PixelColor::new(i, 0, 0, 255));
    }
    assert_eq!(picker.history().len(), MAX_HISTORY);
    assert_eq!(picker.history()[0], PixelColor::new(29, 0, 0, 255));
    assert_eq!(picker.history()[MAX_HISTORY - 1], PixelColor::new(10, 0, 0, 255));
    picker.clear_history();
    assert!(picker.history().is_empty());
}

#[test]
fn average_is_clipped_to_the_image_and_averages_alpha() {
    let mut img = RgbaImage::from_pixel(3, 3, PixelColor::new(0, 0, 0, 0));
    img.put_pixel(0, 0, PixelColor::new(40, 80, 120, 200));
    let picker = ColorPicker::new();
    // Radius 1 around the corner covers the 2 x 2 block at the origin.
    let avg = picker.average_color(&img, 0, 0, 1).unwrap();
    assert_eq!(avg, PixelColor::new(10, 20, 30, 50));
    // A point far outside the image has no neighbourhood.
    assert!(picker.average_color(&img, 10, 10, 2).is_none());
}
