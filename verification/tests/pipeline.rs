use image_manip::config::Config;
use image_manip::transform::{adjust_rgb_bytes, apply, saturate_channel};

fn plain_config() -> Config {
    Config {
        largura: 0,
        altura: 0,
        manter_proporcao: false,
        espelhamento_horizontal: false,
        espelhamento_vertical: false,
        vermelho: 0,
        verde: 0,
        azul: 0,
        extensao: "jpg".to_string(),
    }
}

fn rgb_image(pixels: &[(u8, u8, u8)], w: u32, h: u32) -> image::DynamicImage {
    let mut buf = image::RgbImage::new(w, h);
    for y in 0..h {
        for x in 0..w {
            let (r, g, b) = pixels[(y * w + x) as usize];
            buf.put_pixel(x, y, image::Rgb([r, g, b]));
        }
    }
    image::DynamicImage::ImageRgb8(buf)
}

#[test]
fn zero_dimension_leaves_size_unchanged() {
    let img = image::DynamicImage::new_rgb8(100, 50);
    let mut c = plain_config();
    c.largura = 0;
    c.altura = 80;
    let out = apply(img, &c);
    assert_eq!(image::GenericImageView::dimensions(&out), (100, 50));
    let img2 = image::DynamicImage::new_rgb8(100, 50);
    c.largura = 80;
    c.altura = 0;
    let out2 = apply(img2, &c);
    assert_eq!(image::GenericImageView::dimensions(&out2), (100, 50));
}

#[test]
fn proportional_resize_fits_box_and_keeps_ratio() {
    let img = image::DynamicImage::new_rgb8(100, 50);
    let mut c = plain_config();
    c.largura = 50;
    c.altura = 50;
    c.manter_proporcao = true;
    let out = apply(img, &c);
    assert_eq!(image::GenericImageView::dimensions(&out), (50, 25));
}

#[test]
fn exact_resize_distorts_to_configured_size() {
    let img = image::DynamicImage::new_rgb8(100, 50);
    let mut c = plain_config();
    c.largura = 30;
    c.altura = 40;
    c.manter_proporcao = false;
    let out = apply(img, &c);
    assert_eq!(image::GenericImageView::dimensions(&out), (30, 40));
}

#[test]
fn horizontal_flip_mirrors_and_twice_restores() {
    let pixels = [(10, 20, 30), (40, 50, 60)];
    let img = rgb_image(&pixels, 2, 1);
    let mut c = plain_config();
    c.espelhamento_horizontal = true;
    let once = apply(img, &c);
    assert_eq!(once.to_rgb8().into_raw(), vec![40, 50, 60, 10, 20, 30]);
    let twice = apply(once, &c);
    assert_eq!(twice.to_rgb8().into_raw(), vec![10, 20, 30, 40, 50, 60]);
}

#[test]
fn vertical_flip_mirrors_and_twice_restores() {
    let pixels = [(1, 2, 3), (4, 5, 6)];
    let img = rgb_image(&pixels, 1, 2);
    let mut c = plain_config();
    c.espelhamento_vertical = true;
    let once = apply(img, &c);
    assert_eq!(once.to_rgb8().into_raw(), vec![4, 5, 6, 1, 2, 3]);
    let twice = apply(once, &c);
    assert_eq!(twice.to_rgb8().into_raw(), vec![1, 2, 3, 4, 5, 6]);
}

#[test]
fn both_flips_rotate_half_turn() {
    let pixels = [(1, 1, 1), (2, 2, 2), (3, 3, 3), (4, 4, 4)];
    let img = rgb_image(&pixels, 2, 2);
    let mut c = plain_config();
    c.espelhamento_horizontal = true;
    c.espelhamento_vertical = true;
    let out = apply(img, &c);
    assert_eq!(
        out.to_rgb8().into_raw(),
        vec![4, 4, 4, 3, 3, 3, 2, 2, 2, 1, 1, 1],
    );
}

#[test]
fn channel_adjustment_saturates_at_bounds() {
    let img = rgb_image(&[(250, 10, 128)], 1, 1);
    let mut c = plain_config();
    c.vermelho = 10;
    c.verde = -20;
    c.azul = 0;
    let out = apply(img, &c);
    assert_eq!(out.to_rgb8().into_raw(), vec![255, 0, 128]);
}

#[test]
fn saturate_channel_clamps_instead_of_wrapping() {
    assert_eq!(saturate_channel(255, 1), 255);
    assert_eq!(saturate_channel(255, 1000), 255);
    assert_eq!(saturate_channel(0, -1), 0);
    assert_eq!(saturate_channel(0, -1000), 0);
    assert_eq!(saturate_channel(100, 50), 150);
    assert_eq!(saturate_channel(100, -50), 50);
}

#[test]
fn adjust_rgb_bytes_picks_delta_by_channel_position() {
    let bytes = vec![10u8, 20, 30, 250, 5, 0];
    let out = adjust_rgb_bytes(&bytes, 10, -10, 100);
    assert_eq!(out, vec![20, 10, 130, 255, 0, 100]);
}

#[test]
fn default_config_copies_image_through() {
    let pixels = [(9, 8, 7), (6, 5, 4)];
    let img = rgb_image(&pixels, 2, 1);
    let c = Config::default();
    let out = apply(img, &c);
    assert_eq!(image::GenericImageView::dimensions(&out), (2, 1));
    assert_eq!(out.to_rgb8().into_raw(), vec![9, 8, 7, 6, 5, 4]);
}
