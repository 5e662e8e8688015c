use bettershot::ShotError;
use bettershot::compose::{
    Background, CropRegion, EffectiveSettings, Image, Pixel, RenderSettings, ShadowSettings, blur,
    crop, effective, new_filled, render, render_fits, try_render,
};

fn px(r: u8, g: u8, b: u8, a: u8) -> Pixel {
    Pixel { r, g, b, a }
}

fn checkerboard(w: usize, h: usize) -> Image {
    let mut pixels = Vec::new();
    for y in 0..h {
        for x in 0..w {
            if (x + y) % 2 == 0 {
                pixels.push(px(255, 0, 0, 255));
            } else {
                pixels.push(px(0, 0, 255, 128));
            }
        }
    }
    Image { width: w, height: h, pixels }
}

fn neutral_settings() -> RenderSettings {
    RenderSettings {
        background: Background::Transparent,
        padding: 0,
        corner_radius: 0,
        shadow: ShadowSettings { enabled: false, blur: 0, offset_x: 0, offset_y: 0, opacity: 0 },
        content_blur: 0,
    }
}

#[test]
fn crop_inside_yields_exact_region_size() {
    let img = checkerboard(8, 6);
    let out = crop(&img, CropRegion { x: 2, y: 1, width: 4, height: 3 }).unwrap();
    assert_eq!(out.width, 4);
    assert_eq!(out.height, 3);
    for j in 0..3 {
        for i in 0..4 {
            assert_eq!(out.get(i, j), img.get(2 + i, 1 + j));
        }
    }
}

#[test]
fn crop_partially_outside_clamps_to_intersection() {
    let img = checkerboard(8, 6);
    let out = crop(&img, CropRegion { x: 6, y: 4, width: 10, height: 10 }).unwrap();
    assert_eq!(out.width, 2);
    assert_eq!(out.height, 2);
    assert_eq!(out.get(0, 0), img.get(6, 4));
    assert_eq!(out.get(1, 1), img.get(7, 5));
}

#[test]
fn crop_zero_area_intersection_fails_with_invalid_region() {
    let img = checkerboard(8, 6);
    let r = crop(&img, CropRegion { x: 8, y: 0, width: 4, height: 4 });
    assert_eq!(r, Err(ShotError::InvalidRegion));
    let r = crop(&img, CropRegion { x: 0, y: 0, width: 0, height: 4 });
    assert_eq!(r, Err(ShotError::InvalidRegion));
    let r = crop(&img, CropRegion { x: 0, y: 6, width: 3, height: 1 });
    assert_eq!(r, Err(ShotError::InvalidRegion));
}

#[test]
fn crop_200x200_center_region_gives_50x50() {
    let img = checkerboard(200, 200);
    let out = crop(&img, CropRegion { x: 100, y: 100, width: 50, height: 50 }).unwrap();
    assert_eq!(out.width, 50);
    assert_eq!(out.height, 50);
    assert_eq!(out.get(0, 0), img.get(100, 100));
    assert_eq!(out.get(49, 49), img.get(149, 149));
}

#[test]
fn render_neutral_settings_is_pixel_identical() {
    let img = checkerboard(10, 7);
    let e = effective(neutral_settings());
    assert!(render_fits(&img, e));
    let out = render(&img, e);
    assert_eq!(out.width, 10);
    assert_eq!(out.height, 7);
    for y in 0..7 {
        for x in 0..10 {
            assert_eq!(out.get(x, y), img.get(x, y));
        }
    }
}

#[test]
fn render_100x100_with_padding_20_gives_140x140() {
    let img = checkerboard(100, 100);
    let settings = RenderSettings {
        background: Background::Solid(px(255, 255, 255, 255)),
        padding: 20,
        corner_radius: 8,
        shadow: ShadowSettings { enabled: false, blur: 0, offset_x: 0, offset_y: 0, opacity: 0 },
        content_blur: 0,
    };
    let out = try_render(&img, settings).unwrap();
    assert_eq!(out.width, 140);
    assert_eq!(out.height, 140);
    // the padding border shows the white background
    assert_eq!(out.get(0, 0), px(255, 255, 255, 255));
    assert_eq!(out.get(139, 139), px(255, 255, 255, 255));
    // the content centre is laid over it unchanged (opaque source pixel)
    assert_eq!(out.get(70, 70), img.get(50, 50));
}

#[test]
fn render_negative_settings_are_treated_as_zero() {
    let img = checkerboard(6, 6);
    let settings = RenderSettings {
        background: Background::Transparent,
        padding: -5,
        corner_radius: -3,
        shadow: ShadowSettings { enabled: false, blur: -1, offset_x: -2, offset_y: -2, opacity: -9 },
        content_blur: -4,
    };
    let out = try_render(&img, settings).unwrap();
    assert_eq!(out.width, 6);
    assert_eq!(out.height, 6);
    for y in 0..6 {
        for x in 0..6 {
            assert_eq!(out.get(x, y), img.get(x, y));
        }
    }
}

#[test]
fn render_oversized_padding_fails_with_encode_error() {
    let img = checkerboard(4, 4);
    let settings = RenderSettings {
        background: Background::Transparent,
        padding: i64::MAX,
        corner_radius: 0,
        shadow: ShadowSettings { enabled: false, blur: 0, offset_x: 0, offset_y: 0, opacity: 0 },
        content_blur: 0,
    };
    let r = try_render(&img, settings);
    assert!(matches!(r, Err(ShotError::EncodeError)));
}

#[test]
fn render_corner_radius_clears_the_corner_pixel() {
    let img = new_filled(20, 20, px(10, 20, 30, 255));
    let settings = RenderSettings {
        background: Background::Transparent,
        padding: 0,
        corner_radius: 6,
        shadow: ShadowSettings { enabled: false, blur: 0, offset_x: 0, offset_y: 0, opacity: 0 },
        content_blur: 0,
    };
    let out = try_render(&img, settings).unwrap();
    // corner pixel is cut to transparent, centre is kept
    assert_eq!(out.get(0, 0).a, 0);
    assert_eq!(out.get(10, 10), px(10, 20, 30, 255));
}

#[test]
fn render_shadow_darkens_the_offset_border() {
    let img = new_filled(10, 10, px(200, 200, 200, 255));
    let settings = RenderSettings {
        background: Background::Solid(px(255, 255, 255, 255)),
        padding: 8,
        corner_radius: 0,
        shadow: ShadowSettings { enabled: true, blur: 0, offset_x: 4, offset_y: 4, opacity: 200 },
        content_blur: 0,
    };
    let out = try_render(&img, settings).unwrap();
    assert_eq!(out.width, 26);
    // below-right of the content the shadow silhouette covers the background
    let shadowed = out.get(20, 20);
    assert!(shadowed.r < 255 && shadowed.g < 255 && shadowed.b < 255);
    // far corner stays pure background
    assert_eq!(out.get(0, 0), px(255, 255, 255, 255));
}

#[test]
fn render_gradient_background_interpolates_top_to_bottom() {
    let img = new_filled(2, 2, px(0, 0, 0, 255));
    let settings = RenderSettings {
        background: Background::VerticalGradient(px(0, 0, 0, 255), px(255, 255, 255, 255)),
        padding: 50,
        corner_radius: 0,
        shadow: ShadowSettings { enabled: false, blur: 0, offset_x: 0, offset_y: 0, opacity: 0 },
        content_blur: 0,
    };
    let out = try_render(&img, settings).unwrap();
    assert_eq!(out.height, 102);
    let top = out.get(0, 0);
    let bottom = out.get(0, 101);
    assert_eq!(top, px(0, 0, 0, 255));
    assert_eq!(bottom, px(255, 255, 255, 255));
    let mid = out.get(0, 50);
    assert!(mid.r > 100 && mid.r < 150);
}

#[test]
fn blur_zero_radius_is_identity() {
    let img = checkerboard(9, 5);
    let out = blur(&img, 0);
    for y in 0..5 {
        for x in 0..9 {
            assert_eq!(out.get(x, y), img.get(x, y));
        }
    }
}

#[test]
fn blur_is_deterministic_and_averages() {
    let img = checkerboard(9, 5);
    let a = blur(&img, 2);
    let b = blur(&img, 2);
    for y in 0..5 {
        for x in 0..9 {
            assert_eq!(a.get(x, y), b.get(x, y));
        }
    }
    // a uniform image blurs to itself
    let flat = new_filled(7, 7, px(40, 50, 60, 255));
    let fb = blur(&flat, 3);
    for y in 0..7 {
        for x in 0..7 {
            assert_eq!(fb.get(x, y), px(40, 50, 60, 255));
        }
    }
}

#[test]
fn blur_with_positive_radius_mixes_neighbours() {
    // two-pixel row: full box window averages both pixels into each
    let img = Image {
        width: 2,
        height: 1,
        pixels: vec![px(0, 0, 0, 255), px(255, 255, 255, 255)],
    };
    let out = blur(&img, 1);
    assert_eq!(out.get(0, 0), px(127, 127, 127, 255));
    assert_eq!(out.get(1, 0), px(127, 127, 127, 255));
}

#[test]
fn source_raster_is_never_modified() {
    let img = checkerboard(8, 8);
    let copy: Vec<Pixel> = img.pixels.clone();
    let _ = crop(&img, CropRegion { x: 1, y: 1, width: 4, height: 4 }).unwrap();
    let _ = try_render(&img, neutral_settings()).unwrap();
    let _ = blur(&img, 2);
    assert_eq!(img.pixels, copy);
}

#[test]
fn effective_clamps_every_field() {
    let e: EffectiveSettings = effective(RenderSettings {
        background: Background::Transparent,
        padding: -1,
        corner_radius: 7,
        shadow: ShadowSettings {
            enabled: true,
            blur: -10,
            offset_x: 3,
            offset_y: -3,
            opacity: 999,
        },
        content_blur: 2,
    });
    assert_eq!(e.pad, 0);
    assert_eq!(e.corner_radius, 7);
    assert_eq!(e.blur_radius, 2);
    assert!(e.shadow_on);
    assert_eq!(e.shadow_blur, 0);
    assert_eq!(e.shadow_dx, 3);
    assert_eq!(e.shadow_dy, 0);
    assert_eq!(e.shadow_opacity, 255);
}
