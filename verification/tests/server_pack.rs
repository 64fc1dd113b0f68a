use family_frame::server::pack::{pack_png_to_spectra6, pack_rgba, solid_png};
use family_frame::sim::{PANEL_BYTES, PANEL_HEIGHT, PANEL_WIDTH};
use image::{Rgba, RgbaImage};

fn pack(img: &RgbaImage) -> Result<Vec<u8>, String> {
    pack_rgba(img.width(), img.height(), img.as_raw())
}

fn nibble_at(bin: &[u8], x: u32, y: u32) -> u8 {
    let i = (y * PANEL_WIDTH + x) as usize;
    let byte = bin[i / 2];
    if i % 2 == 0 {
        byte >> 4
    } else {
        byte & 0x0f
    }
}

#[test]
fn packed_size_is_960000() {
    let png = solid_png(255, 255, 255).unwrap();
    let bin = pack_png_to_spectra6(&png).unwrap();
    assert_eq!(bin.len(), PANEL_BYTES);
    assert!(bin.iter().all(|&b| b == 0x11), "white should pack as 0x11");
}

#[test]
fn black_and_red_nibbles() {
    let mut img = RgbaImage::from_pixel(PANEL_WIDTH, PANEL_HEIGHT, Rgba([0, 0, 0, 255]));
    img.put_pixel(0, 0, Rgba([255, 0, 0, 255]));
    img.put_pixel(1, 0, Rgba([0, 0, 0, 255]));
    let bin = pack(&img).unwrap();
    assert_eq!(bin[0] >> 4, 3, "even column red");
    assert_eq!(bin[0] & 0x0f, 0, "odd column black");
}

#[test]
fn pack_wrong_size_is_rejected() {
    let img = RgbaImage::new(10, 10);
    assert!(pack(&img).is_err());
    assert_eq!(pack(&img).unwrap_err(), "frame must be 1600x1200, got 10x10");
}

#[test]
fn antialiased_gray_does_not_speckle() {
    let mut img = RgbaImage::from_pixel(PANEL_WIDTH, PANEL_HEIGHT, Rgba([255, 255, 255, 255]));
    img.put_pixel(20, 20, Rgba([80, 80, 80, 255]));
    img.put_pixel(20, 21, Rgba([160, 160, 160, 255]));
    img.put_pixel(21, 20, Rgba([210, 180, 160, 255]));
    let bin = pack(&img).unwrap();
    assert_eq!(nibble_at(&bin, 20, 20), 0, "dark gray snaps to black");
    assert_eq!(nibble_at(&bin, 20, 21), 1, "light gray snaps to white");
    assert_eq!(nibble_at(&bin, 21, 20), 1, "LCD fringe snaps without a new colour");
    for (x, y) in [(19, 20), (22, 20), (20, 19), (20, 22), (19, 21), (21, 21), (22, 21)] {
        assert_eq!(nibble_at(&bin, x, y), 1, "halo at {x},{y}");
    }
}

#[test]
fn orange_fill_dithers_yellow_and_red() {
    let mut img = RgbaImage::from_pixel(PANEL_WIDTH, PANEL_HEIGHT, Rgba([255, 255, 255, 255]));
    for y in 200..280 {
        for x in 200..280 {
            img.put_pixel(x, y, Rgba([255, 136, 0, 255]));
        }
    }
    let bin = pack(&img).unwrap();
    let mut yellow = 0;
    let mut red = 0;
    for y in 210..270 {
        for x in 210..270 {
            match nibble_at(&bin, x, y) {
                2 => yellow += 1,
                3 => red += 1,
                other => panic!("unexpected nibble {other} inside orange fill"),
            }
        }
    }
    assert!(yellow > 800 && red > 800, "orange should dither to both inks, yellow={yellow} red={red}");
}

#[test]
fn every_packed_nibble_is_an_ink() {
    let mut img = RgbaImage::new(PANEL_WIDTH, PANEL_HEIGHT);
    for (x, y, p) in img.enumerate_pixels_mut() {
        *p = Rgba([(x * 7 % 256) as u8, (y * 3 % 256) as u8, ((x + y) % 256) as u8, 255]);
    }
    let bin = pack(&img).unwrap();
    assert_eq!(bin.len(), PANEL_BYTES);
    for b in bin {
        for n in [b >> 4, b & 0x0f] {
            assert!([0u8, 1, 2, 3, 5, 6].contains(&n), "nibble {n}");
        }
    }
}

#[test]
fn undecodable_bytes_are_refused() {
    assert_eq!(pack_png_to_spectra6(b"not a png").unwrap_err(), "could not decode the frame image");
}
