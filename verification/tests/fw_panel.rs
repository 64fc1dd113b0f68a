use family_frame::fw::panel::{
    chip_selects, pack_controller_row, solid_byte, Chip, BLACK, BLUE, FRAME_BYTES, GREEN, LANDSCAPE_ROW_BYTES, PROWS, RED,
    ROW_BYTES, WHITE, YELLOW,
};

fn set_pixel(frame: &mut [u8], x: usize, y: usize, colour: u8) {
    let i = y * LANDSCAPE_ROW_BYTES + x / 2;
    if x % 2 == 0 {
        frame[i] = (frame[i] & 0x0F) | ((colour & 0x0F) << 4);
    } else {
        frame[i] = (frame[i] & 0xF0) | (colour & 0x0F);
    }
}

fn nibble(out: &[u8; ROW_BYTES], k: usize, high: bool) -> u8 {
    if high {
        out[k] >> 4
    } else {
        out[k] & 0x0F
    }
}

fn packed(frame: &[u8], prow: usize, half: usize) -> [u8; ROW_BYTES] {
    let mut out = [0u8; ROW_BYTES];
    pack_controller_row(frame, prow, half, &mut out);
    out
}

fn hits(frame: &[u8], colour: u8) -> Vec<(usize, usize, usize, bool)> {
    let mut found = Vec::new();
    for half in 0..2 {
        for prow in 0..PROWS {
            let out = packed(frame, prow, half);
            for k in 0..ROW_BYTES {
                if nibble(&out, k, true) == colour {
                    found.push((half, prow, k, true));
                }
                if nibble(&out, k, false) == colour {
                    found.push((half, prow, k, false));
                }
            }
        }
    }
    found
}

#[test]
fn master_top_left_is_landscape_bottom_left() {
    let mut frame = vec![0u8; FRAME_BYTES];
    set_pixel(&mut frame, 0, 1199, RED);
    assert_eq!(hits(&frame, RED), [(0, 0, 0, true)]);
}

#[test]
fn master_odd_x_uses_low_nibble_of_the_landscape_byte() {
    let mut frame = vec![0u8; FRAME_BYTES];
    set_pixel(&mut frame, 1, 1198, BLUE);
    assert_eq!(hits(&frame, BLUE), [(0, 1, 0, false)]);
}

#[test]
fn slave_starts_at_landscape_y_599() {
    let mut frame = vec![0u8; FRAME_BYTES];
    set_pixel(&mut frame, 0, 599, GREEN);
    assert_eq!(hits(&frame, GREEN), [(1, 0, 0, true)]);
}

#[test]
fn split_does_not_leak_across_halves() {
    let mut frame = vec![0u8; FRAME_BYTES];
    set_pixel(&mut frame, 4, 600, YELLOW);
    set_pixel(&mut frame, 4, 599, RED);
    assert_eq!(hits(&frame, YELLOW), [(0, 4, 299, false)]);
    assert_eq!(hits(&frame, RED), [(1, 4, 0, true)]);
}

#[test]
fn landscape_bottom_right_is_master_last_prow() {
    let mut frame = vec![0u8; FRAME_BYTES];
    set_pixel(&mut frame, 1599, 1199, WHITE);
    assert_eq!(hits(&frame, WHITE), [(0, 1599, 0, true)]);
}

#[test]
fn landscape_top_right_is_slave_last_byte() {
    let mut frame = vec![0x11u8; FRAME_BYTES];
    set_pixel(&mut frame, 1599, 0, BLACK);
    assert_eq!(hits(&frame, BLACK), [(1, 1599, 299, false)]);
}

#[test]
fn every_landscape_pixel_lands_once() {
    // A distinct colour in one pixel per corner region shows up exactly once.
    let mut frame = vec![0u8; FRAME_BYTES];
    set_pixel(&mut frame, 800, 300, GREEN);
    assert_eq!(hits(&frame, GREEN).len(), 1);
}

#[test]
fn chip_select_lines() {
    assert_eq!(chip_selects(Chip::Master), (true, false));
    assert_eq!(chip_selects(Chip::Slave), (false, true));
    assert_eq!(chip_selects(Chip::Both), (true, true));
}

#[test]
fn solid_fill_byte_repeats_the_nibble() {
    assert_eq!(solid_byte(RED), 0x33);
    assert_eq!(solid_byte(WHITE), 0x11);
    assert_eq!(solid_byte(0xF5), 0x55);
}
