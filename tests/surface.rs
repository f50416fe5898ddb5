use libremarkable::canvas::PixelCanvas;
use libremarkable::color::Color;
use libremarkable::framebuffer::{Framebuffer, RegionError, LIGHTEST_BYTE};
use libremarkable::rect::Rect;
use libremarkable::storage::{compress, decompress, CompressedCanvasState, SnapshotStore};
use libremarkable::vector::IntVec2;

fn p(x: i32, y: i32) -> IntVec2 {
    IntVec2 { x, y }
}

fn patterned(xres: u32, yres: u32, line_length: u32) -> Framebuffer {
    let mut fb = Framebuffer::new(xres, yres, line_length).unwrap();
    let mut seed: u32 = 12345;
    for y in 0..yres as i32 {
        for x in 0..xres as i32 {
            seed = seed.wrapping_mul(1103515245).wrapping_add(12345);
            let b = (seed >> 16) as u8;
            fb.write_pixel(p(x, y), Color::Rgb(b, b.wrapping_mul(7), b.wrapping_add(91)));
        }
    }
    fb
}

#[test]
fn new_surface_is_lightest_and_rejects_bad_geometry() {
    let fb = Framebuffer::new(4, 3, 8).unwrap();
    assert_eq!(fb.frame().len(), 24);
    assert!(fb.frame().iter().all(|b| *b == LIGHTEST_BYTE));
    assert!(Framebuffer::new(5, 3, 8).is_none());
    assert!(Framebuffer::new(0, 3, 0).is_none());
}

#[test]
fn write_pixel_stores_native_value_low_byte_first() {
    let mut fb = Framebuffer::new(4, 3, 10).unwrap();
    fb.write_pixel(p(1, 2), Color::Rgb(255, 0, 0));
    let o = 2 * 10 + 1 * 2;
    assert_eq!(fb.frame()[o], 0x00);
    assert_eq!(fb.frame()[o + 1], 0xF8);
    fb.write_pixel(p(4, 0), Color::Black);
    fb.write_pixel(p(-1, 0), Color::Black);
    assert_eq!(fb.frame().iter().filter(|b| **b != LIGHTEST_BYTE).count(), 2);
}

#[test]
fn dump_then_restore_is_identity() {
    let mut fb = patterned(6, 5, 14);
    let before = fb.frame().clone();
    let rect = Rect { top: 1, left: 2, width: 3, height: 3 };
    let d = fb.dump_region(rect).unwrap();
    assert_eq!(d.len(), 3 * 3 * 2);
    assert_eq!(d[0], before[1 * 14 + 2 * 2]);
    fb.restore_region(rect, &d).unwrap();
    assert_eq!(fb.frame(), &before);
}

#[test]
fn region_errors() {
    let mut fb = Framebuffer::new(4, 3, 8).unwrap();
    let too_wide = Rect { top: 0, left: 2, width: 3, height: 1 };
    assert_eq!(fb.dump_region(too_wide), Err(RegionError::OutOfBounds));
    assert_eq!(fb.restore_region(too_wide, &vec![0; 6]), Err(RegionError::OutOfBounds));
    let ok = Rect { top: 0, left: 0, width: 2, height: 2 };
    assert_eq!(fb.restore_region(ok, &vec![0; 7]), Err(RegionError::SizeMismatch));
    assert_eq!(fb.restore_region(ok, &vec![0; 8]), Ok(()));
}

#[test]
fn clear_then_full_dump_is_lightest() {
    let mut fb = patterned(5, 4, 12);
    fb.clear();
    let d = fb.dump_region(fb.full_region()).unwrap();
    assert_eq!(d.len(), 5 * 4 * 2);
    assert!(d.iter().all(|b| *b == LIGHTEST_BYTE));
}

#[test]
fn run_length_codec_round_trips() {
    assert_eq!(compress(&vec![5, 5, 5, 7]), vec![3, 5, 1, 7]);
    let long = vec![9u8; 300];
    assert_eq!(compress(&long), vec![255, 9, 45, 9]);
    assert_eq!(decompress(&vec![255, 9, 45, 9]), long);
    assert_eq!(decompress(&vec![2, 1, 3]), vec![1, 1]);
    let noisy: Vec<u8> = (0..1000u32).map(|i| (i.wrapping_mul(2654435761) >> 13) as u8).collect();
    assert_eq!(decompress(&compress(&noisy)), noisy);
    assert!(compress(&vec![]).is_empty());
}

#[test]
fn compressed_state_keeps_header_and_contents() {
    let raw = vec![1, 1, 2, 3, 3, 3];
    let st = CompressedCanvasState::new(&raw, 1, 3);
    assert_eq!((st.height, st.width), (1, 3));
    assert_eq!(st.compressed_len(), 6);
    assert_eq!(st.decompress(), raw);
}

#[test]
fn snapshot_save_restore_blank_and_noisy() {
    for noisy in [false, true] {
        let mut fb = if noisy { patterned(8, 6, 16) } else { Framebuffer::new(8, 6, 16).unwrap() };
        let rect = Rect { top: 1, left: 1, width: 6, height: 4 };
        let saved = fb.dump_region(rect).unwrap();
        let whole = fb.frame().clone();
        let mut store = SnapshotStore::new();
        assert_eq!(store.restore(&mut fb), Ok(false));
        store.save(&fb, rect).unwrap();
        for y in 0..6 {
            for x in 0..8 {
                fb.write_pixel(p(x, y), Color::Rgb(x as u8 * 30, y as u8 * 40, 7));
            }
        }
        assert_eq!(store.restore(&mut fb), Ok(true));
        assert_eq!(fb.dump_region(rect).unwrap(), saved);
        assert_ne!(fb.frame(), &whole);
        let mut fb2 = if noisy { patterned(8, 6, 16) } else { Framebuffer::new(8, 6, 16).unwrap() };
        store.restore(&mut fb2).unwrap();
        assert_eq!(fb2.frame(), &whole);
    }
}

#[test]
fn snapshot_save_out_of_bounds_keeps_previous() {
    let fb = patterned(4, 4, 8);
    let mut store = SnapshotStore::new();
    assert_eq!(store.save(&fb, Rect { top: 3, left: 0, width: 1, height: 2 }), Err(RegionError::OutOfBounds));
    assert_eq!(store.restore(&mut patterned(4, 4, 8)), Ok(false));
}
