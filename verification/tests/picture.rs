use quest_scrcpy::decoder::Frame;
use quest_scrcpy::picture;
use quest_scrcpy::picture::PixelRect;

fn frame(width: u32, height: u32) -> Frame {
    let rgba = (0..width * height * 4).map(|i| (i * 7 + 3) as u8).collect();
    Frame { width, height, rgba }
}

#[test]
fn shows_frames() {
    let f = Frame { width: 3, height: 1, rgba: vec![1, 2, 3, 255, 9, 8, 7, 0, 255, 101, 0, 128] };
    let image = picture::frame_image(&f);
    assert_eq!(image.size, [3, 1]);
    assert_eq!(image.pixels[0], egui::Color32::from_rgb(1, 2, 3));
    assert_eq!(image.pixels[1], egui::Color32::TRANSPARENT);
    assert_eq!(image.pixels[2].to_array(), [128, 51, 0, 128]);
}

#[test]
fn saves_whole_frames() {
    let s = picture::still(frame(3, 2)).unwrap();
    assert_eq!((s.width, s.height, s.data), (3, 2, frame(3, 2).rgba));
    let short = Frame { width: 3, height: 2, rgba: vec![0; 23] };
    assert!(picture::still(short).is_none());
    let huge = Frame { width: u32::MAX, height: u32::MAX, rgba: vec![0; 4] };
    assert!(picture::still(huge).is_none());
}

#[test]
fn keeps_crops_inside() {
    let all = PixelRect { x0: 0, y0: 0, x1: 10, y1: 5 };
    assert_eq!(picture::crop_rect(10, 5, 0, 0, 10, 5), all);
    assert_eq!(picture::crop_rect(10, 5, 0, 0, usize::MAX, usize::MAX), all);
    let corner = PixelRect { x0: 9, y0: 4, x1: 10, y1: 5 };
    assert_eq!(picture::crop_rect(10, 5, 99, 99, 0, 0), corner);
}

#[test]
fn crops_rows() {
    let f = frame(5, 4);
    let r = PixelRect { x0: 1, y0: 2, x1: 4, y1: 4 };
    let out = picture::crop_rgba(&f, r);
    assert_eq!(out.len(), 3 * 2 * 4);
    for y in 0..2 {
        for x in 0..3 {
            let to = (y * 3 + x) * 4;
            let from = ((y + 2) * 5 + x + 1) * 4;
            assert_eq!(out[to..to + 4], f.rgba[from..from + 4]);
        }
    }
}

#[test]
fn saves_crops() {
    let f = frame(5, 4);
    let s = picture::crop_still(&f, 1, 2, 4, 9).unwrap();
    assert_eq!((s.width, s.height), (3, 2));
    assert_eq!(s.data, picture::crop_rgba(&f, PixelRect { x0: 1, y0: 2, x1: 4, y1: 4 }));
    let empty = Frame { width: 0, height: 4, rgba: vec![] };
    assert_eq!(picture::crop_still(&empty, 0, 0, 1, 1).err(), Some("empty frame"));
}

#[test]
fn swaps_channels_for_encoder() {
    let f = frame(3, 2);
    let out = picture::bgra(&f, 2, 2);
    assert_eq!(out.len(), 16);
    for y in 0..2 {
        for x in 0..2 {
            let from = (y * 3 + x) * 4;
            let to = (y * 2 + x) * 4;
            let p = &f.rgba[from..from + 4];
            assert_eq!(out[to..to + 4], [p[2], p[1], p[0], p[3]]);
        }
    }
}

#[test]
fn names_grid_corners() {
    let g = picture::grid_indices();
    assert_eq!(g.len(), 48 * 48 * 6);
    assert_eq!(g[..6], [0, 1, 49, 1, 50, 49]);
    assert_eq!(g[48 * 6..48 * 6 + 6], [49, 50, 98, 50, 99, 98]);
    assert_eq!(*g.iter().max().unwrap(), 49 * 49 - 1);
}
