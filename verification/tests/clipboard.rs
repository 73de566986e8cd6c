use mofi::clipboard::{
    content_from_decoded, content_from_encoded, content_from_raw_image, push_entry, read_current,
    same_content, ClipboardContent, ClipboardEntry, Pasteboard, Poller, MAX_HISTORY,
};
use mofi::pictures::{read_picture, thumbnail, to_png, THUMBNAIL_HEIGHT};
use mofi::tiff::{keeps_planes, packs_as_jpeg};

fn text(s: &str) -> ClipboardContent {
    ClipboardContent::Text(s.into())
}

fn entry(c: ClipboardContent) -> ClipboardEntry {
    ClipboardEntry { content: c, captured_at: 1 }
}

/// A PNG image of the given size, written by the encoder that the library uses.
fn png(width: u32, height: u32) -> Vec<u8> {
    let img = image::RgbaImage::from_pixel(width, height, image::Rgba([1, 2, 3, 255]));
    let mut out = Vec::new();
    image::DynamicImage::ImageRgba8(img)
        .write_to(&mut std::io::Cursor::new(&mut out), image::ImageFormat::Png)
        .unwrap();
    out
}

fn tiff(width: u32, height: u32) -> Vec<u8> {
    let img = image::RgbaImage::from_pixel(width, height, image::Rgba([9, 8, 7, 255]));
    let mut out = Vec::new();
    image::DynamicImage::ImageRgba8(img)
        .write_to(&mut std::io::Cursor::new(&mut out), image::ImageFormat::Tiff)
        .unwrap();
    out
}

#[test]
fn preview_is_the_first_line_cut_short() {
    assert_eq!(entry(text("  one  \ntwo")).preview(), "one");
    assert_eq!(entry(text("")).preview(), "");
    let long = "x".repeat(81);
    assert_eq!(entry(text(&long)).preview(), format!("{}…", "x".repeat(77)));
    let fits = "y".repeat(80);
    assert_eq!(entry(text(&fits)).preview(), fits);
    let img = ClipboardContent::Image { png: vec![0; 10], width: 640, height: 480 };
    assert_eq!(entry(img).preview(), "Screenshot 640x480");
}

#[test]
fn subtitle_counts() {
    assert_eq!(entry(text("abc")).subtitle(), "3 chars");
    assert_eq!(entry(text("a\nb")).subtitle(), "2 lines · 3 chars");
    assert_eq!(entry(text("")).subtitle(), "0 chars");
    let img = ClipboardContent::Image { png: vec![0; 1536], width: 2, height: 3 };
    assert_eq!(entry(img).subtitle(), "PNG · 2x3 · 2 KiB");
}

#[test]
fn text_and_image_accessors() {
    let t = entry(text("hi"));
    assert_eq!(t.text(), Some("hi"));
    assert_eq!(t.image_png(), None);
    assert!(!t.is_image());
    let i = entry(ClipboardContent::Image { png: vec![1, 2], width: 1, height: 1 });
    assert_eq!(i.text(), None);
    assert_eq!(i.image_png(), Some(&[1u8, 2][..]));
    assert!(i.is_image());
    assert!(same_content(&i.content, &i.content.clone()));
    assert!(!same_content(&i.content, &t.content));
}

#[test]
fn pushing_moves_duplicates_to_the_front() {
    let mut h = vec![entry(text("a")), entry(text("b")), entry(text("c"))];
    push_entry(&mut h, text("b"), 42);
    let seen: Vec<_> = h.iter().map(|e| (e.text().unwrap(), e.captured_at)).collect();
    assert_eq!(seen, vec![("b", 1), ("a", 1), ("c", 1)]);
    push_entry(&mut h, text("d"), 43);
    assert_eq!(h.len(), 4);
    assert_eq!(h[0].captured_at, 43);
}

#[test]
fn a_content_keeps_the_time_of_its_first_capture() {
    let mut h = Vec::new();
    push_entry(&mut h, text("a"), 10);
    push_entry(&mut h, text("b"), 20);
    push_entry(&mut h, text("a"), 30);
    assert_eq!((h[0].text(), h[0].captured_at), (Some("a"), 10));
    push_entry(&mut h, text("a"), 40);
    assert_eq!(h.len(), 2);
    assert_eq!(h[0].captured_at, 10);
    let mut twice = vec![
        ClipboardEntry { content: text("x"), captured_at: 7 },
        ClipboardEntry { content: text("x"), captured_at: 5 },
        ClipboardEntry { content: text("x"), captured_at: 9 },
    ];
    push_entry(&mut twice, text("x"), 11);
    assert_eq!(twice.len(), 1);
    assert_eq!(twice[0].captured_at, 5);
}

#[test]
fn history_keeps_a_hundred() {
    let mut h = Vec::new();
    for i in 0..150 {
        push_entry(&mut h, text(&format!("{i}")), i);
        assert!(h.len() <= MAX_HISTORY);
    }
    assert_eq!(h.len(), 100);
    assert_eq!(h[0].text(), Some("149"));
    assert_eq!(h[99].text(), Some("50"));
}

#[test]
fn images_are_compared_by_their_bytes() {
    let img = |b: u8| ClipboardContent::Image { png: vec![b], width: 1, height: 1 };
    let mut h = Vec::new();
    push_entry(&mut h, img(1), 1);
    push_entry(&mut h, img(2), 2);
    push_entry(&mut h, img(1), 3);
    assert_eq!(h.len(), 2);
    assert_eq!(h[0].image_png(), Some(&[1u8][..]));
}

#[test]
fn decoded_images_become_png() {
    match content_from_raw_image(&png(3, 2), true) {
        Some(ClipboardContent::Image { png, width, height }) => {
            assert_eq!((width, height), (3, 2));
            assert_eq!(&png[1..4], b"PNG");
        }
        _ => panic!("expected an image"),
    }
    let raw = tiff(4, 5);
    match content_from_raw_image(&raw, false) {
        Some(ClipboardContent::Image { png, width, height }) => {
            assert_eq!((width, height), (4, 5));
            assert_eq!(&png[1..4], b"PNG");
            assert_ne!(png, raw);
        }
        _ => panic!("expected an image"),
    }
    assert!(content_from_raw_image(b"nonsense", true).is_none());
    assert!(content_from_raw_image(&png(1, 1), false).is_none());
}

#[test]
fn empty_and_oversized_images_are_refused() {
    assert!(content_from_decoded(None).is_none());
    assert!(content_from_decoded(Some((0, 5, 4, 4, vec![]))).is_none());
    assert!(content_from_decoded(Some((5, 0, 4, 4, vec![]))).is_none());
    assert!(content_from_decoded(Some((1, 1, 4, 4, vec![1, 2, 3]))).is_none());
    assert!(content_from_decoded(Some((1, 1, 7, 5, vec![0; 7]))).is_none());
    assert!(content_from_decoded(Some((1, 1, 4, 4, vec![1, 2, 3, 4]))).is_some());
    assert!(content_from_encoded(5, 5, None).is_none());
    assert!(content_from_encoded(5, 5, Some(vec![0; 8 * 1024 * 1024 + 1])).is_none());
    assert!(content_from_encoded(5, 5, Some(vec![0; 8 * 1024 * 1024])).is_some());
}

/// A TIFF file with the given entries (tag, kind, count and value) and then the given bytes,
/// which start at the position that [`behind`] gives.
fn tiff_file(big: bool, wide: bool, entries: &[(u16, u16, u64, u64)], bytes: &[u8]) -> Vec<u8> {
    let number = |n: u64, size: usize| -> Vec<u8> {
        if big {
            n.to_be_bytes()[8 - size..].to_vec()
        } else {
            n.to_le_bytes()[..size].to_vec()
        }
    };
    let long = if wide { 8 } else { 4 };
    let mut f: Vec<u8> = if big { b"MM".to_vec() } else { b"II".to_vec() };
    f.extend(number(if wide { 43 } else { 42 }, 2));
    if wide {
        f.extend(number(8, 2));
        f.extend(number(0, 2));
    }
    f.extend(number(if wide { 16 } else { 8 }, long));
    f.extend(number(entries.len() as u64, if wide { 8 } else { 2 }));
    for &(tag, kind, count, value) in entries {
        f.extend(number(tag as u64, 2));
        f.extend(number(kind as u64, 2));
        f.extend(number(count, long));
        let size = match kind {
            1 => 1,
            3 if count == 1 => 2,
            4 if count == 1 => 4,
            _ => long,
        };
        let mut field = number(value, size);
        field.resize(long, 0);
        f.extend(field);
    }
    f.extend(number(0, long));
    assert_eq!(f.len() as u64, behind(wide, entries.len() as u64));
    f.extend(bytes);
    f
}

/// The position behind a directory.
fn behind(wide: bool, entries: u64) -> u64 {
    if wide {
        16 + 8 + entries * 20 + 8
    } else {
        8 + 2 + entries * 12 + 4
    }
}

/// A TIFF file of one pixel, with its samples kept together or apart.
fn tiff_of_one_pixel(photometric: u64, samples: u64, planar: u64) -> Vec<u8> {
    let at = behind(false, 10);
    let (bits, offsets, counts, data) = (at, at + 8, at + 24, at + 40);
    let strips = if planar == 2 { samples } else { 1 };
    let mut bytes: Vec<u8> = Vec::new();
    for _ in 0..4 {
        bytes.extend(8u16.to_le_bytes());
    }
    for i in 0..4u32 {
        bytes.extend((data as u32 + i).to_le_bytes());
    }
    for _ in 0..4 {
        bytes.extend(1u32.to_le_bytes());
    }
    bytes.extend([10, 20, 30, 40]);
    let entries = [
        (256, 3, 1, 1),
        (257, 3, 1, 1),
        (258, 3, samples, if samples == 1 { 8 } else { bits }),
        (259, 3, 1, 1),
        (262, 3, 1, photometric),
        (273, 4, strips, if strips == 1 { data } else { offsets }),
        (277, 3, 1, samples),
        (278, 3, 1, 1),
        (279, 4, strips, if strips == 1 { samples } else { counts }),
        (284, 3, 1, planar),
    ];
    tiff_file(false, false, &entries, &bytes)
}

#[test]
fn a_tiff_file_with_separate_channels_is_refused() {
    assert!(content_from_raw_image(&tiff_of_one_pixel(2, 3, 2), false).is_none());
    assert!(content_from_raw_image(&tiff_of_one_pixel(2, 4, 2), false).is_none());
    assert!(matches!(
        content_from_raw_image(&tiff_of_one_pixel(2, 3, 1), false),
        Some(ClipboardContent::Image { width: 1, height: 1, .. })
    ));
    let (w, h, size, channels, pixels) = read_picture(&tiff_of_one_pixel(2, 3, 1), false).unwrap();
    assert_eq!((w, h, size, channels, pixels), (1, 1, 3, 3, vec![10, 20, 30]));
    let gray = read_picture(&tiff_of_one_pixel(1, 1, 2), false);
    assert_eq!(gray, Some((1, 1, 1, 1, vec![10])));
    let tall = [
        (256, 3, 1, 1),
        (257, 4, 1, u32::MAX as u64),
        (258, 3, 1, 8),
        (259, 3, 1, 1),
        (262, 3, 1, 2),
        (273, 4, 1, 8),
        (277, 3, 1, 3),
        (278, 3, 1, 1),
        (279, 4, 1, 1),
        (284, 3, 1, 2),
    ];
    for (big, wide) in [(false, false), (true, false), (false, true), (true, true)] {
        assert!(read_picture(&tiff_file(big, wide, &tall, &[]), false).is_none());
    }
}

#[test]
fn a_tiff_file_for_print_becomes_red_green_and_blue() {
    let (w, h, size, channels, pixels) = read_picture(&tiff_of_one_pixel(5, 4, 1), false).unwrap();
    assert_eq!((w, h, size, channels, pixels.len()), (1, 1, 3, 3, 3));
}

#[test]
fn planes_are_found_in_the_directory() {
    for (big, wide) in [(false, false), (true, false), (false, true), (true, true)] {
        let of = |entries: &[(u16, u16, u64, u64)]| tiff_file(big, wide, entries, &[]);
        assert!(keeps_planes(&of(&[(277, 3, 1, 3), (284, 3, 1, 2)])));
        assert!(keeps_planes(&of(&[(284, 1, 1, 2), (277, 4, 1, 2), (256, 3, 1, 9)])));
        assert!(!keeps_planes(&of(&[(277, 3, 1, 3), (284, 3, 1, 1)])));
        assert!(!keeps_planes(&of(&[(277, 3, 1, 1), (284, 3, 1, 2)])));
        assert!(!keeps_planes(&of(&[(284, 3, 1, 2)])));
        assert!(!keeps_planes(&of(&[(277, 3, 2, 3), (284, 3, 1, 2)])));
        assert!(!keeps_planes(&of(&[(277, 8, 1, 3), (284, 3, 1, 2)])));
        let all = of(&[(277, 3, 1, 3), (284, 3, 1, 2)]);
        let end = if wide { 16 + 8 + 40 } else { 8 + 2 + 24 };
        assert!(keeps_planes(&all[..end]));
        assert!(!keeps_planes(&all[..end - 1]));
        let mut other = all.clone();
        other[0] = b'J';
        assert!(!keeps_planes(&other));
    }
    assert!(!keeps_planes(&[]));
    assert!(!keeps_planes(b"II*\0\xff\xff\xff\xff"));
    assert!(!keeps_planes(b"II+\0\x08\0\0\0\xff\xff\xff\xff\xff\xff\xff\xff"));
}

#[test]
fn long_numbers_of_a_directory_are_found() {
    let entries = [(277, 3, 1, 3), (284, 16, 1, 2)];
    assert!(keeps_planes(&tiff_file(false, true, &entries, &[])));
    assert!(keeps_planes(&tiff_file(true, true, &entries, &[])));
    let elsewhere = [(277, 3, 1, 3), (284, 16, 1, behind(false, 2))];
    assert!(keeps_planes(&tiff_file(false, false, &elsewhere, &2u64.to_le_bytes())));
    assert!(keeps_planes(&tiff_file(true, false, &elsewhere, &2u64.to_be_bytes())));
    assert!(!keeps_planes(&tiff_file(true, false, &elsewhere, &2u64.to_le_bytes())));
    assert!(!keeps_planes(&tiff_file(false, false, &elsewhere, &[2, 0, 0])));
}

#[test]
fn entries_of_no_kind_take_twelve_bytes() {
    let narrow = [(256, 14, 1, 1), (277, 3, 1, 3), (284, 3, 1, 2)];
    assert!(keeps_planes(&tiff_file(false, false, &narrow, &[])));
    let mut wide = tiff_file(false, true, &[(277, 3, 1, 3), (284, 3, 1, 2)], &[]);
    wide[16] = 3;
    let mut strange = 256u16.to_le_bytes().to_vec();
    strange.extend(14u16.to_le_bytes());
    strange.extend([0; 8]);
    wide.splice(24..24, strange);
    assert!(keeps_planes(&wide));
    wide.splice(36..36, [0; 8]);
    assert!(!keeps_planes(&wide));
}

#[test]
fn a_tiff_file_packed_as_jpeg_is_refused() {
    for (big, wide) in [(false, false), (true, false), (false, true), (true, true)] {
        let with = |n: u64| tiff_file(big, wide, &[(256, 3, 1, 1), (259, 3, 1, n)], &[]);
        assert!(packs_as_jpeg(&with(7)));
        assert!(!packs_as_jpeg(&with(1)));
        assert!(!packs_as_jpeg(&with(5)));
        assert!(read_picture(&with(7), false).is_none());
    }
    assert!(!packs_as_jpeg(&tiff_of_one_pixel(2, 3, 1)));
}

#[test]
fn samples_of_two_bytes_have_the_higher_first() {
    for (big, wide) in [(false, false), (true, false), (false, true), (true, true)] {
        let entries = [
            (256, 3, 1, 2),
            (257, 3, 1, 1),
            (258, 3, 1, 16),
            (259, 3, 1, 1),
            (262, 3, 1, 1),
            (273, 4, 1, behind(wide, 9)),
            (277, 3, 1, 1),
            (278, 3, 1, 1),
            (279, 4, 1, 4),
        ];
        let samples: [u16; 2] = [0x1234, 0xabcd];
        let mut bytes: Vec<u8> = Vec::new();
        for s in samples {
            bytes.extend(if big { s.to_be_bytes() } else { s.to_le_bytes() });
        }
        let picture = read_picture(&tiff_file(big, wide, &entries, &bytes), false);
        assert_eq!(picture, Some((2, 1, 2, 1, vec![0x12, 0x34, 0xab, 0xcd])));
    }
    let png = to_png(&(2, 1, 2, 1, vec![0x12, 0x34, 0xab, 0xcd])).unwrap();
    let picture = image::load_from_memory(&png).unwrap();
    assert_eq!(picture.as_luma16().unwrap().as_raw(), &vec![0x1234u16, 0xabcd]);
    assert_eq!(read_picture(&png, true), Some((2, 1, 2, 1, vec![0x12, 0x34, 0xab, 0xcd])));
}

#[test]
fn pictures_survive_encoding() {
    for (size, channels) in [(1u8, 1u8), (2, 1), (2, 2), (4, 2), (3, 3), (6, 3), (4, 4), (8, 4)] {
        let bytes: Vec<u8> = (0..2 * 3 * size as u32).map(|i| (i * 7) as u8).collect();
        let picture = (2, 3, size, channels, bytes);
        let png = to_png(&picture).unwrap();
        assert_eq!(read_picture(&png, true), Some(picture));
    }
    assert!(to_png(&(0, 3, 4, 4, vec![])).is_none());
    assert!(to_png(&(1, 1, 12, 3, vec![0; 12])).is_none());
}

#[test]
fn thumbnails_are_eighty_pixels_tall() {
    let image = |w, h| {
        let e = ClipboardEntry {
            content: ClipboardContent::Image { png: png(w, h), width: w, height: h },
            captured_at: 1,
        };
        (e.pixels().unwrap(), e.thumbnail().unwrap())
    };
    let ((w, h, all), (tw, th, small)) = image(200, 160);
    assert_eq!((w, h, all.len()), (200, 160, 200 * 160 * 4));
    assert_eq!((tw, th, small.len()), (100, 80, 100 * 80 * 4));
    assert!(small.chunks(4).all(|p| p == [1, 2, 3, 255]));
    let (full, small) = image(30, 80);
    assert_eq!(full, small);
    assert_eq!(image(1, 1000).1 .0, 1);
    assert_eq!(image(3, 160).1 .0, 2);
    assert!(entry(text("a")).pixels().is_none());
    assert!(entry(text("a")).thumbnail().is_none());
    let broken = ClipboardContent::Image { png: vec![1, 2], width: 1, height: 1 };
    assert!(entry(broken).thumbnail().is_none());
}

#[test]
fn a_thumbnail_takes_pixels_from_the_same_place() {
    let (w, h) = (4u32, 2 * THUMBNAIL_HEIGHT);
    let mut bytes = Vec::new();
    for y in 0..h {
        for x in 0..w {
            bytes.extend([x as u8, y as u8, 9, 255]);
        }
    }
    let (tw, th, small) = thumbnail((w, h, bytes));
    assert_eq!((tw, th), (2, 80));
    for y in 0..th as usize {
        for x in 0..tw as usize {
            let i = (y * 2 + x) * 4;
            assert_eq!(&small[i..i + 4], &[2 * x as u8, 2 * y as u8, 9, 255]);
        }
    }
    assert_eq!(thumbnail((0, 500, vec![])), (0, 500, vec![]));
}

#[test]
fn concealed_content_is_never_captured() {
    let pb = Pasteboard { concealed: true, text: Some("secret".into()), png: None, tiff: None };
    assert!(read_current(pb).is_none());
}

#[test]
fn text_comes_before_images() {
    let pb = Pasteboard {
        concealed: false,
        text: Some("word".into()),
        png: Some(png(1, 1)),
        tiff: None,
    };
    assert_eq!(read_current(pb), Some(text("word")));
    let blank = Pasteboard {
        concealed: false,
        text: Some("  \n".into()),
        png: Some(vec![0]),
        tiff: Some(tiff(2, 2)),
    };
    assert!(matches!(
        read_current(blank),
        Some(ClipboardContent::Image { width: 2, height: 2, .. })
    ));
    let none = Pasteboard { concealed: false, text: None, png: None, tiff: None };
    assert!(read_current(none).is_none());
}

#[test]
fn poller_pushes_what_is_new() {
    let mut h = vec![entry(text("a"))];
    let mut p = Poller::new(&h, 7);
    assert!(!p.changed(7));
    assert!(p.changed(8));
    assert!(!p.observe(Some(text("a")), &mut h, 5));
    assert!(p.observe(Some(text("b")), &mut h, 6));
    assert_eq!(h[0].text(), Some("b"));
    assert!(!p.observe(None, &mut h, 7));
    assert!(p.observe(Some(text("b")), &mut h, 8));
    assert_eq!(h[0].captured_at, 6);
    assert_eq!(h.len(), 2);
}
