use orbis::image::{Image, ImageError, UnencryptedSlice};
use orbis::overlay::CowImage;

/// An in-memory image for testing.
fn mem_image(data: &Vec<u8>) -> UnencryptedSlice<'_> {
    UnencryptedSlice::new(data)
}

#[test]
fn read_through_no_overlay() {
    let data = vec![0xAA; 100];
    let base = mem_image(&data);
    let cow = CowImage::new(base);

    let mut buf = [0u8; 10];
    let n = cow.read_at(50, &mut buf).unwrap();
    assert_eq!(n, 10);
    assert_eq!(buf, [0xAA; 10]);
}

#[test]
fn write_then_read() {
    let data = vec![0x00; 100];
    let base = mem_image(&data);
    let mut cow = CowImage::new(base);

    cow.write_at(10, &[0xFF; 5]).unwrap();

    // Read spanning the patch boundary.
    let mut buf = [0u8; 20];
    let n = cow.read_at(5, &mut buf).unwrap();
    assert_eq!(n, 20);

    // Bytes 5..10 from base (0x00).
    assert_eq!(&buf[0..5], &[0x00; 5]);
    // Bytes 10..15 from overlay (0xFF).
    assert_eq!(&buf[5..10], &[0xFF; 5]);
    // Bytes 15..25 from base (0x00).
    assert_eq!(&buf[10..20], &[0x00; 10]);
}

#[test]
fn overlapping_writes_merge() {
    let data = vec![0x00; 100];
    let base = mem_image(&data);
    let mut cow = CowImage::new(base);

    cow.write_at(10, &[0xAA; 10]).unwrap(); // [10..20)
    cow.write_at(15, &[0xBB; 10]).unwrap(); // [15..25) — overlaps

    assert_eq!(cow.overlay_segment_count(), 1, "segments should be merged");

    let mut buf = [0u8; 20];
    cow.read_at(10, &mut buf).unwrap();

    // [10..15) = 0xAA, [15..25) = 0xBB, [25..30) = 0x00
    assert_eq!(&buf[0..5], &[0xAA; 5]);
    assert_eq!(&buf[5..15], &[0xBB; 10]);
    assert_eq!(&buf[15..20], &[0x00; 5]);
}

#[test]
fn adjacent_writes_merge() {
    let data = vec![0x00; 100];
    let base = mem_image(&data);
    let mut cow = CowImage::new(base);

    cow.write_at(10, &[0xAA; 5]).unwrap(); // [10..15)
    cow.write_at(15, &[0xBB; 5]).unwrap(); // [15..20) — adjacent

    assert_eq!(
        cow.overlay_segment_count(),
        1,
        "adjacent segments should merge"
    );

    let mut buf = [0u8; 10];
    cow.read_at(10, &mut buf).unwrap();
    assert_eq!(&buf[..5], &[0xAA; 5]);
    assert_eq!(&buf[5..], &[0xBB; 5]);
}

#[test]
fn write_extends_image() {
    let data = vec![0xAA; 50];
    let base = mem_image(&data);
    let mut cow = CowImage::new(base);
    assert_eq!(cow.len(), 50);

    // Write past the end.
    cow.write_at(45, &[0xBB; 20]).unwrap();
    assert_eq!(cow.len(), 65);

    let mut buf = [0u8; 20];
    let n = cow.read_at(45, &mut buf).unwrap();
    assert_eq!(n, 20);
    assert_eq!(&buf[..20], &[0xBB; 20]);
}

#[test]
fn read_past_end_returns_short() {
    let data = vec![0xAA; 10];
    let base = mem_image(&data);
    let cow = CowImage::new(base);

    let mut buf = [0u8; 20];
    let n = cow.read_at(5, &mut buf).unwrap();
    assert_eq!(n, 5);
    assert_eq!(&buf[..5], &[0xAA; 5]);
}

#[test]
fn empty_write_is_noop() {
    let data = vec![0xAA; 10];
    let base = mem_image(&data);
    let mut cow = CowImage::new(base);

    cow.write_at(5, &[]).unwrap();
    assert_eq!(cow.overlay_segment_count(), 0);
}

#[test]
fn multiple_disjoint_segments() {
    let data = vec![0x00; 100];
    let base = mem_image(&data);
    let mut cow = CowImage::new(base);

    cow.write_at(10, &[0xAA; 5]).unwrap(); // [10..15)
    cow.write_at(50, &[0xBB; 5]).unwrap(); // [50..55)
    cow.write_at(80, &[0xCC; 5]).unwrap(); // [80..85)

    assert_eq!(cow.overlay_segment_count(), 3);

    let mut buf = [0u8; 100];
    cow.read_at(0, &mut buf).unwrap();

    assert_eq!(&buf[10..15], &[0xAA; 5]);
    assert_eq!(&buf[50..55], &[0xBB; 5]);
    assert_eq!(&buf[80..85], &[0xCC; 5]);

    // Gaps should be base (0x00).
    assert_eq!(&buf[0..10], &[0x00; 10]);
    assert_eq!(&buf[15..50], &[0x00; 35]);
}

#[test]
fn overwrite_within_existing_segment() {
    let data = vec![0x00; 100];
    let base = mem_image(&data);
    let mut cow = CowImage::new(base);

    cow.write_at(10, &[0xAA; 20]).unwrap(); // [10..30)
    cow.write_at(15, &[0xBB; 5]).unwrap(); // [15..20) — inside existing

    assert_eq!(cow.overlay_segment_count(), 1);

    let mut buf = [0u8; 20];
    cow.read_at(10, &mut buf).unwrap();

    assert_eq!(&buf[0..5], &[0xAA; 5]); // [10..15)
    assert_eq!(&buf[5..10], &[0xBB; 5]); // [15..20)
    assert_eq!(&buf[10..20], &[0xAA; 10]); // [20..30)
}

#[test]
fn write_bridges_two_segments() {
    let data = vec![0x00; 100];
    let base = mem_image(&data);
    let mut cow = CowImage::new(base);

    cow.write_at(10, &[0xAA; 5]).unwrap(); // [10..15)
    cow.write_at(25, &[0xCC; 5]).unwrap(); // [25..30)
    assert_eq!(cow.overlay_segment_count(), 2);

    // Bridge them.
    cow.write_at(13, &[0xBB; 15]).unwrap(); // [13..28) — spans both
    assert_eq!(cow.overlay_segment_count(), 1);

    let mut buf = [0u8; 25];
    cow.read_at(8, &mut buf).unwrap();

    assert_eq!(&buf[0..2], &[0x00; 2]); // [8..10) base
    assert_eq!(&buf[2..5], &[0xAA; 3]); // [10..13) original overlay
    assert_eq!(&buf[5..20], &[0xBB; 15]); // [13..28) bridge write
    assert_eq!(&buf[20..22], &[0xCC; 2]); // [28..30) trailing overlay
    assert_eq!(&buf[22..25], &[0x00; 3]); // [30..33) base
}

#[test]
fn overlay_segments_roundtrip() {
    let data = vec![0x00; 100];
    let base = mem_image(&data);
    let mut cow = CowImage::new(base);

    cow.write_at(10, &[0xAA; 5]).unwrap();
    cow.write_at(50, &[0xBB; 3]).unwrap();

    let segments = cow.overlay_segments();
    assert_eq!(segments.len(), 2);
    assert_eq!(segments[0], (10, vec![0xAA; 5]));
    assert_eq!(segments[1], (50, vec![0xBB; 3]));
}

#[test]
fn into_parts_returns_overlay() {
    let data = vec![0x00; 50];
    let base = mem_image(&data);
    let mut cow = CowImage::new(base);

    cow.write_at(5, &[0xFF; 10]).unwrap();

    let (_, overlay) = cow.into_parts();
    assert_eq!(overlay.len(), 1);
    assert_eq!(overlay[&5], vec![0xFF; 10]);
}

#[test]
fn bridging_write_reads_back_exactly() {
    let data = vec![0x00; 100];
    let base = mem_image(&data);
    let mut cow = CowImage::new(base);
    cow.write_at(10, &[0xAA; 5]).unwrap();
    cow.write_at(25, &[0xCC; 5]).unwrap();
    cow.write_at(13, &[0xBB; 15]).unwrap();
    assert_eq!(cow.overlay_segment_count(), 1);
    let mut buf = [0u8; 25];
    assert_eq!(cow.read_at(8, &mut buf).unwrap(), 25);
    let mut expected = vec![0x00, 0x00, 0xAA, 0xAA, 0xAA];
    expected.extend_from_slice(&[0xBB; 15]);
    expected.extend_from_slice(&[0xCC, 0xCC, 0x00, 0x00, 0x00]);
    assert_eq!(buf.to_vec(), expected);
    assert_eq!(cow.overlay_bytes(), 20);
}

#[test]
fn overflowing_write_is_rejected() {
    let data = vec![0x00; 10];
    let base = mem_image(&data);
    let mut cow = CowImage::new(base);
    assert_eq!(cow.write_at(u64::MAX - 2, &[1; 5]), Err(ImageError::InvalidInput));
    assert_eq!(cow.overlay_segment_count(), 0);
    assert_eq!(cow.len(), 10);
}

#[test]
fn segments_stay_canonical_after_many_writes() {
    let data = vec![0x11; 64];
    let base = mem_image(&data);
    let mut cow = CowImage::new(base);
    let mut model = vec![0x11u8; 64];
    let writes: [(u64, usize, u8); 8] =
        [(5, 3, 1), (20, 4, 2), (9, 2, 3), (8, 1, 4), (30, 10, 5), (60, 10, 6), (24, 6, 7), (0, 1, 8)];
    for (off, len, v) in writes {
        cow.write_at(off, &vec![v; len]).unwrap();
        let end = off as usize + len;
        if end > model.len() {
            model.resize(end, 0);
        }
        for b in &mut model[off as usize..end] {
            *b = v;
        }
    }
    let segs = cow.overlay_segments();
    for w in segs.windows(2) {
        assert!(w[0].0 + (w[0].1.len() as u64) < w[1].0);
    }
    let mut buf = vec![0u8; model.len()];
    assert_eq!(cow.read_at(0, &mut buf).unwrap(), model.len());
    assert_eq!(buf, model);
}
