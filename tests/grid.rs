use textgrid::grid::{PixelBuffer, PixelPoint, TextBuffer, TextPoint};
use textgrid::space::{pixelspace_to_textspace, textspace_to_pixelspace};
use textgrid::PointerType;

fn text_cells<const W: usize, const H: usize>(b: &TextBuffer<W, H>) -> Vec<Option<char>> {
    let mut out = Vec::new();
    for y in -2..(H as i32 + 2) {
        for x in -2..(W as i32 + 2) {
            out.push(b.get(TextPoint::new(x, y)));
        }
    }
    out
}

fn pixel_cells<const W: usize, const H: usize>(b: &PixelBuffer<W, H>) -> Vec<Option<u8>> {
    let mut out = Vec::new();
    for y in -2..(H as i32 + 2) {
        for x in -2..(W as i32 + 2) {
            out.push(b.get(PixelPoint::new(x, y)));
        }
    }
    out
}

#[test]
fn new_text_buffer_reads_absent() {
    let b: TextBuffer<4, 3> = TextBuffer::new();
    assert!(text_cells(&b).iter().all(|c| c.is_none()));
    assert_eq!(b.get(TextPoint::new(0, 0)), None);
    assert_eq!(b.get(TextPoint::new(3, 2)), None);
    let d: TextBuffer<4, 3> = TextBuffer::default();
    assert_eq!(text_cells(&b), text_cells(&d));
}

#[test]
fn text_set_then_get_every_cell() {
    for y in 0..3 {
        for x in 0..5 {
            let mut b: TextBuffer<5, 3> = TextBuffer::new();
            b.set(TextPoint::new(x, y), 'q');
            assert_eq!(b.get(TextPoint::new(x, y)), Some('q'));
            assert_eq!(text_cells(&b).iter().filter(|c| **c == Some('q')).count(), 1);
        }
    }
}

#[test]
fn pixel_set_then_get_every_cell() {
    for y in 0..3 {
        for x in 0..5 {
            let mut b: PixelBuffer<5, 3> = PixelBuffer::new();
            b.set(PixelPoint::new(x, y), 200);
            assert_eq!(b.get(PixelPoint::new(x, y)), Some(200));
            assert_eq!(pixel_cells(&b).iter().filter(|c| **c == Some(200)).count(), 1);
        }
    }
}

#[test]
fn set_overwrites_previous_value() {
    let mut b: TextBuffer<3, 3> = TextBuffer::new();
    b.set(TextPoint::new(1, 1), 'a').set(TextPoint::new(1, 1), 'b');
    assert_eq!(b.get(TextPoint::new(1, 1)), Some('b'));
}

#[test]
fn set_is_chainable() {
    let mut b: TextBuffer<3, 2> = TextBuffer::new();
    b.clear('.').set(TextPoint::new(0, 0), 'x').set(TextPoint::new(2, 1), 'y');
    assert_eq!(b.get(TextPoint::new(0, 0)), Some('x'));
    assert_eq!(b.get(TextPoint::new(2, 1)), Some('y'));
    assert_eq!(b.get(TextPoint::new(1, 0)), Some('.'));
}

#[test]
fn text_set_writes_nul_as_a_character() {
    let mut b: TextBuffer<2, 2> = TextBuffer::new();
    b.set(TextPoint::new(1, 0), '\0');
    assert_eq!(b.get(TextPoint::new(1, 0)), Some('\0'));
    assert_eq!(b.get(TextPoint::new(0, 0)), None);
}

#[test]
fn pixel_set_is_chainable() {
    let mut b: PixelBuffer<3, 2> = PixelBuffer::new();
    b.set(PixelPoint::new(0, 0), 1).set(PixelPoint::new(2, 1), 2).set(PixelPoint::new(9, 9), 3);
    assert_eq!(b.get(PixelPoint::new(0, 0)), Some(1));
    assert_eq!(b.get(PixelPoint::new(2, 1)), Some(2));
    assert_eq!(b.get(PixelPoint::new(1, 1)), Some(0));
}

#[test]
fn get_outside_text_buffer_is_none() {
    let mut b: TextBuffer<4, 3> = TextBuffer::new();
    b.clear('#');
    for p in [(-1, 0), (0, -1), (4, 0), (0, 3), (4, 3), (i32::MIN, i32::MIN), (i32::MAX, 0)] {
        assert_eq!(b.get(TextPoint::new(p.0, p.1)), None);
    }
}

#[test]
fn get_outside_pixel_buffer_is_none() {
    let mut b: PixelBuffer<4, 3> = PixelBuffer::new();
    b.clear(9);
    for p in [(-1, 0), (0, -1), (4, 0), (0, 3), (i32::MAX, i32::MAX)] {
        assert_eq!(b.get(PixelPoint::new(p.0, p.1)), None);
    }
}

#[test]
fn set_outside_leaves_text_buffer_unchanged() {
    let mut b: TextBuffer<4, 3> = TextBuffer::new();
    b.set(TextPoint::new(1, 1), 'k');
    let before = text_cells(&b);
    for p in [(-1, 0), (0, -1), (4, 0), (0, 3), (i32::MIN, i32::MAX)] {
        b.set(TextPoint::new(p.0, p.1), 'z');
    }
    assert_eq!(text_cells(&b), before);
}

#[test]
fn set_outside_leaves_pixel_buffer_unchanged() {
    let mut b: PixelBuffer<4, 3> = PixelBuffer::new();
    b.set(PixelPoint::new(2, 2), 7);
    let before = pixel_cells(&b);
    for p in [(-1, 0), (0, -1), (4, 0), (0, 3)] {
        b.set(PixelPoint::new(p.0, p.1), 255);
    }
    assert_eq!(pixel_cells(&b), before);
}

#[test]
fn clear_then_get_text() {
    let mut b: TextBuffer<6, 4> = TextBuffer::new();
    b.set(TextPoint::new(2, 2), 'x');
    b.clear('é');
    for y in 0..4 {
        for x in 0..6 {
            assert_eq!(b.get(TextPoint::new(x, y)), Some('é'));
        }
    }
    assert_eq!(b.get(TextPoint::new(6, 0)), None);
}

#[test]
fn clear_then_get_pixel() {
    let mut b: PixelBuffer<6, 4> = PixelBuffer::default();
    assert_eq!(b.get(PixelPoint::new(5, 3)), Some(0));
    b.clear(128);
    for y in 0..4 {
        for x in 0..6 {
            assert_eq!(b.get(PixelPoint::new(x, y)), Some(128));
        }
    }
}

#[test]
fn pixel_to_text_rounds_down() {
    assert_eq!(pixelspace_to_textspace(PixelPoint::new(0, 0)), TextPoint::new(0, 0));
    assert_eq!(pixelspace_to_textspace(PixelPoint::new(7, 15)), TextPoint::new(0, 0));
    assert_eq!(pixelspace_to_textspace(PixelPoint::new(8, 16)), TextPoint::new(1, 1));
    assert_eq!(pixelspace_to_textspace(PixelPoint::new(20, 40)), TextPoint::new(2, 2));
    assert_eq!(pixelspace_to_textspace(PixelPoint::new(-1, -1)), TextPoint::new(-1, -1));
    assert_eq!(pixelspace_to_textspace(PixelPoint::new(-8, -16)), TextPoint::new(-1, -1));
    assert_eq!(pixelspace_to_textspace(PixelPoint::new(-9, -17)), TextPoint::new(-2, -2));
    assert_eq!(
        pixelspace_to_textspace(PixelPoint::new(i32::MIN, i32::MAX)),
        TextPoint::new(i32::MIN / 8, i32::MAX / 16)
    );
}

#[test]
fn text_to_pixel_scales() {
    assert_eq!(textspace_to_pixelspace(TextPoint::new(3, 2)), PixelPoint::new(24, 32));
    assert_eq!(textspace_to_pixelspace(TextPoint::new(-1, -2)), PixelPoint::new(-8, -32));
}

#[test]
fn round_trip_without_rounding_is_identity() {
    for (x, y) in [(0, 0), (5, -3), (-100, 77)] {
        let t = TextPoint::new(x, y);
        assert_eq!(pixelspace_to_textspace(textspace_to_pixelspace(t)), t);
    }
    for (x, y) in [(0, 0), (16, 32), (-24, -48)] {
        let p = PixelPoint::new(x, y);
        assert_eq!(textspace_to_pixelspace(pixelspace_to_textspace(p)), p);
    }
}

#[test]
fn round_trip_with_rounding_stays_in_cell() {
    for (x, y) in [(3, 5), (4, 8), (12, 20), (-3, -5), (7, 15)] {
        let p = PixelPoint::new(x, y);
        let r = textspace_to_pixelspace(pixelspace_to_textspace(p));
        assert!(0 <= p.x - r.x && p.x - r.x < 8);
        assert!(0 <= p.y - r.y && p.y - r.y < 16);
    }
    let r = textspace_to_pixelspace(pixelspace_to_textspace(PixelPoint::new(12, 20)));
    assert_eq!(r, PixelPoint::new(8, 16));
}

#[test]
fn pointer_types_are_distinct() {
    assert_ne!(PointerType::Mouse, PointerType::Pen);
    assert_ne!(PointerType::Pen, PointerType::Touch);
    let t = PointerType::Touch;
    assert_eq!(t, PointerType::Touch);
}

