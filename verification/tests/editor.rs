use pixel_editor::PixelEditor;

#[test]
fn construct_fills_white() {
    let editor = PixelEditor::new(3, 2);
    let pixels = editor.get_pixels();
    assert_eq!(pixels.len(), 3 * 2 * 4);
    for byte in pixels {
        assert_eq!(byte, 255);
    }
}

#[test]
fn construct_zero_dimensions() {
    assert_eq!(PixelEditor::new(0, 0).get_pixels().len(), 0);
    assert_eq!(PixelEditor::new(0, 5).get_pixels().len(), 0);
    assert_eq!(PixelEditor::new(7, 0).get_pixels().len(), 0);
}

#[test]
fn default_color_is_opaque_black() {
    let mut editor = PixelEditor::new(2, 2);
    editor.paint_pixel(1, 0);
    let pixels = editor.get_pixels();
    let base = (0 * 2 + 1) * 4;
    assert_eq!(&pixels[base..base + 4], &[0, 0, 0, 255]);
    for (i, byte) in pixels.iter().enumerate() {
        if i < base || i >= base + 4 {
            assert_eq!(*byte, 255);
        }
    }
}

#[test]
fn paint_writes_selected_color() {
    let mut editor = PixelEditor::new(3, 3);
    editor.set_color(10, 20, 30, 40);
    editor.paint_pixel(2, 1);
    let pixels = editor.get_pixels();
    let base = (1 * 3 + 2) * 4;
    assert_eq!(&pixels[base..base + 4], &[10, 20, 30, 40]);
    for (i, byte) in pixels.iter().enumerate() {
        if i < base || i >= base + 4 {
            assert_eq!(*byte, 255);
        }
    }
}

#[test]
fn paint_overwrites_previous_color() {
    let mut editor = PixelEditor::new(2, 2);
    editor.set_color(1, 2, 3, 4);
    editor.paint_pixel(0, 1);
    editor.set_color(9, 8, 7, 6);
    editor.paint_pixel(0, 1);
    let pixels = editor.get_pixels();
    let base = (1 * 2 + 0) * 4;
    assert_eq!(&pixels[base..base + 4], &[9, 8, 7, 6]);
}

#[test]
fn paint_out_of_bounds_is_a_no_op() {
    let mut editor = PixelEditor::new(2, 3);
    editor.set_color(50, 60, 70, 80);
    editor.paint_pixel(1, 1);
    let before = editor.get_pixels();
    editor.paint_pixel(2, 0);
    editor.paint_pixel(0, 3);
    editor.paint_pixel(2, 3);
    editor.paint_pixel(usize::MAX, usize::MAX);
    assert_eq!(editor.get_pixels(), before);
}

#[test]
fn paint_on_empty_buffer_is_a_no_op() {
    let mut editor = PixelEditor::new(0, 0);
    editor.paint_pixel(0, 0);
    assert_eq!(editor.get_pixels().len(), 0);
}

#[test]
fn clear_resets_every_pixel_to_white() {
    let mut editor = PixelEditor::new(3, 2);
    editor.set_color(12, 34, 56, 78);
    editor.paint_pixel(0, 0);
    editor.paint_pixel(2, 1);
    editor.fill_gradient();
    editor.clear();
    let pixels = editor.get_pixels();
    assert_eq!(pixels.len(), 3 * 2 * 4);
    for byte in pixels {
        assert_eq!(byte, 255);
    }
}

#[test]
fn clear_keeps_current_color() {
    let mut editor = PixelEditor::new(2, 2);
    editor.set_color(12, 34, 56, 78);
    editor.clear();
    editor.paint_pixel(1, 1);
    let pixels = editor.get_pixels();
    let base = (1 * 2 + 1) * 4;
    assert_eq!(&pixels[base..base + 4], &[12, 34, 56, 78]);
}

#[test]
fn clear_twice_equals_clear_once() {
    let mut editor = PixelEditor::new(3, 3);
    editor.set_color(5, 6, 7, 8);
    editor.paint_pixel(1, 2);
    editor.clear();
    let once = editor.get_pixels();
    editor.clear();
    assert_eq!(editor.get_pixels(), once);
}

#[test]
fn gradient_four_by_four_exact_values() {
    let mut editor = PixelEditor::new(4, 4);
    editor.fill_gradient();
    let pixels = editor.get_pixels();
    // intensity(x, y) = floor((x + y) / 8 * 255)
    let expected: [[u8; 4]; 4] = [
        [0, 31, 63, 95],
        [31, 63, 95, 127],
        [63, 95, 127, 159],
        [95, 127, 159, 191],
    ];
    for y in 0..4 {
        for x in 0..4 {
            let base = (y * 4 + x) * 4;
            let intensity = expected[y][x];
            assert_eq!(&pixels[base..base + 4], &[intensity, intensity, intensity, 255]);
        }
    }
}

#[test]
fn gradient_corners() {
    let mut editor = PixelEditor::new(4, 4);
    editor.fill_gradient();
    let pixels = editor.get_pixels();
    assert_eq!(&pixels[0..4], &[0, 0, 0, 255]);
    let last = (3 * 4 + 3) * 4;
    assert_eq!(&pixels[last..last + 4], &[191, 191, 191, 255]);
}

#[test]
fn gradient_rectangular_buffer() {
    let mut editor = PixelEditor::new(2, 3);
    editor.fill_gradient();
    let pixels = editor.get_pixels();
    // width + height = 5, intensity(x, y) = floor((x + y) * 255 / 5)
    assert_eq!(&pixels[0..4], &[0, 0, 0, 255]);
    let base = (1 * 2 + 0) * 4;
    assert_eq!(&pixels[base..base + 4], &[51, 51, 51, 255]);
    let base = (2 * 2 + 1) * 4;
    assert_eq!(&pixels[base..base + 4], &[153, 153, 153, 255]);
}

#[test]
fn gradient_single_pixel() {
    let mut editor = PixelEditor::new(1, 1);
    editor.fill_gradient();
    assert_eq!(editor.get_pixels(), vec![0, 0, 0, 255]);
}

#[test]
fn gradient_empty_buffer() {
    let mut editor = PixelEditor::new(0, 0);
    editor.fill_gradient();
    assert_eq!(editor.get_pixels().len(), 0);
}

#[test]
fn gradient_ignores_current_color() {
    let mut editor = PixelEditor::new(2, 2);
    editor.set_color(200, 100, 50, 25);
    editor.fill_gradient();
    let pixels = editor.get_pixels();
    assert_eq!(&pixels[0..4], &[0, 0, 0, 255]);
    // the color survives the fill
    editor.paint_pixel(0, 0);
    assert_eq!(&editor.get_pixels()[0..4], &[200, 100, 50, 25]);
}

#[test]
fn snapshots_are_equal_and_independent() {
    let mut editor = PixelEditor::new(2, 2);
    editor.set_color(1, 2, 3, 4);
    editor.paint_pixel(0, 0);
    let first = editor.get_pixels();
    let second = editor.get_pixels();
    assert_eq!(first, second);
    // mutating a snapshot leaves the editor and other snapshots alone
    let mut scribbled = first.clone();
    scribbled[0] = 99;
    assert_eq!(scribbled[0], 99);
    assert_eq!(editor.get_pixels(), second);
    // mutating the editor leaves earlier snapshots alone
    editor.clear();
    assert_eq!(&second[0..4], &[1, 2, 3, 4]);
}
