//! A minimal raster pixel-buffer editor.
//!
//! A [`PixelEditor`] owns a fixed-size RGBA bitmap as a flat byte buffer in
//! row-major order, together with a current drawing color. It supports
//! selecting a color, painting single pixels (out-of-bounds paints are silent
//! no-ops), clearing the whole buffer to opaque white, filling it with a
//! diagonal grayscale gradient, and taking snapshot copies of the bytes for a
//! rendering layer to display.
//!
//! Every operation is specified against [`EditorModel`], a mathematical view
//! of the editor's state, and verified against that model.

use vstd::prelude::*;

verus! {

/// Mathematical model of an editor: the fixed dimensions, the flat byte
/// buffer (4 bytes per pixel, R then G then B then A, row-major), and the
/// current drawing color as an `(r, g, b, a)` tuple.
pub ghost struct EditorModel {
    pub width: nat,
    pub height: nat,
    pub pixels: Seq<u8>,
    pub color: (u8, u8, u8, u8),
}

/// Byte offset of the first channel of pixel `(x, y)` in a buffer that is
/// `width` pixels wide.
pub open spec fn flat_base(width: nat, x: nat, y: nat) -> nat {
    (y * width + x) * 4
}

/// The one structural invariant: the buffer holds exactly 4 bytes for each
/// of the `width * height` pixels.
pub open spec fn model_inv(m: EditorModel) -> bool {
    m.pixels.len() == m.width * m.height * 4
}

/// Every byte of the buffer (all four channels alike) is 255: opaque white.
pub open spec fn all_white(pixels: Seq<u8>) -> bool {
    forall|i: int| 0 <= i < pixels.len() ==> pixels[i] == 255u8
}

/// A buffer of `n` bytes, every byte 255.
pub open spec fn white_pixels(n: nat) -> Seq<u8> {
    Seq::new(n, |i: int| 255u8)
}

/// The state right after construction: an all-white buffer of the right
/// length and an opaque-black current color.
pub open spec fn initial_model(width: nat, height: nat) -> EditorModel {
    EditorModel {
        width,
        height,
        pixels: white_pixels(width * height * 4),
        color: (0u8, 0u8, 0u8, 255u8),
    }
}

/// The same state with the current color replaced by `(r, g, b, a)`; the
/// buffer and the dimensions are untouched.
pub open spec fn recolored_model(m: EditorModel, r: u8, g: u8, b: u8, a: u8) -> EditorModel {
    EditorModel { color: (r, g, b, a), ..m }
}

/// Whether `(x, y)` names a pixel of the buffer.
pub open spec fn in_bounds(m: EditorModel, x: nat, y: nat) -> bool {
    x < m.width && y < m.height
}

/// The state after painting `(x, y)`: in bounds, the pixel's four bytes
/// become the current color in R, G, B, A order and nothing else changes;
/// out of bounds, the state is exactly as before.
pub open spec fn painted_model(m: EditorModel, x: nat, y: nat) -> EditorModel {
    if in_bounds(m, x, y) {
        let base = flat_base(m.width, x, y) as int;
        EditorModel {
            pixels: m.pixels
                .update(base, m.color.0)
                .update(base + 1, m.color.1)
                .update(base + 2, m.color.2)
                .update(base + 3, m.color.3),
            ..m
        }
    } else {
        m
    }
}

/// The state after a clear: every byte of the buffer is 255 (so every pixel
/// is opaque white); the dimensions and the current color are untouched.
pub open spec fn cleared_model(m: EditorModel) -> EditorModel {
    EditorModel { pixels: white_pixels(m.pixels.len()), ..m }
}

/// Grayscale intensity of pixel `(x, y)` in a `width` by `height` gradient:
/// `floor((x + y) / (width + height) * 255)`, written with integer division.
pub open spec fn gradient_intensity(width: nat, height: nat, x: nat, y: nat) -> int {
    ((x + y) * 255) as int / ((width + height) as int)
}

/// Byte at flat offset `i` after a gradient fill of a `width` by `height`
/// buffer: every alpha channel is 255, and the three color channels of a
/// pixel all hold that pixel's intensity.
pub open spec fn gradient_byte(width: nat, height: nat, i: int) -> u8 {
    let pixel = i / 4;
    let channel = i % 4;
    let x = pixel % (width as int);
    let y = pixel / (width as int);
    if channel == 3 {
        255u8
    } else {
        gradient_intensity(width, height, x as nat, y as nat) as u8
    }
}

/// The state after a gradient fill; the dimensions and the current color
/// are untouched.
pub open spec fn gradient_model(m: EditorModel) -> EditorModel {
    EditorModel {
        pixels: Seq::new(m.pixels.len(), |i: int| gradient_byte(m.width, m.height, i)),
        ..m
    }
}

pub struct PixelEditor {
    width: usize,
    height: usize,
    pixels: Vec<u8>,
    current_color: (u8, u8, u8, u8),
}

impl View for PixelEditor {
    type V = EditorModel;

    closed spec fn view(&self) -> EditorModel {
        EditorModel {
            width: self.width as nat,
            height: self.height as nat,
            pixels: self.pixels@,
            color: self.current_color,
        }
    }
}

/// Pixel `(x, y)` lies inside the buffer: its pixel number is below
/// `width * height` and its last channel's offset is below the buffer length.
proof fn lemma_cell_in_range(width: nat, height: nat, x: nat, y: nat)
    by (nonlinear_arith)
    requires
        x < width,
        y < height,
    ensures
        y * width + x < width * height,
        (y * width + x) * 4 + 3 < width * height * 4,
{
}

/// With `(x, y)` in bounds the gradient intensity is a byte value below
/// 255: `x + y` stays strictly below `width + height`, so the quotient
/// cannot reach 255.
proof fn lemma_intensity_bounds(width: nat, height: nat, x: nat, y: nat)
    requires
        x < width,
        y < height,
    ensures
        0 <= gradient_intensity(width, height, x, y) < 255,
{
    let sum = (x + y) as int;
    let denom = (width + height) as int;
    vstd::arithmetic::div_mod::lemma_div_pos_is_pos(sum * 255, denom);
    vstd::arithmetic::div_mod::lemma_multiply_divide_lt(sum * 255, denom, 255);
}

/// Splits the flat offset of channel `c` of pixel `(x, y)` back into its
/// parts: dividing by 4 gives the pixel number and the remainder gives the
/// channel, and dividing the pixel number by the width recovers `y` and `x`.
proof fn lemma_flat_decompose(width: nat, x: nat, y: nat, c: nat)
    requires
        x < width,
        c < 4,
    ensures
        ({
            let i = flat_base(width, x, y) + c;
            &&& i / 4 == y * width + x
            &&& i % 4 == c
            &&& ((y * width + x) as int) % (width as int) == x
            &&& ((y * width + x) as int) / (width as int) == y
        }),
{
    let i = (flat_base(width, x, y) + c) as int;
    let pixel = (y * width + x) as int;
    vstd::arithmetic::div_mod::lemma_fundamental_div_mod_converse_div(i, 4, pixel, c as int);
    vstd::arithmetic::div_mod::lemma_fundamental_div_mod_converse_mod(i, 4, pixel, c as int);
    vstd::arithmetic::div_mod::lemma_fundamental_div_mod_converse_div(
        pixel,
        width as int,
        y as int,
        x as int,
    );
    vstd::arithmetic::div_mod::lemma_fundamental_div_mod_converse_mod(
        pixel,
        width as int,
        y as int,
        x as int,
    );
}

impl PixelEditor {
    /// A well-formed editor satisfies the model invariant.
    pub open spec fn wf(&self) -> bool {
        model_inv(self@)
    }

    /// Builds a `width` by `height` editor: every byte of the buffer
    /// (including alpha) starts at 255, and the current color starts as
    /// opaque black. Zero dimensions are legal and yield an empty buffer.
    pub fn new(width: usize, height: usize) -> (editor: PixelEditor)
        requires
            width * height * 4 <= usize::MAX,
        ensures
            editor.wf(),
            editor@ == initial_model(width as nat, height as nat),
    {
        let total: usize = width * height * 4;
        let mut pixels: Vec<u8> = Vec::new();
        let mut i: usize = 0;
        while i < total
            invariant
                i <= total,
                pixels@.len() == i,
                forall|j: int| 0 <= j < i ==> pixels@[j] == 255u8,
            decreases total - i,
        {
            pixels.push(255);
            i = i + 1;
        }
        let editor = PixelEditor { width, height, pixels, current_color: (0, 0, 0, 255) };
        proof {
            assert(editor@.pixels =~= initial_model(width as nat, height as nat).pixels);
        }
        editor
    }

    /// Overwrites the current color with `(r, g, b, a)`; any byte values are
    /// legal, and the buffer and dimensions are untouched.
    pub fn set_color(&mut self, r: u8, g: u8, b: u8, a: u8)
        ensures
            final(self)@ == recolored_model(old(self)@, r, g, b, a),
    {
        self.current_color = (r, g, b, a);
    }

    /// Paints pixel `(x, y)` with the current color. Out-of-bounds
    /// coordinates are tolerated silently: the call then changes nothing.
    pub fn paint_pixel(&mut self, x: usize, y: usize)
        requires
            old(self).wf(),
        ensures
            final(self).wf(),
            final(self)@ == painted_model(old(self)@, x as nat, y as nat),
    {
        if x < self.width && y < self.height {
            proof {
                lemma_cell_in_range(self.width as nat, self.height as nat, x as nat, y as nat);
            }
            // the buffer length is a usize, so the offsets below fit in one
            let _len: usize = self.pixels.len();
            let index: usize = (y * self.width + x) * 4;
            let color: (u8, u8, u8, u8) = self.current_color;
            self.pixels[index] = color.0;
            self.pixels[index + 1] = color.1;
            self.pixels[index + 2] = color.2;
            self.pixels[index + 3] = color.3;
        }
    }

    /// Overwrites every pixel with opaque white, whatever the buffer held
    /// before; the current color is untouched.
    pub fn clear(&mut self)
        ensures
            final(self)@ == cleared_model(old(self)@),
    {
        let len: usize = self.pixels.len();
        let mut i: usize = 0;
        while i < len
            invariant
                i <= len,
                len == self.pixels@.len(),
                self.width == old(self).width,
                self.height == old(self).height,
                self.current_color == old(self).current_color,
                forall|j: int| 0 <= j < i ==> self.pixels@[j] == 255u8,
            decreases len - i,
        {
            self.pixels[i] = 255;
            i = i + 1;
        }
        proof {
            assert(self.pixels@ =~= white_pixels(old(self)@.pixels.len()));
        }
    }

    /// Overwrites every pixel with the diagonal gradient: the color channels
    /// of pixel `(x, y)` become `floor((x + y) / (width + height) * 255)`
    /// and alpha becomes 255. The current color is neither read nor changed.
    /// An empty buffer has no pixels to fill, so the intensity formula (and
    /// its division by `width + height`) is never evaluated for one.
    #[verifier::loop_isolation(false)]
    pub fn fill_gradient(&mut self)
        requires
            old(self).wf(),
        ensures
            final(self).wf(),
            final(self)@ == gradient_model(old(self)@),
    {
        let width: usize = self.width;
        let height: usize = self.height;
        // the buffer length is a usize, so the offsets below fit in one
        let _len: usize = self.pixels.len();
        let mut y: usize = 0;
        while y < height
            invariant
                y <= height,
                self.width == old(self).width,
                self.height == old(self).height,
                self.current_color == old(self).current_color,
                self.pixels@.len() == old(self).pixels@.len(),
                forall|i: int|
                    0 <= i < y * width * 4 ==> self.pixels@[i] == gradient_byte(
                        width as nat,
                        height as nat,
                        i,
                    ),
            decreases height - y,
        {
            let mut x: usize = 0;
            while x < width
                invariant
                    x <= width,
                    y < height,
                    self.width == old(self).width,
                    self.height == old(self).height,
                    self.current_color == old(self).current_color,
                    self.pixels@.len() == old(self).pixels@.len(),
                    forall|i: int|
                        0 <= i < (y * width + x) * 4 ==> self.pixels@[i] == gradient_byte(
                            width as nat,
                            height as nat,
                            i,
                        ),
                decreases width - x,
            {
                proof {
                    lemma_cell_in_range(width as nat, height as nat, x as nat, y as nat);
                    lemma_intensity_bounds(width as nat, height as nat, x as nat, y as nat);
                }
                let index: usize = (y * width + x) * 4;
                let intensity: u8 = ((x as u128 + y as u128) * 255 / (width as u128
                    + height as u128)) as u8;
                self.pixels[index] = intensity;
                self.pixels[index + 1] = intensity;
                self.pixels[index + 2] = intensity;
                self.pixels[index + 3] = 255;
                proof {
                    lemma_flat_decompose(width as nat, x as nat, y as nat, 0);
                    lemma_flat_decompose(width as nat, x as nat, y as nat, 1);
                    lemma_flat_decompose(width as nat, x as nat, y as nat, 2);
                    lemma_flat_decompose(width as nat, x as nat, y as nat, 3);
                    assert(forall|i: int|
                        0 <= i < (y * width + x + 1) * 4 ==> self.pixels@[i] == gradient_byte(
                            width as nat,
                            height as nat,
                            i,
                        ));
                }
                x = x + 1;
            }
            proof {
                assert((y + 1) * width == y * width + width) by (nonlinear_arith);
            }
            y = y + 1;
        }
        proof {
            assert(height * width == width * height) by (nonlinear_arith);
            assert(self.pixels@ =~= gradient_model(old(self)@).pixels);
        }
    }

    /// Returns an independent snapshot of the buffer: a fresh copy with the
    /// same bytes, unaffected by later mutation of the editor (and mutating
    /// the copy leaves the editor alone).
    pub fn get_pixels(&self) -> (out: Vec<u8>)
        ensures
            out@ == self@.pixels,
    {
        let len: usize = self.pixels.len();
        let mut out: Vec<u8> = Vec::new();
        let mut i: usize = 0;
        while i < len
            invariant
                i <= len,
                len == self.pixels@.len(),
                out@.len() == i,
                forall|j: int| 0 <= j < i ==> out@[j] == self.pixels@[j],
            decreases len - i,
        {
            out.push(self.pixels[i]);
            i = i + 1;
        }
        proof {
            assert(out@ =~= self@.pixels);
        }
        out
    }
}

/// A freshly constructed editor satisfies the model invariant: its buffer
/// has length `width * height * 4`, and every byte of it equals 255.
pub proof fn lemma_initial_all_white(width: nat, height: nat)
    ensures
        model_inv(initial_model(width, height)),
        initial_model(width, height).pixels.len() == width * height * 4,
        all_white(initial_model(width, height).pixels),
{
}

/// After construction the current color is opaque black, so the first paint
/// at any in-bounds coordinate writes `(0, 0, 0, 255)` at that pixel's
/// offset.
pub proof fn lemma_first_paint_is_black(width: nat, height: nat, x: nat, y: nat)
    requires
        x < width,
        y < height,
    ensures
        ({
            let base = flat_base(width, x, y) as int;
            let m = painted_model(initial_model(width, height), x, y);
            &&& initial_model(width, height).color == (0u8, 0u8, 0u8, 255u8)
            &&& m.pixels[base] == 0u8
            &&& m.pixels[base + 1] == 0u8
            &&& m.pixels[base + 2] == 0u8
            &&& m.pixels[base + 3] == 255u8
        }),
{
    lemma_cell_in_range(width, height, x, y);
}

/// Selecting `(r, g, b, a)` and then painting an in-bounds pixel writes
/// exactly those four bytes at the pixel's offset and changes no other byte.
pub proof fn lemma_paint_writes_current_color(
    m: EditorModel,
    r: u8,
    g: u8,
    b: u8,
    a: u8,
    x: nat,
    y: nat,
)
    requires
        model_inv(m),
        x < m.width,
        y < m.height,
    ensures
        ({
            let base = flat_base(m.width, x, y) as int;
            let m2 = painted_model(recolored_model(m, r, g, b, a), x, y);
            &&& m2.pixels.len() == m.pixels.len()
            &&& m2.pixels[base] == r
            &&& m2.pixels[base + 1] == g
            &&& m2.pixels[base + 2] == b
            &&& m2.pixels[base + 3] == a
            &&& forall|j: int|
                0 <= j < m.pixels.len() && !(base <= j < base + 4) ==> m2.pixels[j] == m.pixels[j]
        }),
{
    lemma_cell_in_range(m.width, m.height, x, y);
}

/// An out-of-bounds paint (`x >= width` or `y >= height`) is a no-op: the
/// state, the buffer included, is exactly as before.
pub proof fn lemma_paint_out_of_bounds(m: EditorModel, x: nat, y: nat)
    requires
        x >= m.width || y >= m.height,
    ensures
        painted_model(m, x, y) == m,
{
}

/// Clearing makes every byte of the buffer 255 — every pixel opaque white —
/// whatever the buffer held, while the buffer length, the dimensions and
/// the current color stay as they were.
pub proof fn lemma_clear_all_white(m: EditorModel)
    ensures
        cleared_model(m).pixels.len() == m.pixels.len(),
        all_white(cleared_model(m).pixels),
        cleared_model(m).width == m.width,
        cleared_model(m).height == m.height,
        cleared_model(m).color == m.color,
{
}

/// Clearing twice in a row yields exactly the state of clearing once.
pub proof fn lemma_clear_idempotent(m: EditorModel)
    ensures
        cleared_model(cleared_model(m)) == cleared_model(m),
{
    assert(cleared_model(cleared_model(m)).pixels =~= cleared_model(m).pixels);
}

/// After a gradient fill, the alpha byte of every in-bounds pixel is 255.
pub proof fn lemma_gradient_alpha_opaque(m: EditorModel, x: nat, y: nat)
    requires
        model_inv(m),
        x < m.width,
        y < m.height,
    ensures
        gradient_model(m).pixels[flat_base(m.width, x, y) as int + 3] == 255u8,
{
    lemma_cell_in_range(m.width, m.height, x, y);
    lemma_flat_decompose(m.width, x, y, 3);
}

} // verus!
