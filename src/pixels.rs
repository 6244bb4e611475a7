//! A row-major RGBA pixel buffer with bounds-checked writes.

use vstd::prelude::*;

verus! {

/// Byte offset of the first channel of pixel `(x, y)` in a buffer of the
/// given width.
pub open spec fn pixel_offset(width: int, x: int, y: int) -> int {
    (y * width + x) * 4
}

/// Column of the pixel that byte `i` belongs to.
pub open spec fn column_of(width: int, i: int) -> int {
    (i / 4) % width
}

/// Row of the pixel that byte `i` belongs to.
pub open spec fn row_of(width: int, i: int) -> int {
    (i / 4) / width
}

/// Channel (0 red, 1 green, 2 blue, 3 alpha) that byte `i` holds.
pub open spec fn channel_of(i: int) -> int {
    i % 4
}

/// The bytes after writing one pixel at `(x, y)`: the four bytes from its
/// offset become `r, g, b, a` when the pixel lies inside the buffer, and
/// nothing changes otherwise.
pub open spec fn with_pixel(
    bytes: Seq<u8>,
    width: nat,
    height: nat,
    x: int,
    y: int,
    r: u8,
    g: u8,
    b: u8,
    a: u8,
) -> Seq<u8> {
    if 0 <= x < width && 0 <= y < height {
        let i = pixel_offset(width as int, x, y);
        bytes.update(i, r).update(i + 1, g).update(i + 2, b).update(i + 3, a)
    } else {
        bytes
    }
}

/// Value of channel `c` of the colour `(r, g, b, a)`.
pub open spec fn channel(c: int, r: u8, g: u8, b: u8, a: u8) -> u8 {
    if c == 0 {
        r
    } else if c == 1 {
        g
    } else if c == 2 {
        b
    } else {
        a
    }
}

/// Pixel `(px, py)` lies in the square of side `size` whose top-left
/// corner is `(x, y)`.
pub open spec fn in_square(x: int, y: int, size: int, px: int, py: int) -> bool {
    x <= px < x + size && y <= py < y + size
}

/// Decoding byte offsets: byte `pixel_offset(w, x, y) + c` of an
/// in-bounds pixel belongs to column `x`, row `y`, channel `c`.
pub proof fn lemma_offset_decodes(width: int, x: int, y: int, c: int)
    requires
        0 <= x < width,
        0 <= y,
        0 <= c < 4,
    ensures
        column_of(width, pixel_offset(width, x, y) + c) == x,
        row_of(width, pixel_offset(width, x, y) + c) == y,
        channel_of(pixel_offset(width, x, y) + c) == c,
{
    let p = y * width + x;
    assert(p >= 0) by (nonlinear_arith)
        requires
            0 <= x,
            0 <= y,
            0 <= width,
            p == y * width + x,
    ;
    vstd::arithmetic::div_mod::lemma_fundamental_div_mod_converse(p * 4 + c, 4, p, c);
    vstd::arithmetic::div_mod::lemma_fundamental_div_mod_converse(p, width, y, x);
}

/// Every byte of a buffer of `width * height` pixels belongs to a pixel
/// inside it, and is found again from that pixel's offset.
pub proof fn lemma_byte_in_bounds(width: int, height: int, i: int)
    requires
        0 <= width,
        0 <= height,
        0 <= i < width * height * 4,
    ensures
        0 <= column_of(width, i) < width,
        0 <= row_of(width, i) < height,
        0 <= channel_of(i) < 4,
        i == pixel_offset(width, column_of(width, i), row_of(width, i)) + channel_of(i),
{
    assert(width > 0 && height > 0) by (nonlinear_arith)
        requires
            0 <= width,
            0 <= height,
            0 <= i < width * height * 4,
    ;
    let p = i / 4;
    vstd::arithmetic::div_mod::lemma_fundamental_div_mod(i, 4);
    vstd::arithmetic::div_mod::lemma_fundamental_div_mod(p, width);
    assert(0 <= p < width * height);
    let q = p / width;
    assert(0 <= q < height) by (nonlinear_arith)
        requires
            0 <= p < width * height,
            p == width * q + p % width,
            0 <= p % width < width,
    ;
}

/// Byte `k` after writing pixel `(x, y)`: the colour's channel if `k`
/// belongs to that pixel, its old value otherwise.
pub proof fn lemma_with_pixel_at(
    bytes: Seq<u8>,
    width: nat,
    height: nat,
    x: int,
    y: int,
    r: u8,
    g: u8,
    b: u8,
    a: u8,
    k: int,
)
    requires
        bytes.len() == width * height * 4,
        0 <= k < bytes.len(),
    ensures
        with_pixel(bytes, width, height, x, y, r, g, b, a)[k] == if column_of(width as int, k) == x
            && row_of(width as int, k) == y {
            channel(channel_of(k), r, g, b, a)
        } else {
            bytes[k]
        },
{
    lemma_byte_in_bounds(width as int, height as int, k);
    if 0 <= x < width && 0 <= y < height {
        assert(pixel_offset(width as int, x, y) + 3 < width * height * 4) by (nonlinear_arith)
            requires
                0 <= x < width,
                0 <= y < height,
        ;
        lemma_offset_decodes(width as int, x, y, 0);
        lemma_offset_decodes(width as int, x, y, 1);
        lemma_offset_decodes(width as int, x, y, 2);
        lemma_offset_decodes(width as int, x, y, 3);
    }
}

/// An RGBA image of `width` by `height` pixels, four bytes per pixel in
/// row-major order.
pub struct PixelBuffer {
    width: u32,
    height: u32,
    data: Vec<u8>,
}

impl View for PixelBuffer {
    type V = Seq<u8>;

    closed spec fn view(&self) -> Seq<u8> {
        self.data@
    }
}

impl PixelBuffer {
    pub closed spec fn spec_width(&self) -> nat {
        self.width as nat
    }

    pub closed spec fn spec_height(&self) -> nat {
        self.height as nat
    }

    /// The byte count is four per pixel, and fits in a `u32`.
    pub open spec fn wf(&self) -> bool {
        &&& self@.len() == self.spec_width() * self.spec_height() * 4
        &&& self.spec_width() * self.spec_height() * 4 <= u32::MAX
    }

    /// A buffer of `width` by `height` pixels, every byte zero.
    pub fn new(width: u32, height: u32) -> (r: Self)
        requires
            width * height * 4 <= u32::MAX,
        ensures
            r.wf(),
            r.spec_width() == width,
            r.spec_height() == height,
            r@ == Seq::new((width * height * 4) as nat, |i: int| 0u8),
    {
        assert(width * height <= u32::MAX) by (nonlinear_arith)
            requires
                width * height * 4 <= u32::MAX,
        ;
        let size = (width * height * 4) as usize;
        let data: Vec<u8> = vec![0u8; size];
        let r = PixelBuffer { width, height, data };
        assert(r@ =~= Seq::new((width * height * 4) as nat, |i: int| 0u8));
        r
    }

    /// Writes the colour `(r, g, b, a)` to pixel `(x, y)`; a pixel outside
    /// the buffer is ignored.
    pub fn set_pixel(&mut self, x: u32, y: u32, r: u8, g: u8, b: u8, a: u8)
        requires
            old(self).wf(),
        ensures
            final(self).wf(),
            final(self).spec_width() == old(self).spec_width(),
            final(self).spec_height() == old(self).spec_height(),
            final(self)@ == with_pixel(
                old(self)@,
                old(self).spec_width(),
                old(self).spec_height(),
                x as int,
                y as int,
                r,
                g,
                b,
                a,
            ),
    {
        if x < self.width && y < self.height {
            assert(y * self.width + x < self.width * self.height) by (nonlinear_arith)
                requires
                    x < self.width,
                    y < self.height,
            ;
            let index = ((y * self.width + x) * 4) as usize;
            if index + 3 < self.data.len() {
                self.data.set(index, r);
                self.data.set(index + 1, g);
                self.data.set(index + 2, b);
                self.data.set(index + 3, a);
            }
        }
    }

    /// Writes the colour `(r, g, b, a)` to every pixel of the square of
    /// side `size` whose top-left corner is `(x, y)`; the part of the
    /// square outside the buffer is ignored.
    pub fn fill_square(&mut self, x: u32, y: u32, size: u32, r: u8, g: u8, b: u8, a: u8)
        requires
            old(self).wf(),
        ensures
            final(self).wf(),
            final(self).spec_width() == old(self).spec_width(),
            final(self).spec_height() == old(self).spec_height(),
            final(self)@.len() == old(self)@.len(),
            forall|k: int|
                0 <= k < old(self)@.len() ==> #[trigger] final(self)@[k] == if in_square(
                    x as int,
                    y as int,
                    size as int,
                    column_of(old(self).spec_width() as int, k),
                    row_of(old(self).spec_width() as int, k),
                ) {
                    channel(channel_of(k), r, g, b, a)
                } else {
                    old(self)@[k]
                },
    {
        let ghost before = self@;
        let ghost w = self.spec_width();
        let ghost h = self.spec_height();
        let mut i: u32 = 0;
        while i < size
            invariant
                self.wf(),
                self.spec_width() == w,
                self.spec_height() == h,
                before.len() == w * h * 4,
                self@.len() == before.len(),
                i <= size,
                forall|k: int|
                    0 <= k < before.len() ==> #[trigger] self@[k] == if x <= column_of(w as int, k) < x + i && y <= row_of(w as int, k) < y + size {
                        channel(channel_of(k), r, g, b, a)
                    } else {
                        before[k]
                    },
            decreases size - i,
        {
            let mut j: u32 = 0;
            while j < size
                invariant
                    self.wf(),
                    self.spec_width() == w,
                    self.spec_height() == h,
                    before.len() == w * h * 4,
                    self@.len() == before.len(),
                    i < size,
                    j <= size,
                    forall|k: int|
                        0 <= k < before.len() ==> #[trigger] self@[k] == if (x <= column_of(w as int, k) < x + i && y <= row_of(w as int, k) < y + size) || (column_of(w as int, k) == x + i
                            && y <= row_of(w as int, k) < y + j) {
                            channel(channel_of(k), r, g, b, a)
                        } else {
                            before[k]
                        },
                decreases size - j,
            {
                let ghost mid = self@;
                if i <= u32::MAX - x && j <= u32::MAX - y {
                    self.set_pixel(x + i, y + j, r, g, b, a);
                    proof {
                        assert forall|k: int| 0 <= k < before.len() implies #[trigger] self@[k]
                            == if (x <= column_of(w as int, k) < x + i && y <= row_of(w as int, k) < y + size) || (column_of(w as int, k) == x + i
                            && y <= row_of(w as int, k) < y + j + 1) {
                            channel(channel_of(k), r, g, b, a)
                        } else {
                            before[k]
                        } by {
                            lemma_with_pixel_at(mid, w, h, x + i, y + j, r, g, b, a, k);
                        }
                    }
                } else {
                    proof {
                        assert forall|k: int| 0 <= k < before.len() implies #[trigger] self@[k]
                            == if (x <= column_of(w as int, k) < x + i && y <= row_of(w as int, k) < y + size) || (column_of(w as int, k) == x + i
                            && y <= row_of(w as int, k) < y + j + 1) {
                            channel(channel_of(k), r, g, b, a)
                        } else {
                            before[k]
                        } by {
                            lemma_byte_in_bounds(w as int, h as int, k);
                        }
                    }
                }
                j = j + 1;
            }
            i = i + 1;
        }
    }

    /// The buffer's bytes, borrowed.
    pub fn get_data(&self) -> (r: &[u8])
        ensures
            r@ == self@,
    {
        self.data.as_slice()
    }

    /// The buffer's bytes, handed over.
    pub fn into_data(self) -> (r: Vec<u8>)
        ensures
            r@ == self@,
    {
        self.data
    }
}

} // verus!
