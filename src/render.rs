//! Plotting the spiral's marks into a fresh pixel buffer.
//!
//! Where each prime point lands in the buffer is worked out by the caller
//! from the generator's polar coordinates; this module draws the marks.

use crate::generator::prime_points;
use crate::pixels::{channel, channel_of, column_of, in_square, row_of, PixelBuffer};
use vstd::prelude::*;

verus! {

pub const MARK_RED: u8 = 85;

pub const MARK_GREEN: u8 = 239;

pub const MARK_BLUE: u8 = 196;

pub const MARK_ALPHA: u8 = 255;

/// Channel `c` of the mark colour.
pub open spec fn mark_channel(c: int) -> u8 {
    channel(c, MARK_RED, MARK_GREEN, MARK_BLUE, MARK_ALPHA)
}

/// Byte `i` of a buffer of the given width belongs to a pixel that one of
/// the first `count` marks covers, each mark a square of side `size`
/// with its top-left corner at the mark's position.
pub open spec fn covered(width: int, marks: Seq<(u32, u32)>, size: int, count: int, i: int) -> bool {
    exists|j: int|
        0 <= j < count && #[trigger] in_square(
            marks[j].0 as int,
            marks[j].1 as int,
            size,
            column_of(width, i),
            row_of(width, i),
        )
}

/// The image of the marks: a byte of a covered pixel holds the mark
/// colour's channel, every other byte is zero.
pub open spec fn rendered(width: nat, height: nat, marks: Seq<(u32, u32)>, size: nat) -> Seq<u8> {
    Seq::new(
        width * height * 4,
        |i: int|
            if covered(width as int, marks, size as int, marks.len() as int, i) {
                mark_channel(channel_of(i))
            } else {
                0u8
            },
    )
}

/// Draws a square mark of side `mark_size` in the mark colour at each
/// position of `marks` on a zeroed `width` by `height` buffer, and returns
/// its bytes. Parts of marks outside the buffer are dropped.
pub fn render_marks(width: u32, height: u32, marks: &Vec<(u32, u32)>, mark_size: u32) -> (r: Vec<u8>)
    requires
        width * height * 4 <= u32::MAX,
    ensures
        r@ == rendered(width as nat, height as nat, marks@, mark_size as nat),
{
    let mut buffer = PixelBuffer::new(width, height);
    let ghost len = (width * height * 4) as nat;
    let mut j: usize = 0;
    while j < marks.len()
        invariant
            buffer.wf(),
            buffer.spec_width() == width,
            buffer.spec_height() == height,
            buffer@.len() == len,
            len == width * height * 4,
            j <= marks@.len(),
            forall|k: int|
                0 <= k < len ==> #[trigger] buffer@[k] == if covered(
                    width as int,
                    marks@,
                    mark_size as int,
                    j as int,
                    k,
                ) {
                    mark_channel(channel_of(k))
                } else {
                    0u8
                },
        decreases marks@.len() - j,
    {
        let (x, y) = marks[j];
        let ghost before = buffer@;
        buffer.fill_square(x, y, mark_size, MARK_RED, MARK_GREEN, MARK_BLUE, MARK_ALPHA);
        proof {
            assert forall|k: int| 0 <= k < len implies #[trigger] buffer@[k] == if covered(
                width as int,
                marks@,
                mark_size as int,
                j + 1,
                k,
            ) {
                mark_channel(channel_of(k))
            } else {
                0u8
            } by {
                let here = in_square(
                    marks@[j as int].0 as int,
                    marks@[j as int].1 as int,
                    mark_size as int,
                    column_of(width as int, k),
                    row_of(width as int, k),
                );
                if covered(width as int, marks@, mark_size as int, j as int, k) {
                    let jj = choose|jj: int|
                        0 <= jj < j && #[trigger] in_square(
                            marks@[jj].0 as int,
                            marks@[jj].1 as int,
                            mark_size as int,
                            column_of(width as int, k),
                            row_of(width as int, k),
                        );
                    assert(0 <= jj < j + 1);
                } else if !here {
                    assert forall|jj: int| 0 <= jj < j + 1 implies !#[trigger] in_square(
                        marks@[jj].0 as int,
                        marks@[jj].1 as int,
                        mark_size as int,
                        column_of(width as int, k),
                        row_of(width as int, k),
                    ) by {
                        if jj < j {
                        }
                    }
                }
            }
        }
        j = j + 1;
    }
    let r = buffer.into_data();
    assert(r@ =~= rendered(width as nat, height as nat, marks@, mark_size as nat));
    r
}

/// Rendering keeps no state from one call to the next: runs of the same
/// number of steps yield the same prime points, and the same marks on
/// buffers of the same size give the same bytes.
pub proof fn lemma_render_repeatable(
    num_points: nat,
    width: nat,
    height: nat,
    marks_a: Seq<(u32, u32)>,
    marks_b: Seq<(u32, u32)>,
    size: nat,
)
    requires
        marks_a == marks_b,
    ensures
        prime_points(num_points) == prime_points(num_points),
        rendered(width, height, marks_a, size) == rendered(width, height, marks_b, size),
{
}

/// With no marks every byte is zero.
pub proof fn lemma_no_marks_blank(width: nat, height: nat, size: nat)
    ensures
        rendered(width, height, Seq::empty(), size) == Seq::new(width * height * 4, |i: int| 0u8),
{
    assert(rendered(width, height, Seq::empty(), size) =~= Seq::new(
        width * height * 4,
        |i: int| 0u8,
    ));
}

} // verus!
