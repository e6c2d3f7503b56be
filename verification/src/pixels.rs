//! Pixel buffers and the exact rearrangements of their pixels: two flips and
//! three quarter-turn rotations. No sample value is ever changed, only moved.

use vstd::prelude::*;
use vstd::arithmetic::div_mod::lemma_fundamental_div_mod_converse;

verus! {

/// The mathematical content of a pixel buffer: its size and its samples, row
/// by row from the top-left corner, four samples per pixel.
pub struct PixelGrid {
    pub width: nat,
    pub height: nat,
    pub samples: Seq<u8>,
}

/// One of the five rearrangements that orientation correction is made of.
/// The rotations are named by the clockwise angle by which the picture turns.
#[derive(PartialEq, Eq, Structural, Debug, Clone, Copy)]
pub enum Primitive {
    /// Mirrors left to right.
    FlipHorizontal,
    /// Mirrors top to bottom.
    FlipVertical,
    /// Turns a quarter turn clockwise: the top-left pixel lands top-right,
    /// and the result holds at column `x`, row `y` the source's pixel of
    /// column `y`, row `height - 1 - x`.
    Rotate90,
    /// Turns half a turn.
    Rotate180,
    /// Turns a quarter turn counterclockwise: the top-left pixel lands
    /// bottom-left, and the result holds at column `x`, row `y` the source's
    /// pixel of column `width - 1 - y`, row `x`.
    Rotate270,
}

/// The place of one sample in the row-major sequence of a grid `width` wide.
pub open spec fn sample_index(width: int, x: int, y: int, channel: int) -> int {
    4 * (y * width + x) + channel
}

impl Primitive {
    /// Whether the result is as wide as the source is high.
    pub open spec fn swaps_axes(self) -> bool {
        self == Primitive::Rotate90 || self == Primitive::Rotate270
    }

    /// The column in a `width` x `height` source of the pixel that lands at
    /// column `x`, row `y` of the result.
    pub open spec fn source_x(self, width: int, height: int, x: int, y: int) -> int {
        match self {
            Primitive::FlipHorizontal => width - 1 - x,
            Primitive::FlipVertical => x,
            Primitive::Rotate90 => y,
            Primitive::Rotate180 => width - 1 - x,
            Primitive::Rotate270 => width - 1 - y,
        }
    }

    /// The row in a `width` x `height` source of the pixel that lands at
    /// column `x`, row `y` of the result.
    pub open spec fn source_y(self, width: int, height: int, x: int, y: int) -> int {
        match self {
            Primitive::FlipHorizontal => y,
            Primitive::FlipVertical => height - 1 - y,
            Primitive::Rotate90 => height - 1 - x,
            Primitive::Rotate180 => height - 1 - y,
            Primitive::Rotate270 => x,
        }
    }
}

impl PixelGrid {
    /// The samples fill the grid exactly.
    pub open spec fn well_formed(self) -> bool {
        self.samples.len() == 4 * self.width * self.height
    }

    /// The sample of one channel of the pixel at column `x`, row `y`.
    pub open spec fn sample(self, x: int, y: int, channel: int) -> u8 {
        self.samples[sample_index(self.width as int, x, y, channel)]
    }

    /// Width of the grid that a primitive makes of this one.
    pub open spec fn transformed_width(self, primitive: Primitive) -> nat {
        if primitive.swaps_axes() {
            self.height
        } else {
            self.width
        }
    }

    /// Height of the grid that a primitive makes of this one.
    pub open spec fn transformed_height(self, primitive: Primitive) -> nat {
        if primitive.swaps_axes() {
            self.width
        } else {
            self.height
        }
    }

    /// The sample that stands at place `i` of the rearranged grid.
    pub open spec fn transformed_sample(self, primitive: Primitive, i: int) -> u8 {
        let pixel = i / 4;
        let x = pixel % (self.transformed_width(primitive) as int);
        let y = pixel / (self.transformed_width(primitive) as int);
        self.sample(
            primitive.source_x(self.width as int, self.height as int, x, y),
            primitive.source_y(self.width as int, self.height as int, x, y),
            i % 4,
        )
    }

    /// The grid that a primitive makes of this one: every pixel of the result
    /// is the pixel of the source that `source_x` and `source_y` name.
    pub open spec fn transformed(self, primitive: Primitive) -> PixelGrid {
        PixelGrid {
            width: self.transformed_width(primitive),
            height: self.transformed_height(primitive),
            samples: Seq::new(
                4 * self.width * self.height,
                |i: int| self.transformed_sample(primitive, i),
            ),
        }
    }
}

/// A sample's place determines its column, row and channel.
pub proof fn lemma_sample_index_parts(width: int, height: int, x: int, y: int, channel: int)
    requires
        0 <= x < width,
        0 <= y < height,
        0 <= channel < 4,
    ensures
        0 <= sample_index(width, x, y, channel) < 4 * width * height,
        sample_index(width, x, y, channel) % 4 == channel,
        sample_index(width, x, y, channel) / 4 == y * width + x,
        (y * width + x) % width == x,
        (y * width + x) / width == y,
        0 <= y * width + x < width * height,
{
    let pixel = y * width + x;
    assert(0 <= y * width && (y + 1) * width <= height * width) by (nonlinear_arith)
        requires
            0 <= y < height,
            0 < width,
    ;
    assert((y + 1) * width == y * width + width) by (nonlinear_arith);
    assert(height * width == width * height) by (nonlinear_arith);
    assert(4 * width * height == 4 * (width * height)) by (nonlinear_arith);
    lemma_fundamental_div_mod_converse(pixel, width, y, x);
    lemma_fundamental_div_mod_converse(sample_index(width, x, y, channel), 4, pixel, channel);
}

/// Every place below `4 * width * height` is the place of one sample of the grid.
pub proof fn lemma_sample_index_covers(width: int, height: int, i: int)
    requires
        0 <= width,
        0 <= height,
        0 <= i < 4 * width * height,
    ensures
        0 < width,
        0 <= (i / 4) % width < width,
        0 <= (i / 4) / width < height,
        0 <= i % 4 < 4,
        sample_index(width, (i / 4) % width, (i / 4) / width, i % 4) == i,
{
    assert(4 * width * height == 4 * (width * height)) by (nonlinear_arith);
    assert(width != 0) by (nonlinear_arith)
        requires
            0 < 4 * width * height,
    ;
    let pixel = i / 4;
    assert(0 <= pixel < width * height);
    let y = pixel / width;
    let x = pixel % width;
    assert(pixel == width * y + x) by {
        vstd::arithmetic::div_mod::lemma_fundamental_div_mod(pixel, width);
    }
    assert(0 <= x < width) by {
        vstd::arithmetic::div_mod::lemma_mod_bound(pixel, width);
    }
    assert(0 <= y < height) by (nonlinear_arith)
        requires
            0 <= pixel < width * height,
            pixel == width * y + x,
            0 <= x < width,
    ;
    assert(width * y == y * width) by (nonlinear_arith);
}

/// A primitive turns a well-formed grid into a well-formed grid with as many
/// pixels, and each pixel of the result comes from where the primitive says.
pub proof fn lemma_transformed_sample(
    grid: PixelGrid,
    primitive: Primitive,
    x: int,
    y: int,
    channel: int,
)
    requires
        grid.well_formed(),
        0 <= x < grid.transformed_width(primitive),
        0 <= y < grid.transformed_height(primitive),
        0 <= channel < 4,
    ensures
        grid.transformed(primitive).well_formed(),
        0 <= primitive.source_x(grid.width as int, grid.height as int, x, y) < grid.width,
        0 <= primitive.source_y(grid.width as int, grid.height as int, x, y) < grid.height,
        grid.transformed(primitive).sample(x, y, channel) == grid.sample(
            primitive.source_x(grid.width as int, grid.height as int, x, y),
            primitive.source_y(grid.width as int, grid.height as int, x, y),
            channel,
        ),
{
    let w = grid.width as int;
    let h = grid.height as int;
    let tw = grid.transformed_width(primitive) as int;
    let th = grid.transformed_height(primitive) as int;
    assert(4 * tw * th == 4 * w * h) by (nonlinear_arith)
        requires
            (tw == w && th == h) || (tw == h && th == w),
    ;
    lemma_sample_index_parts(tw, th, x, y, channel);
}

/// The size of a rearranged grid.
pub proof fn lemma_transformed_well_formed(grid: PixelGrid, primitive: Primitive)
    requires
        grid.well_formed(),
    ensures
        grid.transformed(primitive).well_formed(),
        grid.transformed(primitive).samples.len() == grid.samples.len(),
{
    let w = grid.width as int;
    let h = grid.height as int;
    let tw = grid.transformed_width(primitive) as int;
    let th = grid.transformed_height(primitive) as int;
    assert(4 * tw * th == 4 * w * h) by (nonlinear_arith)
        requires
            (tw == w && th == h) || (tw == h && th == w),
    ;
}

/// Turning a grid by half a turn twice gives the grid back.
pub proof fn lemma_rotate180_involution(grid: PixelGrid)
    requires
        grid.well_formed(),
    ensures
        grid.transformed(Primitive::Rotate180).transformed(Primitive::Rotate180) == grid,
{
    lemma_same_axes_involution(grid, Primitive::Rotate180);
}

/// Mirroring a grid left to right twice gives the grid back.
pub proof fn lemma_flip_horizontal_involution(grid: PixelGrid)
    requires
        grid.well_formed(),
    ensures
        grid.transformed(Primitive::FlipHorizontal).transformed(Primitive::FlipHorizontal) == grid,
{
    lemma_same_axes_involution(grid, Primitive::FlipHorizontal);
}

/// Mirroring a grid top to bottom twice gives the grid back.
pub proof fn lemma_flip_vertical_involution(grid: PixelGrid)
    requires
        grid.well_formed(),
    ensures
        grid.transformed(Primitive::FlipVertical).transformed(Primitive::FlipVertical) == grid,
{
    lemma_same_axes_involution(grid, Primitive::FlipVertical);
}

/// A quarter turn one way followed by a quarter turn the other way gives the
/// grid back, in either order.
pub proof fn lemma_quarter_turns_cancel(grid: PixelGrid)
    requires
        grid.well_formed(),
    ensures
        grid.transformed(Primitive::Rotate90).transformed(Primitive::Rotate270) == grid,
        grid.transformed(Primitive::Rotate270).transformed(Primitive::Rotate90) == grid,
{
    lemma_inverse_pair(grid, Primitive::Rotate90, Primitive::Rotate270);
    lemma_inverse_pair(grid, Primitive::Rotate270, Primitive::Rotate90);
}

/// Each flip and the half turn is its own inverse.
proof fn lemma_same_axes_involution(grid: PixelGrid, primitive: Primitive)
    requires
        grid.well_formed(),
        !primitive.swaps_axes(),
    ensures
        grid.transformed(primitive).transformed(primitive) == grid,
{
    lemma_inverse_pair(grid, primitive, primitive);
}

/// Whether `second` sends every pixel back to where `first` took it from.
spec fn undoes(first: Primitive, second: Primitive) -> bool {
    match first {
        Primitive::Rotate90 => second == Primitive::Rotate270,
        Primitive::Rotate270 => second == Primitive::Rotate90,
        _ => second == first,
    }
}

proof fn lemma_inverse_pair(grid: PixelGrid, first: Primitive, second: Primitive)
    requires
        grid.well_formed(),
        undoes(first, second),
    ensures
        grid.transformed(first).transformed(second) == grid,
{
    let once = grid.transformed(first);
    let twice = once.transformed(second);
    lemma_transformed_well_formed(grid, first);
    lemma_transformed_well_formed(once, second);
    let w = grid.width as int;
    let h = grid.height as int;
    assert(twice.width == grid.width && twice.height == grid.height);
    assert forall|i: int| 0 <= i < grid.samples.len() implies twice.samples[i]
        == grid.samples[i] by {
        lemma_sample_index_covers(w, h, i);
        let x = (i / 4) % w;
        let y = (i / 4) / w;
        let c = i % 4;
        let mx = second.source_x(once.width as int, once.height as int, x, y);
        let my = second.source_y(once.width as int, once.height as int, x, y);
        lemma_transformed_sample(once, second, x, y, c);
        lemma_transformed_sample(grid, first, mx, my, c);
        assert(twice.samples[i] == twice.sample(x, y, c));
        assert(grid.samples[i] == grid.sample(x, y, c));
    }
    assert(twice.samples =~= grid.samples);
}

/// A width x height grid of RGBA samples of eight bits, row-major from the
/// top-left corner. The samples always fill the grid exactly.
pub struct PixelBuffer {
    width: u32,
    height: u32,
    data: Vec<u8>,
}

impl View for PixelBuffer {
    type V = PixelGrid;

    closed spec fn view(&self) -> PixelGrid {
        PixelGrid { width: self.width as nat, height: self.height as nat, samples: self.data@ }
    }
}

impl PixelBuffer {
    #[verifier::type_invariant]
    spec fn filled(&self) -> bool {
        self.data@.len() == 4 * self.width * self.height
    }

    /// Makes a buffer of the given size from its samples. The samples must fill
    /// the grid exactly: four for each of `width * height` pixels.
    pub fn from_raw(width: u32, height: u32, samples: Vec<u8>) -> (buffer: Option<PixelBuffer>)
        ensures
            buffer is Some <==> samples@.len() == 4 * width * height,
            buffer matches Some(b) ==> b@ == (PixelGrid {
                width: width as nat,
                height: height as nat,
                samples: samples@,
            }),
    {
        assert(width * height <= u32::MAX * u32::MAX) by (nonlinear_arith)
            requires
                width <= u32::MAX,
                height <= u32::MAX,
        ;
        let pixels: u64 = (width as u64) * (height as u64);
        assert(4 * width * height == 4 * (width * height)) by (nonlinear_arith);
        let length: u64 = samples.len() as u64;
        if length % 4 == 0 && length / 4 == pixels {
            Some(PixelBuffer { width, height, data: samples })
        } else {
            None
        }
    }

    /// Puts a buffer together from samples that are known to fill the grid.
    pub(crate) fn assemble(width: u32, height: u32, samples: Vec<u8>) -> (buffer: PixelBuffer)
        requires
            samples@.len() == 4 * width * height,
        ensures
            buffer@ == (PixelGrid {
                width: width as nat,
                height: height as nat,
                samples: samples@,
            }),
    {
        PixelBuffer { width, height, data: samples }
    }

    /// Number of pixel columns.
    pub fn width(&self) -> (width: u32)
        ensures
            width == self@.width,
    {
        self.width
    }

    /// Number of pixel rows.
    pub fn height(&self) -> (height: u32)
        ensures
            height == self@.height,
    {
        self.height
    }

    /// The samples, row by row.
    pub fn samples(&self) -> (samples: &Vec<u8>)
        ensures
            samples@ == self@.samples,
            self@.well_formed(),
    {
        proof {
            use_type_invariant(self);
        }
        &self.data
    }

    /// Gives the samples up, row by row.
    pub fn into_raw(self) -> (samples: Vec<u8>)
        ensures
            samples@ == self@.samples,
            self@.well_formed(),
    {
        proof {
            use_type_invariant(&self);
        }
        self.data
    }

    /// The four samples of the pixel at column `x`, row `y`; `None` outside the grid.
    pub fn get_pixel(&self, x: u32, y: u32) -> (pixel: Option<[u8; 4]>)
        ensures
            pixel is Some <==> x < self@.width && y < self@.height,
            pixel matches Some(p) ==> forall|c: int|
                0 <= c < 4 ==> p[c] == #[trigger] self@.sample(x as int, y as int, c),
    {
        proof {
            use_type_invariant(self);
        }
        let length = self.data.len();
        if x < self.width && y < self.height {
            proof {
                lemma_sample_index_parts(
                    self.width as int,
                    self.height as int,
                    x as int,
                    y as int,
                    0,
                );
                lemma_sample_index_parts(
                    self.width as int,
                    self.height as int,
                    x as int,
                    y as int,
                    3,
                );
            }
            let base: usize = 4 * (y as usize * self.width as usize + x as usize);
            Some([self.data[base], self.data[base + 1], self.data[base + 2], self.data[base + 3]])
        } else {
            None
        }
    }

    /// Rearranges the pixels as the primitive says, into a new buffer. The
    /// buffer it is given stays as it is.
    pub fn transformed(&self, primitive: Primitive) -> (result: PixelBuffer)
        ensures
            result@ == self@.transformed(primitive),
            result@.well_formed(),
            self@.well_formed(),
    {
        proof {
            use_type_invariant(self);
            lemma_transformed_well_formed(self@, primitive);
        }
        let w = self.width;
        let h = self.height;
        let swaps = match primitive {
            Primitive::Rotate90 | Primitive::Rotate270 => true,
            _ => false,
        };
        let out_width = if swaps { h } else { w };
        let out_height = if swaps { w } else { h };
        let ghost target = self@.transformed(primitive);
        let length = self.data.len();
        let mut out: Vec<u8> = Vec::with_capacity(length);
        let mut y: u32 = 0;
        while y < out_height
            invariant
                self.filled(),
                w == self.width,
                h == self.height,
                out_width == self@.transformed_width(primitive),
                out_height == self@.transformed_height(primitive),
                target == self@.transformed(primitive),
                target.samples.len() == self.data@.len(),
                length == self.data@.len(),
                y <= out_height,
                out@.len() == 4 * (y * out_width),
                out@.len() <= target.samples.len(),
                forall|i: int| 0 <= i < out@.len() ==> out@[i] == target.samples[i],
            decreases out_height - y,
        {
            let mut x: u32 = 0;
            while x < out_width
                invariant
                    self.filled(),
                    w == self.width,
                    h == self.height,
                    out_width == self@.transformed_width(primitive),
                    out_height == self@.transformed_height(primitive),
                    target == self@.transformed(primitive),
                    target.samples.len() == self.data@.len(),
                length == self.data@.len(),
                    y < out_height,
                    x <= out_width,
                    out@.len() == 4 * (y * out_width + x),
                    out@.len() <= target.samples.len(),
                    forall|i: int| 0 <= i < out@.len() ==> out@[i] == target.samples[i],
                decreases out_width - x,
            {
                let source_x = match primitive {
                    Primitive::FlipHorizontal | Primitive::Rotate180 => w - 1 - x,
                    Primitive::FlipVertical => x,
                    Primitive::Rotate90 => y,
                    Primitive::Rotate270 => w - 1 - y,
                };
                let source_y = match primitive {
                    Primitive::FlipHorizontal => y,
                    Primitive::FlipVertical | Primitive::Rotate180 => h - 1 - y,
                    Primitive::Rotate90 => h - 1 - x,
                    Primitive::Rotate270 => x,
                };
                proof {
                    lemma_sample_index_parts(
                        w as int,
                        h as int,
                        source_x as int,
                        source_y as int,
                        0,
                    );
                    lemma_sample_index_parts(
                        w as int,
                        h as int,
                        source_x as int,
                        source_y as int,
                        3,
                    );
                    lemma_sample_index_parts(
                        out_width as int,
                        out_height as int,
                        x as int,
                        y as int,
                        3,
                    );
                    assert(4 * out_width * out_height == 4 * w * h) by (nonlinear_arith)
                        requires
                            (out_width == w && out_height == h) || (out_width == h && out_height
                                == w),
                    ;
                }
                let base: usize = 4 * (source_y as usize * w as usize + source_x as usize);
                let ghost start = out@.len() as int;
                out.push(self.data[base]);
                out.push(self.data[base + 1]);
                out.push(self.data[base + 2]);
                out.push(self.data[base + 3]);
                proof {
                    assert forall|i: int| 0 <= i < out@.len() implies out@[i]
                        == target.samples[i] by {
                        if i >= start {
                            let c = i - start;
                            lemma_sample_index_parts(
                                out_width as int,
                                out_height as int,
                                x as int,
                                y as int,
                                c,
                            );
                            assert(i == sample_index(out_width as int, x as int, y as int, c));
                            assert(out@[i] == self.data@[base as int + c]);
                            assert(target.samples[i] == self@.transformed_sample(primitive, i));
                            assert(base as int + c == sample_index(
                                w as int,
                                source_x as int,
                                source_y as int,
                                c,
                            ));
                        }
                    }
                }
                x = x + 1;
            }
            proof {
                assert((y + 1) * out_width == y * out_width + out_width) by (nonlinear_arith);
            }
            y = y + 1;
        }
        proof {
            assert(y * out_width == out_width * out_height) by (nonlinear_arith)
                requires
                    y == out_height,
            ;
            assert(4 * (out_width * out_height) == 4 * self.width * self.height)
                by (nonlinear_arith)
                requires
                    (out_width == self.width && out_height == self.height) || (out_width
                        == self.height && out_height == self.width),
            ;
            assert(out@ =~= target.samples);
        }
        PixelBuffer { width: out_width, height: out_height, data: out }
    }
}

} // verus!
