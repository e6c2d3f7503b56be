//! The eight orientations that an image's metadata can record, and the
//! resolution of a raw tag value to one of them.

use vstd::prelude::*;
use vstd::std_specs::convert::TryFromSpecImpl;
use crate::codec::{decoded_image, read_image_to_buffer};
use crate::pixels::{PixelBuffer, PixelGrid, Primitive};

verus! {

/// The orientation that an image's metadata records: which rearrangement of
/// the stored pixels shows the picture upright. Each variant is named after
/// the rearrangement that `apply` carries out for it.
#[derive(PartialEq, Eq, Structural, Debug, Clone, Copy)]
pub enum ExifRotation {
    /// Code 1: shown as stored.
    Upright,
    /// Code 2: mirrored left to right.
    FlippedHorizontal,
    /// Code 3: turned half a turn.
    Rotated180,
    /// Code 4: mirrored top to bottom.
    FlippedVertical,
    /// Code 5: mirrored left to right, then turned a quarter turn clockwise.
    Rotated90CWFlippedHorizontal,
    /// Code 6: turned a quarter turn counterclockwise.
    Rotated90CCW,
    /// Code 7: mirrored left to right, then turned a quarter turn
    /// counterclockwise.
    Rotated90CCWFlippedHorizontal,
    /// Code 8: turned a quarter turn clockwise.
    Rotated90CW,
}

/// The number of the orientation field in an image's metadata.
pub const ORIENTATION_TAG: u16 = 0x0112;

/// The number under which the metadata of the picture itself is filed, as
/// against that of its thumbnail.
pub const PRIMARY_IMAGE: u16 = 0;

/// The unsigned integer at place `index` of the value of one metadata field
/// of an image file: the field with the given tag number among the fields of
/// image number `image`. `None` where the file holds no readable metadata, no
/// such field, or a value of another kind or with fewer components.
pub uninterp spec fn exif_unsigned(container: Seq<u8>, tag: u16, image: u16, index: int) -> Option<
    u32,
>;

/// Parses the metadata of an image file held in memory with
/// `exif::Reader::read_from_container`, looks one field up with
/// `exif::Exif::get_field` and reads one component of its value with
/// `exif::Value::get_uint`. A file that cannot be parsed gives `None`, as a
/// missing field does. The contract names the result: it depends on the
/// arguments alone.
#[verifier::external_body]
fn read_exif_unsigned(container: &[u8], tag: u16, image: u16, index: usize) -> (value: Option<u32>)
    ensures
        value == exif_unsigned(container@, tag, image, index as int),
{
    let mut reader = std::io::Cursor::new(container);
    let exif = exif::Reader::new().read_from_container(&mut reader).ok()?;
    let field = exif.get_field(exif::Tag(exif::Context::Tiff, tag), exif::In(image))?;
    field.value.get_uint(index)
}

/// The message of a rejected orientation code.
pub open spec fn unsupported_code_message() -> &'static str {
    "only values 1 to 8 are supported"
}

impl ExifRotation {
    /// The orientation code of the metadata standard, 1 to 8.
    pub open spec fn code(self) -> int {
        match self {
            ExifRotation::Upright => 1,
            ExifRotation::FlippedHorizontal => 2,
            ExifRotation::Rotated180 => 3,
            ExifRotation::FlippedVertical => 4,
            ExifRotation::Rotated90CWFlippedHorizontal => 5,
            ExifRotation::Rotated90CCW => 6,
            ExifRotation::Rotated90CCWFlippedHorizontal => 7,
            ExifRotation::Rotated90CW => 8,
        }
    }

    /// The orientation that a code stands for; `None` outside 1..=8.
    pub open spec fn from_code(code: int) -> Option<ExifRotation> {
        if code == 1 {
            Some(ExifRotation::Upright)
        } else if code == 2 {
            Some(ExifRotation::FlippedHorizontal)
        } else if code == 3 {
            Some(ExifRotation::Rotated180)
        } else if code == 4 {
            Some(ExifRotation::FlippedVertical)
        } else if code == 5 {
            Some(ExifRotation::Rotated90CWFlippedHorizontal)
        } else if code == 6 {
            Some(ExifRotation::Rotated90CCW)
        } else if code == 7 {
            Some(ExifRotation::Rotated90CCWFlippedHorizontal)
        } else if code == 8 {
            Some(ExifRotation::Rotated90CW)
        } else {
            None
        }
    }

    /// What a raw tag resolves to: the orientation of its code, and upright
    /// where the tag is absent or its value is no code.
    pub open spec fn resolve_spec(raw_tag: Option<u32>) -> ExifRotation {
        match raw_tag {
            Some(value) => match Self::from_code(value as int) {
                Some(rotation) => rotation,
                None => ExifRotation::Upright,
            },
            None => ExifRotation::Upright,
        }
    }

    /// The upright grid that this orientation makes of a stored grid. Code 6
    /// turns it a quarter turn counterclockwise and code 8 a quarter turn
    /// clockwise; codes 7 and 5 mirror it left to right first and then turn it
    /// as codes 6 and 8 do.
    pub open spec fn apply_spec(self, grid: PixelGrid) -> PixelGrid {
        match self {
            ExifRotation::Upright => grid,
            ExifRotation::FlippedHorizontal => grid.transformed(Primitive::FlipHorizontal),
            ExifRotation::Rotated180 => grid.transformed(Primitive::Rotate180),
            ExifRotation::FlippedVertical => grid.transformed(Primitive::FlipVertical),
            ExifRotation::Rotated90CWFlippedHorizontal => grid.transformed(
                Primitive::FlipHorizontal,
            ).transformed(Primitive::Rotate90),
            ExifRotation::Rotated90CCW => grid.transformed(Primitive::Rotate270),
            ExifRotation::Rotated90CCWFlippedHorizontal => grid.transformed(
                Primitive::FlipHorizontal,
            ).transformed(Primitive::Rotate270),
            ExifRotation::Rotated90CW => grid.transformed(Primitive::Rotate90),
        }
    }

    /// Whether a raw tag is none that the table knows, so that `Upright` is
    /// assumed for it: the tag is absent or its value is no code.
    pub open spec fn is_assumed(raw_tag: Option<u32>) -> bool {
        match raw_tag {
            Some(value) => Self::from_code(value as int) is None,
            None => true,
        }
    }

    /// The raw orientation tag of an image file: the first number of the
    /// orientation field of its picture.
    pub open spec fn tag_in(container: Seq<u8>) -> Option<u32> {
        exif_unsigned(container, ORIENTATION_TAG, PRIMARY_IMAGE, 0)
    }

    /// The orientation that an image file records for its picture: what its
    /// orientation field resolves to.
    pub open spec fn recorded_in(container: Seq<u8>) -> ExifRotation {
        Self::resolve_spec(Self::tag_in(container))
    }

    /// Whether correcting this orientation exchanges width and height.
    pub open spec fn swaps_axes(self) -> bool {
        self.code() >= 5
    }

    /// Brings an image upright as this orientation says. `Upright` hands the
    /// buffer back as it came; every other orientation builds a new buffer.
    pub fn apply(&self, image_buffer: PixelBuffer) -> (upright: PixelBuffer)
        ensures
            upright@ == self.apply_spec(image_buffer@),
            upright@.well_formed(),
    {
        match self {
            ExifRotation::Upright => {
                let _ = image_buffer.samples();
                image_buffer
            },
            ExifRotation::FlippedHorizontal => image_buffer.transformed(Primitive::FlipHorizontal),
            ExifRotation::Rotated180 => image_buffer.transformed(Primitive::Rotate180),
            ExifRotation::FlippedVertical => image_buffer.transformed(Primitive::FlipVertical),
            ExifRotation::Rotated90CWFlippedHorizontal => image_buffer.transformed(
                Primitive::FlipHorizontal,
            ).transformed(Primitive::Rotate90),
            ExifRotation::Rotated90CCW => image_buffer.transformed(Primitive::Rotate270),
            ExifRotation::Rotated90CCWFlippedHorizontal => image_buffer.transformed(
                Primitive::FlipHorizontal,
            ).transformed(Primitive::Rotate270),
            ExifRotation::Rotated90CW => image_buffer.transformed(Primitive::Rotate90),
        }
    }

    /// Whether `resolve` assumes `Upright` for a raw tag because the tag is
    /// absent or no code. A caller that keeps a log notes these.
    pub fn assumes_upright(raw_tag: Option<u32>) -> (assumed: bool)
        ensures
            assumed == Self::is_assumed(raw_tag),
            assumed ==> Self::resolve_spec(raw_tag) == ExifRotation::Upright,
    {
        match raw_tag {
            Some(value) => value < 1 || value > 8,
            None => true,
        }
    }

    /// Reads the raw orientation tag of an image file held in memory; `None`
    /// where the file holds no readable metadata or no such field.
    pub fn read_orientation_tag(container: &[u8]) -> (raw_tag: Option<u32>)
        ensures
            raw_tag == Self::tag_in(container@),
    {
        read_exif_unsigned(container, ORIENTATION_TAG, PRIMARY_IMAGE, 0)
    }

    /// Reads the orientation that an image file records in its metadata.
    /// Unreadable metadata, a missing orientation field and a value that is no
    /// orientation code all give `Upright`.
    pub fn read_rotation_from_exif(exif_data: &[u8]) -> (rotation: ExifRotation)
        ensures
            rotation == Self::recorded_in(exif_data@),
    {
        Self::resolve(Self::read_orientation_tag(exif_data))
    }

    /// The code of this orientation.
    pub fn to_code(&self) -> (code: u32)
        ensures
            code == self.code(),
            1 <= code <= 8,
    {
        match self {
            ExifRotation::Upright => 1,
            ExifRotation::FlippedHorizontal => 2,
            ExifRotation::Rotated180 => 3,
            ExifRotation::FlippedVertical => 4,
            ExifRotation::Rotated90CWFlippedHorizontal => 5,
            ExifRotation::Rotated90CCW => 6,
            ExifRotation::Rotated90CCWFlippedHorizontal => 7,
            ExifRotation::Rotated90CW => 8,
        }
    }

    /// Resolves a raw orientation tag. A missing tag and a value outside
    /// 1..=8 both give `Upright`: bad metadata never stops the work on an image.
    pub fn resolve(raw_tag: Option<u32>) -> (rotation: ExifRotation)
        ensures
            rotation == Self::resolve_spec(raw_tag),
    {
        match raw_tag {
            Some(value) => match ExifRotation::try_from(value) {
                Ok(rotation) => rotation,
                Err(_) => ExifRotation::Upright,
            },
            None => ExifRotation::Upright,
        }
    }
}

impl TryFrom<u32> for ExifRotation {
    type Error = &'static str;

    /// The orientation of a code; any value outside 1..=8 is refused.
    fn try_from(value: u32) -> (result: Result<Self, Self::Error>) {
        match value {
            1 => Ok(ExifRotation::Upright),
            2 => Ok(ExifRotation::FlippedHorizontal),
            3 => Ok(ExifRotation::Rotated180),
            4 => Ok(ExifRotation::FlippedVertical),
            5 => Ok(ExifRotation::Rotated90CWFlippedHorizontal),
            6 => Ok(ExifRotation::Rotated90CCW),
            7 => Ok(ExifRotation::Rotated90CCWFlippedHorizontal),
            8 => Ok(ExifRotation::Rotated90CW),
            _ => Err("only values 1 to 8 are supported"),
        }
    }
}

impl TryFromSpecImpl<u32> for ExifRotation {
    open spec fn obeys_try_from_spec() -> bool {
        true
    }

    open spec fn try_from_spec(value: u32) -> Result<Self, Self::Error> {
        match Self::from_code(value as int) {
            Some(rotation) => Ok(rotation),
            None => Err(unsupported_code_message()),
        }
    }
}

/// Every orientation is the one that its own code stands for, and a code in
/// 1..=8 is the code of the orientation it stands for.
pub proof fn lemma_code_round_trip(rotation: ExifRotation, code: int)
    ensures
        ExifRotation::from_code(rotation.code()) == Some(rotation),
        1 <= rotation.code() <= 8,
        1 <= code <= 8 ==> ExifRotation::from_code(code) is Some && ExifRotation::from_code(
            code,
        )->0.code() == code,
        !(1 <= code <= 8) ==> ExifRotation::from_code(code) is None,
{
}

/// The upright picture of a source file: its decoded pixels, corrected for
/// the orientation that the file records. `None` where the file does not decode.
pub open spec fn corrected_image(path: Seq<char>, contents: Seq<u8>) -> Option<PixelGrid> {
    match decoded_image(path, contents) {
        Some(grid) => Some(ExifRotation::recorded_in(contents).apply_spec(grid)),
        None => None,
    }
}

/// Decodes a source file and brings its picture upright. The file's name
/// gives the format, its bytes the pixels and the orientation. A file that
/// decodes always gives a picture, whatever state its metadata is in; only a
/// file that does not decode gives `None`.
pub fn fix_rotation(filename: &str, contents: &[u8]) -> (image: Option<PixelBuffer>)
    ensures
        image matches Some(b) ==> corrected_image(filename@, contents@) == Some(b@)
            && b@.well_formed(),
        image is None ==> corrected_image(filename@, contents@) is None,
{
    match read_image_to_buffer(filename, contents) {
        Some(image_buffer) => {
            let rotation = ExifRotation::read_rotation_from_exif(contents);
            Some(rotation.apply(image_buffer))
        },
        None => None,
    }
}

/// Correcting an upright image changes nothing.
pub proof fn lemma_apply_upright_is_identity(grid: PixelGrid)
    ensures
        ExifRotation::Upright.apply_spec(grid) == grid,
{
}

/// Correcting twice for a half turn gives the image back.
pub proof fn lemma_apply_rotated180_twice(grid: PixelGrid)
    requires
        grid.well_formed(),
    ensures
        ExifRotation::Rotated180.apply_spec(ExifRotation::Rotated180.apply_spec(grid)) == grid,
{
    crate::pixels::lemma_rotate180_involution(grid);
}

/// Correcting twice for a left-right mirroring gives the image back.
pub proof fn lemma_apply_flipped_horizontal_twice(grid: PixelGrid)
    requires
        grid.well_formed(),
    ensures
        ExifRotation::FlippedHorizontal.apply_spec(
            ExifRotation::FlippedHorizontal.apply_spec(grid),
        ) == grid,
{
    crate::pixels::lemma_flip_horizontal_involution(grid);
}

/// Correction keeps every pixel: the result is well formed and as large as the
/// source, with width and height exchanged exactly for the codes 5 to 8.
pub proof fn lemma_apply_keeps_size(rotation: ExifRotation, grid: PixelGrid)
    requires
        grid.well_formed(),
    ensures
        rotation.apply_spec(grid).well_formed(),
        rotation.apply_spec(grid).samples.len() == grid.samples.len(),
        rotation.swaps_axes() ==> rotation.apply_spec(grid).width == grid.height
            && rotation.apply_spec(grid).height == grid.width,
        !rotation.swaps_axes() ==> rotation.apply_spec(grid).width == grid.width
            && rotation.apply_spec(grid).height == grid.height,
{
    crate::pixels::lemma_transformed_well_formed(grid, Primitive::FlipHorizontal);
    crate::pixels::lemma_transformed_well_formed(grid, Primitive::FlipVertical);
    crate::pixels::lemma_transformed_well_formed(grid, Primitive::Rotate90);
    crate::pixels::lemma_transformed_well_formed(grid, Primitive::Rotate180);
    crate::pixels::lemma_transformed_well_formed(grid, Primitive::Rotate270);
    let flipped = grid.transformed(Primitive::FlipHorizontal);
    crate::pixels::lemma_transformed_well_formed(flipped, Primitive::Rotate90);
    crate::pixels::lemma_transformed_well_formed(flipped, Primitive::Rotate270);
}

/// Where the quarter turns take each pixel. For code 6, the counterclockwise
/// turn, the upright picture holds at column `x`, row `y` the stored pixel of
/// column `width - 1 - y`, row `x`; for code 8, the clockwise turn, that of
/// column `y`, row `height - 1 - x`.
pub proof fn lemma_apply_quarter_turns(grid: PixelGrid, x: int, y: int, channel: int)
    requires
        grid.well_formed(),
        0 <= x < grid.height,
        0 <= y < grid.width,
        0 <= channel < 4,
    ensures
        ExifRotation::Rotated90CCW.apply_spec(grid).width == grid.height,
        ExifRotation::Rotated90CCW.apply_spec(grid).height == grid.width,
        ExifRotation::Rotated90CCW.apply_spec(grid).sample(x, y, channel) == grid.sample(
            grid.width - 1 - y,
            x,
            channel,
        ),
        ExifRotation::Rotated90CW.apply_spec(grid).width == grid.height,
        ExifRotation::Rotated90CW.apply_spec(grid).height == grid.width,
        ExifRotation::Rotated90CW.apply_spec(grid).sample(x, y, channel) == grid.sample(
            y,
            grid.height - 1 - x,
            channel,
        ),
{
    crate::pixels::lemma_transformed_sample(grid, Primitive::Rotate270, x, y, channel);
    crate::pixels::lemma_transformed_sample(grid, Primitive::Rotate90, x, y, channel);
}

/// Codes 5 and 7 are the quarter turns of codes 8 and 6 after a mirroring
/// left to right. So code 5 mirrors the stored picture along the diagonal
/// from its top-right to its bottom-left corner, and code 7 along the other
/// one, rows for columns.
pub proof fn lemma_apply_diagonal_codes(grid: PixelGrid, x: int, y: int, channel: int)
    requires
        grid.well_formed(),
        0 <= x < grid.height,
        0 <= y < grid.width,
        0 <= channel < 4,
    ensures
        ExifRotation::Rotated90CWFlippedHorizontal.apply_spec(grid)
            == ExifRotation::Rotated90CW.apply_spec(
            ExifRotation::FlippedHorizontal.apply_spec(grid),
        ),
        ExifRotation::Rotated90CCWFlippedHorizontal.apply_spec(grid)
            == ExifRotation::Rotated90CCW.apply_spec(
            ExifRotation::FlippedHorizontal.apply_spec(grid),
        ),
        ExifRotation::Rotated90CWFlippedHorizontal.apply_spec(grid).sample(x, y, channel)
            == grid.sample(grid.width - 1 - y, grid.height - 1 - x, channel),
        ExifRotation::Rotated90CCWFlippedHorizontal.apply_spec(grid).sample(x, y, channel)
            == grid.sample(y, x, channel),
{
    let flipped = grid.transformed(Primitive::FlipHorizontal);
    crate::pixels::lemma_transformed_well_formed(grid, Primitive::FlipHorizontal);
    crate::pixels::lemma_transformed_sample(flipped, Primitive::Rotate90, x, y, channel);
    crate::pixels::lemma_transformed_sample(
        grid,
        Primitive::FlipHorizontal,
        y,
        grid.height - 1 - x,
        channel,
    );
    crate::pixels::lemma_transformed_sample(flipped, Primitive::Rotate270, x, y, channel);
    crate::pixels::lemma_transformed_sample(
        grid,
        Primitive::FlipHorizontal,
        grid.width - 1 - y,
        x,
        channel,
    );
}

} // verus!
