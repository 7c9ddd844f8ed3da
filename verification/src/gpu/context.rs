//! The surface of the window: its size and format, what becomes of a frame, and
//! pictures of it.

use crate::gpu::dispatch::cover;
#[allow(unused_imports)]
use crate::gpu::dispatch::{groups_for, law_groups_cover_the_items};
#[allow(unused_imports)]
use crate::layout::{col, lemma_col_row_of_place, lemma_place_in_grid, place, row};
use vstd::prelude::*;

verus! {

/// Size of the surface.
#[derive(Clone, Copy, PartialEq, Eq, Debug, Structural)]
pub struct SurfaceSize {
    pub width: u32,
    pub height: u32,
}

impl SurfaceSize {
    /// The surface of a window of the given size has at least one pixel.
    pub open spec fn of(width: u32, height: u32) -> SurfaceSize {
        SurfaceSize {
            width: if width >= 1 {
                width
            } else {
                1
            },
            height: if height >= 1 {
                height
            } else {
                1
            },
        }
    }

    /// The size after the window changed to the given one. A window without any
    /// pixels leaves it as it is.
    pub open spec fn resized(self, width: u32, height: u32) -> SurfaceSize {
        if width == 0 || height == 0 {
            self
        } else {
            SurfaceSize { width, height }
        }
    }

    /// Size of the surface of a window of the given size.
    pub fn new(width: u32, height: u32) -> (size: Self)
        ensures
            size == SurfaceSize::of(width, height),
            size.width >= 1,
            size.height >= 1,
    {
        SurfaceSize {
            width: if width >= 1 {
                width
            } else {
                1
            },
            height: if height >= 1 {
                height
            } else {
                1
            },
        }
    }

    /// Follow the window, and say whether the surface is to be configured anew.
    pub fn resize(&mut self, width: u32, height: u32) -> (changed: bool)
        ensures
            *final(self) == old(self).resized(width, height),
            changed == (width != 0 && height != 0),
    {
        if width == 0 || height == 0 {
            return false;
        }
        self.width = width;
        self.height = height;
        true
    }
}

/// The place of the format to use in a list of which it is known which are sRGB:
/// the first of those, or else the first of all.
pub fn pick_format(srgb: &Vec<bool>) -> (k: usize)
    requires
        srgb@.len() > 0,
    ensures
        k < srgb@.len(),
        srgb@[k as int] ==> forall|m: int| 0 <= m < k ==> !srgb@[m],
        !srgb@[k as int] ==> k == 0 && forall|m: int| 0 <= m < srgb@.len() ==> !srgb@[m],
{
    let mut k: usize = 0;
    while k < srgb.len()
        invariant
            k <= srgb@.len(),
            forall|m: int| 0 <= m < k ==> !srgb@[m],
        decreases srgb.len() - k,
    {
        if srgb[k] {
            return k;
        }
        k = k + 1;
    }
    0
}

/// What came of asking for the next frame.
#[derive(Clone, Copy, PartialEq, Eq, Debug, Structural)]
pub enum FrameStatus {
    Success,
    Suboptimal,
    Outdated,
    Lost,
    Other,
}

/// What is done about it.
#[derive(Clone, Copy, PartialEq, Eq, Debug, Structural)]
pub enum FrameAction {
    /// Draw the frame.
    Draw,
    /// Configure the surface anew and leave the frame out.
    Reconfigure,
    /// Leave the frame out.
    Skip,
}

impl FrameStatus {
    /// What is done about it.
    pub open spec fn consequence(self) -> FrameAction {
        match self {
            FrameStatus::Success => FrameAction::Draw,
            FrameStatus::Suboptimal => FrameAction::Draw,
            FrameStatus::Outdated => FrameAction::Reconfigure,
            FrameStatus::Lost => FrameAction::Reconfigure,
            FrameStatus::Other => FrameAction::Skip,
        }
    }
}

/// What to do about the next frame.
pub fn acquire(status: FrameStatus) -> (action: FrameAction)
    ensures
        action == status.consequence(),
{
    match status {
        FrameStatus::Success | FrameStatus::Suboptimal => FrameAction::Draw,
        FrameStatus::Outdated | FrameStatus::Lost => FrameAction::Reconfigure,
        FrameStatus::Other => FrameAction::Skip,
    }
}

/// Bytes from one row of a picture to the next, where rows begin at multiples of
/// `align`.
pub open spec fn pitch(width: int, align: int) -> int {
    groups_for(width * 4, align) * align
}

/// A picture of the given size can be read back.
pub open spec fn readable(width: int, height: int, align: int) -> bool {
    &&& align >= 1
    &&& width * 4 <= u32::MAX
    &&& pitch(width, align) <= u32::MAX
    &&& pitch(width, align) * height <= u32::MAX
}

/// Whether a picture of the given size can be read back.
pub fn can_read_back(width: u32, height: u32, align: u32) -> (ok: bool)
    ensures
        ok == readable(width as int, height as int, align as int),
{
    if align == 0 || width > u32::MAX / 4 {
        return false;
    }
    let rows: u32 = cover(width * 4, align);
    match rows.checked_mul(align) {
        Some(padded) => padded.checked_mul(height).is_some(),
        None => {
            proof {
                assert(0 <= rows * align) by (nonlinear_arith);
            }
            false
        },
    }
}

/// Bytes from one row of a picture to the next, where rows begin at multiples of
/// `align`.
pub fn padded_row(width: u32, align: u32) -> (bytes: u32)
    requires
        align >= 1,
        width * 4 <= u32::MAX,
        pitch(width as int, align as int) <= u32::MAX,
    ensures
        bytes == pitch(width as int, align as int),
{
    let unpadded: u32 = width * 4;
    let rows: u32 = cover(unpadded, align);
    proof {
        assert(rows * align >= 0) by (nonlinear_arith)
            requires
                rows >= 0,
                align >= 0,
        ;
    }
    rows * align
}

/// Size of the buffer that a picture is read back into.
pub fn readback_bytes(width: u32, height: u32, align: u32) -> (bytes: u64)
    requires
        readable(width as int, height as int, align as int),
    ensures
        bytes == pitch(width as int, align as int) * height,
{
    let padded: u32 = padded_row(width, align);
    proof {
        assert(padded * height >= 0) by (nonlinear_arith)
            requires
                padded >= 0,
                height >= 0,
        ;
    }
    (padded * height) as u64
}

/// Byte `ch` of a pixel whose four bytes begin at `at`: red, green, blue, and a
/// full alpha.
pub open spec fn channel(data: Seq<u8>, at: int, ch: int, bgra: bool) -> u8 {
    if ch == 3 {
        255
    } else if bgra {
        data[at + 2 - ch]
    } else {
        data[at + ch]
    }
}

/// The picture that `data` holds with rows `padded` bytes apart, as rows of
/// pixels without gaps.
pub open spec fn unpacked(data: Seq<u8>, width: int, height: int, padded: int, bgra: bool) -> Seq<
    u8,
> {
    Seq::new(
        (4 * (width * height)) as nat,
        |k: int|
            channel(
                data,
                row(k / 4, width) * padded + col(k / 4, width) * 4,
                k % 4,
                bgra,
            ),
    )
}

/// The picture that `data` holds with rows `padded` bytes apart, as rows of
/// pixels without gaps. The bytes of a pixel come as red, green and blue, or in
/// the opposite order; its alpha is made full.
pub fn to_rgba(data: &Vec<u8>, width: u32, height: u32, padded: u32, bgra: bool) -> (rgba: Vec<u8>)
    requires
        4 * width <= padded,
        padded * height <= data@.len(),
    ensures
        rgba@ == unpacked(data@, width as int, height as int, padded as int, bgra),
{
    let mut rgba: Vec<u8> = Vec::new();
    let ghost (w, h, pad) = (width as int, height as int, padded as int);
    let ghost want = unpacked(data@, w, h, pad, bgra);
    proof {
        assert(w * 0 == 0);
        assert(data.len() == data@.len());
        assert(w * h >= 0) by (nonlinear_arith)
            requires
                w >= 0,
                h >= 0,
        ;
    }
    let mut y: u32 = 0;
    while y < height
        invariant
            y <= height,
            w == width,
            h == height,
            pad == padded,
            4 * w <= pad,
            pad * h <= data@.len(),
            data@.len() <= usize::MAX,
            w * h >= 0,
            want == unpacked(data@, w, h, pad, bgra),
            rgba@.len() == 4 * (w * y),
            forall|k: int| 0 <= k < rgba@.len() ==> #[trigger] rgba@[k] == want[k],
        decreases height - y,
    {
        proof {
            assert(w * (y + 1) == w * y + w) by (nonlinear_arith);
            assert(w * (y + 1) <= w * h) by (nonlinear_arith)
                requires
                    y + 1 <= h,
                    w >= 0,
            ;
            assert(0 <= y * pad && y * pad + pad <= pad * h) by (nonlinear_arith)
                requires
                    0 <= y,
                    y + 1 <= h,
                    pad >= 0,
            ;
        }
        let start: usize = y as usize * padded as usize;
        let mut x: u32 = 0;
        while x < width
            invariant
                x <= width,
                y < height,
                w == width,
                h == height,
                pad == padded,
                4 * w <= pad,
                start == y * pad,
                start + pad <= data@.len(),
                data@.len() <= usize::MAX,
                w * y + w <= w * h,
                want == unpacked(data@, w, h, pad, bgra),
                rgba@.len() == 4 * (w * y + x),
                forall|k: int| 0 <= k < rgba@.len() ==> #[trigger] rgba@[k] == want[k],
            decreases width - x,
        {
            let at: usize = start + x as usize * 4;
            let ghost q = place(x as int, y as int, w);
            proof {
                lemma_col_row_of_place(x as int, y as int, w);
                assert(forall|c: int| 0 <= c < 4 ==> #[trigger] ((4 * q + c) / 4) == q);
                assert(want[4 * q] == channel(data@, at as int, 0, bgra));
                assert(want[4 * q + 1] == channel(data@, at as int, 1, bgra));
                assert(want[4 * q + 2] == channel(data@, at as int, 2, bgra));
                assert(want[4 * q + 3] == channel(data@, at as int, 3, bgra));
            }
            if bgra {
                rgba.push(data[at + 2]);
                rgba.push(data[at + 1]);
                rgba.push(data[at]);
            } else {
                rgba.push(data[at]);
                rgba.push(data[at + 1]);
                rgba.push(data[at + 2]);
            }
            rgba.push(255);
            x = x + 1;
        }
        y = y + 1;
    }
    assert(rgba@ =~= want);
    rgba
}

/// An error of the encoder.
#[verifier::external_type_specification]
#[verifier::external_body]
pub struct ExEncodingError(png::EncodingError);

/// What the `png` crate's encoder makes of a picture of `width` by `height`
/// pixels of four bytes, or nothing where it gives an error.
pub uninterp spec fn png_file(rgba: Seq<u8>, width: u32, height: u32) -> Option<Seq<u8>>;

/// Encode a picture with `png`: an `Encoder` into memory, set to four channels of
/// eight bits and otherwise as it comes, its `write_header` and its
/// `write_image_data`.
///
/// It is taken from there that the file, or that there is none, depends on the
/// pixels and the size alone, and that `write_header` gives an error where the
/// picture has no width or no height. What the file holds is not stated, nor that
/// the encoder gives no other error.
#[verifier::external_body]
fn encode_png(rgba: &Vec<u8>, width: u32, height: u32) -> (file: Result<
    Vec<u8>,
    png::EncodingError,
>)
    requires
        rgba@.len() == 4 * (width * height),
    ensures
        match file {
            Ok(bytes) => png_file(rgba@, width, height) == Some(bytes@),
            Err(_) => png_file(rgba@, width, height) is None,
        },
        width == 0 || height == 0 ==> file is Err,
{
    let mut file: Vec<u8> = Vec::new();
    let mut encoder = png::Encoder::new(&mut file, width, height);
    encoder.set_color(png::ColorType::Rgba);
    encoder.set_depth(png::BitDepth::Eight);
    let mut writer = encoder.write_header()?;
    writer.write_image_data(rgba)?;
    drop(writer);
    Ok(file)
}

/// Why there is no picture.
#[derive(Clone, Copy, PartialEq, Eq, Debug, Structural)]
pub enum PictureError {
    /// The picture has no pixels.
    Empty,
    /// The encoder gave an error.
    Encoder,
}

/// What becomes of an encoded picture of the given size.
pub open spec fn picture(file: Option<Seq<u8>>, width: u32, height: u32) -> Result<
    Seq<u8>,
    PictureError,
> {
    if width == 0 || height == 0 {
        Err(PictureError::Empty)
    } else {
        match file {
            Some(bytes) => Ok(bytes),
            None => Err(PictureError::Encoder),
        }
    }
}

/// What becomes of an encoded picture of the given size: nothing can be encoded of
/// one without pixels.
pub fn picture_of(file: Option<Vec<u8>>, width: u32, height: u32) -> (r: Result<
    Vec<u8>,
    PictureError,
>)
    ensures
        match (r, file) {
            (Ok(bytes), Some(given)) => width != 0 && height != 0 && bytes@ == given@,
            (Ok(bytes), None) => false,
            (Err(PictureError::Empty), _) => width == 0 || height == 0,
            (Err(PictureError::Encoder), _) => width != 0 && height != 0 && file is None,
        },
{
    if width == 0 || height == 0 {
        return Err(PictureError::Empty);
    }
    match file {
        Some(bytes) => Ok(bytes),
        None => Err(PictureError::Encoder),
    }
}

/// The file of a picture that was read back with its rows at multiples of
/// `align`.
pub fn save_png(data: &Vec<u8>, width: u32, height: u32, align: u32, bgra: bool) -> (r: Result<
    Vec<u8>,
    PictureError,
>)
    requires
        readable(width as int, height as int, align as int),
        data@.len() == pitch(width as int, align as int) * height,
    ensures
        ({
            let rgba = unpacked(
                data@,
                width as int,
                height as int,
                pitch(width as int, align as int),
                bgra,
            );
            match (r, picture(png_file(rgba, width, height), width, height)) {
                (Ok(bytes), Ok(want)) => bytes@ == want,
                (Err(why), Err(want)) => why == want,
                _ => false,
            }
        }),
{
    let padded: u32 = padded_row(width, align);
    proof {
        law_rows_are_aligned(width as int, align as int);
    }
    let rgba: Vec<u8> = to_rgba(data, width, height, padded, bgra);
    proof {
        assert(0 <= width * height) by (nonlinear_arith)
            requires
                0 <= width,
                0 <= height,
        ;
    }
    let file: Option<Vec<u8>> = match encode_png(&rgba, width, height) {
        Ok(bytes) => Some(bytes),
        Err(_) => None,
    };
    picture_of(file, width, height)
}

/// Rows begin at multiples of the alignment, leave room for all pixels, and waste
/// less than one alignment.
pub proof fn law_rows_are_aligned(width: int, align: int)
    requires
        width >= 0,
        align >= 1,
    ensures
        pitch(width, align) % align == 0,
        4 * width <= pitch(width, align),
        pitch(width, align) < 4 * width + align,
{
    law_groups_cover_the_items(4 * width, align);
    let g = groups_for(4 * width, align);
    assert((g * align) % align == 0) by (nonlinear_arith)
        requires
            align >= 1,
    ;
    assert((g - 1) * align == g * align - align) by (nonlinear_arith);
    assert(0 * align == 0);
}

/// Pixel `(x, y)` of a picture comes from its own four bytes: its colours are
/// theirs, in the order red, green, blue, and it hides all that is behind it.
pub proof fn law_pixels_keep_their_place(
    data: Seq<u8>,
    width: int,
    height: int,
    padded: int,
    bgra: bool,
    x: int,
    y: int,
)
    requires
        0 <= x < width,
        0 <= y < height,
    ensures
        unpacked(data, width, height, padded, bgra).len() == 4 * (width * height),
        ({
            let out = unpacked(data, width, height, padded, bgra);
            let to = 4 * place(x, y, width);
            let from = y * padded + 4 * x;
            &&& 0 <= to
            &&& to + 3 < out.len()
            &&& out[to] == data[if bgra {
                from + 2
            } else {
                from
            }]
            &&& out[to + 1] == data[from + 1]
            &&& out[to + 2] == data[if bgra {
                from
            } else {
                from + 2
            }]
            &&& out[to + 3] == 255
        }),
{
    let q = place(x, y, width);
    lemma_place_in_grid(x, y, width, height);
    lemma_col_row_of_place(x, y, width);
    assert(forall|c: int| 0 <= c < 4 ==> #[trigger] ((4 * q + c) / 4) == q);
}

} // verus!
